//! The raw belt measurements the firmware logs before each calibration
//! recompute, `CLBM:[{bl:.., br:.., tr:.., tl:..}, ...]`, taken apart into
//! the number texts of each measurement; the solver that uses them works in
//! floating point and is the caller's.

use crate::fluidnc::{is_f64_literal, parses_as_f64};
use crate::text::{
    char_views, chars_of, find, find_char, find_chars, is_ascii_digit, is_digit, opt_text, slice_of,
    split_chars, split_on, split_once, split_once_chars, string_of, trim, trim_chars,
};
use vstd::prelude::*;

verus! {

/// The number texts of one measurement, per belt; a belt the entry did not
/// give reads as zero.
#[derive(Clone, Debug)]
pub struct BeltTexts {
    pub tl: Option<String>,
    pub tr: Option<String>,
    pub bl: Option<String>,
    pub br: Option<String>,
}

/// Belt texts as plain values: tl, tr, bl, br.
pub type BeltView = (Option<Seq<char>>, Option<Seq<char>>, Option<Seq<char>>, Option<Seq<char>>);

pub open spec fn belt_view(b: BeltTexts) -> BeltView {
    (opt_text(b.tl), opt_text(b.tr), opt_text(b.bl), opt_text(b.br))
}

/// The list between the brackets after `CLBM:`.
pub open spec fn clbm_body(line: Seq<char>) -> Option<Seq<char>> {
    let i = find(line, "CLBM:["@);
    if i < 0 {
        None
    } else {
        let b = line.skip(i + 5);
        let open = find_char(b, '[');
        if open < 0 {
            None
        } else {
            let c = find_char(b.skip(open), ']');
            if c < 0 {
                None
            } else {
                Some(b.subrange(open + 1, open + c))
            }
        }
    }
}

/// Separators skipped before an entry's `{`.
pub open spec fn is_gap(c: char) -> bool {
    c == ',' || c == ' ' || c == '\t'
}

pub open spec fn skip_gaps(s: Seq<char>) -> Seq<char>
    decreases s.len(),
{
    if s.len() > 0 && is_gap(s[0]) {
        skip_gaps(s.drop_first())
    } else {
        s
    }
}

/// One `key:value` of an entry applied to the belt texts and the count of
/// values taken: a value counts when it parses as a number and its key is
/// one of the four belts (a repeated key counts again and wins).
pub open spec fn take_value(acc: (BeltView, int), kv: Seq<char>) -> (BeltView, int) {
    match split_once(kv, ':') {
        None => acc,
        Some((k, v)) => {
            let key = trim(k);
            let val = trim(v);
            let b = acc.0;
            if !is_f64_literal(val) {
                acc
            } else if key == "tl"@ {
                ((Some(val), b.1, b.2, b.3), acc.1 + 1)
            } else if key == "tr"@ {
                ((b.0, Some(val), b.2, b.3), acc.1 + 1)
            } else if key == "bl"@ {
                ((b.0, b.1, Some(val), b.3), acc.1 + 1)
            } else if key == "br"@ {
                ((b.0, b.1, b.2, Some(val)), acc.1 + 1)
            } else {
                acc
            }
        },
    }
}

pub open spec fn take_values(kvs: Seq<Seq<char>>) -> (BeltView, int)
    decreases kvs.len(),
{
    if kvs.len() == 0 {
        ((None, None, None, None), 0)
    } else {
        take_value(take_values(kvs.drop_last()), kvs.last())
    }
}

/// The measurement an entry gives, if it gave four values.
pub open spec fn entry_belts(chunk: Seq<char>) -> Option<BeltView> {
    let c = skip_gaps(chunk);
    if c.len() > 0 && c[0] == '{' {
        let r = take_values(split_on(c.skip(1), ','));
        if r.1 == 4 {
            Some(r.0)
        } else {
            None
        }
    } else {
        None
    }
}

/// The measurements of the entries, in order.
pub open spec fn entries_belts(chunks: Seq<Seq<char>>) -> Seq<BeltView>
    decreases chunks.len(),
{
    if chunks.len() == 0 {
        seq![]
    } else {
        let r = entries_belts(chunks.drop_last());
        match entry_belts(chunks.last()) {
            Some(b) => r.push(b),
            None => r,
        }
    }
}

/// The measurements a line logs: `None` when it has none.
pub open spec fn clbm_of(line: Seq<char>) -> Option<Seq<BeltView>> {
    match clbm_body(line) {
        None => None,
        Some(body) => {
            let ms = entries_belts(split_on(body, '}'));
            if ms.len() == 0 {
                None
            } else {
                Some(ms)
            }
        },
    }
}

fn skip_gaps_exec(s: &[char]) -> (out: Vec<char>)
    ensures
        out@ == skip_gaps(s@),
{
    let mut i: usize = 0;
    proof {
        assert(s@.skip(0) =~= s@);
    }
    while i < s.len() && (s[i] == ',' || s[i] == ' ' || s[i] == '\t')
        invariant
            i <= s@.len(),
            skip_gaps(s@) == skip_gaps(s@.skip(i as int)),
        decreases s@.len() - i,
    {
        proof {
            assert(s@.skip(i as int).drop_first() =~= s@.skip(i + 1));
        }
        i += 1;
    }
    let n = s.len();
    let out = crate::text::slice_of(s, i, n);
    proof {
        assert(out@ =~= s@.skip(i as int));
    }
    out
}

fn is_word(s: &[char], w: &str) -> (b: bool)
    ensures
        b == (s@ == w@),
{
    crate::text::slice_eq(s, chars_of(w).as_slice())
}

fn entry(chunk: &[char]) -> (r: Option<BeltTexts>)
    ensures
        match r {
            Some(b) => entry_belts(chunk@) == Some(belt_view(b)),
            None => entry_belts(chunk@) is None,
        },
{
    let c = skip_gaps_exec(chunk);
    if !(c.len() > 0 && c[0] == '{') {
        return None;
    }
    let n = c.len();
    let obj = crate::text::slice_of(c.as_slice(), 1, n);
    proof {
        assert(obj@ =~= c@.skip(1));
    }
    let kvs = split_chars(obj.as_slice(), ',');
    let ghost ks = char_views(kvs@);
    let mut b = BeltTexts { tl: None, tr: None, bl: None, br: None };
    let mut found: usize = 0;
    let mut i: usize = 0;
    proof {
        assert(ks.take(0) =~= seq![]);
    }
    while i < kvs.len()
        invariant
            i <= kvs@.len(),
            ks == char_views(kvs@),
            found <= i,
            take_values(ks.take(i as int)) == (belt_view(b), found as int),
        decreases kvs@.len() - i,
    {
        proof {
            let t = ks.take(i + 1);
            assert(t.drop_last() =~= ks.take(i as int));
            assert(t.last() == kvs@[i as int]@);
        }
        match split_once_chars(kvs[i].as_slice(), ':') {
            None => {},
            Some((k, v)) => {
                let key = trim_chars(k.as_slice());
                let val = trim_chars(v.as_slice());
                let vs = string_of(val.as_slice());
                if parses_as_f64(vs.as_str()) {
                    if is_word(key.as_slice(), "tl") {
                        b.tl = Some(vs);
                        found += 1;
                    } else if is_word(key.as_slice(), "tr") {
                        b.tr = Some(vs);
                        found += 1;
                    } else if is_word(key.as_slice(), "bl") {
                        b.bl = Some(vs);
                        found += 1;
                    } else if is_word(key.as_slice(), "br") {
                        b.br = Some(vs);
                        found += 1;
                    }
                }
            },
        }
        i += 1;
    }
    proof {
        assert(ks.take(kvs@.len() as int) =~= ks);
    }
    if found == 4 {
        Some(b)
    } else {
        None
    }
}

/// Take apart a `CLBM:[...]` line (possibly inside a `[MSG:INFO: ...]`
/// log line) into the number texts of its measurements, in order; `None`
/// when it is not such a line or holds no complete measurement.
pub fn clbm_entries(line: &str) -> (r: Option<Vec<BeltTexts>>)
    ensures
        match r {
            Some(v) => clbm_of(line@) == Some(v@.map_values(|b: BeltTexts| belt_view(b))),
            None => clbm_of(line@) is None,
        },
{
    let s = chars_of(line);
    let pat = chars_of("CLBM:[");
    proof {
        reveal_strlit("CLBM:[");
        assert(pat@.len() == 6);
    }
    let i = match crate::text::find_chars(s.as_slice(), pat.as_slice()) {
        Some(i) => i,
        None => {
            return None;
        },
    };
    proof {
        crate::text::lemma_find(s@, pat@);
        assert(crate::text::matches_at(s@, i as int, pat@));
    }
    let n = s.len();
    let b = crate::text::slice_of(s.as_slice(), i + 5, n);
    proof {
        assert(b@ =~= s@.skip(i + 5));
    }
    let lb = ['['];
    let rb = [']'];
    proof {
        assert(lb@ =~= seq!['[']);
        assert(rb@ =~= seq![']']);
    }
    let open = match crate::text::find_chars(b.as_slice(), &lb) {
        Some(o) => o,
        None => {
            return None;
        },
    };
    proof {
        crate::text::lemma_find(b@, seq!['[']);
        assert(crate::text::matches_at(b@, open as int, seq!['[']));
        assert(seq!['['].len() == 1);
    }
    let bn = b.len();
    let rest = crate::text::slice_of(b.as_slice(), open, bn);
    proof {
        assert(rest@ =~= b@.skip(open as int));
    }
    let c = match crate::text::find_chars(rest.as_slice(), &rb) {
        Some(c) => c,
        None => {
            return None;
        },
    };
    proof {
        crate::text::lemma_find(rest@, seq![']']);
        assert(crate::text::matches_at(rest@, c as int, seq![']']));
        assert(rest@[0] == '[');
        assert(c >= 1);
    }
    let body = crate::text::slice_of(b.as_slice(), open + 1, open + c);
    let chunks = split_chars(body.as_slice(), '}');
    let ghost cs = char_views(chunks@);
    let mut out: Vec<BeltTexts> = Vec::new();
    let mut k: usize = 0;
    proof {
        assert(cs.take(0) =~= seq![]);
        assert(out@.map_values(|b: BeltTexts| belt_view(b)) =~= seq![]);
    }
    while k < chunks.len()
        invariant
            k <= chunks@.len(),
            cs == char_views(chunks@),
            out@.map_values(|b: BeltTexts| belt_view(b)) == entries_belts(cs.take(k as int)),
        decreases chunks@.len() - k,
    {
        proof {
            let t = cs.take(k + 1);
            assert(t.drop_last() =~= cs.take(k as int));
            assert(t.last() == chunks@[k as int]@);
        }
        let ghost prev = out@.map_values(|b: BeltTexts| belt_view(b));
        match entry(chunks[k].as_slice()) {
            Some(e) => {
                out.push(e);
                proof {
                    assert(out@.map_values(|b: BeltTexts| belt_view(b)) =~= prev.push(belt_view(out@.last())));
                }
            },
            None => {},
        }
        k += 1;
    }
    proof {
        assert(cs.take(chunks@.len() as int) =~= cs);
    }
    if out.len() == 0 {
        None
    } else {
        Some(out)
    }
}

// ---------------------------------------------------------------------------
// The firmware's fit summary and recomputed anchors
// ---------------------------------------------------------------------------

/// A character that may continue a number after `key=`.
pub open spec fn is_num_char(c: char) -> bool {
    is_digit(c) || c == '.' || c == '-' || c == '+' || c == 'e'
}

/// Length of the run of number characters at the start of `s`.
pub open spec fn num_run(s: Seq<char>) -> nat
    decreases s.len(),
{
    if s.len() == 0 || !is_num_char(s[0]) {
        0
    } else {
        1 + num_run(s.drop_first())
    }
}

/// The number text right after the first `key`, when it parses as a float.
pub open spec fn number_after(line: Seq<char>, key: Seq<char>) -> Option<Seq<char>> {
    let i = find(line, key);
    if i < 0 {
        None
    } else {
        let s = line.skip(i + key.len());
        let t = s.take(num_run(s) as int);
        if is_f64_literal(t) {
            Some(t)
        } else {
            None
        }
    }
}

/// The four per-anchor numbers of `perAnchor=[a,b,c,d]` (further ones are
/// ignored), when each parses as a float.
pub open spec fn per_anchor_of(line: Seq<char>) -> Option<Seq<Seq<char>>> {
    let i = find(line, "perAnchor=["@);
    if i < 0 {
        None
    } else {
        let s = line.skip(i + "perAnchor=["@.len());
        let end = find_char(s, ']');
        if end < 0 {
            None
        } else {
            four_numbers(split_on(s.take(end), ','))
        }
    }
}

/// The first four of `parts`, trimmed, when there are four and each parses
/// as a float.
pub open spec fn four_numbers(parts: Seq<Seq<char>>) -> Option<Seq<Seq<char>>> {
    if parts.len() >= 4 && forall|k: int| 0 <= k < 4 ==> is_f64_literal(#[trigger] trim(parts[k])) {
        Some(Seq::new(4, |k: int| trim(parts[k])))
    } else {
        None
    }
}

/// A `Find Anchors fit: rms=..mm max=..mm perAnchor=[..]mm converged=..`
/// line: the texts of the rms, the largest residual, the four per-anchor
/// figures and, when present, the converged flag.
pub open spec fn fit_of(line: Seq<char>) -> Option<(Seq<char>, Seq<char>, Seq<Seq<char>>, Option<Seq<char>>)> {
    if find(line, "Find Anchors fit:"@) < 0 {
        None
    } else {
        match (per_anchor_of(line), number_after(line, "rms="@), number_after(line, "max="@)) {
            (Some(per), Some(rms), Some(max)) => Some((rms, max, per, number_after(line, "converged="@))),
            _ => None,
        }
    }
}

/// The two numbers of `key(a,b)`, when both parse as floats.
pub open spec fn pair_after(line: Seq<char>, key: Seq<char>) -> Option<(Seq<char>, Seq<char>)> {
    let i = find(line, key);
    if i < 0 {
        None
    } else {
        let s = line.skip(i + key.len());
        let open = find_char(s, '(');
        if open < 0 {
            None
        } else {
            let c = find_char(s.skip(open), ')');
            if c < 0 {
                None
            } else {
                match split_once(s.subrange(open + 1, open + c), ',') {
                    None => None,
                    Some((a, b)) => if is_f64_literal(trim(a)) && is_f64_literal(trim(b)) {
                        Some((trim(a), trim(b)))
                    } else {
                        None
                    },
                }
            }
        }
    }
}

/// A `Find Anchors recompute complete: tl=(x,y) tr=(x,y) brX=..` line: the
/// texts of the recomputed anchor coordinates.
pub open spec fn recompute_of(line: Seq<char>) -> Option<((Seq<char>, Seq<char>), (Seq<char>, Seq<char>), Seq<char>)> {
    if find(line, "recompute complete"@) < 0 {
        None
    } else {
        match (pair_after(line, "tl="@), pair_after(line, "tr="@), number_after(line, "brX="@)) {
            (Some(tl), Some(tr), Some(br)) => Some((tl, tr, br)),
            _ => None,
        }
    }
}

/// The firmware's fit summary, as number texts.
#[derive(Clone, Debug)]
pub struct FitTexts {
    pub rms: String,
    pub max_residual: String,
    /// tl, tr, bl, br.
    pub per_anchor: Vec<String>,
    /// The converged flag's number, when the line gives one.
    pub converged: Option<String>,
}

/// The firmware's recomputed anchors, as number texts.
#[derive(Clone, Debug)]
pub struct RecomputeTexts {
    pub tl_x: String,
    pub tl_y: String,
    pub tr_x: String,
    pub tr_y: String,
    pub br_x: String,
}

fn num_run_exec(s: &[char]) -> (e: usize)
    ensures
        e == num_run(s@),
        e <= s@.len(),
{
    let mut i: usize = 0;
    proof {
        assert(s@.skip(0) =~= s@);
    }
    while i < s.len() && (is_ascii_digit(s[i]) || s[i] == '.' || s[i] == '-' || s[i] == '+' || s[i] == 'e')
        invariant
            i <= s@.len(),
            num_run(s@) == i + num_run(s@.skip(i as int)),
        decreases s@.len() - i,
    {
        proof {
            assert(s@.skip(i as int).drop_first() =~= s@.skip(i + 1));
        }
        i += 1;
    }
    proof {
        if i < s@.len() {
            assert(s@.skip(i as int)[0] == s@[i as int]);
        }
    }
    i
}

/// The text after the first `key`, or `None` when `key` does not occur.
fn after_key(line: &[char], key: &str) -> (r: Option<Vec<char>>)
    ensures
        match r {
            Some(s) => find(line@, key@) >= 0 && s@ == line@.skip(find(line@, key@) + key@.len()),
            None => find(line@, key@) < 0,
        },
{
    let k = chars_of(key);
    match find_chars(line, k.as_slice()) {
        None => None,
        Some(i) => {
            proof {
                crate::text::lemma_find(line@, k@);
            }
            let n = line.len();
            let s = slice_of(line, i + k.len(), n);
            proof {
                assert(s@ =~= line@.skip(i + k@.len()));
            }
            Some(s)
        },
    }
}

fn number_after_exec(line: &[char], key: &str) -> (r: Option<String>)
    ensures
        match r {
            Some(t) => number_after(line@, key@) == Some(t@),
            None => number_after(line@, key@) is None,
        },
{
    match after_key(line, key) {
        None => None,
        Some(s) => {
            let e = num_run_exec(s.as_slice());
            let t = slice_of(s.as_slice(), 0, e);
            proof {
                assert(t@ =~= s@.take(e as int));
            }
            let ts = string_of(t.as_slice());
            if parses_as_f64(ts.as_str()) {
                Some(ts)
            } else {
                None
            }
        },
    }
}

fn per_anchor_exec(line: &[char]) -> (r: Option<Vec<String>>)
    ensures
        match r {
            Some(v) => per_anchor_of(line@) == Some(v@.map_values(|t: String| t@)),
            None => per_anchor_of(line@) is None,
        },
{
    proof {
        reveal_strlit("perAnchor=[");
    }
    let s = match after_key(line, "perAnchor=[") {
        None => return None,
        Some(s) => s,
    };
    let rb = [']'];
    proof {
        assert(rb@ =~= seq![']']);
    }
    let end = match find_chars(s.as_slice(), &rb) {
        None => return None,
        Some(e) => e,
    };
    proof {
        crate::text::lemma_find(s@, seq![']']);
    }
    let body = slice_of(s.as_slice(), 0, end);
    proof {
        assert(body@ =~= s@.take(end as int));
    }
    let parts = split_chars(body.as_slice(), ',');
    let ghost ps = char_views(parts@);
    if parts.len() < 4 {
        return None;
    }
    let mut out: Vec<String> = Vec::new();
    let mut k: usize = 0;
    while k < 4
        invariant
            k <= 4 <= parts@.len(),
            ps == char_views(parts@),
            per_anchor_of(line@) == four_numbers(ps),
            out@.len() == k,
            forall|m: int| 0 <= m < k ==> is_f64_literal(#[trigger] trim(ps[m])) && out@[m]@ == trim(ps[m]),
        decreases 4 - k,
    {
        let t = trim_chars(parts[k].as_slice());
        let ts = string_of(t.as_slice());
        if !parses_as_f64(ts.as_str()) {
            proof {
                assert(!is_f64_literal(trim(ps[k as int])));
            }
            return None;
        }
        out.push(ts);
        k += 1;
    }
    proof {
        assert(out@.map_values(|t: String| t@) =~= Seq::new(4, |m: int| trim(ps[m])));
    }
    Some(out)
}

fn pair_after_exec(line: &[char], key: &str) -> (r: Option<(String, String)>)
    ensures
        match r {
            Some((a, b)) => pair_after(line@, key@) == Some((a@, b@)),
            None => pair_after(line@, key@) is None,
        },
{
    let s = match after_key(line, key) {
        None => return None,
        Some(s) => s,
    };
    let lp = ['('];
    let rp = [')'];
    proof {
        assert(lp@ =~= seq!['(']);
        assert(rp@ =~= seq![')']);
    }
    let open = match find_chars(s.as_slice(), &lp) {
        None => return None,
        Some(o) => o,
    };
    proof {
        crate::text::lemma_find(s@, seq!['(']);
        assert(crate::text::matches_at(s@, open as int, seq!['(']));
        assert(seq!['('].len() == 1);
    }
    let n = s.len();
    let rest = slice_of(s.as_slice(), open, n);
    proof {
        assert(rest@ =~= s@.skip(open as int));
    }
    let c = match find_chars(rest.as_slice(), &rp) {
        None => return None,
        Some(c) => c,
    };
    proof {
        crate::text::lemma_find(rest@, seq![')']);
        assert(crate::text::matches_at(rest@, c as int, seq![')']));
        assert(rest@[0] == '(');
        assert(c >= 1);
    }
    let inner = slice_of(s.as_slice(), open + 1, open + c);
    match split_once_chars(inner.as_slice(), ',') {
        None => None,
        Some((a, b)) => {
            let ta = string_of(trim_chars(a.as_slice()).as_slice());
            let tb = string_of(trim_chars(b.as_slice()).as_slice());
            if parses_as_f64(ta.as_str()) && parses_as_f64(tb.as_str()) {
                Some((ta, tb))
            } else {
                None
            }
        },
    }
}

/// Take apart the firmware's fit summary line into its number texts;
/// `None` when it is not one or a required number is missing.
pub fn fit_texts(line: &str) -> (r: Option<FitTexts>)
    ensures
        match r {
            Some(f) => fit_of(line@) == Some((f.rms@, f.max_residual@, f.per_anchor@.map_values(|t: String| t@), opt_text(f.converged))),
            None => fit_of(line@) is None,
        },
{
    let s = chars_of(line);
    let marker = chars_of("Find Anchors fit:");
    if find_chars(s.as_slice(), marker.as_slice()).is_none() {
        return None;
    }
    let per = per_anchor_exec(s.as_slice());
    let rms = number_after_exec(s.as_slice(), "rms=");
    let max = number_after_exec(s.as_slice(), "max=");
    match (per, rms, max) {
        (Some(per), Some(rms), Some(max)) => {
            let converged = number_after_exec(s.as_slice(), "converged=");
            Some(FitTexts { rms, max_residual: max, per_anchor: per, converged })
        },
        _ => None,
    }
}

/// Take apart the firmware's recompute line into the anchor coordinate
/// texts; `None` when it is not one or a coordinate is missing.
pub fn recompute_texts(line: &str) -> (r: Option<RecomputeTexts>)
    ensures
        match r {
            Some(t) => recompute_of(line@) == Some(((t.tl_x@, t.tl_y@), (t.tr_x@, t.tr_y@), t.br_x@)),
            None => recompute_of(line@) is None,
        },
{
    let s = chars_of(line);
    let marker = chars_of("recompute complete");
    if find_chars(s.as_slice(), marker.as_slice()).is_none() {
        return None;
    }
    let tl = pair_after_exec(s.as_slice(), "tl=");
    let tr = pair_after_exec(s.as_slice(), "tr=");
    let br = number_after_exec(s.as_slice(), "brX=");
    match (tl, tr, br) {
        (Some((tl_x, tl_y)), Some((tr_x, tr_y)), Some(br_x)) => Some(RecomputeTexts { tl_x, tl_y, tr_x, tr_y, br_x }),
        _ => None,
    }
}

// ---------------------------------------------------------------------------
// Solver selection
// ---------------------------------------------------------------------------

/// The firmware-equivalent partitioned Levenberg-Marquardt anchor solver;
/// its arithmetic is floating point and is the caller's.
pub struct LevenbergMarquardt;

impl LevenbergMarquardt {
    /// The solver's id.
    pub fn name(&self) -> (n: &'static str)
        ensures
            n@ == "levenberg-marquardt"@,
    {
        "levenberg-marquardt"
    }
}

/// The solver an id selects: the Levenberg-Marquardt one, by its id or by
/// the empty id; no solver for any other id.
pub fn solver_by_name(name: &str) -> (r: Option<LevenbergMarquardt>)
    ensures
        r is Some <==> (name@ == "levenberg-marquardt"@ || name@ == ""@),
{
    if crate::text::str_eq(name, "levenberg-marquardt") || crate::text::str_eq(name, "") {
        Some(LevenbergMarquardt)
    } else {
        None
    }
}

} // verus!
