//! Generic FluidNC config tree handling.
//!
//! `$CD` (Config/Dump) returns the whole machine config as YAML. It is
//! flattened into a list of leaf settings keyed by their `$/`-style path so
//! every field can be shown and written back via `$/<path>=<value>`.

use crate::api_error::{ApiError, ErrorKind};
use crate::text::{
    all_digits, all_digits_exec, append, byte_len, char_views, chars_of, find_char, find_chars,
    int_literal_ok, lacks, lead_ws, lead_ws_exec, lines, literal_digits, parse_digits, sign_len,
    own, sign_len_exec, slice_eq, slice_of, split_lines, str_eq, string_of, trim, trim_chars, trim_end,
    trim_end_chars, trim_start, trim_start_chars, upper_chars, upper_seq,
};
use vstd::prelude::*;

verus! {

/// Best-effort value type, used by the UI to pick an input widget.
#[derive(Clone, Copy, Debug, PartialEq, Eq, Structural)]
pub enum ConfigKind {
    Bool,
    Int,
    Float,
    Text,
}

/// One editable leaf of the config tree. `path` is the `/`-joined key path
/// that `$/<path>=<value>` expects (e.g. `axes/x/steps_per_mm`).
#[derive(Clone, Debug)]
pub struct ConfigEntry {
    pub path: String,
    pub value: String,
    pub kind: ConfigKind,
}

// ---------------------------------------------------------------------------
// Value classification
// ---------------------------------------------------------------------------

/// What `str::parse::<i64>` accepts: an optional sign, at least one decimal
/// digit and nothing else, with the value inside the `i64` range.
pub open spec fn is_i64_literal(s: Seq<char>) -> bool {
    int_literal_ok(s, i64::MAX as int)
}

/// The exponent of a float literal after its `e`: `Sign? Digit+`.
pub open spec fn is_exponent(e: Seq<char>) -> bool {
    let d = e.skip(sign_len(e));
    d.len() > 0 && all_digits(d)
}

/// `Digit+ | Digit+ '.' Digit* | Digit* '.' Digit+`.
pub open spec fn is_mantissa(m: Seq<char>) -> bool {
    let q = find_char(m, '.');
    if q < 0 {
        m.len() > 0 && all_digits(m)
    } else {
        all_digits(m.take(q)) && all_digits(m.skip(q + 1)) && m.len() > 1
    }
}

/// `Mantissa Exp?`, the exponent introduced by `e` or `E`.
pub open spec fn is_number(b: Seq<char>) -> bool {
    let p = find_char(upper_seq(b), 'E');
    if p < 0 {
        is_mantissa(b)
    } else {
        is_mantissa(b.take(p)) && is_exponent(b.skip(p + 1))
    }
}

/// What `str::parse::<f64>` accepts, per its documented grammar: an optional
/// sign, then `inf`, `infinity`, `nan` (any case) or a decimal number.
pub open spec fn is_f64_literal(s: Seq<char>) -> bool {
    let b = s.skip(sign_len(s));
    let u = upper_seq(b);
    u == "INF"@ || u == "INFINITY"@ || u == "NAN"@ || is_number(b)
}

/// The kind of a config value: the booleans, then integers, then floats,
/// else text.
pub open spec fn kind_of(v: Seq<char>) -> ConfigKind {
    if v == "true"@ || v == "false"@ {
        ConfigKind::Bool
    } else if is_i64_literal(v) {
        ConfigKind::Int
    } else if is_f64_literal(v) {
        ConfigKind::Float
    } else {
        ConfigKind::Text
    }
}

/// Would `str::parse::<i64>` succeed on `value`?
pub fn parses_as_i64(value: &str) -> (b: bool)
    ensures
        b == is_i64_literal(value@),
{
    let s = chars_of(value);
    let k = sign_len_exec(s.as_slice());
    let d = slice_of(s.as_slice(), k, s.len());
    proof {
        assert(d@ =~= literal_digits(s@));
    }
    if d.len() == 0 || !all_digits_exec(d.as_slice()) {
        return false;
    }
    let limit: u64 = if k == 1 && s[0] == '-' {
        9223372036854775808
    } else {
        9223372036854775807
    };
    proof {
        assert(d@.subrange(0, d@.len() as int) =~= d@);
    }
    parse_digits(d.as_slice(), 0, d.len(), limit).is_some()
}

/// Index of the first `c` in `s`.
fn find_one(s: &[char], c: char) -> (r: Option<usize>)
    ensures
        match r {
            Some(i) => find_char(s@, c) == i as int,
            None => find_char(s@, c) == -1,
        },
{
    let pat = [c];
    proof {
        assert(pat@ =~= seq![c]);
    }
    find_chars(s, &pat)
}

fn is_exponent_exec(e: &[char]) -> (b: bool)
    ensures
        b == is_exponent(e@),
{
    let k = sign_len_exec(e);
    let d = slice_of(e, k, e.len());
    proof {
        assert(d@ =~= e@.skip(k as int));
    }
    d.len() > 0 && all_digits_exec(d.as_slice())
}

fn is_mantissa_exec(m: &[char]) -> (b: bool)
    ensures
        b == is_mantissa(m@),
{
    match find_one(m, '.') {
        None => m.len() > 0 && all_digits_exec(m),
        Some(q) => {
            proof {
                crate::text::lemma_find(m@, seq!['.']);
                assert(crate::text::matches_at(m@, q as int, seq!['.']));
                assert(seq!['.'].len() == 1);
                assert(q < m@.len());
            }
            let head = slice_of(m, 0, q);
            let n = m.len();
            let tail = slice_of(m, q + 1, n);
            proof {
                assert(head@ =~= m@.take(q as int));
                assert(tail@ =~= m@.skip(q + 1));
            }
            all_digits_exec(head.as_slice()) && all_digits_exec(tail.as_slice()) && m.len() > 1
        },
    }
}

fn is_number_exec(b: &[char]) -> (r: bool)
    ensures
        r == is_number(b@),
{
    let u = upper_chars(b);
    match find_one(u.as_slice(), 'E') {
        None => is_mantissa_exec(b),
        Some(p) => {
            proof {
                crate::text::lemma_find(upper_seq(b@), seq!['E']);
                assert(crate::text::matches_at(u@, p as int, seq!['E']));
                assert(seq!['E'].len() == 1);
                assert(p < b@.len());
            }
            let head = slice_of(b, 0, p);
            let n = b.len();
            let tail = slice_of(b, p + 1, n);
            proof {
                assert(head@ =~= b@.take(p as int));
                assert(tail@ =~= b@.skip(p + 1));
            }
            is_mantissa_exec(head.as_slice()) && is_exponent_exec(tail.as_slice())
        },
    }
}

/// Would `str::parse::<f64>` succeed on `value`?
pub fn parses_as_f64(value: &str) -> (r: bool)
    ensures
        r == is_f64_literal(value@),
{
    let s = chars_of(value);
    let k = sign_len_exec(s.as_slice());
    let b = slice_of(s.as_slice(), k, s.len());
    proof {
        assert(b@ =~= s@.skip(k as int));
    }
    let u = upper_chars(b.as_slice());
    let inf = chars_of("INF");
    let infinity = chars_of("INFINITY");
    let nan = chars_of("NAN");
    slice_eq(u.as_slice(), inf.as_slice()) || slice_eq(u.as_slice(), infinity.as_slice())
        || slice_eq(u.as_slice(), nan.as_slice()) || is_number_exec(b.as_slice())
}

/// Classify a config value: `true`/`false` are booleans, then whatever
/// parses as an `i64` is an integer, whatever parses as an `f64` a float,
/// anything else text.
pub fn classify(value: &str) -> (k: ConfigKind)
    ensures
        k == kind_of(value@),
{
    if crate::text::str_eq(value, "true") || crate::text::str_eq(value, "false") {
        ConfigKind::Bool
    } else if parses_as_i64(value) {
        ConfigKind::Int
    } else if parses_as_f64(value) {
        ConfigKind::Float
    } else {
        ConfigKind::Text
    }
}

// ---------------------------------------------------------------------------
// Flattening a config dump
// ---------------------------------------------------------------------------

/// An open group on the section stack: its indentation (in bytes) and key.
pub open spec fn frame_views(s: Seq<(usize, Vec<char>)>) -> Seq<(int, Seq<char>)> {
    s.map_values(|f: (usize, Vec<char>)| (f.0 as int, f.1@))
}

/// An entry as plain values: path, value, kind.
pub open spec fn entry_views(s: Seq<ConfigEntry>) -> Seq<(Seq<char>, Seq<char>, ConfigKind)> {
    s.map_values(|e: ConfigEntry| (e.path@, e.value@, e.kind))
}

/// Close every open group indented at least as deep as `indent`.
pub open spec fn pop_deeper(stack: Seq<(int, Seq<char>)>, indent: int) -> Seq<(int, Seq<char>)>
    decreases stack.len(),
{
    if stack.len() > 0 && stack.last().0 >= indent {
        pop_deeper(stack.drop_last(), indent)
    } else {
        stack
    }
}

/// The open group keys, each followed by `/`.
pub open spec fn path_prefix(stack: Seq<(int, Seq<char>)>) -> Seq<char>
    decreases stack.len(),
{
    if stack.len() == 0 {
        seq![]
    } else {
        path_prefix(stack.drop_last()) + stack.last().1 + seq!['/']
    }
}

/// Indentation of a line: the byte length of its leading whitespace.
pub open spec fn indent_of(line: Seq<char>) -> int {
    byte_len(line.take(lead_ws(line)))
}

/// One line of the dump applied to the section stack and the entries so far.
/// Blank lines, comments and sequence items are skipped; otherwise deeper or
/// equal groups close, and a `key:` opens a group while a `key: value`
/// becomes a leaf under the open groups. Lines without a colon or with an
/// empty key change nothing more.
pub open spec fn flatten_step(
    st: (Seq<(int, Seq<char>)>, Seq<(Seq<char>, Seq<char>, ConfigKind)>),
    raw: Seq<char>,
) -> (Seq<(int, Seq<char>)>, Seq<(Seq<char>, Seq<char>, ConfigKind)>) {
    let line = trim_end(raw);
    let t = trim_start(line);
    if t.len() == 0 || t[0] == '#' || t[0] == '-' {
        st
    } else {
        let indent = indent_of(line);
        let stack = pop_deeper(st.0, indent);
        let c = find_char(t, ':');
        if c < 0 {
            (stack, st.1)
        } else {
            let key = trim(t.take(c));
            let value = trim(t.skip(c + 1));
            if key.len() == 0 {
                (stack, st.1)
            } else if value.len() == 0 {
                (stack.push((indent, key)), st.1)
            } else {
                (stack, st.1.push((path_prefix(stack) + key, value, kind_of(value))))
            }
        }
    }
}

/// The state after the given lines, from an empty stack and no entries.
pub open spec fn flatten_lines(ls: Seq<Seq<char>>) -> (
    Seq<(int, Seq<char>)>,
    Seq<(Seq<char>, Seq<char>, ConfigKind)>,
)
    decreases ls.len(),
{
    if ls.len() == 0 {
        (seq![], seq![])
    } else {
        flatten_step(flatten_lines(ls.drop_last()), ls.last())
    }
}

/// The leaf entries of a `$CD` dump.
pub open spec fn flattened(dump: Seq<char>) -> Seq<(Seq<char>, Seq<char>, ConfigKind)> {
    flatten_lines(lines(dump)).1
}

/// Is the innermost open group indented at least `indent` deep?
fn top_at_least(stack: &Vec<(usize, Vec<char>)>, indent: usize) -> (b: bool)
    ensures
        b == (stack@.len() > 0 && frame_views(stack@).last().0 >= indent),
{
    let n = stack.len();
    if n == 0 {
        false
    } else {
        stack[n - 1].0 >= indent
    }
}

/// The group path of the open stack followed by `key`.
fn path_of(stack: &Vec<(usize, Vec<char>)>, key: &[char]) -> (p: Vec<char>)
    ensures
        p@ == path_prefix(frame_views(stack@)) + key@,
{
    let mut acc: Vec<char> = Vec::new();
    let mut j: usize = 0;
    while j < stack.len()
        invariant
            j <= stack@.len(),
            acc@ == path_prefix(frame_views(stack@).take(j as int)),
        decreases stack@.len() - j,
    {
        proof {
            let t = frame_views(stack@).take(j + 1);
            assert(t.drop_last() =~= frame_views(stack@).take(j as int));
            assert(t.last() == (stack@[j as int].0 as int, stack@[j as int].1@));
        }
        append(&mut acc, stack[j].1.as_slice());
        acc.push('/');
        j += 1;
    }
    proof {
        assert(frame_views(stack@).take(stack@.len() as int) =~= frame_views(stack@));
    }
    append(&mut acc, key);
    acc
}

/// Apply one raw line of the dump.
fn flatten_line(stack: &mut Vec<(usize, Vec<char>)>, out: &mut Vec<ConfigEntry>, raw: &[char])
    ensures
        (frame_views(final(stack)@), entry_views(final(out)@)) == flatten_step(
            (frame_views(old(stack)@), entry_views(old(out)@)),
            raw@,
        ),
{
    let line = trim_end_chars(raw);
    let t = trim_start_chars(line.as_slice());
    if t.len() == 0 || t[0] == '#' || t[0] == '-' {
        return;
    }
    let lead = lead_ws_exec(line.as_slice());
    proof {
        crate::text::lemma_lead_ws(line@);
    }
    let ws = slice_of(line.as_slice(), 0, lead);
    proof {
        assert(ws@ =~= line@.take(lead as int));
    }
    let indent = string_of(ws.as_slice()).as_str().len();
    let ghost target = pop_deeper(frame_views(stack@), indent as int);
    while top_at_least(stack, indent)
        invariant
            pop_deeper(frame_views(stack@), indent as int) == target,
        decreases stack@.len(),
    {
        let ghost before = stack@;
        stack.pop();
        proof {
            assert(frame_views(stack@) =~= frame_views(before).drop_last());
        }
    }
    assert(frame_views(stack@) == target);
    let c = match find_one(t.as_slice(), ':') {
        Some(c) => c,
        None => {
            return;
        },
    };
    proof {
        crate::text::lemma_find(t@, seq![':']);
        assert(crate::text::matches_at(t@, c as int, seq![':']));
        assert(seq![':'].len() == 1);
        assert(c < t@.len());
    }
    let n = t.len();
    let kpart = slice_of(t.as_slice(), 0, c);
    let vpart = slice_of(t.as_slice(), c + 1, n);
    proof {
        assert(kpart@ =~= t@.take(c as int));
        assert(vpart@ =~= t@.skip(c + 1));
    }
    let key = trim_chars(kpart.as_slice());
    let value = trim_chars(vpart.as_slice());
    if key.len() == 0 {
        return;
    }
    if value.len() == 0 {
        let ghost prev = stack@;
        stack.push((indent, key));
        proof {
            assert(frame_views(stack@) =~= frame_views(prev).push((indent as int, key@)));
        }
    } else {
        let p = path_of(stack, key.as_slice());
        let vs = string_of(value.as_slice());
        let kind = classify(vs.as_str());
        let ghost prev = out@;
        out.push(ConfigEntry { path: string_of(p.as_slice()), value: vs, kind });
        proof {
            assert(entry_views(out@) =~= entry_views(prev).push(
                (path_prefix(frame_views(stack@)) + key@, value@, kind_of(value@)),
            ));
        }
    }
}

/// Flatten a `$CD` YAML dump into editable leaf entries. Group headers
/// (`key:` with no value) build the path; `key: value` lines become leaves.
/// Comments, blank lines, sequence items and empty-valued keys are skipped.
/// Indentation is compared relatively, so the exact step size does not
/// matter.
pub fn flatten_config(dump: &str) -> (out: Vec<ConfigEntry>)
    ensures
        entry_views(out@) == flattened(dump@),
{
    let cs = chars_of(dump);
    let ls = split_lines(cs.as_slice());
    let ghost all = char_views(ls@);
    let mut stack: Vec<(usize, Vec<char>)> = Vec::new();
    let mut out: Vec<ConfigEntry> = Vec::new();
    let mut i: usize = 0;
    proof {
        assert(frame_views(stack@) =~= seq![]);
        assert(entry_views(out@) =~= seq![]);
        assert(all.take(0) =~= seq![]);
    }
    while i < ls.len()
        invariant
            i <= ls@.len(),
            all == char_views(ls@),
            all == lines(cs@),
            (frame_views(stack@), entry_views(out@)) == flatten_lines(all.take(i as int)),
        decreases ls@.len() - i,
    {
        flatten_line(&mut stack, &mut out, ls[i].as_slice());
        proof {
            let t = all.take(i + 1);
            assert(t.drop_last() =~= all.take(i as int));
            assert(t.last() == ls@[i as int]@);
        }
        i += 1;
    }
    proof {
        assert(all.take(ls@.len() as int) =~= all);
    }
    out
}

/// Section indents strictly increase from the outermost group inward.
pub open spec fn strictly_nested(stack: Seq<(int, Seq<char>)>) -> bool {
    forall|i: int, j: int| 0 <= i < j < stack.len() ==> #[trigger] stack[i].0 < #[trigger] stack[j].0
}

proof fn lemma_pop_deeper(stack: Seq<(int, Seq<char>)>, indent: int)
    ensures
        pop_deeper(stack, indent).len() <= stack.len(),
        pop_deeper(stack, indent) == stack.take(pop_deeper(stack, indent).len() as int),
        pop_deeper(stack, indent).len() > 0 ==> pop_deeper(stack, indent).last().0 < indent,
    decreases stack.len(),
{
    if stack.len() > 0 && stack.last().0 >= indent {
        lemma_pop_deeper(stack.drop_last(), indent);
        let r = pop_deeper(stack.drop_last(), indent);
        assert(stack.drop_last().take(r.len() as int) =~= stack.take(r.len() as int));
    } else {
        assert(stack.take(stack.len() as int) =~= stack);
    }
}

proof fn lemma_step_nested(
    st: (Seq<(int, Seq<char>)>, Seq<(Seq<char>, Seq<char>, ConfigKind)>),
    raw: Seq<char>,
)
    requires
        strictly_nested(st.0),
    ensures
        strictly_nested(flatten_step(st, raw).0),
{
    let line = trim_end(raw);
    let indent = indent_of(line);
    let p = pop_deeper(st.0, indent);
    lemma_pop_deeper(st.0, indent);
    assert(strictly_nested(p)) by {
        assert forall|i: int, j: int| 0 <= i < j < p.len() implies #[trigger] p[i].0 < #[trigger] p[j].0 by {
            assert(p[i] == st.0[i] && p[j] == st.0[j]);
        }
    }
    let q = p.push((indent, seq![]));
    assert forall|i: int, j: int, k: Seq<char>|
        0 <= i < j < p.len() + 1 implies #[trigger] p.push((indent, k))[i].0 < #[trigger] p.push(
        (indent, k),
    )[j].0 by {
        if j == p.len() {
            if p.len() > 0 {
                assert(p[i].0 <= p.last().0) by {
                    if i < p.len() - 1 {
                        assert(p[i].0 < p[p.len() - 1].0);
                    }
                }
            }
        }
    }
}

proof fn lemma_step_entries(
    st: (Seq<(int, Seq<char>)>, Seq<(Seq<char>, Seq<char>, ConfigKind)>),
    raw: Seq<char>,
)
    requires
        forall|i: int| 0 <= i < st.1.len() ==> entry_ok(#[trigger] st.1[i]),
    ensures
        st.1.len() <= flatten_step(st, raw).1.len(),
        forall|i: int| 0 <= i < st.1.len() ==> flatten_step(st, raw).1[i] == st.1[i],
        forall|i: int|
            0 <= i < flatten_step(st, raw).1.len() ==> entry_ok(#[trigger] flatten_step(st, raw).1[i]),
{
    let t = trim_start(trim_end(raw));
    let c = find_char(t, ':');
    crate::text::lemma_trim_idempotent(t.skip(c + 1));
}

/// A leaf as flattening produces it: a non-empty, trimmed value whose kind
/// is the kind of that value.
pub open spec fn entry_ok(e: (Seq<char>, Seq<char>, ConfigKind)) -> bool {
    &&& e.1.len() > 0
    &&& trim(e.1) == e.1
    &&& e.2 == kind_of(e.1)
}

proof fn lemma_lines_laws(ls: Seq<Seq<char>>)
    ensures
        strictly_nested(flatten_lines(ls).0),
        forall|i: int| 0 <= i < flatten_lines(ls).1.len() ==> entry_ok(#[trigger] flatten_lines(ls).1[i]),
    decreases ls.len(),
{
    if ls.len() > 0 {
        lemma_lines_laws(ls.drop_last());
        lemma_step_nested(flatten_lines(ls.drop_last()), ls.last());
        lemma_step_entries(flatten_lines(ls.drop_last()), ls.last());
    }
}

/// Every leaf of a flattened dump has a non-empty, trimmed value and the
/// kind of that value; whatever the dump, the open sections always nest
/// strictly deeper, so a shallower line never inherits a deeper path.
pub proof fn law_flatten_invariants(dump: Seq<char>)
    ensures
        forall|i: int| 0 <= i < flattened(dump).len() ==> entry_ok(#[trigger] flattened(dump)[i]),
        strictly_nested(flatten_lines(lines(dump)).0),
{
    lemma_lines_laws(lines(dump));
}

/// No open group key and no entry path holds a `:`.
pub open spec fn colon_free(
    st: (Seq<(int, Seq<char>)>, Seq<(Seq<char>, Seq<char>, ConfigKind)>),
) -> bool {
    &&& forall|i: int| 0 <= i < st.0.len() ==> lacks(#[trigger] st.0[i].1, ':')
    &&& forall|i: int| 0 <= i < st.1.len() ==> lacks(#[trigger] st.1[i].0, ':')
}

proof fn lemma_path_prefix_lacks(stack: Seq<(int, Seq<char>)>)
    requires
        forall|i: int| 0 <= i < stack.len() ==> lacks(#[trigger] stack[i].1, ':'),
    ensures
        lacks(path_prefix(stack), ':'),
    decreases stack.len(),
{
    if stack.len() > 0 {
        let d = stack.drop_last();
        assert forall|i: int| 0 <= i < d.len() implies lacks(#[trigger] d[i].1, ':') by {
            assert(d[i] == stack[i]);
        }
        lemma_path_prefix_lacks(d);
        assert(lacks(stack.last().1, ':'));
        crate::text::lemma_concat_lacks(path_prefix(d), stack.last().1, ':');
        crate::text::lemma_concat_lacks(path_prefix(d) + stack.last().1, seq!['/'], ':');
    }
}

proof fn lemma_step_colon_free(
    st: (Seq<(int, Seq<char>)>, Seq<(Seq<char>, Seq<char>, ConfigKind)>),
    raw: Seq<char>,
)
    requires
        colon_free(st),
    ensures
        colon_free(flatten_step(st, raw)),
{
    let line = trim_end(raw);
    let t = trim_start(line);
    let indent = indent_of(line);
    let stack = pop_deeper(st.0, indent);
    lemma_pop_deeper(st.0, indent);
    assert forall|i: int| 0 <= i < stack.len() implies lacks(#[trigger] stack[i].1, ':') by {
        assert(stack[i] == st.0[i]);
    }
    let c = find_char(t, ':');
    if c >= 0 {
        crate::text::lemma_before_first_lacks(t, ':');
        crate::text::lemma_trim_lacks(t.take(c), ':');
        let key = trim(t.take(c));
        lemma_path_prefix_lacks(stack);
        crate::text::lemma_concat_lacks(path_prefix(stack), key, ':');
        let r = flatten_step(st, raw);
        assert forall|i: int| 0 <= i < r.0.len() implies lacks(#[trigger] r.0[i].1, ':') by {
            if i < stack.len() {
                assert(r.0[i] == stack[i] || r.0 == st.0);
            }
        }
        assert forall|i: int| 0 <= i < r.1.len() implies lacks(#[trigger] r.1[i].0, ':') by {
            if i < st.1.len() {
                assert(r.1[i] == st.1[i]);
            }
        }
    }
}

proof fn lemma_lines_colon_free(ls: Seq<Seq<char>>)
    ensures
        colon_free(flatten_lines(ls)),
    decreases ls.len(),
{
    if ls.len() > 0 {
        lemma_lines_colon_free(ls.drop_last());
        lemma_step_colon_free(flatten_lines(ls.drop_last()), ls.last());
    }
}

/// A key never swallows part of its value: since every key ends at the
/// first colon of its line, no entry path of a flattened dump holds a `:`,
/// whatever the dump (values such as `gpio.35:low` keep their colons).
pub proof fn law_flattened_paths_have_no_colon(dump: Seq<char>)
    ensures
        forall|i: int| 0 <= i < flattened(dump).len() ==> lacks(#[trigger] flattened(dump)[i].0, ':'),
{
    lemma_lines_colon_free(lines(dump));
}

/// A leaf line `key: value` whose key holds no colon becomes one entry: the
/// path of the groups still open at its indentation followed by the trimmed
/// key, and as value the whole trimmed text after that first colon, further
/// colons included.
pub proof fn law_leaf_line_splits_at_first_colon(
    st: (Seq<(int, Seq<char>)>, Seq<(Seq<char>, Seq<char>, ConfigKind)>),
    raw: Seq<char>,
    k: int,
)
    requires
        0 <= k < trim_start(trim_end(raw)).len(),
        trim_start(trim_end(raw))[k] == ':',
        lacks(trim_start(trim_end(raw)).take(k), ':'),
        trim_start(trim_end(raw))[0] != '#',
        trim_start(trim_end(raw))[0] != '-',
        trim(trim_start(trim_end(raw)).take(k)).len() > 0,
        trim(trim_start(trim_end(raw)).skip(k + 1)).len() > 0,
    ensures
        ({
            let t = trim_start(trim_end(raw));
            let stack = pop_deeper(st.0, indent_of(trim_end(raw)));
            let value = trim(t.skip(k + 1));
            flatten_step(st, raw) == (stack, st.1.push((path_prefix(stack) + trim(t.take(k)), value, kind_of(value))))
        }),
{
    let t = trim_start(trim_end(raw));
    assert forall|j: int| 0 <= j < k implies t[j] != ':' by {
        assert(t.take(k)[j] == t[j]);
    }
    crate::text::lemma_find_char_at(t, ':', k);
}

// ---------------------------------------------------------------------------
// Looking an entry up
// ---------------------------------------------------------------------------

/// Index of the first entry with this path, or -1.
pub open spec fn entry_index(es: Seq<ConfigEntry>, path: Seq<char>) -> int
    decreases es.len(),
{
    if es.len() == 0 {
        -1
    } else {
        let k = entry_index(es.drop_last(), path);
        if k >= 0 {
            k
        } else if es.last().path@ == path {
            es.len() - 1
        } else {
            -1
        }
    }
}

/// The answer when a config entry is asked for that the latest dump lacks.
pub open spec fn missing_entry_message(path: Seq<char>) -> Seq<char> {
    "no config entry \""@ + path + "\" (has a config dump run yet?)"@
}

/// The entry at `path` in the latest config dump, as the API returns it; a
/// not-found error when no dump has run or it has no such entry.
pub fn find_config_entry(entries: &Option<Vec<ConfigEntry>>, path: &str) -> (r: Result<ConfigEntry, ApiError>)
    ensures
        match r {
            Ok(e) => entries is Some && 0 <= entry_index(entries.unwrap()@, path@) && {
                let f = entries.unwrap()@[entry_index(entries.unwrap()@, path@)];
                e.path@ == f.path@ && e.value@ == f.value@ && e.kind == f.kind
            },
            Err(err) => (entries is None || entry_index(entries.unwrap()@, path@) < 0)
                && err.kind == ErrorKind::NotFound && err.message@ == missing_entry_message(path@),
        },
{
    if let Some(es) = entries {
        let mut i: usize = 0;
        proof {
            assert(es@.take(0) =~= seq![]);
        }
        while i < es.len()
            invariant
                i <= es@.len(),
                *entries == Some(*es),
                entry_index(es@.take(i as int), path@) < 0,
            decreases es@.len() - i,
        {
            proof {
                let t = es@.take(i + 1);
                assert(t.drop_last() =~= es@.take(i as int));
            }
            if str_eq(es[i].path.as_str(), path) {
                proof {
                    let t = es@.take(i + 1);
                    assert(t.last() == es@[i as int]);
                    assert(t.last().path@ == path@);
                    assert(entry_index(t, path@) == i);
                    lemma_entry_index_prefix(es@, path@, i + 1);
                    assert(entry_index(es@, path@) == i);
                }
                let e = ConfigEntry {
                    path: own(es[i].path.as_str()),
                    value: own(es[i].value.as_str()),
                    kind: es[i].kind,
                };
                return Ok(e);
            }
            i += 1;
        }
        proof {
            assert(es@.take(es@.len() as int) =~= es@);
        }
    }
    let mut m = chars_of("no config entry \"");
    append(&mut m, chars_of(path).as_slice());
    append(&mut m, chars_of("\" (has a config dump run yet?)").as_slice());
    proof {
        assert(m@ =~= missing_entry_message(path@));
    }
    Err(ApiError::not_found(string_of(m.as_slice())))
}

/// A match found within a prefix is the match of the whole list.
proof fn lemma_entry_index_prefix(es: Seq<ConfigEntry>, path: Seq<char>, n: int)
    requires
        0 <= n <= es.len(),
        entry_index(es.take(n), path) >= 0,
    ensures
        entry_index(es, path) == entry_index(es.take(n), path),
    decreases es.len() - n,
{
    if n < es.len() {
        let t = es.take(n + 1);
        assert(t.drop_last() =~= es.take(n));
        lemma_entry_index_prefix(es, path, n + 1);
    } else {
        assert(es.take(n) =~= es);
    }
}

} // verus!
