//! G-code line handling for streaming: cleaning raw file lines, splitting a
//! line into words, and rebuilding the modal state (units, distance mode,
//! plane, work coordinate system, feed) in force at a resume point.

use crate::fluidnc::{is_f64_literal, parses_as_f64};
use crate::text::{
    append, chars_of, concat, find_char, find_chars, find_chars_from, find_from, is_alpha,
    is_ascii_alpha, is_ascii_digit, is_digit, lemma_find, lemma_find_from, slice_eq, slice_of,
    char_views, lines, split_lines, string_of, trim, trim_chars, upper_chars, upper_seq,
};
use vstd::prelude::*;

verus! {

// ---------------------------------------------------------------------------
// Line cleaning
// ---------------------------------------------------------------------------

/// A raw file line cut at its first `;`, then trimmed.
pub open spec fn strip_comment(line: Seq<char>) -> Seq<char> {
    let i = find_char(line, ';');
    trim(if i < 0 { line } else { line.take(i) })
}

/// What `clean_line` keeps of a raw line: nothing when the line is empty
/// after cutting its `;` comment and trimming, or when it is wholly a
/// parenthesised comment; otherwise that trimmed text.
pub open spec fn cleaned(line: Seq<char>) -> Option<Seq<char>> {
    let s = strip_comment(line);
    if s.len() == 0 || (s[0] == '(' && s.last() == ')') {
        None
    } else {
        Some(s)
    }
}

/// Strip a trailing `;` comment, trim, and drop empty / pure-comment lines,
/// so that the firmware's `ok` count maps one-to-one onto the kept lines.
pub fn clean_line(line: &str) -> (r: Option<String>)
    ensures
        match r {
            Some(s) => cleaned(line@) == Some(s@),
            None => cleaned(line@) is None,
        },
{
    let cs = chars_of(line);
    let semi = [';'];
    let cut = match find_chars(cs.as_slice(), &semi) {
        Some(i) => {
            proof {
                lemma_find(cs@, seq![';']);
                assert(semi@ =~= seq![';']);
            }
            slice_of(cs.as_slice(), 0, i)
        },
        None => {
            proof {
                assert(semi@ =~= seq![';']);
            }
            slice_of(cs.as_slice(), 0, cs.len())
        },
    };
    proof {
        assert(cs@.subrange(0, cs@.len() as int) =~= cs@);
        if find_char(cs@, ';') >= 0 {
            assert(cs@.take(find_char(cs@, ';')) =~= cut@);
        }
    }
    let t = trim_chars(cut.as_slice());
    if t.len() == 0 {
        return None;
    }
    if t[0] == '(' && t[t.len() - 1] == ')' {
        return None;
    }
    Some(string_of(t.as_slice()))
}

// ---------------------------------------------------------------------------
// File names
// ---------------------------------------------------------------------------

/// Index of the last `/` or `\` before `end`, or -1.
pub open spec fn last_sep_before(s: Seq<char>, end: int) -> int
    decreases end,
{
    if end <= 0 {
        -1
    } else if s[end - 1] == '/' || s[end - 1] == '\\' {
        end - 1
    } else {
        last_sep_before(s, end - 1)
    }
}

/// The last path segment: what follows the last `/` or `\`.
pub open spec fn base_name_of(path: Seq<char>) -> Seq<char> {
    path.skip(last_sep_before(path, path.len() as int) + 1)
}

/// The file name of a local or SD path (the last `/`- or `\`-separated
/// segment).
pub fn file_name(path: &str) -> (name: String)
    ensures
        name@ == base_name_of(path@),
{
    let cs = chars_of(path);
    let mut end = cs.len();
    while end > 0 && cs[end - 1] != '/' && cs[end - 1] != '\\'
        invariant
            end <= cs@.len(),
            last_sep_before(cs@, cs@.len() as int) == last_sep_before(cs@, end as int),
        decreases end,
    {
        end -= 1;
    }
    string_of(slice_of(cs.as_slice(), end, cs.len()).as_slice())
}

/// The cleaned lines of a sequence of raw lines, in order, the dropped ones
/// left out.
pub open spec fn cleaned_all(ls: Seq<Seq<char>>) -> Seq<Seq<char>>
    decreases ls.len(),
{
    if ls.len() == 0 {
        seq![]
    } else {
        let r = cleaned_all(ls.drop_last());
        match cleaned(ls.last()) {
            Some(c) => r.push(c),
            None => r,
        }
    }
}

/// The lines of a G-code program as they are streamed: each line of `raw`
/// (as `str::lines` splits it) cleaned, the empty and comment-only ones
/// dropped.
pub fn clean_lines(raw: &str) -> (r: Vec<String>)
    ensures
        crate::maslow::string_views(r@) == cleaned_all(lines(raw@)),
{
    let ls = split_lines(chars_of(raw).as_slice());
    let ghost all = char_views(ls@);
    let mut out: Vec<String> = Vec::new();
    let mut i: usize = 0;
    proof {
        assert(all.take(0) =~= seq![]);
        assert(crate::maslow::string_views(out@) =~= seq![]);
    }
    while i < ls.len()
        invariant
            i <= ls@.len(),
            all == char_views(ls@),
            all == lines(raw@),
            crate::maslow::string_views(out@) == cleaned_all(all.take(i as int)),
        decreases ls@.len() - i,
    {
        proof {
            let t = all.take(i + 1);
            assert(t.drop_last() =~= all.take(i as int));
            assert(t.last() == ls@[i as int]@);
        }
        let line = string_of(ls[i].as_slice());
        let ghost before = crate::maslow::string_views(out@);
        match clean_line(line.as_str()) {
            Some(c) => {
                out.push(c);
                proof {
                    assert(crate::maslow::string_views(out@) =~= before.push(out@.last()@));
                }
            },
            None => {},
        }
        i += 1;
    }
    proof {
        assert(all.take(all.len() as int) =~= all);
    }
    out
}

// ---------------------------------------------------------------------------
// Words
// ---------------------------------------------------------------------------

/// Characters of a word's number: digits, sign and decimal point.
pub open spec fn is_num_char(c: char) -> bool {
    is_digit(c) || c == '.' || c == '-' || c == '+'
}

/// End of the run of number characters starting at `j`.
pub open spec fn num_end(s: Seq<char>, j: int) -> int
    decreases s.len() - j,
{
    if 0 <= j < s.len() && is_num_char(s[j]) {
        num_end(s, j + 1)
    } else {
        j
    }
}

pub proof fn lemma_num_end(s: Seq<char>, j: int)
    requires
        0 <= j,
    ensures
        j <= num_end(s, j),
        j <= s.len() ==> num_end(s, j) <= s.len(),
        forall|k: int| j <= k < num_end(s, j) ==> is_num_char(#[trigger] s[k]),
        num_end(s, j) < s.len() ==> !is_num_char(s[num_end(s, j)]),
    decreases s.len() - j,
{
    if 0 <= j < s.len() && is_num_char(s[j]) {
        lemma_num_end(s, j + 1);
    }
}

/// The (letter, number) words of `s` from index `i`: each ASCII letter
/// followed by the longest run of number characters; other characters are
/// skipped.
pub open spec fn words_from(s: Seq<char>, i: int) -> Seq<(char, Seq<char>)>
    decreases s.len() - i,
{
    if i < 0 || i >= s.len() {
        seq![]
    } else if is_alpha(s[i]) {
        let e = num_end(s, i + 1);
        proof {
            lemma_num_end(s, i + 1);
        }
        seq![(s[i], s.subrange(i + 1, e))] + words_from(s, e)
    } else {
        words_from(s, i + 1)
    }
}

/// The words of a line, after ASCII upper-casing.
pub open spec fn line_words(line: Seq<char>) -> Seq<(char, Seq<char>)> {
    words_from(upper_seq(line), 0)
}

/// A word with its number as plain characters.
pub open spec fn word_view(w: (char, Vec<char>)) -> (char, Seq<char>) {
    (w.0, w.1@)
}

/// Tokenise a G-code line into (letter, number) words, tolerating
/// concatenated forms like `G21G90`.
pub fn modal_words(line: &[char]) -> (out: Vec<(char, Vec<char>)>)
    ensures
        out@.map_values(|w: (char, Vec<char>)| word_view(w)) == line_words(line@),
{
    let s = upper_chars(line);
    let mut out: Vec<(char, Vec<char>)> = Vec::new();
    let mut i: usize = 0;
    while i < s.len()
        invariant
            i <= s@.len(),
            s@ == upper_seq(line@),
            out@.map_values(|w: (char, Vec<char>)| word_view(w)) + words_from(s@, i as int)
                == line_words(line@),
        decreases s@.len() - i,
    {
        let ghost before = out@.map_values(|w: (char, Vec<char>)| word_view(w));
        if is_ascii_alpha(s[i]) {
            let letter = s[i];
            let mut e = i + 1;
            while e < s.len() && (is_ascii_digit(s[e]) || s[e] == '.' || s[e] == '-' || s[e]
                == '+')
                invariant
                    i < e <= s@.len(),
                    num_end(s@, (i + 1) as int) == num_end(s@, e as int),
                decreases s@.len() - e,
            {
                e += 1;
            }
            let num = slice_of(s.as_slice(), i + 1, e);
            out.push((letter, num));
            proof {
                assert(out@.map_values(|w: (char, Vec<char>)| word_view(w)) =~= before.push(
                    (letter, s@.subrange(i + 1, e as int)),
                ));
                assert(words_from(s@, i as int) == seq![(letter, s@.subrange(i + 1, e as int))]
                    + words_from(s@, e as int));
                assert(before + words_from(s@, i as int) =~= before.push(
                    (letter, s@.subrange(i + 1, e as int)),
                ) + words_from(s@, e as int));
            }
            i = e;
        } else {
            i += 1;
        }
    }
    proof {
        assert(words_from(s@, i as int) =~= seq![]);
        assert(out@.map_values(|w: (char, Vec<char>)| word_view(w)) + seq![] =~= out@.map_values(
            |w: (char, Vec<char>)| word_view(w),
        ));
    }
    out
}

/// The (letter, number) words a toolpath reads from `s`, from index `i`: as
/// `words_from`, except that a `(` comment is skipped through its `)` (to
/// the end when unclosed) and a word whose number does not parse as a float
/// is dropped.
pub open spec fn motion_words_from(s: Seq<char>, i: int) -> Seq<(char, Seq<char>)>
    decreases s.len() - i,
{
    if i < 0 || i >= s.len() {
        seq![]
    } else if s[i] == '(' {
        let c = find_from(s, seq![')'], i);
        if c < 0 {
            seq![]
        } else {
            proof {
                lemma_find_from(s, seq![')'], i);
            }
            motion_words_from(s, c + 1)
        }
    } else if is_alpha(s[i]) {
        let e = num_end(s, i + 1);
        proof {
            lemma_num_end(s, i + 1);
        }
        let rest = motion_words_from(s, e);
        if is_f64_literal(s.subrange(i + 1, e)) {
            seq![(s[i], s.subrange(i + 1, e))] + rest
        } else {
            rest
        }
    } else {
        motion_words_from(s, i + 1)
    }
}

/// The words of a line a toolpath reads, after ASCII upper-casing.
pub open spec fn motion_line_words(line: Seq<char>) -> Seq<(char, Seq<char>)> {
    motion_words_from(upper_seq(line), 0)
}

pub open spec fn text_word_view(w: (char, String)) -> (char, Seq<char>) {
    (w.0, w.1@)
}

/// Tokenise a G-code line for the toolpath: upper-cased letters, each with
/// its number text (which parses as a float), inline `(...)` comments
/// skipped.
pub fn motion_words(line: &str) -> (out: Vec<(char, String)>)
    ensures
        out@.map_values(|w: (char, String)| text_word_view(w)) == motion_line_words(line@),
{
    let s = upper_chars(chars_of(line).as_slice());
    let rp = [')'];
    proof {
        assert(rp@ =~= seq![')']);
    }
    let mut out: Vec<(char, String)> = Vec::new();
    let mut i: usize = 0;
    while i < s.len()
        invariant
            i <= s@.len(),
            s@ == upper_seq(line@),
            rp@ == seq![')'],
            out@.map_values(|w: (char, String)| text_word_view(w)) + motion_words_from(s@, i as int)
                == motion_line_words(line@),
        decreases s@.len() - i,
    {
        let ghost before = out@.map_values(|w: (char, String)| text_word_view(w));
        if s[i] == '(' {
            match find_chars_from(s.as_slice(), &rp, i) {
                None => {
                    proof {
                        assert(motion_words_from(s@, i as int) =~= seq![]);
                        assert(before + seq![] =~= before);
                    }
                    return out;
                },
                Some(c) => {
                    proof {
                        lemma_find_from(s@, seq![')'], i as int);
                        assert(seq![')'].len() == 1);
                    }
                    i = c + 1;
                },
            }
        } else if is_ascii_alpha(s[i]) {
            let letter = s[i];
            let mut e = i + 1;
            while e < s.len() && (is_ascii_digit(s[e]) || s[e] == '.' || s[e] == '-' || s[e]
                == '+')
                invariant
                    i < e <= s@.len(),
                    num_end(s@, (i + 1) as int) == num_end(s@, e as int),
                decreases s@.len() - e,
            {
                e += 1;
            }
            let num = string_of(slice_of(s.as_slice(), i + 1, e).as_slice());
            proof {
                assert(motion_words_from(s@, i as int) == (if is_f64_literal(s@.subrange(i + 1, e as int)) {
                    seq![(letter, s@.subrange(i + 1, e as int))] + motion_words_from(s@, e as int)
                } else {
                    motion_words_from(s@, e as int)
                }));
            }
            if parses_as_f64(num.as_str()) {
                out.push((letter, num));
                proof {
                    assert(out@.map_values(|w: (char, String)| text_word_view(w)) =~= before.push(
                        (letter, s@.subrange(i + 1, e as int)),
                    ));
                    assert(before + motion_words_from(s@, i as int) =~= before.push(
                        (letter, s@.subrange(i + 1, e as int)),
                    ) + motion_words_from(s@, e as int));
                }
            }
            i = e;
        } else {
            i += 1;
        }
    }
    proof {
        assert(motion_words_from(s@, i as int) =~= seq![]);
        assert(out@.map_values(|w: (char, String)| text_word_view(w)) + seq![] =~= out@.map_values(
            |w: (char, String)| text_word_view(w),
        ));
    }
    out
}

// ---------------------------------------------------------------------------
// Modal state
// ---------------------------------------------------------------------------

/// The modal words last seen for each group: units (G20/G21), distance mode
/// (G90/G91), plane (G17/G18/G19), work coordinate system (G54..G59) and
/// feed (F<n>).
pub struct Modal {
    pub units: Option<Seq<char>>,
    pub distance: Option<Seq<char>>,
    pub plane: Option<Seq<char>>,
    pub wcs: Option<Seq<char>>,
    pub feed: Option<Seq<char>>,
}

pub open spec fn modal_none() -> Modal {
    Modal { units: None, distance: None, plane: None, wcs: None, feed: None }
}

/// Effect of one word on the modal state.
pub open spec fn apply_word(m: Modal, w: (char, Seq<char>)) -> Modal {
    let n = w.1;
    let g = seq!['G'] + n;
    if w.0 == 'G' {
        if n == "20"@ || n == "21"@ {
            Modal { units: Some(g), ..m }
        } else if n == "90"@ || n == "91"@ {
            Modal { distance: Some(g), ..m }
        } else if n == "17"@ || n == "18"@ || n == "19"@ {
            Modal { plane: Some(g), ..m }
        } else if n == "54"@ || n == "55"@ || n == "56"@ || n == "57"@ || n == "58"@ || n
            == "59"@ {
            Modal { wcs: Some(g), ..m }
        } else {
            m
        }
    } else if w.0 == 'F' && n.len() > 0 {
        Modal { feed: Some(seq!['F'] + n), ..m }
    } else {
        m
    }
}

/// Effect of a sequence of words, in order.
pub open spec fn apply_words(m: Modal, ws: Seq<(char, Seq<char>)>) -> Modal
    decreases ws.len(),
{
    if ws.len() == 0 {
        m
    } else {
        apply_word(apply_words(m, ws.drop_last()), ws.last())
    }
}

/// The modal state in force after a run of lines.
pub open spec fn modal_after(lines: Seq<Seq<char>>) -> Modal
    decreases lines.len(),
{
    if lines.len() == 0 {
        modal_none()
    } else {
        apply_words(modal_after(lines.drop_last()), line_words(lines.last()))
    }
}

/// The modal words of a state, in replay order (distance, units, plane,
/// work coordinate system, feed), skipping those never set.
pub open spec fn modal_parts(m: Modal) -> Seq<Seq<char>> {
    let one = |o: Option<Seq<char>>|
        match o {
            Some(x) => seq![x],
            None => Seq::<Seq<char>>::empty(),
        };
    one(m.distance) + one(m.units) + one(m.plane) + one(m.wcs) + one(m.feed)
}

/// Words joined by single spaces.
pub open spec fn join_spaced(parts: Seq<Seq<char>>) -> Seq<char>
    decreases parts.len(),
{
    if parts.len() == 0 {
        seq![]
    } else if parts.len() == 1 {
        parts[0]
    } else {
        join_spaced(parts.drop_last()) + seq![' '] + parts.last()
    }
}

/// The preamble that replays the modal state in force after `lines`, or
/// nothing when no modal word was ever set.
pub open spec fn preamble_of(lines: Seq<Seq<char>>) -> Option<Seq<char>> {
    let parts = modal_parts(modal_after(lines));
    if parts.len() == 0 {
        None
    } else {
        Some(join_spaced(parts))
    }
}

/// Exec mirror of `Modal`.
struct ModalState {
    units: Option<Vec<char>>,
    distance: Option<Vec<char>>,
    plane: Option<Vec<char>>,
    wcs: Option<Vec<char>>,
    feed: Option<Vec<char>>,
}

spec fn opt_view(o: Option<Vec<char>>) -> Option<Seq<char>> {
    match o {
        Some(v) => Some(v@),
        None => None,
    }
}

impl ModalState {
    spec fn view(&self) -> Modal {
        Modal {
            units: opt_view(self.units),
            distance: opt_view(self.distance),
            plane: opt_view(self.plane),
            wcs: opt_view(self.wcs),
            feed: opt_view(self.feed),
        }
    }
}

/// Does `n` spell the literal `lit`?
fn is_lit(n: &[char], lit: &str) -> (b: bool)
    ensures
        b == (n@ == lit@),
{
    let l = chars_of(lit);
    slice_eq(n, l.as_slice())
}

fn prefixed(c: char, n: &[char]) -> (out: Vec<char>)
    ensures
        out@ == seq![c] + n@,
{
    let one = [c];
    let r = concat(&one, n);
    proof {
        assert(one@ =~= seq![c]);
    }
    r
}

fn apply_word_exec(m: &mut ModalState, letter: char, n: &[char])
    ensures
        final(m).view() == apply_word(old(m).view(), (letter, n@)),
{
    if letter == 'G' {
        if is_lit(n, "20") || is_lit(n, "21") {
            m.units = Some(prefixed('G', n));
        } else if is_lit(n, "90") || is_lit(n, "91") {
            m.distance = Some(prefixed('G', n));
        } else if is_lit(n, "17") || is_lit(n, "18") || is_lit(n, "19") {
            m.plane = Some(prefixed('G', n));
        } else if is_lit(n, "54") || is_lit(n, "55") || is_lit(n, "56") || is_lit(n, "57")
            || is_lit(n, "58") || is_lit(n, "59") {
            m.wcs = Some(prefixed('G', n));
        }
    } else if letter == 'F' && n.len() > 0 {
        m.feed = Some(prefixed('F', n));
    }
}

fn push_part(parts: &mut Vec<Vec<char>>, o: &Option<Vec<char>>)
    ensures
        final(parts)@.map_values(|v: Vec<char>| v@) == old(parts)@.map_values(|v: Vec<char>| v@)
            + match opt_view(*o) {
            Some(x) => seq![x],
            None => Seq::<Seq<char>>::empty(),
        },
{
    match o {
        Some(v) => {
            let c = slice_of(v.as_slice(), 0, v.len());
            proof {
                assert(v@.subrange(0, v@.len() as int) =~= v@);
            }
            parts.push(c);
            proof {
                assert(parts@.map_values(|v: Vec<char>| v@) =~= old(parts)@.map_values(
                    |v: Vec<char>| v@,
                ) + seq![v@]);
            }
        },
        None => {
            proof {
                assert(parts@.map_values(|v: Vec<char>| v@) =~= old(parts)@.map_values(
                    |v: Vec<char>| v@,
                ) + Seq::<Seq<char>>::empty());
            }
        },
    }
}

/// Join character vectors with single spaces.
pub fn join_with_spaces(parts: &Vec<Vec<char>>) -> (out: Vec<char>)
    ensures
        out@ == join_spaced(parts@.map_values(|v: Vec<char>| v@)),
{
    let ghost ps = parts@.map_values(|v: Vec<char>| v@);
    let mut out: Vec<char> = Vec::new();
    let mut i: usize = 0;
    while i < parts.len()
        invariant
            i <= parts@.len(),
            ps == parts@.map_values(|v: Vec<char>| v@),
            out@ == join_spaced(ps.take(i as int)),
        decreases parts@.len() - i,
    {
        if i > 0 {
            out.push(' ');
        }
        append(&mut out, parts[i].as_slice());
        proof {
            let t = ps.take(i + 1);
            assert(t.drop_last() =~= ps.take(i as int));
            assert(t.last() == parts@[i as int]@);
            if i == 0 {
                assert(out@ =~= join_spaced(t));
            } else {
                assert(out@ =~= join_spaced(t.drop_last()) + seq![' '] + t.last());
            }
        }
        i += 1;
    }
    proof {
        assert(ps.take(parts@.len() as int) =~= ps);
    }
    out
}

/// Build a modal-state preamble from the lines preceding a resume point, so
/// the resumed stream re-establishes the units / distance mode / plane /
/// work coordinate system / feed in effect there. Only modal words that
/// actually appeared are replayed; `None` when there is nothing to replay.
pub fn modal_preamble(lines: &[String]) -> (r: Option<String>)
    ensures
        match r {
            Some(s) => preamble_of(lines@.map_values(|l: String| l@)) == Some(s@),
            None => preamble_of(lines@.map_values(|l: String| l@)) is None,
        },
{
    let ghost ls = lines@.map_values(|l: String| l@);
    let mut m = ModalState { units: None, distance: None, plane: None, wcs: None, feed: None };
    let mut i: usize = 0;
    while i < lines.len()
        invariant
            i <= lines@.len(),
            ls == lines@.map_values(|l: String| l@),
            m.view() == modal_after(ls.take(i as int)),
        decreases lines@.len() - i,
    {
        let cs = chars_of(lines[i].as_str());
        let ws = modal_words(cs.as_slice());
        let ghost wv = ws@.map_values(|w: (char, Vec<char>)| word_view(w));
        let ghost start = m.view();
        let mut k: usize = 0;
        while k < ws.len()
            invariant
                k <= ws@.len(),
                wv == ws@.map_values(|w: (char, Vec<char>)| word_view(w)),
                m.view() == apply_words(start, wv.take(k as int)),
            decreases ws@.len() - k,
        {
            let w = &ws[k];
            apply_word_exec(&mut m, w.0, w.1.as_slice());
            proof {
                let t = wv.take(k + 1);
                assert(t.drop_last() =~= wv.take(k as int));
                assert(t.last() == word_view(ws@[k as int]));
            }
            k += 1;
        }
        proof {
            assert(wv.take(ws@.len() as int) =~= wv);
            let t = ls.take(i + 1);
            assert(t.drop_last() =~= ls.take(i as int));
            assert(t.last() == lines@[i as int]@);
        }
        i += 1;
    }
    proof {
        assert(ls.take(lines@.len() as int) =~= ls);
    }
    let mut parts: Vec<Vec<char>> = Vec::new();
    push_part(&mut parts, &m.distance);
    push_part(&mut parts, &m.units);
    push_part(&mut parts, &m.plane);
    push_part(&mut parts, &m.wcs);
    push_part(&mut parts, &m.feed);
    proof {
        assert(parts@.map_values(|v: Vec<char>| v@) =~= modal_parts(m.view()));
    }
    if parts.len() == 0 {
        None
    } else {
        let j = join_with_spaces(&parts);
        Some(string_of(j.as_slice()))
    }
}


/// Every word of a run of lines, in order.
pub open spec fn all_words(lines: Seq<Seq<char>>) -> Seq<(char, Seq<char>)>
    decreases lines.len(),
{
    if lines.len() == 0 {
        seq![]
    } else {
        all_words(lines.drop_last()) + line_words(lines.last())
    }
}

/// A distance-mode word: `G90` (absolute) or `G91` (incremental).
pub open spec fn is_distance_word(w: (char, Seq<char>)) -> bool {
    w.0 == 'G' && (w.1 == "90"@ || w.1 == "91"@)
}

proof fn lemma_apply_words_concat(m: Modal, a: Seq<(char, Seq<char>)>, b: Seq<(char, Seq<char>)>)
    ensures
        apply_words(m, a + b) == apply_words(apply_words(m, a), b),
    decreases b.len(),
{
    if b.len() == 0 {
        assert(a + b =~= a);
    } else {
        lemma_apply_words_concat(m, a, b.drop_last());
        assert((a + b).drop_last() =~= a + b.drop_last());
        assert((a + b).last() == b.last());
    }
}

proof fn lemma_modal_after_words(lines: Seq<Seq<char>>)
    ensures
        modal_after(lines) == apply_words(modal_none(), all_words(lines)),
    decreases lines.len(),
{
    if lines.len() > 0 {
        lemma_modal_after_words(lines.drop_last());
        lemma_apply_words_concat(modal_none(), all_words(lines.drop_last()), line_words(lines.last()));
    }
}

proof fn lemma_last_distance_word(m: Modal, ws: Seq<(char, Seq<char>)>, i: int)
    requires
        0 <= i < ws.len(),
        is_distance_word(ws[i]),
        forall|j: int| i < j < ws.len() ==> !is_distance_word(#[trigger] ws[j]),
    ensures
        apply_words(m, ws).distance == Some(seq!['G'] + ws[i].1),
    decreases ws.len(),
{
    reveal_strlit("20");
    reveal_strlit("21");
    reveal_strlit("90");
    reveal_strlit("91");
    let w = ws.last();
    if i < ws.len() - 1 {
        lemma_last_distance_word(m, ws.drop_last(), i);
        assert(!is_distance_word(ws[ws.len() - 1]));
    } else {
        let n = w.1;
        assert(n[0] == '9');
        assert(n != "20"@ && n != "21"@) by {
            if n == "20"@ || n == "21"@ {
                assert(n[0] != '9');
            }
        }
    }
}

proof fn lemma_join_spaced_starts(parts: Seq<Seq<char>>)
    requires
        parts.len() > 0,
    ensures
        join_spaced(parts).len() >= parts[0].len(),
        join_spaced(parts).take(parts[0].len() as int) == parts[0],
    decreases parts.len(),
{
    if parts.len() == 1 {
        assert(parts[0].take(parts[0].len() as int) =~= parts[0]);
    } else {
        let d = parts.drop_last();
        lemma_join_spaced_starts(d);
        let j = join_spaced(d);
        assert(d[0] == parts[0]);
        let k = parts[0].len() as int;
        assert((j + seq![' '] + parts.last()).take(k) =~= j.take(k));
    }
}

/// Resuming replays the distance mode in force: whatever the lines, when
/// the last distance-mode word among them is `G90` or `G91`, the modal
/// state holds that word and the preamble starts with it, so incremental
/// moves resume incremental and absolute moves absolute.
pub proof fn law_preamble_replays_last_distance_mode(lines: Seq<Seq<char>>, i: int)
    requires
        0 <= i < all_words(lines).len(),
        is_distance_word(all_words(lines)[i]),
        forall|j: int| i < j < all_words(lines).len() ==> !is_distance_word(#[trigger] all_words(lines)[j]),
    ensures
        modal_after(lines).distance == Some(seq!['G'] + all_words(lines)[i].1),
        preamble_of(lines) is Some,
        preamble_of(lines).unwrap().len() >= 3,
        preamble_of(lines).unwrap().take(3) == seq!['G'] + all_words(lines)[i].1,
{
    reveal_strlit("90");
    reveal_strlit("91");
    lemma_modal_after_words(lines);
    lemma_last_distance_word(modal_none(), all_words(lines), i);
    let m = modal_after(lines);
    let d = seq!['G'] + all_words(lines)[i].1;
    assert(d.len() == 3);
    let parts = modal_parts(m);
    assert(parts[0] == d);
    lemma_join_spaced_starts(parts);
}


/// A units word: `G20` (inches) or `G21` (millimetres).
pub open spec fn is_units_word(w: (char, Seq<char>)) -> bool {
    w.0 == 'G' && (w.1 == "20"@ || w.1 == "21"@)
}

proof fn lemma_last_units_word(m: Modal, ws: Seq<(char, Seq<char>)>, i: int)
    requires
        0 <= i < ws.len(),
        is_units_word(ws[i]),
        forall|j: int| i < j < ws.len() ==> !is_units_word(#[trigger] ws[j]),
    ensures
        apply_words(m, ws).units == Some(seq!['G'] + ws[i].1),
    decreases ws.len(),
{
    if i < ws.len() - 1 {
        lemma_last_units_word(m, ws.drop_last(), i);
        assert(!is_units_word(ws[ws.len() - 1]));
    }
}

/// Resuming replays the units in force: whatever the lines, when the last
/// units word among them is `G20` or `G21`, the modal state replayed before
/// the resumed stream holds that word.
pub proof fn law_preamble_replays_last_units(lines: Seq<Seq<char>>, i: int)
    requires
        0 <= i < all_words(lines).len(),
        is_units_word(all_words(lines)[i]),
        forall|j: int| i < j < all_words(lines).len() ==> !is_units_word(#[trigger] all_words(lines)[j]),
    ensures
        modal_after(lines).units == Some(seq!['G'] + all_words(lines)[i].1),
        preamble_of(lines) is Some,
{
    lemma_modal_after_words(lines);
    lemma_last_units_word(modal_none(), all_words(lines), i);
    assert(modal_parts(modal_after(lines)).len() > 0);
}

} // verus!
