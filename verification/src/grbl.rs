//! Structure of GRBL / FluidNC realtime status reports.
//!
//! Format example:
//!   `<Idle|MPos:0.000,0.000,0.000|Bf:35,255|FS:0,0|WCO:0.000,0.000,0.000>`
//!
//! The report is taken apart here: state, substate, buffer and override
//! integers are parsed; the position, offset and feed fields are handed on
//! as their raw text, for the caller that turns them into numbers.

use crate::text::{
    char_views, chars_of, find_char, int_literal_ok, lacks, literal_value, parse_i32, slice_eq, slice_of,
    split_chars, split_on, split_once, split_once_chars, string_of, trim, trim_chars,
};
use vstd::prelude::*;

verus! {

/// A status report taken apart.
#[derive(Clone, Debug)]
pub struct StatusFrame {
    /// Machine state, e.g. "Idle", "Run", "Hold", "Alarm", "Jog", "Home".
    pub state: String,
    /// Optional substate code (e.g. Hold:0, Door:1).
    pub substate: Option<i32>,
    /// Text of the last `MPos:` field.
    pub mpos: Option<String>,
    /// Text of the last `WPos:` field.
    pub wpos: Option<String>,
    /// Text of the last `WCO:` field.
    pub wco: Option<String>,
    /// Text of the last `FS:` or `F:` field; its first number is the feed.
    pub feed: Option<String>,
    /// Text of the last `FS:` field; its second number is the spindle speed.
    pub spindle: Option<String>,
    /// Planner buffer blocks and RX bytes free (from `Bf:`).
    pub buffer_blocks: Option<i32>,
    pub buffer_bytes: Option<i32>,
    /// Feed / rapid / spindle overrides in percent (from `Ov:`).
    pub ov: Vec<i32>,
}

/// A status report as plain values.
pub struct FrameView {
    pub state: Seq<char>,
    pub substate: Option<i32>,
    pub mpos: Option<Seq<char>>,
    pub wpos: Option<Seq<char>>,
    pub wco: Option<Seq<char>>,
    pub feed: Option<Seq<char>>,
    pub spindle: Option<Seq<char>>,
    pub buffer_blocks: Option<i32>,
    pub buffer_bytes: Option<i32>,
    pub ov: Seq<i32>,
}

pub open spec fn opt_view(o: Option<String>) -> Option<Seq<char>> {
    match o {
        Some(s) => Some(s@),
        None => None,
    }
}

impl View for StatusFrame {
    type V = FrameView;

    open spec fn view(&self) -> FrameView {
        FrameView {
            state: self.state@,
            substate: self.substate,
            mpos: opt_view(self.mpos),
            wpos: opt_view(self.wpos),
            wco: opt_view(self.wco),
            feed: opt_view(self.feed),
            spindle: opt_view(self.spindle),
            buffer_blocks: self.buffer_blocks,
            buffer_bytes: self.buffer_bytes,
            ov: self.ov@,
        }
    }
}

/// The `i32` a piece of text denotes after trimming, if `str::parse` takes it.
pub open spec fn int_of(piece: Seq<char>) -> Option<i32> {
    let t = trim(piece);
    if int_literal_ok(t, i32::MAX as int) {
        Some(literal_value(t) as i32)
    } else {
        None
    }
}

/// The integers among comma-separated pieces; the rest are dropped.
pub open spec fn ints_of_pieces(ps: Seq<Seq<char>>) -> Seq<i32>
    decreases ps.len(),
{
    if ps.len() == 0 {
        seq![]
    } else {
        let r = ints_of_pieces(ps.drop_last());
        match int_of(ps.last()) {
            Some(v) => r.push(v),
            None => r,
        }
    }
}

/// The integers of a comma-separated list.
pub open spec fn ints_of(s: Seq<char>) -> Seq<i32> {
    ints_of_pieces(split_on(s, ','))
}

/// The section between the first `<` and the next `>` after it.
pub open spec fn report_inner(line: Seq<char>) -> Option<Seq<char>> {
    let start = find_char(line, '<');
    if start < 0 {
        None
    } else {
        let e = find_char(line.skip(start), '>');
        if e < 0 {
            None
        } else {
            Some(line.subrange(start + 1, start + e))
        }
    }
}

/// A report with only its state known.
pub open spec fn frame_with_state(state: Seq<char>, substate: Option<i32>) -> FrameView {
    FrameView {
        state,
        substate,
        mpos: None,
        wpos: None,
        wco: None,
        feed: None,
        spindle: None,
        buffer_blocks: None,
        buffer_bytes: None,
        ov: seq![],
    }
}

/// Effect of one `key:value` field on the report; unknown keys and fields
/// without a colon change nothing.
pub open spec fn apply_field(f: FrameView, field: Seq<char>) -> FrameView {
    match split_once(field, ':') {
        None => f,
        Some((key, val)) => if key == "MPos"@ {
            FrameView { mpos: Some(val), ..f }
        } else if key == "WPos"@ {
            FrameView { wpos: Some(val), ..f }
        } else if key == "WCO"@ {
            FrameView { wco: Some(val), ..f }
        } else if key == "Bf"@ {
            let b = ints_of(val);
            FrameView {
                buffer_blocks: if b.len() > 0 { Some(b[0]) } else { None },
                buffer_bytes: if b.len() > 1 { Some(b[1]) } else { None },
                ..f
            }
        } else if key == "FS"@ {
            FrameView { feed: Some(val), spindle: Some(val), ..f }
        } else if key == "F"@ {
            FrameView { feed: Some(val), ..f }
        } else if key == "Ov"@ {
            FrameView { ov: ints_of(val), ..f }
        } else {
            f
        },
    }
}

/// The fields applied in order.
pub open spec fn apply_fields(f: FrameView, fields: Seq<Seq<char>>) -> FrameView
    decreases fields.len(),
{
    if fields.len() == 0 {
        f
    } else {
        apply_field(apply_fields(f, fields.drop_last()), fields.last())
    }
}

/// The report a line carries: the first `|`-separated part is the state,
/// possibly `State:substate`; the others are fields.
pub open spec fn status_of(line: Seq<char>) -> Option<FrameView> {
    match report_inner(line) {
        None => None,
        Some(inner) => {
            let parts = split_on(inner, '|');
            let head = parts[0];
            let start = match split_once(head, ':') {
                Some((name, code)) => frame_with_state(name, int_of(code)),
                None => frame_with_state(head, None),
            };
            Some(apply_fields(start, parts.skip(1)))
        },
    }
}

/// Does `s` spell `word`?
fn is_word(s: &[char], word: &str) -> (b: bool)
    ensures
        b == (s@ == word@),
{
    let w = chars_of(word);
    slice_eq(s, w.as_slice())
}

/// `int_of` on characters.
fn int_piece(piece: &[char]) -> (r: Option<i32>)
    ensures
        r == int_of(piece@),
{
    let t = trim_chars(piece);
    parse_i32(t.as_slice())
}

/// The integers of a comma-separated list, as `parse_ints` collects them.
fn parse_ints(s: &[char]) -> (out: Vec<i32>)
    ensures
        out@ == ints_of(s@),
{
    let pieces = split_chars(s, ',');
    let ghost ps = char_views(pieces@);
    let mut out: Vec<i32> = Vec::new();
    let mut i: usize = 0;
    while i < pieces.len()
        invariant
            i <= pieces@.len(),
            ps == char_views(pieces@),
            ps == split_on(s@, ','),
            out@ == ints_of_pieces(ps.take(i as int)),
        decreases pieces@.len() - i,
    {
        proof {
            let t = ps.take(i + 1);
            assert(t.drop_last() =~= ps.take(i as int));
            assert(t.last() == pieces@[i as int]@);
        }
        match int_piece(pieces[i].as_slice()) {
            Some(v) => out.push(v),
            None => {},
        }
        i += 1;
    }
    proof {
        assert(ps.take(pieces@.len() as int) =~= ps);
    }
    out
}

fn owned(s: &Vec<char>) -> (out: String)
    ensures
        out@ == s@,
{
    string_of(s.as_slice())
}

/// Apply one field to the report being built.
fn apply_field_exec(f: &mut StatusFrame, field: &[char])
    ensures
        final(f)@ == apply_field(old(f)@, field@),
{
    match split_once_chars(field, ':') {
        None => {},
        Some((key, val)) => {
            if is_word(key.as_slice(), "MPos") {
                f.mpos = Some(owned(&val));
            } else if is_word(key.as_slice(), "WPos") {
                f.wpos = Some(owned(&val));
            } else if is_word(key.as_slice(), "WCO") {
                f.wco = Some(owned(&val));
            } else if is_word(key.as_slice(), "Bf") {
                let b = parse_ints(val.as_slice());
                f.buffer_blocks = if b.len() > 0 { Some(b[0]) } else { None };
                f.buffer_bytes = if b.len() > 1 { Some(b[1]) } else { None };
            } else if is_word(key.as_slice(), "FS") {
                f.feed = Some(owned(&val));
                f.spindle = Some(owned(&val));
            } else if is_word(key.as_slice(), "F") {
                f.feed = Some(owned(&val));
            } else if is_word(key.as_slice(), "Ov") {
                f.ov = parse_ints(val.as_slice());
            }
        },
    }
}

/// Take apart the `<...>` status report in a line, if it holds one. FluidNC
/// may append extra tokens after the report (e.g. `<Idle|...>  [GC:...]`),
/// so the bracketed section is extracted rather than the whole line matched.
pub fn parse_status_frame(line: &str) -> (r: Option<StatusFrame>)
    ensures
        match r {
            Some(f) => status_of(line@) == Some(f@),
            None => status_of(line@) is None,
        },
{
    let s = chars_of(line);
    let lt = ['<'];
    let gt = ['>'];
    proof {
        assert(lt@ =~= seq!['<']);
        assert(gt@ =~= seq!['>']);
    }
    let start = match crate::text::find_chars(s.as_slice(), &lt) {
        Some(i) => i,
        None => {
            return None;
        },
    };
    proof {
        crate::text::lemma_find(s@, seq!['<']);
        assert(crate::text::matches_at(s@, start as int, seq!['<']));
        assert(seq!['<'].len() == 1);
    }
    let n = s.len();
    let rest = slice_of(s.as_slice(), start, n);
    proof {
        assert(rest@ =~= s@.skip(start as int));
    }
    let e = match crate::text::find_chars(rest.as_slice(), &gt) {
        Some(e) => e,
        None => {
            return None;
        },
    };
    proof {
        crate::text::lemma_find(rest@, seq!['>']);
        assert(crate::text::matches_at(rest@, e as int, seq!['>']));
        assert(seq!['>'].len() == 1);
        assert(rest@[0] == '<');
        assert(e >= 1);
    }
    let inner = slice_of(s.as_slice(), start + 1, start + e);
    let parts = split_chars(inner.as_slice(), '|');
    let ghost ps = char_views(parts@);
    proof {
        assert(ps == split_on(inner@, '|'));
        crate::text::lemma_split_nonempty(inner@, '|');
    }
    let head = &parts[0];
    let mut f = match split_once_chars(head.as_slice(), ':') {
        Some((name, code)) => {
            let sub = int_piece(code.as_slice());
            StatusFrame {
                state: owned(&name),
                substate: sub,
                mpos: None,
                wpos: None,
                wco: None,
                feed: None,
                spindle: None,
                buffer_blocks: None,
                buffer_bytes: None,
                ov: Vec::new(),
            }
        },
        None => StatusFrame {
            state: owned(head),
            substate: None,
            mpos: None,
            wpos: None,
            wco: None,
            feed: None,
            spindle: None,
            buffer_blocks: None,
            buffer_bytes: None,
            ov: Vec::new(),
        },
    };
    let ghost start_view = f@;
    proof {
        assert(f@.ov =~= seq![]);
        assert(ps.skip(1).take(0) =~= seq![]);
    }
    let mut i: usize = 1;
    while i < parts.len()
        invariant
            1 <= i <= parts@.len(),
            ps == char_views(parts@),
            f@ == apply_fields(start_view, ps.skip(1).take(i - 1)),
        decreases parts@.len() - i,
    {
        proof {
            let t = ps.skip(1).take(i as int);
            assert(t.drop_last() =~= ps.skip(1).take(i - 1));
            assert(t.last() == parts@[i as int]@);
        }
        apply_field_exec(&mut f, parts[i].as_slice());
        i += 1;
    }
    proof {
        assert(ps.skip(1).take(parts@.len() - 1) =~= ps.skip(1));
    }
    Some(f)
}


/// A position field lands in its own slot: the text of `WPos:` becomes the
/// work position and that of `MPos:` the machine position, and neither
/// touches the other slot or anything else in the report.
pub proof fn law_position_fields(f: FrameView, val: Seq<char>)
    ensures
        apply_field(f, "WPos:"@ + val) == (FrameView { wpos: Some(val), ..f }),
        apply_field(f, "MPos:"@ + val) == (FrameView { mpos: Some(val), ..f }),
{
    reveal_strlit("WPos:");
    reveal_strlit("MPos:");
    reveal_strlit("WPos");
    reveal_strlit("MPos");
    let w = seq!['W', 'P', 'o', 's'];
    let m = seq!['M', 'P', 'o', 's'];
    crate::text::lemma_split_once_at(w, ':', val);
    crate::text::lemma_split_once_at(m, ':', val);
    assert("WPos:"@ + val =~= w + seq![':'] + val);
    assert("MPos:"@ + val =~= m + seq![':'] + val);
    assert(w =~= "WPos"@);
    assert(m =~= "MPos"@);
    assert(w[0] != m[0]);
    assert(w != "MPos"@);
}

/// The offset and rate fields land in their own slots too: `WCO:` is the
/// work offset, `FS:` gives both the feed and the spindle text, and `F:`
/// the feed alone; nothing else in the report changes.
pub proof fn law_offset_and_rate_fields(f: FrameView, val: Seq<char>)
    ensures
        apply_field(f, "WCO:"@ + val) == (FrameView { wco: Some(val), ..f }),
        apply_field(f, "FS:"@ + val) == (FrameView { feed: Some(val), spindle: Some(val), ..f }),
        apply_field(f, "F:"@ + val) == (FrameView { feed: Some(val), ..f }),
{
    reveal_strlit("WCO:");
    reveal_strlit("FS:");
    reveal_strlit("F:");
    reveal_strlit("MPos");
    reveal_strlit("WPos");
    reveal_strlit("WCO");
    reveal_strlit("Bf");
    reveal_strlit("FS");
    reveal_strlit("F");
    let wco = seq!['W', 'C', 'O'];
    let fs = seq!['F', 'S'];
    let ff = seq!['F'];
    crate::text::lemma_split_once_at(wco, ':', val);
    crate::text::lemma_split_once_at(fs, ':', val);
    crate::text::lemma_split_once_at(ff, ':', val);
    assert("WCO:"@ + val =~= wco + seq![':'] + val);
    assert("FS:"@ + val =~= fs + seq![':'] + val);
    assert("F:"@ + val =~= ff + seq![':'] + val);
    assert(wco =~= "WCO"@);
    assert(fs =~= "FS"@);
    assert(ff =~= "F"@);
    assert(wco != "MPos"@ && wco != "WPos"@) by {
        assert(wco.len() != "MPos"@.len());
    }
    assert(fs != "MPos"@ && fs != "WPos"@ && fs != "WCO"@ && fs != "Bf"@) by {
        assert(fs.len() != "MPos"@.len());
        assert(fs.len() != "WCO"@.len());
        assert(fs[0] != "Bf"@[0]);
    }
    assert(ff != "MPos"@ && ff != "WPos"@ && ff != "WCO"@ && ff != "Bf"@ && ff != "FS"@) by {
        assert(ff.len() != "MPos"@.len());
        assert(ff.len() != "WCO"@.len());
        assert(ff.len() != "Bf"@.len());
    }
}

/// A report whose only field is `WPos:` gives that text as the work
/// position and leaves the machine position unset, whatever follows the
/// closing `>`.
pub proof fn law_work_position_only_report(state: Seq<char>, val: Seq<char>, tail: Seq<char>)
    requires
        lacks(state, '<'),
        lacks(state, '>'),
        lacks(state, '|'),
        lacks(state, ':'),
        lacks(val, '>'),
        lacks(val, '|'),
    ensures
        status_of("<"@ + state + "|WPos:"@ + val + ">"@ + tail) == Some(
            FrameView { wpos: Some(val), ..frame_with_state(state, None) },
        ),
        status_of("<"@ + state + "|WPos:"@ + val + ">"@ + tail).unwrap().mpos is None,
{
    reveal_strlit("<");
    reveal_strlit(">");
    reveal_strlit("|WPos:");
    reveal_strlit("WPos:");
    let field = "WPos:"@ + val;
    let inner = state + seq!['|'] + field;
    let line = "<"@ + state + "|WPos:"@ + val + ">"@ + tail;
    assert(line =~= seq!['<'] + inner + seq!['>'] + tail);
    crate::text::lemma_find_char_at(line, '<', 0);
    let rest = line.skip(0);
    assert(rest =~= line);
    let e = inner.len() + 1;
    assert forall|j: int| 0 <= j < e implies line[j] != '>' by {
        if j > 0 && j <= state.len() {
            assert(line[j] == state[j - 1]);
        } else if j > state.len() + 6 {
            assert(line[j] == val[j - state.len() - 7]);
        }
    }
    crate::text::lemma_find_char_at(line, '>', e as int);
    assert(line.subrange(1, e as int) =~= inner);
    assert(report_inner(line) == Some(inner));
    assert forall|j: int| 0 <= j < field.len() implies field[j] != '|' by {
        if j >= 5 {
            assert(field[j] == val[j - 5]);
        }
    }
    crate::text::lemma_split_on_two(state, '|', field);
    let parts = split_on(inner, '|');
    assert(parts[0] == state);
    assert(parts.skip(1) =~= seq![field]);
    crate::text::lemma_find_char_from_none(state, ':', 0);
    assert(split_once(state, ':') is None);
    law_position_fields(frame_with_state(state, None), val);
    assert(seq![field].drop_last() =~= Seq::<Seq<char>>::empty());
    let start = frame_with_state(state, None);
    assert(apply_fields(start, seq![field]) == apply_field(start, field)) by {
        let fs = seq![field];
        assert(fs.len() == 1);
        assert(fs.last() == field);
        assert(fs.drop_last().len() == 0);
        assert(apply_fields(start, fs.drop_last()) == start);
    }
    assert(status_of(line) == Some(apply_fields(start, parts.skip(1))));
}

} // verus!
