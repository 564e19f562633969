//! Markdown helpers for the API reference pages.

use crate::text::{
    append, char_views, chars_of, split_chars, split_on, string_of, to_uppercase, trim, trim_chars,
    unicode_upper,
};
use vstd::prelude::*;

verus! {

/// The front matter of a documentation page.
pub open spec fn frontmatter_of(id: Seq<char>, title: Seq<char>) -> Seq<char> {
    "---\nid: "@ + id + "\ntitle: \""@ + title + "\"\n---\n\n"@
}

fn push_str(out: &mut Vec<char>, s: &str)
    ensures
        final(out)@ == old(out)@ + s@,
{
    let cs = chars_of(s);
    append(out, cs.as_slice());
}

pub fn frontmatter(id: &str, title: &str) -> (s: String)
    ensures
        s@ == frontmatter_of(id@, title@),
{
    let mut out: Vec<char> = Vec::new();
    push_str(&mut out, "---\nid: ");
    push_str(&mut out, id);
    push_str(&mut out, "\ntitle: \"");
    push_str(&mut out, title);
    push_str(&mut out, "\"\n---\n\n");
    proof {
        assert(out@ =~= frontmatter_of(id@, title@));
    }
    string_of(out.as_slice())
}

/// The provenance note placed right after the front matter of every
/// reference page, naming the source it was read from.
pub open spec fn banner_of(source: Seq<char>) -> Seq<char> {
    "> **Generated content.** This page is produced by `cargo run --bin gen_docs` (`src-tauri/src/bin/gen_docs/`) reading "@
        + source
        + ", re-run on every docs-site build. Do not hand-edit it: fix the generator or the source it reads instead.\n\n"@
}

pub fn generated_banner(source: &str) -> (s: String)
    ensures
        s@ == banner_of(source@),
{
    let mut out: Vec<char> = Vec::new();
    push_str(
        &mut out,
        "> **Generated content.** This page is produced by `cargo run --bin gen_docs` (`src-tauri/src/bin/gen_docs/`) reading ",
    );
    push_str(&mut out, source);
    push_str(
        &mut out,
        ", re-run on every docs-site build. Do not hand-edit it: fix the generator or the source it reads instead.\n\n",
    );
    proof {
        assert(out@ =~= banner_of(source@));
    }
    string_of(out.as_slice())
}

/// A character as it may appear in a table cell: `|` escaped, newlines
/// turned into spaces.
pub open spec fn cell_char(c: char) -> Seq<char> {
    if c == '|' {
        seq!['\\', '|']
    } else if c == '\n' {
        seq![' ']
    } else {
        seq![c]
    }
}

pub open spec fn cell_chars(s: Seq<char>) -> Seq<char>
    decreases s.len(),
{
    if s.len() == 0 {
        seq![]
    } else {
        cell_chars(s.drop_last()) + cell_char(s.last())
    }
}

/// Text made safe for a markdown table cell, trimmed.
pub open spec fn escaped(s: Seq<char>) -> Seq<char> {
    trim(cell_chars(s))
}

pub fn md_escape(s: &str) -> (out: String)
    ensures
        out@ == escaped(s@),
{
    let cs = chars_of(s);
    let mut acc: Vec<char> = Vec::new();
    let mut i: usize = 0;
    while i < cs.len()
        invariant
            i <= cs@.len(),
            cs@ == s@,
            acc@ == cell_chars(s@.take(i as int)),
        decreases cs@.len() - i,
    {
        let c = cs[i];
        if c == '|' {
            acc.push('\\');
            acc.push('|');
        } else if c == '\n' {
            acc.push(' ');
        } else {
            acc.push(c);
        }
        proof {
            let t = s@.take(i + 1);
            assert(t.drop_last() =~= s@.take(i as int));
            assert(acc@ =~= cell_chars(t));
        }
        i += 1;
    }
    proof {
        assert(s@.take(cs@.len() as int) =~= s@);
    }
    let t = trim_chars(acc.as_slice());
    string_of(t.as_slice())
}

/// A word with its first character in Unicode uppercase.
pub open spec fn capitalized(w: Seq<char>) -> Seq<char> {
    if w.len() == 0 {
        seq![]
    } else {
        unicode_upper(seq![w[0]]) + w.skip(1)
    }
}

pub fn capitalize(w: &[char]) -> (out: Vec<char>)
    ensures
        out@ == capitalized(w@),
{
    if w.len() == 0 {
        return Vec::new();
    }
    let first = string_of(&[w[0]]);
    proof {
        assert([w[0]]@ =~= seq![w@[0]]);
    }
    let up = to_uppercase(first.as_str());
    let mut out = chars_of(up.as_str());
    let n = w.len();
    let rest = crate::text::slice_of(w, 1, n);
    append(&mut out, rest.as_slice());
    proof {
        assert(rest@ =~= w@.skip(1));
    }
    out
}

/// `send_realtime` becomes `SendRealtime`: each `_`-separated part
/// capitalised, the underscores dropped.
pub open spec fn pascal_of(parts: Seq<Seq<char>>) -> Seq<char>
    decreases parts.len(),
{
    if parts.len() == 0 {
        seq![]
    } else {
        pascal_of(parts.drop_last()) + capitalized(parts.last())
    }
}

pub fn snake_to_pascal(s: &str) -> (out: String)
    ensures
        out@ == pascal_of(split_on(s@, '_')),
{
    let parts = split_chars(chars_of(s).as_slice(), '_');
    let ghost ps = char_views(parts@);
    let mut acc: Vec<char> = Vec::new();
    let mut i: usize = 0;
    while i < parts.len()
        invariant
            i <= parts@.len(),
            ps == char_views(parts@),
            acc@ == pascal_of(ps.take(i as int)),
        decreases parts@.len() - i,
    {
        let c = capitalize(parts[i].as_slice());
        append(&mut acc, c.as_slice());
        proof {
            let t = ps.take(i + 1);
            assert(t.drop_last() =~= ps.take(i as int));
            assert(t.last() == parts@[i as int]@);
        }
        i += 1;
    }
    proof {
        assert(ps.take(parts@.len() as int) =~= ps);
    }
    string_of(acc.as_slice())
}

} // verus!
