//! SD card file operations: paths, the firmware's size strings, the SD
//! listing entries and the free-space guard for uploads.

use crate::connection::has_prefix;
use crate::fluidnc::is_f64_literal;
use crate::text::{
    all_digits, all_digits_exec, append, chars_of, digits_value, own, parse_digits, rfind_char,
    split_once, split_once_chars, string_of, trim, trim_chars, upper_chars, upper_seq,
};
use vstd::prelude::*;

verus! {

/// A directory as sent to the firmware: empty means the root.
pub open spec fn dir_or_root(dir: Seq<char>) -> Seq<char> {
    if dir.len() == 0 {
        "/"@
    } else {
        dir
    }
}

/// The full SD path of `name` in `dir`.
pub open spec fn joined(dir: Seq<char>, name: Seq<char>) -> Seq<char> {
    let d = dir_or_root(dir);
    if d.last() == '/' {
        d + name
    } else {
        d + "/"@ + name
    }
}

pub fn dir_or_root_exec(dir: &str) -> (d: String)
    ensures
        d@ == dir_or_root(dir@),
{
    if chars_of(dir).len() == 0 {
        own("/")
    } else {
        own(dir)
    }
}

pub fn join_dir(dir: &str, name: &str) -> (p: String)
    ensures
        p@ == joined(dir@, name@),
{
    let d = dir_or_root_exec(dir);
    let mut out = chars_of(d.as_str());
    proof {
        reveal_strlit("/");
        assert(out@.len() > 0);
    }
    let n = out.len();
    if out[n - 1] != '/' {
        out.push('/');
    }
    append(&mut out, chars_of(name).as_slice());
    string_of(out.as_slice())
}

/// The SD path of a file as the download endpoint wants it: with a
/// leading `/`.
pub open spec fn rooted(path: Seq<char>) -> Seq<char> {
    if has_prefix(path, "/"@) {
        path
    } else {
        "/"@ + path
    }
}

pub fn rooted_path(path: &str) -> (p: String)
    ensures
        p@ == rooted(path@),
{
    let s = chars_of(path);
    let slash = chars_of("/");
    if crate::text::starts_with(s.as_slice(), slash.as_slice()) {
        own(path)
    } else {
        let all = crate::text::concat(slash.as_slice(), s.as_slice());
        string_of(all.as_slice())
    }
}

/// The SD path named by an API resource name: the name without its
/// `files/` prefix, or the name itself when it has none.
pub open spec fn resource_path(name: Seq<char>) -> Seq<char> {
    if has_prefix(name, "files/"@) {
        name.skip("files/"@.len() as int)
    } else {
        name
    }
}

pub fn path_from_resource_name(name: &str) -> (p: String)
    ensures
        p@ == resource_path(name@),
{
    let s = chars_of(name);
    if crate::connection::has_prefix_exec(s.as_slice(), "files/") {
        proof {
            reveal_strlit("files/");
        }
        let n = s.len();
        let rest = crate::text::slice_of(s.as_slice(), 6, n);
        proof {
            assert(rest@ =~= s@.skip(6));
        }
        string_of(rest.as_slice())
    } else {
        own(name)
    }
}

/// An SD path split into its directory and file name at the last `/`; the
/// directory of a top-level file is the root, and a path without `/` is a
/// file in the root.
pub open spec fn sd_split(path: Seq<char>) -> (Seq<char>, Seq<char>) {
    let i = rfind_char(path, '/');
    if i < 0 {
        ("/"@, path)
    } else {
        (dir_or_root(path.take(i)), path.skip(i + 1))
    }
}

pub fn split_sd_path(path: &str) -> (r: (String, String))
    ensures
        (r.0@, r.1@) == sd_split(path@),
{
    let s = chars_of(path);
    match crate::text::rfind_char_exec(s.as_slice(), '/') {
        Some(i) => {
            proof {
                crate::text::lemma_rfind_char(s@, '/');
            }
            let n = s.len();
            let d = crate::text::slice_of(s.as_slice(), 0, i);
            let f = crate::text::slice_of(s.as_slice(), i + 1, n);
            proof {
                assert(d@ =~= s@.take(i as int));
                assert(f@ =~= s@.skip(i + 1));
            }
            let ds = string_of(d.as_slice());
            (dir_or_root_exec(ds.as_str()), string_of(f.as_slice()))
        },
        None => (own("/"), own(path)),
    }
}

/// An uploaded file's name is recovered from its full SD path: splitting
/// the joined path at its last `/` gives the name back, whatever the
/// directory (for a name without `/`).
pub proof fn law_join_then_split_recovers_name(dir: Seq<char>, name: Seq<char>)
    requires
        forall|i: int| 0 <= i < name.len() ==> name[i] != '/',
    ensures
        sd_split(joined(dir, name)).1 == name,
{
    reveal_strlit("/");
    let d = dir_or_root(dir);
    let prefix = if d.last() == '/' { d } else { d + "/"@ };
    assert(joined(dir, name) == prefix + name);
    let s = prefix + name;
    let p = prefix.len() as int;
    assert(prefix.len() > 0);
    assert(s[p - 1] == '/');
    crate::text::lemma_rfind_char(s, '/');
    let r = rfind_char(s, '/');
    assert forall|k: int| p <= k < s.len() implies s[k] != '/' by {
        assert(s[k] == name[k - p]);
    }
    assert(r == p - 1);
    assert(s.skip(r + 1) =~= name);
}

/// The power of 1024 a firmware size unit stands for.
pub open spec fn unit_power(unit: Seq<char>) -> Option<u32> {
    let u = upper_seq(unit);
    if u == "B"@ {
        Some(0)
    } else if u == "KB"@ {
        Some(1)
    } else if u == "MB"@ {
        Some(2)
    } else if u == "GB"@ {
        Some(3)
    } else if u == "TB"@ {
        Some(4)
    } else {
        None
    }
}

/// A firmware `formatBytes` string (e.g. `7.40 GB`) taken apart: the number
/// text and the power of 1024 of its unit. The number must parse as an
/// `f64`; the caller multiplies.
pub open spec fn size_parts_of(s: Seq<char>) -> Option<(Seq<char>, u32)> {
    match split_once(trim(s), ' ') {
        None => None,
        Some((num, unit)) => {
            let n = trim(num);
            if is_f64_literal(n) && unit_power(trim(unit)) is Some {
                Some((n, unit_power(trim(unit)).unwrap()))
            } else {
                None
            }
        },
    }
}

fn unit_power_exec(unit: &[char]) -> (r: Option<u32>)
    ensures
        r == unit_power(unit@),
{
    let u = upper_chars(unit);
    let us = u.as_slice();
    if crate::text::slice_eq(us, chars_of("B").as_slice()) {
        Some(0)
    } else if crate::text::slice_eq(us, chars_of("KB").as_slice()) {
        Some(1)
    } else if crate::text::slice_eq(us, chars_of("MB").as_slice()) {
        Some(2)
    } else if crate::text::slice_eq(us, chars_of("GB").as_slice()) {
        Some(3)
    } else if crate::text::slice_eq(us, chars_of("TB").as_slice()) {
        Some(4)
    } else {
        None
    }
}

pub fn size_parts(s: &str) -> (r: Option<(String, u32)>)
    ensures
        match r {
            Some((n, p)) => size_parts_of(s@) == Some((n@, p)),
            None => size_parts_of(s@) is None,
        },
{
    let t = trim_chars(chars_of(s).as_slice());
    match split_once_chars(t.as_slice(), ' ') {
        None => None,
        Some((num, unit)) => {
            let n = trim_chars(num.as_slice());
            let ns = string_of(n.as_slice());
            let ok = crate::fluidnc::parses_as_f64(ns.as_str());
            let u = trim_chars(unit.as_slice());
            match unit_power_exec(u.as_slice()) {
                Some(p) => if ok {
                    Some((ns, p))
                } else {
                    None
                },
                None => None,
            }
        },
    }
}

/// Free space from the firmware's totals, never below zero.
pub fn free_space(total: u64, used: u64) -> (f: u64)
    ensures
        f == if used <= total { (total - used) as u64 } else { 0 },
{
    total.saturating_sub(used)
}

/// What `str::parse::<u64>` accepts: an optional `+`, then decimal digits
/// only, within range.
pub open spec fn u64_of(s: Seq<char>) -> Option<u64> {
    let k = if s.len() > 0 && s[0] == '+' { 1int } else { 0int };
    let d = s.skip(k);
    if d.len() > 0 && all_digits(d) && digits_value(d) <= u64::MAX {
        Some(digits_value(d) as u64)
    } else {
        None
    }
}

pub fn parse_u64(s: &str) -> (r: Option<u64>)
    ensures
        r == u64_of(s@),
{
    let cs = chars_of(s);
    let k: usize = if cs.len() > 0 && cs[0] == '+' { 1 } else { 0 };
    let n = cs.len();
    let d = crate::text::slice_of(cs.as_slice(), k, n);
    proof {
        assert(d@ =~= s@.skip(k as int));
        assert(d@.subrange(0, d@.len() as int) =~= d@);
    }
    if d.len() == 0 || !all_digits_exec(d.as_slice()) {
        return None;
    }
    parse_digits(d.as_slice(), 0, d.len(), u64::MAX)
}

/// One SD listing entry.
#[derive(Clone, Debug)]
pub struct FileEntry {
    pub name: String,
    pub size_bytes: u64,
    pub is_directory: bool,
}

/// The fields of one listing entry that matter, as read from the
/// firmware's JSON: `{ name, size, isdir? }`, where `size` may be a number
/// or a string, and is `-1` for a directory when `isdir` is missing.
pub struct RawEntry {
    /// `name`, when it is a string.
    pub name: Option<String>,
    /// `size`, when it is a number that fits a `u64`.
    pub size_number: Option<u64>,
    /// `size`, when it is a string.
    pub size_string: Option<String>,
    /// The JSON text of `size`, when present.
    pub size_json: Option<String>,
    /// `isdir`, when it is a boolean.
    pub isdir: Option<bool>,
}

/// Text with every leading and trailing `"` removed.
pub open spec fn unquoted(s: Seq<char>) -> Seq<char>
    decreases s.len(),
{
    if s.len() > 0 && s[0] == '"' {
        unquoted(s.drop_first())
    } else if s.len() > 0 && s.last() == '"' {
        unquoted(s.drop_last())
    } else {
        s
    }
}

fn unquoted_exec(s: &[char]) -> (out: Vec<char>)
    ensures
        out@ == unquoted(s@),
{
    let mut lo: usize = 0;
    let mut hi: usize = s.len();
    proof {
        assert(s@.subrange(0, s@.len() as int) =~= s@);
    }
    while lo < hi && (s[lo] == '"' || s[hi - 1] == '"')
        invariant
            lo <= hi <= s@.len(),
            unquoted(s@.subrange(lo as int, hi as int)) == unquoted(s@),
        decreases hi - lo,
    {
        let ghost t = s@.subrange(lo as int, hi as int);
        if s[lo] == '"' {
            proof {
                assert(t.drop_first() =~= s@.subrange(lo + 1, hi as int));
            }
            lo += 1;
        } else {
            proof {
                assert(t.drop_last() =~= s@.subrange(lo as int, hi - 1));
            }
            hi -= 1;
        }
    }
    crate::text::slice_of(s, lo, hi)
}

/// An entry as the listing shows it: entries without a string name are
/// dropped; the size is the number, else the string parsed as a `u64`, else
/// zero; a directory is flagged by `isdir` or by a size of `-1`.
pub open spec fn entry_of(e: RawEntry) -> Option<(Seq<char>, u64, bool)> {
    match e.name {
        None => None,
        Some(name) => {
            let size = match e.size_number {
                Some(n) => n,
                None => match e.size_string {
                    Some(t) => match u64_of(t@) {
                        Some(n) => n,
                        None => 0,
                    },
                    None => 0,
                },
            };
            let dir = match e.isdir {
                Some(b) => b,
                None => false,
            } || match e.size_json {
                Some(j) => unquoted(j@) == "-1"@,
                None => false,
            };
            Some((name@, size, dir))
        },
    }
}

pub fn file_entry(e: RawEntry) -> (r: Option<FileEntry>)
    ensures
        match r {
            Some(f) => entry_of(e) == Some((f.name@, f.size_bytes, f.is_directory)),
            None => entry_of(e) is None,
        },
{
    let ghost e0 = e;
    let name = match e.name {
        Some(n) => n,
        None => {
            return None;
        },
    };
    let size = match e.size_number {
        Some(n) => n,
        None => match &e.size_string {
            Some(t) => match parse_u64(t.as_str()) {
                Some(n) => n,
                None => 0,
            },
            None => 0,
        },
    };
    let flagged = match e.isdir {
        Some(b) => b,
        None => false,
    };
    let minus_one = match &e.size_json {
        Some(j) => {
            let u = unquoted_exec(chars_of(j.as_str()).as_slice());
            crate::text::slice_eq(u.as_slice(), chars_of("-1").as_slice())
        },
        None => false,
    };
    Some(FileEntry { name, size_bytes: size, is_directory: flagged || minus_one })
}

/// The entries of a listing that read as files or directories, in order.
pub open spec fn entries_of(raws: Seq<RawEntry>) -> Seq<(Seq<char>, u64, bool)>
    decreases raws.len(),
{
    if raws.len() == 0 {
        seq![]
    } else {
        let r = entries_of(raws.drop_last());
        match entry_of(raws.last()) {
            Some(e) => r.push(e),
            None => r,
        }
    }
}

pub open spec fn file_view(f: FileEntry) -> (Seq<char>, u64, bool) {
    (f.name@, f.size_bytes, f.is_directory)
}

/// The entries of a listing, given its `files` array (`None` when the
/// listing has none, which lists nothing).
pub fn file_entries(files: Option<Vec<RawEntry>>) -> (out: Vec<FileEntry>)
    ensures
        out@.map_values(|f: FileEntry| file_view(f)) == match files {
            Some(v) => entries_of(v@),
            None => seq![],
        },
{
    let mut out: Vec<FileEntry> = Vec::new();
    match files {
        None => {
            proof {
                assert(out@.map_values(|f: FileEntry| file_view(f)) =~= seq![]);
            }
            out
        },
        Some(v) => {
            let ghost all = v@;
            proof {
                assert(all.take(0) =~= seq![]);
                assert(out@.map_values(|f: FileEntry| file_view(f)) =~= seq![]);
            }
            for e in it: v.into_iter()
                invariant
                    it.seq() == all,
                    out@.map_values(|f: FileEntry| file_view(f)) == entries_of(all.take(it.index() as int)),
            {
                let ghost k = it.index() as int;
                let ghost before = out@.map_values(|f: FileEntry| file_view(f));
                proof {
                    let t = all.take(k + 1);
                    assert(t.drop_last() =~= all.take(k));
                    assert(t.last() == e);
                }
                match file_entry(e) {
                    Some(f) => {
                        out.push(f);
                        proof {
                            assert(out@.map_values(|f: FileEntry| file_view(f)) =~= before.push(file_view(f)));
                        }
                    },
                    None => {},
                }
            }
            proof {
                assert(all.take(all.len() as int) =~= all);
            }
            out
        },
    }
}

} // verus!
