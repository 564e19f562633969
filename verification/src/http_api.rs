//! The machine's HTTP API: host normalisation, the reachability report and
//! the firmware version line.

use crate::connection::has_prefix;
use crate::text::{
    char_views, chars_of, concat, find, find_chars, lines, split_lines, string_of, trim, trim_chars,
};
use vstd::prelude::*;

verus! {

/// Result of a reachability test.
#[derive(Clone, Debug)]
pub struct PingResult {
    pub reachable: bool,
    pub status: u16,
    /// Firmware info from `[ESP420]` when reachable, else the error message.
    pub info: String,
}

impl PingResult {
    /// The machine answered with this HTTP status and body: reachable only
    /// with status 200.
    pub fn answered(status: u16, body: String) -> (p: PingResult)
        ensures
            p.reachable == (status == 200),
            p.status == status,
            p.info == body,
    {
        PingResult { reachable: status == 200, status, info: body }
    }

    /// The request could not be made or sent: status 0, and the info is
    /// `what: error`.
    pub fn failed(what: &str, error: &str) -> (p: PingResult)
        ensures
            !p.reachable,
            p.status == 0,
            p.info@ == what@ + ": "@ + error@,
    {
        let a = chars_of(what);
        let sep = chars_of(": ");
        let b = chars_of(error);
        let ab = concat(a.as_slice(), sep.as_slice());
        let all = concat(ab.as_slice(), b.as_slice());
        PingResult { reachable: false, status: 0, info: string_of(all.as_slice()) }
    }
}

/// `s` with every trailing `c` removed.
pub open spec fn strip_trailing(s: Seq<char>, c: char) -> Seq<char>
    decreases s.len(),
{
    if s.len() > 0 && s.last() == c {
        strip_trailing(s.drop_last(), c)
    } else {
        s
    }
}

pub fn strip_trailing_exec(s: &[char], c: char) -> (out: Vec<char>)
    ensures
        out@ == strip_trailing(s@, c),
{
    let mut n = s.len();
    proof {
        assert(s@.take(n as int) =~= s@);
    }
    while n > 0 && s[n - 1] == c
        invariant
            n <= s@.len(),
            strip_trailing(s@.take(n as int), c) == strip_trailing(s@, c),
        decreases n,
    {
        proof {
            assert(s@.take(n as int).drop_last() =~= s@.take(n - 1));
        }
        n -= 1;
    }
    crate::text::slice_of(s, 0, n)
}

/// The base URL of a host as typed: trimmed, without trailing slashes,
/// with `http://` added unless a scheme is there.
pub open spec fn normalized(host: Seq<char>) -> Seq<char> {
    let h = strip_trailing(trim(host), '/');
    if has_prefix(h, "http://"@) || has_prefix(h, "https://"@) {
        h
    } else {
        "http://"@ + h
    }
}

pub fn normalize_host(host: &str) -> (url: String)
    ensures
        url@ == normalized(host@),
{
    let t = trim_chars(chars_of(host).as_slice());
    let h = strip_trailing_exec(t.as_slice(), '/');
    let http = chars_of("http://");
    let https = chars_of("https://");
    if crate::text::starts_with(h.as_slice(), http.as_slice()) || crate::text::starts_with(
        h.as_slice(),
        https.as_slice(),
    ) {
        string_of(h.as_slice())
    } else {
        let all = concat(http.as_slice(), h.as_slice());
        string_of(all.as_slice())
    }
}

/// Token separators in a version line.
pub open spec fn is_sep(c: char) -> bool {
    c == ' ' || c == '#' || c == '\t'
}

/// Number of leading separators.
pub open spec fn lead_seps(s: Seq<char>) -> int
    decreases s.len(),
{
    if s.len() > 0 && is_sep(s[0]) {
        1 + lead_seps(s.drop_first())
    } else {
        0
    }
}

/// Length of the leading run of non-separators.
pub open spec fn token_len(s: Seq<char>) -> int
    decreases s.len(),
{
    if s.len() > 0 && !is_sep(s[0]) {
        1 + token_len(s.drop_first())
    } else {
        0
    }
}

/// The first non-empty token of `s` split at spaces, tabs and `#`.
pub open spec fn first_token(s: Seq<char>) -> Seq<char> {
    let rest = s.skip(lead_seps(s));
    rest.take(token_len(rest))
}

/// The version a `FW version: FluidNC <ver> # ...` line carries, if any:
/// the first token after the label, the `FluidNC` word dropped.
pub open spec fn version_in(line: Seq<char>) -> Option<Seq<char>> {
    let pat = "FW version:"@;
    let i = find(line, pat);
    if i < 0 {
        None
    } else {
        let after = trim(line.skip(i + pat.len()));
        let rest = if has_prefix(after, "FluidNC"@) {
            trim(after.skip(7))
        } else {
            after
        };
        let ver = first_token(rest);
        if ver.len() > 0 {
            Some(ver)
        } else {
            None
        }
    }
}

/// The version of the first line that carries one.
pub open spec fn version_among(ls: Seq<Seq<char>>) -> Option<Seq<char>>
    decreases ls.len(),
{
    if ls.len() == 0 {
        None
    } else if version_in(ls[0]) is Some {
        version_in(ls[0])
    } else {
        version_among(ls.drop_first())
    }
}

proof fn lemma_lead_seps(s: Seq<char>)
    ensures
        0 <= lead_seps(s) <= s.len(),
    decreases s.len(),
{
    if s.len() > 0 && is_sep(s[0]) {
        lemma_lead_seps(s.drop_first());
    }
}

proof fn lemma_token_len(s: Seq<char>)
    ensures
        0 <= token_len(s) <= s.len(),
    decreases s.len(),
{
    if s.len() > 0 && !is_sep(s[0]) {
        lemma_token_len(s.drop_first());
    }
}

fn first_token_exec(s: &[char]) -> (out: Vec<char>)
    ensures
        out@ == first_token(s@),
{
    let mut i: usize = 0;
    proof {
        assert(s@.skip(0) =~= s@);
    }
    while i < s.len() && (s[i] == ' ' || s[i] == '#' || s[i] == '\t')
        invariant
            i <= s@.len(),
            lead_seps(s@) == i + lead_seps(s@.skip(i as int)),
        decreases s@.len() - i,
    {
        proof {
            assert(s@.skip(i as int).drop_first() =~= s@.skip(i + 1));
        }
        i += 1;
    }
    proof {
        assert(s@.skip(0) =~= s@);
        assert(lead_seps(s@.skip(i as int)) == 0);
    }
    let mut j = i;
    while j < s.len() && !(s[j] == ' ' || s[j] == '#' || s[j] == '\t')
        invariant
            i <= j <= s@.len(),
            lead_seps(s@) == i,
            token_len(s@.skip(i as int)) == (j - i) + token_len(s@.skip(j as int)),
        decreases s@.len() - j,
    {
        proof {
            assert(s@.skip(j as int).drop_first() =~= s@.skip(j + 1));
        }
        j += 1;
    }
    proof {
        assert(token_len(s@.skip(j as int)) == 0);
        assert(s@.skip(i as int).take(j - i) =~= s@.subrange(i as int, j as int));
    }
    crate::text::slice_of(s, i, j)
}

fn version_in_exec(line: &[char]) -> (r: Option<Vec<char>>)
    ensures
        match r {
            Some(v) => version_in(line@) == Some(v@),
            None => version_in(line@) is None,
        },
{
    let pat = chars_of("FW version:");
    proof {
        reveal_strlit("FW version:");
    }
    let i = match find_chars(line, pat.as_slice()) {
        Some(i) => i,
        None => {
            return None;
        },
    };
    proof {
        crate::text::lemma_find(line@, pat@);
        assert(crate::text::matches_at(line@, i as int, pat@));
    }
    let n = line.len();
    let tail = crate::text::slice_of(line, i + 11, n);
    proof {
        assert(tail@ =~= line@.skip(i + 11));
    }
    let after = trim_chars(tail.as_slice());
    let label = chars_of("FluidNC");
    proof {
        reveal_strlit("FluidNC");
    }
    let rest = if crate::text::starts_with(after.as_slice(), label.as_slice()) {
        let m = after.len();
        let r = crate::text::slice_of(after.as_slice(), 7, m);
        proof {
            assert(r@ =~= after@.skip(7));
        }
        trim_chars(r.as_slice())
    } else {
        after
    };
    let ver = first_token_exec(rest.as_slice());
    if ver.len() > 0 {
        Some(ver)
    } else {
        None
    }
}

/// Pull the version token out of the `[ESP800]` reply: the first line
/// with a `FW version:` label and a token after it.
pub fn parse_fw_version(body: &str) -> (r: Option<String>)
    ensures
        match r {
            Some(v) => version_among(lines(body@)) == Some(v@),
            None => version_among(lines(body@)) is None,
        },
{
    let ls = split_lines(chars_of(body).as_slice());
    let ghost all = char_views(ls@);
    let mut k: usize = 0;
    proof {
        assert(all.skip(0) =~= all);
    }
    while k < ls.len()
        invariant
            k <= ls@.len(),
            all == char_views(ls@),
            all == lines(body@),
            version_among(all) == version_among(all.skip(k as int)),
        decreases ls@.len() - k,
    {
        proof {
            assert(all.skip(k as int)[0] == ls@[k as int]@);
            assert(all.skip(k as int).drop_first() =~= all.skip(k + 1));
        }
        match version_in_exec(ls[k].as_slice()) {
            Some(v) => {
                return Some(string_of(v.as_slice()));
            },
            None => {},
        }
        k += 1;
    }
    proof {
        assert(all.skip(k as int) =~= seq![]);
    }
    None
}

} // verus!
