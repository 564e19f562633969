//! Character-level helpers shared by the line parsers: conversions between
//! `str`/`String` and character vectors, Unicode whitespace, digits, ASCII
//! case, substring search and trimming, each with its specification.

use vstd::prelude::*;

verus! {

// ---------------------------------------------------------------------------
// Conversions
// ---------------------------------------------------------------------------

/// Collect the characters of a string slice, in order.
pub fn chars_of(s: &str) -> (out: Vec<char>)
    ensures
        out@ == s@,
{
    let mut out: Vec<char> = Vec::new();
    proof {
        broadcast use vstd::string::group_string_axioms;
    }
    for c in it: s.chars()
        invariant
            out@ == it.seq().take(it.index() as int),
            it.seq() == s@,
    {
        out.push(c);
    }
    out
}

/// `String::push`: appends one character.
#[verifier::external_body]
fn push_char(s: &mut String, c: char)
    ensures
        final(s)@ == old(s)@.push(c),
{
    s.push(c);
}

/// Build a `String` holding exactly the given characters.
pub fn string_of(cs: &[char]) -> (out: String)
    ensures
        out@ == cs@,
{
    let mut out = String::new();
    let mut i: usize = 0;
    while i < cs.len()
        invariant
            i <= cs@.len(),
            out@ == cs@.take(i as int),
        decreases cs@.len() - i,
    {
        push_char(&mut out, cs[i]);
        proof {
            assert(cs@.take(i as int).push(cs@[i as int]) =~= cs@.take(i + 1));
        }
        i += 1;
    }
    proof {
        assert(cs@.take(cs@.len() as int) =~= cs@);
    }
    out
}

/// Copy a string slice into an owned `String`.
pub fn own(s: &str) -> (out: String)
    ensures
        out@ == s@,
{
    s.to_owned()
}

/// Character-wise equality of two string slices.
pub fn str_eq(a: &str, b: &str) -> (r: bool)
    ensures
        r == (a@ == b@),
{
    let x = chars_of(a);
    let y = chars_of(b);
    slice_eq(x.as_slice(), y.as_slice())
}

/// Element-wise equality of two character slices.
pub fn slice_eq(x: &[char], y: &[char]) -> (r: bool)
    ensures
        r == (x@ == y@),
{
    if x.len() != y.len() {
        return false;
    }
    let mut i: usize = 0;
    while i < x.len()
        invariant
            x@.len() == y@.len(),
            i <= x@.len(),
            forall|k: int| 0 <= k < i ==> x@[k] == y@[k],
        decreases x@.len() - i,
    {
        if x[i] != y[i] {
            return false;
        }
        i += 1;
    }
    proof {
        assert(x@ =~= y@);
    }
    true
}

/// The characters of an optional string.
pub open spec fn opt_text(o: Option<String>) -> Option<Seq<char>> {
    match o {
        Some(s) => Some(s@),
        None => None,
    }
}

/// UTF-8 length in bytes of a character sequence, as `str::len` reports it.
pub open spec fn byte_len(s: Seq<char>) -> int {
    (vstd::utf8::encode_utf8(s).len() as usize) as int
}

// ---------------------------------------------------------------------------
// Character classes
// ---------------------------------------------------------------------------

/// Unicode `White_Space`, the property `char::is_whitespace` tests.
pub open spec fn is_ws(c: char) -> bool {
    let u = c as u32;
    (0x09 <= u && u <= 0x0d) || u == 0x20 || u == 0x85 || u == 0xa0 || u == 0x1680
        || (0x2000 <= u && u <= 0x200a) || u == 0x2028 || u == 0x2029 || u == 0x202f
        || u == 0x205f || u == 0x3000
}

pub fn is_whitespace(c: char) -> (b: bool)
    ensures
        b == is_ws(c),
{
    let u = c as u32;
    (0x09 <= u && u <= 0x0d) || u == 0x20 || u == 0x85 || u == 0xa0 || u == 0x1680 || (0x2000
        <= u && u <= 0x200a) || u == 0x2028 || u == 0x2029 || u == 0x202f || u == 0x205f || u
        == 0x3000
}

/// ASCII decimal digit.
pub open spec fn is_digit(c: char) -> bool {
    '0' as u32 <= c as u32 && c as u32 <= '9' as u32
}

/// Every character is an ASCII digit.
pub open spec fn all_digits(s: Seq<char>) -> bool {
    forall|i: int| 0 <= i < s.len() ==> is_digit(#[trigger] s[i])
}

pub fn is_ascii_digit(c: char) -> (b: bool)
    ensures
        b == is_digit(c),
{
    let u = c as u32;
    48 <= u && u <= 57
}

/// Numeric value of an ASCII digit.
pub open spec fn digit_value(c: char) -> int {
    c as u32 - '0' as u32
}

/// ASCII letter.
pub open spec fn is_alpha(c: char) -> bool {
    ('a' as u32 <= c as u32 && c as u32 <= 'z' as u32) || ('A' as u32 <= c as u32 && c as u32
        <= 'Z' as u32)
}

pub fn is_ascii_alpha(c: char) -> (b: bool)
    ensures
        b == is_alpha(c),
{
    let u = c as u32;
    (97 <= u && u <= 122) || (65 <= u && u <= 90)
}

/// ASCII letter, digit, or underscore: the characters of a Rust identifier.
pub open spec fn is_ident(c: char) -> bool {
    is_alpha(c) || is_digit(c) || c == '_'
}

pub fn is_ident_char(c: char) -> (b: bool)
    ensures
        b == is_ident(c),
{
    is_ascii_alpha(c) || is_ascii_digit(c) || c == '_'
}

/// `char::to_ascii_uppercase`: lowercase ASCII letters map to uppercase,
/// everything else is unchanged.
pub open spec fn ascii_upper(c: char) -> char {
    if 'a' as u32 <= c as u32 && c as u32 <= 'z' as u32 {
        ((c as u32) - 32) as char
    } else {
        c
    }
}

pub fn to_ascii_upper(c: char) -> (r: char)
    ensures
        r == ascii_upper(c),
{
    let u = c as u32;
    if 97 <= u && u <= 122 {
        proof {
            vstd::utf8::char_u32_cast(c, u);
        }
        let v: u32 = u - 32;
        assert(v < 0xD800);
        char_from_ascii(v)
    } else {
        c
    }
}

/// An ASCII code point as a `char`.
fn char_from_ascii(v: u32) -> (c: char)
    requires
        v < 128,
    ensures
        c == v as char,
        c as u32 == v,
{
    let b: u8 = v as u8;
    b as char
}

/// `str::to_ascii_uppercase` on a character sequence.
pub open spec fn upper_seq(s: Seq<char>) -> Seq<char> {
    s.map_values(|c: char| ascii_upper(c))
}

pub fn upper_chars(s: &[char]) -> (out: Vec<char>)
    ensures
        out@ == upper_seq(s@),
{
    let mut out: Vec<char> = Vec::new();
    let mut i: usize = 0;
    while i < s.len()
        invariant
            i <= s@.len(),
            out@ == upper_seq(s@.take(i as int)),
        decreases s@.len() - i,
    {
        out.push(to_ascii_upper(s[i]));
        proof {
            assert(upper_seq(s@.take(i as int)).push(ascii_upper(s@[i as int])) =~= upper_seq(
                s@.take(i + 1),
            ));
        }
        i += 1;
    }
    proof {
        assert(s@.take(s@.len() as int) =~= s@);
    }
    out
}

// ---------------------------------------------------------------------------
// Substring search
// ---------------------------------------------------------------------------

/// `pat` occurs in `s` starting at index `i`.
pub open spec fn matches_at(s: Seq<char>, i: int, pat: Seq<char>) -> bool {
    0 <= i && i + pat.len() <= s.len() && s.subrange(i, i + pat.len()) == pat
}

/// Index of the first occurrence of `pat` in `s` at or after `i`, or -1.
pub open spec fn find_from(s: Seq<char>, pat: Seq<char>, i: int) -> int
    decreases s.len() + 1 - i,
{
    if i < 0 || i + pat.len() > s.len() {
        -1
    } else if matches_at(s, i, pat) {
        i
    } else {
        find_from(s, pat, i + 1)
    }
}

/// Index of the first occurrence of `pat` in `s`, or -1 (`str::find`).
pub open spec fn find(s: Seq<char>, pat: Seq<char>) -> int {
    find_from(s, pat, 0)
}

/// `find_from` returns the first match at or after `i`.
pub proof fn lemma_find_from(s: Seq<char>, pat: Seq<char>, i: int)
    requires
        0 <= i,
    ensures
        find_from(s, pat, i) == -1 || (i <= find_from(s, pat, i) && matches_at(
            s,
            find_from(s, pat, i),
            pat,
        )),
        forall|j: int|
            i <= j && (find_from(s, pat, i) == -1 || j < find_from(s, pat, i)) ==> !matches_at(
                s,
                j,
                pat,
            ),
    decreases s.len() + 1 - i,
{
    if i + pat.len() > s.len() {
    } else if matches_at(s, i, pat) {
    } else {
        lemma_find_from(s, pat, i + 1);
    }
}

pub proof fn lemma_find(s: Seq<char>, pat: Seq<char>)
    ensures
        find(s, pat) == -1 || (0 <= find(s, pat) && matches_at(s, find(s, pat), pat)),
        forall|j: int|
            0 <= j && (find(s, pat) == -1 || j < find(s, pat)) ==> !matches_at(s, j, pat),
{
    lemma_find_from(s, pat, 0);
}

/// Does `pat` occur in `s` at `i`?
pub fn matches_at_exec(s: &[char], i: usize, pat: &[char]) -> (b: bool)
    ensures
        b == matches_at(s@, i as int, pat@),
{
    if i > s.len() || pat.len() > s.len() - i {
        return false;
    }
    let mut k: usize = 0;
    while k < pat.len()
        invariant
            i + pat@.len() <= s@.len(),
            i <= s.len(),
            pat.len() <= s.len() - i,
            k <= pat@.len(),
            forall|j: int| 0 <= j < k ==> s@[i + j] == pat@[j],
        decreases pat@.len() - k,
    {
        assert(i + k < s@.len());
        let idx = i + k;
        if s[idx] != pat[k] {
            proof {
                assert(s@.subrange(i as int, i + pat@.len())[k as int] != pat@[k as int]);
            }
            return false;
        }
        k += 1;
    }
    proof {
        assert(s@.subrange(i as int, i + pat@.len()) =~= pat@);
    }
    true
}

/// First occurrence of `pat` in `s` at or after `from`.
pub fn find_chars_from(s: &[char], pat: &[char], from: usize) -> (r: Option<usize>)
    ensures
        match r {
            Some(i) => find_from(s@, pat@, from as int) == i as int,
            None => find_from(s@, pat@, from as int) == -1,
        },
{
    let mut i = from;
    while i <= s.len() && pat.len() <= s.len() - i
        invariant
            from <= i,
            find_from(s@, pat@, from as int) == find_from(s@, pat@, i as int),
        decreases s@.len() + 1 - i,
    {
        if matches_at_exec(s, i, pat) {
            return Some(i);
        }
        if i == s.len() {
            assert(find_from(s@, pat@, i + 1) == -1);
            return None;
        }
        i += 1;
    }
    None
}

/// First occurrence of `pat` in `s`.
pub fn find_chars(s: &[char], pat: &[char]) -> (r: Option<usize>)
    ensures
        match r {
            Some(i) => find(s@, pat@) == i as int,
            None => find(s@, pat@) == -1,
        },
{
    find_chars_from(s, pat, 0)
}

/// Index of the first occurrence of `c` in `s`, or -1.
pub open spec fn find_char(s: Seq<char>, c: char) -> int {
    find(s, seq![c])
}

/// Index of the last occurrence of `c` in `s`, or -1.
pub open spec fn rfind_char_before(s: Seq<char>, c: char, end: int) -> int
    decreases end,
{
    if end <= 0 {
        -1
    } else if s[end - 1] == c {
        end - 1
    } else {
        rfind_char_before(s, c, end - 1)
    }
}

pub open spec fn rfind_char(s: Seq<char>, c: char) -> int {
    rfind_char_before(s, c, s.len() as int)
}

/// `rfind_char_before` finds the last `c` before `end`, or -1.
pub proof fn lemma_rfind_char_before(s: Seq<char>, c: char, end: int)
    requires
        0 <= end <= s.len(),
    ensures
        -1 <= rfind_char_before(s, c, end) < end,
        rfind_char_before(s, c, end) >= 0 ==> s[rfind_char_before(s, c, end)] == c,
        forall|k: int| rfind_char_before(s, c, end) < k < end ==> s[k] != c,
    decreases end,
{
    if end > 0 && s[end - 1] != c {
        lemma_rfind_char_before(s, c, end - 1);
    }
}

pub proof fn lemma_rfind_char(s: Seq<char>, c: char)
    ensures
        -1 <= rfind_char(s, c) < s.len(),
        rfind_char(s, c) >= 0 ==> s[rfind_char(s, c)] == c,
        forall|k: int| rfind_char(s, c) < k < s.len() ==> s[k] != c,
{
    lemma_rfind_char_before(s, c, s.len() as int);
}

pub fn rfind_char_exec(s: &[char], c: char) -> (r: Option<usize>)
    ensures
        match r {
            Some(i) => rfind_char(s@, c) == i as int,
            None => rfind_char(s@, c) == -1,
        },
{
    let mut end = s.len();
    while end > 0
        invariant
            end <= s@.len(),
            rfind_char(s@, c) == rfind_char_before(s@, c, end as int),
        decreases end,
    {
        if s[end - 1] == c {
            return Some(end - 1);
        }
        end -= 1;
    }
    None
}

// ---------------------------------------------------------------------------
// Trimming
// ---------------------------------------------------------------------------

/// Number of leading whitespace characters.
pub open spec fn lead_ws(s: Seq<char>) -> int
    decreases s.len(),
{
    if s.len() == 0 {
        0
    } else if is_ws(s[0]) {
        1 + lead_ws(s.drop_first())
    } else {
        0
    }
}

/// Number of trailing whitespace characters.
pub open spec fn trail_ws(s: Seq<char>) -> int
    decreases s.len(),
{
    if s.len() == 0 {
        0
    } else if is_ws(s.last()) {
        1 + trail_ws(s.drop_last())
    } else {
        0
    }
}

/// `str::trim_start`.
pub open spec fn trim_start(s: Seq<char>) -> Seq<char> {
    s.skip(lead_ws(s))
}

/// `str::trim_end`.
pub open spec fn trim_end(s: Seq<char>) -> Seq<char> {
    s.take(s.len() - trail_ws(s))
}

/// `str::trim`.
pub open spec fn trim(s: Seq<char>) -> Seq<char> {
    trim_end(trim_start(s))
}

pub proof fn lemma_lead_ws(s: Seq<char>)
    ensures
        0 <= lead_ws(s) <= s.len(),
        forall|i: int| 0 <= i < lead_ws(s) ==> is_ws(#[trigger] s[i]),
        lead_ws(s) < s.len() ==> !is_ws(s[lead_ws(s)]),
    decreases s.len(),
{
    if s.len() > 0 && is_ws(s[0]) {
        lemma_lead_ws(s.drop_first());
        assert forall|i: int| 0 <= i < lead_ws(s) implies is_ws(#[trigger] s[i]) by {
            if i > 0 {
                assert(s[i] == s.drop_first()[i - 1]);
            }
        }
    }
}

/// Any index `k` whose prefix is all whitespace and which stops at a
/// non-whitespace character (or the end) is `lead_ws`.
pub proof fn lemma_lead_ws_unique(s: Seq<char>, k: int)
    requires
        0 <= k <= s.len(),
        forall|i: int| 0 <= i < k ==> is_ws(#[trigger] s[i]),
        k < s.len() ==> !is_ws(s[k]),
    ensures
        lead_ws(s) == k,
    decreases s.len(),
{
    if k > 0 {
        assert(is_ws(s[0]));
        let t = s.drop_first();
        assert forall|i: int| 0 <= i < k - 1 implies is_ws(#[trigger] t[i]) by {
            assert(t[i] == s[i + 1]);
        }
        if k - 1 < t.len() {
            assert(t[k - 1] == s[k]);
        }
        lemma_lead_ws_unique(t, k - 1);
    }
}

pub proof fn lemma_trail_ws(s: Seq<char>)
    ensures
        0 <= trail_ws(s) <= s.len(),
        forall|i: int| s.len() - trail_ws(s) <= i < s.len() ==> is_ws(#[trigger] s[i]),
        trail_ws(s) < s.len() ==> !is_ws(s[s.len() - trail_ws(s) - 1]),
    decreases s.len(),
{
    if s.len() > 0 && is_ws(s.last()) {
        lemma_trail_ws(s.drop_last());
        assert forall|i: int| s.len() - trail_ws(s) <= i < s.len() implies is_ws(#[trigger] s[i]) by {
            if i < s.len() - 1 {
                assert(s[i] == s.drop_last()[i]);
            }
        }
        if trail_ws(s) < s.len() {
            assert(s[s.len() - trail_ws(s) - 1] == s.drop_last()[s.len() - trail_ws(s) - 1]);
        }
    }
}

pub proof fn lemma_trail_ws_unique(s: Seq<char>, k: int)
    requires
        0 <= k <= s.len(),
        forall|i: int| s.len() - k <= i < s.len() ==> is_ws(#[trigger] s[i]),
        k < s.len() ==> !is_ws(s[s.len() - k - 1]),
    ensures
        trail_ws(s) == k,
    decreases s.len(),
{
    if k > 0 {
        assert(is_ws(s[s.len() - 1]));
        let t = s.drop_last();
        assert forall|i: int| t.len() - (k - 1) <= i < t.len() implies is_ws(#[trigger] t[i]) by {
            assert(t[i] == s[i]);
        }
        if k - 1 < t.len() {
            assert(t[t.len() - (k - 1) - 1] == s[s.len() - k - 1]);
        }
        lemma_trail_ws_unique(t, k - 1);
    }
}

/// Trimming twice is trimming once.
pub proof fn lemma_trim_idempotent(s: Seq<char>)
    ensures
        trim(trim(s)) == trim(s),
{
    let a = trim_start(s);
    lemma_lead_ws(s);
    lemma_trail_ws(a);
    let b = trim_end(a);
    if b.len() > 0 {
        assert(b[0] == a[0]);
        assert(a[0] == s[lead_ws(s)]);
        assert(lead_ws(b) == 0);
        assert(trim_start(b) =~= b);
        assert(b.last() == a[a.len() - trail_ws(a) - 1]);
        assert(trail_ws(b) == 0);
        assert(trim_end(b) =~= b);
    } else {
        assert(trim_start(b) =~= b);
        assert(trim_end(b) =~= b);
    }
}

/// Count of leading whitespace characters in `s[from..]`.
pub fn lead_ws_exec(s: &[char]) -> (k: usize)
    ensures
        k == lead_ws(s@),
{
    let mut k: usize = 0;
    while k < s.len() && is_whitespace(s[k])
        invariant
            k <= s@.len(),
            forall|i: int| 0 <= i < k ==> is_ws(#[trigger] s@[i]),
        decreases s@.len() - k,
    {
        k += 1;
    }
    proof {
        lemma_lead_ws_unique(s@, k as int);
    }
    k
}

pub fn trail_ws_exec(s: &[char]) -> (k: usize)
    ensures
        k == trail_ws(s@),
{
    let mut k: usize = 0;
    while k < s.len() && is_whitespace(s[s.len() - 1 - k])
        invariant
            k <= s@.len(),
            forall|i: int| s@.len() - k <= i < s@.len() ==> is_ws(#[trigger] s@[i]),
        decreases s@.len() - k,
    {
        k += 1;
    }
    proof {
        lemma_trail_ws_unique(s@, k as int);
    }
    k
}

/// Copy of `s[lo..hi]`.
pub fn slice_of(s: &[char], lo: usize, hi: usize) -> (out: Vec<char>)
    requires
        lo <= hi <= s@.len(),
    ensures
        out@ == s@.subrange(lo as int, hi as int),
{
    let mut out: Vec<char> = Vec::new();
    let mut i = lo;
    while i < hi
        invariant
            lo <= i <= hi,
            hi <= s@.len(),
            out@ == s@.subrange(lo as int, i as int),
        decreases hi - i,
    {
        out.push(s[i]);
        proof {
            assert(s@.subrange(lo as int, i as int).push(s@[i as int]) =~= s@.subrange(
                lo as int,
                i + 1,
            ));
        }
        i += 1;
    }
    out
}

/// `str::trim` on characters.
pub fn trim_chars(s: &[char]) -> (out: Vec<char>)
    ensures
        out@ == trim(s@),
{
    let a = lead_ws_exec(s);
    proof {
        lemma_lead_ws(s@);
    }
    let t = slice_of(s, a, s.len());
    let b = trail_ws_exec(t.as_slice());
    proof {
        lemma_trail_ws(t@);
    }
    slice_of(t.as_slice(), 0, t.len() - b)
}

/// `str::trim_start` on characters.
pub fn trim_start_chars(s: &[char]) -> (out: Vec<char>)
    ensures
        out@ == trim_start(s@),
{
    let a = lead_ws_exec(s);
    proof {
        lemma_lead_ws(s@);
    }
    slice_of(s, a, s.len())
}

/// `str::trim_end` on characters.
pub fn trim_end_chars(s: &[char]) -> (out: Vec<char>)
    ensures
        out@ == trim_end(s@),
{
    let b = trail_ws_exec(s);
    proof {
        lemma_trail_ws(s@);
    }
    slice_of(s, 0, s.len() - b)
}

/// Does `s` start with `pat`?
pub fn starts_with(s: &[char], pat: &[char]) -> (b: bool)
    ensures
        b == (pat@.len() <= s@.len() && s@.take(pat@.len() as int) == pat@),
{
    let r = matches_at_exec(s, 0, pat);
    proof {
        if pat@.len() <= s@.len() {
            assert(s@.take(pat@.len() as int) =~= s@.subrange(0, pat@.len() as int));
        }
    }
    r
}

/// Does `s` end with `pat`?
pub fn ends_with(s: &[char], pat: &[char]) -> (b: bool)
    ensures
        b == (pat@.len() <= s@.len() && s@.skip(s@.len() - pat@.len()) == pat@),
{
    if pat.len() > s.len() {
        return false;
    }
    let r = matches_at_exec(s, s.len() - pat.len(), pat);
    proof {
        assert(s@.skip(s@.len() - pat@.len()) =~= s@.subrange(
            s@.len() - pat@.len(),
            s@.len() as int,
        ));
    }
    r
}

/// Concatenation of two character vectors.
pub fn concat(a: &[char], b: &[char]) -> (out: Vec<char>)
    ensures
        out@ == a@ + b@,
{
    let mut out = slice_of(a, 0, a.len());
    let mut i: usize = 0;
    proof {
        assert(a@.subrange(0, a@.len() as int) =~= a@);
    }
    while i < b.len()
        invariant
            i <= b@.len(),
            out@ == a@ + b@.take(i as int),
        decreases b@.len() - i,
    {
        out.push(b[i]);
        proof {
            assert((a@ + b@.take(i as int)).push(b@[i as int]) =~= a@ + b@.take(i + 1));
        }
        i += 1;
    }
    proof {
        assert(b@.take(b@.len() as int) =~= b@);
    }
    out
}

/// Append `b` to `a` in place.
pub fn append(a: &mut Vec<char>, b: &[char])
    ensures
        final(a)@ == old(a)@ + b@,
{
    let mut i: usize = 0;
    while i < b.len()
        invariant
            i <= b@.len(),
            a@ == old(a)@ + b@.take(i as int),
        decreases b@.len() - i,
    {
        a.push(b[i]);
        proof {
            assert((old(a)@ + b@.take(i as int)).push(b@[i as int]) =~= old(a)@ + b@.take(i + 1));
        }
        i += 1;
    }
    proof {
        assert(b@.take(b@.len() as int) =~= b@);
    }
}

// ---------------------------------------------------------------------------
// Lines
// ---------------------------------------------------------------------------

/// A line with the `\r` of a `\r\n` ending removed.
pub open spec fn strip_cr(l: Seq<char>) -> Seq<char> {
    if l.len() > 0 && l.last() == '\r' {
        l.drop_last()
    } else {
        l
    }
}

/// `str::lines` from index `i`: pieces split at `\n` (a `\r` before it is
/// dropped too); a final line ending adds no empty line.
pub open spec fn lines_from(s: Seq<char>, i: int) -> Seq<Seq<char>>
    decreases s.len() - i,
{
    if i < 0 || i >= s.len() {
        seq![]
    } else {
        let j = find_from(s, seq!['\n'], i);
        if j < 0 {
            seq![s.subrange(i, s.len() as int)]
        } else {
            proof {
                lemma_find_from(s, seq!['\n'], i);
            }
            seq![strip_cr(s.subrange(i, j))] + lines_from(s, j + 1)
        }
    }
}

/// `str::lines`.
pub open spec fn lines(s: Seq<char>) -> Seq<Seq<char>> {
    lines_from(s, 0)
}

/// The character sequences of a vector of character vectors.
pub open spec fn char_views(v: Seq<Vec<char>>) -> Seq<Seq<char>> {
    v.map_values(|x: Vec<char>| x@)
}

/// Split text into lines as `str::lines` does.
pub fn split_lines(s: &[char]) -> (out: Vec<Vec<char>>)
    ensures
        char_views(out@) == lines(s@),
{
    let nl = ['\n'];
    proof {
        assert(nl@ =~= seq!['\n']);
    }
    let mut out: Vec<Vec<char>> = Vec::new();
    let mut i: usize = 0;
    while i < s.len()
        invariant
            i <= s@.len(),
            nl@ == seq!['\n'],
            char_views(out@) + lines_from(s@, i as int) == lines(s@),
        decreases s@.len() - i,
    {
        let ghost prev = char_views(out@);
        match find_chars_from(s, &nl, i) {
            Some(j) => {
                proof {
                    lemma_find_from(s@, seq!['\n'], i as int);
                }
                let mut piece = slice_of(s, i, j);
                if piece.len() > 0 && piece[piece.len() - 1] == '\r' {
                    piece.pop();
                    proof {
                        assert(piece@ =~= s@.subrange(i as int, j as int).drop_last());
                    }
                }
                out.push(piece);
                proof {
                    assert(char_views(out@) =~= prev.push(strip_cr(s@.subrange(i as int, j as int))));
                    assert(prev + lines_from(s@, i as int) =~= char_views(out@) + lines_from(
                        s@,
                        j + 1,
                    ));
                }
                i = j + 1;
            },
            None => {
                let piece = slice_of(s, i, s.len());
                out.push(piece);
                proof {
                    assert(char_views(out@) =~= prev.push(s@.subrange(i as int, s@.len() as int)));
                    assert(lines_from(s@, s@.len() as int) =~= seq![]);
                    assert(prev + lines_from(s@, i as int) =~= char_views(out@) + lines_from(
                        s@,
                        s@.len() as int,
                    ));
                }
                i = s.len();
            },
        }
    }
    proof {
        assert(lines_from(s@, i as int) =~= seq![]);
        assert(char_views(out@) + seq![] =~= char_views(out@));
    }
    out
}

// ---------------------------------------------------------------------------
// Decimal digits
// ---------------------------------------------------------------------------

/// Decimal value of a string of digits.
pub open spec fn digits_value(d: Seq<char>) -> int
    decreases d.len(),
{
    if d.len() == 0 {
        0
    } else {
        digits_value(d.drop_last()) * 10 + digit_value(d.last())
    }
}

/// A longer digit string is worth at least as much as its prefix.
pub proof fn lemma_digits_value_mono(d: Seq<char>, k: int)
    requires
        0 <= k <= d.len(),
        forall|i: int| 0 <= i < d.len() ==> is_digit(#[trigger] d[i]),
    ensures
        0 <= digits_value(d.take(k)) <= digits_value(d),
    decreases d.len() - k,
{
    if k < d.len() {
        lemma_digits_value_mono(d, k + 1);
        let t = d.take(k + 1);
        assert(t.drop_last() =~= d.take(k));
        assert(is_digit(t.last()));
    } else {
        assert(d.take(k) =~= d);
        lemma_digits_value_nonneg(d);
    }
}

pub proof fn lemma_digits_value_nonneg(d: Seq<char>)
    requires
        forall|i: int| 0 <= i < d.len() ==> is_digit(#[trigger] d[i]),
    ensures
        0 <= digits_value(d),
    decreases d.len(),
{
    if d.len() > 0 {
        let t = d.drop_last();
        assert forall|i: int| 0 <= i < t.len() implies is_digit(#[trigger] t[i]) by {
            assert(t[i] == d[i]);
        }
        lemma_digits_value_nonneg(t);
        assert(is_digit(d.last()));
    }
}

/// Parse the digits `s[lo..hi]` as a number no larger than `max`.
pub fn parse_digits(s: &[char], lo: usize, hi: usize, max: u64) -> (r: Option<u64>)
    requires
        lo <= hi <= s@.len(),
        forall|i: int| lo <= i < hi ==> is_digit(#[trigger] s@[i]),
    ensures
        match r {
            Some(v) => v == digits_value(s@.subrange(lo as int, hi as int)) && v <= max,
            None => digits_value(s@.subrange(lo as int, hi as int)) > max,
        },
{
    let mut v: u64 = 0;
    let mut i = lo;
    let ghost d = s@.subrange(lo as int, hi as int);
    assert forall|k: int| 0 <= k < d.len() implies is_digit(#[trigger] d[k]) by {
        assert(d[k] == s@[lo + k]);
    }
    while i < hi
        invariant
            lo <= i <= hi <= s@.len(),
            d == s@.subrange(lo as int, hi as int),
            forall|k: int| 0 <= k < d.len() ==> is_digit(#[trigger] d[k]),
            v == digits_value(d.take(i - lo)),
            v <= max,
        decreases hi - i,
    {
        let c = s[i];
        proof {
            assert(d[i - lo] == c);
            assert(is_digit(c));
            let t = d.take(i - lo + 1);
            assert(t.drop_last() =~= d.take(i - lo));
            assert(t.last() == c);
        }
        let dv = (c as u32 - 48) as u64;
        if dv > max || v > (max - dv) / 10 {
            proof {
                lemma_digits_value_mono(d, i - lo + 1);
                if dv <= max {
                    assert(v * 10 + dv > max) by (nonlinear_arith)
                        requires
                            v > (max - dv) / 10,
                            dv <= max,
                    ;
                }
            }
            return None;
        }
        proof {
            assert(v * 10 + dv <= max) by (nonlinear_arith)
                requires
                    v <= (max - dv) / 10,
                    dv <= max,
            ;
        }
        v = v * 10 + dv;
        i += 1;
    }
    proof {
        assert(d.take(hi - lo) =~= d);
    }
    Some(v)
}

// ---------------------------------------------------------------------------
// Splitting at a character
// ---------------------------------------------------------------------------

/// `str::split(c)` from index `i`: the pieces between occurrences of `c`,
/// always at least one.
pub open spec fn split_from(s: Seq<char>, c: char, i: int) -> Seq<Seq<char>>
    decreases s.len() + 1 - i,
{
    if i < 0 || i > s.len() {
        seq![]
    } else {
        let j = find_from(s, seq![c], i);
        if j < 0 {
            seq![s.subrange(i, s.len() as int)]
        } else {
            proof {
                lemma_find_from(s, seq![c], i);
            }
            seq![s.subrange(i, j)] + split_from(s, c, j + 1)
        }
    }
}

/// `str::split(c)`.
pub open spec fn split_on(s: Seq<char>, c: char) -> Seq<Seq<char>> {
    split_from(s, c, 0)
}

/// `str::split_once(c)`: the parts before and after the first `c`.
pub open spec fn split_once(s: Seq<char>, c: char) -> Option<(Seq<char>, Seq<char>)> {
    let j = find_char(s, c);
    if j < 0 {
        None
    } else {
        Some((s.take(j), s.skip(j + 1)))
    }
}

/// `str::split` yields at least one piece.
pub proof fn lemma_split_nonempty(s: Seq<char>, c: char)
    ensures
        split_on(s, c).len() >= 1,
{
    lemma_find_from(s, seq![c], 0);
}

/// `c` does not occur in `s`.
pub open spec fn lacks(s: Seq<char>, c: char) -> bool {
    forall|j: int| 0 <= j < s.len() ==> s[j] != c
}

/// A concatenation holds `c` only where a part does.
pub proof fn lemma_concat_lacks(a: Seq<char>, b: Seq<char>, c: char)
    requires
        lacks(a, c),
        lacks(b, c),
    ensures
        lacks(a + b, c),
{
    assert forall|j: int| 0 <= j < (a + b).len() implies (a + b)[j] != c by {
        if j >= a.len() {
            assert((a + b)[j] == b[j - a.len()]);
        }
    }
}

/// Nothing before the first `c` is a `c`.
pub proof fn lemma_before_first_lacks(s: Seq<char>, c: char)
    requires
        find_char(s, c) >= 0,
    ensures
        lacks(s.take(find_char(s, c)), c),
{
    lemma_find(s, seq![c]);
    let k = find_char(s, c);
    assert forall|j: int| 0 <= j < s.take(k).len() implies s.take(k)[j] != c by {
        if s[j] == c {
            assert(s.subrange(j, j + 1) =~= seq![c]);
            assert(matches_at(s, j, seq![c]));
        }
    }
}

/// Trimming adds no character.
pub proof fn lemma_trim_lacks(s: Seq<char>, c: char)
    requires
        lacks(s, c),
    ensures
        lacks(trim(s), c),
{
    let a = trim_start(s);
    lemma_lead_ws(s);
    lemma_trail_ws(a);
    assert forall|j: int| 0 <= j < trim(s).len() implies trim(s)[j] != c by {
        assert(trim(s)[j] == a[j]);
        assert(a[j] == s[j + lead_ws(s)]);
    }
}

/// The first `c` at or after `i` is at `k` when `s[k]` is `c` and nothing
/// between `i` and `k` is.
pub proof fn lemma_find_char_from_at(s: Seq<char>, c: char, i: int, k: int)
    requires
        0 <= i <= k < s.len(),
        s[k] == c,
        forall|j: int| i <= j < k ==> s[j] != c,
    ensures
        find_from(s, seq![c], i) == k,
{
    lemma_find_from(s, seq![c], i);
    assert(matches_at(s, k, seq![c])) by {
        assert(s.subrange(k, k + 1) =~= seq![c]);
    }
    let f = find_from(s, seq![c], i);
    if f != k && f != -1 && f < k {
        assert(s.subrange(f, f + 1)[0] == s[f]);
    }
}

/// No `c` at or after `i`: the search from `i` finds nothing.
pub proof fn lemma_find_char_from_none(s: Seq<char>, c: char, i: int)
    requires
        0 <= i,
        forall|j: int| i <= j < s.len() ==> s[j] != c,
    ensures
        find_from(s, seq![c], i) == -1,
{
    lemma_find_from(s, seq![c], i);
    let f = find_from(s, seq![c], i);
    if f != -1 {
        assert(s.subrange(f, f + 1)[0] == s[f]);
    }
}

/// The first `c` in `s` is at `k` when `s[k]` is `c` and no earlier one is.
pub proof fn lemma_find_char_at(s: Seq<char>, c: char, k: int)
    requires
        0 <= k < s.len(),
        s[k] == c,
        forall|j: int| 0 <= j < k ==> s[j] != c,
    ensures
        find_char(s, c) == k,
{
    lemma_find_char_from_at(s, c, 0, k);
}

/// Splitting `key c rest` once at `c`, where `key` holds no `c`, gives
/// `key` and `rest`.
pub proof fn lemma_split_once_at(key: Seq<char>, c: char, rest: Seq<char>)
    requires
        forall|j: int| 0 <= j < key.len() ==> key[j] != c,
    ensures
        split_once(key + seq![c] + rest, c) == Some((key, rest)),
{
    let s = key + seq![c] + rest;
    lemma_find_char_at(s, c, key.len() as int);
    assert(s.take(key.len() as int) =~= key);
    assert(s.skip(key.len() as int + 1) =~= rest);
}

/// Splitting `a c b` at every `c`, where neither `a` nor `b` holds a `c`,
/// gives the two pieces.
pub proof fn lemma_split_on_two(a: Seq<char>, c: char, b: Seq<char>)
    requires
        forall|j: int| 0 <= j < a.len() ==> a[j] != c,
        forall|j: int| 0 <= j < b.len() ==> b[j] != c,
    ensures
        split_on(a + seq![c] + b, c) == seq![a, b],
{
    let s = a + seq![c] + b;
    let k = a.len() as int;
    lemma_find_char_from_at(s, c, 0, k);
    assert forall|j: int| k + 1 <= j < s.len() implies s[j] != c by {
        assert(s[j] == b[j - k - 1]);
    }
    lemma_find_char_from_none(s, c, k + 1);
    assert(s.subrange(0, k) =~= a);
    assert(s.subrange(k + 1, s.len() as int) =~= b);
    assert(split_from(s, c, k + 1) == seq![s.subrange(k + 1, s.len() as int)]);
    assert(split_on(s, c) =~= seq![a, b]);
}

/// Split at every `c`, as `str::split` does.
pub fn split_chars(s: &[char], c: char) -> (out: Vec<Vec<char>>)
    ensures
        char_views(out@) == split_on(s@, c),
{
    let pat = [c];
    proof {
        assert(pat@ =~= seq![c]);
    }
    let mut out: Vec<Vec<char>> = Vec::new();
    let mut i: usize = 0;
    let n = s.len();
    loop
        invariant
            i <= n == s@.len(),
            pat@ == seq![c],
            char_views(out@) + split_from(s@, c, i as int) == split_on(s@, c),
        decreases n - i,
    {
        let ghost prev = char_views(out@);
        match find_chars_from(s, &pat, i) {
            Some(j) => {
                proof {
                    lemma_find_from(s@, seq![c], i as int);
                    assert(matches_at(s@, j as int, seq![c]));
                    assert(seq![c].len() == 1);
                }
                let piece = slice_of(s, i, j);
                out.push(piece);
                proof {
                    assert(char_views(out@) =~= prev.push(s@.subrange(i as int, j as int)));
                    assert(prev + split_from(s@, c, i as int) =~= char_views(out@) + split_from(
                        s@,
                        c,
                        j + 1,
                    ));
                }
                i = j + 1;
            },
            None => {
                let piece = slice_of(s, i, n);
                out.push(piece);
                proof {
                    assert(char_views(out@) =~= prev.push(s@.subrange(i as int, n as int)));
                    assert(prev + split_from(s@, c, i as int) =~= char_views(out@));
                }
                return out;
            },
        }
    }
}

/// Split at the first `c`, as `str::split_once` does.
pub fn split_once_chars(s: &[char], c: char) -> (r: Option<(Vec<char>, Vec<char>)>)
    ensures
        match r {
            Some((a, b)) => split_once(s@, c) == Some((a@, b@)),
            None => split_once(s@, c) is None,
        },
{
    let pat = [c];
    proof {
        assert(pat@ =~= seq![c]);
    }
    match find_chars(s, &pat) {
        Some(j) => {
            proof {
                lemma_find(s@, seq![c]);
                assert(matches_at(s@, j as int, seq![c]));
                assert(seq![c].len() == 1);
            }
            let n = s.len();
            let a = slice_of(s, 0, j);
            let b = slice_of(s, j + 1, n);
            proof {
                assert(a@ =~= s@.take(j as int));
                assert(b@ =~= s@.skip(j + 1));
            }
            Some((a, b))
        },
        None => None,
    }
}

// ---------------------------------------------------------------------------
// Integer literals
// ---------------------------------------------------------------------------

/// Length of an optional leading `+`/`-`.
pub open spec fn sign_len(s: Seq<char>) -> int {
    if s.len() > 0 && (s[0] == '+' || s[0] == '-') {
        1
    } else {
        0
    }
}

/// The digits of an integer literal, after its sign.
pub open spec fn literal_digits(s: Seq<char>) -> Seq<char> {
    s.skip(sign_len(s))
}

/// Is the literal negative?
pub open spec fn literal_negative(s: Seq<char>) -> bool {
    sign_len(s) == 1 && s[0] == '-'
}

/// The value an integer literal denotes.
pub open spec fn literal_value(s: Seq<char>) -> int {
    if literal_negative(s) {
        -digits_value(literal_digits(s))
    } else {
        digits_value(literal_digits(s))
    }
}

/// What `str::parse` accepts for a signed integer type whose largest value
/// is `max`: an optional sign, at least one decimal digit and nothing else,
/// with the value in `-(max + 1) ..= max`.
pub open spec fn int_literal_ok(s: Seq<char>, max: int) -> bool {
    let d = literal_digits(s);
    &&& d.len() > 0
    &&& all_digits(d)
    &&& digits_value(d) <= (if literal_negative(s) { max + 1 } else { max })
}

pub fn sign_len_exec(s: &[char]) -> (k: usize)
    ensures
        k == sign_len(s@),
{
    if s.len() > 0 && (s[0] == '+' || s[0] == '-') {
        1
    } else {
        0
    }
}

/// Are all characters ASCII digits?
pub fn all_digits_exec(s: &[char]) -> (b: bool)
    ensures
        b == all_digits(s@),
{
    let mut i: usize = 0;
    while i < s.len()
        invariant
            i <= s@.len(),
            forall|k: int| 0 <= k < i ==> is_digit(#[trigger] s@[k]),
        decreases s@.len() - i,
    {
        if !is_ascii_digit(s[i]) {
            return false;
        }
        i += 1;
    }
    true
}

/// `str::parse::<i32>`.
pub fn parse_i32(s: &[char]) -> (r: Option<i32>)
    ensures
        match r {
            Some(v) => int_literal_ok(s@, i32::MAX as int) && v == literal_value(s@),
            None => !int_literal_ok(s@, i32::MAX as int),
        },
{
    let k = sign_len_exec(s);
    let n = s.len();
    let d = slice_of(s, k, n);
    proof {
        assert(d@ =~= literal_digits(s@));
    }
    if d.len() == 0 || !all_digits_exec(d.as_slice()) {
        return None;
    }
    let neg = k == 1 && s[0] == '-';
    let limit: u64 = if neg { 2147483648 } else { 2147483647 };
    proof {
        assert(d@.subrange(0, d@.len() as int) =~= d@);
    }
    match parse_digits(d.as_slice(), 0, d.len(), limit) {
        Some(v) => {
            if neg {
                if v == 2147483648 {
                    Some(i32::MIN)
                } else {
                    Some(-(v as i32))
                }
            } else {
                Some(v as i32)
            }
        },
        None => None,
    }
}

/// Every character is ASCII.
pub open spec fn all_ascii(s: Seq<char>) -> bool {
    forall|i: int| 0 <= i < s.len() ==> (#[trigger] s[i] as u32) < 128
}

/// The Unicode uppercase of a string.
pub uninterp spec fn unicode_upper(s: Seq<char>) -> Seq<char>;

/// `str::to_uppercase`: the Unicode uppercase mapping of the string, which
/// the contract names and does not compute, except that an ASCII string
/// maps as ASCII does (`a`-`z` to `A`-`Z`, everything else unchanged), as
/// the Unicode case mapping that std documents gives.
#[verifier::external_body]
pub(crate) fn to_uppercase(s: &str) -> (r: String)
    ensures
        r@ == unicode_upper(s@),
        all_ascii(s@) ==> r@ == upper_seq(s@),
{
    s.to_uppercase()
}

/// ASCII lowercase of one character.
pub open spec fn ascii_lower(c: char) -> char {
    if 'A' as u32 <= c as u32 && c as u32 <= 'Z' as u32 {
        ((c as u32) + 32) as char
    } else {
        c
    }
}

/// ASCII lowercase of every character.
pub open spec fn lower_seq(s: Seq<char>) -> Seq<char> {
    s.map_values(|c: char| ascii_lower(c))
}

/// The Unicode lowercase of a string.
pub uninterp spec fn unicode_lower(s: Seq<char>) -> Seq<char>;

/// `str::to_lowercase`: the Unicode lowercase mapping of the string, which
/// the contract names and does not compute, except that an ASCII string
/// maps as ASCII does (`A`-`Z` to `a`-`z`, everything else unchanged), as
/// the Unicode case mapping that std documents gives.
#[verifier::external_body]
pub(crate) fn to_lowercase(s: &str) -> (r: String)
    ensures
        r@ == unicode_lower(s@),
        all_ascii(s@) ==> r@ == lower_seq(s@),
{
    s.to_lowercase()
}

/// The decimal digit of `d` (0 to 9).
pub open spec fn digit_char(d: int) -> char {
    seq!['0', '1', '2', '3', '4', '5', '6', '7', '8', '9'][d]
}

/// The decimal digits of a natural number, without leading zeros.
pub open spec fn nat_digits(n: nat) -> Seq<char>
    decreases n,
{
    if n < 10 {
        seq![digit_char(n as int)]
    } else {
        nat_digits(n / 10).push(digit_char((n % 10) as int))
    }
}

/// An integer in decimal, as `Display` writes it.
pub open spec fn decimal_of(n: int) -> Seq<char> {
    if n < 0 {
        seq!['-'] + nat_digits((-n) as nat)
    } else {
        nat_digits(n as nat)
    }
}

fn nat_digits_exec(n: u64) -> (out: Vec<char>)
    ensures
        out@ == nat_digits(n as nat),
    decreases n,
{
    let ds = ['0', '1', '2', '3', '4', '5', '6', '7', '8', '9'];
    proof {
        assert(ds@ =~= seq!['0', '1', '2', '3', '4', '5', '6', '7', '8', '9']);
    }
    if n < 10 {
        let mut v: Vec<char> = Vec::new();
        v.push(ds[n as usize]);
        proof {
            assert(v@ =~= seq![digit_char(n as int)]);
        }
        v
    } else {
        let mut v = nat_digits_exec(n / 10);
        v.push(ds[(n % 10) as usize]);
        v
    }
}

/// An `i32` in decimal.
pub fn decimal(n: i32) -> (s: String)
    ensures
        s@ == decimal_of(n as int),
{
    if n < 0 {
        let m = (0i64 - (n as i64)) as u64;
        let mut out = chars_of("-");
        let d = nat_digits_exec(m);
        append(&mut out, d.as_slice());
        proof {
            reveal_strlit("-");
            assert(out@ =~= seq!['-'] + nat_digits((-(n as int)) as nat));
        }
        string_of(out.as_slice())
    } else {
        let d = nat_digits_exec(n as u64);
        string_of(d.as_slice())
    }
}

} // verus!
