//! Commands for the machine: the WebSocket address of a host, the lines
//! each action sends, setting writes, and how a tracked write's wait ends.

use crate::connection::has_prefix;
use crate::http_api::{strip_trailing, strip_trailing_exec};
use crate::text::{
    append, chars_of, find_char, own, string_of, to_uppercase, trim, trim_chars, unicode_upper,
};
use tokio_tungstenite::tungstenite::client::IntoClientRequest;
use vstd::prelude::*;

verus! {

/// Seconds a tracked write waits for the firmware's reply.
pub const TRACKED_WRITE_TIMEOUT_SECS: u64 = 3;

/// Feed hold, as a realtime byte (`!`).
pub const FEED_HOLD: u8 = 0x21;

/// Cycle resume, as a realtime byte (`~`).
pub const CYCLE_RESUME: u8 = 0x7e;

/// Soft reset, as a realtime byte (Ctrl-X).
pub const SOFT_RESET: u8 = 0x18;

/// `s` with every leading `pat` removed.
pub open spec fn strip_leading(s: Seq<char>, pat: Seq<char>) -> Seq<char>
    decreases s.len(),
{
    if pat.len() > 0 && has_prefix(s, pat) {
        strip_leading(s.skip(pat.len() as int), pat)
    } else {
        s
    }
}

fn strip_leading_exec(s: &[char], pat: &str) -> (out: Vec<char>)
    ensures
        out@ == strip_leading(s@, pat@),
{
    let p = chars_of(pat);
    let mut cur = crate::text::slice_of(s, 0, s.len());
    proof {
        assert(cur@ =~= s@);
    }
    while p.len() > 0 && crate::text::starts_with(cur.as_slice(), p.as_slice())
        invariant
            p@ == pat@,
            strip_leading(cur@, pat@) == strip_leading(s@, pat@),
        decreases cur@.len(),
    {
        let n = cur.len();
        let next = crate::text::slice_of(cur.as_slice(), p.len(), n);
        proof {
            assert(next@ =~= cur@.skip(p@.len() as int));
        }
        cur = next;
    }
    cur
}

/// The bare host of an address as typed: trimmed, without trailing
/// slashes or a leading `http://`/`https://`.
pub open spec fn bare_host(host: Seq<char>) -> Seq<char> {
    strip_leading(strip_leading(strip_trailing(trim(host), '/'), "http://"@), "https://"@)
}

/// The WebSocket URL of a host: FluidNC serves the socket on the web port
/// plus one (81 by default) at the root path, unless a port is given.
pub open spec fn ws_url_of(host: Seq<char>) -> Seq<char> {
    let h = bare_host(host);
    if find_char(h, ':') >= 0 {
        "ws://"@ + h + "/"@
    } else {
        "ws://"@ + h + ":81/"@
    }
}

pub fn ws_url(host: &str) -> (url: String)
    ensures
        url@ == ws_url_of(host@),
{
    let t = trim_chars(chars_of(host).as_slice());
    let a = strip_trailing_exec(t.as_slice(), '/');
    let b = strip_leading_exec(a.as_slice(), "http://");
    let h = strip_leading_exec(b.as_slice(), "https://");
    let colon = [':'];
    proof {
        assert(colon@ =~= seq![':']);
    }
    let mut out = chars_of("ws://");
    append(&mut out, h.as_slice());
    if crate::text::find_chars(h.as_slice(), &colon).is_some() {
        let tail = chars_of("/");
        append(&mut out, tail.as_slice());
    } else {
        let tail = chars_of(":81/");
        append(&mut out, tail.as_slice());
    }
    string_of(out.as_slice())
}

/// Why the WebSocket client would refuse a URL, if it would.
pub uninterp spec fn ws_request_rejection(url: Seq<char>) -> Option<Seq<char>>;

/// `tungstenite::client::IntoClientRequest::into_client_request` on a
/// `&str`: whether the URL parses into a WebSocket client request, and if
/// not the text of the error. Both are named, not computed, by the
/// contract.
#[verifier::external_body]
fn ws_request_refused(url: &str) -> (r: Option<String>)
    ensures
        match r {
            Some(e) => ws_request_rejection(url@) == Some(e@),
            None => ws_request_rejection(url@) is None,
        },
{
    match url.into_client_request() {
        Ok(_) => None,
        Err(e) => Some(e.to_string()),
    }
}

/// A host is accepted up front only when its WebSocket URL makes a client
/// request: a malformed host could never connect, and the reconnect loop
/// would otherwise retry it forever.
pub open spec fn host_checked(host: Seq<char>) -> Result<Seq<char>, Seq<char>> {
    match ws_request_rejection(ws_url_of(host)) {
        None => Ok(ws_url_of(host)),
        Some(e) => Err("invalid host \""@ + trim(host) + "\": "@ + e),
    }
}

/// The WebSocket URL of `host`, or why it is invalid.
pub fn validate_host(host: &str) -> (r: Result<String, String>)
    ensures
        match r {
            Ok(u) => host_checked(host@) == Ok::<Seq<char>, Seq<char>>(u@),
            Err(e) => host_checked(host@) == Err::<Seq<char>, Seq<char>>(e@),
        },
{
    let url = ws_url(host);
    match ws_request_refused(url.as_str()) {
        None => Ok(url),
        Some(e) => {
            let mut out = chars_of("invalid host \"");
            let t = trim_chars(chars_of(host).as_slice());
            append(&mut out, t.as_slice());
            let mid = chars_of("\": ");
            append(&mut out, mid.as_slice());
            let ev = chars_of(e.as_str());
            append(&mut out, ev.as_slice());
            Err(string_of(out.as_slice()))
        },
    }
}

/// How the wait for a tracked write's reply ended.
#[derive(Debug)]
pub enum ReplyWait {
    /// The firmware answered.
    Answered(Result<(), String>),
    /// The connection dropped the reply handle.
    Dropped,
    /// No answer within the timeout.
    TimedOut,
}

/// The outcome of a tracked write.
pub fn reply_result(w: ReplyWait) -> (r: Result<(), String>)
    ensures
        match w {
            ReplyWait::Answered(a) => r == a,
            ReplyWait::Dropped => r is Err && r->Err_0@
                == "connection closed before the machine replied"@,
            ReplyWait::TimedOut => r is Err && r->Err_0@ == "timeout waiting for machine reply"@,
        },
{
    match w {
        ReplyWait::Answered(a) => a,
        ReplyWait::Dropped => Err(own("connection closed before the machine replied")),
        ReplyWait::TimedOut => Err(own("timeout waiting for machine reply")),
    }
}

/// The line that writes a FluidNC setting: `$/<path>=<value>`.
pub fn setting_line(path: &str, value: &str) -> (l: String)
    ensures
        l@ == "$/"@ + path@ + "="@ + value@,
{
    let mut out = chars_of("$/");
    append(&mut out, chars_of(path).as_slice());
    append(&mut out, chars_of("=").as_slice());
    append(&mut out, chars_of(value).as_slice());
    string_of(out.as_slice())
}

/// `$CO`: persist the runtime config to flash.
pub fn save_config_line() -> (l: &'static str)
    ensures
        l@ == "$CO"@,
{
    "$CO"
}

/// The actions that are a single firmware line.
#[derive(Clone, Copy, Debug, PartialEq, Eq, Structural)]
pub enum LineAction {
    Home,
    Unlock,
    Retract,
    Extend,
    TakeSlack,
    Comply,
    Calibrate,
    Stop,
    EStop,
}

pub open spec fn action_line(a: LineAction) -> Seq<char> {
    match a {
        LineAction::Home => "$H"@,
        LineAction::Unlock => "$X"@,
        LineAction::Retract => "$ALL"@,
        LineAction::Extend => "$EXT"@,
        LineAction::TakeSlack => "$TKSLK"@,
        LineAction::Comply => "$CMP"@,
        LineAction::Calibrate => "$CAL"@,
        LineAction::Stop => "$STOP"@,
        LineAction::EStop => "$ESTOP"@,
    }
}

impl LineAction {
    /// The exact command the firmware expects for this action.
    pub fn line(self) -> (l: &'static str)
        ensures
            l@ == action_line(self),
    {
        match self {
            LineAction::Home => "$H",
            LineAction::Unlock => "$X",
            LineAction::Retract => "$ALL",
            LineAction::Extend => "$EXT",
            LineAction::TakeSlack => "$TKSLK",
            LineAction::Comply => "$CMP",
            LineAction::Calibrate => "$CAL",
            LineAction::Stop => "$STOP",
            LineAction::EStop => "$ESTOP",
        }
    }
}

/// The `<AXIS>0` terms of a zero command, separated by spaces.
pub open spec fn zero_terms(axes: Seq<Seq<char>>) -> Seq<char>
    decreases axes.len(),
{
    if axes.len() == 0 {
        seq![]
    } else if axes.len() == 1 {
        unicode_upper(axes[0]) + "0"@
    } else {
        zero_terms(axes.drop_last()) + " "@ + unicode_upper(axes.last()) + "0"@
    }
}

/// Zero the given axes at the current position (`G10 L20 P0 ...`). No axes
/// means the bulk X+Y zero; Z is only ever zeroed on its own.
pub open spec fn zero_line_of(axes: Seq<Seq<char>>) -> Seq<char> {
    let a = if axes.len() == 0 { seq!["X"@, "Y"@] } else { axes };
    "G10 L20 P0 "@ + zero_terms(a)
}

pub fn zero_line(axes: &Vec<String>) -> (l: String)
    ensures
        l@ == zero_line_of(crate::maslow::string_views(axes@)),
{
    let ghost given = crate::maslow::string_views(axes@);
    let mut list: Vec<String> = Vec::new();
    if axes.len() == 0 {
        list.push(own("X"));
        list.push(own("Y"));
        proof {
            assert(crate::maslow::string_views(list@) =~= seq!["X"@, "Y"@]);
        }
    } else {
        let mut i: usize = 0;
        while i < axes.len()
            invariant
                i <= axes@.len(),
                crate::maslow::string_views(list@) == given.take(i as int),
                given == crate::maslow::string_views(axes@),
            decreases axes@.len() - i,
        {
            let ghost prev = crate::maslow::string_views(list@);
            list.push(axes[i].clone());
            proof {
                assert(crate::maslow::string_views(list@) =~= prev.push(given[i as int]));
                assert(given.take(i + 1) =~= given.take(i as int).push(given[i as int]));
            }
            i += 1;
        }
        proof {
            assert(given.take(axes@.len() as int) =~= given);
        }
    }
    let ghost a = crate::maslow::string_views(list@);
    let mut out = chars_of("G10 L20 P0 ");
    let ghost head = out@;
    let mut k: usize = 0;
    while k < list.len()
        invariant
            k <= list@.len(),
            a == crate::maslow::string_views(list@),
            out@ == head + zero_terms(a.take(k as int)),
        decreases list@.len() - k,
    {
        if k > 0 {
            append(&mut out, chars_of(" ").as_slice());
        }
        let up = to_uppercase(list[k].as_str());
        append(&mut out, chars_of(up.as_str()).as_slice());
        append(&mut out, chars_of("0").as_slice());
        proof {
            let t = a.take(k + 1);
            assert(t.drop_last() =~= a.take(k as int));
            assert(t.last() == list@[k as int]@);
            if k == 0 {
                assert(out@ =~= head + zero_terms(t));
            } else {
                assert(out@ =~= head + zero_terms(t));
            }
        }
        k += 1;
    }
    proof {
        assert(a.take(list@.len() as int) =~= a);
    }
    string_of(out.as_slice())
}

/// A realtime byte requested as a number: it must fit in one byte.
pub fn realtime_byte(n: u32) -> (r: Result<u8, &'static str>)
    ensures
        n < 256 ==> r == Ok::<u8, &'static str>(n as u8),
        n >= 256 ==> r is Err && r->Err_0@ == "byte must fit in a single byte (0-255)"@,
{
    if n < 256 {
        Ok(n as u8)
    } else {
        Err("byte must fit in a single byte (0-255)")
    }
}

} // verus!
