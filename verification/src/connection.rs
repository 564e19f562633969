//! The decisions of the WebSocket connection to the machine.
//!
//! The socket carries the GRBL stream (binary frames, lines ending in `\n`)
//! and control messages (text frames, `KEY:value`). Everything the
//! connection decides lives here as functions from state and event to the
//! next state and a list of actions; the caller performs the actions (sends
//! frames, emits events, writes the resume record) and feeds back events.

use crate::clock;
use crate::fluidnc::{entry_views, flatten_config, flattened, ConfigEntry, ConfigKind};
use crate::grbl::{parse_status_frame, status_of, FrameView, StatusFrame};
use crate::maslow::{
    action_policy, allowed_names, completes_calibration, is_calibration_completion, observation_ok,
    parse_state, policy_for, policy_spec, state_busy, state_code, state_label, state_number,
    state_of_code, string_views, ActionPolicy, CalState, Observation, StatePolicy, StateTracker,
};
use crate::streaming::{
    ack_ok, blocked, filled, fresh, invalidated, label_of, sent_between, views, Job, PERSIST_EVERY,
    Progress, SavedJob,
};
use crate::text::{
    append, char_views, chars_of, find, find_char, find_chars, own, split_chars, split_on,
    starts_with, string_of, trim, trim_chars, trim_start, trim_start_chars, upper_chars, upper_seq,
};
use std::collections::VecDeque;
use std::time::Instant;
use vstd::prelude::*;

verus! {

/// Invalid Maslow state reports landing within this window after a state
/// change are treated as late stragglers.
pub const STATE_DEBOUNCE_MS: u64 = 400;

/// Fast `$GSTATE` polls fired after a Maslow action, and their spacing.
pub const BURST_POLLS: u32 = 12;

pub const BURST_INTERVAL_MS: u64 = 250;

/// Status-report (`?`) polling cadence while moving and at idle.
pub const STATUS_FAST_MS: u64 = 250;

pub const STATUS_IDLE_MS: u64 = 1000;

/// Maslow telemetry poll period.
pub const MASLOW_POLL_MS: u64 = 1500;

/// A `$CD` capture older than this is abandoned.
pub const CAPTURE_TIMEOUT_SECS: u64 = 10;

/// A socket silent for longer than this is considered dead.
pub const WATCHDOG_SECS: u64 = 20;

/// Pause between reconnection attempts.
pub const RECONNECT_DELAY_SECS: u64 = 3;

// ---------------------------------------------------------------------------
// Line predicates
// ---------------------------------------------------------------------------

/// The short-form Maslow action verbs.
pub open spec fn action_verbs() -> Seq<Seq<char>> {
    seq!["$ALL"@, "$EXT"@, "$TKSLK"@, "$CAL"@, "$CMP"@, "$STOP"@, "$ESTOP"@]
}

/// Does `s` equal one of `words`?
fn one_of(s: &[char], words: &[&str]) -> (b: bool)
    ensures
        b == exists|i: int| 0 <= i < words@.len() && s@ == (#[trigger] words@[i])@,
{
    let mut i: usize = 0;
    while i < words.len()
        invariant
            i <= words@.len(),
            forall|k: int| 0 <= k < i ==> s@ != (#[trigger] words@[k])@,
        decreases words@.len() - i,
    {
        let w = chars_of(words[i]);
        if crate::text::slice_eq(s, w.as_slice()) {
            return true;
        }
        i += 1;
    }
    false
}

/// A Maslow *action* command (belt, calibration and stop verbs), in any
/// case and with surrounding whitespace. Polls (`$GSTATE`, `$MINFO`) are
/// not actions.
pub fn is_maslow_action(line: &str) -> (b: bool)
    ensures
        b == action_verbs().contains(upper_seq(trim(line@))),
{
    let t = trim_chars(chars_of(line).as_slice());
    let u = upper_chars(t.as_slice());
    let words = ["$ALL", "$EXT", "$TKSLK", "$CAL", "$CMP", "$STOP", "$ESTOP"];
    let r = one_of(u.as_slice(), &words);
    proof {
        assert(words@.map_values(|w: &str| w@) =~= action_verbs());
        if r {
            let i = choose|i: int| 0 <= i < words@.len() && u@ == (#[trigger] words@[i])@;
            assert(action_verbs()[i] == u@);
        } else {
            assert forall|i: int| 0 <= i < action_verbs().len() implies action_verbs()[i] != u@ by {
                assert(action_verbs()[i] == words@[i]@);
            }
        }
    }
    r
}

/// A GRBL acknowledgement: `Some(false)` for `ok`, `Some(true)` for an
/// `error...` line, `None` otherwise (after trimming).
pub open spec fn ack_of(line: Seq<char>) -> Option<bool> {
    let t = trim(line);
    if t == "ok"@ {
        Some(false)
    } else if t.len() >= 5 && t.take(5) == "error"@ {
        Some(true)
    } else {
        None
    }
}

/// Recognise a GRBL acknowledgement line.
pub fn ack_kind(line: &str) -> (r: Option<bool>)
    ensures
        r == ack_of(line@),
{
    let t = trim_chars(chars_of(line).as_slice());
    let ok = chars_of("ok");
    let error = chars_of("error");
    proof {
        reveal_strlit("error");
    }
    if crate::text::slice_eq(t.as_slice(), ok.as_slice()) {
        Some(false)
    } else if starts_with(t.as_slice(), error.as_slice()) {
        Some(true)
    } else {
        None
    }
}

/// A tracked write is refused while a job owns the character-counted
/// stream, as manual lines are.
pub fn tracked_line_rejected(job_active: bool) -> (r: Option<&'static str>)
    ensures
        job_active ==> r is Some && r.unwrap()@ == "a job is streaming"@,
        !job_active ==> r is None,
{
    if job_active {
        Some("a job is streaming")
    } else {
        None
    }
}

/// The control message keys.
pub open spec fn control_keys() -> Seq<Seq<char>> {
    seq!["CURRENT_ID"@, "ACTIVE_ID"@, "PING"@, "DHT"@, "ERROR"@, "MSG"@]
}

/// A control message is `KEY:...` for a known uppercase key, not a
/// bracketed `[MSG:...]` GRBL message.
pub open spec fn control_line(line: Seq<char>) -> bool {
    !(line.len() > 0 && line[0] == '[') && control_keys().contains(split_on(line, ':')[0])
}

pub fn is_control(line: &str) -> (b: bool)
    ensures
        b == control_line(line@),
{
    let s = chars_of(line);
    if s.len() > 0 && s[0] == '[' {
        return false;
    }
    let parts = split_chars(s.as_slice(), ':');
    proof {
        crate::text::lemma_split_nonempty(s@, ':');
        assert(char_views(parts@)[0] == parts@[0]@);
    }
    let keys = ["CURRENT_ID", "ACTIVE_ID", "PING", "DHT", "ERROR", "MSG"];
    let r = one_of(parts[0].as_slice(), &keys);
    proof {
        let head = parts@[0]@;
        if r {
            let i = choose|i: int| 0 <= i < keys@.len() && head == (#[trigger] keys@[i])@;
            assert(control_keys()[i] == head);
        } else {
            assert forall|i: int| 0 <= i < control_keys().len() implies control_keys()[i] != head by {
                assert(control_keys()[i] == keys@[i]@);
            }
        }
    }
    r
}

/// Does `t` contain `pat`?
pub open spec fn contains(t: Seq<char>, pat: Seq<char>) -> bool {
    find(t, pat) >= 0
}

fn contains_exec(t: &[char], pat: &str) -> (b: bool)
    ensures
        b == contains(t@, pat@),
{
    let p = chars_of(pat);
    find_chars(t, p.as_slice()).is_some()
}

/// Does `t` start with `pat`?
pub open spec fn has_prefix(t: Seq<char>, pat: Seq<char>) -> bool {
    pat.len() <= t.len() && t.take(pat.len() as int) == pat
}

pub(crate) fn has_prefix_exec(t: &[char], pat: &str) -> (b: bool)
    ensures
        b == has_prefix(t@, pat@),
{
    let p = chars_of(pat);
    starts_with(t, p.as_slice())
}

/// Periodic firmware chatter hidden from the console: the idle heartbeat
/// and the belt-tension telemetry stream.
pub open spec fn chatter_line(line: Seq<char>) -> bool {
    let t = trim_start(line);
    has_prefix(t, "[MSG:INFO: Heartbeat]"@) || (has_prefix(t, "[MSG:INFO:"@) && contains(t, "TLC:"@)
        && contains(t, "TRC:"@) && contains(t, "BLC:"@) && contains(t, "BRC:"@))
}

pub fn is_console_chatter(line: &str) -> (b: bool)
    ensures
        b == chatter_line(line@),
{
    let t = trim_start_chars(chars_of(line).as_slice());
    let ts = t.as_slice();
    has_prefix_exec(ts, "[MSG:INFO: Heartbeat]") || (has_prefix_exec(ts, "[MSG:INFO:")
        && contains_exec(ts, "TLC:") && contains_exec(ts, "TRC:") && contains_exec(ts, "BLC:")
        && contains_exec(ts, "BRC:"))
}

// ---------------------------------------------------------------------------
// Out-of-band acknowledgements
// ---------------------------------------------------------------------------

/// One outstanding non-job command awaiting its `ok`/`error`.
#[derive(Clone, Copy, Debug, PartialEq, Eq, Structural)]
pub enum PendingAck {
    /// A poll or fire-and-forget manual line: its reply is swallowed.
    Untracked,
    /// A tracked write, identified by the caller's reply handle.
    Awaiting(u64),
}

/// What became of an incoming `ok`/`error` line.
#[derive(Debug)]
pub enum Resolution {
    /// Nothing was pending: the line may acknowledge a job line.
    NotPending,
    /// It answered a poll or manual line.
    Swallowed,
    /// It answered the tracked write `id` with this result.
    Answered(u64, Result<(), String>),
}

/// Resolve the oldest pending expectation against an incoming `ok`/`error`
/// line, in strict FIFO order (the firmware answers in the order it
/// received the lines). An error answers a tracked write with the trimmed
/// firmware text.
pub fn resolve_pending_ack(pending: &mut VecDeque<PendingAck>, is_error: bool, line: &str) -> (r:
    Resolution)
    ensures
        old(pending)@.len() == 0 ==> final(pending)@ == old(pending)@ && r is NotPending,
        old(pending)@.len() > 0 ==> final(pending)@ == old(pending)@.drop_first(),
        old(pending)@.len() > 0 && old(pending)@[0] is Untracked ==> r is Swallowed,
        old(pending)@.len() > 0 && old(pending)@[0] is Awaiting ==> match r {
            Resolution::Answered(id, res) => {
                &&& id == old(pending)@[0]->Awaiting_0
                &&& is_error ==> res is Err && res->Err_0@ == trim(line@)
                &&& !is_error ==> res is Ok
            },
            _ => false,
        },
{
    match pending.pop_front() {
        Some(PendingAck::Untracked) => Resolution::Swallowed,
        Some(PendingAck::Awaiting(id)) => {
            let result = if is_error {
                Err(string_of(trim_chars(chars_of(line).as_slice()).as_slice()))
            } else {
                Ok(())
            };
            Resolution::Answered(id, result)
        },
        None => Resolution::NotPending,
    }
}

/// The tracked ids among pending expectations, in order.
pub open spec fn tracked_ids(p: Seq<PendingAck>) -> Seq<u64>
    decreases p.len(),
{
    if p.len() == 0 {
        seq![]
    } else {
        let r = tracked_ids(p.drop_last());
        match p.last() {
            PendingAck::Awaiting(id) => r.push(id),
            PendingAck::Untracked => r,
        }
    }
}

/// Drop every outstanding expectation; the tracked writes among them are
/// returned, in order, to be answered with an error.
pub fn clear_pending(pending: &mut VecDeque<PendingAck>) -> (ids: Vec<u64>)
    ensures
        final(pending)@.len() == 0,
        ids@ == tracked_ids(old(pending)@),
{
    let ghost all = pending@;
    let mut ids: Vec<u64> = Vec::new();
    let mut i: usize = 0;
    let n = pending.len();
    while i < n
        invariant
            n == all.len(),
            i <= n,
            pending@ == all,
            ids@ == tracked_ids(all.take(i as int)),
        decreases n - i,
    {
        proof {
            let t = all.take(i + 1);
            assert(t.drop_last() =~= all.take(i as int));
        }
        match pending[i] {
            PendingAck::Awaiting(id) => ids.push(id),
            PendingAck::Untracked => {},
        }
        i += 1;
    }
    proof {
        assert(all.take(n as int) =~= all);
    }
    pending.clear();
    ids
}

// ---------------------------------------------------------------------------
// Events and actions
// ---------------------------------------------------------------------------

/// A frame for the machine.
#[derive(Debug)]
pub enum Wire {
    Text(String),
    Binary(u8),
    Close,
}

/// Connection state of the live WebSocket.
#[derive(Clone, Copy, Debug, PartialEq, Eq, Structural)]
pub enum WsState {
    Disconnected,
    Connected,
}

impl Default for WsState {
    fn default() -> (s: WsState)
        ensures
            s == WsState::Disconnected,
    {
        WsState::Disconnected
    }
}

/// A reported state that contradicts the firmware's transition graph.
#[derive(Clone, Debug)]
pub struct Discord {
    /// "straggler" = suppressed, "accepted" = the machine prevailed.
    pub kind: String,
    pub from: i32,
    pub to: i32,
    pub from_label: String,
    pub to_label: String,
}

/// Which measurement lines a line is (their numbers are the caller's to
/// parse): `readings_of` decides it from the text, all but whether a
/// `MINFO:` payload is readable JSON.
#[derive(Clone, Copy, Debug, PartialEq, Eq, Structural)]
pub struct Readings {
    /// A `MINFO:` telemetry report.
    pub maslow_info: bool,
    /// A calibration waypoint.
    pub waypoint: bool,
    /// Raw `CLBM:` belt measurements.
    pub measurements: bool,
    /// The firmware's fit summary.
    pub fit: bool,
    /// The firmware's recomputed anchors.
    pub anchors: bool,
}

/// The readings of a line: which of the measurement lines it is, decided
/// from its text; whether a `MINFO:` payload is readable JSON is the
/// caller's to say.
pub fn readings_of(line: &str, maslow_info: bool) -> (r: Readings)
    ensures
        r.maslow_info == maslow_info,
        r.waypoint == (crate::maslow::waypoint_of(line@) is Some),
        r.measurements == (crate::calibration::clbm_of(line@) is Some),
        r.fit == (crate::calibration::fit_of(line@) is Some),
        r.anchors == (crate::calibration::recompute_of(line@) is Some),
{
    Readings {
        maslow_info,
        waypoint: crate::maslow::waypoint_texts(line).is_some(),
        measurements: crate::calibration::clbm_entries(line).is_some(),
        fit: crate::calibration::fit_texts(line).is_some(),
        anchors: crate::calibration::recompute_texts(line).is_some(),
    }
}

/// What the user interface is told.
#[derive(Debug)]
pub enum Notice {
    WsState(WsState),
    WsError(String),
    GrblLine(String),
    Status(StatusFrame),
    WsControl(String),
    Policy(ActionPolicy),
    /// The `MINFO:` reading of the line just routed.
    MaslowInfo,
    MaslowState(StatePolicy),
    /// The waypoint of the line just routed.
    Waypoint,
    Discord(Discord),
    /// The measurements of the line just routed.
    CalMeasurements,
    /// The fit summary of the line just routed.
    CalFirmwareFit,
    /// The recomputed anchors of the line just routed.
    CalFirmwareAnchors,
    CalComplete,
    /// The flattened config, and the same as `path=value` lines.
    ConfigDump(Vec<ConfigEntry>, String),
    ConfigDumpError(String),
    Progress(Progress),
}

/// What the caller must do, in order.
#[derive(Debug)]
pub enum Action {
    /// Send a frame; a failure ends the connection with that error.
    Send(Wire),
    /// Send a frame; a failure is ignored.
    TrySend(Wire),
    /// Send a tracked line; on failure answer `id` with the error and call
    /// `Link::abandon`.
    SendTracked(String, u64),
    /// Answer the tracked write `id`.
    Reply(u64, Result<(), String>),
    /// Tell the user interface.
    Notify(Notice),
    /// Write the resume record (the writer stamps the time).
    Persist(SavedJob),
    /// Remove the resume record.
    ClearSaved,
    /// Restart the burst-poll timer.
    RestartBurst,
    /// Poll status at this period from now on.
    SetStatusPeriod(u64),
    /// End the connection with this error.
    Fail(String),
    /// End the connection normally.
    Finish,
}

pub enum WireView {
    Text(Seq<char>),
    Binary(u8),
    Close,
}

/// A progress report as plain values: state, path, name, sent, acked,
/// total, errors.
pub type ProgressView = (Seq<char>, Seq<char>, Seq<char>, usize, usize, usize, usize);

/// A resume record as plain values: path, name, total, acked, state.
pub type RecordView = (Seq<char>, Seq<char>, usize, usize, Seq<char>);

pub enum NoticeView {
    WsState(WsState),
    WsError(Seq<char>),
    GrblLine(Seq<char>),
    Status(FrameView),
    WsControl(Seq<char>),
    Policy(ActionPolicy),
    MaslowInfo,
    /// The policy of this calibration state.
    MaslowState(CalState),
    Waypoint,
    /// A discord of this kind between two states.
    Discord(Seq<char>, CalState, CalState),
    CalMeasurements,
    CalFirmwareFit,
    CalFirmwareAnchors,
    CalComplete,
    ConfigDump(Seq<(Seq<char>, Seq<char>, ConfigKind)>, Seq<char>),
    ConfigDumpError(Seq<char>),
    Progress(ProgressView),
}

pub enum ActionView {
    Send(WireView),
    TrySend(WireView),
    SendTracked(Seq<char>, u64),
    Reply(u64, Result<(), Seq<char>>),
    Notify(NoticeView),
    Persist(RecordView),
    ClearSaved,
    RestartBurst,
    SetStatusPeriod(u64),
    Fail(Seq<char>),
    Finish,
}

pub open spec fn wire_is(w: Wire, v: WireView) -> bool {
    match (w, v) {
        (Wire::Text(s), WireView::Text(t)) => s@ == t,
        (Wire::Binary(b), WireView::Binary(c)) => b == c,
        (Wire::Close, WireView::Close) => true,
        _ => false,
    }
}

/// The policy `p` is the one `policy_for(s)` gives.
pub open spec fn describes(p: StatePolicy, s: CalState) -> bool {
    &&& p.code == state_code(s)
    &&& p.label@ == state_label(s)
    &&& p.busy == state_busy(s)
    &&& string_views(p.allowed@) == allowed_names(s)
}

pub open spec fn progress_view(p: Progress) -> ProgressView {
    (p.state@, p.path@, p.name@, p.sent, p.acked, p.total, p.errors)
}

pub open spec fn record_view(r: SavedJob) -> RecordView {
    (r.path@, r.name@, r.total, r.acked, r.state@)
}

pub open spec fn notice_is(n: Notice, v: NoticeView) -> bool {
    match (n, v) {
        (Notice::WsState(a), NoticeView::WsState(b)) => a == b,
        (Notice::WsError(a), NoticeView::WsError(b)) => a@ == b,
        (Notice::GrblLine(a), NoticeView::GrblLine(b)) => a@ == b,
        (Notice::Status(a), NoticeView::Status(b)) => a@ == b,
        (Notice::WsControl(a), NoticeView::WsControl(b)) => a@ == b,
        (Notice::Policy(a), NoticeView::Policy(b)) => a == b,
        (Notice::MaslowInfo, NoticeView::MaslowInfo) => true,
        (Notice::MaslowState(p), NoticeView::MaslowState(s)) => describes(p, s),
        (Notice::Waypoint, NoticeView::Waypoint) => true,
        (Notice::Discord(d), NoticeView::Discord(kind, from, to)) => {
            &&& d.kind@ == kind
            &&& d.from == state_code(from) && d.to == state_code(to)
            &&& d.from_label@ == state_label(from) && d.to_label@ == state_label(to)
        },
        (Notice::CalMeasurements, NoticeView::CalMeasurements) => true,
        (Notice::CalFirmwareFit, NoticeView::CalFirmwareFit) => true,
        (Notice::CalFirmwareAnchors, NoticeView::CalFirmwareAnchors) => true,
        (Notice::CalComplete, NoticeView::CalComplete) => true,
        (Notice::ConfigDump(es, syn), NoticeView::ConfigDump(ev, sv)) => entry_views(es@) == ev
            && syn@ == sv,
        (Notice::ConfigDumpError(a), NoticeView::ConfigDumpError(b)) => a@ == b,
        (Notice::Progress(p), NoticeView::Progress(v)) => progress_view(p) == v,
        _ => false,
    }
}

pub open spec fn action_is(a: Action, v: ActionView) -> bool {
    match (a, v) {
        (Action::Send(w), ActionView::Send(x)) => wire_is(w, x),
        (Action::TrySend(w), ActionView::TrySend(x)) => wire_is(w, x),
        (Action::SendTracked(s, id), ActionView::SendTracked(t, j)) => s@ == t && id == j,
        (Action::Reply(id, r), ActionView::Reply(j, q)) => id == j && match (r, q) {
            (Ok(()), Ok(())) => true,
            (Err(e), Err(f)) => e@ == f,
            _ => false,
        },
        (Action::Notify(n), ActionView::Notify(m)) => notice_is(n, m),
        (Action::Persist(r), ActionView::Persist(x)) => record_view(r) == x,
        (Action::ClearSaved, ActionView::ClearSaved) => true,
        (Action::RestartBurst, ActionView::RestartBurst) => true,
        (Action::SetStatusPeriod(p), ActionView::SetStatusPeriod(q)) => p == q,
        (Action::Fail(e), ActionView::Fail(f)) => e@ == f,
        (Action::Finish, ActionView::Finish) => true,
        _ => false,
    }
}

/// The actions are, one for one, those described.
pub open spec fn actions_are(acts: Seq<Action>, vs: Seq<ActionView>) -> bool {
    &&& acts.len() == vs.len()
    &&& forall|i: int| 0 <= i < acts.len() ==> action_is(#[trigger] acts[i], vs[i])
}

/// `after` is `before` followed by actions as described.
pub open spec fn appended(before: Seq<Action>, after: Seq<Action>, vs: Seq<ActionView>) -> bool {
    &&& before.len() <= after.len()
    &&& after.take(before.len() as int) == before
    &&& actions_are(after.skip(before.len() as int), vs)
}

pub open spec fn notify(n: NoticeView) -> Seq<ActionView> {
    seq![ActionView::Notify(n)]
}

proof fn lemma_appended_push(before: Seq<Action>, mid: Seq<Action>, vs: Seq<ActionView>, a: Action, v: ActionView)
    requires
        appended(before, mid, vs),
        action_is(a, v),
    ensures
        appended(before, mid.push(a), vs.push(v)),
{
    assert(mid.push(a).take(before.len() as int) =~= mid.take(before.len() as int));
    assert(mid.push(a).skip(before.len() as int) =~= mid.skip(before.len() as int).push(a));
}

proof fn lemma_appended_chain(a: Seq<Action>, b: Seq<Action>, c: Seq<Action>, x: Seq<ActionView>, y: Seq<ActionView>)
    requires
        appended(a, b, x),
        appended(b, c, y),
    ensures
        appended(a, c, x + y),
{
    assert(c.take(a.len() as int) =~= b.take(a.len() as int));
    let bs = b.skip(a.len() as int);
    let cs = c.skip(b.len() as int);
    assert(c.skip(a.len() as int) =~= bs + cs);
    assert forall|i: int| 0 <= i < (bs + cs).len() implies action_is(#[trigger] (bs + cs)[i], (x + y)[i]) by {
        if i < bs.len() {
            assert((bs + cs)[i] == bs[i]);
        } else {
            assert((bs + cs)[i] == cs[i - bs.len()]);
        }
    }
}

proof fn lemma_appended_nothing(a: Seq<Action>)
    ensures
        appended(a, a, seq![]),
{
    assert(a.take(a.len() as int) =~= a);
    assert(a.skip(a.len() as int) =~= seq![]);
}

/// Push one action.
fn act(acts: &mut Vec<Action>, a: Action, Ghost(v): Ghost<ActionView>)
    requires
        action_is(a, v),
    ensures
        appended(old(acts)@, final(acts)@, seq![v]),
{
    let ghost before = acts@;
    acts.push(a);
    proof {
        lemma_appended_nothing(before);
        lemma_appended_push(before, before, seq![], acts@.last(), v);
        assert(before.push(acts@.last()) == acts@);
        assert(seq![].push(v) =~= seq![v]);
    }
}

fn text(s: &str) -> (w: Wire)
    ensures
        wire_is(w, WireView::Text(s@)),
{
    Wire::Text(own(s))
}

// ---------------------------------------------------------------------------
// Job progress and resume records
// ---------------------------------------------------------------------------

/// The progress the interface shows: the job's, with an optional state
/// override, or the idle report when there is no job.
pub open spec fn progress_of(job: Option<Job>, state: Option<Seq<char>>) -> ProgressView {
    match job {
        Some(j) => (
            match state {
                Some(s) => s,
                None => label_of(j.done, j.errors, j.paused),
            },
            j.path@,
            j.name@,
            j.sent,
            j.acked,
            j.total,
            j.errors,
        ),
        None => ("idle"@, seq![], seq![], 0, 0, 0, 0),
    }
}

pub open spec fn str_opt(o: Option<&str>) -> Option<Seq<char>> {
    match o {
        Some(s) => Some(s@),
        None => None,
    }
}

/// The progress report of a job, or the idle report.
pub fn job_progress(job: &Option<Job>, state: Option<&str>) -> (p: Progress)
    ensures
        progress_view(p) == progress_of(*job, str_opt(state)),
{
    match job {
        Some(j) => j.progress(state),
        None => {
            let p = Progress::idle();
            proof {
                assert(p.path@ =~= seq![]);
                assert(p.name@ =~= seq![]);
            }
            p
        },
    }
}

/// The resume record of a job in the given state.
pub open spec fn record_of(j: Job, state: Seq<char>) -> RecordView {
    (j.path@, j.name@, j.total, j.acked, state)
}

/// Record the job's cursor as persisted and build its resume record.
fn persist(j: &mut Job, state: &str) -> (r: SavedJob)
    requires
        old(j).wf(),
    ensures
        final(j).wf(),
        record_view(r) == record_of(*old(j), state@),
        r.updated_at == 0,
        *final(j) == (Job { last_persist_acked: old(j).acked, ..*old(j) }),
{
    j.last_persist_acked = j.acked;
    SavedJob {
        path: j.path.clone(),
        name: j.name.clone(),
        total: j.total,
        acked: j.acked,
        state: own(state),
        updated_at: 0,
    }
}

// ---------------------------------------------------------------------------
// Per-socket state
// ---------------------------------------------------------------------------

/// A `$CD` config dump being captured: the YAML lines so far, and when the
/// capture started.
pub struct Capture {
    pub lines: Vec<String>,
    pub started: Instant,
}

/// Per-socket reconciliation state, kept across lines within one
/// connection.
pub struct Link {
    /// Authoritative Maslow calibration state, with transition validation.
    pub tracker: StateTracker,
    /// Last FluidNC machine state (drives the policy recompute on change).
    pub fluidnc_state: String,
    /// Last emitted action policy, to avoid repeating identical events.
    pub last_policy: Option<ActionPolicy>,
    /// A config dump being captured, awaiting its terminating `ok`/`error`.
    pub capture: Option<Capture>,
    /// `ok`/`error` replies still expected from commands that are not job
    /// lines, in FIFO order.
    pub pending: VecDeque<PendingAck>,
    /// Set once the calibration completion was announced for the run now
    /// ending; cleared by any other state observation.
    pub cal_complete_emitted: bool,
    /// Fast `$GSTATE` polls still to fire after an action.
    pub burst_remaining: u32,
    /// Current status-poll period.
    pub status_period_ms: u64,
    /// When anything last arrived from the machine.
    pub last_activity: Instant,
}

/// The state of a link as plain values.
pub struct LinkView {
    pub fluidnc: Seq<char>,
    pub maslow: Option<CalState>,
    pub last_policy: Option<ActionPolicy>,
    pub capture: Option<Seq<Seq<char>>>,
    pub pending: Seq<PendingAck>,
    pub cal_done: bool,
    pub burst: u32,
    pub period: u64,
}

impl View for Link {
    type V = LinkView;

    open spec fn view(&self) -> LinkView {
        LinkView {
            fluidnc: self.fluidnc_state@,
            maslow: self.tracker.state(),
            last_policy: self.last_policy,
            capture: match self.capture {
                Some(c) => Some(string_views(c.lines@)),
                None => None,
            },
            pending: self.pending@,
            cal_done: self.cal_complete_emitted,
            burst: self.burst_remaining,
            period: self.status_period_ms,
        }
    }
}

/// Recompute the action policy and announce it only when it changed.
pub open spec fn refreshed(v: LinkView, job_active: bool) -> (LinkView, Seq<ActionView>) {
    let p = policy_spec(v.fluidnc, v.maslow, job_active);
    if v.last_policy == Some(p) {
        (v, seq![])
    } else {
        (LinkView { last_policy: Some(p), ..v }, notify(NoticeView::Policy(p)))
    }
}

/// Announce the calibration completion once per run.
pub open spec fn completed(v: LinkView) -> (LinkView, Seq<ActionView>) {
    if v.cal_done {
        (v, seq![])
    } else {
        (LinkView { cal_done: true, ..v }, notify(NoticeView::CalComplete))
    }
}

/// The lines joined with `\n` between them.
pub open spec fn join_lines(ls: Seq<Seq<char>>) -> Seq<char>
    decreases ls.len(),
{
    if ls.len() == 0 {
        seq![]
    } else if ls.len() == 1 {
        ls[0]
    } else {
        join_lines(ls.drop_last()) + seq!['\n'] + ls.last()
    }
}

/// The entries as `path=value` lines.
pub open spec fn synthetic_of(es: Seq<(Seq<char>, Seq<char>, ConfigKind)>) -> Seq<char>
    decreases es.len(),
{
    if es.len() == 0 {
        seq![]
    } else {
        synthetic_of(es.drop_last()) + es.last().0 + seq!['='] + es.last().1 + seq!['\n']
    }
}

/// What a finished `$CD` capture is reported as.
pub open spec fn dump_notice(yaml: Seq<char>) -> Seq<ActionView> {
    let es = flattened(yaml);
    if es.len() == 0 {
        notify(NoticeView::ConfigDumpError("empty or unparseable config dump"@))
    } else {
        notify(NoticeView::ConfigDump(es, synthetic_of(es)))
    }
}

/// A line while a config dump is captured: `Some` when the capture
/// consumed it, `None` when it goes on to normal routing (status reports
/// keep the position display live). An ack with nothing captured is a
/// leftover poll reply and is dropped; poll noise is dropped; anything else
/// is YAML.
pub open spec fn captured(v: LinkView, line: Seq<char>) -> Option<(LinkView, Seq<ActionView>)> {
    match v.capture {
        None => None,
        Some(buf) => if ack_of(line) is Some {
            if buf.len() == 0 {
                Some((v, seq![]))
            } else {
                Some((LinkView { capture: None, ..v }, dump_notice(join_lines(buf))))
            }
        } else if status_of(line) is Some {
            None
        } else if has_prefix(line, "["@) || has_prefix(line, "MINFO:"@) || control_line(line) {
            Some((v, seq![]))
        } else {
            Some((LinkView { capture: Some(buf.push(line)), ..v }, seq![]))
        },
    }
}

/// A reported calibration state, given what the tracker made of it.
pub open spec fn state_routed(v: LinkView, o: Observation, job_active: bool) -> (
    LinkView,
    Seq<ActionView>,
) {
    match o {
        Observation::First(s) => {
            let r = refreshed(LinkView { maslow: Some(s), cal_done: false, ..v }, job_active);
            (r.0, notify(NoticeView::MaslowState(s)) + r.1)
        },
        Observation::Valid(to) => {
            let r = refreshed(LinkView { maslow: Some(to), ..v }, job_active);
            let shown = notify(NoticeView::MaslowState(to)) + r.1;
            if v.maslow is Some && completes_calibration(v.maslow.unwrap(), to) {
                let c = completed(r.0);
                (c.0, shown + c.1)
            } else {
                (LinkView { cal_done: false, ..r.0 }, shown)
            }
        },
        Observation::Unchanged => (v, seq![]),
        Observation::Straggler { from, to } => (
            v,
            notify(NoticeView::Discord("straggler"@, from, to)),
        ),
        Observation::Discord { from, to } => {
            let r = refreshed(LinkView { maslow: Some(to), cal_done: false, ..v }, job_active);
            (
                r.0,
                notify(NoticeView::Discord("accepted"@, from, to)) + notify(
                    NoticeView::MaslowState(to),
                ) + r.1,
            )
        },
    }
}

/// A line that is none of the structured reports: fit and anchor readings
/// and the completion log line are noted and the line still shown, control
/// messages go to their own channel, chatter is hidden.
pub open spec fn other_routed(v: LinkView, line: Seq<char>, rd: Readings) -> (LinkView, Seq<ActionView>) {
    let a = (if rd.fit { notify(NoticeView::CalFirmwareFit) } else { seq![] }) + (if rd.anchors {
        notify(NoticeView::CalFirmwareAnchors)
    } else {
        seq![]
    });
    let c = if contains(line, "Find Anchors complete"@) { completed(v) } else { (v, seq![]) };
    let shown = if control_line(line) {
        notify(NoticeView::WsControl(line))
    } else if chatter_line(line) {
        seq![]
    } else {
        notify(NoticeView::GrblLine(line))
    };
    (c.0, a + c.1 + shown)
}

/// Routing of one complete line, given what the tracker made of it if it
/// reports a calibration state.
pub open spec fn routed(v: LinkView, line: Seq<char>, rd: Readings, job_active: bool, o: Observation) -> (
    LinkView,
    Seq<ActionView>,
) {
    if line.len() == 0 {
        (v, seq![])
    } else if captured(v, line) is Some {
        captured(v, line).unwrap()
    } else if status_of(line) is Some {
        let f = status_of(line).unwrap();
        if f.state != v.fluidnc {
            let r = refreshed(LinkView { fluidnc: f.state, ..v }, job_active);
            (r.0, notify(NoticeView::Status(f)) + r.1)
        } else {
            (v, notify(NoticeView::Status(f)))
        }
    } else if rd.maslow_info {
        (v, notify(NoticeView::MaslowInfo))
    } else if state_number(line) is Some {
        state_routed(v, o, job_active)
    } else if rd.waypoint {
        (v, notify(NoticeView::Waypoint))
    } else if rd.measurements {
        (v, notify(NoticeView::CalMeasurements))
    } else {
        other_routed(v, line, rd)
    }
}

/// `routed` for the observation the tracker actually made: only a
/// calibration-state line consults the tracker, which may treat an invalid
/// transition as a straggler or a discord depending on the time since the
/// last change.
pub open spec fn route_ok(
    v: LinkView,
    line: Seq<char>,
    rd: Readings,
    job_active: bool,
    after: LinkView,
    before_acts: Seq<Action>,
    after_acts: Seq<Action>,
) -> bool {
    exists|o: Observation|
        {
            &&& #[trigger] routed(v, line, rd, job_active, o).0 == after
            &&& appended(before_acts, after_acts, routed(v, line, rd, job_active, o).1)
            &&& (line.len() > 0 && captured(v, line) is None && status_of(line) is None
                && !rd.maslow_info && state_number(line) is Some) ==> observation_ok(
                v.maslow,
                state_of_code(state_number(line).unwrap()),
                STATE_DEBOUNCE_MS,
                o,
                after.maslow,
            )
        }
}

/// The lines joined with `\n` between them.
fn join_exec(ls: &Vec<String>) -> (out: String)
    ensures
        out@ == join_lines(string_views(ls@)),
{
    let ghost all = string_views(ls@);
    let mut acc: Vec<char> = Vec::new();
    let mut i: usize = 0;
    while i < ls.len()
        invariant
            i <= ls@.len(),
            all == string_views(ls@),
            acc@ == join_lines(all.take(i as int)),
        decreases ls@.len() - i,
    {
        let ghost t = all.take(i + 1);
        proof {
            assert(t.drop_last() =~= all.take(i as int));
            assert(t.last() == ls@[i as int]@);
        }
        if i > 0 {
            acc.push('\n');
        }
        let piece = chars_of(ls[i].as_str());
        append(&mut acc, piece.as_slice());
        proof {
            if i == 0 {
                assert(t.len() == 1);
                assert(acc@ =~= t[0]);
            } else {
                assert(acc@ =~= join_lines(t.drop_last()) + seq!['\n'] + t.last());
            }
        }
        i += 1;
    }
    proof {
        assert(all.take(ls@.len() as int) =~= all);
    }
    string_of(acc.as_slice())
}

/// The entries as `path=value` lines.
fn synthetic(es: &Vec<ConfigEntry>) -> (out: String)
    ensures
        out@ == synthetic_of(entry_views(es@)),
{
    let ghost all = entry_views(es@);
    let mut acc: Vec<char> = Vec::new();
    let mut i: usize = 0;
    while i < es.len()
        invariant
            i <= es@.len(),
            all == entry_views(es@),
            acc@ == synthetic_of(all.take(i as int)),
        decreases es@.len() - i,
    {
        let ghost t = all.take(i + 1);
        proof {
            assert(t.drop_last() =~= all.take(i as int));
            assert(t.last() == (es@[i as int].path@, es@[i as int].value@, es@[i as int].kind));
        }
        let p = chars_of(es[i].path.as_str());
        append(&mut acc, p.as_slice());
        acc.push('=');
        let v = chars_of(es[i].value.as_str());
        append(&mut acc, v.as_slice());
        acc.push('\n');
        proof {
            assert(acc@ =~= synthetic_of(t.drop_last()) + t.last().0 + seq!['='] + t.last().1
                + seq!['\n']);
        }
        i += 1;
    }
    proof {
        assert(all.take(es@.len() as int) =~= all);
    }
    string_of(acc.as_slice())
}

/// Flatten a captured `$CD` dump and report it, with the same entries as
/// `path=value` lines for the anchor parser; an empty result is an error.
fn finalize_config_dump(yaml: &str, acts: &mut Vec<Action>)
    ensures
        appended(old(acts)@, final(acts)@, dump_notice(yaml@)),
{
    let entries = flatten_config(yaml);
    if entries.len() == 0 {
        let msg = own("empty or unparseable config dump");
        act(
            acts,
            Action::Notify(Notice::ConfigDumpError(msg)),
            Ghost(ActionView::Notify(NoticeView::ConfigDumpError("empty or unparseable config dump"@))),
        );
    } else {
        let syn = synthetic(&entries);
        let ghost ev = entry_views(entries@);
        act(
            acts,
            Action::Notify(Notice::ConfigDump(entries, syn)),
            Ghost(ActionView::Notify(NoticeView::ConfigDump(ev, synthetic_of(ev)))),
        );
    }
}

fn discord(kind: &str, from: CalState, to: CalState) -> (d: Discord)
    ensures
        d.kind@ == kind@,
        d.from == state_code(from),
        d.to == state_code(to),
        d.from_label@ == state_label(from),
        d.to_label@ == state_label(to),
{
    Discord {
        kind: own(kind),
        from: from.code(),
        to: to.code(),
        from_label: own(from.label()),
        to_label: own(to.label()),
    }
}

impl Link {
    /// A fresh link: nothing known of the machine yet.
    pub fn new() -> (l: Link)
        ensures
            l@ == (LinkView {
                fluidnc: seq![],
                maslow: None,
                last_policy: None,
                capture: None,
                pending: seq![],
                cal_done: false,
                burst: 0,
                period: STATUS_FAST_MS,
            }),
    {
        let l = Link {
            tracker: StateTracker::new(),
            fluidnc_state: String::new(),
            last_policy: None,
            capture: None,
            pending: VecDeque::new(),
            cal_complete_emitted: false,
            burst_remaining: 0,
            status_period_ms: STATUS_FAST_MS,
            last_activity: clock::now(),
        };
        proof {
            assert(l@.pending =~= seq![]);
        }
        l
    }

    /// Recompute the action policy and announce it only when it changed.
    pub fn refresh_policy(&mut self, job_active: bool, acts: &mut Vec<Action>)
        ensures
            final(self)@ == refreshed(old(self)@, job_active).0,
            appended(old(acts)@, final(acts)@, refreshed(old(self)@, job_active).1),
    {
        let p = action_policy(self.fluidnc_state.as_str(), self.tracker.current(), job_active);
        let same = match self.last_policy {
            Some(q) => q == p,
            None => false,
        };
        if same {
            proof {
                lemma_appended_nothing(acts@);
            }
        } else {
            self.last_policy = Some(p);
            act(acts, Action::Notify(Notice::Policy(p)), Ghost(ActionView::Notify(NoticeView::Policy(p))));
        }
    }

    /// Announce the calibration completion once per run, whichever path
    /// (the state transition or the log line) gets there first.
    fn emit_cal_complete(&mut self, acts: &mut Vec<Action>)
        ensures
            final(self)@ == completed(old(self)@).0,
            appended(old(acts)@, final(acts)@, completed(old(self)@).1),
    {
        if self.cal_complete_emitted {
            proof {
                lemma_appended_nothing(acts@);
            }
        } else {
            self.cal_complete_emitted = true;
            act(acts, Action::Notify(Notice::CalComplete), Ghost(ActionView::Notify(NoticeView::CalComplete)));
        }
    }

    /// A line while a dump is captured; true when the capture consumed it.
    fn capture_line(&mut self, line: &str, acts: &mut Vec<Action>) -> (consumed: bool)
        requires
            old(self).capture is Some,
        ensures
            consumed == captured(old(self)@, line@) is Some,
            consumed ==> final(self)@ == captured(old(self)@, line@).unwrap().0 && appended(
                old(acts)@,
                final(acts)@,
                captured(old(self)@, line@).unwrap().1,
            ),
            !consumed ==> final(self)@ == old(self)@ && final(acts)@ == old(acts)@,
    {
        let s = chars_of(line);
        if ack_kind(line).is_some() {
            let empty = match &self.capture {
                Some(c) => c.lines.len() == 0,
                None => true,
            };
            if empty {
                proof {
                    lemma_appended_nothing(acts@);
                }
                return true;
            }
            let c = self.capture.take().unwrap();
            let yaml = join_exec(&c.lines);
            finalize_config_dump(yaml.as_str(), acts);
            return true;
        }
        if parse_status_frame(line).is_some() {
            return false;
        }
        if has_prefix_exec(s.as_slice(), "[") || has_prefix_exec(s.as_slice(), "MINFO:") || is_control(
            line,
        ) {
            proof {
                lemma_appended_nothing(acts@);
            }
            return true;
        }
        match &mut self.capture {
            Some(c) => {
                let ghost prev = c.lines@;
                c.lines.push(own(line));
                proof {
                    assert(string_views(c.lines@) =~= string_views(prev).push(line@));
                }
            },
            None => {},
        }
        proof {
            lemma_appended_nothing(acts@);
        }
        true
    }
}

impl Link {
    /// Route a reported calibration state through the tracker.
    fn route_state(&mut self, code: i32, job_active: bool, acts: &mut Vec<Action>) -> (o: Ghost<Observation>)
        ensures
            observation_ok(old(self)@.maslow, state_of_code(code), STATE_DEBOUNCE_MS, o@, final(self)@.maslow),
            final(self)@ == state_routed(old(self)@, o@, job_active).0,
            appended(old(acts)@, final(acts)@, state_routed(old(self)@, o@, job_active).1),
    {
        let ghost v = self@;
        let ghost a0 = acts@;
        let st = CalState::from_code(code);
        let before = self.tracker.current();
        let o = self.tracker.observe(st, STATE_DEBOUNCE_MS);
        let ghost v1 = self@;
        match o {
            Observation::First(s) => {
                self.cal_complete_emitted = false;
                act(acts, Action::Notify(Notice::MaslowState(policy_for(s))), Ghost(ActionView::Notify(NoticeView::MaslowState(s))));
                let ghost a1 = acts@;
                let ghost w = self@;
                self.refresh_policy(job_active, acts);
                proof {
                    assert(w == (LinkView { maslow: Some(s), cal_done: false, ..v }));
                    lemma_appended_chain(a0, a1, acts@, notify(NoticeView::MaslowState(s)), refreshed(w, job_active).1);
                }
            },
            Observation::Valid(to) => {
                act(acts, Action::Notify(Notice::MaslowState(policy_for(to))), Ghost(ActionView::Notify(NoticeView::MaslowState(to))));
                let ghost a1 = acts@;
                let ghost w = self@;
                self.refresh_policy(job_active, acts);
                let ghost a2 = acts@;
                proof {
                    assert(w == (LinkView { maslow: Some(to), ..v }));
                    lemma_appended_chain(a0, a1, a2, notify(NoticeView::MaslowState(to)), refreshed(w, job_active).1);
                }
                let done = match before {
                    Some(from) => is_calibration_completion(from, to),
                    None => false,
                };
                if done {
                    let ghost r0 = self@;
                    self.emit_cal_complete(acts);
                    proof {
                        lemma_appended_chain(a0, a2, acts@, notify(NoticeView::MaslowState(to)) + refreshed(w, job_active).1, completed(r0).1);
                    }
                } else {
                    self.cal_complete_emitted = false;
                }
            },
            Observation::Unchanged => {
                proof {
                    lemma_appended_nothing(acts@);
                }
            },
            Observation::Straggler { from, to } => {
                act(acts, Action::Notify(Notice::Discord(discord("straggler", from, to))), Ghost(ActionView::Notify(NoticeView::Discord("straggler"@, from, to))));
            },
            Observation::Discord { from, to } => {
                self.cal_complete_emitted = false;
                act(acts, Action::Notify(Notice::Discord(discord("accepted", from, to))), Ghost(ActionView::Notify(NoticeView::Discord("accepted"@, from, to))));
                let ghost a1 = acts@;
                act(acts, Action::Notify(Notice::MaslowState(policy_for(to))), Ghost(ActionView::Notify(NoticeView::MaslowState(to))));
                let ghost a2 = acts@;
                let ghost w = self@;
                self.refresh_policy(job_active, acts);
                proof {
                    assert(w == (LinkView { maslow: Some(to), cal_done: false, ..v }));
                    lemma_appended_chain(a0, a1, a2, notify(NoticeView::Discord("accepted"@, from, to)), notify(NoticeView::MaslowState(to)));
                    lemma_appended_chain(a0, a2, acts@, notify(NoticeView::Discord("accepted"@, from, to)) + notify(NoticeView::MaslowState(to)), refreshed(w, job_active).1);
                }
            },
        }
        Ghost(o)
    }

    /// Route a line that is none of the structured reports.
    fn route_other(&mut self, line: &str, rd: Readings, acts: &mut Vec<Action>)
        ensures
            final(self)@ == other_routed(old(self)@, line@, rd).0,
            appended(old(acts)@, final(acts)@, other_routed(old(self)@, line@, rd).1),
    {
        let ghost v = self@;
        let ghost a0 = acts@;
        let ghost fa = if rd.fit { notify(NoticeView::CalFirmwareFit) } else { seq![] };
        let ghost aa = if rd.anchors { notify(NoticeView::CalFirmwareAnchors) } else { seq![] };
        proof {
            lemma_appended_nothing(acts@);
        }
        if rd.fit {
            act(acts, Action::Notify(Notice::CalFirmwareFit), Ghost(ActionView::Notify(NoticeView::CalFirmwareFit)));
        }
        let ghost a1 = acts@;
        proof {
            lemma_appended_nothing(acts@);
        }
        if rd.anchors {
            act(acts, Action::Notify(Notice::CalFirmwareAnchors), Ghost(ActionView::Notify(NoticeView::CalFirmwareAnchors)));
        }
        let ghost a2 = acts@;
        proof {
            lemma_appended_chain(a0, a1, a2, fa, aa);
        }
        let s = chars_of(line);
        let ghost cv = if contains(line@, "Find Anchors complete"@) { completed(v).1 } else { seq![] };
        proof {
            lemma_appended_nothing(acts@);
        }
        if contains_exec(s.as_slice(), "Find Anchors complete") {
            self.emit_cal_complete(acts);
        }
        let ghost a3 = acts@;
        proof {
            lemma_appended_chain(a0, a2, a3, fa + aa, cv);
        }
        let ghost sv = if control_line(line@) {
            notify(NoticeView::WsControl(line@))
        } else if chatter_line(line@) {
            seq![]
        } else {
            notify(NoticeView::GrblLine(line@))
        };
        if is_control(line) {
            act(acts, Action::Notify(Notice::WsControl(own(line))), Ghost(ActionView::Notify(NoticeView::WsControl(line@))));
        } else if is_console_chatter(line) {
            proof {
                lemma_appended_nothing(acts@);
            }
        } else {
            act(acts, Action::Notify(Notice::GrblLine(own(line))), Ghost(ActionView::Notify(NoticeView::GrblLine(line@))));
        }
        proof {
            lemma_appended_chain(a0, a3, acts@, fa + aa + cv, sv);
        }
    }

    /// Classify and report one complete line, updating the reconciliation
    /// state: a config dump being captured comes first, then status
    /// reports, telemetry, calibration states, waypoints and measurements,
    /// and finally control messages and console lines.
    pub fn route_line(&mut self, line: &str, rd: Readings, job_active: bool, acts: &mut Vec<Action>)
        ensures
            route_ok(old(self)@, line@, rd, job_active, final(self)@, old(acts)@, final(acts)@),
    {
        let ghost v = self@;
        let ghost a0 = acts@;
        let ghost any = Observation::Unchanged;
        let s = chars_of(line);
        if s.len() == 0 {
            proof {
                lemma_appended_nothing(acts@);
                assert(routed(v, line@, rd, job_active, any).0 == self@);
            }
            return;
        }
        if self.capture.is_some() {
            if self.capture_line(line, acts) {
                proof {
                    assert(routed(v, line@, rd, job_active, any).0 == self@);
                }
                return;
            }
        }
        match parse_status_frame(line) {
            Some(f) => {
                let changed = !crate::text::str_eq(f.state.as_str(), self.fluidnc_state.as_str());
                if changed {
                    self.fluidnc_state = f.state.clone();
                }
                let ghost w = self@;
                let ghost fv = f@;
                act(acts, Action::Notify(Notice::Status(f)), Ghost(ActionView::Notify(NoticeView::Status(fv))));
                if changed {
                    let ghost a1 = acts@;
                    self.refresh_policy(job_active, acts);
                    proof {
                        assert(w == (LinkView { fluidnc: fv.state, ..v }));
                        lemma_appended_chain(a0, a1, acts@, notify(NoticeView::Status(fv)), refreshed(w, job_active).1);
                    }
                }
                proof {
                    assert(routed(v, line@, rd, job_active, any).0 == self@);
                }
                return;
            },
            None => {},
        }
        if rd.maslow_info {
            act(acts, Action::Notify(Notice::MaslowInfo), Ghost(ActionView::Notify(NoticeView::MaslowInfo)));
            proof {
                assert(routed(v, line@, rd, job_active, any).0 == self@);
            }
            return;
        }
        match parse_state(line) {
            Some(code) => {
                let o = self.route_state(code, job_active, acts);
                proof {
                    assert(routed(v, line@, rd, job_active, o@).0 == self@);
                }
                return;
            },
            None => {},
        }
        if rd.waypoint {
            act(acts, Action::Notify(Notice::Waypoint), Ghost(ActionView::Notify(NoticeView::Waypoint)));
        } else if rd.measurements {
            act(acts, Action::Notify(Notice::CalMeasurements), Ghost(ActionView::Notify(NoticeView::CalMeasurements)));
        } else {
            self.route_other(line, rd, acts);
        }
        proof {
            assert(routed(v, line@, rd, job_active, any).0 == self@);
        }
    }
}

// ---------------------------------------------------------------------------
// Job acknowledgements
// ---------------------------------------------------------------------------

/// Is a job occupying the connection (blocking manual input and polls)?
pub open spec fn active(job: Option<Job>) -> bool {
    job is Some && !job.unwrap().done
}

/// A job, if any, is internally consistent.
pub open spec fn job_wf(job: Option<Job>) -> bool {
    job is Some ==> job.unwrap().wf()
}

/// Whether a job is currently occupying the connection.
pub fn job_active(job: &Option<Job>) -> (b: bool)
    ensures
        b == active(*job),
{
    match job {
        Some(j) => j.active(),
        None => false,
    }
}

/// The text frames that send these lines.
pub open spec fn sends(ls: Seq<Seq<char>>) -> Seq<ActionView> {
    ls.map_values(|l: Seq<char>| ActionView::Send(WireView::Text(l)))
}

/// Send every line the firmware buffer has room for.
fn pump(j: &mut Job, acts: &mut Vec<Action>)
    requires
        old(j).wf(),
    ensures
        final(j).wf(),
        blocked(*final(j)),
        filled(*old(j), *final(j)),
        appended(old(acts)@, final(acts)@, sends(sent_between(*old(j), *final(j)))),
{
    let ghost j0 = *j;
    let ghost a0 = acts@;
    let lines = j.fill();
    let ghost ls = views(lines@);
    let mut i: usize = 0;
    proof {
        lemma_appended_nothing(acts@);
        assert(sends(ls.take(0)) =~= seq![]);
    }
    while i < lines.len()
        invariant
            i <= lines@.len(),
            ls == views(lines@),
            appended(a0, acts@, sends(ls.take(i as int))),
        decreases lines@.len() - i,
    {
        let l = lines[i].clone();
        let ghost a1 = acts@;
        act(acts, Action::Send(Wire::Text(l)), Ghost(ActionView::Send(WireView::Text(ls[i as int]))));
        proof {
            lemma_appended_chain(a0, a1, acts@, sends(ls.take(i as int)), seq![ActionView::Send(WireView::Text(ls[i as int]))]);
            assert(sends(ls.take(i as int)) + seq![ActionView::Send(WireView::Text(ls[i as int]))] =~= sends(ls.take(i + 1)));
        }
        i += 1;
    }
    proof {
        assert(ls.take(lines@.len() as int) =~= ls);
    }
}

/// Has the job acked enough lines since its last persist to persist again?
pub open spec fn due(j: Job) -> bool {
    j.acked >= j.persisted_at() + PERSIST_EVERY
}

/// `j` with its cursor recorded as persisted.
pub open spec fn persisted(j: Job) -> Job {
    Job { last_persist_acked: j.acked, ..j }
}

/// The final label of a finished job.
pub open spec fn final_label(j: Job) -> Seq<char> {
    if j.errors > 0 {
        "error"@
    } else {
        "done"@
    }
}

/// A job acknowledgement that nothing else was waiting for: the job
/// counts it, persists when due, refills the buffer, and reports its
/// progress; a job that completes is persisted with its final state,
/// reported, its record removed, and dropped, which unlocks the policy.
pub open spec fn job_acked(
    j0: Job,
    is_error: bool,
    v: LinkView,
    j1: Job,
    fin: bool,
    j3: Job,
    after_job: Option<Job>,
    after: LinkView,
    acts: Seq<ActionView>,
) -> bool {
    let j2 = if due(j1) { persisted(j1) } else { j1 };
    let saved = if due(j1) {
        seq![ActionView::Persist(record_of(j1, "running"@))]
    } else {
        seq![]
    };
    let sent = sends(sent_between(j2, j3));
    &&& ack_ok(j0, is_error, j1, fin)
    &&& j1.wf() && j3.wf()
    &&& blocked(j3) && filled(j2, j3)
    &&& if fin {
        let j4 = persisted(j3);
        let r = refreshed(v, false);
        &&& after_job is None
        &&& after == r.0
        &&& acts == saved + sent + seq![
            ActionView::Persist(record_of(j3, final_label(j3))),
            ActionView::Notify(NoticeView::Progress(progress_of(Some(j4), None))),
            ActionView::ClearSaved,
        ] + r.1
    } else {
        &&& after_job == Some(j3)
        &&& after == v
        &&& acts == saved + sent + notify(NoticeView::Progress(progress_of(Some(j3), None)))
    }
}

/// What an incoming line does before it is routed: an acknowledgement
/// answers the oldest pending out-of-band command, else the active job.
pub open spec fn ack_handled(
    v: LinkView,
    job: Option<Job>,
    line: Seq<char>,
    after: LinkView,
    after_job: Option<Job>,
    acts: Seq<ActionView>,
) -> bool {
    match ack_of(line) {
        None => after == v && after_job == job && acts.len() == 0,
        Some(e) => if v.pending.len() > 0 {
            &&& after == (LinkView { pending: v.pending.drop_first(), ..v })
            &&& after_job == job
            &&& match v.pending[0] {
                PendingAck::Untracked => acts.len() == 0,
                PendingAck::Awaiting(id) => acts == seq![
                    ActionView::Reply(id, if e { Err(trim(line)) } else { Ok(()) }),
                ],
            }
        } else if active(job) {
            exists|j1: Job, fin: bool, j3: Job|
                #[trigger] job_acked(job.unwrap(), e, v, j1, fin, j3, after_job, after, acts)
        } else {
            after == v && after_job == job && acts.len() == 0
        },
    }
}

impl Link {
    fn job_ack(&mut self, is_error: bool, job: &mut Option<Job>, acts: &mut Vec<Action>)
        requires
            active(*old(job)),
            job_wf(*old(job)),
        ensures
            job_wf(*final(job)),
            exists|j1: Job, fin: bool, j3: Job, vs: Seq<ActionView>|
                #[trigger] job_acked(old(job).unwrap(), is_error, old(self)@, j1, fin, j3, *final(job), final(self)@, vs)
                    && appended(old(acts)@, final(acts)@, vs),
    {
        let ghost v = self@;
        let ghost a0 = acts@;
        let ghost j0 = job.unwrap();
        let mut j = job.take().unwrap();
        let fin = j.ack(is_error);
        let ghost j1 = j;
        let ghost saved = if due(j1) { seq![ActionView::Persist(record_of(j1, "running"@))] } else { seq![] };
        proof {
            lemma_appended_nothing(acts@);
        }
        if j.should_persist() {
            let rec = persist(&mut j, "running");
            act(acts, Action::Persist(rec), Ghost(ActionView::Persist(record_of(j1, "running"@))));
        }
        let ghost j2 = j;
        let ghost a1 = acts@;
        pump(&mut j, acts);
        let ghost j3 = j;
        let ghost a2 = acts@;
        let ghost sent = sends(sent_between(j2, j3));
        proof {
            lemma_appended_chain(a0, a1, a2, saved, sent);
        }
        if fin {
            let label = if j.errors > 0 { "error" } else { "done" };
            let rec = persist(&mut j, label);
            act(acts, Action::Persist(rec), Ghost(ActionView::Persist(record_of(j3, final_label(j3)))));
            let ghost b1 = acts@;
            let ghost j4 = j;
            *job = Some(j);
            let p = job_progress(job, None);
            act(acts, Action::Notify(Notice::Progress(p)), Ghost(ActionView::Notify(NoticeView::Progress(progress_of(Some(j4), None)))));
            let ghost b2 = acts@;
            act(acts, Action::ClearSaved, Ghost(ActionView::ClearSaved));
            proof {
                lemma_appended_chain(a2, b1, b2, seq![ActionView::Persist(record_of(j3, final_label(j3)))], seq![ActionView::Notify(NoticeView::Progress(progress_of(Some(j4), None)))]);
                lemma_appended_chain(a2, b2, acts@, seq![ActionView::Persist(record_of(j3, final_label(j3)))] + seq![ActionView::Notify(NoticeView::Progress(progress_of(Some(j4), None)))], seq![ActionView::ClearSaved]);
            }
            *job = None;
            let ghost a3 = acts@;
            self.refresh_policy(false, acts);
            proof {
                let tail = seq![
                    ActionView::Persist(record_of(j3, final_label(j3))),
                    ActionView::Notify(NoticeView::Progress(progress_of(Some(j4), None))),
                    ActionView::ClearSaved,
                ];
                assert(seq![ActionView::Persist(record_of(j3, final_label(j3)))] + seq![ActionView::Notify(NoticeView::Progress(progress_of(Some(j4), None)))] + seq![ActionView::ClearSaved] =~= tail);
                lemma_appended_chain(a0, a2, a3, saved + sent, tail);
                lemma_appended_chain(a0, a3, acts@, saved + sent + tail, refreshed(v, false).1);
                assert(job_acked(j0, is_error, v, j1, fin, j3, *job, self@, saved + sent + tail + refreshed(v, false).1));
            }
        } else {
            *job = Some(j);
            let p = job_progress(job, None);
            act(acts, Action::Notify(Notice::Progress(p)), Ghost(ActionView::Notify(NoticeView::Progress(progress_of(Some(j3), None)))));
            proof {
                lemma_appended_chain(a0, a2, acts@, saved + sent, notify(NoticeView::Progress(progress_of(Some(j3), None))));
                assert(job_acked(j0, is_error, v, j1, fin, j3, *job, self@, saved + sent + notify(NoticeView::Progress(progress_of(Some(j3), None)))));
            }
        }
    }
}

/// How one complete incoming line is handled: its acknowledgement part
/// (`ack_handled`) and then its routing (`route_ok`), given the job that
/// remains.
pub open spec fn incoming_ok(
    v: LinkView,
    job: Option<Job>,
    line: Seq<char>,
    rd: Readings,
    after: LinkView,
    after_job: Option<Job>,
    acts: Seq<Action>,
) -> bool {
    exists|v1: LinkView, mid: Seq<Action>, vs: Seq<ActionView>|
        #![trigger ack_handled(v, job, line, v1, after_job, vs), actions_are(mid, vs)]
        {
            &&& ack_handled(v, job, line, v1, after_job, vs)
            &&& actions_are(mid, vs)
            &&& route_ok(v1, line, rd, active(after_job), after, mid, acts)
        }
}

proof fn lemma_appended_from_empty(after: Seq<Action>, vs: Seq<ActionView>)
    requires
        appended(seq![], after, vs),
    ensures
        actions_are(after, vs),
{
    assert(after.skip(0) =~= after);
}

impl Link {
    /// Handle one complete incoming line: an `ok`/`error` first answers the
    /// oldest out-of-band command still waiting, or else acknowledges a job
    /// line (with character counting); then the line is routed.
    pub fn handle_incoming(&mut self, line: &str, rd: Readings, job: &mut Option<Job>) -> (acts: Vec<
        Action,
    >)
        requires
            job_wf(*old(job)),
        ensures
            job_wf(*final(job)),
            incoming_ok(old(self)@, *old(job), line@, rd, final(self)@, *final(job), acts@),
    {
        let ghost v = self@;
        let ghost j0 = *job;
        let mut acts: Vec<Action> = Vec::new();
        let ghost mut vs: Seq<ActionView> = seq![];
        proof {
            lemma_appended_nothing(acts@);
        }
        match ack_kind(line) {
            Some(is_error) => {
                match resolve_pending_ack(&mut self.pending, is_error, line) {
                    Resolution::Answered(id, res) => {
                        let ghost rv: Result<(), Seq<char>> = if is_error { Err(trim(line@)) } else { Ok(()) };
                        act(&mut acts, Action::Reply(id, res), Ghost(ActionView::Reply(id, rv)));
                        proof {
                            vs = seq![ActionView::Reply(id, rv)];
                            assert(self@ == (LinkView { pending: v.pending.drop_first(), ..v }));
                        }
                    },
                    Resolution::Swallowed => {
                        proof {
                            assert(self@ == (LinkView { pending: v.pending.drop_first(), ..v }));
                        }
                    },
                    Resolution::NotPending => {
                        if job_active(job) {
                            self.job_ack(is_error, job, &mut acts);
                            proof {
                                let (j1, fin, j3, w) = choose|j1: Job, fin: bool, j3: Job, w: Seq<ActionView>|
                                    #[trigger] job_acked(j0.unwrap(), is_error, v, j1, fin, j3, *job, self@, w)
                                        && appended(seq![], acts@, w);
                                vs = w;
                                assert(job_acked(j0.unwrap(), is_error, v, j1, fin, j3, *job, self@, vs));
                            }
                        }
                    },
                }
            },
            None => {},
        }
        let ghost v1 = self@;
        let ghost mid = acts@;
        proof {
            lemma_appended_from_empty(acts@, vs);
            assert(ack_handled(v, j0, line@, v1, *job, vs));
        }
        let ja = job_active(job);
        self.route_line(line, rd, ja, &mut acts);
        acts
    }
}

// ---------------------------------------------------------------------------
// Commands from the user interface
// ---------------------------------------------------------------------------

/// Commands pushed down to the live socket.
pub enum WsCommand {
    /// A line of G-code or a `$` command (a trailing newline is added).
    Line(String),
    /// A single realtime character (e.g. '?', '!', '~', 0x18) sent as-is.
    Realtime(u8),
    /// A `$`/`$/` line whose firmware `ok`/`error:N` reply is reported back
    /// to the caller identified by `reply`.
    TrackedLine { line: String, reply: u64 },
    /// Start streaming a parsed G-code file from `start_index`.
    StartJob { lines: Vec<String>, path: String, start_index: usize },
    PauseJob,
    ResumeJob,
    StopJob,
    /// Dump the full machine config (`$CD`) and capture the streamed YAML.
    DumpConfig,
    /// The command channel closed.
    Closed,
}

/// A line as sent: with a trailing newline added unless it has one.
pub open spec fn with_newline(l: Seq<char>) -> Seq<char> {
    if l.len() > 0 && l.last() == '\n' {
        l
    } else {
        l.push('\n')
    }
}

fn newline_terminated(l: &str) -> (out: String)
    ensures
        out@ == with_newline(l@),
{
    let mut cs = chars_of(l);
    let n = cs.len();
    if n > 0 && cs[n - 1] == '\n' {
        string_of(cs.as_slice())
    } else {
        cs.push('\n');
        string_of(cs.as_slice())
    }
}

pub open spec fn text_of(s: Seq<char>) -> ActionView {
    ActionView::Send(WireView::Text(s))
}

pub open spec fn try_text(s: Seq<char>) -> ActionView {
    ActionView::TrySend(WireView::Text(s))
}

pub open spec fn try_byte(b: u8) -> ActionView {
    ActionView::TrySend(WireView::Binary(b))
}

pub open spec fn progress_now(job: Option<Job>, state: Option<Seq<char>>) -> Seq<ActionView> {
    notify(NoticeView::Progress(progress_of(job, state)))
}

/// The answers to tracked writes dropped by a config dump.
pub open spec fn superseded(ids: Seq<u64>) -> Seq<ActionView> {
    ids.map_values(|id: u64| ActionView::Reply(id, Err("superseded by a config dump"@)))
}

/// The effect of a command on the link, the job and the machine. A Maslow
/// action line is followed by an immediate `$MINFO`/`$GSTATE` poll and a
/// burst of `$GSTATE` polls, except while a file upload runs, when all
/// polling is suspended and only the line itself goes out.
pub open spec fn command_done(
    v: LinkView,
    job: Option<Job>,
    cmd: WsCommand,
    upload_active: bool,
    after: LinkView,
    after_job: Option<Job>,
    acts: Seq<ActionView>,
) -> bool {
    match cmd {
        WsCommand::Line(l) => if active(job) {
            &&& after == v && after_job == job
            &&& acts == notify(NoticeView::GrblLine("[blocked] stop the job to send manual commands"@))
        } else if action_verbs().contains(upper_seq(trim(l@))) && !upload_active {
            &&& after_job == job
            &&& after == (LinkView {
                pending: v.pending.push(PendingAck::Untracked).push(PendingAck::Untracked).push(
                    PendingAck::Untracked,
                ),
                burst: BURST_POLLS,
                ..v
            })
            &&& acts == seq![
                text_of(with_newline(l@)),
                try_text("$MINFO\n"@),
                try_text("$GSTATE\n"@),
                ActionView::RestartBurst,
            ]
        } else {
            &&& after_job == job
            &&& after == (LinkView { pending: v.pending.push(PendingAck::Untracked), ..v })
            &&& acts == seq![text_of(with_newline(l@))]
        },
        WsCommand::TrackedLine { line, reply } => if active(job) {
            &&& after == v && after_job == job
            &&& acts == seq![ActionView::Reply(reply, Err("a job is streaming"@))]
        } else {
            &&& after_job == job
            &&& after == (LinkView { pending: v.pending.push(PendingAck::Awaiting(reply)), ..v })
            &&& acts == seq![ActionView::SendTracked(with_newline(line@), reply)]
        },
        WsCommand::Realtime(b) => {
            &&& after == v
            &&& if b != 0x18 {
                after_job == job && acts == seq![ActionView::Send(WireView::Binary(b))]
            } else {
                match job {
                    None => after_job == job && acts == seq![ActionView::Send(WireView::Binary(b))]
                        + progress_now(None, Some("interrupted"@)),
                    Some(j) => exists|j1: Job|
                        {
                            &&& #[trigger] invalidated(j, j1)
                            &&& after_job == Some(persisted(j1))
                            &&& acts == seq![
                                ActionView::Send(WireView::Binary(b)),
                                ActionView::Persist(record_of(j1, "interrupted"@)),
                            ] + progress_now(after_job, Some("interrupted"@))
                        },
                }
            }
        },
        WsCommand::StartJob { lines, path, start_index } => {
            &&& after == v
            &&& after_job is Some
            &&& exists|j1: Job|
                {
                    &&& #[trigger] fresh(j1, path, lines, start_index)
                    &&& j1.wf()
                    &&& blocked(after_job.unwrap()) && filled(j1, after_job.unwrap())
                    &&& acts == seq![ActionView::Persist(record_of(j1, "running"@))] + sends(
                        sent_between(j1, after_job.unwrap()),
                    ) + progress_now(after_job, None)
                }
        },
        WsCommand::PauseJob => {
            &&& after == v
            &&& match job {
                None => after_job == job && acts == seq![try_byte(0x21)] + progress_now(None, None),
                Some(j) => {
                    let j1 = Job { paused: true, ..j };
                    &&& after_job == Some(persisted(j1))
                    &&& acts == seq![ActionView::Persist(record_of(j1, "interrupted"@)), try_byte(0x21)]
                        + progress_now(after_job, None)
                },
            }
        },
        WsCommand::ResumeJob => {
            &&& after == v
            &&& match job {
                None => after_job == job && acts == seq![try_byte(0x7e)] + progress_now(None, None),
                Some(j) => {
                    let j1 = Job { paused: false, ..j };
                    &&& after_job is Some
                    &&& blocked(after_job.unwrap()) && filled(j1, after_job.unwrap())
                    &&& acts == seq![try_byte(0x7e)] + sends(sent_between(j1, after_job.unwrap()))
                        + progress_now(after_job, None)
                },
            }
        },
        WsCommand::StopJob => {
            let r = refreshed(v, false);
            &&& after_job is None
            &&& after == r.0
            &&& acts == seq![try_byte(0x21), try_byte(0x18), ActionView::ClearSaved] + progress_now(
                None,
                None,
            ) + r.1
        },
        WsCommand::DumpConfig => if active(job) {
            &&& after == v && after_job == job
            &&& acts == notify(NoticeView::ConfigDumpError("stop the job to read the config"@))
        } else {
            &&& after_job == job
            &&& after == (LinkView { capture: Some(seq![]), burst: 0, pending: seq![], ..v })
            &&& acts == superseded(tracked_ids(v.pending)) + seq![text_of("$CD\n"@)]
        },
        WsCommand::Closed => {
            &&& after == v && after_job == job
            &&& acts == seq![ActionView::TrySend(WireView::Close), ActionView::Finish]
        },
    }
}

impl Link {
    fn cmd_line(&mut self, l: String, upload_active: bool, job: &mut Option<Job>) -> (acts: Vec<Action>)
        requires
            job_wf(*old(job)),
        ensures
            job_wf(*final(job)),
            exists|vs: Seq<ActionView>|
                #[trigger] command_done(old(self)@, *old(job), WsCommand::Line(l), upload_active, final(self)@, *final(job), vs)
                    && actions_are(acts@, vs),
    {
        let ghost v = self@;
        let ghost j0 = *job;
        let mut acts: Vec<Action> = Vec::new();
        let ghost mut vs: Seq<ActionView> = seq![];
        proof {
            lemma_appended_nothing(acts@);
        }
        {
                if job_active(job) {
                    let msg = own("[blocked] stop the job to send manual commands");
                    act(&mut acts, Action::Notify(Notice::GrblLine(msg)), Ghost(ActionView::Notify(NoticeView::GrblLine("[blocked] stop the job to send manual commands"@))));
                    proof {
                        vs = notify(NoticeView::GrblLine("[blocked] stop the job to send manual commands"@));
                    }
                } else {
                    let is_action = is_maslow_action(l.as_str());
                    let out = newline_terminated(l.as_str());
                    let ghost ov = out@;
                    act(&mut acts, Action::Send(Wire::Text(out)), Ghost(text_of(ov)));
                    self.pending.push_back(PendingAck::Untracked);
                    proof {
                        vs = seq![text_of(ov)];
                    }
                    if is_action && !upload_active {
                        let ghost a1 = acts@;
                        act(&mut acts, Action::TrySend(text("$MINFO\n")), Ghost(try_text("$MINFO\n"@)));
                        let ghost a2 = acts@;
                        act(&mut acts, Action::TrySend(text("$GSTATE\n")), Ghost(try_text("$GSTATE\n"@)));
                        let ghost a3 = acts@;
                        self.pending.push_back(PendingAck::Untracked);
                        self.pending.push_back(PendingAck::Untracked);
                        self.burst_remaining = BURST_POLLS;
                        act(&mut acts, Action::RestartBurst, Ghost(ActionView::RestartBurst));
                        proof {
                            lemma_appended_chain(seq![], a1, a2, vs, seq![try_text("$MINFO\n"@)]);
                            lemma_appended_chain(seq![], a2, a3, vs + seq![try_text("$MINFO\n"@)], seq![try_text("$GSTATE\n"@)]);
                            lemma_appended_chain(seq![], a3, acts@, vs + seq![try_text("$MINFO\n"@)] + seq![try_text("$GSTATE\n"@)], seq![ActionView::RestartBurst]);
                            vs = vs + seq![try_text("$MINFO\n"@)] + seq![try_text("$GSTATE\n"@)] + seq![ActionView::RestartBurst];
                            assert(vs =~= seq![text_of(with_newline(l@)), try_text("$MINFO\n"@), try_text("$GSTATE\n"@), ActionView::RestartBurst]);
                        }
                    }
                    proof {
                        assert(self@.pending =~= if is_action && !upload_active {
                            v.pending.push(PendingAck::Untracked).push(PendingAck::Untracked).push(PendingAck::Untracked)
                        } else {
                            v.pending.push(PendingAck::Untracked)
                        });
                    }
                }
            }
        proof {
            lemma_appended_from_empty(acts@, vs);
            assert(command_done(v, j0, WsCommand::Line(l), upload_active, self@, *job, vs));
        }
        acts
    }

    fn cmd_tracked(&mut self, line: String, reply: u64, upload_active: bool, job: &mut Option<Job>) -> (acts: Vec<Action>)
        requires
            job_wf(*old(job)),
        ensures
            job_wf(*final(job)),
            exists|vs: Seq<ActionView>|
                #[trigger] command_done(old(self)@, *old(job), (WsCommand::TrackedLine { line, reply }), upload_active, final(self)@, *final(job), vs)
                    && actions_are(acts@, vs),
    {
        let ghost v = self@;
        let ghost j0 = *job;
        let mut acts: Vec<Action> = Vec::new();
        let ghost mut vs: Seq<ActionView> = seq![];
        proof {
            lemma_appended_nothing(acts@);
        }
        {
                match tracked_line_rejected(job_active(job)) {
                    Some(reason) => {
                        act(&mut acts, Action::Reply(reply, Err(own(reason))), Ghost(ActionView::Reply(reply, Err("a job is streaming"@))));
                        proof {
                            vs = seq![ActionView::Reply(reply, Err("a job is streaming"@))];
                        }
                    },
                    None => {
                        let out = newline_terminated(line.as_str());
                        let ghost ov = out@;
                        act(&mut acts, Action::SendTracked(out, reply), Ghost(ActionView::SendTracked(ov, reply)));
                        self.pending.push_back(PendingAck::Awaiting(reply));
                        proof {
                            vs = seq![ActionView::SendTracked(ov, reply)];
                        }
                    },
                }
            }
        proof {
            lemma_appended_from_empty(acts@, vs);
            assert(command_done(v, j0, (WsCommand::TrackedLine { line, reply }), upload_active, self@, *job, vs));
        }
        acts
    }

    fn cmd_realtime(&mut self, b: u8, upload_active: bool, job: &mut Option<Job>) -> (acts: Vec<Action>)
        requires
            job_wf(*old(job)),
        ensures
            job_wf(*final(job)),
            exists|vs: Seq<ActionView>|
                #[trigger] command_done(old(self)@, *old(job), WsCommand::Realtime(b), upload_active, final(self)@, *final(job), vs)
                    && actions_are(acts@, vs),
    {
        let ghost v = self@;
        let ghost j0 = *job;
        let mut acts: Vec<Action> = Vec::new();
        let ghost mut vs: Seq<ActionView> = seq![];
        proof {
            lemma_appended_nothing(acts@);
        }
        {
                act(&mut acts, Action::Send(Wire::Binary(b)), Ghost(ActionView::Send(WireView::Binary(b))));
                proof {
                    vs = seq![ActionView::Send(WireView::Binary(b))];
                }
                if b == 0x18 {
                    let ghost a1 = acts@;
                    match job {
                        Some(j) => {
                            j.invalidate_inflight();
                            let ghost j1 = *j;
                            let rec = persist(j, "interrupted");
                            act(&mut acts, Action::Persist(rec), Ghost(ActionView::Persist(record_of(j1, "interrupted"@))));
                            proof {
                                lemma_appended_chain(seq![], a1, acts@, vs, seq![ActionView::Persist(record_of(j1, "interrupted"@))]);
                                vs = vs + seq![ActionView::Persist(record_of(j1, "interrupted"@))];
                            }
                        },
                        None => {},
                    }
                    let ghost a2 = acts@;
                    let p = job_progress(job, Some("interrupted"));
                    act(&mut acts, Action::Notify(Notice::Progress(p)), Ghost(ActionView::Notify(NoticeView::Progress(progress_of(*job, Some("interrupted"@))))));
                    proof {
                        lemma_appended_chain(seq![], a2, acts@, vs, progress_now(*job, Some("interrupted"@)));
                        vs = vs + progress_now(*job, Some("interrupted"@));
                        if j0 is Some {
                            let j1 = choose|j1: Job| invalidated(j0.unwrap(), j1) && *job == Some(persisted(j1));
                            assert(vs =~= seq![ActionView::Send(WireView::Binary(b)), ActionView::Persist(record_of(j1, "interrupted"@))] + progress_now(*job, Some("interrupted"@)));
                        }
                    }
                }
            }
        proof {
            lemma_appended_from_empty(acts@, vs);
            assert(command_done(v, j0, WsCommand::Realtime(b), upload_active, self@, *job, vs));
        }
        acts
    }

    fn cmd_start(&mut self, cmd: WsCommand, upload_active: bool, job: &mut Option<Job>) -> (acts: Vec<Action>)
        requires
            job_wf(*old(job)),
            cmd is StartJob,
        ensures
            job_wf(*final(job)),
            exists|vs: Seq<ActionView>|
                #[trigger] command_done(old(self)@, *old(job), cmd, upload_active, final(self)@, *final(job), vs)
                    && actions_are(acts@, vs),
    {
        let ghost v = self@;
        let ghost j0 = *job;
        let ghost c0 = cmd;
        let mut acts: Vec<Action> = Vec::new();
        let ghost mut vs: Seq<ActionView> = seq![];
        proof {
            lemma_appended_nothing(acts@);
        }
        match cmd {
            WsCommand::StartJob { lines, path, start_index } => {
                let ghost lv = lines;
                let ghost pv = path;
                let mut j = Job::new(path, lines, start_index);
                let ghost j1 = j;
                let rec = persist(&mut j, "running");
                act(&mut acts, Action::Persist(rec), Ghost(ActionView::Persist(record_of(j1, "running"@))));
                let ghost a1 = acts@;
                proof {
                    assert(j == j1);
                }
                pump(&mut j, &mut acts);
                let ghost a2 = acts@;
                *job = Some(j);
                let p = job_progress(job, None);
                act(&mut acts, Action::Notify(Notice::Progress(p)), Ghost(ActionView::Notify(NoticeView::Progress(progress_of(*job, None)))));
                proof {
                    let s1 = seq![ActionView::Persist(record_of(j1, "running"@))];
                    let s2 = sends(sent_between(j1, job.unwrap()));
                    lemma_appended_chain(seq![], a1, a2, s1, s2);
                    lemma_appended_chain(seq![], a2, acts@, s1 + s2, progress_now(*job, None));
                    vs = s1 + s2 + progress_now(*job, None);
                    assert(fresh(j1, pv, lv, start_index));
                    assert(j1.wf());
                    assert(blocked(job.unwrap()));
                    assert(filled(j1, job.unwrap()));
                    assert(vs == seq![ActionView::Persist(record_of(j1, "running"@))] + sends(sent_between(j1, job.unwrap())) + progress_now(*job, None));
                    assert(command_done(v, j0, c0, upload_active, self@, *job, vs));
                }
            },
            _ => {},
        }
        proof {
            lemma_appended_from_empty(acts@, vs);
            assert(command_done(v, j0, c0, upload_active, self@, *job, vs));
        }
        acts
    }

    fn cmd_pause(&mut self, upload_active: bool, job: &mut Option<Job>) -> (acts: Vec<Action>)
        requires
            job_wf(*old(job)),
        ensures
            job_wf(*final(job)),
            exists|vs: Seq<ActionView>|
                #[trigger] command_done(old(self)@, *old(job), WsCommand::PauseJob, upload_active, final(self)@, *final(job), vs)
                    && actions_are(acts@, vs),
    {
        let ghost v = self@;
        let ghost j0 = *job;
        let mut acts: Vec<Action> = Vec::new();
        let ghost mut vs: Seq<ActionView> = seq![];
        proof {
            lemma_appended_nothing(acts@);
        }
        {
                match job {
                    Some(j) => {
                        j.paused = true;
                        let ghost j1 = *j;
                        let rec = persist(j, "interrupted");
                        act(&mut acts, Action::Persist(rec), Ghost(ActionView::Persist(record_of(j1, "interrupted"@))));
                        proof {
                            vs = seq![ActionView::Persist(record_of(j1, "interrupted"@))];
                        }
                    },
                    None => {},
                }
                let ghost a1 = acts@;
                act(&mut acts, Action::TrySend(Wire::Binary(0x21)), Ghost(try_byte(0x21)));
                let ghost a2 = acts@;
                let p = job_progress(job, None);
                act(&mut acts, Action::Notify(Notice::Progress(p)), Ghost(ActionView::Notify(NoticeView::Progress(progress_of(*job, None)))));
                proof {
                    lemma_appended_chain(seq![], a1, a2, vs, seq![try_byte(0x21)]);
                    lemma_appended_chain(seq![], a2, acts@, vs + seq![try_byte(0x21)], progress_now(*job, None));
                    let head = vs;
                    vs = vs + seq![try_byte(0x21)] + progress_now(*job, None);
                    if j0 is Some {
                        assert(head.len() == 1);
                        assert(vs =~= seq![head[0], try_byte(0x21)] + progress_now(*job, None));
                    } else {
                        assert(vs =~= seq![try_byte(0x21)] + progress_now(*job, None));
                    }
                }
            }
        proof {
            lemma_appended_from_empty(acts@, vs);
            assert(command_done(v, j0, WsCommand::PauseJob, upload_active, self@, *job, vs));
        }
        acts
    }

    fn cmd_resume(&mut self, upload_active: bool, job: &mut Option<Job>) -> (acts: Vec<Action>)
        requires
            job_wf(*old(job)),
        ensures
            job_wf(*final(job)),
            exists|vs: Seq<ActionView>|
                #[trigger] command_done(old(self)@, *old(job), WsCommand::ResumeJob, upload_active, final(self)@, *final(job), vs)
                    && actions_are(acts@, vs),
    {
        let ghost v = self@;
        let ghost j0 = *job;
        let mut acts: Vec<Action> = Vec::new();
        let ghost mut vs: Seq<ActionView> = seq![];
        proof {
            lemma_appended_nothing(acts@);
        }
        {
                act(&mut acts, Action::TrySend(Wire::Binary(0x7e)), Ghost(try_byte(0x7e)));
                proof {
                    vs = seq![try_byte(0x7e)];
                }
                let ghost a1 = acts@;
                match job {
                    Some(j) => {
                        j.paused = false;
                        let ghost j1 = *j;
                        pump(j, &mut acts);
                        proof {
                            lemma_appended_chain(seq![], a1, acts@, vs, sends(sent_between(j1, *j)));
                            vs = vs + sends(sent_between(j1, *j));
                        }
                    },
                    None => {},
                }
                let ghost a2 = acts@;
                let p = job_progress(job, None);
                act(&mut acts, Action::Notify(Notice::Progress(p)), Ghost(ActionView::Notify(NoticeView::Progress(progress_of(*job, None)))));
                proof {
                    lemma_appended_chain(seq![], a2, acts@, vs, progress_now(*job, None));
                    vs = vs + progress_now(*job, None);
                }
            }
        proof {
            lemma_appended_from_empty(acts@, vs);
            assert(command_done(v, j0, WsCommand::ResumeJob, upload_active, self@, *job, vs));
        }
        acts
    }

    fn cmd_stop(&mut self, upload_active: bool, job: &mut Option<Job>) -> (acts: Vec<Action>)
        requires
            job_wf(*old(job)),
        ensures
            job_wf(*final(job)),
            exists|vs: Seq<ActionView>|
                #[trigger] command_done(old(self)@, *old(job), WsCommand::StopJob, upload_active, final(self)@, *final(job), vs)
                    && actions_are(acts@, vs),
    {
        let ghost v = self@;
        let ghost j0 = *job;
        let mut acts: Vec<Action> = Vec::new();
        let ghost mut vs: Seq<ActionView> = seq![];
        proof {
            lemma_appended_nothing(acts@);
        }
        {
                act(&mut acts, Action::TrySend(Wire::Binary(0x21)), Ghost(try_byte(0x21)));
                let ghost a1 = acts@;
                act(&mut acts, Action::TrySend(Wire::Binary(0x18)), Ghost(try_byte(0x18)));
                let ghost a2 = acts@;
                act(&mut acts, Action::ClearSaved, Ghost(ActionView::ClearSaved));
                let ghost a3 = acts@;
                *job = None;
                let p = job_progress(job, None);
                act(&mut acts, Action::Notify(Notice::Progress(p)), Ghost(ActionView::Notify(NoticeView::Progress(progress_of(None, None)))));
                let ghost a4 = acts@;
                self.refresh_policy(false, &mut acts);
                proof {
                    lemma_appended_chain(seq![], a1, a2, seq![try_byte(0x21)], seq![try_byte(0x18)]);
                    lemma_appended_chain(seq![], a2, a3, seq![try_byte(0x21)] + seq![try_byte(0x18)], seq![ActionView::ClearSaved]);
                    let s3 = seq![try_byte(0x21)] + seq![try_byte(0x18)] + seq![ActionView::ClearSaved];
                    lemma_appended_chain(seq![], a3, a4, s3, progress_now(None, None));
                    lemma_appended_chain(seq![], a4, acts@, s3 + progress_now(None, None), refreshed(v, false).1);
                    vs = s3 + progress_now(None, None) + refreshed(v, false).1;
                    assert(s3 =~= seq![try_byte(0x21), try_byte(0x18), ActionView::ClearSaved]);
                }
            }
        proof {
            lemma_appended_from_empty(acts@, vs);
            assert(command_done(v, j0, WsCommand::StopJob, upload_active, self@, *job, vs));
        }
        acts
    }

    fn cmd_dump(&mut self, upload_active: bool, job: &mut Option<Job>) -> (acts: Vec<Action>)
        requires
            job_wf(*old(job)),
        ensures
            job_wf(*final(job)),
            exists|vs: Seq<ActionView>|
                #[trigger] command_done(old(self)@, *old(job), WsCommand::DumpConfig, upload_active, final(self)@, *final(job), vs)
                    && actions_are(acts@, vs),
    {
        let ghost v = self@;
        let ghost j0 = *job;
        let mut acts: Vec<Action> = Vec::new();
        let ghost mut vs: Seq<ActionView> = seq![];
        proof {
            lemma_appended_nothing(acts@);
        }
        {
                if job_active(job) {
                    let msg = own("stop the job to read the config");
                    act(&mut acts, Action::Notify(Notice::ConfigDumpError(msg)), Ghost(ActionView::Notify(NoticeView::ConfigDumpError("stop the job to read the config"@))));
                    proof {
                        vs = notify(NoticeView::ConfigDumpError("stop the job to read the config"@));
                    }
                } else {
                    self.capture = Some(Capture { lines: Vec::new(), started: clock::now() });
                    self.burst_remaining = 0;
                    let ids = clear_pending(&mut self.pending);
                    let mut i: usize = 0;
                    proof {
                        assert(superseded(ids@.take(0)) =~= seq![]);
                    }
                    while i < ids.len()
                        invariant
                            i <= ids@.len(),
                            appended(seq![], acts@, superseded(ids@.take(i as int))),
                        decreases ids@.len() - i,
                    {
                        let ghost a1 = acts@;
                        let id = ids[i];
                        let msg = own("superseded by a config dump");
                        act(&mut acts, Action::Reply(id, Err(msg)), Ghost(ActionView::Reply(id, Err("superseded by a config dump"@))));
                        proof {
                            lemma_appended_chain(seq![], a1, acts@, superseded(ids@.take(i as int)), seq![ActionView::Reply(id, Err("superseded by a config dump"@))]);
                            assert(superseded(ids@.take(i as int)) + seq![ActionView::Reply(id, Err("superseded by a config dump"@))] =~= superseded(ids@.take(i + 1)));
                        }
                        i += 1;
                    }
                    let ghost a2 = acts@;
                    act(&mut acts, Action::Send(text("$CD\n")), Ghost(text_of("$CD\n"@)));
                    proof {
                        assert(ids@.take(ids@.len() as int) =~= ids@);
                        lemma_appended_chain(seq![], a2, acts@, superseded(ids@), seq![text_of("$CD\n"@)]);
                        vs = superseded(ids@) + seq![text_of("$CD\n"@)];
                        assert(self@.capture == Some(string_views(Seq::<String>::empty())));
                        assert(string_views(Seq::<String>::empty()) =~= seq![]);
                        assert(self@.pending =~= seq![]);
                    }
                }
            }
        proof {
            lemma_appended_from_empty(acts@, vs);
            assert(command_done(v, j0, WsCommand::DumpConfig, upload_active, self@, *job, vs));
        }
        acts
    }

    fn cmd_closed(&mut self, upload_active: bool, job: &mut Option<Job>) -> (acts: Vec<Action>)
        requires
            job_wf(*old(job)),
        ensures
            job_wf(*final(job)),
            exists|vs: Seq<ActionView>|
                #[trigger] command_done(old(self)@, *old(job), WsCommand::Closed, upload_active, final(self)@, *final(job), vs)
                    && actions_are(acts@, vs),
    {
        let ghost v = self@;
        let ghost j0 = *job;
        let mut acts: Vec<Action> = Vec::new();
        let ghost mut vs: Seq<ActionView> = seq![];
        proof {
            lemma_appended_nothing(acts@);
        }
        {
                act(&mut acts, Action::TrySend(Wire::Close), Ghost(ActionView::TrySend(WireView::Close)));
                let ghost a1 = acts@;
                act(&mut acts, Action::Finish, Ghost(ActionView::Finish));
                proof {
                    lemma_appended_chain(seq![], a1, acts@, seq![ActionView::TrySend(WireView::Close)], seq![ActionView::Finish]);
                    vs = seq![ActionView::TrySend(WireView::Close)] + seq![ActionView::Finish];
                    assert(vs =~= seq![ActionView::TrySend(WireView::Close), ActionView::Finish]);
                }
            }
        proof {
            lemma_appended_from_empty(acts@, vs);
            assert(command_done(v, j0, WsCommand::Closed, upload_active, self@, *job, vs));
        }
        acts
    }

    /// Carry out a command from the user interface.
    pub fn on_command(&mut self, cmd: WsCommand, upload_active: bool, job: &mut Option<Job>) -> (acts: Vec<Action>)
        requires
            job_wf(*old(job)),
        ensures
            job_wf(*final(job)),
            exists|vs: Seq<ActionView>|
                #[trigger] command_done(old(self)@, *old(job), cmd, upload_active, final(self)@, *final(job), vs)
                    && actions_are(acts@, vs),
    {
        match cmd {
            WsCommand::Line(l) => self.cmd_line(l, upload_active, job),
            WsCommand::TrackedLine { line, reply } => self.cmd_tracked(line, reply, upload_active, job),
            WsCommand::Realtime(b) => self.cmd_realtime(b, upload_active, job),
            WsCommand::StartJob { .. } => self.cmd_start(cmd, upload_active, job),
            WsCommand::PauseJob => self.cmd_pause(upload_active, job),
            WsCommand::ResumeJob => self.cmd_resume(upload_active, job),
            WsCommand::StopJob => self.cmd_stop(upload_active, job),
            WsCommand::DumpConfig => self.cmd_dump(upload_active, job),
            WsCommand::Closed => self.cmd_closed(upload_active, job),
        }
    }

    /// A tracked line could not be sent: drop the reply it was waiting for.
    pub fn abandon(&mut self, reply: u64)
        ensures
            old(self)@.pending.len() > 0 && old(self)@.pending.last() == PendingAck::Awaiting(reply)
                ==> final(self)@ == (LinkView { pending: old(self)@.pending.drop_last(), ..old(self)@ }),
            !(old(self)@.pending.len() > 0 && old(self)@.pending.last() == PendingAck::Awaiting(reply))
                ==> final(self)@ == old(self)@,
    {
        let n = self.pending.len();
        if n > 0 && self.pending[n - 1] == PendingAck::Awaiting(reply) {
            self.pending.pop_back();
        }
    }
}

// ---------------------------------------------------------------------------
// Timers
// ---------------------------------------------------------------------------

/// States in which FluidNC is moving.
pub open spec fn moving(fluidnc: Seq<char>) -> bool {
    fluidnc == "Run"@ || fluidnc == "Jog"@ || fluidnc == "Home"@ || fluidnc == "Homing"@
}

/// The machine is executing or holding a job we do not own (an SD-card
/// run) while the calibration state is stable: line polls must stay off
/// the wire then, or the firmware's update watchdog may latch an
/// emergency stop. A Maslow belt operation keeps the polls.
pub open spec fn unowned_run(v: LinkView) -> bool {
    let f = v.fluidnc;
    (f == "Run"@ || f == "Hold"@ || f == "Cycle"@ || f == "Door"@) && !(v.maslow is Some
        && state_busy(v.maslow.unwrap()))
}

/// The status-poll tick. During an upload the link stays quiet. Otherwise
/// it polls `?`, abandons a config capture that timed out, fails a link
/// that stayed silent too long, and adapts the poll period to motion.
pub open spec fn status_ticked(
    v: LinkView,
    upload_active: bool,
    capture_expired: bool,
    idle_expired: bool,
) -> (LinkView, Seq<ActionView>) {
    if upload_active {
        (v, seq![])
    } else {
        let poll = seq![ActionView::Send(WireView::Binary(0x3f))];
        let c = if v.capture is Some && capture_expired {
            (
                LinkView { capture: None, ..v },
                notify(NoticeView::ConfigDumpError("config dump timed out"@)),
            )
        } else {
            (v, seq![])
        };
        if idle_expired {
            (c.0, poll + c.1 + seq![ActionView::Fail("watchdog: no activity for 20s"@)])
        } else {
            let desired = if moving(v.fluidnc) { STATUS_FAST_MS } else { STATUS_IDLE_MS };
            if desired != v.period {
                (LinkView { period: desired, ..c.0 }, poll + c.1 + seq![ActionView::SetStatusPeriod(desired)])
            } else {
                (c.0, poll + c.1)
            }
        }
    }
}

/// The Maslow telemetry tick: `$MINFO` and `$GSTATE` unless an upload, a
/// capture, a job or an unowned run keeps the wire quiet.
pub open spec fn maslow_ticked(v: LinkView, upload_active: bool, job_active: bool) -> (
    LinkView,
    Seq<ActionView>,
) {
    if !upload_active && v.capture is None && !job_active && !unowned_run(v) {
        (
            LinkView { pending: v.pending.push(PendingAck::Untracked).push(PendingAck::Untracked), ..v },
            seq![try_text("$MINFO\n"@), try_text("$GSTATE\n"@)],
        )
    } else {
        (v, seq![])
    }
}

/// One fast follow-up `$GSTATE` after an action; the count goes down
/// whether or not the poll was allowed out.
pub open spec fn burst_ticked(v: LinkView, upload_active: bool, job_active: bool) -> (
    LinkView,
    Seq<ActionView>,
) {
    let v1 = LinkView { burst: (v.burst - 1) as u32, ..v };
    if !upload_active && !job_active && !unowned_run(v) {
        (LinkView { pending: v.pending.push(PendingAck::Untracked), ..v1 }, seq![try_text("$GSTATE\n"@)])
    } else {
        (v1, seq![])
    }
}

impl Link {
    /// Something arrived from the machine: the watchdog restarts from the
    /// current instant, which the clock gives and no contract states.
    pub fn touch(&mut self)
        ensures
            final(self)@ == old(self)@,
    {
        self.last_activity = clock::now();
    }

    /// Has the config capture, if any, run past its timeout? This reads the
    /// clock.
    pub fn capture_expired(&self) -> (b: bool)
        ensures
            b ==> self@.capture is Some,
    {
        match &self.capture {
            Some(c) => clock::older_than_secs(&c.started, CAPTURE_TIMEOUT_SECS),
            None => false,
        }
    }

    /// Has the machine been silent past the watchdog limit? This reads the
    /// clock.
    pub fn idle_expired(&self) -> (b: bool) {
        clock::older_than_secs(&self.last_activity, WATCHDOG_SECS)
    }

    /// Should the burst-poll timer fire?
    pub fn burst_armed(&self) -> (b: bool)
        ensures
            b == (self@.burst > 0),
    {
        self.burst_remaining > 0
    }

    /// Is the machine running a job we do not own?
    pub fn machine_running_unowned_job(&self) -> (b: bool)
        ensures
            b == unowned_run(self@),
    {
        let f = self.fluidnc_state.as_str();
        let busy = match self.tracker.current() {
            Some(s) => s.is_busy(),
            None => false,
        };
        (crate::text::str_eq(f, "Run") || crate::text::str_eq(f, "Hold") || crate::text::str_eq(
            f,
            "Cycle",
        ) || crate::text::str_eq(f, "Door")) && !busy
    }

    /// The status-poll tick, given what the clock says of the capture and
    /// of the silence.
    pub fn on_status_tick(&mut self, upload_active: bool, capture_expired: bool, idle_expired: bool) -> (acts: Vec<Action>)
        ensures
            final(self)@ == status_ticked(old(self)@, upload_active, capture_expired, idle_expired).0,
            actions_are(acts@, status_ticked(old(self)@, upload_active, capture_expired, idle_expired).1),
    {
        let ghost v = self@;
        let mut acts: Vec<Action> = Vec::new();
        if upload_active {
            self.touch();
            return acts;
        }
        act(&mut acts, Action::Send(Wire::Binary(0x3f)), Ghost(ActionView::Send(WireView::Binary(0x3f))));
        let ghost poll = seq![ActionView::Send(WireView::Binary(0x3f))];
        let ghost a1 = acts@;
        let ghost mut cv: Seq<ActionView> = seq![];
        proof {
            lemma_appended_nothing(acts@);
        }
        if self.capture.is_some() && capture_expired {
            self.capture = None;
            act(&mut acts, Action::Notify(Notice::ConfigDumpError(own("config dump timed out"))), Ghost(ActionView::Notify(NoticeView::ConfigDumpError("config dump timed out"@))));
            proof {
                cv = notify(NoticeView::ConfigDumpError("config dump timed out"@));
            }
        }
        let ghost a2 = acts@;
        proof {
            lemma_appended_chain(seq![], a1, a2, poll, cv);
        }
        if idle_expired {
            act(&mut acts, Action::Fail(own("watchdog: no activity for 20s")), Ghost(ActionView::Fail("watchdog: no activity for 20s"@)));
            proof {
                lemma_appended_chain(seq![], a2, acts@, poll + cv, seq![ActionView::Fail("watchdog: no activity for 20s"@)]);
                lemma_appended_from_empty(acts@, poll + cv + seq![ActionView::Fail("watchdog: no activity for 20s"@)]);
            }
            return acts;
        }
        let f = self.fluidnc_state.as_str();
        let is_moving = crate::text::str_eq(f, "Run") || crate::text::str_eq(f, "Jog")
            || crate::text::str_eq(f, "Home") || crate::text::str_eq(f, "Homing");
        let desired = if is_moving { STATUS_FAST_MS } else { STATUS_IDLE_MS };
        if desired != self.status_period_ms {
            self.status_period_ms = desired;
            act(&mut acts, Action::SetStatusPeriod(desired), Ghost(ActionView::SetStatusPeriod(desired)));
            proof {
                lemma_appended_chain(seq![], a2, acts@, poll + cv, seq![ActionView::SetStatusPeriod(desired)]);
                lemma_appended_from_empty(acts@, poll + cv + seq![ActionView::SetStatusPeriod(desired)]);
            }
        } else {
            proof {
                lemma_appended_from_empty(acts@, poll + cv);
            }
        }
        acts
    }

    /// The Maslow telemetry tick.
    pub fn on_maslow_tick(&mut self, upload_active: bool, job_active: bool) -> (acts: Vec<Action>)
        ensures
            final(self)@ == maslow_ticked(old(self)@, upload_active, job_active).0,
            actions_are(acts@, maslow_ticked(old(self)@, upload_active, job_active).1),
    {
        let mut acts: Vec<Action> = Vec::new();
        if !upload_active && self.capture.is_none() && !job_active && !self.machine_running_unowned_job() {
            act(&mut acts, Action::TrySend(text("$MINFO\n")), Ghost(try_text("$MINFO\n"@)));
            let ghost a1 = acts@;
            act(&mut acts, Action::TrySend(text("$GSTATE\n")), Ghost(try_text("$GSTATE\n"@)));
            self.pending.push_back(PendingAck::Untracked);
            self.pending.push_back(PendingAck::Untracked);
            proof {
                lemma_appended_chain(seq![], a1, acts@, seq![try_text("$MINFO\n"@)], seq![try_text("$GSTATE\n"@)]);
                lemma_appended_from_empty(acts@, seq![try_text("$MINFO\n"@)] + seq![try_text("$GSTATE\n"@)]);
                assert(seq![try_text("$MINFO\n"@)] + seq![try_text("$GSTATE\n"@)] =~= seq![try_text("$MINFO\n"@), try_text("$GSTATE\n"@)]);
            }
        }
        acts
    }

    /// A burst-poll tick; only while a burst is armed.
    pub fn on_burst_tick(&mut self, upload_active: bool, job_active: bool) -> (acts: Vec<Action>)
        requires
            old(self)@.burst > 0,
        ensures
            final(self)@ == burst_ticked(old(self)@, upload_active, job_active).0,
            actions_are(acts@, burst_ticked(old(self)@, upload_active, job_active).1),
    {
        let mut acts: Vec<Action> = Vec::new();
        if !upload_active && !job_active && !self.machine_running_unowned_job() {
            act(&mut acts, Action::TrySend(text("$GSTATE\n")), Ghost(try_text("$GSTATE\n"@)));
            self.pending.push_back(PendingAck::Untracked);
            proof {
                lemma_appended_from_empty(acts@, seq![try_text("$GSTATE\n"@)]);
            }
        }
        self.burst_remaining = self.burst_remaining - 1;
        acts
    }
}

// ---------------------------------------------------------------------------
// Opening and losing the socket
// ---------------------------------------------------------------------------

/// A link as it starts: connected, nothing known yet.
pub open spec fn initial_view() -> LinkView {
    LinkView {
        fluidnc: seq![],
        maslow: None,
        last_policy: None,
        capture: None,
        pending: seq![],
        cal_done: false,
        burst: 0,
        period: STATUS_FAST_MS,
    }
}

/// A socket just connected: announce it and the initial policy, so
/// realtime controls light up immediately.
pub fn link_opened(job_active: bool) -> (r: (Link, Vec<Action>))
    ensures
        r.0@ == refreshed(initial_view(), job_active).0,
        actions_are(
            r.1@,
            notify(NoticeView::WsState(WsState::Connected)) + refreshed(initial_view(), job_active).1,
        ),
{
    let mut link = Link::new();
    let mut acts: Vec<Action> = Vec::new();
    act(&mut acts, Action::Notify(Notice::WsState(WsState::Connected)), Ghost(ActionView::Notify(NoticeView::WsState(WsState::Connected))));
    let ghost a1 = acts@;
    link.refresh_policy(job_active, &mut acts);
    proof {
        lemma_appended_chain(seq![], a1, acts@, notify(NoticeView::WsState(WsState::Connected)), refreshed(initial_view(), job_active).1);
        lemma_appended_from_empty(acts@, notify(NoticeView::WsState(WsState::Connected)) + refreshed(initial_view(), job_active).1);
    }
    (link, acts)
}

/// What losing the socket does: report the error, if any, and the
/// disconnection; a live job is frozen at its last confirmed line (the
/// firmware buffer state is unknown), persisted as interrupted, and
/// reported so.
pub open spec fn link_lost(
    job: Option<Job>,
    error: Option<Seq<char>>,
    after_job: Option<Job>,
    acts: Seq<ActionView>,
) -> bool {
    let head = (match error {
        Some(e) => notify(NoticeView::WsError(e)),
        None => seq![],
    }) + notify(NoticeView::WsState(WsState::Disconnected));
    if active(job) {
        exists|j1: Job|
            {
                &&& #[trigger] invalidated(job.unwrap(), j1)
                &&& after_job == Some(persisted(j1))
                &&& acts == head + seq![ActionView::Persist(record_of(j1, "interrupted"@))]
                    + progress_now(after_job, Some("interrupted"@))
            }
    } else {
        after_job == job && acts == head
    }
}

pub open spec fn string_opt(o: Option<String>) -> Option<Seq<char>> {
    match o {
        Some(s) => Some(s@),
        None => None,
    }
}

/// The socket ended, normally or with `error`.
pub fn socket_ended(job: &mut Option<Job>, error: Option<String>) -> (acts: Vec<Action>)
    requires
        job_wf(*old(job)),
    ensures
        job_wf(*final(job)),
        exists|vs: Seq<ActionView>|
            #[trigger] link_lost(*old(job), string_opt(error), *final(job), vs) && actions_are(acts@, vs),
{
    let ghost j0 = *job;
    let ghost ev = string_opt(error);
    let mut acts: Vec<Action> = Vec::new();
    let ghost mut vs: Seq<ActionView> = seq![];
    proof {
        lemma_appended_nothing(acts@);
    }
    match error {
        Some(e) => {
            let ghost evv = e@;
            act(&mut acts, Action::Notify(Notice::WsError(e)), Ghost(ActionView::Notify(NoticeView::WsError(evv))));
            proof {
                vs = notify(NoticeView::WsError(evv));
            }
        },
        None => {},
    }
    let ghost a1 = acts@;
    act(&mut acts, Action::Notify(Notice::WsState(WsState::Disconnected)), Ghost(ActionView::Notify(NoticeView::WsState(WsState::Disconnected))));
    proof {
        lemma_appended_chain(seq![], a1, acts@, vs, notify(NoticeView::WsState(WsState::Disconnected)));
        vs = vs + notify(NoticeView::WsState(WsState::Disconnected));
    }
    if job_active(job) {
        match job {
            Some(j) => {
                j.invalidate_inflight();
                let ghost j1 = *j;
                let rec = persist(j, "interrupted");
                let ghost a2 = acts@;
                act(&mut acts, Action::Persist(rec), Ghost(ActionView::Persist(record_of(j1, "interrupted"@))));
                proof {
                    lemma_appended_chain(seq![], a2, acts@, vs, seq![ActionView::Persist(record_of(j1, "interrupted"@))]);
                    vs = vs + seq![ActionView::Persist(record_of(j1, "interrupted"@))];
                }
            },
            None => {},
        }
        let ghost a3 = acts@;
        let p = job_progress(job, Some("interrupted"));
        act(&mut acts, Action::Notify(Notice::Progress(p)), Ghost(ActionView::Notify(NoticeView::Progress(progress_of(*job, Some("interrupted"@))))));
        proof {
            lemma_appended_chain(seq![], a3, acts@, vs, progress_now(*job, Some("interrupted"@)));
            vs = vs + progress_now(*job, Some("interrupted"@));
        }
    }
    proof {
        lemma_appended_from_empty(acts@, vs);
        assert(link_lost(j0, ev, *job, vs));
    }
    acts
}

// ---------------------------------------------------------------------------
// Framing incoming text into lines
// ---------------------------------------------------------------------------

/// A line with every trailing `\r` and `\n` removed.
pub open spec fn strip_eol(s: Seq<char>) -> Seq<char>
    decreases s.len(),
{
    if s.len() > 0 && (s.last() == '\r' || s.last() == '\n') {
        strip_eol(s.drop_last())
    } else {
        s
    }
}

/// A piece with every trailing `\r` removed.
pub open spec fn strip_cr_all(s: Seq<char>) -> Seq<char>
    decreases s.len(),
{
    if s.len() > 0 && s.last() == '\r' {
        strip_cr_all(s.drop_last())
    } else {
        s
    }
}

/// The complete lines in buffered text and what remains after the last
/// `\n`.
pub open spec fn framed(s: Seq<char>) -> (Seq<Seq<char>>, Seq<char>)
    decreases s.len(),
{
    let j = find_char(s, '\n');
    if j < 0 {
        (seq![], s)
    } else {
        proof {
            crate::text::lemma_find(s, seq!['\n']);
        }
        let rest = framed(s.skip(j + 1));
        (seq![strip_eol(s.take(j + 1))] + rest.0, rest.1)
    }
}

fn strip_eol_exec(s: &[char]) -> (out: Vec<char>)
    ensures
        out@ == strip_eol(s@),
{
    let mut n = s.len();
    proof {
        assert(s@.take(n as int) =~= s@);
    }
    while n > 0 && (s[n - 1] == '\r' || s[n - 1] == '\n')
        invariant
            n <= s@.len(),
            strip_eol(s@.take(n as int)) == strip_eol(s@),
        decreases n,
    {
        proof {
            assert(s@.take(n as int).drop_last() =~= s@.take(n - 1));
        }
        n -= 1;
    }
    proof {
        assert(s@.take(0) =~= seq![]);
    }
    crate::text::slice_of(s, 0, n)
}

fn strip_cr_exec(s: &[char]) -> (out: Vec<char>)
    ensures
        out@ == strip_cr_all(s@),
{
    let mut n = s.len();
    proof {
        assert(s@.take(n as int) =~= s@);
    }
    while n > 0 && s[n - 1] == '\r'
        invariant
            n <= s@.len(),
            strip_cr_all(s@.take(n as int)) == strip_cr_all(s@),
        decreases n,
    {
        proof {
            assert(s@.take(n as int).drop_last() =~= s@.take(n - 1));
        }
        n -= 1;
    }
    crate::text::slice_of(s, 0, n)
}

/// Binary frames carry the GRBL stream in arbitrary pieces: text is
/// buffered until a `\n` completes a line.
pub struct LineBuffer {
    pub buf: Vec<char>,
}

impl LineBuffer {
    pub fn new() -> (b: LineBuffer)
        ensures
            b.buf@.len() == 0,
    {
        LineBuffer { buf: Vec::new() }
    }

    /// Append decoded text; return the lines it completed, without their
    /// line endings.
    pub fn push(&mut self, text: &str) -> (lines: Vec<String>)
        ensures
            string_views(lines@) == framed(old(self).buf@ + text@).0,
            final(self).buf@ == framed(old(self).buf@ + text@).1,
    {
        let t = chars_of(text);
        append(&mut self.buf, t.as_slice());
        let ghost all = self.buf@;
        let mut lines: Vec<String> = Vec::new();
        let nl = ['\n'];
        proof {
            assert(nl@ =~= seq!['\n']);
            assert(string_views(lines@) + framed(all).0 =~= framed(all).0);
        }
        loop
            invariant
                nl@ == seq!['\n'],
                all == old(self).buf@ + text@,
                string_views(lines@) + framed(self.buf@).0 == framed(all).0,
                framed(self.buf@).1 == framed(all).1,
            decreases self.buf@.len(),
        {
            match find_chars(self.buf.as_slice(), &nl) {
                Some(j) => {
                    proof {
                        crate::text::lemma_find(self.buf@, seq!['\n']);
                        assert(crate::text::matches_at(self.buf@, j as int, seq!['\n']));
                        assert(seq!['\n'].len() == 1);
                    }
                    let ghost b = self.buf@;
                    let n = self.buf.len();
                    let head = crate::text::slice_of(self.buf.as_slice(), 0, j + 1);
                    let rest = crate::text::slice_of(self.buf.as_slice(), j + 1, n);
                    let line = strip_eol_exec(head.as_slice());
                    let ghost prev = string_views(lines@);
                    lines.push(string_of(line.as_slice()));
                    self.buf = rest;
                    proof {
                        assert(head@ =~= b.take(j + 1));
                        assert(rest@ =~= b.skip(j + 1));
                        assert(string_views(lines@) =~= prev.push(strip_eol(b.take(j + 1))));
                        assert(framed(b).0 =~= seq![strip_eol(b.take(j + 1))] + framed(b.skip(j + 1)).0);
                        assert(string_views(lines@) + framed(self.buf@).0 =~= prev + framed(b).0);
                    }
                },
                None => {
                    proof {
                        assert(framed(self.buf@).0 =~= seq![]);
                        assert(string_views(lines@) + seq![] =~= string_views(lines@));
                    }
                    return lines;
                },
            }
        }
    }
}

/// Text frames carry whole lines: split at `\n`, each without trailing
/// `\r`s.
pub open spec fn text_lines(t: Seq<char>) -> Seq<Seq<char>> {
    split_on(t, '\n').map_values(|p: Seq<char>| strip_cr_all(p))
}

pub fn split_text_frame(t: &str) -> (lines: Vec<String>)
    ensures
        string_views(lines@) == text_lines(t@),
{
    let pieces = split_chars(chars_of(t).as_slice(), '\n');
    let ghost ps = char_views(pieces@);
    let mut lines: Vec<String> = Vec::new();
    let mut i: usize = 0;
    while i < pieces.len()
        invariant
            i <= pieces@.len(),
            ps == char_views(pieces@),
            ps == split_on(t@, '\n'),
            string_views(lines@) == ps.take(i as int).map_values(|p: Seq<char>| strip_cr_all(p)),
        decreases pieces@.len() - i,
    {
        let l = strip_cr_exec(pieces[i].as_slice());
        let ghost prev = string_views(lines@);
        lines.push(string_of(l.as_slice()));
        proof {
            assert(string_views(lines@) =~= prev.push(strip_cr_all(ps[i as int])));
            assert(ps.take(i + 1).map_values(|p: Seq<char>| strip_cr_all(p)) =~= ps.take(i as int).map_values(
                |p: Seq<char>| strip_cr_all(p),
            ).push(strip_cr_all(ps[i as int])));
        }
        i += 1;
    }
    proof {
        assert(ps.take(pieces@.len() as int) =~= ps);
    }
    lines
}

// ---------------------------------------------------------------------------
// Laws
// ---------------------------------------------------------------------------

/// Number of text lines an action list puts on the wire.
pub open spec fn text_frames(vs: Seq<ActionView>) -> nat
    decreases vs.len(),
{
    if vs.len() == 0 {
        0
    } else {
        text_frames(vs.drop_last()) + match vs.last() {
            ActionView::Send(WireView::Text(_)) => 1nat,
            ActionView::TrySend(WireView::Text(_)) => 1nat,
            ActionView::SendTracked(_, _) => 1nat,
            _ => 0nat,
        }
    }
}

/// Does the action put anything on the wire?
pub open spec fn on_wire(a: ActionView) -> bool {
    a is Send || a is TrySend || a is SendTracked
}

/// Every out-of-band line put on the wire (a manual line, the polls it
/// triggers, a tracked write, the telemetry and burst polls) adds exactly
/// one expected reply, so the firmware's in-order `ok`/`error` replies are
/// matched to them one for one and never counted against a job.
pub proof fn law_out_of_band_lines_expect_one_reply(
    v: LinkView,
    job: Option<Job>,
    cmd: WsCommand,
    upload_active: bool,
    after: LinkView,
    after_job: Option<Job>,
    vs: Seq<ActionView>,
)
    ensures
        (cmd is Line || cmd is TrackedLine) && command_done(v, job, cmd, upload_active, after, after_job, vs)
            ==> after.pending.len() == v.pending.len() + text_frames(vs),
        maslow_ticked(v, upload_active, active(job)).0.pending.len() == v.pending.len()
            + text_frames(maslow_ticked(v, upload_active, active(job)).1),
        v.burst > 0 ==> burst_ticked(v, upload_active, active(job)).0.pending.len() == v.pending.len()
            + text_frames(burst_ticked(v, upload_active, active(job)).1),
{
    reveal_with_fuel(text_frames, 5);
    let m = seq![try_text("$MINFO\n"@), try_text("$GSTATE\n"@)];
    assert(m.drop_last() =~= seq![try_text("$MINFO\n"@)]);
    assert(seq![try_text("$MINFO\n"@)].drop_last() =~= seq![]);
    let g = seq![try_text("$GSTATE\n"@)];
    assert(g.drop_last() =~= seq![]);
    if (cmd is Line || cmd is TrackedLine) && command_done(v, job, cmd, upload_active, after, after_job, vs) {
        match cmd {
            WsCommand::Line(l) => {
                if !active(job) {
                    let t = seq![text_of(with_newline(l@))];
                    assert(t.drop_last() =~= seq![]);
                    if action_verbs().contains(upper_seq(trim(l@))) && !upload_active {
                        let a = seq![text_of(with_newline(l@)), try_text("$MINFO\n"@), try_text("$GSTATE\n"@), ActionView::RestartBurst];
                        assert(a.drop_last() =~= seq![text_of(with_newline(l@)), try_text("$MINFO\n"@), try_text("$GSTATE\n"@)]);
                        assert(a.drop_last().drop_last() =~= seq![text_of(with_newline(l@)), try_text("$MINFO\n"@)]);
                        assert(a.drop_last().drop_last().drop_last() =~= t);
                    }
                } else {
                    let b = notify(NoticeView::GrblLine("[blocked] stop the job to send manual commands"@));
                    assert(b.drop_last() =~= seq![]);
                }
            },
            WsCommand::TrackedLine { line, reply } => {
                let t = seq![ActionView::SendTracked(with_newline(line@), reply)];
                assert(t.drop_last() =~= seq![]);
                let r = seq![ActionView::Reply(reply, Err("a job is streaming"@))];
                assert(r.drop_last() =~= seq![]);
            },
            _ => {},
        }
    }
}

/// While a job streams it owns the character-counted stream: manual
/// lines, tracked writes and config dumps are refused without touching the
/// wire, the link or the job.
pub proof fn law_job_owns_the_stream(
    v: LinkView,
    job: Option<Job>,
    cmd: WsCommand,
    upload_active: bool,
    after: LinkView,
    after_job: Option<Job>,
    vs: Seq<ActionView>,
)
    requires
        active(job),
        cmd is Line || cmd is TrackedLine || cmd is DumpConfig,
        command_done(v, job, cmd, upload_active, after, after_job, vs),
    ensures
        after == v,
        after_job == job,
        forall|i: int| 0 <= i < vs.len() ==> !on_wire(#[trigger] vs[i]),
{
}

/// An acknowledgement that answers an out-of-band command never reaches
/// the job: it is consumed from the front of the expected replies.
pub proof fn law_pending_ack_shields_job(
    v: LinkView,
    job: Option<Job>,
    line: Seq<char>,
    after: LinkView,
    after_job: Option<Job>,
    vs: Seq<ActionView>,
)
    requires
        ack_of(line) is Some,
        v.pending.len() > 0,
        ack_handled(v, job, line, after, after_job, vs),
    ensures
        after_job == job,
        after.pending == v.pending.drop_first(),
{
}

/// Stopping a job halts the machine: a feed hold, then a soft reset that
/// flushes the planner, and the job and its resume record are dropped.
pub proof fn law_stop_halts_machine(
    v: LinkView,
    job: Option<Job>,
    upload_active: bool,
    after: LinkView,
    after_job: Option<Job>,
    vs: Seq<ActionView>,
)
    requires
        command_done(v, job, WsCommand::StopJob, upload_active, after, after_job, vs),
    ensures
        after_job is None,
        vs.len() >= 3,
        vs[0] == try_byte(0x21),
        vs[1] == try_byte(0x18),
        vs[2] == ActionView::ClearSaved,
{
}

/// The action puts the realtime byte `b` on the wire.
pub open spec fn puts_byte(a: ActionView, b: u8) -> bool {
    a == ActionView::TrySend(WireView::Binary(b)) || a == ActionView::Send(WireView::Binary(b))
}

/// Pausing a job stops motion: the feed-hold byte `!` (0x21) goes on the
/// wire and the cycle-start byte `~` (0x7e) never does; a streaming job is
/// left paused, its cursor unchanged, and its resume record is saved as
/// interrupted before the hold is sent. Resuming is the mirror image: the
/// cycle-start byte goes out, the feed-hold byte never does, and the job is
/// no longer paused.
pub proof fn law_pause_holds_resume_releases(
    v: LinkView,
    job: Option<Job>,
    upload_active: bool,
    after: LinkView,
    after_job: Option<Job>,
    vs: Seq<ActionView>,
)
    ensures
        command_done(v, job, WsCommand::PauseJob, upload_active, after, after_job, vs) ==> {
            &&& exists|i: int| 0 <= i < vs.len() && puts_byte(#[trigger] vs[i], 0x21)
            &&& forall|i: int| 0 <= i < vs.len() ==> !puts_byte(#[trigger] vs[i], 0x7e)
            &&& job is Some ==> {
                &&& after_job is Some
                &&& after_job.unwrap().paused
                &&& after_job.unwrap().acked == job.unwrap().acked
                &&& after_job.unwrap().sent == job.unwrap().sent
                &&& vs[0] == ActionView::Persist(record_of(Job { paused: true, ..job.unwrap() }, "interrupted"@))
            }
        },
        command_done(v, job, WsCommand::ResumeJob, upload_active, after, after_job, vs) ==> {
            &&& exists|i: int| 0 <= i < vs.len() && puts_byte(#[trigger] vs[i], 0x7e)
            &&& forall|i: int| 0 <= i < vs.len() ==> !puts_byte(#[trigger] vs[i], 0x21)
            &&& job is Some ==> after_job is Some && !after_job.unwrap().paused
        },
{
    if command_done(v, job, WsCommand::PauseJob, upload_active, after, after_job, vs) {
        match job {
            None => {
                assert(puts_byte(vs[0], 0x21));
            },
            Some(j) => {
                assert(puts_byte(vs[1], 0x21));
            },
        }
    }
    if command_done(v, job, WsCommand::ResumeJob, upload_active, after, after_job, vs) {
        assert(puts_byte(vs[0], 0x7e));
        match job {
            None => {},
            Some(j) => {
                let j1 = Job { paused: false, ..j };
                let a = after_job.unwrap();
                assert forall|i: int| 0 <= i < vs.len() implies !puts_byte(#[trigger] vs[i], 0x21) by {
                    let s = sends(sent_between(j1, a));
                    if 1 <= i < 1 + s.len() {
                        assert(vs[i] == s[i - 1]);
                    }
                }
            },
        }
    }
}

/// The action policy is announced only when it changes: recomputing it
/// again with nothing changed announces nothing.
pub proof fn law_policy_announced_once(v: LinkView, job_active: bool)
    ensures
        refreshed(refreshed(v, job_active).0, job_active).0 == refreshed(v, job_active).0,
        refreshed(refreshed(v, job_active).0, job_active).1.len() == 0,
{
}

/// The calibration completion is announced once per run, whichever of the
/// state transition and the log line comes first.
pub proof fn law_completion_announced_once(v: LinkView)
    ensures
        completed(completed(v).0).1.len() == 0,
        completed(v).0.cal_done,
{
}

/// A soft reset or a lost socket freezes a live job at its last confirmed
/// line, paused, with nothing in flight: the resume point is exact.
pub proof fn law_flush_freezes_job(
    job: Option<Job>,
    error: Option<Seq<char>>,
    after_job: Option<Job>,
    vs: Seq<ActionView>,
)
    requires
        active(job),
        link_lost(job, error, after_job, vs),
    ensures
        after_job is Some,
        after_job.unwrap().sent == job.unwrap().acked,
        after_job.unwrap().acked == job.unwrap().acked,
        after_job.unwrap().paused,
        after_job.unwrap().inflight_view().len() == 0,
{
}

/// The first `c` of `x` is also the first of `x + y`.
proof fn lemma_find_char_prefix(x: Seq<char>, y: Seq<char>, c: char)
    requires
        find_char(x, c) >= 0,
    ensures
        find_char(x + y, c) == find_char(x, c),
{
    let j = find_char(x, c);
    let xy = x + y;
    crate::text::lemma_find(x, seq![c]);
    crate::text::lemma_find(xy, seq![c]);
    assert(x.subrange(j, j + 1) == seq![c]);
    assert(xy.subrange(j, j + 1) =~= x.subrange(j, j + 1));
    assert(crate::text::matches_at(xy, j, seq![c]));
    let f = find_char(xy, c);
    assert(f != -1);
    assert(f <= j);
    if f < j {
        assert(xy.subrange(f, f + 1) == seq![c]);
        assert(x.subrange(f, f + 1) =~= xy.subrange(f, f + 1));
        assert(crate::text::matches_at(x, f, seq![c]));
    }
}

/// The lines of a byte stream do not depend on how it was cut into frames:
/// buffering `a` and then `b` yields the lines, and leaves the remainder,
/// that buffering `a + b` at once does.
pub proof fn law_framing_ignores_frame_boundaries(buf: Seq<char>, a: Seq<char>, b: Seq<char>)
    ensures
        ({
            let first = framed(buf + a);
            let second = framed(first.1 + b);
            &&& first.0 + second.0 == framed(buf + a + b).0
            &&& second.1 == framed(buf + a + b).1
        }),
{
    lemma_framed_concat(buf + a, b);
    assert(buf + a + b =~= (buf + a) + b);
}

proof fn lemma_framed_concat(x: Seq<char>, y: Seq<char>)
    ensures
        framed(x).0 + framed(framed(x).1 + y).0 == framed(x + y).0,
        framed(framed(x).1 + y).1 == framed(x + y).1,
    decreases x.len(),
{
    let j = find_char(x, '\n');
    if j < 0 {
        assert(framed(x).0 =~= seq![]);
        assert(framed(x).1 == x);
        assert(seq![] + framed(x + y).0 =~= framed(x + y).0);
    } else {
        crate::text::lemma_find(x, seq!['\n']);
        lemma_find_char_prefix(x, y, '\n');
        let xy = x + y;
        assert(xy.take(j + 1) =~= x.take(j + 1));
        assert(xy.skip(j + 1) =~= x.skip(j + 1) + y);
        lemma_framed_concat(x.skip(j + 1), y);
        let head = seq![strip_eol(x.take(j + 1))];
        assert(framed(x).0 == head + framed(x.skip(j + 1)).0);
        assert(framed(xy).0 == head + framed(xy.skip(j + 1)).0);
        assert(head + framed(x.skip(j + 1)).0 + framed(framed(x.skip(j + 1)).1 + y).0 =~= head + (
        framed(x.skip(j + 1)).0 + framed(framed(x.skip(j + 1)).1 + y).0));
    }
}

/// A poll: a telemetry line the link sends of its own accord, or the
/// restart of the burst polling.
pub open spec fn is_poll(a: ActionView) -> bool {
    (a matches ActionView::TrySend(WireView::Text(_))) || a is RestartBurst
}

/// While a file upload runs the socket goes quiet: the status, telemetry
/// and burst ticks put nothing on the wire, the status tick leaves the link
/// as it was, and no command (not even a Maslow action line) triggers a
/// poll or re-arms the burst polling.
pub proof fn law_upload_silences_polls(
    v: LinkView,
    capture_expired: bool,
    idle_expired: bool,
    job_active: bool,
    job: Option<Job>,
    cmd: WsCommand,
    after: LinkView,
    after_job: Option<Job>,
    vs: Seq<ActionView>,
)
    ensures
        status_ticked(v, true, capture_expired, idle_expired) == (v, Seq::<ActionView>::empty()),
        maslow_ticked(v, true, job_active).1 == Seq::<ActionView>::empty(),
        burst_ticked(v, true, job_active).1 == Seq::<ActionView>::empty(),
        command_done(v, job, cmd, true, after, after_job, vs) ==> after.burst <= v.burst && forall|i: int|
            0 <= i < vs.len() ==> !is_poll(#[trigger] vs[i]),
{
    if command_done(v, job, cmd, true, after, after_job, vs) {
        lemma_commands_do_not_poll(v, job, cmd, after, after_job, vs);
    }
}

#[verifier::spinoff_prover]
#[verifier::rlimit(40)]
proof fn lemma_commands_do_not_poll(
    v: LinkView,
    job: Option<Job>,
    cmd: WsCommand,
    after: LinkView,
    after_job: Option<Job>,
    vs: Seq<ActionView>,
)
    requires
        command_done(v, job, cmd, true, after, after_job, vs),
    ensures
        after.burst <= v.burst,
        forall|i: int| 0 <= i < vs.len() ==> !is_poll(#[trigger] vs[i]),
{
    match cmd {
        WsCommand::DumpConfig => {
            if !active(job) {
                let ids = tracked_ids(v.pending);
                assert forall|i: int| 0 <= i < vs.len() implies !is_poll(#[trigger] vs[i]) by {
                    if i < ids.len() {
                        assert(vs[i] == superseded(ids)[i]);
                    }
                }
            }
        },
        _ => {},
    }
}

} // verus!
