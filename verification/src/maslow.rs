//! The Maslow calibration state machine, as the firmware reports it
//! (`MaslowEnums.h`, `Calibration::requestStateChange`): the state codes, the
//! per-state action policy, the transition graph, the tracker that smooths
//! noisy state reports, and the unified action policy that reconciles the
//! FluidNC machine state, the calibration state and a streaming job.

use crate::clock;
use crate::fluidnc::{is_f64_literal, parses_as_f64};
use crate::text::{
    all_digits_exec, char_views, chars_of, digits_value, find, find_char, find_chars,
    int_literal_ok, is_ascii_digit, is_digit, is_whitespace, is_ws, literal_digits,
    literal_negative, literal_value, opt_text, own, parse_digits, rfind_char, rfind_char_exec,
    sign_len_exec, slice_eq, slice_of, split_once, split_once_chars, str_eq, string_of, trim,
    trim_chars,
};
use std::time::Instant;
use vstd::prelude::*;

verus! {

/// Maslow calibration state (firmware `MaslowEnums.h`). Unrecognised codes map
/// to `Unknown`.
#[derive(Clone, Copy, Debug, PartialEq, Eq, Structural)]
pub enum CalState {
    Unknown,
    Retracting,
    Retracted,
    Extending,
    ExtendedOut,
    TakingSlack,
    CalibrationInProgress,
    ReadyToCut,
    ReleaseTension,
    CalibrationComputing,
}

/// The firmware's numeric code of each state.
pub open spec fn state_code(s: CalState) -> i32 {
    match s {
        CalState::Unknown => 0,
        CalState::Retracting => 1,
        CalState::Retracted => 2,
        CalState::Extending => 3,
        CalState::ExtendedOut => 4,
        CalState::TakingSlack => 5,
        CalState::CalibrationInProgress => 6,
        CalState::ReadyToCut => 7,
        CalState::ReleaseTension => 8,
        CalState::CalibrationComputing => 9,
    }
}

/// The state a firmware code names; codes outside 1..=9 read as `Unknown`.
pub open spec fn state_of_code(code: i32) -> CalState {
    if code == 1 {
        CalState::Retracting
    } else if code == 2 {
        CalState::Retracted
    } else if code == 3 {
        CalState::Extending
    } else if code == 4 {
        CalState::ExtendedOut
    } else if code == 5 {
        CalState::TakingSlack
    } else if code == 6 {
        CalState::CalibrationInProgress
    } else if code == 7 {
        CalState::ReadyToCut
    } else if code == 8 {
        CalState::ReleaseTension
    } else if code == 9 {
        CalState::CalibrationComputing
    } else {
        CalState::Unknown
    }
}

/// Human-readable label of each state.
pub open spec fn state_label(s: CalState) -> Seq<char> {
    match s {
        CalState::Unknown => "Unknown"@,
        CalState::Retracting => "Retracting"@,
        CalState::Retracted => "Retracted"@,
        CalState::Extending => "Extending"@,
        CalState::ExtendedOut => "Extended"@,
        CalState::TakingSlack => "Taking Slack"@,
        CalState::CalibrationInProgress => "Calibrating"@,
        CalState::ReadyToCut => "Ready to Cut"@,
        CalState::ReleaseTension => "Releasing Tension"@,
        CalState::CalibrationComputing => "Computing"@,
    }
}

/// Transitional states: the machine is mid-operation.
pub open spec fn state_busy(s: CalState) -> bool {
    match s {
        CalState::Retracting | CalState::Extending | CalState::TakingSlack
        | CalState::CalibrationInProgress | CalState::ReleaseTension
        | CalState::CalibrationComputing => true,
        _ => false,
    }
}

impl CalState {
    /// Map a firmware-reported integer to a state; anything unexpected is
    /// `Unknown`.
    pub fn from_code(code: i32) -> (s: CalState)
        ensures
            s == state_of_code(code),
    {
        match code {
            1 => CalState::Retracting,
            2 => CalState::Retracted,
            3 => CalState::Extending,
            4 => CalState::ExtendedOut,
            5 => CalState::TakingSlack,
            6 => CalState::CalibrationInProgress,
            7 => CalState::ReadyToCut,
            8 => CalState::ReleaseTension,
            9 => CalState::CalibrationComputing,
            _ => CalState::Unknown,
        }
    }

    /// The numeric code, as the frontend and firmware use it.
    pub fn code(self) -> (c: i32)
        ensures
            c == state_code(self),
    {
        match self {
            CalState::Unknown => 0,
            CalState::Retracting => 1,
            CalState::Retracted => 2,
            CalState::Extending => 3,
            CalState::ExtendedOut => 4,
            CalState::TakingSlack => 5,
            CalState::CalibrationInProgress => 6,
            CalState::ReadyToCut => 7,
            CalState::ReleaseTension => 8,
            CalState::CalibrationComputing => 9,
        }
    }

    pub fn label(self) -> (l: &'static str)
        ensures
            l@ == state_label(self),
    {
        match self {
            CalState::Unknown => "Unknown",
            CalState::Retracting => "Retracting",
            CalState::Retracted => "Retracted",
            CalState::Extending => "Extending",
            CalState::ExtendedOut => "Extended",
            CalState::TakingSlack => "Taking Slack",
            CalState::CalibrationInProgress => "Calibrating",
            CalState::ReadyToCut => "Ready to Cut",
            CalState::ReleaseTension => "Releasing Tension",
            CalState::CalibrationComputing => "Computing",
        }
    }

    /// True while the machine is actively performing a transitional
    /// operation; only Retract / Stop / E-Stop are offered then.
    pub fn is_busy(self) -> (b: bool)
        ensures
            b == state_busy(self),
    {
        match self {
            CalState::Retracting | CalState::Extending | CalState::TakingSlack
            | CalState::CalibrationInProgress | CalState::ReleaseTension
            | CalState::CalibrationComputing => true,
            _ => false,
        }
    }
}

/// The user actions on the belts and the calibration.
#[derive(Clone, Copy, Debug, PartialEq, Eq, Structural)]
pub enum UserAction {
    Retract,
    Extend,
    TakeSlack,
    Calibrate,
    Comply,
    Stop,
    EStop,
}

/// The id the UI knows each action by.
pub open spec fn action_name(a: UserAction) -> Seq<char> {
    match a {
        UserAction::Retract => "retract"@,
        UserAction::Extend => "extend"@,
        UserAction::TakeSlack => "takeSlack"@,
        UserAction::Calibrate => "calibrate"@,
        UserAction::Comply => "comply"@,
        UserAction::Stop => "stop"@,
        UserAction::EStop => "estop"@,
    }
}

/// The calibration state the firmware enters when it performs an action;
/// Stop and E-Stop halt the motors without a state change of their own.
pub open spec fn action_target(a: UserAction) -> Option<CalState> {
    match a {
        UserAction::Retract => Some(CalState::Retracting),
        UserAction::Extend => Some(CalState::Extending),
        UserAction::TakeSlack => Some(CalState::TakingSlack),
        UserAction::Calibrate => Some(CalState::CalibrationInProgress),
        UserAction::Comply => Some(CalState::ReleaseTension),
        UserAction::Stop => None,
        UserAction::EStop => None,
    }
}

/// The actions offered in each state, in the order the UI lists them:
/// Retract, Stop and E-Stop always; the others only from the stable states
/// the firmware accepts them from.
pub open spec fn allowed_actions(s: CalState) -> Seq<UserAction> {
    let always = seq![UserAction::Retract, UserAction::Stop, UserAction::EStop];
    match s {
        CalState::Retracted => always.push(UserAction::Extend),
        CalState::ExtendedOut => always + seq![
            UserAction::Extend,
            UserAction::TakeSlack,
            UserAction::Calibrate,
            UserAction::Comply,
        ],
        CalState::ReadyToCut => always + seq![
            UserAction::TakeSlack,
            UserAction::Calibrate,
            UserAction::Comply,
        ],
        CalState::Unknown => always.push(UserAction::Comply),
        _ => always,
    }
}

/// The UI ids of the actions offered in a state.
pub open spec fn allowed_names(s: CalState) -> Seq<Seq<char>> {
    allowed_actions(s).map_values(|a: UserAction| action_name(a))
}

/// Whether the action is offered in the state.
pub fn allows(s: CalState, a: UserAction) -> (b: bool)
    ensures
        b == allowed_actions(s).contains(a),
{
    let r = match a {
        UserAction::Retract | UserAction::Stop | UserAction::EStop => true,
        UserAction::Extend => s == CalState::Retracted || s == CalState::ExtendedOut,
        UserAction::TakeSlack | UserAction::Calibrate => s == CalState::ExtendedOut || s
            == CalState::ReadyToCut,
        UserAction::Comply => s == CalState::ExtendedOut || s == CalState::ReadyToCut || s
            == CalState::Unknown,
    };
    proof {
        let al = allowed_actions(s);
        if r {
            if a == UserAction::Retract {
                assert(al[0] == a);
            } else if a == UserAction::Stop {
                assert(al[1] == a);
            } else if a == UserAction::EStop {
                assert(al[2] == a);
            } else if s == CalState::ExtendedOut {
                if a == UserAction::Extend { assert(al[3] == a); }
                else if a == UserAction::TakeSlack { assert(al[4] == a); }
                else if a == UserAction::Calibrate { assert(al[5] == a); }
                else { assert(al[6] == a); }
            } else if s == CalState::ReadyToCut {
                if a == UserAction::TakeSlack { assert(al[3] == a); }
                else if a == UserAction::Calibrate { assert(al[4] == a); }
                else { assert(al[5] == a); }
            } else {
                assert(al[3] == a);
            }
        } else {
            assert forall|i: int| 0 <= i < al.len() implies al[i] != a by {}
        }
    }
    r
}

/// The action policy the UI applies for a calibration state: which user
/// actions are offered and whether the machine is mid-operation.
#[derive(Clone, Debug)]
pub struct StatePolicy {
    pub code: i32,
    pub label: String,
    /// True while the machine is actively performing an operation.
    pub busy: bool,
    /// Allowed user action ids: retract, extend, takeSlack, calibrate,
    /// comply, stop, estop.
    pub allowed: Vec<String>,
}

/// The character sequences held by a list of strings.
pub open spec fn string_views(v: Seq<String>) -> Seq<Seq<char>> {
    v.map_values(|s: String| s@)
}

fn action_string(a: UserAction) -> (s: String)
    ensures
        s@ == action_name(a),
{
    match a {
        UserAction::Retract => own("retract"),
        UserAction::Extend => own("extend"),
        UserAction::TakeSlack => own("takeSlack"),
        UserAction::Calibrate => own("calibrate"),
        UserAction::Comply => own("comply"),
        UserAction::Stop => own("stop"),
        UserAction::EStop => own("estop"),
    }
}

fn push_action(v: &mut Vec<String>, a: UserAction)
    ensures
        string_views(final(v)@) == string_views(old(v)@).push(action_name(a)),
{
    let s = action_string(a);
    v.push(s);
    proof {
        assert(string_views(v@) =~= string_views(old(v)@).push(action_name(a)));
    }
}

/// Single source of truth for per-state allowed actions, derived from the
/// firmware's `Calibration::requestStateChange()`. Retract, Stop and E-Stop
/// are always offered (Retract is the only way out of a state frozen by a
/// Stop); the other actions need the specific stable source state the
/// firmware accepts them from.
pub fn policy_for(state: CalState) -> (p: StatePolicy)
    ensures
        p.code == state_code(state),
        p.label@ == state_label(state),
        p.busy == state_busy(state),
        string_views(p.allowed@) == allowed_names(state),
{
    let busy = state.is_busy();
    let mut allowed: Vec<String> = Vec::new();
    push_action(&mut allowed, UserAction::Retract);
    push_action(&mut allowed, UserAction::Stop);
    push_action(&mut allowed, UserAction::EStop);
    if !busy {
        match state {
            CalState::Retracted => push_action(&mut allowed, UserAction::Extend),
            CalState::ExtendedOut => {
                push_action(&mut allowed, UserAction::Extend);
                push_action(&mut allowed, UserAction::TakeSlack);
                push_action(&mut allowed, UserAction::Calibrate);
                push_action(&mut allowed, UserAction::Comply);
            },
            CalState::ReadyToCut => {
                push_action(&mut allowed, UserAction::TakeSlack);
                push_action(&mut allowed, UserAction::Calibrate);
                push_action(&mut allowed, UserAction::Comply);
            },
            CalState::Unknown => push_action(&mut allowed, UserAction::Comply),
            _ => {},
        }
    }
    proof {
        assert(string_views(allowed@) =~= allowed_names(state));
    }
    StatePolicy { code: state.code(), label: own(state.label()), busy, allowed }
}

/// The firmware's transition graph (the success conditions of
/// `Calibration::requestStateChange`). A re-report of the same state is
/// always valid.
pub open spec fn transition_ok(from: CalState, to: CalState) -> bool {
    from == to || match to {
        CalState::Unknown | CalState::Retracting => true,
        CalState::Retracted => from == CalState::Retracting,
        CalState::Extending => from == CalState::Retracted || from == CalState::ExtendedOut,
        CalState::ExtendedOut => from == CalState::Extending || from == CalState::TakingSlack
            || from == CalState::ReleaseTension || from == CalState::CalibrationComputing || from
            == CalState::CalibrationInProgress,
        CalState::TakingSlack => from == CalState::ExtendedOut || from == CalState::ReadyToCut,
        CalState::CalibrationInProgress => from == CalState::ExtendedOut || from
            == CalState::ReadyToCut || from == CalState::CalibrationComputing,
        CalState::CalibrationComputing => from == CalState::CalibrationInProgress,
        CalState::ReadyToCut => from == CalState::CalibrationInProgress || from
            == CalState::CalibrationComputing || from == CalState::TakingSlack,
        CalState::ReleaseTension => from == CalState::ReadyToCut || from == CalState::Unknown
            || from == CalState::ExtendedOut || from == CalState::CalibrationComputing,
    }
}

/// True if `from -> to` is a transition the firmware can actually perform.
pub fn valid_transition(from: CalState, to: CalState) -> (b: bool)
    ensures
        b == transition_ok(from, to),
{
    if from == to {
        return true;
    }
    match to {
        CalState::Unknown | CalState::Retracting => true,
        CalState::Retracted => from == CalState::Retracting,
        CalState::Extending => from == CalState::Retracted || from == CalState::ExtendedOut,
        CalState::ExtendedOut => from == CalState::Extending || from == CalState::TakingSlack
            || from == CalState::ReleaseTension || from == CalState::CalibrationComputing || from
            == CalState::CalibrationInProgress,
        CalState::TakingSlack => from == CalState::ExtendedOut || from == CalState::ReadyToCut,
        CalState::CalibrationInProgress => from == CalState::ExtendedOut || from
            == CalState::ReadyToCut || from == CalState::CalibrationComputing,
        CalState::CalibrationComputing => from == CalState::CalibrationInProgress,
        CalState::ReadyToCut => from == CalState::CalibrationInProgress || from
            == CalState::CalibrationComputing || from == CalState::TakingSlack,
        CalState::ReleaseTension => from == CalState::ReadyToCut || from == CalState::Unknown
            || from == CalState::ExtendedOut || from == CalState::CalibrationComputing,
    }
}

/// A calibration run ends when the firmware moves from calibrating or
/// computing to ready-to-cut.
pub open spec fn completes_calibration(from: CalState, to: CalState) -> bool {
    to == CalState::ReadyToCut && (from == CalState::CalibrationInProgress || from
        == CalState::CalibrationComputing)
}

pub fn is_calibration_completion(from: CalState, to: CalState) -> (b: bool)
    ensures
        b == completes_calibration(from, to),
{
    to == CalState::ReadyToCut && (from == CalState::CalibrationInProgress || from
        == CalState::CalibrationComputing)
}

/// Outcome of observing a reported state through the tracker.
#[derive(Clone, Copy, Debug, PartialEq, Eq, Structural)]
pub enum Observation {
    /// First state ever seen.
    First(CalState),
    /// Same as the current state; nothing to do.
    Unchanged,
    /// A legitimate transition; state updated.
    Valid(CalState),
    /// Invalid transition inside the debounce window: a late straggler,
    /// ignored (state not updated).
    Straggler { from: CalState, to: CalState },
    /// Invalid transition outside the debounce window: the machine's report
    /// prevails (state updated) but the discordance is reported.
    Discord { from: CalState, to: CalState },
}

/// What a reported state `to` makes of the accepted state `cur`, given the
/// time since the last accepted change: nothing when it is the same, a
/// transition when the firmware allows it, otherwise a straggler inside the
/// debounce window and a discord after it.
pub open spec fn settled(cur: CalState, to: CalState, elapsed_ms: u128, debounce_ms: u64) -> Observation {
    if cur == to {
        Observation::Unchanged
    } else if transition_ok(cur, to) {
        Observation::Valid(to)
    } else if elapsed_ms < debounce_ms {
        Observation::Straggler { from: cur, to }
    } else {
        Observation::Discord { from: cur, to }
    }
}

/// The tracker's step, given the time since the last accepted change: the
/// outcome, and the state accepted afterwards (unchanged for a straggler).
pub open spec fn observed_at(
    before: Option<CalState>,
    to: CalState,
    elapsed_ms: u128,
    debounce_ms: u64,
    o: Observation,
    after: Option<CalState>,
) -> bool {
    match before {
        None => o == Observation::First(to) && after == Some(to),
        Some(cur) => {
            &&& o == settled(cur, to, elapsed_ms, debounce_ms)
            &&& after == (if o is Unchanged || o is Straggler { before } else { Some(to) })
        },
    }
}

/// Decide a reported state against the accepted one, given the elapsed
/// milliseconds since the last accepted change.
pub fn debounce_outcome(cur: CalState, to: CalState, elapsed_ms: u128, debounce_ms: u64) -> (o: Observation)
    ensures
        o == settled(cur, to, elapsed_ms, debounce_ms),
{
    if cur == to {
        Observation::Unchanged
    } else if valid_transition(cur, to) {
        Observation::Valid(to)
    } else if elapsed_ms < debounce_ms as u128 {
        Observation::Straggler { from: cur, to }
    } else {
        Observation::Discord { from: cur, to }
    }
}

/// Tracks the authoritative Maslow calibration state. The machine's report
/// always wins, except that reports contradicting the transition graph and
/// landing just after a change are suppressed as stragglers.
pub struct StateTracker {
    current: Option<CalState>,
    last_change: Instant,
}

impl StateTracker {
    /// The state last accepted.
    pub closed spec fn state(&self) -> Option<CalState> {
        self.current
    }

    /// A tracker that has not seen any state yet.
    pub fn new() -> (t: StateTracker)
        ensures
            t.state() is None,
    {
        StateTracker { current: None, last_change: clock::now() }
    }

    pub fn current(&self) -> (s: Option<CalState>)
        ensures
            s == self.state(),
    {
        self.current
    }

    /// Feed one reported state. `debounce_ms` is the window after the last
    /// accepted change inside which an invalid transition is treated as a
    /// straggler; the time since that change is read from the clock, and the
    /// outcome is the one `debounce_outcome` gives for that reading.
    pub fn observe(&mut self, to: CalState, debounce_ms: u64) -> (o: Observation)
        ensures
            observation_ok(old(self).state(), to, debounce_ms, o, final(self).state()),
            exists|elapsed_ms: u128|
                #[trigger] observed_at(old(self).state(), to, elapsed_ms, debounce_ms, o, final(self).state()),
    {
        match self.current {
            None => {
                self.current = Some(to);
                self.last_change = clock::now();
                proof {
                    assert(observed_at(None, to, 0, debounce_ms, Observation::First(to), self.current));
                }
                Observation::First(to)
            },
            Some(cur) => {
                if cur == to {
                    proof {
                        assert(observed_at(Some(cur), to, 0, debounce_ms, Observation::Unchanged, self.current));
                    }
                    Observation::Unchanged
                } else if valid_transition(cur, to) {
                    self.current = Some(to);
                    self.last_change = clock::now();
                    proof {
                        assert(observed_at(Some(cur), to, 0, debounce_ms, Observation::Valid(to), self.current));
                    }
                    Observation::Valid(to)
                } else {
                    let d = clock::elapsed(&self.last_change);
                    let ms = clock::as_millis(&d);
                    let o = debounce_outcome(cur, to, ms, debounce_ms);
                    if let Observation::Discord { .. } = o {
                        self.current = Some(to);
                        self.last_change = clock::now();
                    }
                    proof {
                        assert(observed_at(Some(cur), to, ms, debounce_ms, o, self.current));
                    }
                    o
                }
            },
        }
    }
}

impl Default for StateTracker {
    /// A tracker that has not seen any state yet.
    fn default() -> (t: StateTracker)
        ensures
            t.state() is None,
    {
        StateTracker::new()
    }
}

/// What observing `to` from `before` may yield and leave as the state. An
/// invalid transition is a straggler (state kept) or a discord (state
/// replaced), depending on the time since the last change; with a zero
/// window it is always a discord.
pub open spec fn observation_ok(
    before: Option<CalState>,
    to: CalState,
    debounce_ms: u64,
    o: Observation,
    after: Option<CalState>,
) -> bool {
    match before {
        None => o == Observation::First(to) && after == Some(to),
        Some(cur) => if cur == to {
            o == Observation::Unchanged && after == before
        } else if transition_ok(cur, to) {
            o == Observation::Valid(to) && after == Some(to)
        } else {
            (debounce_ms > 0 && o == (Observation::Straggler { from: cur, to }) && after
                == before) || (o == (Observation::Discord { from: cur, to }) && after == Some(
                to,
            ))
        },
    }
}

/// Which UI actions are allowed right now (assuming a live connection).
#[derive(Clone, Copy, Debug, PartialEq, Eq, Structural)]
pub struct ActionPolicy {
    pub jog: bool,
    pub home: bool,
    pub unlock: bool,
    pub zero: bool,
    pub run: bool,
    pub hold: bool,
    pub resume: bool,
    pub reset: bool,
    pub retract: bool,
    pub extend: bool,
    pub take_slack: bool,
    pub calibrate: bool,
    pub comply: bool,
    pub stop: bool,
    pub estop: bool,
}

/// Whether the calibration state is known and offers the action.
pub open spec fn maslow_allows(maslow: Option<CalState>, a: UserAction) -> bool {
    match maslow {
        Some(s) => allowed_actions(s).contains(a),
        None => false,
    }
}

/// The unified action policy. Realtime controls follow the FluidNC state
/// (feed-hold while moving, resume while held, reset always). While a job
/// streams every line command is locked. Otherwise manual motion follows
/// the FluidNC state, starting a job needs Idle and tensioned belts
/// (ready-to-cut), Retract follows the calibration policy alone, and the
/// other belt actions also need a stable FluidNC state (Idle or Alarm).
pub open spec fn policy_spec(fluidnc: Seq<char>, maslow: Option<CalState>, job_active: bool) -> ActionPolicy {
    let idle = fluidnc == "Idle"@;
    let alarm = fluidnc == "Alarm"@;
    let jogging = fluidnc == "Jog"@;
    let stable = idle || alarm;
    let free = !job_active;
    ActionPolicy {
        hold: fluidnc == "Run"@ || fluidnc == "Jog"@ || fluidnc == "Home"@ || fluidnc == "Homing"@
            || fluidnc == "Cycle"@,
        resume: fluidnc == "Hold"@ || fluidnc == "Door"@,
        reset: true,
        jog: free && (idle || jogging),
        home: free && (idle || alarm),
        zero: free && idle,
        run: free && idle && maslow == Some(CalState::ReadyToCut),
        unlock: free,
        retract: free && maslow_allows(maslow, UserAction::Retract),
        extend: free && stable && maslow_allows(maslow, UserAction::Extend),
        take_slack: free && stable && maslow_allows(maslow, UserAction::TakeSlack),
        calibrate: free && stable && maslow_allows(maslow, UserAction::Calibrate),
        comply: free && stable && maslow_allows(maslow, UserAction::Comply),
        stop: free,
        estop: free,
    }
}

fn allows_opt(maslow: Option<CalState>, a: UserAction) -> (b: bool)
    ensures
        b == maslow_allows(maslow, a),
{
    match maslow {
        Some(s) => allows(s, a),
        None => false,
    }
}

/// Compute the allowed actions from the FluidNC state string, the Maslow
/// calibration state, and whether a G-code job is streaming.
pub fn action_policy(fluidnc: &str, maslow: Option<CalState>, job_active: bool) -> (p: ActionPolicy)
    ensures
        p == policy_spec(fluidnc@, maslow, job_active),
{
    let idle = str_eq(fluidnc, "Idle");
    let alarm = str_eq(fluidnc, "Alarm");
    let jogging = str_eq(fluidnc, "Jog");
    let stable = idle || alarm;
    let hold = str_eq(fluidnc, "Run") || str_eq(fluidnc, "Jog") || str_eq(fluidnc, "Home")
        || str_eq(fluidnc, "Homing") || str_eq(fluidnc, "Cycle");
    let resume = str_eq(fluidnc, "Hold") || str_eq(fluidnc, "Door");
    let mut p = ActionPolicy {
        jog: false,
        home: false,
        unlock: false,
        zero: false,
        run: false,
        hold,
        resume,
        reset: true,
        retract: false,
        extend: false,
        take_slack: false,
        calibrate: false,
        comply: false,
        stop: false,
        estop: false,
    };
    if !job_active {
        p.jog = idle || jogging;
        p.home = idle || alarm;
        p.zero = idle;
        p.run = idle && maslow == Some(CalState::ReadyToCut);
        p.unlock = true;
        p.retract = allows_opt(maslow, UserAction::Retract);
        p.extend = stable && allows_opt(maslow, UserAction::Extend);
        p.take_slack = stable && allows_opt(maslow, UserAction::TakeSlack);
        p.calibrate = stable && allows_opt(maslow, UserAction::Calibrate);
        p.comply = stable && allows_opt(maslow, UserAction::Comply);
        p.stop = true;
        p.estop = true;
    }
    p
}

// --- `[MSG:INFO: Current state: N]` ----------------------------------------

/// Number of leading characters of `s` that are not ASCII digits.
pub open spec fn lead_non_digits(s: Seq<char>) -> int
    decreases s.len(),
{
    if s.len() == 0 || is_digit(s[0]) {
        0
    } else {
        1 + lead_non_digits(s.drop_first())
    }
}

/// Number of leading ASCII digits of `s`.
pub open spec fn lead_digits(s: Seq<char>) -> int
    decreases s.len(),
{
    if s.len() > 0 && is_digit(s[0]) {
        1 + lead_digits(s.drop_first())
    } else {
        0
    }
}

/// The state number in a `Current state: N` line: the first run of digits
/// after the first `Current state:`, when there is one and it fits an `i32`.
pub open spec fn state_number(line: Seq<char>) -> Option<i32> {
    let pat = "Current state:"@;
    let i = find(line, pat);
    if i < 0 {
        None
    } else {
        let rest = line.skip(i + pat.len());
        let tail = rest.skip(lead_non_digits(rest));
        let d = tail.take(lead_digits(tail));
        if d.len() == 0 || digits_value(d) > i32::MAX {
            None
        } else {
            Some(digits_value(d) as i32)
        }
    }
}

proof fn lemma_lead_non_digits(s: Seq<char>)
    ensures
        0 <= lead_non_digits(s) <= s.len(),
        forall|i: int| 0 <= i < lead_non_digits(s) ==> !is_digit(#[trigger] s[i]),
        lead_non_digits(s) < s.len() ==> is_digit(s[lead_non_digits(s)]),
    decreases s.len(),
{
    if s.len() > 0 && !is_digit(s[0]) {
        lemma_lead_non_digits(s.drop_first());
        assert forall|i: int| 0 <= i < lead_non_digits(s) implies !is_digit(#[trigger] s[i]) by {
            if i > 0 {
                assert(s[i] == s.drop_first()[i - 1]);
            }
        }
    }
}

proof fn lemma_lead_non_digits_unique(s: Seq<char>, k: int)
    requires
        0 <= k <= s.len(),
        forall|i: int| 0 <= i < k ==> !is_digit(#[trigger] s[i]),
        k < s.len() ==> is_digit(s[k]),
    ensures
        lead_non_digits(s) == k,
    decreases s.len(),
{
    if k > 0 {
        assert(!is_digit(s[0]));
        let t = s.drop_first();
        assert forall|i: int| 0 <= i < k - 1 implies !is_digit(#[trigger] t[i]) by {
            assert(t[i] == s[i + 1]);
        }
        if k - 1 < t.len() {
            assert(t[k - 1] == s[k]);
        }
        lemma_lead_non_digits_unique(t, k - 1);
    }
}

proof fn lemma_lead_digits_unique(s: Seq<char>, k: int)
    requires
        0 <= k <= s.len(),
        forall|i: int| 0 <= i < k ==> is_digit(#[trigger] s[i]),
        k < s.len() ==> !is_digit(s[k]),
    ensures
        lead_digits(s) == k,
    decreases s.len(),
{
    if k > 0 {
        assert(is_digit(s[0]));
        let t = s.drop_first();
        assert forall|i: int| 0 <= i < k - 1 implies is_digit(#[trigger] t[i]) by {
            assert(t[i] == s[i + 1]);
        }
        if k - 1 < t.len() {
            assert(t[k - 1] == s[k]);
        }
        lemma_lead_digits_unique(t, k - 1);
    }
}

/// Parse a `[MSG:INFO: Current state: N]` line into the state number.
pub fn parse_state(line: &str) -> (r: Option<i32>)
    ensures
        r == state_number(line@),
{
    let s = chars_of(line);
    let pat = chars_of("Current state:");
    let idx = match find_chars(s.as_slice(), pat.as_slice()) {
        Some(i) => i,
        None => return None,
    };
    proof {
        crate::text::lemma_find(s@, pat@);
        assert(idx + pat@.len() <= s@.len());
        assert(s@.len() == s.len());
    }
    let start = idx + pat.len();
    let ghost rest = s@.skip(start as int);
    let mut j = start;
    while j < s.len() && !is_ascii_digit(s[j])
        invariant
            start <= j <= s@.len(),
            rest == s@.skip(start as int),
            forall|k: int| start <= k < j ==> !is_digit(#[trigger] s@[k]),
        decreases s@.len() - j,
    {
        j += 1;
    }
    proof {
        assert forall|k: int| 0 <= k < j - start implies !is_digit(#[trigger] rest[k]) by {
            assert(rest[k] == s@[start + k]);
        }
        if j < s@.len() {
            assert(rest[j - start] == s@[j as int]);
        }
        lemma_lead_non_digits_unique(rest, j - start);
    }
    let ghost tail = rest.skip(j - start);
    let mut e = j;
    while e < s.len() && is_ascii_digit(s[e])
        invariant
            j <= e <= s@.len(),
            tail == s@.skip(j as int),
            forall|k: int| j <= k < e ==> is_digit(#[trigger] s@[k]),
        decreases s@.len() - e,
    {
        e += 1;
    }
    proof {
        assert(tail =~= s@.skip(j as int));
        assert forall|k: int| 0 <= k < e - j implies is_digit(#[trigger] tail[k]) by {
            assert(tail[k] == s@[j + k]);
        }
        if e < s@.len() {
            assert(tail[e - j] == s@[e as int]);
        }
        lemma_lead_digits_unique(tail, e - j);
        assert(tail.take(e - j) =~= s@.subrange(j as int, e as int));
    }
    if e == j {
        return None;
    }
    match parse_digits(s.as_slice(), j, e, 2147483647) {
        Some(v) => Some(v as i32),
        None => None,
    }
}

// --- Laws -------------------------------------------------------------------

/// Every state code round-trips through `from_code`.
pub proof fn law_code_round_trip(s: CalState)
    ensures
        state_of_code(state_code(s)) == s,
{
}

/// Retract, Stop and E-Stop are offered in every calibration state: a state
/// frozen by a Stop can always be left by Retract.
pub proof fn law_recovery_always_offered(s: CalState)
    ensures
        allowed_actions(s).contains(UserAction::Retract),
        allowed_actions(s).contains(UserAction::Stop),
        allowed_actions(s).contains(UserAction::EStop),
{
    assert(allowed_actions(s)[0] == UserAction::Retract);
    assert(allowed_actions(s)[1] == UserAction::Stop);
    assert(allowed_actions(s)[2] == UserAction::EStop);
}

/// In a busy (transitional) state only the recovery actions are offered.
pub proof fn law_busy_offers_recovery_only(s: CalState)
    requires
        state_busy(s),
    ensures
        allowed_actions(s) == seq![UserAction::Retract, UserAction::Stop, UserAction::EStop],
{
}

/// Every action the policy offers is one the firmware accepts from that
/// state: its target state is a valid transition.
pub proof fn law_offered_actions_are_firmware_transitions(s: CalState, a: UserAction)
    requires
        allowed_actions(s).contains(a),
    ensures
        match action_target(a) {
            Some(t) => transition_ok(s, t),
            None => true,
        },
{
    let al = allowed_actions(s);
    let i = choose|i: int| 0 <= i < al.len() && al[i] == a;
    assert(al[i] == a);
}

/// A job may start only on an idle machine with tensioned belts
/// (ready-to-cut), and never while another job streams.
pub proof fn law_run_needs_idle_and_ready_to_cut(
    fluidnc: Seq<char>,
    maslow: Option<CalState>,
    job_active: bool,
)
    ensures
        policy_spec(fluidnc, maslow, job_active).run ==> (fluidnc == "Idle"@ && maslow == Some(
            CalState::ReadyToCut,
        ) && !job_active),
{
}

/// While a job streams, every line command is locked; only the realtime
/// controls (feed-hold, resume, reset) may be offered.
pub proof fn law_job_locks_line_commands(fluidnc: Seq<char>, maslow: Option<CalState>)
    ensures
        ({
            let p = policy_spec(fluidnc, maslow, true);
            !p.jog && !p.home && !p.unlock && !p.zero && !p.run && !p.retract && !p.extend
                && !p.take_slack && !p.calibrate && !p.comply && !p.stop && !p.estop
        }),
{
}

/// The soft reset is always offered on a live link.
pub proof fn law_reset_always_offered(fluidnc: Seq<char>, maslow: Option<CalState>, job_active: bool)
    ensures
        policy_spec(fluidnc, maslow, job_active).reset,
{
}

/// Homing (`$H`) is offered exactly when no job streams and FluidNC is Idle
/// or in Alarm: homing is the way out of Alarm, so with the link free an
/// Alarm always offers both homing and unlocking, whatever the calibration
/// state.
pub proof fn law_home_offered_in_idle_or_alarm(
    fluidnc: Seq<char>,
    maslow: Option<CalState>,
    job_active: bool,
)
    ensures
        policy_spec(fluidnc, maslow, job_active).home <==> (!job_active && (fluidnc == "Idle"@
            || fluidnc == "Alarm"@)),
        !job_active && fluidnc == "Alarm"@ ==> policy_spec(fluidnc, maslow, job_active).home
            && policy_spec(fluidnc, maslow, job_active).unlock,
{
}

/// Feed-hold and resume are never offered together.
pub proof fn law_hold_and_resume_exclusive(
    fluidnc: Seq<char>,
    maslow: Option<CalState>,
    job_active: bool,
)
    ensures
        !(policy_spec(fluidnc, maslow, job_active).hold && policy_spec(
            fluidnc,
            maslow,
            job_active,
        ).resume),
{
    reveal_strlit("Run");
    reveal_strlit("Jog");
    reveal_strlit("Home");
    reveal_strlit("Homing");
    reveal_strlit("Cycle");
    reveal_strlit("Hold");
    reveal_strlit("Door");
    let p = policy_spec(fluidnc, maslow, job_active);
    if p.hold && p.resume {
        if fluidnc == "Hold"@ {
            assert(fluidnc[0] == 'H' && fluidnc.len() == 4);
            assert(fluidnc != "Run"@);
            assert(fluidnc != "Jog"@);
            assert(fluidnc != "Cycle"@);
            assert(fluidnc != "Homing"@);
            assert(fluidnc[1] == 'o');
            assert(fluidnc[2] == 'l');
            assert(fluidnc != "Home"@ || "Home"@[2] == 'm');
        } else {
            assert(fluidnc == "Door"@);
            assert(fluidnc[0] == 'D');
        }
    }
}

/// Every belt or calibration action the unified policy offers is one the
/// firmware accepts from the current calibration state.
pub proof fn law_policy_follows_firmware_graph(
    fluidnc: Seq<char>,
    maslow: Option<CalState>,
    job_active: bool,
)
    ensures
        ({
            let p = policy_spec(fluidnc, maslow, job_active);
            &&& p.retract ==> maslow is Some
            &&& p.extend ==> maslow is Some && transition_ok(maslow.unwrap(), CalState::Extending)
            &&& p.take_slack ==> maslow is Some && transition_ok(maslow.unwrap(), CalState::TakingSlack)
            &&& p.calibrate ==> maslow is Some && transition_ok(
                maslow.unwrap(),
                CalState::CalibrationInProgress,
            )
            &&& p.comply ==> maslow is Some && transition_ok(maslow.unwrap(), CalState::ReleaseTension)
        }),
{
    if let Some(s) = maslow {
        let p = policy_spec(fluidnc, maslow, job_active);
        if p.extend {
            law_offered_actions_are_firmware_transitions(s, UserAction::Extend);
        }
        if p.take_slack {
            law_offered_actions_are_firmware_transitions(s, UserAction::TakeSlack);
        }
        if p.calibrate {
            law_offered_actions_are_firmware_transitions(s, UserAction::Calibrate);
        }
        if p.comply {
            law_offered_actions_are_firmware_transitions(s, UserAction::Comply);
        }
    }
}

/// Once a state has been reported the tracker always holds one; the
/// machine's report is adopted except when it is a straggler, and only an
/// invalid transition inside a non-zero debounce window can be one.
pub proof fn law_tracker_adopts_reports(
    before: Option<CalState>,
    to: CalState,
    debounce_ms: u64,
    o: Observation,
    after: Option<CalState>,
)
    requires
        observation_ok(before, to, debounce_ms, o, after),
    ensures
        after is Some,
        o is Straggler || after == Some(to),
        o is Straggler ==> (after == before && debounce_ms > 0 && !transition_ok(
            before.unwrap(),
            to,
        )),
        transition_ok(before.unwrap_or(to), to) ==> after == Some(to),
{
}

// ---------------------------------------------------------------------------
// Measurement lines, taken apart into their number texts
// ---------------------------------------------------------------------------

/// The JSON payload of a `MINFO:` telemetry line: the trimmed text after
/// the prefix of the trimmed line.
pub open spec fn minfo_payload_of(line: Seq<char>) -> Option<Seq<char>> {
    let t = trim(line);
    if crate::connection::has_prefix(t, "MINFO:"@) {
        Some(trim(t.skip("MINFO:"@.len() as int)))
    } else {
        None
    }
}

/// The JSON payload of a `MINFO:` line, or `None` when the line is not one;
/// reading the JSON is the caller's.
pub fn minfo_payload(line: &str) -> (r: Option<String>)
    ensures
        match r {
            Some(p) => minfo_payload_of(line@) == Some(p@),
            None => minfo_payload_of(line@) is None,
        },
{
    let t = trim_chars(chars_of(line).as_slice());
    if crate::connection::has_prefix_exec(t.as_slice(), "MINFO:") {
        proof {
            reveal_strlit("MINFO:");
        }
        let n = t.len();
        let rest = slice_of(t.as_slice(), 6, n);
        proof {
            assert(rest@ =~= t@.skip(6));
        }
        Some(string_of(trim_chars(rest.as_slice()).as_slice()))
    } else {
        None
    }
}


/// What `str::parse::<usize>` accepts: an optional `+`, at least one decimal
/// digit and nothing else, the value at most `usize::MAX`.
pub open spec fn usize_literal_ok(s: Seq<char>) -> bool {
    !literal_negative(s) && int_literal_ok(s, usize::MAX as int)
}

/// `str::parse::<usize>`.
pub fn parse_usize(s: &[char]) -> (r: Option<usize>)
    ensures
        match r {
            Some(v) => usize_literal_ok(s@) && v == literal_value(s@),
            None => !usize_literal_ok(s@),
        },
{
    let k = sign_len_exec(s);
    if k == 1 && s[0] == '-' {
        return None;
    }
    let n = s.len();
    let d = slice_of(s, k, n);
    proof {
        assert(d@ =~= literal_digits(s@));
    }
    if d.len() == 0 || !all_digits_exec(d.as_slice()) {
        return None;
    }
    proof {
        assert(d@.subrange(0, d@.len() as int) =~= d@);
    }
    match parse_digits(d.as_slice(), 0, d.len(), usize::MAX as u64) {
        Some(v) => Some(v as usize),
        None => None,
    }
}

/// Where a coordinate's number ends: at whitespace, a `]` or the end.
pub open spec fn value_end(s: Seq<char>) -> nat
    decreases s.len(),
{
    if s.len() == 0 || is_ws(s[0]) || s[0] == ']' {
        0
    } else {
        1 + value_end(s.drop_first())
    }
}

/// The text after the first `key` in `rest`, up to where its number ends;
/// `None` when `key` does not occur.
pub open spec fn value_after(rest: Seq<char>, key: Seq<char>) -> Option<Seq<char>> {
    let i = find(rest, key);
    if i < 0 {
        None
    } else {
        let s = rest.skip(i + key.len());
        Some(s.take(value_end(s) as int))
    }
}

/// A `[MSG:INFO: Waypoint N coordinates: X=.. Y=..]` line: the waypoint's
/// number and the number texts of its coordinates, when the number parses
/// as a `usize` and both coordinates as floats (`f32` and `f64` accept the
/// same grammar).
pub open spec fn waypoint_of(line: Seq<char>) -> Option<(int, Seq<char>, Seq<char>)> {
    let w = find(line, "Waypoint "@);
    if w < 0 {
        None
    } else {
        let rest = line.skip(w + "Waypoint "@.len());
        let ne = find_char(rest, ' ');
        if ne < 0 {
            None
        } else {
            let ns = rest.take(ne);
            match (value_after(rest, "X="@), value_after(rest, "Y="@)) {
                (Some(x), Some(y)) => {
                    if usize_literal_ok(ns) && is_f64_literal(x) && is_f64_literal(y) {
                        Some((literal_value(ns), x, y))
                    } else {
                        None
                    }
                },
                _ => None,
            }
        }
    }
}

/// A calibration grid waypoint: its number and the texts of its coordinates.
#[derive(Clone, Debug)]
pub struct WaypointTexts {
    pub n: usize,
    pub x: String,
    pub y: String,
}

fn value_end_exec(s: &[char]) -> (e: usize)
    ensures
        e == value_end(s@),
        e <= s@.len(),
{
    let mut i: usize = 0;
    proof {
        assert(s@.skip(0) =~= s@);
    }
    while i < s.len() && !(is_whitespace(s[i]) || s[i] == ']')
        invariant
            i <= s@.len(),
            value_end(s@) == i + value_end(s@.skip(i as int)),
        decreases s@.len() - i,
    {
        proof {
            assert(s@.skip(i as int).drop_first() =~= s@.skip(i + 1));
        }
        i += 1;
    }
    proof {
        if i < s@.len() {
            assert(s@.skip(i as int)[0] == s@[i as int]);
        }
    }
    i
}

fn value_after_exec(rest: &[char], key: &[char]) -> (r: Option<Vec<char>>)
    ensures
        match r {
            Some(v) => value_after(rest@, key@) == Some(v@),
            None => value_after(rest@, key@) is None,
        },
{
    match find_chars(rest, key) {
        None => None,
        Some(i) => {
            proof {
                crate::text::lemma_find(rest@, key@);
            }
            let n = rest.len();
            let s = slice_of(rest, i + key.len(), n);
            proof {
                assert(s@ =~= rest@.skip(i + key@.len()));
            }
            let e = value_end_exec(s.as_slice());
            let v = slice_of(s.as_slice(), 0, e);
            proof {
                assert(v@ =~= s@.take(e as int));
            }
            Some(v)
        },
    }
}

/// Take apart a waypoint report into its number and coordinate texts;
/// `None` when the line is not one or a part does not parse.
pub fn waypoint_texts(line: &str) -> (r: Option<WaypointTexts>)
    ensures
        match r {
            Some(w) => waypoint_of(line@) == Some((w.n as int, w.x@, w.y@)),
            None => waypoint_of(line@) is None,
        },
{
    let s = chars_of(line);
    let pat = chars_of("Waypoint ");
    let w = match find_chars(s.as_slice(), pat.as_slice()) {
        Some(w) => w,
        None => return None,
    };
    proof {
        crate::text::lemma_find(s@, pat@);
    }
    let n = s.len();
    let rest = slice_of(s.as_slice(), w + pat.len(), n);
    proof {
        assert(rest@ =~= s@.skip(w + pat@.len()));
    }
    let sp = [' '];
    proof {
        assert(sp@ =~= seq![' ']);
    }
    let ne = match find_chars(rest.as_slice(), &sp) {
        Some(e) => e,
        None => return None,
    };
    proof {
        crate::text::lemma_find(rest@, seq![' ']);
    }
    let ns = slice_of(rest.as_slice(), 0, ne);
    proof {
        assert(ns@ =~= rest@.take(ne as int));
    }
    let kx = chars_of("X=");
    let ky = chars_of("Y=");
    let num = parse_usize(ns.as_slice());
    let x = value_after_exec(rest.as_slice(), kx.as_slice());
    let y = value_after_exec(rest.as_slice(), ky.as_slice());
    match (num, x, y) {
        (Some(num), Some(x), Some(y)) => {
            let xs = string_of(x.as_slice());
            let ys = string_of(y.as_slice());
            if parses_as_f64(xs.as_str()) && parses_as_f64(ys.as_str()) {
                Some(WaypointTexts { n: num, x: xs, y: ys })
            } else {
                None
            }
        },
        _ => None,
    }
}

/// The position of an anchor key among the eight coordinates (tlX, tlY,
/// trX, trY, blX, blY, brX, brY), `-1` for any other key.
pub open spec fn anchor_slot(key: Seq<char>) -> int {
    if key == "tlX"@ {
        0
    } else if key == "tlY"@ {
        1
    } else if key == "trX"@ {
        2
    } else if key == "trY"@ {
        3
    } else if key == "blX"@ {
        4
    } else if key == "blY"@ {
        5
    } else if key == "brX"@ {
        6
    } else if key == "brY"@ {
        7
    } else {
        -1
    }
}

/// A config key's last path segment (`str::rsplit('/').next()`).
pub open spec fn last_segment(k: Seq<char>) -> Seq<char> {
    k.skip(rfind_char(k, '/') + 1)
}

/// Length of the run of non-whitespace at the start of `s`.
pub open spec fn word_end(s: Seq<char>) -> nat
    decreases s.len(),
{
    if s.len() == 0 || is_ws(s[0]) {
        0
    } else {
        1 + word_end(s.drop_first())
    }
}

pub proof fn lemma_word_end(s: Seq<char>)
    ensures
        word_end(s) <= s.len(),
        s.len() > 0 && !is_ws(s[0]) ==> word_end(s) >= 1,
    decreases s.len(),
{
    if s.len() > 0 && !is_ws(s[0]) {
        lemma_word_end(s.drop_first());
    }
}

/// `str::split_whitespace`: the maximal runs of non-whitespace, in order.
pub open spec fn words(s: Seq<char>) -> Seq<Seq<char>>
    decreases s.len(),
{
    if s.len() == 0 {
        seq![]
    } else if is_ws(s[0]) {
        words(s.drop_first())
    } else {
        let e = word_end(s) as int;
        proof {
            lemma_word_end(s);
        }
        seq![s.take(e)] + words(s.skip(e))
    }
}

/// The eight anchor coordinate texts, in slot order.
pub type AnchorView = Seq<Option<Seq<char>>>;

/// One `key=value` token applied to the coordinates seen so far and whether
/// any was: a token counts when its value parses as a float and its key's
/// last path segment names an anchor coordinate; a later one wins.
pub open spec fn take_anchor(acc: (AnchorView, bool), tok: Seq<char>) -> (AnchorView, bool) {
    match split_once(tok, '=') {
        None => acc,
        Some((k, v)) => {
            let slot = anchor_slot(last_segment(k));
            let val = trim(v);
            if !is_f64_literal(val) || slot < 0 {
                acc
            } else {
                (acc.0.update(slot, Some(val)), true)
            }
        },
    }
}

pub open spec fn no_anchors() -> AnchorView {
    seq![None, None, None, None, None, None, None, None]
}

pub open spec fn take_anchors(toks: Seq<Seq<char>>) -> (AnchorView, bool)
    decreases toks.len(),
{
    if toks.len() == 0 {
        (no_anchors(), false)
    } else {
        take_anchor(take_anchors(toks.drop_last()), toks.last())
    }
}

/// The anchor coordinate texts a config dump gives, `None` when it names
/// none.
pub open spec fn anchors_of(dump: Seq<char>) -> Option<AnchorView> {
    let r = take_anchors(words(dump));
    if r.1 {
        Some(r.0)
    } else {
        None
    }
}

/// The frame anchor coordinates a config dump gave, as number texts; a
/// coordinate the dump did not give reads as zero.
#[derive(Clone, Debug)]
pub struct AnchorTexts {
    pub tl_x: Option<String>,
    pub tl_y: Option<String>,
    pub tr_x: Option<String>,
    pub tr_y: Option<String>,
    pub bl_x: Option<String>,
    pub bl_y: Option<String>,
    pub br_x: Option<String>,
    pub br_y: Option<String>,
}

pub open spec fn anchor_slots(a: AnchorTexts) -> AnchorView {
    seq![
        opt_text(a.tl_x),
        opt_text(a.tl_y),
        opt_text(a.tr_x),
        opt_text(a.tr_y),
        opt_text(a.bl_x),
        opt_text(a.bl_y),
        opt_text(a.br_x),
        opt_text(a.br_y),
    ]
}

/// `str::split_whitespace`.
pub fn split_words(s: &[char]) -> (out: Vec<Vec<char>>)
    ensures
        char_views(out@) == words(s@),
{
    let mut out: Vec<Vec<char>> = Vec::new();
    let mut i: usize = 0;
    proof {
        assert(s@.skip(0) =~= s@);
        assert(char_views(out@) =~= seq![]);
    }
    while i < s.len()
        invariant
            i <= s@.len(),
            char_views(out@) + words(s@.skip(i as int)) == words(s@),
        decreases s@.len() - i,
    {
        let ghost t = s@.skip(i as int);
        if is_whitespace(s[i]) {
            proof {
                assert(t.drop_first() =~= s@.skip(i + 1));
            }
            i += 1;
        } else {
            let mut j = i;
            proof {
                assert(t.skip(0) =~= t);
            }
            while j < s.len() && !is_whitespace(s[j])
                invariant
                    i <= j <= s@.len(),
                    t == s@.skip(i as int),
                    word_end(t) == (j - i) + word_end(s@.skip(j as int)),
                decreases s@.len() - j,
            {
                proof {
                    assert(s@.skip(j as int).drop_first() =~= s@.skip(j + 1));
                }
                j += 1;
            }
            proof {
                if j < s@.len() {
                    assert(s@.skip(j as int)[0] == s@[j as int]);
                }
                assert(word_end(t) == j - i);
                lemma_word_end(t);
                assert(t.take(j - i) =~= s@.subrange(i as int, j as int));
                assert(t.skip(j - i) =~= s@.skip(j as int));
            }
            let ghost prev = char_views(out@);
            let w = slice_of(s, i, j);
            out.push(w);
            proof {
                assert(char_views(out@) =~= prev.push(s@.subrange(i as int, j as int)));
                assert(words(t) == seq![t.take(j - i)] + words(t.skip(j - i)));
                assert(prev + words(t) =~= char_views(out@) + words(s@.skip(j as int)));
            }
            i = j;
        }
    }
    proof {
        assert(s@.skip(i as int) =~= seq![]);
        assert(char_views(out@) + seq![] =~= char_views(out@));
    }
    out
}

fn anchor_slot_exec(key: &[char]) -> (r: usize)
    ensures
        r < 8 ==> anchor_slot(key@) == r,
        r >= 8 ==> anchor_slot(key@) == -1,
{
    let names = ["tlX", "tlY", "trX", "trY", "blX", "blY", "brX", "brY"];
    let mut k: usize = 0;
    while k < 8
        invariant
            k <= 8,
            names@ == seq!["tlX", "tlY", "trX", "trY", "blX", "blY", "brX", "brY"],
            forall|m: int| 0 <= m < k ==> key@ != (#[trigger] names@[m])@,
        decreases 8 - k,
    {
        let nm = chars_of(names[k]);
        if slice_eq(key, nm.as_slice()) {
            proof {
                assert(key@ == names@[k as int]@);
            }
            return k;
        }
        k += 1;
    }
    proof {
        assert(key@ != names@[0]@);
        assert(key@ != names@[1]@);
        assert(key@ != names@[2]@);
        assert(key@ != names@[3]@);
        assert(key@ != names@[4]@);
        assert(key@ != names@[5]@);
        assert(key@ != names@[6]@);
        assert(key@ != names@[7]@);
    }
    8
}

/// Take apart a firmware config dump (the echo of
/// `$/kinematics/MaslowKinematics/`) into the anchor coordinate texts: each
/// whitespace-separated `key=value` whose key's last path segment names a
/// coordinate and whose value parses as a float; `None` when none does.
pub fn anchor_texts(dump: &str) -> (r: Option<AnchorTexts>)
    ensures
        match r {
            Some(a) => anchors_of(dump@) == Some(anchor_slots(a)),
            None => anchors_of(dump@) is None,
        },
{
    let s = chars_of(dump);
    let toks = split_words(s.as_slice());
    let ghost ts = char_views(toks@);
    let mut a = AnchorTexts {
        tl_x: None,
        tl_y: None,
        tr_x: None,
        tr_y: None,
        bl_x: None,
        bl_y: None,
        br_x: None,
        br_y: None,
    };
    let mut found = false;
    let mut i: usize = 0;
    proof {
        assert(ts.take(0) =~= seq![]);
        assert(anchor_slots(a) =~= no_anchors());
    }
    while i < toks.len()
        invariant
            i <= toks@.len(),
            ts == char_views(toks@),
            take_anchors(ts.take(i as int)) == (anchor_slots(a), found),
        decreases toks@.len() - i,
    {
        proof {
            let t = ts.take(i + 1);
            assert(t.drop_last() =~= ts.take(i as int));
            assert(t.last() == toks@[i as int]@);
        }
        match split_once_chars(toks[i].as_slice(), '=') {
            None => {},
            Some((k, v)) => {
                let key = match rfind_char_exec(k.as_slice(), '/') {
                    Some(p) => {
                        proof {
                            crate::text::lemma_rfind_char(k@, '/');
                        }
                        let kn = k.len();
                        slice_of(k.as_slice(), p + 1, kn)
                    },
                    None => slice_of(k.as_slice(), 0, k.len()),
                };
                proof {
                    assert(key@ =~= last_segment(k@));
                }
                let val = trim_chars(v.as_slice());
                let vs = string_of(val.as_slice());
                let slot = anchor_slot_exec(key.as_slice());
                if parses_as_f64(vs.as_str()) && slot < 8 {
                    let ghost before = anchor_slots(a);
                    let ghost vv = vs@;
                    if slot == 0 {
                        a.tl_x = Some(vs);
                    } else if slot == 1 {
                        a.tl_y = Some(vs);
                    } else if slot == 2 {
                        a.tr_x = Some(vs);
                    } else if slot == 3 {
                        a.tr_y = Some(vs);
                    } else if slot == 4 {
                        a.bl_x = Some(vs);
                    } else if slot == 5 {
                        a.bl_y = Some(vs);
                    } else if slot == 6 {
                        a.br_x = Some(vs);
                    } else {
                        a.br_y = Some(vs);
                    }
                    proof {
                        assert(anchor_slots(a) =~= before.update(slot as int, Some(vv)));
                    }
                    found = true;
                }
            },
        }
        i += 1;
    }
    proof {
        assert(ts.take(toks@.len() as int) =~= ts);
    }
    if found {
        Some(a)
    } else {
        None
    }
}

} // verus!
