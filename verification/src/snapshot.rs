//! The latest known value of every piece of telemetry, updated in lock-step
//! with the events the connection emits, so a reader can ask for the current
//! state without waiting for the next push.
//!
//! The readings that carry measurements (machine status, Maslow telemetry,
//! anchors, waypoints, calibration data) are type parameters: their numbers
//! are the caller's.

use crate::connection::{Discord, WsState};
use crate::fluidnc::ConfigEntry;
use crate::maslow::{ActionPolicy, StatePolicy};
use crate::streaming::Progress;
use vstd::prelude::*;

verus! {

/// Latest known value of each piece of telemetry.
pub struct MachineSnapshot<S, I, A> {
    pub status: Option<S>,
    pub action_policy: Option<ActionPolicy>,
    pub job_progress: Option<Progress>,
    pub maslow_info: Option<I>,
    pub maslow_state: Option<StatePolicy>,
    pub anchors: Option<A>,
    pub config_entries: Option<Vec<ConfigEntry>>,
    pub ws_state: WsState,
}

/// One update, mirroring an event emitted to the user interface, with the
/// same payload.
#[derive(Clone)]
pub enum MachineEvent<S, A, I, W, M, F, P> {
    WsState(WsState),
    WsError(String),
    GrblLine(String),
    MachineStatus(S),
    WsControl(String),
    ActionPolicy(ActionPolicy),
    Anchors(A),
    MaslowInfo(I),
    MaslowState(StatePolicy),
    Waypoint(W),
    Discord(Discord),
    CalMeasurements(M),
    CalFirmwareFit(F),
    CalFirmwareAnchors(P),
    CalComplete,
    ConfigDump(Vec<ConfigEntry>),
    ConfigDumpError(String),
    JobProgress(Progress),
}

impl<S, I, A> Default for MachineSnapshot<S, I, A> {
    /// Nothing known yet, socket disconnected.
    fn default() -> (s: MachineSnapshot<S, I, A>)
        ensures
            s.status is None,
            s.action_policy is None,
            s.job_progress is None,
            s.maslow_info is None,
            s.maslow_state is None,
            s.anchors is None,
            s.config_entries is None,
            s.ws_state == WsState::Disconnected,
    {
        MachineSnapshot {
            status: None,
            action_policy: None,
            job_progress: None,
            maslow_info: None,
            maslow_state: None,
            anchors: None,
            config_entries: None,
            ws_state: WsState::Disconnected,
        }
    }
}

impl<S, I, A> MachineSnapshot<S, I, A> {
    /// Record an event: the variants that represent durable state replace
    /// their field; the others (console lines, errors, one-off notices)
    /// leave the snapshot as it was.
    pub fn apply<W, M, F, P>(&mut self, event: MachineEvent<S, A, I, W, M, F, P>)
        ensures
            match event {
                MachineEvent::MachineStatus(s) => *final(self) == (MachineSnapshot { status: Some(s), ..*old(self) }),
                MachineEvent::ActionPolicy(p) => *final(self) == (MachineSnapshot { action_policy: Some(p), ..*old(self) }),
                MachineEvent::JobProgress(p) => *final(self) == (MachineSnapshot { job_progress: Some(p), ..*old(self) }),
                MachineEvent::MaslowInfo(i) => *final(self) == (MachineSnapshot { maslow_info: Some(i), ..*old(self) }),
                MachineEvent::MaslowState(s) => *final(self) == (MachineSnapshot { maslow_state: Some(s), ..*old(self) }),
                MachineEvent::Anchors(a) => *final(self) == (MachineSnapshot { anchors: Some(a), ..*old(self) }),
                MachineEvent::ConfigDump(c) => *final(self) == (MachineSnapshot { config_entries: Some(c), ..*old(self) }),
                MachineEvent::WsState(w) => *final(self) == (MachineSnapshot { ws_state: w, ..*old(self) }),
                _ => *final(self) == *old(self),
            },
    {
        match event {
            MachineEvent::MachineStatus(s) => self.status = Some(s),
            MachineEvent::ActionPolicy(p) => self.action_policy = Some(p),
            MachineEvent::JobProgress(p) => self.job_progress = Some(p),
            MachineEvent::MaslowInfo(i) => self.maslow_info = Some(i),
            MachineEvent::MaslowState(s) => self.maslow_state = Some(s),
            MachineEvent::Anchors(a) => self.anchors = Some(a),
            MachineEvent::ConfigDump(c) => self.config_entries = Some(c),
            MachineEvent::WsState(w) => self.ws_state = w,
            _ => {},
        }
    }
}

/// The name of an event's kind, as logs show it.
pub open spec fn event_name<S, A, I, W, M, F, P>(e: MachineEvent<S, A, I, W, M, F, P>) -> Seq<char> {
    match e {
        MachineEvent::WsState(_) => "WsState"@,
        MachineEvent::WsError(_) => "WsError"@,
        MachineEvent::GrblLine(_) => "GrblLine"@,
        MachineEvent::MachineStatus(_) => "MachineStatus"@,
        MachineEvent::WsControl(_) => "WsControl"@,
        MachineEvent::ActionPolicy(_) => "ActionPolicy"@,
        MachineEvent::Anchors(_) => "Anchors"@,
        MachineEvent::MaslowInfo(_) => "MaslowInfo"@,
        MachineEvent::MaslowState(_) => "MaslowState"@,
        MachineEvent::Waypoint(_) => "Waypoint"@,
        MachineEvent::Discord(_) => "Discord"@,
        MachineEvent::CalMeasurements(_) => "CalMeasurements"@,
        MachineEvent::CalFirmwareFit(_) => "CalFirmwareFit"@,
        MachineEvent::CalFirmwareAnchors(_) => "CalFirmwareAnchors"@,
        MachineEvent::CalComplete => "CalComplete"@,
        MachineEvent::ConfigDump(_) => "ConfigDump"@,
        MachineEvent::ConfigDumpError(_) => "ConfigDumpError"@,
        MachineEvent::JobProgress(_) => "JobProgress"@,
    }
}

impl<S, A, I, W, M, F, P> MachineEvent<S, A, I, W, M, F, P> {
    pub fn name(&self) -> (n: &'static str)
        ensures
            n@ == event_name(*self),
    {
        match self {
            MachineEvent::WsState(_) => "WsState",
            MachineEvent::WsError(_) => "WsError",
            MachineEvent::GrblLine(_) => "GrblLine",
            MachineEvent::MachineStatus(_) => "MachineStatus",
            MachineEvent::WsControl(_) => "WsControl",
            MachineEvent::ActionPolicy(_) => "ActionPolicy",
            MachineEvent::Anchors(_) => "Anchors",
            MachineEvent::MaslowInfo(_) => "MaslowInfo",
            MachineEvent::MaslowState(_) => "MaslowState",
            MachineEvent::Waypoint(_) => "Waypoint",
            MachineEvent::Discord(_) => "Discord",
            MachineEvent::CalMeasurements(_) => "CalMeasurements",
            MachineEvent::CalFirmwareFit(_) => "CalFirmwareFit",
            MachineEvent::CalFirmwareAnchors(_) => "CalFirmwareAnchors",
            MachineEvent::CalComplete => "CalComplete",
            MachineEvent::ConfigDump(_) => "ConfigDump",
            MachineEvent::ConfigDumpError(_) => "ConfigDumpError",
            MachineEvent::JobProgress(_) => "JobProgress",
        }
    }
}

} // verus!
