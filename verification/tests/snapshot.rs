use maslow_desktop::connection::WsState;
use maslow_desktop::grbl::{parse_status_frame, StatusFrame};
use maslow_desktop::snapshot::{MachineEvent, MachineSnapshot};
use maslow_desktop::streaming::Progress;

type Snap = MachineSnapshot<StatusFrame, (), ()>;
type Event = MachineEvent<StatusFrame, (), (), (), (), (), ()>;

fn status(state: &str) -> StatusFrame {
    parse_status_frame(&format!("<{}|MPos:0.000,0.000,0.000>", state)).unwrap()
}

#[test]
fn publish_updates_machine_status_snapshot() {
    let mut snap = Snap::default();
    snap.apply(Event::MachineStatus(status("Idle")));
    assert_eq!(snap.status.as_ref().map(|s| s.state.as_str()), Some("Idle"));
}

#[test]
fn publish_updates_job_progress_snapshot() {
    let mut snap = Snap::default();
    let progress = Progress {
        state: "running".to_string(),
        path: "/x.nc".to_string(),
        name: "x.nc".to_string(),
        sent: 1,
        acked: 0,
        total: 10,
        errors: 0,
    };
    snap.apply(Event::JobProgress(progress));
    assert_eq!(snap.job_progress.as_ref().map(|p| p.total), Some(10));
}

#[test]
fn publish_updates_ws_state_snapshot() {
    let mut snap = Snap::default();
    assert_eq!(snap.ws_state, WsState::Disconnected);
    snap.apply(Event::WsState(WsState::Connected));
    assert_eq!(snap.ws_state, WsState::Connected);
}

#[test]
fn publish_grbl_line_does_not_touch_snapshot() {
    let mut snap = Snap::default();
    snap.apply(Event::GrblLine("hello".to_string()));
    assert!(snap.status.is_none());
    assert!(snap.action_policy.is_none());
    assert!(snap.job_progress.is_none());
    assert!(snap.maslow_info.is_none());
    assert!(snap.maslow_state.is_none());
    assert!(snap.anchors.is_none());
    assert!(snap.config_entries.is_none());
    assert_eq!(snap.ws_state, WsState::Disconnected);
}

#[test]
fn later_status_replaces_earlier_one() {
    let mut snap = Snap::default();
    snap.apply(Event::MachineStatus(status("Idle")));
    snap.apply(Event::WsState(WsState::Connected));
    snap.apply(Event::MachineStatus(status("Run")));
    assert_eq!(snap.status.as_ref().map(|s| s.state.as_str()), Some("Run"));
    assert_eq!(snap.ws_state, WsState::Connected);
}

#[test]
fn event_names_match_their_kind() {
    assert_eq!(Event::CalComplete.name(), "CalComplete");
    assert_eq!(Event::GrblLine("x".to_string()).name(), "GrblLine");
    assert_eq!(Event::WsState(WsState::Connected).name(), "WsState");
}
