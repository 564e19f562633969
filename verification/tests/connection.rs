use maslow_desktop::connection::{
    ack_kind, clear_pending, is_console_chatter, is_control, is_maslow_action, link_opened,
    resolve_pending_ack, socket_ended, split_text_frame, tracked_line_rejected, Action, Link,
    LineBuffer, Notice, PendingAck, Readings, Resolution, Wire, WsCommand, WsState, BURST_POLLS,
    STATUS_IDLE_MS,
};
use maslow_desktop::streaming::Job;
use std::collections::VecDeque;

fn no_readings() -> Readings {
    Readings { maslow_info: false, waypoint: false, measurements: false, fit: false, anchors: false }
}

fn sent_texts(acts: &[Action]) -> Vec<String> {
    acts.iter()
        .filter_map(|a| match a {
            Action::Send(Wire::Text(t)) | Action::TrySend(Wire::Text(t)) => Some(t.clone()),
            Action::SendTracked(t, _) => Some(t.clone()),
            _ => None,
        })
        .collect()
}

#[test]
fn tracked_write_ok_resolves_ok() {
    let mut pending = VecDeque::new();
    pending.push_back(PendingAck::Awaiting(7));
    match resolve_pending_ack(&mut pending, false, "ok") {
        Resolution::Answered(id, result) => {
            assert_eq!(id, 7);
            assert_eq!(result, Ok(()));
        }
        other => panic!("expected a reply, got {other:?}"),
    }
    assert!(pending.is_empty());
}

#[test]
fn tracked_write_error_surfaces_firmware_text() {
    let mut pending = VecDeque::new();
    pending.push_back(PendingAck::Awaiting(1));
    match resolve_pending_ack(&mut pending, true, "error:3") {
        Resolution::Answered(_, result) => assert_eq!(result, Err("error:3".to_string())),
        other => panic!("expected a reply, got {other:?}"),
    }
}

#[test]
fn tracked_write_rejected_while_job_active() {
    assert_eq!(tracked_line_rejected(true), Some("a job is streaming"));
    assert_eq!(tracked_line_rejected(false), None);
}

#[test]
fn fifo_order_is_preserved_across_mixed_entries() {
    let mut pending = VecDeque::new();
    pending.push_back(PendingAck::Untracked);
    pending.push_back(PendingAck::Awaiting(2));
    assert!(matches!(resolve_pending_ack(&mut pending, false, "ok"), Resolution::Swallowed));
    assert_eq!(pending.len(), 1);
    match resolve_pending_ack(&mut pending, true, "error:9") {
        Resolution::Answered(2, result) => assert_eq!(result, Err("error:9".to_string())),
        other => panic!("expected a reply, got {other:?}"),
    }
}

#[test]
fn no_pending_entry_falls_through() {
    let mut pending = VecDeque::new();
    assert!(matches!(resolve_pending_ack(&mut pending, false, "ok"), Resolution::NotPending));
}

#[test]
fn clear_pending_resolves_tracked_entries_with_reason() {
    let mut pending = VecDeque::new();
    pending.push_back(PendingAck::Untracked);
    pending.push_back(PendingAck::Awaiting(5));
    let ids = clear_pending(&mut pending);
    assert!(pending.is_empty());
    assert_eq!(ids, vec![5]);
}

#[test]
fn line_predicates() {
    assert!(is_maslow_action("  $cal \n"));
    assert!(is_maslow_action("$ESTOP"));
    assert!(!is_maslow_action("$GSTATE"));
    assert_eq!(ack_kind(" ok "), Some(false));
    assert_eq!(ack_kind("error:20"), Some(true));
    assert_eq!(ack_kind("okay"), None);
    assert!(is_control("CURRENT_ID:3"));
    assert!(is_control("PING"));
    assert!(!is_control("[MSG:INFO: hi]"));
    assert!(!is_control("MINFO:{}"));
    assert!(is_console_chatter("  [MSG:INFO: Heartbeat]"));
    assert!(is_console_chatter("[MSG:INFO: TLC:1 TRC:2 BLC:3 BRC:4]"));
    assert!(!is_console_chatter("[MSG:INFO: TLC:1 TRC:2]"));
}

#[test]
fn binary_frames_are_buffered_into_lines() {
    let mut b = LineBuffer::new();
    assert!(b.push("<Idle|MPo").is_empty());
    assert_eq!(b.push("s:0,0,0>\r\nok\n[MSG"), vec!["<Idle|MPos:0,0,0>", "ok"]);
    assert_eq!(b.push(":x]\n"), vec!["[MSG:x]"]);
    assert_eq!(split_text_frame("a\r\nb\r\r\n"), vec!["a", "b", ""]);
}

#[test]
fn manual_line_is_sent_and_its_reply_expected() {
    let mut link = Link::new();
    let mut job: Option<Job> = None;
    let acts = link.on_command(WsCommand::Line("G0 X1".into()), false, &mut job);
    assert_eq!(sent_texts(&acts), vec!["G0 X1\n"]);
    assert_eq!(link.pending.len(), 1);
    // The reply answers the pending expectation and is only shown.
    let acts = link.handle_incoming("ok", no_readings(), &mut job);
    assert_eq!(acts.len(), 1);
    assert!(matches!(&acts[0], Action::Notify(Notice::GrblLine(l)) if l == "ok"));
    assert!(link.pending.is_empty());
}

#[test]
fn maslow_action_triggers_polls_and_a_burst() {
    let mut link = Link::new();
    let mut job: Option<Job> = None;
    let acts = link.on_command(WsCommand::Line("$CAL".into()), false, &mut job);
    assert_eq!(sent_texts(&acts), vec!["$CAL\n", "$MINFO\n", "$GSTATE\n"]);
    assert!(matches!(acts.last(), Some(Action::RestartBurst)));
    assert_eq!(link.pending.len(), 3);
    assert_eq!(link.burst_remaining, BURST_POLLS);
    assert!(link.burst_armed());
    let acts = link.on_burst_tick(false, false);
    assert_eq!(sent_texts(&acts), vec!["$GSTATE\n"]);
    assert_eq!(link.burst_remaining, BURST_POLLS - 1);
}

#[test]
fn job_blocks_manual_lines_and_tracked_writes() {
    let mut link = Link::new();
    let mut job: Option<Job> = None;
    let acts = link.on_command(
        WsCommand::StartJob { lines: vec!["G1 X1".into(), "G1 X2".into()], path: "/j.nc".into(), start_index: 0 },
        false, &mut job,
    );
    assert_eq!(sent_texts(&acts), vec!["G1 X1\n", "G1 X2\n"]);
    assert!(matches!(acts[0], Action::Persist(_)));
    let acts = link.on_command(WsCommand::Line("$H".into()), false, &mut job);
    assert!(sent_texts(&acts).is_empty());
    assert!(matches!(&acts[0], Action::Notify(Notice::GrblLine(m)) if m.starts_with("[blocked]")));
    let acts = link.on_command(WsCommand::TrackedLine { line: "$CO".into(), reply: 9 }, false, &mut job);
    assert!(matches!(&acts[0], Action::Reply(9, Err(e)) if e == "a job is streaming"));
    assert!(link.pending.is_empty());
}

#[test]
fn job_acks_drive_the_job_to_completion() {
    let mut link = Link::new();
    let mut job: Option<Job> = None;
    link.on_command(
        WsCommand::StartJob { lines: vec!["G1 X1".into(), "G1 X2".into()], path: "/j.nc".into(), start_index: 0 },
        false, &mut job,
    );
    let acts = link.handle_incoming("ok", no_readings(), &mut job);
    assert!(job.as_ref().unwrap().acked == 1);
    assert!(matches!(&acts[0], Action::Notify(Notice::Progress(p)) if p.acked == 1));
    assert!(matches!(&acts[1], Action::Notify(Notice::GrblLine(l)) if l == "ok"));
    let acts = link.handle_incoming("ok", no_readings(), &mut job);
    assert!(job.is_none(), "a finished job is dropped");
    assert!(acts.iter().any(|a| matches!(a, Action::ClearSaved)));
    assert!(acts.iter().any(|a| matches!(a, Action::Persist(r) if r.state == "done" && r.acked == 2)));
}

#[test]
fn poll_reply_racing_a_job_start_is_not_counted() {
    let mut link = Link::new();
    let mut job: Option<Job> = None;
    link.on_maslow_tick(false, false);
    assert_eq!(link.pending.len(), 2);
    link.on_command(
        WsCommand::StartJob { lines: vec!["G1 X1".into()], path: "/j.nc".into(), start_index: 0 },
        false, &mut job,
    );
    link.handle_incoming("ok", no_readings(), &mut job);
    link.handle_incoming("ok", no_readings(), &mut job);
    assert_eq!(job.as_ref().unwrap().acked, 0, "poll replies must not ack job lines");
    link.handle_incoming("ok", no_readings(), &mut job);
    assert!(job.is_none());
}

#[test]
fn status_report_updates_state_and_policy_once() {
    let mut link = Link::new();
    let mut acts = Vec::new();
    link.route_line("<Run|MPos:1,2,3|FS:500,0>", no_readings(), false, &mut acts);
    assert_eq!(link.fluidnc_state, "Run");
    assert!(matches!(&acts[0], Action::Notify(Notice::Status(f)) if f.state == "Run"));
    assert!(matches!(&acts[1], Action::Notify(Notice::Policy(p)) if p.hold));
    let mut again = Vec::new();
    link.route_line("<Run|MPos:1,2,4>", no_readings(), false, &mut again);
    assert_eq!(again.len(), 1, "an unchanged state does not re-announce the policy");
}

#[test]
fn calibration_completion_is_announced_once() {
    let mut link = Link::new();
    let mut acts = Vec::new();
    link.route_line("[MSG:INFO: Current state: 6]", no_readings(), false, &mut acts);
    link.route_line("[MSG:INFO: Current state: 7]", no_readings(), false, &mut acts);
    link.route_line("[MSG:INFO: Find Anchors complete]", no_readings(), false, &mut acts);
    let completions = acts.iter().filter(|a| matches!(a, Action::Notify(Notice::CalComplete))).count();
    assert_eq!(completions, 1);
}

#[test]
fn config_dump_is_captured_until_its_ok() {
    let mut link = Link::new();
    let mut job: Option<Job> = None;
    link.pending.push_back(PendingAck::Awaiting(4));
    let acts = link.on_command(WsCommand::DumpConfig, false, &mut job);
    assert!(matches!(&acts[0], Action::Reply(4, Err(e)) if e == "superseded by a config dump"));
    assert_eq!(sent_texts(&acts), vec!["$CD\n"]);
    for line in ["ok", "board: Maslow", "[MSG:INFO: poll]", "axes:", "  x:", "    steps_per_mm: 100"] {
        assert!(link.handle_incoming(line, no_readings(), &mut job).is_empty());
    }
    let acts = link.handle_incoming("ok", no_readings(), &mut job);
    match &acts[0] {
        Action::Notify(Notice::ConfigDump(entries, synthetic)) => {
            assert_eq!(entries.len(), 2);
            assert_eq!(synthetic, "board=Maslow\naxes/x/steps_per_mm=100\n");
        }
        other => panic!("expected a config dump, got {other:?}"),
    }
    assert!(link.capture.is_none());
}

#[test]
fn status_tick_polls_and_adapts_its_period() {
    let mut link = Link::new();
    let acts = link.on_status_tick(false, false, false);
    assert!(matches!(acts[0], Action::Send(Wire::Binary(b'?'))));
    assert!(matches!(acts[1], Action::SetStatusPeriod(p) if p == STATUS_IDLE_MS));
    let acts = link.on_status_tick(false, false, true);
    assert!(matches!(&acts[1], Action::Fail(e) if e == "watchdog: no activity for 20s"));
    assert!(link.on_status_tick(true, false, true).is_empty());
}

#[test]
fn soft_reset_and_lost_socket_freeze_the_job() {
    let mut link = Link::new();
    let mut job: Option<Job> = None;
    link.on_command(
        WsCommand::StartJob { lines: vec!["G1 X1".into(), "G1 X2".into()], path: "/j.nc".into(), start_index: 0 },
        false, &mut job,
    );
    let acts = link.on_command(WsCommand::Realtime(0x18), false, &mut job);
    assert!(matches!(acts[0], Action::Send(Wire::Binary(0x18))));
    let j = job.as_ref().unwrap();
    assert!(j.paused && j.sent == 0 && j.acked == 0);
    let acts = socket_ended(&mut job, Some("reset by peer".into()));
    assert!(matches!(&acts[0], Action::Notify(Notice::WsError(e)) if e == "reset by peer"));
    assert!(matches!(acts[1], Action::Notify(Notice::WsState(WsState::Disconnected))));
}

#[test]
fn stop_job_halts_and_unlocks() {
    let (mut link, acts) = link_opened(false);
    assert!(matches!(acts[0], Action::Notify(Notice::WsState(WsState::Connected))));
    let mut job: Option<Job> = None;
    link.on_command(
        WsCommand::StartJob { lines: vec!["G1 X1".into()], path: "/j.nc".into(), start_index: 0 },
        false, &mut job,
    );
    let acts = link.on_command(WsCommand::StopJob, false, &mut job);
    assert!(matches!(acts[0], Action::TrySend(Wire::Binary(0x21))));
    assert!(matches!(acts[1], Action::TrySend(Wire::Binary(0x18))));
    assert!(matches!(acts[2], Action::ClearSaved));
    assert!(job.is_none());
}

#[test]
fn framing_ignores_frame_boundaries() {
    let mut split = maslow_desktop::connection::LineBuffer::new();
    let mut lines = split.push("ok\r\n<Idle|MPo");
    lines.extend(split.push("s:0,0,0>\nMINFO: {"));
    let mut whole = maslow_desktop::connection::LineBuffer::new();
    let all = whole.push("ok\r\n<Idle|MPos:0,0,0>\nMINFO: {");
    assert_eq!(lines, all);
    assert_eq!(lines, vec!["ok".to_string(), "<Idle|MPos:0,0,0>".to_string()]);
    assert_eq!(split.buf, whole.buf);
}

#[test]
fn readings_follow_the_line() {
    let r = maslow_desktop::connection::readings_of("[MSG:INFO: Waypoint 3 coordinates: X=1 Y=2]", false);
    assert!(r.waypoint && !r.measurements && !r.fit && !r.anchors && !r.maslow_info);
    let r = maslow_desktop::connection::readings_of("[MSG:INFO: CLBM:[{bl:1, br:2, tr:3, tl:4}]]", false);
    assert!(r.measurements && !r.waypoint);
    let r = maslow_desktop::connection::readings_of("MINFO: {}", true);
    assert!(r.maslow_info && !r.waypoint);
}

#[test]
fn upload_silences_polls() {
    let (mut link, _) = maslow_desktop::connection::link_opened(false);
    assert!(link.on_status_tick(true, false, true).is_empty());
    assert!(link.on_maslow_tick(true, false).is_empty());
    assert!(!link.on_status_tick(false, false, false).is_empty());
}

#[test]
fn action_line_during_upload_sends_no_polls() {
    let mut link = Link::new();
    let mut job = None;
    let acts = link.on_command(WsCommand::Line("$ALL".into()), true, &mut job);
    assert_eq!(sent_texts(&acts), vec!["$ALL\n"]);
    assert!(!acts.iter().any(|a| matches!(a, Action::RestartBurst | Action::TrySend(_))));
    assert_eq!(link.pending.len(), 1);
    assert!(!link.burst_armed());
}
