use maslow_desktop::gcode::{clean_line, file_name, modal_preamble};
use maslow_desktop::streaming::{Job, SavedJob, PERSIST_EVERY, RX_BUFFER};

#[test]
fn parses_and_filters_lines() {
    let raw = "G21\n; comment\n(only comment)\n\nG0 X10 ; inline\nM3";
    let lines: Vec<String> = raw.lines().filter_map(clean_line).collect();
    assert_eq!(lines, vec!["G21", "G0 X10", "M3"]);
}

#[test]
fn char_counting_respects_buffer() {
    let lines: Vec<String> = (0..10).map(|i| format!("G1 X{i}")).collect();
    let mut job = Job::new("/x.nc".into(), lines, 0);
    let mut sent = 0;
    while job.next_line().is_some() {
        sent += 1;
    }
    assert!(sent > 0 && sent <= 10);
    assert!(job.inflight_bytes <= RX_BUFFER);
}

#[test]
fn ack_advances_and_completes() {
    let lines = vec!["G1 X1".to_string(), "G1 X2".to_string()];
    let mut job = Job::new("/x.nc".into(), lines, 0);
    assert!(job.next_line().is_some());
    assert!(job.next_line().is_some());
    assert!(job.next_line().is_none());
    assert!(!job.ack(false));
    assert!(job.ack(false));
    assert!(job.done);
    assert_eq!(job.acked, 2);
}

#[test]
fn resume_starts_at_index() {
    let lines: Vec<String> = (0..5).map(|i| format!("L{i}")).collect();
    let job = Job::new("/x.nc".into(), lines, 3);
    assert_eq!(job.sent, 3);
    assert_eq!(job.acked, 3);
}

#[test]
fn modal_preamble_replays_active_modals() {
    let lines: Vec<String> = vec![
        "G21".into(),
        "G90".into(),
        "G54".into(),
        "F800".into(),
        "G1 X10 Y10".into(),
        "G20".into(),
        "G1 X20".into(),
    ];
    let pre = modal_preamble(&lines).unwrap();
    assert!(pre.contains("G90"));
    assert!(pre.contains("G20") && !pre.contains("G21"));
    assert!(pre.contains("G54"));
    assert!(pre.contains("F800"));
}

#[test]
fn modal_preamble_handles_concatenated_and_empty() {
    assert_eq!(modal_preamble(&["G21G90".into()]).as_deref(), Some("G90 G21"));
    assert!(modal_preamble(&["G1 X1 Y2".into(), "M3".into()]).is_none());
}

#[test]
fn resume_preamble_is_sent_first_and_not_counted() {
    let lines: Vec<String> = vec![
        "G21".into(),
        "G90".into(),
        "G1 X1".into(),
        "G1 X2".into(),
        "G1 X3".into(),
    ];
    let mut job = Job::new("/x.nc".into(), lines, 3);
    let first = job.next_line().unwrap();
    assert!(first.starts_with("G90 G21"));
    assert_eq!(job.acked, 3, "preamble must not advance acked yet");
    assert!(!job.ack(false));
    assert_eq!(job.acked, 3);
    assert!(job.next_line().is_some());
    assert!(job.next_line().is_some());
    assert!(job.next_line().is_none());
    assert!(!job.ack(false));
    assert!(job.ack(false));
    assert!(job.done);
    assert_eq!(job.acked, 5);
}

#[test]
fn job_name_is_the_file_name() {
    let job = Job::new("C:\\jobs\\part.nc".into(), vec!["G0 X0".into()], 0);
    assert_eq!(job.name, "part.nc");
    assert_eq!(file_name("/sd/sub/job.nc"), "job.nc");
    assert_eq!(file_name("plain.nc"), "plain.nc");
}

#[test]
fn start_index_past_end_is_clamped_and_nothing_is_sent() {
    let mut job = Job::new("/x.nc".into(), vec!["G0 X0".into(), "G0 X1".into()], 9);
    assert_eq!(job.acked, 2);
    assert_eq!(job.sent, 2);
    // The preamble of the skipped lines has no modal words, so nothing goes out.
    assert!(job.next_line().is_none());
}

#[test]
fn paused_job_sends_nothing_until_resumed() {
    let mut job = Job::new("/x.nc".into(), vec!["G0 X0".into()], 0);
    job.set_paused(true);
    assert!(job.next_line().is_none());
    job.set_paused(false);
    assert_eq!(job.next_line().as_deref(), Some("G0 X0\n"));
}

#[test]
fn an_oversized_line_still_goes_out_alone() {
    let long = format!("G1 X{}", "9".repeat(200));
    let mut job = Job::new("/x.nc".into(), vec![long.clone(), "G0 X0".into()], 0);
    assert_eq!(job.next_line(), Some(format!("{long}\n")));
    assert!(job.inflight_bytes > RX_BUFFER);
    // Nothing else fits behind it until it is acknowledged.
    assert!(job.next_line().is_none());
    assert!(!job.ack(false));
    assert!(job.next_line().is_some());
}

#[test]
fn error_acks_are_counted_and_label_the_job() {
    let mut job = Job::new("/x.nc".into(), vec!["G1 X1".into()], 0);
    assert!(job.next_line().is_some());
    assert!(job.ack(true));
    assert_eq!(job.errors, 1);
    assert_eq!(job.state_label(), "error");
    assert_eq!(job.progress(None).state, "error");
    assert_eq!(job.progress(Some("interrupted")).state, "interrupted");
}

#[test]
fn invalidate_freezes_at_last_ack_and_rearms_preamble() {
    let lines: Vec<String> = vec!["G21".into(), "G1 X1".into(), "G1 X2".into(), "G1 X3".into()];
    let mut job = Job::new("/x.nc".into(), lines, 0);
    for _ in 0..3 {
        assert!(job.next_line().is_some());
    }
    assert!(!job.ack(false));
    job.invalidate_inflight();
    assert!(job.paused);
    assert_eq!(job.sent, 1);
    assert_eq!(job.acked, 1);
    assert_eq!(job.inflight_bytes(), 0);
    job.set_paused(false);
    assert_eq!(job.next_line().as_deref(), Some("G21\n"));
    assert_eq!(job.next_line().as_deref(), Some("G1 X1\n"));
}

#[test]
fn persists_every_so_many_acks() {
    let lines: Vec<String> = (0..60).map(|i| format!("G0 X{i}")).collect();
    let mut job = Job::new("/x.nc".into(), lines, 0);
    while job.acked < PERSIST_EVERY {
        if job.next_line().is_none() {
            job.ack(false);
        }
    }
    assert!(job.should_persist());
    job.mark_persisted();
    assert!(!job.should_persist());
}

#[test]
fn saved_job_is_resumable_only_when_unfinished() {
    let rec = |state: &str, acked: usize, total: usize| SavedJob {
        path: "/x.nc".into(),
        name: "x.nc".into(),
        total,
        acked,
        state: state.into(),
        updated_at: 0,
    };
    assert!(rec("interrupted", 3, 10).is_resumable());
    assert!(!rec("done", 3, 10).is_resumable());
    assert!(!rec("interrupted", 10, 10).is_resumable());
}

#[test]
fn motion_words_skip_comments_and_bad_numbers() {
    let w = maslow_desktop::gcode::motion_words("g1 x10 (move Y9) y-5.5 F.5 Z1.2.3 G2");
    let w: Vec<(char, &str)> = w.iter().map(|(c, t)| (*c, t.as_str())).collect();
    assert_eq!(w, vec![('G', "1"), ('X', "10"), ('Y', "-5.5"), ('F', ".5"), ('G', "2")]);
    assert!(maslow_desktop::gcode::motion_words("G0 (unclosed X1").len() == 1);
}

#[test]
fn clean_lines_drops_comments_and_blanks() {
    let r = maslow_desktop::gcode::clean_lines("G21 ; mm\r\n\n(setup)\n  G1 X1  \n; only comment\nM2");
    assert_eq!(r, vec!["G21", "G1 X1", "M2"]);
    assert!(maslow_desktop::gcode::clean_lines("").is_empty());
}
