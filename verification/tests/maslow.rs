use maslow_desktop::maslow::CalState::{
    CalibrationComputing, CalibrationInProgress, ExtendedOut, Extending, ReadyToCut, Retracted,
    Retracting, TakingSlack, Unknown,
};
use maslow_desktop::maslow::{
    action_policy, parse_state, policy_for, valid_transition, CalState, Observation, StateTracker,
};

#[test]
fn parses_current_state() {
    assert_eq!(parse_state("[MSG:INFO: Current state: 7]"), Some(7));
    assert_eq!(parse_state("[MSG:INFO: Current state: 0]"), Some(0));
    assert_eq!(parse_state("[MSG:INFO: something else]"), None);
}

#[test]
fn policy_extended_allows_calibrate() {
    let p = policy_for(CalState::ExtendedOut);
    assert!(!p.busy);
    assert_eq!(p.label, "Extended");
    for a in ["retract", "extend", "takeSlack", "calibrate", "comply", "stop", "estop"] {
        assert!(p.allowed.contains(&a.to_string()), "missing {a}");
    }
}

#[test]
fn policy_busy_allows_recovery_only() {
    let p = policy_for(CalState::CalibrationInProgress);
    assert!(p.busy);
    assert_eq!(p.allowed, vec!["retract", "stop", "estop"]);
    for a in ["extend", "takeSlack", "calibrate", "comply"] {
        assert!(!p.allowed.contains(&a.to_string()), "{a} must be gated");
    }
}

#[test]
fn policy_retract_allowed_while_extending() {
    let p = policy_for(CalState::Extending);
    assert!(p.busy);
    assert!(p.allowed.contains(&"retract".to_string()));
    assert!(p.allowed.contains(&"stop".to_string()));
    assert!(p.allowed.contains(&"estop".to_string()));
    assert!(!p.allowed.contains(&"extend".to_string()));
}

#[test]
fn policy_ready_to_cut_no_extend() {
    let p = policy_for(CalState::ReadyToCut);
    assert!(p.allowed.contains(&"calibrate".to_string()));
    assert!(!p.allowed.contains(&"extend".to_string()));
}

#[test]
fn transitions_match_firmware() {
    assert!(valid_transition(Retracted, Extending));
    assert!(valid_transition(ExtendedOut, CalibrationInProgress));
    assert!(valid_transition(CalibrationInProgress, CalibrationComputing));
    assert!(valid_transition(CalibrationComputing, ReadyToCut));
    assert!(valid_transition(ReadyToCut, Retracting));
    assert!(valid_transition(TakingSlack, TakingSlack));
    assert!(!valid_transition(Retracted, ExtendedOut));
    assert!(!valid_transition(Unknown, ReadyToCut));
}

#[test]
fn tracker_first_and_valid() {
    let mut t = StateTracker::default();
    assert_eq!(t.observe(Retracted, 0), Observation::First(Retracted));
    assert_eq!(t.observe(Retracted, 0), Observation::Unchanged);
    assert_eq!(t.observe(Extending, 0), Observation::Valid(Extending));
    assert_eq!(t.current(), Some(Extending));
}

#[test]
fn tracker_straggler_then_discord() {
    let mut t = StateTracker::default();
    t.observe(Retracted, 0);
    assert_eq!(
        t.observe(ExtendedOut, 10_000),
        Observation::Straggler { from: Retracted, to: ExtendedOut }
    );
    assert_eq!(t.current(), Some(Retracted));
    assert_eq!(
        t.observe(ExtendedOut, 0),
        Observation::Discord { from: Retracted, to: ExtendedOut }
    );
    assert_eq!(t.current(), Some(ExtendedOut));
}

#[test]
fn action_policy_idle_extended() {
    let p = action_policy("Idle", Some(CalState::ExtendedOut), false);
    assert!(p.jog && p.home);
    assert!(!p.run, "run must be gated until READY_TO_CUT");
    assert!(p.retract && p.extend && p.calibrate && p.comply);
    assert!(!p.hold && !p.resume && p.reset);
}

#[test]
fn action_policy_run_only_when_ready_to_cut() {
    assert!(action_policy("Idle", Some(CalState::ReadyToCut), false).run);
    assert!(!action_policy("Run", Some(CalState::ReadyToCut), false).run);
    assert!(!action_policy("Alarm", Some(CalState::ReadyToCut), false).run);
    for ms in [0, 2, 3, 4, 5, 6, 9] {
        let p = action_policy("Idle", Some(CalState::from_code(ms)), false);
        assert!(!p.run, "run in state {ms}");
    }
    assert!(!action_policy("Idle", None, false).run, "run with unknown state");
}

#[test]
fn action_policy_homing_locks_motion() {
    let p = action_policy("Home", Some(CalState::CalibrationInProgress), false);
    assert!(!p.jog && !p.home && !p.calibrate);
    assert!(p.retract);
    assert!(p.stop && p.estop);
    assert!(p.reset);
}

#[test]
fn action_policy_stop_from_extending_recovers() {
    let p = action_policy("Idle", Some(CalState::Extending), false);
    assert!(p.retract, "retract must recover a frozen EXTENDING state");
    assert!(p.stop && p.estop);
    assert!(!p.extend && !p.calibrate && !p.take_slack);
}

#[test]
fn action_policy_busy_allows_stop_and_retract() {
    for ms in [1, 3, 5, 6, 8, 9] {
        let p = action_policy("Run", Some(CalState::from_code(ms)), false);
        assert!(p.stop && p.estop, "stop/estop must be available in state {ms}");
        assert!(p.retract, "retract must be available in busy state {ms}");
    }
}

#[test]
fn action_policy_job_locks_everything_but_realtime() {
    let p = action_policy("Run", Some(CalState::ReadyToCut), true);
    assert!(!p.jog && !p.run && !p.retract && !p.stop);
    assert!(p.hold && !p.resume && p.reset);
}

#[test]
fn action_policy_resume_only_when_held() {
    let p = action_policy("Hold", Some(CalState::ReadyToCut), true);
    assert!(p.resume && !p.hold && p.reset);
}

#[test]
fn state_codes_round_trip() {
    for code in 0..=9 {
        assert_eq!(CalState::from_code(code).code(), code);
    }
    assert_eq!(CalState::from_code(42), CalState::Unknown);
    assert_eq!(CalState::ReadyToCut.label(), "Ready to Cut");
}

#[test]
fn busy_policy_offers_only_recovery_in_every_busy_state() {
    for code in 0..=9 {
        let s = CalState::from_code(code);
        let p = policy_for(s);
        assert_eq!(p.busy, s.is_busy());
        assert!(p.allowed.contains(&"retract".to_string()));
        if s.is_busy() {
            assert_eq!(p.allowed.len(), 3);
        }
    }
}

fn f(s: &Option<String>) -> f32 {
    s.as_ref().map(|t| t.parse::<f32>().unwrap()).unwrap_or(0.0)
}

#[test]
fn parses_waypoint() {
    let w = maslow_desktop::maslow::waypoint_texts("[MSG:INFO: Waypoint 3 coordinates: X=123.4 Y=-56.7]").unwrap();
    assert_eq!(w.n, 3);
    assert_eq!(w.x.parse::<f32>().unwrap(), 123.4);
    assert_eq!(w.y.parse::<f32>().unwrap(), -56.7);
}

#[test]
fn waypoint_with_bad_number_is_rejected() {
    assert!(maslow_desktop::maslow::waypoint_texts("[MSG:INFO: Waypoint x coordinates: X=1 Y=2]").is_none());
    assert!(maslow_desktop::maslow::waypoint_texts("[MSG:INFO: Waypoint 1 coordinates: X=abc Y=2]").is_none());
    assert!(maslow_desktop::maslow::waypoint_texts("[MSG:INFO: Waypoint 1 coordinates: X=1]").is_none());
    let w = maslow_desktop::maslow::waypoint_texts("Waypoint 12 at X=1.5]Y=2").unwrap();
    assert_eq!((w.n, w.x.as_str(), w.y.as_str()), (12, "1.5", "2"));
}

#[test]
fn anchor_dump_texts() {
    let dump = "$/kinematics/MaslowKinematics/tlX=-27.600\n\
                $/kinematics/MaslowKinematics/tlY=2064.900\n\
                $/kinematics/MaslowKinematics/trX=2924.300\n\
                $/kinematics/MaslowKinematics/trY=2066.500\n\
                $/kinematics/MaslowKinematics/blX=0.000\n\
                $/kinematics/MaslowKinematics/blY=0.000\n\
                $/kinematics/MaslowKinematics/brX=2953.200\n\
                $/kinematics/MaslowKinematics/brY=0.000\nok\n";
    let a = maslow_desktop::maslow::anchor_texts(dump).unwrap();
    assert_eq!(f(&a.tl_x), -27.6);
    assert_eq!(f(&a.tr_y), 2066.5);
    assert_eq!(f(&a.br_x), 2953.2);
    assert_eq!(a.tl_x.as_deref(), Some("-27.600"));
}

#[test]
fn anchor_texts_missing_keys_stay_unset() {
    let a = maslow_desktop::maslow::anchor_texts("tlX=-30.1 foo=3 trX=oops brY=4").unwrap();
    assert_eq!(a.tl_x.as_deref(), Some("-30.1"));
    assert!(a.tr_x.is_none());
    assert_eq!(a.br_y.as_deref(), Some("4"));
    assert!(a.tl_y.is_none());
}

#[test]
fn anchors_rejects_non_dump() {
    assert!(maslow_desktop::maslow::anchor_texts("ok").is_none());
    assert!(maslow_desktop::maslow::anchor_texts("<Idle|MPos:0,0,0>").is_none());
}

#[test]
fn split_words_matches_split_whitespace() {
    let s: Vec<char> = "  a bb\t\nccc  ".chars().collect();
    let w: Vec<String> = maslow_desktop::maslow::split_words(&s).iter().map(|v| v.iter().collect()).collect();
    assert_eq!(w, vec!["a", "bb", "ccc"]);
}

#[test]
fn rejects_non_minfo() {
    assert!(maslow_desktop::maslow::minfo_payload("ok").is_none());
    assert!(maslow_desktop::maslow::minfo_payload("<Idle|MPos:0,0,0>").is_none());
}

#[test]
fn minfo_payload_is_the_trimmed_json() {
    let p = maslow_desktop::maslow::minfo_payload("  MINFO: { \"homed\": true }  ").unwrap();
    assert_eq!(p, "{ \"homed\": true }");
}

#[test]
fn debounce_outcome_decides_by_elapsed_time() {
    let debounce_outcome = maslow_desktop::maslow::debounce_outcome;
    let (r, e) = (CalState::Retracted, CalState::ExtendedOut);
    assert_eq!(debounce_outcome(r, e, 5, 10_000), Observation::Straggler { from: r, to: e });
    assert_eq!(debounce_outcome(r, e, 10_000, 10_000), Observation::Discord { from: r, to: e });
    assert_eq!(debounce_outcome(r, e, 0, 0), Observation::Discord { from: r, to: e });
    assert_eq!(debounce_outcome(r, CalState::Extending, 5, 10_000), Observation::Valid(CalState::Extending));
    assert_eq!(debounce_outcome(r, r, 5, 10_000), Observation::Unchanged);
}
