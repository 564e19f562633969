use maslow_desktop::api_error::ApiError;
use maslow_desktop::machine::{
    realtime_byte, reply_result, save_config_line, setting_line, validate_host, ws_url, zero_line,
    LineAction, ReplyWait,
};
use maslow_desktop::mcp::{ListConfigEntriesParams, ListFilesParams};

#[test]
fn websocket_url_of_a_host() {
    assert_eq!(ws_url("maslow.local"), "ws://maslow.local:81/");
    assert_eq!(ws_url(" http://192.168.1.5/ "), "ws://192.168.1.5:81/");
    assert_eq!(ws_url("https://m:8181"), "ws://m:8181/");
}

#[test]
fn malformed_hosts_are_rejected_up_front() {
    assert_eq!(validate_host("maslow.local").unwrap(), "ws://maslow.local:81/");
    let e = validate_host(" bad host ").unwrap_err();
    assert!(e.starts_with("invalid host \"bad host\": "), "{e}");
}

#[test]
fn command_lines() {
    assert_eq!(setting_line("axes/x/steps_per_mm", "100"), "$/axes/x/steps_per_mm=100");
    assert_eq!(save_config_line(), "$CO");
    assert_eq!(LineAction::Home.line(), "$H");
    assert_eq!(LineAction::TakeSlack.line(), "$TKSLK");
    assert_eq!(LineAction::EStop.line(), "$ESTOP");
}

#[test]
fn zero_lines() {
    assert_eq!(zero_line(&vec![]), "G10 L20 P0 X0 Y0");
    assert_eq!(zero_line(&vec!["z".to_string()]), "G10 L20 P0 Z0");
    assert_eq!(zero_line(&vec!["x".to_string(), "Y".to_string()]), "G10 L20 P0 X0 Y0");
}

#[test]
fn tracked_write_outcomes() {
    assert_eq!(reply_result(ReplyWait::Answered(Ok(()))), Ok(()));
    assert_eq!(reply_result(ReplyWait::Answered(Err("error:3".into()))), Err("error:3".to_string()));
    assert_eq!(
        reply_result(ReplyWait::Dropped),
        Err("connection closed before the machine replied".to_string())
    );
    assert_eq!(reply_result(ReplyWait::TimedOut), Err("timeout waiting for machine reply".to_string()));
}

#[test]
fn send_realtime_params_rejects_out_of_range_byte() {
    assert!(realtime_byte(300).is_err(), "300 must not fit in a u8");
}

#[test]
fn send_realtime_params_accepts_soft_reset_byte() {
    assert_eq!(realtime_byte(0x18), Ok(0x18));
}

#[test]
fn list_config_entries_params_defaults_force_refresh_to_false() {
    assert!(!ListConfigEntriesParams::default().force_refresh);
}

#[test]
fn list_files_params_defaults_parent_to_empty() {
    assert_eq!(ListFilesParams::default().parent, "");
}

#[test]
fn api_errors_map_to_http_statuses() {
    assert_eq!(ApiError::not_found("x".into()).status(), 404);
    assert_eq!(ApiError::invalid_argument("x".into()).status(), 400);
    assert_eq!(ApiError::failed_precondition("x".into()).status(), 412);
    assert_eq!(ApiError::deadline_exceeded("x".into()).status(), 504);
    let e = ApiError::internal("boom".into());
    assert_eq!(e.status(), 500);
    assert_eq!(e.message, "boom");
}
