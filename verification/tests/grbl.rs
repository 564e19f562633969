use maslow_desktop::grbl::parse_status_frame;

fn floats(s: &Option<String>) -> Vec<f32> {
    match s {
        Some(t) => t.split(',').filter_map(|v| v.trim().parse::<f32>().ok()).collect(),
        None => Vec::new(),
    }
}

#[test]
fn parses_idle_report() {
    let s = parse_status_frame("<Idle|MPos:1.0,2.0,3.0|Bf:35,255|FS:0,0>").unwrap();
    assert_eq!(s.state, "Idle");
    assert_eq!(floats(&s.mpos), vec![1.0, 2.0, 3.0]);
    assert_eq!(s.buffer_blocks, Some(35));
    assert_eq!(s.buffer_bytes, Some(255));
}

#[test]
fn parses_substate_and_wco() {
    let s = parse_status_frame("<Hold:0|MPos:10.0,0.0,0.0|WCO:1.0,0.0,0.0|FS:500,1000>").unwrap();
    assert_eq!(s.state, "Hold");
    assert_eq!(s.substate, Some(0));
    assert_eq!(floats(&s.wco), vec![1.0, 0.0, 0.0]);
    assert_eq!(floats(&s.feed).first().copied(), Some(500.0));
    assert_eq!(floats(&s.spindle).get(1).copied(), Some(1000.0));
}

#[test]
fn rejects_non_status_lines() {
    assert!(parse_status_frame("ok").is_none());
    assert!(parse_status_frame("[MSG:INFO: hi]").is_none());
}

#[test]
fn parses_real_maslow_5axis_with_trailing_gc() {
    let line = "<Idle|MPos:0.000,0.000,73.000,0.000,0.000|FS:0,0|WCO:0.000,0.000,73.000,0.000,0.000>  [GC:G0 G54 G17 G21 G90 G94 M5 M9 T0 F0 S0]";
    let s = parse_status_frame(line).unwrap();
    assert_eq!(s.state, "Idle");
    assert_eq!(floats(&s.mpos).len(), 5);
    assert_eq!(floats(&s.mpos)[2], 73.0);
}

#[test]
fn later_fields_win_and_overrides_are_integers() {
    let s = parse_status_frame("x<Run|FS:1,2|F:7|Ov:100, 90 ,x,110|Bf:15|Pn:XY>").unwrap();
    assert_eq!(s.state, "Run");
    assert_eq!(s.feed.as_deref(), Some("7"));
    assert_eq!(s.spindle.as_deref(), Some("1,2"));
    assert_eq!(s.ov, vec![100, 90, 110]);
    assert_eq!(s.buffer_blocks, Some(15));
    assert_eq!(s.buffer_bytes, None);
    assert_eq!(s.substate, None);
    assert!(parse_status_frame("<Idle").is_none());
}
