use maslow_desktop::http_api::{normalize_host, parse_fw_version, PingResult};

#[test]
fn parses_firmware_version() {
    assert_eq!(
        parse_fw_version("FW version: FluidNC 1.22 # FW target:grbl-embedded"),
        Some("1.22".to_string())
    );
    assert_eq!(
        parse_fw_version("[MSG]\nFW version: FluidNC 1.22-3-gabc  # FW HW:Direct SD"),
        Some("1.22-3-gabc".to_string())
    );
    assert_eq!(parse_fw_version("no version here"), None);
}

#[test]
fn firmware_version_without_label_and_empty_token() {
    assert_eq!(parse_fw_version("FW version:\t2.0#x"), Some("2.0".to_string()));
    assert_eq!(parse_fw_version("FW version: FluidNC\nFW version: 3.1"), Some("3.1".to_string()));
}

#[test]
fn hosts_are_normalized() {
    assert_eq!(normalize_host(" maslow.local// "), "http://maslow.local");
    assert_eq!(normalize_host("https://10.0.0.2/"), "https://10.0.0.2");
    assert_eq!(normalize_host("http://m:8080"), "http://m:8080");
}

#[test]
fn ping_results() {
    let p = PingResult::answered(200, "stats".into());
    assert!(p.reachable && p.status == 200 && p.info == "stats");
    assert!(!PingResult::answered(404, String::new()).reachable);
    let f = PingResult::failed("unreachable", "timed out");
    assert!(!f.reachable && f.status == 0);
    assert_eq!(f.info, "unreachable: timed out");
}
