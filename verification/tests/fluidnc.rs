use maslow_desktop::fluidnc::{classify, flatten_config, ConfigKind};

#[test]
fn classifies_values() {
    assert_eq!(classify("true"), ConfigKind::Bool);
    assert_eq!(classify("false"), ConfigKind::Bool);
    assert_eq!(classify("9"), ConfigKind::Int);
    assert_eq!(classify("1300"), ConfigKind::Int);
    assert_eq!(classify("0.000000"), ConfigKind::Float);
    assert_eq!(classify("-12.5"), ConfigKind::Float);
    assert_eq!(classify("NO_PIN"), ConfigKind::Text);
    assert_eq!(classify("gpio.36:low"), ConfigKind::Text);
    assert_eq!(classify("https://example.com"), ConfigKind::Text);
}

#[test]
fn classification_matches_std_parsing() {
    for v in [
        "+7", "-0", "9223372036854775807", "9223372036854775808", "-9223372036854775808",
        "1e5", "1E-5", ".5", "5.", ".", "+.e1", "inf", "-Infinity", "NaN", "nan1", "1_000", "",
        " 1", "0x10", "1.5e", "1.5e+3",
    ] {
        let expected = if v == "true" || v == "false" {
            ConfigKind::Bool
        } else if v.parse::<i64>().is_ok() {
            ConfigKind::Int
        } else if v.parse::<f64>().is_ok() {
            ConfigKind::Float
        } else {
            ConfigKind::Text
        };
        assert_eq!(classify(v), expected, "value {v:?}");
    }
}

#[test]
fn flattens_root_and_nested() {
    let dump = "\
board: Maslow
meta:
Maslow_calibration_grid_size: 9
Maslow_Scale_X: 1.000000
Maslow_Apply_Tension_Allow_Limiting: true
stepping:
  engine: Timed
  idle_ms: 240
kinematics:
  MaslowKinematics:
    tlX: 139.199997
    fixedZ: false
";
    let e = flatten_config(dump);
    let get = |p: &str| e.iter().find(|c| c.path == p);
    assert_eq!(get("board").unwrap().value, "Maslow");
    assert_eq!(get("board").unwrap().kind, ConfigKind::Text);
    assert_eq!(get("Maslow_calibration_grid_size").unwrap().kind, ConfigKind::Int);
    assert_eq!(get("Maslow_Scale_X").unwrap().kind, ConfigKind::Float);
    assert_eq!(get("Maslow_Apply_Tension_Allow_Limiting").unwrap().kind, ConfigKind::Bool);
    assert_eq!(get("stepping/engine").unwrap().value, "Timed");
    assert_eq!(get("stepping/idle_ms").unwrap().kind, ConfigKind::Int);
    assert_eq!(get("kinematics/MaslowKinematics/tlX").unwrap().value, "139.199997");
    assert_eq!(get("kinematics/MaslowKinematics/fixedZ").unwrap().kind, ConfigKind::Bool);
    assert!(get("meta").is_none());
}

#[test]
fn dedents_correctly_between_sections() {
    let dump = "\
axes:
  x:
    steps_per_mm: 100
    motor0:
      step_pin: gpio.1
spi:
  miso_pin: gpio.13
";
    let e = flatten_config(dump);
    let paths: Vec<&str> = e.iter().map(|c| c.path.as_str()).collect();
    assert!(paths.contains(&"axes/x/steps_per_mm"));
    assert!(paths.contains(&"axes/x/motor0/step_pin"));
    assert!(paths.contains(&"spi/miso_pin"));
    assert!(!paths.iter().any(|p| p.contains("motor0/miso_pin")));
}

#[test]
fn skips_comments_and_blanks() {
    let dump = "# a comment\n\nname: Maslow S3\n  # indented comment\n";
    let e = flatten_config(dump);
    assert_eq!(e.len(), 1);
    assert_eq!(e[0].path, "name");
    assert_eq!(e[0].value, "Maslow S3");
}

#[test]
fn indentation_is_relative_and_sequences_are_skipped() {
    let dump = "a:\n    b: 1\n    - item\n    c:\n        d: x\n    e: 2\nf: y\r\n";
    let e = flatten_config(dump);
    let got: Vec<(&str, &str)> = e.iter().map(|c| (c.path.as_str(), c.value.as_str())).collect();
    assert_eq!(got, vec![("a/b", "1"), ("a/c/d", "x"), ("a/e", "2"), ("f", "y")]);
}

#[test]
fn finds_config_entry_by_path() {
    let entries = Some(maslow_desktop::fluidnc::flatten_config("board: Maslow\naxes:\n  x:\n    steps_per_mm: 100\n"));
    let e = maslow_desktop::fluidnc::find_config_entry(&entries, "axes/x/steps_per_mm").unwrap();
    assert_eq!(e.value, "100");
    assert!(matches!(e.kind, maslow_desktop::fluidnc::ConfigKind::Int));
    let missing = maslow_desktop::fluidnc::find_config_entry(&entries, "axes/y").unwrap_err();
    assert_eq!(missing.status(), 404);
    assert_eq!(missing.message, "no config entry \"axes/y\" (has a config dump run yet?)");
    assert!(maslow_desktop::fluidnc::find_config_entry(&None, "board").is_err());
}
