use maslow_desktop::files::{
    file_entry, free_space, join_dir, parse_u64, path_from_resource_name, rooted_path, size_parts, split_sd_path, RawEntry,
};

fn parse_bytes(s: &str) -> Option<u64> {
    let (num, power) = size_parts(s)?;
    let v: f64 = num.parse().ok()?;
    Some((v * 1024f64.powi(power as i32)) as u64)
}

#[test]
fn parses_format_bytes() {
    assert_eq!(parse_bytes("512 B"), Some(512));
    assert_eq!(parse_bytes("1.00 KB"), Some(1024));
    assert_eq!(parse_bytes("2.00 MB"), Some(2 * 1024 * 1024));
    assert_eq!(parse_bytes("7.40 GB"), Some((7.40 * 1024f64.powi(3)) as u64));
    assert_eq!(parse_bytes("garbage"), None);
    assert_eq!(parse_bytes("1.0 PB"), None);
}

#[test]
fn size_strings_take_apart() {
    assert_eq!(size_parts(" 7.40 gb "), Some(("7.40".to_string(), 3)));
    assert_eq!(size_parts("x KB"), None);
    assert_eq!(size_parts("12  TB"), Some(("12".to_string(), 4)));
}

#[test]
fn delete_file_path_splits_into_dir_and_filename() {
    let (dir, filename) = split_sd_path("/sub/job.nc");
    assert_eq!(dir, "/sub");
    assert_eq!(filename, "job.nc");
}

#[test]
fn delete_file_path_at_root_splits_to_root_dir() {
    let (dir, filename) = split_sd_path("/job.nc");
    assert_eq!(dir, "/");
    assert_eq!(filename, "job.nc");
}

#[test]
fn bare_file_name_lives_in_root() {
    assert_eq!(split_sd_path("job.nc"), ("/".to_string(), "job.nc".to_string()));
}

#[test]
fn joins_and_roots_paths() {
    assert_eq!(join_dir("", "a.nc"), "/a.nc");
    assert_eq!(join_dir("/jobs/", "a.nc"), "/jobs/a.nc");
    assert_eq!(join_dir("/jobs", "a.nc"), "/jobs/a.nc");
    assert_eq!(rooted_path("job.nc"), "/job.nc");
    assert_eq!(rooted_path("/job.nc"), "/job.nc");
    assert_eq!(free_space(10, 4), 6);
    assert_eq!(free_space(4, 10), 0);
}

#[test]
fn files_parses_files_and_directories() {
    let job = file_entry(RawEntry {
        name: Some("job.nc".into()),
        size_number: Some(12345),
        size_string: None,
        size_json: Some("12345".into()),
        isdir: None,
    })
    .unwrap();
    assert_eq!((job.name.as_str(), job.size_bytes, job.is_directory), ("job.nc", 12345, false));
    let sub = file_entry(RawEntry {
        name: Some("sub".into()),
        size_number: None,
        size_string: None,
        size_json: Some("-1".into()),
        isdir: Some(true),
    })
    .unwrap();
    assert_eq!((sub.size_bytes, sub.is_directory), (0, true));
    let legacy = file_entry(RawEntry {
        name: Some("legacy.nc".into()),
        size_number: None,
        size_string: Some("6789".into()),
        size_json: Some("\"6789\"".into()),
        isdir: None,
    })
    .unwrap();
    assert_eq!((legacy.size_bytes, legacy.is_directory), (6789, false));
    let dir = file_entry(RawEntry {
        name: Some("d".into()),
        size_number: None,
        size_string: Some("-1".into()),
        size_json: Some("\"-1\"".into()),
        isdir: None,
    })
    .unwrap();
    assert!(dir.is_directory);
    assert!(file_entry(RawEntry { name: None, size_number: None, size_string: None, size_json: None, isdir: None })
        .is_none());
}

#[test]
fn unsigned_parsing_matches_std() {
    for s in ["0", "+5", "-5", "18446744073709551615", "18446744073709551616", "", "+", "1 "] {
        assert_eq!(parse_u64(s), s.parse::<u64>().ok(), "{s:?}");
    }
}

#[test]
fn files_missing_files_key_is_empty() {
    assert!(maslow_desktop::files::file_entries(None).is_empty());
}

#[test]
fn listing_keeps_named_entries_in_order() {
    let raw = |name: Option<&str>, size: Option<u64>| RawEntry {
        name: name.map(|n| n.to_string()),
        size_number: size,
        size_string: None,
        size_json: size.map(|s| s.to_string()),
        isdir: None,
    };
    let out = maslow_desktop::files::file_entries(Some(vec![
        raw(Some("a.nc"), Some(1)),
        raw(None, Some(2)),
        raw(Some("b.nc"), Some(3)),
    ]));
    let names: Vec<&str> = out.iter().map(|f| f.name.as_str()).collect();
    assert_eq!(names, vec!["a.nc", "b.nc"]);
    assert_eq!(out[1].size_bytes, 3);
}

#[test]
fn resource_name_loses_its_files_prefix() {
    assert_eq!(path_from_resource_name("files/sub/job.nc"), "sub/job.nc");
    assert_eq!(path_from_resource_name("sub/job.nc"), "sub/job.nc");
    assert_eq!(path_from_resource_name("files/"), "");
    assert_eq!(path_from_resource_name("file/x.nc"), "file/x.nc");
}
