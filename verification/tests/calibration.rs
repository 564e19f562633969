use maslow_desktop::calibration::{clbm_entries, fit_texts, recompute_texts, BeltTexts};

fn num(s: &Option<String>) -> f32 {
    s.as_ref().map(|t| t.parse::<f32>().unwrap()).unwrap_or(0.0)
}

fn belts(b: &BeltTexts) -> (f32, f32, f32, f32) {
    (num(&b.tl), num(&b.tr), num(&b.bl), num(&b.br))
}

#[test]
fn parses_clbm() {
    let line = "[MSG:INFO: CLBM:[{bl:1234.5, br:2345.6, tr:3456.7, tl:4567.8},{bl:1.0, br:2.0, tr:3.0, tl:4.0}]]";
    let m = clbm_entries(line).unwrap();
    assert_eq!(m.len(), 2);
    assert_eq!(belts(&m[0]), (4567.8, 3456.7, 1234.5, 2345.6));
    assert_eq!(belts(&m[1]), (4.0, 3.0, 1.0, 2.0));
}

#[test]
fn rejects_non_clbm() {
    assert!(clbm_entries("[MSG:INFO: Find Anchors complete]").is_none());
    assert!(clbm_entries("CLBM:[]").is_none());
}

#[test]
fn incomplete_entry_is_dropped() {
    let m = clbm_entries("CLBM:[{bl:1, br:2, tr:3},{bl:5, br:6, tr:7, tl:8}]").unwrap();
    assert_eq!(m.len(), 1);
    assert_eq!(m[0].tl.as_deref(), Some("8"));
    assert!(clbm_entries("CLBM:[{bl:x, br:2, tr:3, tl:4}]").is_none());
}

fn f64_of(s: &str) -> f64 {
    s.parse::<f64>().unwrap()
}

#[test]
fn parses_fit_and_recompute_oracle() {
    let fit = fit_texts(
        "[MSG:INFO: Find Anchors fit: rms=1.234mm max=4.56mm perAnchor=[1.1,2.2,3.3,4.4]mm converged=1]",
    )
    .unwrap();
    assert!((f64_of(&fit.rms) - 1.234).abs() < 1e-9);
    assert!((f64_of(&fit.max_residual) - 4.56).abs() < 1e-9);
    let per: Vec<f64> = fit.per_anchor.iter().map(|t| f64_of(t)).collect();
    assert_eq!(per, vec![1.1, 2.2, 3.3, 4.4]);
    assert!(fit.converged.as_deref().map(f64_of).map(|v| v != 0.0).unwrap_or(false));

    let p = recompute_texts(
        "[MSG:INFO: Find Anchors recompute complete: tl=(-12.5,2389.1) tr=(3554.2,2370.3) brX=3500.4 SSR=12.3 points=9]",
    )
    .unwrap();
    assert!((f64_of(&p.tl_x) - -12.5).abs() < 1e-9);
    assert!((f64_of(&p.tl_y) - 2389.1).abs() < 1e-9);
    assert!((f64_of(&p.tr_x) - 3554.2).abs() < 1e-9);
    assert!((f64_of(&p.tr_y) - 2370.3).abs() < 1e-9);
    assert!((f64_of(&p.br_x) - 3500.4).abs() < 1e-9);
}

#[test]
fn fit_line_needs_four_per_anchor_numbers() {
    assert!(fit_texts("Find Anchors fit: rms=1mm max=2mm perAnchor=[1,2,3]mm").is_none());
    assert!(fit_texts("Find Anchors fit: rms=1mm max=2mm perAnchor=[1,2,x,4]mm").is_none());
    let f = fit_texts("Find Anchors fit: rms=1mm max=2mm perAnchor=[1, 2,3,4,5]").unwrap();
    assert_eq!(f.per_anchor, vec!["1", "2", "3", "4"]);
    assert!(f.converged.is_none());
    assert!(fit_texts("rms=1mm max=2mm perAnchor=[1,2,3,4]").is_none());
}

#[test]
fn recompute_line_needs_both_pairs() {
    assert!(recompute_texts("recompute complete: tl=(1,2) brX=3").is_none());
    assert!(recompute_texts("recompute complete: tl=(1,2) tr=(3) brX=3").is_none());
    let r = recompute_texts("recompute complete: tl=( 1 , 2 ) tr=(3,4) brX=5e2").unwrap();
    assert_eq!((r.tl_x.as_str(), r.tl_y.as_str(), r.br_x.as_str()), ("1", "2", "5e2"));
}

#[test]
fn solver_selection_by_id() {
    use_solver("levenberg-marquardt", true);
    use_solver("", true);
    use_solver("gauss-newton", false);
    let s = maslow_desktop::calibration::solver_by_name("").unwrap();
    assert_eq!(s.name(), "levenberg-marquardt");
}

fn use_solver(id: &str, found: bool) {
    assert_eq!(maslow_desktop::calibration::solver_by_name(id).is_some(), found);
}
