use maslow_desktop::docs::{frontmatter, generated_banner, md_escape, snake_to_pascal};
use maslow_desktop::routes::{parse_routes, render_domain, HttpModel, HttpRoute};

#[test]
fn markdown_helpers() {
    assert_eq!(frontmatter("job", "Job (HTTP)"), "---\nid: job\ntitle: \"Job (HTTP)\"\n---\n\n");
    assert!(generated_banner("`x`").contains(" reading `x`, re-run"));
    assert_eq!(md_escape(" a|b\nc "), "a\\|b c");
    assert_eq!(snake_to_pascal("send_realtime"), "SendRealtime");
    assert_eq!(snake_to_pascal("e_stop"), "EStop");
    assert_eq!(snake_to_pascal("_x__y_"), "XY");
}

const ROUTER: &str = r#"
pub fn router() -> Router {
    Router::new()
        .route("/v1/machine/jog", post(jog))
        .route("/v1/config/{*path}", get(get_config_entry).patch(update_config_entry))
        .route("/v1/events", get(events))
        .route(no_path_here, get(ignored))
}

/// Jog the machine.
/// Relative move.
async fn jog(State(svc): State<Svc>, Json(req): Json<pb::JogRequest>) -> Result<Json<pb::Empty>, ApiError> {
    body
}

async fn get_config_entry(Path(path): Path<String>) -> Result<Json<pb::ConfigEntry>, ApiError> {
    x
}

/// Stream | events.
async fn events() -> Sse<impl Stream<Item = Event>> {
    x
}
"#;

#[test]
fn routes_are_read_from_the_router_source() {
    let routes = parse_routes(ROUTER).unwrap();
    let got: Vec<(&str, &str, &str)> =
        routes.iter().map(|r| (r.method.as_str(), r.path.as_str(), r.handler.as_str())).collect();
    assert_eq!(
        got,
        vec![
            ("POST", "/v1/machine/jog", "jog"),
            ("GET", "/v1/config/{*path}", "get_config_entry"),
            ("PATCH", "/v1/config/{*path}", "update_config_entry"),
            ("GET", "/v1/events", "events"),
        ]
    );
    assert_eq!(routes[0].doc, "Jog the machine. Relative move.");
    assert_eq!(routes[0].request_type.as_deref(), Some("JogRequest"));
    assert_eq!(routes[0].response_type.as_deref(), Some("Empty"));
    assert!(!routes[0].streaming);
    assert_eq!(routes[1].request_type, None);
    assert_eq!(routes[1].response_type.as_deref(), Some("ConfigEntry"));
    assert_eq!(routes[2].doc, "");
    assert!(routes[3].streaming);
    assert!(parse_routes(".route(\"/x\", get(a)").is_none());
}

#[test]
fn domain_page_renders_a_route_table() {
    let routes = parse_routes(ROUTER).unwrap();
    let page = render_domain("machine", &routes);
    assert!(page.starts_with("---\nid: machine\ntitle: \"Machine (HTTP)\"\n---\n\n"));
    assert!(page.contains("| `POST` | `/v1/machine/jog` | Jog the machine. Relative move. | `JogRequest` | `Empty` |\n"));
    assert!(page.contains("| `GET` | `/v1/events` | Stream \\| events. | _none_ | server-sent event stream |\n"));
    assert!(render_domain("job", &vec![]).ends_with("_No routes found._\n"));
    let model = HttpModel { domains: vec![("machine", routes.clone()), ("job", vec![])] };
    let pages = maslow_desktop::routes::write(&model);
    assert_eq!(pages[0].0, "machine.md");
    assert_eq!(pages[1].0, "job.md");
    assert_eq!(pages[0].1, page);
}

#[test]
fn routes_are_found_by_handler() {
    let r = |h: &str, p: &str| HttpRoute {
        method: "GET".into(),
        path: p.into(),
        handler: h.into(),
        doc: String::new(),
        request_type: None,
        response_type: None,
        streaming: false,
    };
    let model = HttpModel { domains: vec![("a", vec![r("x", "/1")]), ("b", vec![r("y", "/2"), r("x", "/3")])] };
    assert_eq!(model.route_for_handler("x").unwrap().path, "/1");
    assert_eq!(model.route_for_handler("y").unwrap().path, "/2");
    assert!(model.route_for_handler("z").is_none());
}
