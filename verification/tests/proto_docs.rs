use maslow_desktop::proto_docs::{
    field_type, method_for_tool_name, render_enum, render_message, render_service, EnumDoc, EnumValueDoc,
    FieldDoc, MessageDoc, MethodDoc, ProtoKind, ServiceDoc, TypeDoc,
};

fn field(name: &str, kind: ProtoKind) -> FieldDoc {
    FieldDoc {
        name: name.to_string(),
        kind,
        map: None,
        repeated: false,
        presence: false,
        oneof: None,
        comment: None,
    }
}

fn text(v: Vec<char>) -> String {
    v.into_iter().collect()
}

#[test]
fn field_types_follow_the_descriptor() {
    let mut f = field("xs", ProtoKind::Double);
    f.repeated = true;
    assert_eq!(text(field_type(&f)), "repeated double");
    let mut g = field("m", ProtoKind::Str);
    g.map = Some((ProtoKind::Str, ProtoKind::Message("MachineStatus".into())));
    assert_eq!(text(field_type(&g)), "map<string, [`MachineStatus`](#machinestatus)>");
    let mut h = field("p", ProtoKind::Int32);
    h.presence = true;
    assert_eq!(text(field_type(&h)), "optional int32");
    h.oneof = Some("choice".into());
    assert_eq!(text(field_type(&h)), "int32");
}

#[test]
fn message_section_lists_fields() {
    let mut a = field("state", ProtoKind::Str);
    a.comment = Some("  Machine | state \n".into());
    let mut b = field("code", ProtoKind::Enum("WsState".into()));
    b.oneof = Some("kind".into());
    let m = MessageDoc { name: "Status".into(), comment: Some(" A status. ".into()), fields: vec![a, b] };
    assert_eq!(
        render_message(&m),
        "### Status\n\nA status.\n\n| Field | Type | Description |\n|---|---|---|\n\
         | `state` | string | Machine \\| state |\n\
         | `code` | [`WsState`](#wsstate) | (part of oneof `kind`) |\n\n"
    );
    let empty = MessageDoc { name: "Empty".into(), comment: Some("   ".into()), fields: vec![] };
    assert_eq!(render_message(&empty), "### Empty\n\n_No fields._\n\n");
}

#[test]
fn enum_section_lists_values_with_numbers() {
    let e = EnumDoc {
        name: "WsState".into(),
        comment: None,
        values: vec![
            EnumValueDoc { name: "WS_STATE_UNSPECIFIED".into(), number: 0, comment: None },
            EnumValueDoc { name: "NEG".into(), number: -12, comment: Some("below".into()) },
        ],
    };
    assert_eq!(
        render_enum(&e),
        "### WsState\n\n| Value | Number | Description |\n|---|---|---|\n\
         | `WS_STATE_UNSPECIFIED` | 0 |  |\n| `NEG` | -12 | below |\n\n"
    );
}

fn machine_service() -> ServiceDoc {
    ServiceDoc {
        name: "MachineService".into(),
        full_name: "maslow.v1.MachineService".into(),
        comment: None,
        methods: vec![
            MethodDoc {
                name: "GetSnapshot".into(),
                comment: Some("The latest state.".into()),
                client_streaming: false,
                server_streaming: false,
                input: "GetSnapshotRequest".into(),
                output: "Snapshot".into(),
            },
            MethodDoc {
                name: "StreamEvents".into(),
                comment: None,
                client_streaming: false,
                server_streaming: true,
                input: "Empty".into(),
                output: "Event".into(),
            },
        ],
    }
}

#[test]
fn service_page_has_methods_then_types() {
    let types = vec![TypeDoc::Message(MessageDoc { name: "Empty".into(), comment: None, fields: vec![] })];
    let page = render_service("machine", &machine_service(), &types);
    assert!(page.starts_with("---\nid: machine\ntitle: \"MachineService (gRPC)\"\n---\n\n> **Generated content.**"));
    assert!(page.contains("Full name: `maslow.v1.MachineService`\n\n## Methods\n\n### GetSnapshot\n\nThe latest state.\n\n- **Kind:** unary\n- **Request:** [`GetSnapshotRequest`](#getsnapshotrequest)\n- **Response:** [`Snapshot`](#snapshot)\n\n"));
    assert!(page.contains("- **Kind:** server streaming\n- **Request:** [`Empty`](#empty)\n- **Response:** [`Event`](#event) (a stream of these)\n\n## Types\n\n"));
    assert!(page.ends_with("### Empty\n\n_No fields._\n\n"));
}

#[test]
fn tool_names_map_to_rpcs() {
    let services = vec![machine_service()];
    assert_eq!(
        method_for_tool_name(&services, "get_snapshot"),
        Some(("MachineService".to_string(), "GetSnapshot".to_string()))
    );
    assert_eq!(method_for_tool_name(&services, "jog"), None);
}
