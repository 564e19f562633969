use maslow_desktop::proto_docs::{MethodDoc, ServiceDoc};
use maslow_desktop::routes::{HttpModel, HttpRoute};
use maslow_desktop::tool_docs::{
    render_tools_domain, schema_type, sort_indices, ParamDoc, Schema, ToolDoc, TypeField,
};

fn keys(v: &[&str]) -> Vec<Vec<char>> {
    v.iter().map(|s| s.chars().collect()).collect()
}

fn schema(t: TypeField) -> Schema {
    Schema { type_field: t, items: None, has_enum: false }
}

fn text(v: Vec<char>) -> String {
    v.into_iter().collect()
}

#[test]
fn sort_is_stable_by_name() {
    assert_eq!(sort_indices(&keys(&["jog", "home", "e_stop", "home", "ab", "a"])), vec![5, 4, 2, 1, 3, 0]);
    assert!(sort_indices(&keys(&[])).is_empty());
    assert_eq!(sort_indices(&keys(&["Z", "a"])), vec![0, 1]);
}

#[test]
fn schema_types_read_like_the_schema() {
    assert_eq!(text(schema_type(&schema(TypeField::Text("number".into())))), "number");
    let arr = Schema {
        type_field: TypeField::Text("array".into()),
        items: Some(Box::new(schema(TypeField::Text("string".into())))),
        has_enum: false,
    };
    assert_eq!(text(schema_type(&arr)), "array of string");
    assert_eq!(text(schema_type(&schema(TypeField::Text("array".into())))), "array of any");
    let union = schema(TypeField::Texts(vec![Some("integer".into()), None, Some("null".into())]));
    assert_eq!(text(schema_type(&union)), "integer or null");
    assert_eq!(text(schema_type(&schema(TypeField::Texts(vec![None])))), "any");
    let en = Schema { type_field: TypeField::Absent, items: None, has_enum: true };
    assert_eq!(text(schema_type(&en)), "enum");
    assert_eq!(text(schema_type(&schema(TypeField::Other))), "any");
}

fn http() -> HttpModel {
    HttpModel {
        domains: vec![(
            "machine",
            vec![HttpRoute {
                method: "POST".into(),
                path: "/v1/machine/jog".into(),
                handler: "jog".into(),
                doc: String::new(),
                request_type: None,
                response_type: None,
                streaming: false,
            }],
        )],
    }
}

fn services() -> Vec<ServiceDoc> {
    vec![ServiceDoc {
        name: "MachineService".into(),
        full_name: "maslow.v1.MachineService".into(),
        comment: None,
        methods: vec![MethodDoc {
            name: "Jog".into(),
            comment: None,
            client_streaming: false,
            server_streaming: false,
            input: "JogRequest".into(),
            output: "Empty".into(),
        }],
    }]
}

#[test]
fn tools_page_lists_tools_and_parameters_by_name() {
    let tools = vec![
        ToolDoc {
            name: "jog".into(),
            description: "Jog the machine.".into(),
            params: vec![
                ParamDoc { name: "dy".into(), schema: schema(TypeField::Text("number".into())), description: None },
                ParamDoc {
                    name: "dx".into(),
                    schema: schema(TypeField::Text("number".into())),
                    description: Some("X | delta".into()),
                },
            ],
            required: vec!["dx".into()],
        },
        ToolDoc { name: "home".into(), description: String::new(), params: vec![], required: vec![] },
    ];
    let page = render_tools_domain("machine", &tools, &http(), &services());
    assert!(page.starts_with("---\nid: machine\ntitle: \"Machine tools (MCP)\"\n---\n\n"));
    let home = page.find("## home").unwrap();
    let jog = page.find("## jog").unwrap();
    assert!(home < jog);
    assert!(page.contains(
        "## home\n\n_No matching HTTP/gRPC operation found (this tool may be MCP-only)._\n\n_No parameters._\n\n"
    ));
    assert!(page.ends_with(
        "## jog\n\nJog the machine.\n\n**See also:** HTTP `POST /v1/machine/jog` &middot; gRPC `MachineService.Jog`\n\n\
         | Parameter | Type | Required | Description |\n|---|---|---|---|\n\
         | `dx` | number | yes | X \\| delta |\n| `dy` | number | no |  |\n\n"
    ));
    let empty = render_tools_domain("files", &vec![], &http(), &services());
    assert!(empty.ends_with("_No tools registered in this domain._\n"));
}
