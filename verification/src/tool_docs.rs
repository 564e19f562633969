//! The MCP tools reference pages: one markdown page per domain listing its
//! tools by name, each with the HTTP route and gRPC method it shares an
//! operation with, and a table of its parameters. The tools and their
//! input schemas come in as plain values; reading them out of the running
//! tool registry is the caller's.

use crate::docs::{banner_of, capitalize, capitalized, escaped, frontmatter, frontmatter_of, generated_banner, md_escape, pascal_of};
use crate::proto_docs::{method_for_tool_name, method_match, ServiceDoc};
use crate::routes::{all_routes, first_handler, HttpModel};
use crate::text::{append, chars_of, split_on, string_of};
use vstd::prelude::*;

verus! {

// ---------------------------------------------------------------------------
// Ordering by name
// ---------------------------------------------------------------------------

/// `a` sorts before `b`: character by character, a proper prefix first (the
/// order of `String`, whose UTF-8 bytes order as the code points do).
pub open spec fn text_lt(a: Seq<char>, b: Seq<char>) -> bool
    decreases a.len(),
{
    if a.len() == 0 {
        b.len() > 0
    } else if b.len() == 0 {
        false
    } else if a[0] != b[0] {
        (a[0] as u32) < (b[0] as u32)
    } else {
        text_lt(a.drop_first(), b.drop_first())
    }
}

fn text_less(a: &[char], b: &[char]) -> (r: bool)
    ensures
        r == text_lt(a@, b@),
{
    let mut i: usize = 0;
    proof {
        assert(a@.skip(0) =~= a@);
        assert(b@.skip(0) =~= b@);
    }
    while i < a.len() && i < b.len() && a[i] == b[i]
        invariant
            i <= a@.len(),
            i <= b@.len(),
            text_lt(a@, b@) == text_lt(a@.skip(i as int), b@.skip(i as int)),
        decreases a@.len() - i,
    {
        proof {
            assert(a@.skip(i as int).drop_first() =~= a@.skip(i + 1));
            assert(b@.skip(i as int).drop_first() =~= b@.skip(i + 1));
            assert(a@.skip(i as int)[0] == a@[i as int]);
            assert(b@.skip(i as int)[0] == b@[i as int]);
        }
        i += 1;
    }
    proof {
        if i < a@.len() {
            assert(a@.skip(i as int)[0] == a@[i as int]);
        }
        if i < b@.len() {
            assert(b@.skip(i as int)[0] == b@[i as int]);
        }
    }
    if i == a.len() {
        i < b.len()
    } else if i == b.len() {
        false
    } else {
        (a[i] as u32) < (b[i] as u32)
    }
}

/// Where key `i` goes among the ordered indices `o`, from position `p`:
/// before the first whose key it sorts strictly before, else at the end,
/// so equal keys keep their order.
pub open spec fn insert_pos(o: Seq<int>, keys: Seq<Seq<char>>, i: int, p: int) -> int
    decreases o.len() - p,
{
    if p < 0 || p >= o.len() {
        o.len() as int
    } else if text_lt(keys[i], keys[o[p]]) {
        p
    } else {
        insert_pos(o, keys, i, p + 1)
    }
}

/// The indices of the first `n` keys in stably sorted order, as inserting
/// them one by one gives (what a stable sort by key gives).
pub open spec fn sorted_order(keys: Seq<Seq<char>>, n: nat) -> Seq<int>
    decreases n,
{
    if n == 0 {
        seq![]
    } else {
        let o = sorted_order(keys, (n - 1) as nat);
        o.insert(insert_pos(o, keys, n - 1, 0), n - 1)
    }
}

proof fn lemma_insert_pos_bounds(o: Seq<int>, keys: Seq<Seq<char>>, i: int, p: int)
    requires
        0 <= p <= o.len(),
    ensures
        p <= insert_pos(o, keys, i, p) <= o.len(),
    decreases o.len() - p,
{
    if p < o.len() && !text_lt(keys[i], keys[o[p]]) {
        lemma_insert_pos_bounds(o, keys, i, p + 1);
    }
}

proof fn lemma_sorted_order_indices(keys: Seq<Seq<char>>, n: nat)
    ensures
        sorted_order(keys, n).len() == n,
        forall|k: int| 0 <= k < n ==> 0 <= #[trigger] sorted_order(keys, n)[k] < n,
    decreases n,
{
    if n > 0 {
        let o = sorted_order(keys, (n - 1) as nat);
        lemma_sorted_order_indices(keys, (n - 1) as nat);
        lemma_insert_pos_bounds(o, keys, n - 1, 0);
        let q = insert_pos(o, keys, n - 1, 0);
        assert forall|k: int| 0 <= k < n implies 0 <= #[trigger] sorted_order(keys, n)[k] < n by {
            if k < q {
                assert(sorted_order(keys, n)[k] == o[k]);
            } else if k > q {
                assert(sorted_order(keys, n)[k] == o[k - 1]);
            }
        }
    }
}

pub open spec fn indices_view(o: Seq<usize>) -> Seq<int> {
    o.map_values(|x: usize| x as int)
}

/// The order in which to list items with these keys: their indices,
/// stably sorted by key.
pub fn sort_indices(keys: &Vec<Vec<char>>) -> (o: Vec<usize>)
    ensures
        indices_view(o@) == sorted_order(keys@.map_values(|k: Vec<char>| k@), keys@.len() as nat),
        forall|k: int| 0 <= k < o@.len() ==> (#[trigger] o@[k]) < keys@.len(),
{
    let ghost ks = keys@.map_values(|k: Vec<char>| k@);
    let mut o: Vec<usize> = Vec::new();
    let mut i: usize = 0;
    proof {
        assert(indices_view(o@) =~= seq![]);
    }
    while i < keys.len()
        invariant
            i <= keys@.len(),
            ks == keys@.map_values(|k: Vec<char>| k@),
            indices_view(o@) == sorted_order(ks, i as nat),
            o@.len() == i,
            forall|k: int| 0 <= k < o@.len() ==> (#[trigger] o@[k]) < i,
        decreases keys@.len() - i,
    {
        let ghost ov = indices_view(o@);
        let mut p: usize = 0;
        while p < o.len() && !text_less(keys[i].as_slice(), keys[o[p]].as_slice())
            invariant
                p <= o@.len(),
                i < keys@.len(),
                ks == keys@.map_values(|k: Vec<char>| k@),
                ov == indices_view(o@),
                forall|k: int| 0 <= k < o@.len() ==> (#[trigger] o@[k]) < i,
                insert_pos(ov, ks, i as int, 0) == insert_pos(ov, ks, i as int, p as int),
            decreases o@.len() - p,
        {
            proof {
                assert(ov[p as int] == o@[p as int] as int);
                assert(ks[i as int] == keys@[i as int]@);
                assert(ks[o@[p as int] as int] == keys@[o@[p as int] as int]@);
            }
            p += 1;
        }
        proof {
            if p < o@.len() {
                assert(ov[p as int] == o@[p as int] as int);
                assert(ks[i as int] == keys@[i as int]@);
                assert(ks[o@[p as int] as int] == keys@[o@[p as int] as int]@);
            }
            assert(insert_pos(ov, ks, i as int, p as int) == p);
        }
        o.insert(p, i);
        proof {
            assert(indices_view(o@) =~= ov.insert(p as int, i as int));
        }
        i += 1;
    }
    o
}

// ---------------------------------------------------------------------------
// Parameter types
// ---------------------------------------------------------------------------

/// The `type` key of a JSON schema.
#[derive(Clone, Debug)]
pub enum TypeField {
    /// No `type` key.
    Absent,
    /// A string.
    Text(String),
    /// An array; its string entries (others are `None`).
    Texts(Vec<Option<String>>),
    /// Any other JSON value.
    Other,
}

/// What of a parameter's JSON schema its type is read from.
#[derive(Debug)]
pub struct Schema {
    pub type_field: TypeField,
    /// The `items` schema, when present.
    pub items: Option<Box<Schema>>,
    /// Whether an `enum` key is present.
    pub has_enum: bool,
}

/// The string entries, in order.
pub open spec fn texts_of(ts: Seq<Option<String>>) -> Seq<Seq<char>>
    decreases ts.len(),
{
    if ts.len() == 0 {
        seq![]
    } else {
        let r = texts_of(ts.drop_last());
        match ts.last() {
            Some(t) => r.push(t@),
            None => r,
        }
    }
}

/// Parts joined with a separator.
pub open spec fn joined(parts: Seq<Seq<char>>, sep: Seq<char>) -> Seq<char>
    decreases parts.len(),
{
    if parts.len() == 0 {
        seq![]
    } else if parts.len() == 1 {
        parts[0]
    } else {
        joined(parts.drop_last(), sep) + sep + parts.last()
    }
}

/// The type shown for a parameter: an array of its items' type, the type
/// named, the types of a type array joined with `or`, `enum` for an
/// untyped enum, `any` otherwise.
pub open spec fn schema_text(s: Schema) -> Seq<char>
    decreases s,
{
    match s.type_field {
        TypeField::Text(t) => if t@ == "array"@ {
            "array of "@ + match s.items {
                Some(b) => schema_text(*b),
                None => "any"@,
            }
        } else {
            t@
        },
        TypeField::Texts(ts) => {
            let parts = texts_of(ts@);
            if parts.len() == 0 {
                "any"@
            } else {
                joined(parts, " or "@)
            }
        },
        TypeField::Other => "any"@,
        TypeField::Absent => if s.has_enum {
            "enum"@
        } else {
            "any"@
        },
    }
}

fn push_str(out: &mut Vec<char>, s: &str)
    ensures
        final(out)@ == old(out)@ + s@,
{
    let cs = chars_of(s);
    append(out, cs.as_slice());
}

fn join_texts(ts: &Vec<Option<String>>, sep: &str) -> (r: (Vec<char>, usize))
    ensures
        r.0@ == joined(texts_of(ts@), sep@),
        r.1 == texts_of(ts@).len(),
{
    let mut out: Vec<char> = Vec::new();
    let mut n: usize = 0;
    let mut i: usize = 0;
    proof {
        assert(ts@.take(0) =~= seq![]);
    }
    while i < ts.len()
        invariant
            i <= ts@.len(),
            out@ == joined(texts_of(ts@.take(i as int)), sep@),
            n == texts_of(ts@.take(i as int)).len(),
            n <= i,
        decreases ts@.len() - i,
    {
        proof {
            let t = ts@.take(i + 1);
            assert(t.drop_last() =~= ts@.take(i as int));
        }
        match &ts[i] {
            Some(t) => {
                let ghost prev = texts_of(ts@.take(i as int));
                if n > 0 {
                    push_str(&mut out, sep);
                }
                push_str(&mut out, t.as_str());
                n += 1;
                proof {
                    let q = prev.push(t@);
                    assert(q.drop_last() =~= prev);
                    if prev.len() == 0 {
                        assert(out@ =~= q[0]);
                    }
                }
            },
            None => {},
        }
        i += 1;
    }
    proof {
        assert(ts@.take(ts@.len() as int) =~= ts@);
    }
    (out, n)
}

/// The type shown for a parameter, read from its schema.
pub fn schema_type(s: &Schema) -> (out: Vec<char>)
    ensures
        out@ == schema_text(*s),
    decreases s,
{
    match &s.type_field {
        TypeField::Text(t) => {
            if crate::text::str_eq(t.as_str(), "array") {
                let mut out = chars_of("array of ");
                match &s.items {
                    Some(b) => {
                        let inner = schema_type(&**b);
                        append(&mut out, inner.as_slice());
                    },
                    None => push_str(&mut out, "any"),
                }
                out
            } else {
                chars_of(t.as_str())
            }
        },
        TypeField::Texts(ts) => {
            let (j, n) = join_texts(ts, " or ");
            if n == 0 {
                chars_of("any")
            } else {
                j
            }
        },
        TypeField::Other => chars_of("any"),
        TypeField::Absent => if s.has_enum {
            chars_of("enum")
        } else {
            chars_of("any")
        },
    }
}

// ---------------------------------------------------------------------------
// The page of a domain's tools
// ---------------------------------------------------------------------------

/// One parameter of a tool: a property of its input schema.
#[derive(Debug)]
pub struct ParamDoc {
    pub name: String,
    pub schema: Schema,
    /// Its `description`, when it is a string.
    pub description: Option<String>,
}

/// One tool.
#[derive(Debug)]
pub struct ToolDoc {
    pub name: String,
    pub description: String,
    /// The properties of its input schema.
    pub params: Vec<ParamDoc>,
    /// The string entries of its schema's `required` list.
    pub required: Vec<String>,
}

pub open spec fn tool_names(ts: Seq<ToolDoc>) -> Seq<Seq<char>> {
    ts.map_values(|t: ToolDoc| t.name@)
}

pub open spec fn param_names(ps: Seq<ParamDoc>) -> Seq<Seq<char>> {
    ps.map_values(|p: ParamDoc| p.name@)
}

/// The tools in the order they are listed: stably sorted by name.
pub open spec fn ordered_tools(ts: Seq<ToolDoc>) -> Seq<ToolDoc> {
    sorted_order(tool_names(ts), ts.len()).map_values(|k: int| ts[k])
}

/// The parameters in the order they are listed: sorted by name.
pub open spec fn ordered_params(ps: Seq<ParamDoc>) -> Seq<ParamDoc> {
    sorted_order(param_names(ps), ps.len()).map_values(|k: int| ps[k])
}

/// The HTTP route with the tool's name as its handler, if any.
pub open spec fn http_ref(http: HttpModel, name: Seq<char>) -> Option<Seq<char>> {
    let rs = all_routes(http.domains@);
    let k = first_handler(rs, name);
    if k >= 0 {
        Some("HTTP `"@ + rs[k].method@ + " "@ + rs[k].path@ + "`"@)
    } else {
        None
    }
}

/// The gRPC method the tool's name maps to, if any.
pub open spec fn grpc_ref(services: Seq<ServiceDoc>, name: Seq<char>) -> Option<Seq<char>> {
    match method_match(services, pascal_of(split_on(name, '_'))) {
        Some((i, j)) => Some("gRPC `"@ + services[i].name@ + "."@ + services[i].methods@[j].name@ + "`"@),
        None => None,
    }
}

pub open spec fn opt_seq(o: Option<Seq<char>>) -> Seq<Seq<char>> {
    match o {
        Some(t) => seq![t],
        None => seq![],
    }
}

/// The cross-reference line of a tool.
pub open spec fn see_also(refs: Seq<Seq<char>>) -> Seq<char> {
    if refs.len() == 0 {
        "_No matching HTTP/gRPC operation found (this tool may be MCP-only)._\n\n"@
    } else {
        "**See also:** "@ + joined(refs, " &middot; "@) + "\n\n"@
    }
}

pub open spec fn param_row(p: ParamDoc, required: Seq<Seq<char>>) -> Seq<char> {
    let desc = match p.description {
        Some(d) => d@,
        None => seq![],
    };
    "| `"@ + p.name@ + "` | "@ + schema_text(p.schema) + " | "@ + (if required.contains(p.name@) {
        "yes"@
    } else {
        "no"@
    }) + " | "@ + escaped(desc) + " |\n"@
}

pub open spec fn param_rows(ps: Seq<ParamDoc>, required: Seq<Seq<char>>) -> Seq<char>
    decreases ps.len(),
{
    if ps.len() == 0 {
        seq![]
    } else {
        param_rows(ps.drop_last(), required) + param_row(ps.last(), required)
    }
}

pub open spec fn texts(v: Seq<String>) -> Seq<Seq<char>> {
    v.map_values(|s: String| s@)
}

/// The section of one tool: its name, description, cross-references and
/// parameter table.
pub open spec fn tool_section(t: ToolDoc, http: HttpModel, services: Seq<ServiceDoc>) -> Seq<char> {
    "## "@ + t.name@ + "\n\n"@ + (if t.description@.len() > 0 {
        t.description@ + "\n\n"@
    } else {
        seq![]
    }) + see_also(opt_seq(http_ref(http, t.name@)) + opt_seq(grpc_ref(services, t.name@))) + (if t.params@.len()
        == 0 {
        "_No parameters._\n\n"@
    } else {
        "| Parameter | Type | Required | Description |\n|---|---|---|---|\n"@ + param_rows(
            ordered_params(t.params@),
            texts(t.required@),
        ) + "\n"@
    })
}

pub open spec fn tool_sections(ts: Seq<ToolDoc>, http: HttpModel, services: Seq<ServiceDoc>) -> Seq<char>
    decreases ts.len(),
{
    if ts.len() == 0 {
        seq![]
    } else {
        tool_sections(ts.drop_last(), http, services) + tool_section(ts.last(), http, services)
    }
}

pub open spec fn tools_source() -> Seq<char> {
    "the live `rmcp::ToolRouter` this crate's MCP server actually registers (`McpServer::tool_router_*` in `src-tauri/src/mcp/`), via `ToolRouter::list_all()`"@
}

pub open spec fn tools_intro() -> Seq<char> {
    "Each tool below is a thin wrapper over the identical operation the [HTTP](../http/machine.md) and [gRPC](../grpc/machine.md) APIs expose: same underlying `MaslowService` method, same effect on the machine, just a different transport. The **See also** line under each tool cross-references the other two surfaces, found by matching the tool's name against the real HTTP route table and the compiled proto descriptor (not a hand-maintained mapping, so it can't point at the wrong route).\n\n"@
}

/// The tools page of a domain.
pub open spec fn tools_page(domain: Seq<char>, tools: Seq<ToolDoc>, http: HttpModel, services: Seq<ServiceDoc>) -> Seq<char> {
    let head = frontmatter_of(domain, capitalized(domain) + " tools (MCP)"@) + banner_of(tools_source())
        + tools_intro();
    if tools.len() == 0 {
        head + "_No tools registered in this domain._\n"@
    } else {
        head + tool_sections(ordered_tools(tools), http, services)
    }
}

fn name_keys_tools(ts: &Vec<ToolDoc>) -> (keys: Vec<Vec<char>>)
    ensures
        keys@.map_values(|k: Vec<char>| k@) == tool_names(ts@),
{
    let mut keys: Vec<Vec<char>> = Vec::new();
    let mut i: usize = 0;
    while i < ts.len()
        invariant
            i <= ts@.len(),
            keys@.map_values(|k: Vec<char>| k@) == tool_names(ts@.take(i as int)),
        decreases ts@.len() - i,
    {
        let ghost prev = keys@.map_values(|k: Vec<char>| k@);
        keys.push(chars_of(ts[i].name.as_str()));
        proof {
            assert(keys@.map_values(|k: Vec<char>| k@) =~= prev.push(ts@[i as int].name@));
            assert(ts@.take(i + 1).drop_last() =~= ts@.take(i as int));
            assert(tool_names(ts@.take(i + 1)) =~= tool_names(ts@.take(i as int)).push(ts@[i as int].name@));
        }
        i += 1;
    }
    proof {
        assert(ts@.take(ts@.len() as int) =~= ts@);
    }
    keys
}

fn name_keys_params(ps: &Vec<ParamDoc>) -> (keys: Vec<Vec<char>>)
    ensures
        keys@.map_values(|k: Vec<char>| k@) == param_names(ps@),
{
    let mut keys: Vec<Vec<char>> = Vec::new();
    let mut i: usize = 0;
    while i < ps.len()
        invariant
            i <= ps@.len(),
            keys@.map_values(|k: Vec<char>| k@) == param_names(ps@.take(i as int)),
        decreases ps@.len() - i,
    {
        let ghost prev = keys@.map_values(|k: Vec<char>| k@);
        keys.push(chars_of(ps[i].name.as_str()));
        proof {
            assert(keys@.map_values(|k: Vec<char>| k@) =~= prev.push(ps@[i as int].name@));
            assert(ps@.take(i + 1).drop_last() =~= ps@.take(i as int));
            assert(param_names(ps@.take(i + 1)) =~= param_names(ps@.take(i as int)).push(ps@[i as int].name@));
        }
        i += 1;
    }
    proof {
        assert(ps@.take(ps@.len() as int) =~= ps@);
    }
    keys
}

fn is_required(required: &Vec<String>, name: &str) -> (b: bool)
    ensures
        b == texts(required@).contains(name@),
{
    let mut i: usize = 0;
    while i < required.len()
        invariant
            i <= required@.len(),
            forall|k: int| 0 <= k < i ==> required@[k]@ != name@,
        decreases required@.len() - i,
    {
        if crate::text::str_eq(required[i].as_str(), name) {
            proof {
                assert(texts(required@)[i as int] == name@);
            }
            return true;
        }
        i += 1;
    }
    proof {
        if texts(required@).contains(name@) {
            let k = choose|k: int| 0 <= k < texts(required@).len() && texts(required@)[k] == name@;
            assert(required@[k]@ == name@);
        }
    }
    false
}

fn param_row_exec(p: &ParamDoc, required: &Vec<String>) -> (out: Vec<char>)
    ensures
        out@ == param_row(*p, texts(required@)),
{
    let d = match &p.description {
        Some(d) => md_escape(d.as_str()),
        None => md_escape(""),
    };
    let mut out = chars_of("| `");
    push_str(&mut out, p.name.as_str());
    push_str(&mut out, "` | ");
    let ty = schema_type(&p.schema);
    append(&mut out, ty.as_slice());
    push_str(&mut out, " | ");
    if is_required(required, p.name.as_str()) {
        push_str(&mut out, "yes");
    } else {
        push_str(&mut out, "no");
    }
    push_str(&mut out, " | ");
    push_str(&mut out, d.as_str());
    push_str(&mut out, " |\n");
    proof {
        reveal_strlit("");
        assert(out@ =~= param_row(*p, texts(required@)));
    }
    out
}

fn params_table(t: &ToolDoc) -> (out: Vec<char>)
    requires
        t.params@.len() > 0,
    ensures
        out@ == "| Parameter | Type | Required | Description |\n|---|---|---|---|\n"@ + param_rows(
            ordered_params(t.params@),
            texts(t.required@),
        ) + "\n"@,
{
    let keys = name_keys_params(&t.params);
    let o = sort_indices(&keys);
    let ghost ps = t.params@;
    let ghost ord = ordered_params(ps);
    let ghost req = texts(t.required@);
    proof {
        assert(keys@.len() == keys@.map_values(|k: Vec<char>| k@).len());
        lemma_sorted_order_indices(param_names(ps), ps.len() as nat);
        assert(o@.len() == indices_view(o@).len());
    }
    let mut out = chars_of("| Parameter | Type | Required | Description |\n|---|---|---|---|\n");
    let ghost top = out@;
    let mut k: usize = 0;
    proof {
        assert(param_rows(ord.take(0), req) =~= seq![]);
        assert(out@ =~= top + param_rows(ord.take(0), req));
    }
    while k < o.len()
        invariant
            k <= o@.len(),
            o@.len() == ps.len(),
            ps == t.params@,
            ord == ordered_params(ps),
            req == texts(t.required@),
            indices_view(o@) == sorted_order(param_names(ps), ps.len() as nat),
            forall|m: int| 0 <= m < o@.len() ==> (#[trigger] o@[m]) < ps.len(),
            out@ == top + param_rows(ord.take(k as int), req),
        decreases o@.len() - k,
    {
        let idx = o[k];
        let r = param_row_exec(&t.params[idx], &t.required);
        append(&mut out, r.as_slice());
        proof {
            assert(indices_view(o@)[k as int] == idx as int);
            assert(ord[k as int] == ps[idx as int]);
            let tk = ord.take(k + 1);
            assert(tk.drop_last() =~= ord.take(k as int));
            assert(out@ =~= top + param_rows(tk, req));
        }
        k += 1;
    }
    push_str(&mut out, "\n");
    proof {
        assert(ord.len() == ps.len());
        assert(ord.take(ps.len() as int) =~= ord);
    }
    out
}

fn see_also_exec(http: &HttpModel, services: &Vec<ServiceDoc>, name: &str) -> (out: Vec<char>)
    ensures
        out@ == see_also(opt_seq(http_ref(*http, name@)) + opt_seq(grpc_ref(services@, name@))),
{
    let mut refs: Vec<Vec<char>> = Vec::new();
    match http.route_for_handler(name) {
        Some(route) => {
            let mut r = chars_of("HTTP `");
            push_str(&mut r, route.method.as_str());
            push_str(&mut r, " ");
            push_str(&mut r, route.path.as_str());
            push_str(&mut r, "`");
            refs.push(r);
        },
        None => {},
    }
    let ghost h = refs@.map_values(|v: Vec<char>| v@);
    proof {
        assert(h =~= opt_seq(http_ref(*http, name@)));
    }
    match method_for_tool_name(services, name) {
        Some((s, m)) => {
            let mut r = chars_of("gRPC `");
            push_str(&mut r, s.as_str());
            push_str(&mut r, ".");
            push_str(&mut r, m.as_str());
            push_str(&mut r, "`");
            refs.push(r);
        },
        None => {},
    }
    let ghost all = refs@.map_values(|v: Vec<char>| v@);
    proof {
        assert(all =~= opt_seq(http_ref(*http, name@)) + opt_seq(grpc_ref(services@, name@)));
    }
    if refs.len() == 0 {
        return chars_of("_No matching HTTP/gRPC operation found (this tool may be MCP-only)._\n\n");
    }
    let mut out = chars_of("**See also:** ");
    append(&mut out, refs[0].as_slice());
    proof {
        assert(refs@[0]@ == all[0]);
        assert(all.len() <= 2);
    }
    if refs.len() == 2 {
        push_str(&mut out, " &middot; ");
        append(&mut out, refs[1].as_slice());
        proof {
            assert(refs@[1]@ == all[1]);
            assert(all.drop_last() =~= seq![all[0]]);
            assert(joined(all, " &middot; "@) == joined(all.drop_last(), " &middot; "@) + " &middot; "@ + all.last());
        }
    }
    push_str(&mut out, "\n\n");
    proof {
        assert(out@ =~= see_also(all));
    }
    out
}

fn tool_section_exec(t: &ToolDoc, http: &HttpModel, services: &Vec<ServiceDoc>) -> (out: Vec<char>)
    ensures
        out@ == tool_section(*t, *http, services@),
{
    let mut out = chars_of("## ");
    push_str(&mut out, t.name.as_str());
    push_str(&mut out, "\n\n");
    if chars_of(t.description.as_str()).len() > 0 {
        push_str(&mut out, t.description.as_str());
        push_str(&mut out, "\n\n");
    }
    let sa = see_also_exec(http, services, t.name.as_str());
    append(&mut out, sa.as_slice());
    if t.params.len() == 0 {
        push_str(&mut out, "_No parameters._\n\n");
    } else {
        let tab = params_table(t);
        append(&mut out, tab.as_slice());
    }
    proof {
        assert(out@ =~= tool_section(*t, *http, services@));
    }
    out
}

/// Render the MCP tools page of a domain: front matter, provenance note,
/// the introduction, then each tool, by name, with its cross-references to
/// the HTTP routes and gRPC services given and its parameters by name (or a
/// note that the domain has no tools).
pub fn render_tools_domain(domain: &str, tools: &Vec<ToolDoc>, http: &HttpModel, services: &Vec<ServiceDoc>) -> (page: String)
    ensures
        page@ == tools_page(domain@, tools@, *http, services@),
{
    let d = chars_of(domain);
    let mut title = capitalize(d.as_slice());
    push_str(&mut title, " tools (MCP)");
    let fm = frontmatter(domain, string_of(title.as_slice()).as_str());
    let banner = generated_banner(
        "the live `rmcp::ToolRouter` this crate's MCP server actually registers (`McpServer::tool_router_*` in `src-tauri/src/mcp/`), via `ToolRouter::list_all()`",
    );
    let mut out = chars_of(fm.as_str());
    push_str(&mut out, banner.as_str());
    push_str(
        &mut out,
        "Each tool below is a thin wrapper over the identical operation the [HTTP](../http/machine.md) and [gRPC](../grpc/machine.md) APIs expose: same underlying `MaslowService` method, same effect on the machine, just a different transport. The **See also** line under each tool cross-references the other two surfaces, found by matching the tool's name against the real HTTP route table and the compiled proto descriptor (not a hand-maintained mapping, so it can't point at the wrong route).\n\n",
    );
    if tools.len() == 0 {
        push_str(&mut out, "_No tools registered in this domain._\n");
        proof {
            assert(out@ =~= tools_page(domain@, tools@, *http, services@));
        }
        return string_of(out.as_slice());
    }
    let keys = name_keys_tools(tools);
    let o = sort_indices(&keys);
    let ghost ts = tools@;
    let ghost ord = ordered_tools(ts);
    proof {
        assert(keys@.len() == keys@.map_values(|k: Vec<char>| k@).len());
        lemma_sorted_order_indices(tool_names(ts), ts.len() as nat);
        assert(o@.len() == indices_view(o@).len());
    }
    let ghost top = out@;
    let mut k: usize = 0;
    proof {
        assert(tool_sections(ord.take(0), *http, services@) =~= seq![]);
        assert(out@ =~= top + tool_sections(ord.take(0), *http, services@));
    }
    while k < o.len()
        invariant
            k <= o@.len(),
            o@.len() == ts.len(),
            ts == tools@,
            ord == ordered_tools(ts),
            indices_view(o@) == sorted_order(tool_names(ts), ts.len() as nat),
            forall|m: int| 0 <= m < o@.len() ==> (#[trigger] o@[m]) < ts.len(),
            out@ == top + tool_sections(ord.take(k as int), *http, services@),
        decreases o@.len() - k,
    {
        let idx = o[k];
        let sec = tool_section_exec(&tools[idx], http, services);
        append(&mut out, sec.as_slice());
        proof {
            assert(indices_view(o@)[k as int] == idx as int);
            assert(ord[k as int] == ts[idx as int]);
            let tk = ord.take(k + 1);
            assert(tk.drop_last() =~= ord.take(k as int));
            assert(out@ =~= top + tool_sections(tk, *http, services@));
        }
        k += 1;
    }
    proof {
        assert(ord.len() == ts.len());
        assert(ord.take(ts.len() as int) =~= ord);
        assert(out@ =~= tools_page(domain@, tools@, *http, services@));
    }
    string_of(out.as_slice())
}

} // verus!
