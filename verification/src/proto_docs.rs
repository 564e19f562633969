//! The gRPC API reference pages: one markdown page per service, with its
//! methods and every message and enum its requests and responses reach.
//! The service description comes in as plain values (names, kinds, leading
//! comments, fields); reading it out of the compiled proto descriptors is
//! the caller's.

use crate::docs::{
    banner_of, escaped, frontmatter, frontmatter_of, generated_banner, md_escape, pascal_of, snake_to_pascal,
};
use crate::routes::opt_chars;
use crate::text::{
    append, chars_of, decimal, decimal_of, split_on, string_of, to_lowercase, trim, trim_chars,
    unicode_lower,
};
use vstd::prelude::*;

verus! {

/// The type of a proto field: a scalar, or a message or enum by name.
#[derive(Clone, Debug)]
pub enum ProtoKind {
    Double,
    Float,
    Int32,
    Int64,
    Uint32,
    Uint64,
    Sint32,
    Sint64,
    Fixed32,
    Fixed64,
    Sfixed32,
    Sfixed64,
    Bool,
    Str,
    Bytes,
    Message(String),
    Enum(String),
}

/// One field of a message.
#[derive(Clone, Debug)]
pub struct FieldDoc {
    pub name: String,
    pub kind: ProtoKind,
    /// Key and value kinds, for a map field.
    pub map: Option<(ProtoKind, ProtoKind)>,
    pub repeated: bool,
    /// Whether the field tracks presence.
    pub presence: bool,
    /// The oneof it belongs to, if any.
    pub oneof: Option<String>,
    /// Its leading comment in the proto source, as written.
    pub comment: Option<String>,
}

/// A message type.
#[derive(Clone, Debug)]
pub struct MessageDoc {
    pub name: String,
    pub comment: Option<String>,
    pub fields: Vec<FieldDoc>,
}

/// One value of an enum.
#[derive(Clone, Debug)]
pub struct EnumValueDoc {
    pub name: String,
    pub number: i32,
    pub comment: Option<String>,
}

/// An enum type.
#[derive(Clone, Debug)]
pub struct EnumDoc {
    pub name: String,
    pub comment: Option<String>,
    pub values: Vec<EnumValueDoc>,
}

/// A type reachable from a service.
#[derive(Clone, Debug)]
pub enum TypeDoc {
    Message(MessageDoc),
    Enum(EnumDoc),
}

/// One RPC.
#[derive(Clone, Debug)]
pub struct MethodDoc {
    pub name: String,
    pub comment: Option<String>,
    pub client_streaming: bool,
    pub server_streaming: bool,
    /// The request message's name.
    pub input: String,
    /// The response message's name.
    pub output: String,
}

/// A service.
#[derive(Clone, Debug)]
pub struct ServiceDoc {
    pub name: String,
    pub full_name: String,
    pub comment: Option<String>,
    pub methods: Vec<MethodDoc>,
}

fn push_str(out: &mut Vec<char>, s: &str)
    ensures
        final(out)@ == old(out)@ + s@,
{
    let cs = chars_of(s);
    append(out, cs.as_slice());
}

/// A leading comment as shown: trimmed, and absent when blank.
pub open spec fn comment_of(c: Option<Seq<char>>) -> Option<Seq<char>> {
    match c {
        Some(t) => if trim(t).len() > 0 {
            Some(trim(t))
        } else {
            None
        },
        None => None,
    }
}

/// A comment paragraph, or nothing.
pub open spec fn comment_block(c: Option<String>) -> Seq<char> {
    match comment_of(opt_chars(c)) {
        Some(t) => t + "\n\n"@,
        None => seq![],
    }
}

fn comment_block_exec(c: &Option<String>) -> (out: Vec<char>)
    ensures
        out@ == comment_block(*c),
{
    match c {
        Some(t) => {
            let mut v = trim_chars(chars_of(t.as_str()).as_slice());
            if v.len() > 0 {
                push_str(&mut v, "\n\n");
                v
            } else {
                Vec::new()
            }
        },
        None => Vec::new(),
    }
}

/// A link to a type's section: its name in backticks, anchored at its
/// lowercased name.
pub open spec fn type_link(name: Seq<char>) -> Seq<char> {
    "[`"@ + name + "`](#"@ + unicode_lower(name) + ")"@
}

fn type_link_exec(name: &str) -> (out: Vec<char>)
    ensures
        out@ == type_link(name@),
{
    let mut out = chars_of("[`");
    push_str(&mut out, name);
    push_str(&mut out, "`](#");
    let low = to_lowercase(name);
    push_str(&mut out, low.as_str());
    push_str(&mut out, ")");
    out
}

/// The name a kind is shown by.
pub open spec fn kind_text(k: ProtoKind) -> Seq<char> {
    match k {
        ProtoKind::Double => "double"@,
        ProtoKind::Float => "float"@,
        ProtoKind::Int32 => "int32"@,
        ProtoKind::Int64 => "int64"@,
        ProtoKind::Uint32 => "uint32"@,
        ProtoKind::Uint64 => "uint64"@,
        ProtoKind::Sint32 => "sint32"@,
        ProtoKind::Sint64 => "sint64"@,
        ProtoKind::Fixed32 => "fixed32"@,
        ProtoKind::Fixed64 => "fixed64"@,
        ProtoKind::Sfixed32 => "sfixed32"@,
        ProtoKind::Sfixed64 => "sfixed64"@,
        ProtoKind::Bool => "bool"@,
        ProtoKind::Str => "string"@,
        ProtoKind::Bytes => "bytes"@,
        ProtoKind::Message(n) => type_link(n@),
        ProtoKind::Enum(n) => type_link(n@),
    }
}

/// The name a kind is shown by, as a scalar's name or a link to the type.
pub fn scalar_or_name(k: &ProtoKind) -> (out: Vec<char>)
    ensures
        out@ == kind_text(*k),
{
    match k {
        ProtoKind::Double => chars_of("double"),
        ProtoKind::Float => chars_of("float"),
        ProtoKind::Int32 => chars_of("int32"),
        ProtoKind::Int64 => chars_of("int64"),
        ProtoKind::Uint32 => chars_of("uint32"),
        ProtoKind::Uint64 => chars_of("uint64"),
        ProtoKind::Sint32 => chars_of("sint32"),
        ProtoKind::Sint64 => chars_of("sint64"),
        ProtoKind::Fixed32 => chars_of("fixed32"),
        ProtoKind::Fixed64 => chars_of("fixed64"),
        ProtoKind::Sfixed32 => chars_of("sfixed32"),
        ProtoKind::Sfixed64 => chars_of("sfixed64"),
        ProtoKind::Bool => chars_of("bool"),
        ProtoKind::Str => chars_of("string"),
        ProtoKind::Bytes => chars_of("bytes"),
        ProtoKind::Message(n) => type_link_exec(n.as_str()),
        ProtoKind::Enum(n) => type_link_exec(n.as_str()),
    }
}

/// The type column of a field: a map's key and value, a repeated or
/// optional (presence-tracking, outside any oneof) base, or the base.
pub open spec fn field_type_of(f: FieldDoc) -> Seq<char> {
    match f.map {
        Some((k, v)) => "map<"@ + kind_text(k) + ", "@ + kind_text(v) + ">"@,
        None => if f.repeated {
            "repeated "@ + kind_text(f.kind)
        } else if f.presence && f.oneof is None {
            "optional "@ + kind_text(f.kind)
        } else {
            kind_text(f.kind)
        },
    }
}

pub fn field_type(f: &FieldDoc) -> (out: Vec<char>)
    ensures
        out@ == field_type_of(*f),
{
    match &f.map {
        Some((k, v)) => {
            let mut out = chars_of("map<");
            let kt = scalar_or_name(k);
            append(&mut out, kt.as_slice());
            push_str(&mut out, ", ");
            let vt = scalar_or_name(v);
            append(&mut out, vt.as_slice());
            push_str(&mut out, ">");
            out
        },
        None => {
            let base = scalar_or_name(&f.kind);
            if f.repeated {
                let mut out = chars_of("repeated ");
                append(&mut out, base.as_slice());
                out
            } else if f.presence && f.oneof.is_none() {
                let mut out = chars_of("optional ");
                append(&mut out, base.as_slice());
                out
            } else {
                base
            }
        },
    }
}

/// A field's description: its comment, with the oneof it belongs to noted.
pub open spec fn field_desc(f: FieldDoc) -> Seq<char> {
    let desc = match comment_of(opt_chars(f.comment)) {
        Some(c) => c,
        None => seq![],
    };
    match f.oneof {
        Some(o) => {
            let note = "(part of oneof `"@ + o@ + "`)"@;
            if desc.len() == 0 {
                note
            } else {
                desc + " "@ + note
            }
        },
        None => desc,
    }
}

pub open spec fn field_row(f: FieldDoc) -> Seq<char> {
    "| `"@ + f.name@ + "` | "@ + field_type_of(f) + " | "@ + escaped(field_desc(f)) + " |\n"@
}

pub open spec fn field_rows(fs: Seq<FieldDoc>) -> Seq<char>
    decreases fs.len(),
{
    if fs.len() == 0 {
        seq![]
    } else {
        field_rows(fs.drop_last()) + field_row(fs.last())
    }
}

/// The section of a message type.
pub open spec fn message_section(m: MessageDoc) -> Seq<char> {
    let head = "### "@ + m.name@ + "\n\n"@ + comment_block(m.comment);
    if m.fields@.len() == 0 {
        head + "_No fields._\n\n"@
    } else {
        head + "| Field | Type | Description |\n|---|---|---|\n"@ + field_rows(m.fields@) + "\n"@
    }
}

fn field_row_exec(f: &FieldDoc) -> (out: Vec<char>)
    ensures
        out@ == field_row(*f),
{
    let mut desc: Vec<char> = match &f.comment {
        Some(t) => trim_chars(chars_of(t.as_str()).as_slice()),
        None => Vec::new(),
    };
    proof {
        assert(desc@ == match comment_of(opt_chars(f.comment)) {
            Some(c) => c,
            None => seq![],
        });
    }
    match &f.oneof {
        Some(o) => {
            let mut note = chars_of("(part of oneof `");
            push_str(&mut note, o.as_str());
            push_str(&mut note, "`)");
            if desc.len() == 0 {
                desc = note;
            } else {
                push_str(&mut desc, " ");
                append(&mut desc, note.as_slice());
            }
        },
        None => {},
    }
    let ds = md_escape(string_of(desc.as_slice()).as_str());
    let mut out = chars_of("| `");
    push_str(&mut out, f.name.as_str());
    push_str(&mut out, "` | ");
    let ty = field_type(f);
    append(&mut out, ty.as_slice());
    push_str(&mut out, " | ");
    push_str(&mut out, ds.as_str());
    push_str(&mut out, " |\n");
    proof {
        assert(out@ =~= field_row(*f));
    }
    out
}

/// Render the section of a message type: its comment and a table of its
/// fields (or a note that it has none).
pub fn render_message(m: &MessageDoc) -> (out: String)
    ensures
        out@ == message_section(*m),
{
    let mut out = chars_of("### ");
    push_str(&mut out, m.name.as_str());
    push_str(&mut out, "\n\n");
    let c = comment_block_exec(&m.comment);
    append(&mut out, c.as_slice());
    if m.fields.len() == 0 {
        push_str(&mut out, "_No fields._\n\n");
        proof {
            assert(out@ =~= message_section(*m));
        }
        return string_of(out.as_slice());
    }
    push_str(&mut out, "| Field | Type | Description |\n|---|---|---|\n");
    let ghost top = out@;
    let mut i: usize = 0;
    proof {
        assert(field_rows(m.fields@.take(0)) =~= seq![]);
        assert(out@ =~= top + field_rows(m.fields@.take(0)));
    }
    while i < m.fields.len()
        invariant
            i <= m.fields@.len(),
            out@ == top + field_rows(m.fields@.take(i as int)),
        decreases m.fields@.len() - i,
    {
        let r = field_row_exec(&m.fields[i]);
        append(&mut out, r.as_slice());
        proof {
            let t = m.fields@.take(i + 1);
            assert(t.drop_last() =~= m.fields@.take(i as int));
            assert(out@ =~= top + field_rows(t));
        }
        i += 1;
    }
    push_str(&mut out, "\n");
    proof {
        assert(m.fields@.take(m.fields@.len() as int) =~= m.fields@);
        assert(out@ =~= message_section(*m));
    }
    string_of(out.as_slice())
}

pub open spec fn value_row(v: EnumValueDoc) -> Seq<char> {
    let desc = match comment_of(opt_chars(v.comment)) {
        Some(c) => c,
        None => seq![],
    };
    "| `"@ + v.name@ + "` | "@ + decimal_of(v.number as int) + " | "@ + escaped(desc) + " |\n"@
}

pub open spec fn value_rows(vs: Seq<EnumValueDoc>) -> Seq<char>
    decreases vs.len(),
{
    if vs.len() == 0 {
        seq![]
    } else {
        value_rows(vs.drop_last()) + value_row(vs.last())
    }
}

/// The section of an enum type.
pub open spec fn enum_section(e: EnumDoc) -> Seq<char> {
    "### "@ + e.name@ + "\n\n"@ + comment_block(e.comment) + "| Value | Number | Description |\n|---|---|---|\n"@
        + value_rows(e.values@) + "\n"@
}

fn value_row_exec(v: &EnumValueDoc) -> (out: Vec<char>)
    ensures
        out@ == value_row(*v),
{
    let desc: Vec<char> = match &v.comment {
        Some(t) => trim_chars(chars_of(t.as_str()).as_slice()),
        None => Vec::new(),
    };
    let ds = md_escape(string_of(desc.as_slice()).as_str());
    let mut out = chars_of("| `");
    push_str(&mut out, v.name.as_str());
    push_str(&mut out, "` | ");
    let n = decimal(v.number);
    push_str(&mut out, n.as_str());
    push_str(&mut out, " | ");
    push_str(&mut out, ds.as_str());
    push_str(&mut out, " |\n");
    proof {
        assert(out@ =~= value_row(*v));
    }
    out
}

/// Render the section of an enum type: its comment and a table of its
/// values with their numbers.
pub fn render_enum(e: &EnumDoc) -> (out: String)
    ensures
        out@ == enum_section(*e),
{
    let mut out = chars_of("### ");
    push_str(&mut out, e.name.as_str());
    push_str(&mut out, "\n\n");
    let c = comment_block_exec(&e.comment);
    append(&mut out, c.as_slice());
    push_str(&mut out, "| Value | Number | Description |\n|---|---|---|\n");
    let ghost top = out@;
    let mut i: usize = 0;
    proof {
        assert(value_rows(e.values@.take(0)) =~= seq![]);
        assert(out@ =~= top + value_rows(e.values@.take(0)));
    }
    while i < e.values.len()
        invariant
            i <= e.values@.len(),
            out@ == top + value_rows(e.values@.take(i as int)),
        decreases e.values@.len() - i,
    {
        let r = value_row_exec(&e.values[i]);
        append(&mut out, r.as_slice());
        proof {
            let t = e.values@.take(i + 1);
            assert(t.drop_last() =~= e.values@.take(i as int));
            assert(out@ =~= top + value_rows(t));
        }
        i += 1;
    }
    push_str(&mut out, "\n");
    proof {
        assert(e.values@.take(e.values@.len() as int) =~= e.values@);
        assert(out@ =~= enum_section(*e));
    }
    string_of(out.as_slice())
}

/// How an RPC streams.
pub open spec fn streaming_kind(client: bool, server: bool) -> Seq<char> {
    if !client && !server {
        "unary"@
    } else if !client && server {
        "server streaming"@
    } else if client && !server {
        "client streaming"@
    } else {
        "bidirectional streaming"@
    }
}

/// The section of one RPC.
pub open spec fn method_section(m: MethodDoc) -> Seq<char> {
    "### "@ + m.name@ + "\n\n"@ + comment_block(m.comment) + "- **Kind:** "@ + streaming_kind(
        m.client_streaming,
        m.server_streaming,
    ) + "\n"@ + "- **Request:** "@ + type_link(m.input@) + "\n"@ + "- **Response:** "@ + type_link(
        m.output@,
    ) + (if m.server_streaming {
        " (a stream of these)"@
    } else {
        seq![]
    }) + "\n\n"@
}

fn method_section_exec(m: &MethodDoc) -> (out: Vec<char>)
    ensures
        out@ == method_section(*m),
{
    let mut out = chars_of("### ");
    push_str(&mut out, m.name.as_str());
    push_str(&mut out, "\n\n");
    let c = comment_block_exec(&m.comment);
    append(&mut out, c.as_slice());
    push_str(&mut out, "- **Kind:** ");
    let kind = if !m.client_streaming && !m.server_streaming {
        "unary"
    } else if !m.client_streaming && m.server_streaming {
        "server streaming"
    } else if m.client_streaming && !m.server_streaming {
        "client streaming"
    } else {
        "bidirectional streaming"
    };
    push_str(&mut out, kind);
    push_str(&mut out, "\n");
    push_str(&mut out, "- **Request:** ");
    let i = type_link_exec(m.input.as_str());
    append(&mut out, i.as_slice());
    push_str(&mut out, "\n");
    push_str(&mut out, "- **Response:** ");
    let o = type_link_exec(m.output.as_str());
    append(&mut out, o.as_slice());
    if m.server_streaming {
        push_str(&mut out, " (a stream of these)");
    }
    push_str(&mut out, "\n\n");
    proof {
        assert(out@ =~= method_section(*m));
    }
    out
}

pub open spec fn method_sections(ms: Seq<MethodDoc>) -> Seq<char>
    decreases ms.len(),
{
    if ms.len() == 0 {
        seq![]
    } else {
        method_sections(ms.drop_last()) + method_section(ms.last())
    }
}

pub open spec fn type_section(t: TypeDoc) -> Seq<char> {
    match t {
        TypeDoc::Message(m) => message_section(m),
        TypeDoc::Enum(e) => enum_section(e),
    }
}

pub open spec fn type_sections(ts: Seq<TypeDoc>) -> Seq<char>
    decreases ts.len(),
{
    if ts.len() == 0 {
        seq![]
    } else {
        type_sections(ts.drop_last()) + type_section(ts.last())
    }
}

/// The page of one service: front matter, provenance note, the service's
/// comment and full name, a section per method in order, then a section
/// per reachable type in the order given.
pub open spec fn service_page(domain: Seq<char>, s: ServiceDoc, types: Seq<TypeDoc>) -> Seq<char> {
    frontmatter_of(domain, s.name@ + " (gRPC)"@) + banner_of(
        "`proto/maslow/v1/*.proto`'s compiled `FileDescriptorSet`, via `prost-reflect`"@,
    ) + comment_block(s.comment) + "Full name: `"@ + s.full_name@ + "`\n\n"@ + "## Methods\n\n"@
        + method_sections(s.methods@) + "## Types\n\n"@
        + "Every message and enum reachable from this service's requests and responses, including shared types defined in `common.proto`.\n\n"@
        + type_sections(types)
}

/// Render the reference page of one service. `types` are the messages and
/// enums its requests and responses reach, in the order they are listed
/// (by full name).
pub fn render_service(domain: &str, service: &ServiceDoc, types: &Vec<TypeDoc>) -> (page: String)
    ensures
        page@ == service_page(domain@, *service, types@),
{
    let mut title = chars_of(service.name.as_str());
    push_str(&mut title, " (gRPC)");
    let fm = frontmatter(domain, string_of(title.as_slice()).as_str());
    let banner = generated_banner("`proto/maslow/v1/*.proto`'s compiled `FileDescriptorSet`, via `prost-reflect`");
    let mut out = chars_of(fm.as_str());
    push_str(&mut out, banner.as_str());
    let c = comment_block_exec(&service.comment);
    append(&mut out, c.as_slice());
    push_str(&mut out, "Full name: `");
    push_str(&mut out, service.full_name.as_str());
    push_str(&mut out, "`\n\n");
    push_str(&mut out, "## Methods\n\n");
    let ghost top = out@;
    let ghost ms = service.methods@;
    let mut i: usize = 0;
    proof {
        assert(method_sections(ms.take(0)) =~= seq![]);
        assert(out@ =~= top + method_sections(ms.take(0)));
    }
    while i < service.methods.len()
        invariant
            i <= ms.len(),
            ms == service.methods@,
            out@ == top + method_sections(ms.take(i as int)),
        decreases ms.len() - i,
    {
        let r = method_section_exec(&service.methods[i]);
        append(&mut out, r.as_slice());
        proof {
            let t = ms.take(i + 1);
            assert(t.drop_last() =~= ms.take(i as int));
            assert(out@ =~= top + method_sections(t));
        }
        i += 1;
    }
    proof {
        assert(ms.take(ms.len() as int) =~= ms);
    }
    push_str(&mut out, "## Types\n\n");
    push_str(
        &mut out,
        "Every message and enum reachable from this service's requests and responses, including shared types defined in `common.proto`.\n\n",
    );
    let ghost mid = out@;
    let mut k: usize = 0;
    proof {
        assert(type_sections(types@.take(0)) =~= seq![]);
        assert(out@ =~= mid + type_sections(types@.take(0)));
    }
    while k < types.len()
        invariant
            k <= types@.len(),
            out@ == mid + type_sections(types@.take(k as int)),
        decreases types@.len() - k,
    {
        let sec = match &types[k] {
            TypeDoc::Message(m) => render_message(m),
            TypeDoc::Enum(e) => render_enum(e),
        };
        push_str(&mut out, sec.as_str());
        proof {
            let t = types@.take(k + 1);
            assert(t.drop_last() =~= types@.take(k as int));
            assert(out@ =~= mid + type_sections(t));
        }
        k += 1;
    }
    proof {
        assert(types@.take(types@.len() as int) =~= types@);
        assert(out@ =~= service_page(domain@, *service, types@));
    }
    string_of(out.as_slice())
}

/// Index of the first method with this name, or -1.
pub open spec fn method_index(ms: Seq<MethodDoc>, name: Seq<char>) -> int
    decreases ms.len(),
{
    if ms.len() == 0 {
        -1
    } else {
        let k = method_index(ms.drop_last(), name);
        if k >= 0 {
            k
        } else if ms.last().name@ == name {
            ms.len() - 1
        } else {
            -1
        }
    }
}

/// The first service, in order, that has a method of this name, and that
/// method's index in it.
pub open spec fn method_match(ss: Seq<ServiceDoc>, name: Seq<char>) -> Option<(int, int)>
    decreases ss.len(),
{
    if ss.len() == 0 {
        None
    } else {
        match method_match(ss.drop_last(), name) {
            Some(r) => Some(r),
            None => {
                let j = method_index(ss.last().methods@, name);
                if j >= 0 {
                    Some((ss.len() - 1, j))
                } else {
                    None
                }
            },
        }
    }
}

proof fn lemma_method_index_prefix(ms: Seq<MethodDoc>, name: Seq<char>, n: int)
    requires
        0 <= n <= ms.len(),
        method_index(ms.take(n), name) >= 0,
    ensures
        method_index(ms, name) == method_index(ms.take(n), name),
    decreases ms.len() - n,
{
    if n < ms.len() {
        assert(ms.take(n + 1).drop_last() =~= ms.take(n));
        lemma_method_index_prefix(ms, name, n + 1);
    } else {
        assert(ms.take(n) =~= ms);
    }
}

proof fn lemma_method_match_prefix(ss: Seq<ServiceDoc>, name: Seq<char>, n: int)
    requires
        0 <= n <= ss.len(),
        method_match(ss.take(n), name) is Some,
    ensures
        method_match(ss, name) == method_match(ss.take(n), name),
    decreases ss.len() - n,
{
    if n < ss.len() {
        assert(ss.take(n + 1).drop_last() =~= ss.take(n));
        lemma_method_match_prefix(ss, name, n + 1);
    } else {
        assert(ss.take(n) =~= ss);
    }
}

fn method_index_exec(ms: &Vec<MethodDoc>, name: &str) -> (r: Option<usize>)
    ensures
        match r {
            Some(j) => method_index(ms@, name@) == j && j < ms@.len(),
            None => method_index(ms@, name@) < 0,
        },
{
    let mut j: usize = 0;
    proof {
        assert(ms@.take(0) =~= seq![]);
    }
    while j < ms.len()
        invariant
            j <= ms@.len(),
            method_index(ms@.take(j as int), name@) < 0,
        decreases ms@.len() - j,
    {
        proof {
            assert(ms@.take(j + 1).drop_last() =~= ms@.take(j as int));
        }
        if crate::text::str_eq(ms[j].name.as_str(), name) {
            proof {
                assert(ms@.take(j + 1).last() == ms@[j as int]);
                assert(method_index(ms@.take(j + 1), name@) == j);
                lemma_method_index_prefix(ms@, name@, j + 1);
            }
            return Some(j);
        }
        j += 1;
    }
    proof {
        assert(ms@.take(ms@.len() as int) =~= ms@);
    }
    None
}

/// The RPC that an MCP tool of this name stands for: the first service, in
/// order, with a method named the tool name's PascalCase form
/// (`get_snapshot` is `GetSnapshot`); the service's name and the method's.
pub fn method_for_tool_name(services: &Vec<ServiceDoc>, tool_name: &str) -> (r: Option<(String, String)>)
    ensures
        match r {
            Some((s, m)) => {
                let hit = method_match(services@, pascal_of(split_on(tool_name@, '_')));
                &&& hit is Some
                &&& s@ == services@[hit.unwrap().0].name@
                &&& m@ == services@[hit.unwrap().0].methods@[hit.unwrap().1].name@
            },
            None => method_match(services@, pascal_of(split_on(tool_name@, '_'))) is None,
        },
{
    let pascal = snake_to_pascal(tool_name);
    let ghost name = pascal@;
    let mut i: usize = 0;
    proof {
        assert(services@.take(0) =~= seq![]);
    }
    while i < services.len()
        invariant
            i <= services@.len(),
            name == pascal@,
            name == pascal_of(split_on(tool_name@, '_')),
            method_match(services@.take(i as int), name) is None,
        decreases services@.len() - i,
    {
        proof {
            assert(services@.take(i + 1).drop_last() =~= services@.take(i as int));
            assert(services@.take(i + 1).last() == services@[i as int]);
        }
        match method_index_exec(&services[i].methods, pascal.as_str()) {
            Some(j) => {
                proof {
                    assert(method_match(services@.take(i + 1), name) == Some((i as int, j as int)));
                    lemma_method_match_prefix(services@, name, i + 1);
                }
                let s = crate::text::own(services[i].name.as_str());
                let m = crate::text::own(services[i].methods[j].name.as_str());
                proof {
                    let hit = method_match(services@, name);
                    assert(hit == Some((i as int, j as int)));
                    assert(s@ == services@[i as int].name@);
                    assert(m@ == services@[i as int].methods@[j as int].name@);
                }
                return Some((s, m));
            },
            None => {},
        }
        i += 1;
    }
    proof {
        assert(services@.take(services@.len() as int) =~= services@);
    }
    None
}

} // verus!
