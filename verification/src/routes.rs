//! The HTTP/JSON API reference: routes read from the axum router source,
//! and the markdown page of each domain.

use crate::docs::{
    banner_of, capitalize, capitalized, escaped, frontmatter, frontmatter_of, generated_banner,
    md_escape,
};
use crate::text::{
    append, chars_of, find_char, find_chars_from, find_from, is_ident, is_ident_char, string_of,
};
use vstd::prelude::*;

verus! {

/// The documented domains, each with its router source file.
pub const DOMAINS: [&'static str; 5] = ["machine", "job", "config", "files", "calibration"];

/// One registered route.
#[derive(Clone)]
pub struct HttpRoute {
    pub method: String,
    pub path: String,
    pub handler: String,
    pub doc: String,
    pub request_type: Option<String>,
    pub response_type: Option<String>,
    pub streaming: bool,
}

/// The routes of every domain, in order.
pub struct HttpModel {
    pub domains: Vec<(&'static str, Vec<HttpRoute>)>,
}

/// A route as plain values.
pub struct RouteView {
    pub method: Seq<char>,
    pub path: Seq<char>,
    pub handler: Seq<char>,
    pub doc: Seq<char>,
    pub request_type: Option<Seq<char>>,
    pub response_type: Option<Seq<char>>,
    pub streaming: bool,
}

pub open spec fn opt_chars(o: Option<String>) -> Option<Seq<char>> {
    match o {
        Some(s) => Some(s@),
        None => None,
    }
}

impl View for HttpRoute {
    type V = RouteView;

    open spec fn view(&self) -> RouteView {
        RouteView {
            method: self.method@,
            path: self.path@,
            handler: self.handler@,
            doc: self.doc@,
            request_type: opt_chars(self.request_type),
            response_type: opt_chars(self.response_type),
            streaming: self.streaming,
        }
    }
}

pub open spec fn route_views(rs: Seq<HttpRoute>) -> Seq<RouteView> {
    rs.map_values(|r: HttpRoute| r@)
}

/// Every route of the model, domain after domain.
pub open spec fn all_routes(ds: Seq<(&'static str, Vec<HttpRoute>)>) -> Seq<HttpRoute>
    decreases ds.len(),
{
    if ds.len() == 0 {
        seq![]
    } else {
        all_routes(ds.drop_last()) + ds.last().1@
    }
}

/// Index of the first route with this handler, or -1.
pub open spec fn first_handler(rs: Seq<HttpRoute>, handler: Seq<char>) -> int
    decreases rs.len(),
{
    if rs.len() == 0 {
        -1
    } else if rs[0].handler@ == handler {
        0
    } else if first_handler(rs.drop_first(), handler) < 0 {
        -1
    } else {
        1 + first_handler(rs.drop_first(), handler)
    }
}

proof fn lemma_first_handler_append(a: Seq<HttpRoute>, b: Seq<HttpRoute>, h: Seq<char>)
    ensures
        first_handler(a + b, h) == if first_handler(a, h) >= 0 {
            first_handler(a, h)
        } else if first_handler(b, h) >= 0 {
            a.len() + first_handler(b, h)
        } else {
            -1
        },
    decreases a.len(),
{
    if a.len() > 0 {
        assert((a + b).drop_first() =~= a.drop_first() + b);
        lemma_first_handler_append(a.drop_first(), b, h);
    } else {
        assert(a + b =~= b);
    }
}

proof fn lemma_first_handler_range(rs: Seq<HttpRoute>, h: Seq<char>)
    ensures
        -1 <= first_handler(rs, h) < rs.len(),
        first_handler(rs, h) >= 0 ==> rs[first_handler(rs, h)].handler@ == h,
    decreases rs.len(),
{
    if rs.len() > 0 && rs[0].handler@ != h {
        lemma_first_handler_range(rs.drop_first(), h);
    }
}

/// The first route, across every domain, whose handler function has this
/// name.
fn first_in(rs: &Vec<HttpRoute>, handler: &str) -> (r: Option<usize>)
    ensures
        match r {
            Some(i) => first_handler(rs@, handler@) == i,
            None => first_handler(rs@, handler@) == -1,
        },
{
    let mut i: usize = 0;
    proof {
        assert(rs@.skip(0) =~= rs@);
    }
    while i < rs.len()
        invariant
            i <= rs@.len(),
            forall|k: int| 0 <= k < i ==> rs@[k].handler@ != handler@,
            first_handler(rs@, handler@) == if first_handler(rs@.skip(i as int), handler@) < 0 {
                -1
            } else {
                i + first_handler(rs@.skip(i as int), handler@)
            },
        decreases rs@.len() - i,
    {
        if crate::text::str_eq(rs[i].handler.as_str(), handler) {
            return Some(i);
        }
        proof {
            assert(rs@.skip(i as int).drop_first() =~= rs@.skip(i + 1));
        }
        i += 1;
    }
    None
}

impl HttpModel {
    /// Find a route by its handler function name, across every domain in
    /// order (handler names and MCP tool names are the same snake_case
    /// operation names).
    pub fn route_for_handler(&self, handler: &str) -> (r: Option<&HttpRoute>)
        ensures
            match r {
                Some(x) => first_handler(all_routes(self.domains@), handler@) >= 0 && *x == all_routes(
                    self.domains@,
                )[first_handler(all_routes(self.domains@), handler@)],
                None => first_handler(all_routes(self.domains@), handler@) == -1,
            },
    {
        let ghost ds = self.domains@;
        let mut d: usize = 0;
        proof {
            assert(all_routes(ds.take(0)) =~= seq![]);
        }
        while d < self.domains.len()
            invariant
                d <= ds.len(),
                ds == self.domains@,
                first_handler(all_routes(ds.take(d as int)), handler@) == -1,
            decreases ds.len() - d,
        {
            let ghost before = all_routes(ds.take(d as int));
            proof {
                assert(ds.take(d + 1).drop_last() =~= ds.take(d as int));
                lemma_first_handler_append(before, ds[d as int].1@, handler@);
            }
            match first_in(&self.domains[d].1, handler) {
                Some(i) => {
                    proof {
                        let rest = ds.skip(d + 1);
                        assert(ds =~= ds.take(d + 1) + rest);
                        lemma_all_routes_append(ds.take(d + 1), rest);
                        lemma_first_handler_append(all_routes(ds.take(d + 1)), all_routes(rest), handler@);
                        lemma_first_handler_range(ds[d as int].1@, handler@);
                    }
                    return Some(&self.domains[d].1[i]);
                },
                None => {},
            }
            d += 1;
        }
        proof {
            assert(ds.take(ds.len() as int) =~= ds);
        }
        None
    }
}

proof fn lemma_all_routes_append(a: Seq<(&'static str, Vec<HttpRoute>)>, b: Seq<(&'static str, Vec<HttpRoute>)>)
    ensures
        all_routes(a + b) == all_routes(a) + all_routes(b),
    decreases b.len(),
{
    if b.len() == 0 {
        assert(a + b =~= a);
        assert(all_routes(a) + seq![] =~= all_routes(a));
    } else {
        assert((a + b).drop_last() =~= a + b.drop_last());
        lemma_all_routes_append(a, b.drop_last());
        assert(all_routes(a) + all_routes(b.drop_last()) + b.last().1@ =~= all_routes(a) + (all_routes(
            b.drop_last(),
        ) + b.last().1@));
    }
}

/// A type cell: the type in backticks, or `_none_`.
pub open spec fn type_cell(t: Option<Seq<char>>) -> Seq<char> {
    match t {
        Some(t) => "`"@ + t + "`"@,
        None => "_none_"@,
    }
}

/// The response cell: a server-sent event stream, or the response type.
pub open spec fn response_cell(r: RouteView) -> Seq<char> {
    if r.streaming {
        "server-sent event stream"@
    } else {
        type_cell(r.response_type)
    }
}

/// One table row.
pub open spec fn row_of(r: RouteView) -> Seq<char> {
    "| `"@ + r.method + "` | `"@ + r.path + "` | "@ + escaped(r.doc) + " | "@ + type_cell(r.request_type)
        + " | "@ + response_cell(r) + " |\n"@
}

pub open spec fn rows_of(rs: Seq<RouteView>) -> Seq<char>
    decreases rs.len(),
{
    if rs.len() == 0 {
        seq![]
    } else {
        rows_of(rs.drop_last()) + row_of(rs.last())
    }
}

pub open spec fn table_head() -> Seq<char> {
    "| Method | Path | Description | Request | Response |\n|---|---|---|---|---|\n"@
}

pub open spec fn page_foot() -> Seq<char> {
    "Request/response bodies are the JSON (pbjson) mapping of the identically named proto message: see the [gRPC reference](../grpc/index.md) for field-level detail. All routes require the `Authorization: Bearer <key>` header described in [Using the API](../using-the-api.md).\n"@
}

/// The markdown page of one domain.
pub open spec fn page_of(domain: Seq<char>, rs: Seq<RouteView>) -> Seq<char> {
    let head = frontmatter_of(domain, capitalized(domain) + " (HTTP)"@) + banner_of(
        "`src-tauri/src/http/"@ + domain + ".rs`'s real axum route registrations"@,
    );
    if rs.len() == 0 {
        head + "_No routes found._\n"@
    } else {
        head + table_head() + rows_of(rs) + "\n"@ + page_foot()
    }
}

fn push_str(out: &mut Vec<char>, s: &str)
    ensures
        final(out)@ == old(out)@ + s@,
{
    let cs = chars_of(s);
    append(out, cs.as_slice());
}

fn type_cell_exec(t: &Option<String>) -> (c: Vec<char>)
    ensures
        c@ == type_cell(opt_chars(*t)),
{
    match t {
        Some(t) => {
            let mut out = chars_of("`");
            push_str(&mut out, t.as_str());
            push_str(&mut out, "`");
            out
        },
        None => chars_of("_none_"),
    }
}

fn row(r: &HttpRoute) -> (out: Vec<char>)
    ensures
        out@ == row_of(r@),
{
    let mut out = chars_of("| `");
    push_str(&mut out, r.method.as_str());
    push_str(&mut out, "` | `");
    push_str(&mut out, r.path.as_str());
    push_str(&mut out, "` | ");
    let d = md_escape(r.doc.as_str());
    push_str(&mut out, d.as_str());
    push_str(&mut out, " | ");
    let req = type_cell_exec(&r.request_type);
    append(&mut out, req.as_slice());
    push_str(&mut out, " | ");
    if r.streaming {
        push_str(&mut out, "server-sent event stream");
    } else {
        let resp = type_cell_exec(&r.response_type);
        append(&mut out, resp.as_slice());
    }
    push_str(&mut out, " |\n");
    proof {
        assert(out@ =~= row_of(r@));
    }
    out
}

/// Render the reference page of one domain: front matter, provenance
/// note, and a table of its routes (or a note that it has none).
pub fn render_domain(domain: &str, routes: &Vec<HttpRoute>) -> (page: String)
    ensures
        page@ == page_of(domain@, route_views(routes@)),
{
    let ghost rv = route_views(routes@);
    let d = chars_of(domain);
    let mut title = capitalize(d.as_slice());
    push_str(&mut title, " (HTTP)");
    let ts = string_of(title.as_slice());
    let fm = frontmatter(domain, ts.as_str());
    let mut src = chars_of("`src-tauri/src/http/");
    push_str(&mut src, domain);
    push_str(&mut src, ".rs`'s real axum route registrations");
    let ss = string_of(src.as_slice());
    let banner = generated_banner(ss.as_str());
    let mut out = chars_of(fm.as_str());
    push_str(&mut out, banner.as_str());
    let ghost head = out@;
    if routes.len() == 0 {
        push_str(&mut out, "_No routes found._\n");
        proof {
            assert(rv.len() == 0);
        }
        return string_of(out.as_slice());
    }
    push_str(&mut out, "| Method | Path | Description | Request | Response |\n|---|---|---|---|---|\n");
    let ghost top = out@;
    let mut i: usize = 0;
    proof {
        assert(rows_of(rv.take(0)) =~= seq![]);
        assert(out@ =~= top + rows_of(rv.take(0)));
    }
    while i < routes.len()
        invariant
            i <= routes@.len(),
            rv == route_views(routes@),
            out@ == top + rows_of(rv.take(i as int)),
        decreases routes@.len() - i,
    {
        let r = row(&routes[i]);
        append(&mut out, r.as_slice());
        proof {
            let t = rv.take(i + 1);
            assert(t.drop_last() =~= rv.take(i as int));
            assert(t.last() == routes@[i as int]@);
            assert(out@ =~= top + rows_of(t));
        }
        i += 1;
    }
    push_str(&mut out, "\n");
    push_str(
        &mut out,
        "Request/response bodies are the JSON (pbjson) mapping of the identically named proto message: see the [gRPC reference](../grpc/index.md) for field-level detail. All routes require the `Authorization: Bearer <key>` header described in [Using the API](../using-the-api.md).\n",
    );
    proof {
        assert(rv.take(routes@.len() as int) =~= rv);
        assert(out@ =~= page_of(domain@, rv));
    }
    string_of(out.as_slice())
}

/// The reference pages of a model: for each domain in order, its file name
/// (`<domain>.md`) and rendered page, ready to be written.
pub fn write(model: &HttpModel) -> (pages: Vec<(String, String)>)
    ensures
        pages@.len() == model.domains@.len(),
        forall|i: int|
            0 <= i < pages@.len() ==> (#[trigger] pages@[i]).0@ == model.domains@[i].0@ + ".md"@
                && pages@[i].1@ == page_of(model.domains@[i].0@, route_views(model.domains@[i].1@)),
{
    let mut pages: Vec<(String, String)> = Vec::new();
    let mut i: usize = 0;
    while i < model.domains.len()
        invariant
            i <= model.domains@.len(),
            pages@.len() == i,
            forall|k: int|
                0 <= k < i ==> (#[trigger] pages@[k]).0@ == model.domains@[k].0@ + ".md"@
                    && pages@[k].1@ == page_of(model.domains@[k].0@, route_views(model.domains@[k].1@)),
        decreases model.domains@.len() - i,
    {
        let domain = model.domains[i].0;
        let mut name = chars_of(domain);
        push_str(&mut name, ".md");
        let page = render_domain(domain, &model.domains[i].1);
        pages.push((string_of(name.as_slice()), page));
        i += 1;
    }
    pages
}

// ---------------------------------------------------------------------------
// Reading the router source
// ---------------------------------------------------------------------------

/// Index of the `)` closing the parenthesis open at the scan start, or -1
/// when the text ends first.
pub open spec fn close_from(s: Seq<char>, i: int, depth: int) -> int
    decreases s.len() - i,
{
    if i < 0 || i >= s.len() {
        -1
    } else {
        let d = if s[i] == '(' {
            depth + 1
        } else if s[i] == ')' {
            depth - 1
        } else {
            depth
        };
        if s[i] == ')' && d == 0 {
            i
        } else {
            close_from(s, i + 1, d)
        }
    }
}

pub proof fn lemma_close_from(s: Seq<char>, i: int, depth: int)
    requires
        0 <= i,
    ensures
        close_from(s, i, depth) == -1 || (i <= close_from(s, i, depth) < s.len()),
    decreases s.len() - i,
{
    if i < s.len() {
        let d = if s[i] == '(' {
            depth + 1
        } else if s[i] == ')' {
            depth - 1
        } else {
            depth
        };
        if !(s[i] == ')' && d == 0) {
            lemma_close_from(s, i + 1, d);
        }
    }
}

/// The text strictly inside the parenthesis open at `open`, and the index
/// just past its closing `)`; `None` when it never closes.
pub open spec fn balanced_at(s: Seq<char>, open: int) -> Option<(Seq<char>, int)> {
    let c = close_from(s, open, 0);
    if c < 0 {
        None
    } else {
        Some((s.subrange(open + 1, c), c + 1))
    }
}

pub proof fn lemma_balanced_at(s: Seq<char>, open: int)
    requires
        0 <= open,
    ensures
        balanced_at(s, open) is Some ==> open + 1 <= balanced_at(s, open).unwrap().1 - 1 < s.len(),
{
    lemma_close_from(s, open, 0);
    if open < s.len() {
        let d = if s[open] == '(' {
            1int
        } else if s[open] == ')' {
            -1int
        } else {
            0int
        };
        lemma_close_from(s, open + 1, d);
    }
}

/// The parenthesised text at `open`, scanned with nesting.
fn balanced(s: &[char], open: usize) -> (r: Option<(Vec<char>, usize)>)
    ensures
        match r {
            Some((inner, after)) => balanced_at(s@, open as int) == Some((inner@, after as int)),
            None => balanced_at(s@, open as int) is None,
        },
{
    let mut depth: i128 = 0;
    let mut i = open;
    let n = s.len();
    proof {
        lemma_balanced_at(s@, open as int);
    }
    while i < n
        invariant
            open <= i,
            n == s@.len(),
            -(i as int) <= depth <= i,
            i == open ==> depth == 0,
            close_from(s@, open as int, 0) == close_from(s@, i as int, depth as int),
        decreases n - i,
    {
        let c = s[i];
        if c == '(' {
            depth = depth + 1;
        } else if c == ')' {
            depth = depth - 1;
            if depth == 0 {
                let inner = crate::text::slice_of(s, open + 1, i);
                return Some((inner, i + 1));
            }
        }
        i += 1;
    }
    None
}

/// End of the run of identifier characters starting at `start`.
pub open spec fn ident_end(s: Seq<char>, start: int) -> int
    decreases s.len() - start,
{
    if start < 0 || start >= s.len() {
        s.len() as int
    } else if !is_ident(s[start]) {
        start
    } else {
        ident_end(s, start + 1)
    }
}

pub proof fn lemma_ident_end(s: Seq<char>, start: int)
    requires
        0 <= start <= s.len(),
    ensures
        start <= ident_end(s, start) <= s.len(),
    decreases s.len() - start,
{
    if start < s.len() && is_ident(s[start]) {
        lemma_ident_end(s, start + 1);
    }
}

/// The `pb::TypeName` identifiers in a signature fragment, from `from` on,
/// in order of appearance.
pub open spec fn pb_types_from(s: Seq<char>, from: int) -> Seq<Seq<char>>
    decreases s.len() + 1 - from,
{
    let idx = find_from(s, "pb::"@, from);
    if from < 0 || idx < 0 {
        seq![]
    } else {
        proof {
            crate::text::lemma_find_from(s, "pb::"@, from);
            reveal_strlit("pb::");
            lemma_ident_end(s, idx + 4);
        }
        let start = idx + 4;
        let end = ident_end(s, start);
        let rest = pb_types_from(s, end);
        if end > start {
            seq![s.subrange(start, end)] + rest
        } else {
            rest
        }
    }
}

fn ident_end_exec(s: &[char], start: usize) -> (e: usize)
    requires
        start <= s@.len(),
    ensures
        e == ident_end(s@, start as int),
{
    let mut k = start;
    while k < s.len() && is_ident_char(s[k])
        invariant
            start <= k <= s@.len(),
            ident_end(s@, start as int) == ident_end(s@, k as int),
        decreases s@.len() - k,
    {
        k += 1;
    }
    k
}

/// The `pb::` types of a fragment.
fn find_pb_types(s: &[char]) -> (out: Vec<Vec<char>>)
    ensures
        crate::text::char_views(out@) == pb_types_from(s@, 0),
{
    let needle = chars_of("pb::");
    proof {
        reveal_strlit("pb::");
        assert(needle@.len() == 4);
    }
    let mut out: Vec<Vec<char>> = Vec::new();
    let mut from: usize = 0;
    let n = s.len();
    proof {
        assert(crate::text::char_views(out@) + pb_types_from(s@, 0) =~= pb_types_from(s@, 0));
    }
    loop
        invariant
            n == s@.len(),
            needle@ == "pb::"@,
            needle@.len() == 4,
            from <= s@.len() + 1,
            crate::text::char_views(out@) + pb_types_from(s@, from as int) == pb_types_from(s@, 0),
        decreases s@.len() + 1 - from,
    {
        let ghost prev = crate::text::char_views(out@);
        match find_chars_from(s, needle.as_slice(), from) {
            None => {
                proof {
                    assert(crate::text::char_views(out@) + seq![] =~= crate::text::char_views(out@));
                }
                return out;
            },
            Some(idx) => {
                proof {
                    crate::text::lemma_find_from(s@, "pb::"@, from as int);
                    assert(crate::text::matches_at(s@, idx as int, "pb::"@));
                    lemma_ident_end(s@, idx + 4);
                }
                let start = idx + 4;
                let end = ident_end_exec(s, start);
                if end > start {
                    let t = crate::text::slice_of(s, start, end);
                    out.push(t);
                    proof {
                        assert(crate::text::char_views(out@) =~= prev.push(s@.subrange(start as int, end as int)));
                        assert(crate::text::char_views(out@) + pb_types_from(s@, end as int) =~= prev
                            + pb_types_from(s@, from as int));
                    }
                }
                from = end;
            },
        }
    }
}

/// The route path: the text between the first two `"`.
pub open spec fn path_in(content: Seq<char>) -> Option<Seq<char>> {
    let a = find_char(content, '"');
    if a < 0 {
        None
    } else {
        let b = find_char(content.skip(a + 1), '"');
        if b < 0 {
            None
        } else {
            Some(content.subrange(a + 1, a + 1 + b))
        }
    }
}

fn extract_path(content: &[char]) -> (r: Option<Vec<char>>)
    ensures
        match r {
            Some(p) => path_in(content@) == Some(p@),
            None => path_in(content@) is None,
        },
{
    let q = ['"'];
    proof {
        assert(q@ =~= seq!['"']);
    }
    let a = match crate::text::find_chars(content, &q) {
        Some(a) => a,
        None => {
            return None;
        },
    };
    proof {
        crate::text::lemma_find(content@, seq!['"']);
        assert(crate::text::matches_at(content@, a as int, seq!['"']));
        assert(seq!['"'].len() == 1);
    }
    let n = content.len();
    let rest = crate::text::slice_of(content, a + 1, n);
    proof {
        assert(rest@ =~= content@.skip(a + 1));
    }
    let b = match crate::text::find_chars(rest.as_slice(), &q) {
        Some(b) => b,
        None => {
            return None;
        },
    };
    proof {
        crate::text::lemma_find(rest@, seq!['"']);
        assert(crate::text::matches_at(rest@, b as int, seq!['"']));
    }
    Some(crate::text::slice_of(content, a + 1, a + 1 + b))
}

/// Every character is an identifier character.
pub open spec fn all_ident(s: Seq<char>) -> bool {
    forall|i: int| 0 <= i < s.len() ==> is_ident(#[trigger] s[i])
}

/// The `verb(handler)` calls of one verb in a `.route(...)` argument list,
/// from `from` on: a call counts only at a word boundary, and only when its
/// argument is a plain identifier. `None` when a parenthesis never closes.
pub open spec fn verb_calls_from(content: Seq<char>, verb: Seq<char>, from: int) -> Option<
    Seq<(Seq<char>, Seq<char>)>,
>
    decreases content.len() + 1 - from,
{
    let needle = verb + "("@;
    let idx = find_from(content, needle, from);
    if from < 0 || idx < 0 {
        Some(seq![])
    } else {
        proof {
            crate::text::lemma_find_from(content, needle, from);
            reveal_strlit("(");
        }
        let boundary = idx == 0 || !is_ident(content[idx - 1]);
        if boundary {
            proof {
                lemma_balanced_at(content, idx + verb.len());
            }
            match balanced_at(content, idx + verb.len()) {
                None => None,
                Some((h, after)) => {
                    let t = crate::text::trim(h);
                    match verb_calls_from(content, verb, after) {
                        None => None,
                        Some(rest) => Some(
                            if t.len() > 0 && all_ident(t) {
                                seq![(crate::text::upper_seq(verb), t)] + rest
                            } else {
                                rest
                            },
                        ),
                    }
                },
            }
        } else {
            verb_calls_from(content, verb, idx + needle.len())
        }
    }
}

/// The verbs a route may register.
pub open spec fn verbs() -> Seq<Seq<char>> {
    seq!["get"@, "post"@, "put"@, "patch"@, "delete"@]
}

/// The calls of the first `n` verbs, verb after verb.
pub open spec fn verb_calls(content: Seq<char>, n: int) -> Option<Seq<(Seq<char>, Seq<char>)>>
    decreases n,
{
    if n <= 0 {
        Some(seq![])
    } else {
        match verb_calls(content, n - 1) {
            None => None,
            Some(a) => match verb_calls_from(content, verbs()[n - 1], 0) {
                None => None,
                Some(b) => Some(a + b),
            },
        }
    }
}

fn all_ident_exec(s: &[char]) -> (b: bool)
    ensures
        b == all_ident(s@),
{
    let mut i: usize = 0;
    while i < s.len()
        invariant
            i <= s@.len(),
            forall|k: int| 0 <= k < i ==> is_ident(#[trigger] s@[k]),
        decreases s@.len() - i,
    {
        if !is_ident_char(s[i]) {
            return false;
        }
        i += 1;
    }
    true
}

fn verb_calls_exec(content: &[char], verb: &str) -> (r: Option<Vec<(String, String)>>)
    ensures
        match r {
            Some(v) => verb_calls_from(content@, verb@, 0) == Some(
                v@.map_values(|p: (String, String)| (p.0@, p.1@)),
            ),
            None => verb_calls_from(content@, verb@, 0) is None,
        },
{
    let vc = chars_of(verb);
    let mut needle = chars_of(verb);
    needle.push('(');
    proof {
        reveal_strlit("(");
        assert(needle@ =~= verb@ + "("@);
        assert(needle@.len() == verb@.len() + 1);
    }
    let method = string_of(crate::text::upper_chars(vc.as_slice()).as_slice());
    let n = content.len();
    let mut out: Vec<(String, String)> = Vec::new();
    let mut from: usize = 0;
    let ghost vw = |p: (String, String)| (p.0@, p.1@);
    proof {
        assert(out@.map_values(vw) =~= seq![]);
    }
    loop
        invariant
            n == content@.len(),
            needle@ == verb@ + "("@,
            needle@.len() == verb@.len() + 1,
            vc@ == verb@,
            method@ == crate::text::upper_seq(verb@),
            from <= n + 1,
            vw == (|p: (String, String)| (p.0@, p.1@)),
            verb_calls_from(content@, verb@, 0) == match verb_calls_from(content@, verb@, from as int) {
                None => None,
                Some(rest) => Some(out@.map_values(vw) + rest),
            },
        decreases n + 1 - from,
    {
        let ghost prev = out@.map_values(vw);
        let idx = match find_chars_from(content, needle.as_slice(), from) {
            Some(i) => i,
            None => {
                proof {
                    assert(out@.map_values(vw) + seq![] =~= out@.map_values(vw));
                }
                return Some(out);
            },
        };
        proof {
            crate::text::lemma_find_from(content@, needle@, from as int);
            assert(crate::text::matches_at(content@, idx as int, needle@));
        }
        let boundary = idx == 0 || !is_ident_char(content[idx - 1]);
        if boundary {
            let open = idx + vc.len();
            proof {
                lemma_balanced_at(content@, open as int);
            }
            match balanced(content, open) {
                None => {
                    return None;
                },
                Some((h, after)) => {
                    let t = crate::text::trim_chars(h.as_slice());
                    if t.len() > 0 && all_ident_exec(t.as_slice()) {
                        out.push((method.clone(), string_of(t.as_slice())));
                        proof {
                            assert(out@.map_values(vw) =~= prev.push((crate::text::upper_seq(verb@), t@)));
                            assert(forall|rest: Seq<(Seq<char>, Seq<char>)>| prev + (seq![(crate::text::upper_seq(verb@), t@)] + rest) =~= out@.map_values(vw) + rest);
                        }
                    }
                    from = after;
                },
            }
        } else {
            from = idx + needle.len();
        }
    }
}

/// Find every `verb(handler)` call at the top level of a `.route(...)`
/// call's argument list, verb by verb.
fn find_verb_handler_pairs(content: &[char]) -> (r: Option<Vec<(String, String)>>)
    ensures
        match r {
            Some(v) => verb_calls(content@, 5) == Some(v@.map_values(|p: (String, String)| (p.0@, p.1@))),
            None => verb_calls(content@, 5) is None,
        },
{
    let vs = ["get", "post", "put", "patch", "delete"];
    let mut out: Vec<(String, String)> = Vec::new();
    let ghost vw = |p: (String, String)| (p.0@, p.1@);
    let mut k: usize = 0;
    proof {
        assert(vs@.map_values(|v: &str| v@) =~= verbs());
        assert(out@.map_values(vw) =~= seq![]);
    }
    while k < 5
        invariant
            k <= 5,
            vs@.len() == 5,
            vs@.map_values(|v: &str| v@) == verbs(),
            vw == (|p: (String, String)| (p.0@, p.1@)),
            verb_calls(content@, k as int) == Some(out@.map_values(vw)),
        decreases 5 - k,
    {
        proof {
            assert(vs@[k as int]@ == verbs()[k as int]);
        }
        match verb_calls_exec(content, vs[k]) {
            None => {
                proof {
                    lemma_verb_calls_none(content@, k + 1, 5);
                }
                return None;
            },
            Some(mut more) => {
                let ghost a = out@.map_values(vw);
                let ghost b = more@.map_values(vw);
                out.append(&mut more);
                proof {
                    assert(out@.map_values(vw) =~= a + b);
                }
            },
        }
        k += 1;
    }
    Some(out)
}

proof fn lemma_verb_calls_none(content: Seq<char>, k: int, n: int)
    requires
        1 <= k <= n,
        verb_calls(content, k) is None || (verb_calls(content, k - 1) is Some
            && verb_calls_from(content, verbs()[k - 1], 0) is None),
    ensures
        verb_calls(content, n) is None,
    decreases n - k,
{
    if k < n {
        lemma_verb_calls_none(content, k + 1, n);
    }
}

/// Does the line open the handler function `handler`?
pub open spec fn opens_fn(line: Seq<char>, handler: Seq<char>) -> bool {
    let t = crate::text::trim_start(line);
    crate::connection::has_prefix(t, "async fn "@ + handler + "("@) || crate::connection::has_prefix(
        t,
        "fn "@ + handler + "("@,
    )
}

/// The first line at or after `i` opening the handler, or -1.
pub open spec fn fn_line_from(ls: Seq<Seq<char>>, handler: Seq<char>, i: int) -> int
    decreases ls.len() - i,
{
    if i < 0 || i >= ls.len() {
        -1
    } else if opens_fn(ls[i], handler) {
        i
    } else {
        fn_line_from(ls, handler, i + 1)
    }
}

/// Is the line a `///` doc comment line?
pub open spec fn is_doc_line(line: Seq<char>) -> bool {
    crate::connection::has_prefix(crate::text::trim_start(line), "///"@)
}

/// The text of a doc comment line.
pub open spec fn doc_text(line: Seq<char>) -> Seq<char> {
    crate::text::trim(crate::text::trim_start(line).skip(3))
}

/// The doc comment lines directly above line `j`, top to bottom.
pub open spec fn doc_above(ls: Seq<Seq<char>>, j: int) -> Seq<Seq<char>>
    decreases j,
{
    if j <= 0 || j > ls.len() {
        seq![]
    } else if is_doc_line(ls[j - 1]) {
        doc_above(ls, j - 1).push(doc_text(ls[j - 1]))
    } else {
        seq![]
    }
}

pub open spec fn first_of(s: Seq<Seq<char>>) -> Option<Seq<char>> {
    if s.len() > 0 {
        Some(s[0])
    } else {
        None
    }
}

/// A handler's doc comment (lines joined by spaces), its request and
/// response `pb::` types and whether it streams server-sent events, read
/// from the lines around its definition: the signature is taken from the
/// twenty lines starting at the `fn` line. A handler not found has none of
/// these; `None` when its parameter list never closes.
pub open spec fn details_in(ls: Seq<Seq<char>>, handler: Seq<char>) -> Option<
    (Seq<char>, Option<Seq<char>>, Option<Seq<char>>, bool),
> {
    let f = fn_line_from(ls, handler, 0);
    if f < 0 {
        Some((seq![], None, None, false))
    } else {
        let end = if f + 20 < ls.len() { f + 20 } else { ls.len() as int };
        let snippet = crate::connection::join_lines(ls.subrange(f, end));
        let p = find_char(snippet, '(');
        let open = if p < 0 { 0 } else { p };
        match balanced_at(snippet, open) {
            None => None,
            Some((params, after)) => {
                let b = find_from(snippet, seq!['{'], after);
                let body = if b < 0 { snippet.len() as int } else { b };
                let ret = snippet.subrange(after, body);
                Some((
                    crate::gcode::join_spaced(doc_above(ls, f)),
                    first_of(pb_types_from(params, 0)),
                    first_of(pb_types_from(ret, 0)),
                    crate::connection::contains(ret, "Sse<"@),
                ))
            },
        }
    }
}

fn concat3(a: &str, b: &str, c: &str) -> (out: Vec<char>)
    ensures
        out@ == a@ + b@ + c@,
{
    let mut out = chars_of(a);
    append(&mut out, chars_of(b).as_slice());
    append(&mut out, chars_of(c).as_slice());
    out
}

proof fn lemma_fn_line_from(ls: Seq<Seq<char>>, handler: Seq<char>, i: int)
    requires
        0 <= i,
    ensures
        fn_line_from(ls, handler, i) == -1 || (i <= fn_line_from(ls, handler, i) < ls.len()),
    decreases ls.len() - i,
{
    if i < ls.len() && !opens_fn(ls[i], handler) {
        lemma_fn_line_from(ls, handler, i + 1);
    }
}

/// The first line opening the handler, given its two markers.
fn find_fn_line(ls: &Vec<Vec<char>>, m1: &Vec<char>, m2: &Vec<char>, Ghost(handler): Ghost<Seq<char>>) -> (r: Option<usize>)
    requires
        m1@ == "async fn "@ + handler + "("@,
        m2@ == "fn "@ + handler + "("@,
    ensures
        match r {
            Some(f) => fn_line_from(crate::text::char_views(ls@), handler, 0) == f,
            None => fn_line_from(crate::text::char_views(ls@), handler, 0) == -1,
        },
{
    let ghost lv = crate::text::char_views(ls@);
    let n = ls.len();
    let mut f: usize = 0;
    while f < n
        invariant
            n == ls@.len(),
            lv == crate::text::char_views(ls@),
            m1@ == "async fn "@ + handler + "("@,
            m2@ == "fn "@ + handler + "("@,
            f <= n,
            fn_line_from(lv, handler, 0) == fn_line_from(lv, handler, f as int),
        decreases n - f,
    {
        let t = crate::text::trim_start_chars(ls[f].as_slice());
        proof {
            assert(lv[f as int] == ls@[f as int]@);
        }
        if crate::text::starts_with(t.as_slice(), m1.as_slice()) || crate::text::starts_with(
            t.as_slice(),
            m2.as_slice(),
        ) {
            return Some(f);
        }
        f += 1;
    }
    None
}

fn handler_details(ls: &Vec<Vec<char>>, handler: &str) -> (r: Option<(String, Option<String>, Option<String>, bool)>)
    ensures
        match r {
            Some((d, q, p, st)) => details_in(crate::text::char_views(ls@), handler@) == Some(
                (d@, opt_chars(q), opt_chars(p), st),
            ),
            None => details_in(crate::text::char_views(ls@), handler@) is None,
        },
{
    let ghost lv = crate::text::char_views(ls@);
    let m1 = concat3("async fn ", handler, "(");
    let m2 = concat3("fn ", handler, "(");
    let n = ls.len();
    let f = match find_fn_line(ls, &m1, &m2, Ghost(handler@)) {
        Some(f) => f,
        None => {
            return Some((String::new(), None, None, false));
        },
    };
    proof {
        lemma_fn_line_from(lv, handler@, 0);
    }
    let mut k = f;
    while k > 0 && crate::connection::has_prefix_exec(
        crate::text::trim_start_chars(ls[k - 1].as_slice()).as_slice(),
        "///",
    )
        invariant
            k <= f < n,
            n == ls@.len(),
            lv == crate::text::char_views(ls@),
            forall|i: int| k <= i < f ==> is_doc_line(#[trigger] lv[i]),
        decreases k,
    {
        k -= 1;
    }
    let mut docs: Vec<Vec<char>> = Vec::new();
    let mut i = k;
    proof {
        assert(doc_above(lv, k as int) =~= seq![]);
        assert(docs@.map_values(|v: Vec<char>| v@) =~= seq![]);
    }
    while i < f
        invariant
            k <= i <= f < n,
            n == ls@.len(),
            lv == crate::text::char_views(ls@),
            forall|j: int| k <= j < f ==> is_doc_line(#[trigger] lv[j]),
            docs@.map_values(|v: Vec<char>| v@) == doc_above(lv, i as int),
        decreases f - i,
    {
        let t = crate::text::trim_start_chars(ls[i].as_slice());
        let m = t.len();
        proof {
            assert(is_doc_line(lv[i as int]));
            reveal_strlit("///");
        }
        let body = crate::text::slice_of(t.as_slice(), 3, m);
        let d = crate::text::trim_chars(body.as_slice());
        let ghost prev = docs@.map_values(|v: Vec<char>| v@);
        docs.push(d);
        proof {
            assert(body@ =~= t@.skip(3));
            assert(docs@.map_values(|v: Vec<char>| v@) =~= prev.push(doc_text(lv[i as int])));
        }
        i += 1;
    }
    let doc = string_of(crate::gcode::join_with_spaces(&docs).as_slice());
    let end = if n > 20 && f < n - 20 { f + 20 } else { n };
    let mut snippet: Vec<char> = Vec::new();
    let mut j = f;
    proof {
        assert(lv.subrange(f as int, f as int) =~= seq![]);
    }
    while j < end
        invariant
            f <= j <= end <= n,
            n == ls@.len(),
            lv == crate::text::char_views(ls@),
            snippet@ == crate::connection::join_lines(lv.subrange(f as int, j as int)),
        decreases end - j,
    {
        if j > f {
            snippet.push('\n');
        }
        append(&mut snippet, ls[j].as_slice());
        proof {
            let t = lv.subrange(f as int, j + 1);
            assert(t.drop_last() =~= lv.subrange(f as int, j as int));
            assert(t.last() == ls@[j as int]@);
            if j == f {
                assert(snippet@ =~= t[0]);
            } else {
                assert(snippet@ =~= crate::connection::join_lines(t.drop_last()) + seq!['\n'] + t.last());
            }
        }
        j += 1;
    }
    let paren = ['('];
    proof {
        assert(paren@ =~= seq!['(']);
    }
    let open = match crate::text::find_chars(snippet.as_slice(), &paren) {
        Some(p) => p,
        None => 0,
    };
    proof {
        crate::text::lemma_find(snippet@, seq!['(']);
        lemma_balanced_at(snippet@, open as int);
    }
    let (params, after) = match balanced(snippet.as_slice(), open) {
        Some(x) => x,
        None => {
            return None;
        },
    };
    let brace = ['{'];
    proof {
        assert(brace@ =~= seq!['{']);
    }
    let sn = snippet.len();
    let body = match find_chars_from(snippet.as_slice(), &brace, after) {
        Some(b) => b,
        None => sn,
    };
    proof {
        crate::text::lemma_find_from(snippet@, seq!['{'], after as int);
        if body < sn {
            assert(crate::text::matches_at(snippet@, body as int, seq!['{']));
        }
    }
    let ret = crate::text::slice_of(snippet.as_slice(), after, body);
    let req = find_pb_types(params.as_slice());
    let resp = find_pb_types(ret.as_slice());
    let rq = if req.len() > 0 { Some(string_of(req[0].as_slice())) } else { None };
    let rs = if resp.len() > 0 { Some(string_of(resp[0].as_slice())) } else { None };
    let sse = contains_text(ret.as_slice(), "Sse<");
    proof {
        assert(lv.subrange(f as int, end as int) == lv.subrange(f as int, (if f + 20 < lv.len() { f + 20 } else { lv.len() as int })));
        if req.len() > 0 {
            assert(crate::text::char_views(req@)[0] == req@[0]@);
        }
        if resp.len() > 0 {
            assert(crate::text::char_views(resp@)[0] == resp@[0]@);
        }
    }
    Some((doc, rq, rs, sse))
}

fn contains_text(t: &[char], pat: &str) -> (b: bool)
    ensures
        b == crate::connection::contains(t@, pat@),
{
    let p = chars_of(pat);
    crate::text::find_chars(t, p.as_slice()).is_some()
}

/// The routes of the handler calls of one `.route(...)` registration.
pub open spec fn routes_of(ls: Seq<Seq<char>>, path: Seq<char>, ps: Seq<(Seq<char>, Seq<char>)>) -> Option<Seq<RouteView>>
    decreases ps.len(),
{
    if ps.len() == 0 {
        Some(seq![])
    } else {
        match routes_of(ls, path, ps.drop_last()) {
            None => None,
            Some(a) => match details_in(ls, ps.last().1) {
                None => None,
                Some(d) => Some(a.push(RouteView {
                    method: ps.last().0,
                    path,
                    handler: ps.last().1,
                    doc: d.0,
                    request_type: d.1,
                    response_type: d.2,
                    streaming: d.3,
                })),
            },
        }
    }
}

/// The routes registered in a router source file from `from` on: each
/// `.route("path", verb(handler)...)` gives one route per handler call,
/// with the handler's documentation. A registration without a quoted path
/// gives none. `None` when a parenthesis never closes.
pub open spec fn routes_from(t: Seq<char>, from: int) -> Option<Seq<RouteView>>
    decreases t.len() + 1 - from,
{
    let idx = find_from(t, ".route("@, from);
    if from < 0 || idx < 0 {
        Some(seq![])
    } else {
        proof {
            crate::text::lemma_find_from(t, ".route("@, from);
            reveal_strlit(".route(");
            lemma_balanced_at(t, idx + 6);
        }
        match balanced_at(t, idx + 6) {
            None => None,
            Some((content, after)) => {
                let here = match path_in(content) {
                    None => Some(seq![]),
                    Some(path) => match verb_calls(content, 5) {
                        None => None,
                        Some(ps) => routes_of(crate::text::lines(t), path, ps),
                    },
                };
                match (here, routes_from(t, after)) {
                    (Some(h), Some(r)) => Some(h + r),
                    _ => None,
                }
            },
        }
    }
}

/// Parse the route registrations of a router source file; `None` when a
/// parenthesis in a registration or a handler signature never closes.
pub fn parse_routes(text: &str) -> (r: Option<Vec<HttpRoute>>)
    ensures
        match r {
            Some(v) => routes_from(text@, 0) == Some(route_views(v@)),
            None => routes_from(text@, 0) is None,
        },
{
    let t = chars_of(text);
    let ls = crate::text::split_lines(t.as_slice());
    let needle = chars_of(".route(");
    proof {
        reveal_strlit(".route(");
        assert(needle@.len() == 7);
    }
    let n = t.len();
    let mut routes: Vec<HttpRoute> = Vec::new();
    let mut from: usize = 0;
    loop
        invariant
            n == t@.len(),
            t@ == text@,
            needle@ == ".route("@,
            needle@.len() == 7,
            crate::text::char_views(ls@) == crate::text::lines(t@),
            from <= n + 1,
            routes_from(text@, 0) == match routes_from(text@, from as int) {
                None => None,
                Some(rest) => Some(route_views(routes@) + rest),
            },
        decreases n + 1 - from,
    {
        let ghost from0 = from as int;
        let idx = match find_chars_from(t.as_slice(), needle.as_slice(), from) {
            Some(i) => i,
            None => {
                proof {
                    assert(route_views(routes@) + seq![] =~= route_views(routes@));
                }
                return Some(routes);
            },
        };
        proof {
            crate::text::lemma_find_from(t@, needle@, from as int);
            assert(crate::text::matches_at(t@, idx as int, needle@));
            lemma_balanced_at(t@, idx + 6);
        }
        let (content, after) = match balanced(t.as_slice(), idx + 6) {
            Some(x) => x,
            None => {
                return None;
            },
        };
        from = after;
        let path = match extract_path(content.as_slice()) {
            Some(p) => p,
            None => {
                proof {
                    assert(forall|rest: Seq<RouteView>| seq![] + rest =~= rest);
                }
                continue;
            },
        };
        let pairs = match find_verb_handler_pairs(content.as_slice()) {
            Some(p) => p,
            None => {
                return None;
            },
        };
        let ghost pv = pairs@.map_values(|p: (String, String)| (p.0@, p.1@));
        let ghost base = route_views(routes@);
        let ps = string_of(path.as_slice());
        let mut k: usize = 0;
        proof {
            assert(pv.take(0) =~= seq![]);
            assert(route_views(routes@) =~= base + seq![]);
            assert(routes_from(text@, from0) == (match (routes_of(crate::text::lines(t@), path@, pv), routes_from(text@, after as int)) {
                (Some(h), Some(r)) => Some(h + r),
                _ => None,
            }));
        }
        while k < pairs.len()
            invariant
                n == t@.len(),
                t@ == text@,
                needle@ == ".route("@,
                needle@.len() == 7,
                from == after,
                from <= n + 1,
                routes_from(text@, 0) == match routes_from(text@, from0) {
                    None => None,
                    Some(rest) => Some(base + rest),
                },
                routes_from(text@, from0) == (match (routes_of(crate::text::lines(t@), path@, pv), routes_from(text@, after as int)) {
                    (Some(h), Some(r)) => Some(h + r),
                    _ => None,
                }),
                k <= pairs@.len(),
                pv == pairs@.map_values(|p: (String, String)| (p.0@, p.1@)),
                ps@ == path@,
                crate::text::char_views(ls@) == crate::text::lines(t@),
                routes_of(crate::text::lines(t@), path@, pv.take(k as int)) == Some(
                    route_views(routes@).skip(base.len() as int),
                ),
                route_views(routes@).take(base.len() as int) == base,
                base.len() <= route_views(routes@).len(),
            decreases pairs@.len() - k,
        {
            proof {
                let q = pv.take(k + 1);
                assert(q.drop_last() =~= pv.take(k as int));
                assert(q.last() == (pairs@[k as int].0@, pairs@[k as int].1@));
            }
            let (method, handler) = (pairs[k].0.clone(), pairs[k].1.clone());
            match handler_details(&ls, handler.as_str()) {
                None => {
                    proof {
                        lemma_routes_of_none(crate::text::lines(t@), path@, pv, k as int + 1);
                    }
                    return None;
                },
                Some((doc, rq, rs, st)) => {
                    let ghost prev = route_views(routes@);
                    routes.push(HttpRoute {
                        method,
                        path: ps.clone(),
                        handler,
                        doc,
                        request_type: rq,
                        response_type: rs,
                        streaming: st,
                    });
                    proof {
                        assert(route_views(routes@) =~= prev.push(routes@.last()@));
                        assert(route_views(routes@).take(base.len() as int) =~= prev.take(base.len() as int));
                        assert(route_views(routes@).skip(base.len() as int) =~= prev.skip(base.len() as int).push(routes@.last()@));
                    }
                },
            }
            k += 1;
        }
        proof {
            assert(pv.take(pairs@.len() as int) =~= pv);
            assert(route_views(routes@) =~= base + route_views(routes@).skip(base.len() as int));
            assert(forall|rest: Seq<RouteView>| route_views(routes@) + rest =~= base + (route_views(routes@).skip(base.len() as int) + rest));
        }
    }
}

proof fn lemma_routes_of_none(ls: Seq<Seq<char>>, path: Seq<char>, ps: Seq<(Seq<char>, Seq<char>)>, k: int)
    requires
        1 <= k <= ps.len(),
        routes_of(ls, path, ps.take(k - 1)) is Some,
        details_in(ls, ps[k - 1].1) is None,
    ensures
        routes_of(ls, path, ps) is None,
    decreases ps.len() - k,
{
    let q = ps.take(k);
    assert(q.drop_last() =~= ps.take(k - 1));
    if k < ps.len() {
        lemma_routes_of_none_up(ls, path, ps, k);
    } else {
        assert(q =~= ps);
    }
}

proof fn lemma_routes_of_none_up(ls: Seq<Seq<char>>, path: Seq<char>, ps: Seq<(Seq<char>, Seq<char>)>, k: int)
    requires
        1 <= k <= ps.len(),
        routes_of(ls, path, ps.take(k)) is None,
    ensures
        routes_of(ls, path, ps) is None,
    decreases ps.len() - k,
{
    if k < ps.len() {
        let q = ps.take(k + 1);
        assert(q.drop_last() =~= ps.take(k));
        lemma_routes_of_none_up(ls, path, ps, k + 1);
    } else {
        assert(ps.take(k) =~= ps);
    }
}

} // verus!
