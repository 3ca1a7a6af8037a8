//! The JSON-RPC 2.0 surface: request dispatch and the tool set. One
//! line in, one response line out; reading stdin and writing stdout
//! stay outside the library.
//!
//! Incoming JSON goes through serde_json behind trusted wrappers.
//! serde_json's parsing and member access are functions of their
//! arguments alone, so the request carries a model: `parsed_of` names
//! the parsed value of a line, and `req_view`/`args_view` name the
//! members the dispatch reads. Every response is pinned to an exact
//! serialized form, built by the library's own verified serializer.

use vstd::prelude::*;
use vstd::string::StringExecFns;

use crate::engine::{well_formed, CodeGraph, GraphModel};
use crate::facade::{
    anchor_dependencies, anchor_file_symbols, anchor_search, anchor_stats, filter_results,
    spec_file_symbols, spec_stats_of, Query,
};
use crate::json::{
    file_symbols_json, json_escape, report_json, search_response_json, spec_esc,
    spec_file_symbols_json, spec_report_json, spec_search_response_json, spec_stats_json,
    stats_json,
};
use crate::search::{spec_dependencies, spec_dependents, spec_search};
use crate::strutil::streq;

verus! {

#[verifier::external_type_specification]
#[verifier::external_body]
pub struct ExValue(serde_json::Value);

// ─── The model of a request ─────────────────────────────────────

/// The members of a `tools/call` arguments object that the tools
/// read, each as a string when present and of string type.
pub ghost struct ArgsView {
    pub query: Option<Seq<char>>,
    pub kind: Option<Seq<char>>,
    pub file: Option<Seq<char>>,
    pub symbol: Option<Seq<char>>,
}

/// The members of a top-level request value that the dispatch reads:
/// the serialized id, the method string, the params object's
/// presence, its tool name, and its arguments.
pub ghost struct ReqView {
    pub id: Option<Seq<char>>,
    pub method: Option<Seq<char>>,
    pub has_params: bool,
    pub tool_name: Option<Seq<char>>,
    pub has_args: bool,
    pub args: ArgsView,
}

/// Whether serde_json::from_str accepts the line; a function of the
/// characters alone.
pub uninterp spec fn json_ok(s: Seq<char>) -> bool;

/// The value serde_json::from_str parses the line into, when it
/// accepts it; a function of the characters alone.
pub uninterp spec fn parsed_of(s: Seq<char>) -> serde_json::Value;

/// The request-relevant contents of a parsed value.
pub uninterp spec fn req_view(v: serde_json::Value) -> ReqView;

/// The tool-relevant contents of an arguments value.
pub uninterp spec fn args_view(v: serde_json::Value) -> ArgsView;

// ─── Trusted wrappers around serde_json ─────────────────────────

/// Relies on serde_json::from_str: deterministic in the line; `Some`
/// exactly when the line is valid JSON.
#[verifier::external_body]
fn json_parse(s: &str) -> (r: Option<serde_json::Value>)
    ensures
        (r is Some) == json_ok(s@),
        r matches Some(v) ==> v == parsed_of(s@),
{
    serde_json::from_str(s).ok()
}

/// Relies on serde_json's Value::get and to_string: the "id" member,
/// serialized verbatim.
#[verifier::external_body]
fn req_id_text(v: &serde_json::Value) -> (r: Option<String>)
    ensures
        (r is Some) == (req_view(*v).id is Some),
        r matches Some(t) ==> req_view(*v).id == Some(t@),
{
    v.get("id").map(|m| serde_json::to_string(m).unwrap_or_default())
}

/// Relies on serde_json's Value::get and as_str: the "method" member
/// when it is a string.
#[verifier::external_body]
fn req_method(v: &serde_json::Value) -> (r: Option<String>)
    ensures
        (r is Some) == (req_view(*v).method is Some),
        r matches Some(t) ==> req_view(*v).method == Some(t@),
{
    v.get("method").and_then(|m| m.as_str()).map(|s| s.to_owned())
}

/// Relies on serde_json's Value::get: whether a "params" member is
/// present.
#[verifier::external_body]
fn req_has_params(v: &serde_json::Value) -> (r: bool)
    ensures
        r == req_view(*v).has_params,
{
    v.get("params").is_some()
}

/// Relies on serde_json's Value::get and as_str: the "params.name"
/// member when it is a string.
#[verifier::external_body]
fn req_tool_name(v: &serde_json::Value) -> (r: Option<String>)
    ensures
        (r is Some) == (req_view(*v).tool_name is Some),
        r matches Some(t) ==> req_view(*v).tool_name == Some(t@),
{
    v.get("params").and_then(|p| p.get("name")).and_then(|m| m.as_str()).map(|s| s.to_owned())
}

/// Relies on serde_json's Value::get: the "params.arguments" member,
/// whose contents are the request's argument model.
#[verifier::external_body]
fn req_args<'a>(v: &'a serde_json::Value) -> (r: Option<&'a serde_json::Value>)
    ensures
        (r is Some) == req_view(*v).has_args,
        r matches Some(a) ==> args_view(*a) == req_view(*v).args,
{
    v.get("params").and_then(|p| p.get("arguments"))
}

/// Relies on serde_json's Value::get and as_str: the "query" member.
#[verifier::external_body]
fn arg_query(v: &serde_json::Value) -> (r: Option<String>)
    ensures
        (r is Some) == (args_view(*v).query is Some),
        r matches Some(t) ==> args_view(*v).query == Some(t@),
{
    v.get("query").and_then(|m| m.as_str()).map(|s| s.to_owned())
}

/// Relies on serde_json's Value::get and as_str: the "kind" member.
#[verifier::external_body]
fn arg_kind(v: &serde_json::Value) -> (r: Option<String>)
    ensures
        (r is Some) == (args_view(*v).kind is Some),
        r matches Some(t) ==> args_view(*v).kind == Some(t@),
{
    v.get("kind").and_then(|m| m.as_str()).map(|s| s.to_owned())
}

/// Relies on serde_json's Value::get and as_str: the "file" member.
#[verifier::external_body]
fn arg_file(v: &serde_json::Value) -> (r: Option<String>)
    ensures
        (r is Some) == (args_view(*v).file is Some),
        r matches Some(t) ==> args_view(*v).file == Some(t@),
{
    v.get("file").and_then(|m| m.as_str()).map(|s| s.to_owned())
}

/// Relies on serde_json's Value::get and as_str: the "symbol" member.
#[verifier::external_body]
fn arg_symbol(v: &serde_json::Value) -> (r: Option<String>)
    ensures
        (r is Some) == (args_view(*v).symbol is Some),
        r matches Some(t) ==> args_view(*v).symbol == Some(t@),
{
    v.get("symbol").and_then(|m| m.as_str()).map(|s| s.to_owned())
}

// ─── Result and protocol records ────────────────────────────────

/// A single content block in a tool result.
#[derive(Clone, Debug)]
pub struct ToolResultContent {
    /// The content type tag; always "text" here.
    pub content_type: String,
    /// The content itself.
    pub text: String,
}

pub open spec fn contents_view(s: Seq<ToolResultContent>) -> Seq<(Seq<char>, Seq<char>)> {
    Seq::new(s.len(), |i: int| (s[i].content_type@, s[i].text@))
}

/// What a tool call returns.
#[derive(Clone, Debug)]
pub struct ToolsCallResult {
    pub content: Vec<ToolResultContent>,
    pub is_error: Option<bool>,
}

impl ToolsCallResult {
    /// A successful text result.
    pub fn text(text: String) -> (r: ToolsCallResult)
        ensures
            r.content@.len() == 1,
            r.content@[0].content_type@ == "text"@,
            r.content@[0].text@ == text@,
            r.is_error is None,
    {
        ToolsCallResult {
            content: vec![ToolResultContent { content_type: "text".to_owned(), text }],
            is_error: None,
        }
    }

    /// A failed text result.
    pub fn error(message: String) -> (r: ToolsCallResult)
        ensures
            r.content@.len() == 1,
            r.content@[0].content_type@ == "text"@,
            r.content@[0].text@ == message@,
            r.is_error == Some(true),
    {
        ToolsCallResult {
            content: vec![ToolResultContent { content_type: "text".to_owned(), text: message }],
            is_error: Some(true),
        }
    }
}

/// The result of `initialize`.
#[derive(Clone, Debug)]
pub struct InitializeResult {
    pub protocol_version: String,
    pub capabilities: ServerCapabilities,
    pub server_info: ServerInfo,
}

/// Server capabilities advertised during initialization.
#[derive(Clone, Debug)]
pub struct ServerCapabilities {
    pub tools: ToolCapability,
}

/// A marker that the server supports tools.
#[derive(Clone, Copy, Debug)]
pub struct ToolCapability {}

/// The server's identity.
#[derive(Clone, Debug)]
pub struct ServerInfo {
    pub name: String,
    pub version: String,
}

impl InitializeResult {
    /// The initialization record this server reports.
    pub fn current() -> (r: InitializeResult)
        ensures
            r.protocol_version@ == "2024-11-05"@,
            r.server_info.name@ == "anchor"@,
            r.server_info.version@ == "0.1.0"@,
    {
        InitializeResult {
            protocol_version: "2024-11-05".to_owned(),
            capabilities: ServerCapabilities { tools: ToolCapability {  } },
            server_info: ServerInfo { name: "anchor".to_owned(), version: "0.1.0".to_owned() },
        }
    }
}

/// The model of one tool definition.
pub ghost struct ToolDefView {
    pub name: Seq<char>,
    pub description: Seq<char>,
    pub input_schema: Seq<char>,
}

/// One tool the server offers.
#[derive(Clone, Debug)]
pub struct ToolDefinition {
    pub name: String,
    pub description: String,
    /// The tool's input schema, as serialized JSON.
    pub input_schema: String,
}

impl View for ToolDefinition {
    type V = ToolDefView;

    open spec fn view(&self) -> ToolDefView {
        ToolDefView {
            name: self.name@,
            description: self.description@,
            input_schema: self.input_schema@,
        }
    }
}

pub open spec fn tool_defs_view(s: Seq<ToolDefinition>) -> Seq<ToolDefView> {
    Seq::new(s.len(), |i: int| s[i]@)
}

/// The result of `tools/list`.
#[derive(Clone, Debug)]
pub struct ToolsListResult {
    pub tools: Vec<ToolDefinition>,
}

// ─── The tool table ─────────────────────────────────────────────

pub open spec fn spec_search_schema() -> Seq<char> {
    "{\"type\":\"object\",\"properties\":{\"query\":{\"type\":\"string\",\"description\":\"Symbol name to search for\"},\"kind\":{\"type\":\"string\",\"description\":\"Optional: filter by symbol kind\"},\"file\":{\"type\":\"string\",\"description\":\"Optional: filter by file path substring\"},\"limit\":{\"type\":\"integer\",\"description\":\"Maximum results to return\",\"default\":5}},\"required\":[\"query\"]}"@
}

pub open spec fn spec_deps_schema() -> Seq<char> {
    "{\"type\":\"object\",\"properties\":{\"symbol\":{\"type\":\"string\",\"description\":\"The symbol name to analyze dependencies for\"}},\"required\":[\"symbol\"]}"@
}

pub open spec fn spec_stats_schema() -> Seq<char> {
    "{\"type\":\"object\",\"properties\":{}}"@
}

pub open spec fn spec_file_symbols_schema() -> Seq<char> {
    "{\"type\":\"object\",\"properties\":{\"file\":{\"type\":\"string\",\"description\":\"File path to list symbols for\"}},\"required\":[\"file\"]}"@
}

/// The four tool definitions, in order.
pub open spec fn spec_tool_defs() -> Seq<ToolDefView> {
    seq![
        ToolDefView {
            name: "anchor_search"@,
            description:
                "Search for code symbols (functions, classes, structs, etc.) by name. Returns matching symbols with their source code, file location, call relationships, and imports."@,
            input_schema: spec_search_schema(),
        },
        ToolDefView {
            name: "anchor_dependencies"@,
            description:
                "Find what a symbol depends on (calls, references) and what depends on it (callers, referrers). Shows the dependency graph around a symbol."@,
            input_schema: spec_deps_schema(),
        },
        ToolDefView {
            name: "anchor_stats"@,
            description:
                "Get statistics about the code graph: file count, symbol count, edge count, and unique symbol names."@,
            input_schema: spec_stats_schema(),
        },
        ToolDefView {
            name: "anchor_file_symbols"@,
            description:
                "List all symbols defined in a specific file. Returns functions, classes, structs, methods, constants, etc. with their source code."@,
            input_schema: spec_file_symbols_schema(),
        },
    ]
}

/// The four tools this server offers, with their input schemas.
pub fn list_tools() -> (r: Vec<ToolDefinition>)
    ensures
        tool_defs_view(r@) == spec_tool_defs(),
        r@.len() == 4,
        r@[0].name@ == "anchor_search"@,
        r@[1].name@ == "anchor_dependencies"@,
        r@[2].name@ == "anchor_stats"@,
        r@[3].name@ == "anchor_file_symbols"@,
{
    let mut tools: Vec<ToolDefinition> = Vec::new();
    tools.push(
        ToolDefinition {
            name: "anchor_search".to_owned(),
            description:
                "Search for code symbols (functions, classes, structs, etc.) by name. Returns matching symbols with their source code, file location, call relationships, and imports.".to_owned(),
            input_schema:
                "{\"type\":\"object\",\"properties\":{\"query\":{\"type\":\"string\",\"description\":\"Symbol name to search for\"},\"kind\":{\"type\":\"string\",\"description\":\"Optional: filter by symbol kind\"},\"file\":{\"type\":\"string\",\"description\":\"Optional: filter by file path substring\"},\"limit\":{\"type\":\"integer\",\"description\":\"Maximum results to return\",\"default\":5}},\"required\":[\"query\"]}".to_owned(),
        },
    );
    tools.push(
        ToolDefinition {
            name: "anchor_dependencies".to_owned(),
            description:
                "Find what a symbol depends on (calls, references) and what depends on it (callers, referrers). Shows the dependency graph around a symbol.".to_owned(),
            input_schema:
                "{\"type\":\"object\",\"properties\":{\"symbol\":{\"type\":\"string\",\"description\":\"The symbol name to analyze dependencies for\"}},\"required\":[\"symbol\"]}".to_owned(),
        },
    );
    tools.push(
        ToolDefinition {
            name: "anchor_stats".to_owned(),
            description:
                "Get statistics about the code graph: file count, symbol count, edge count, and unique symbol names.".to_owned(),
            input_schema: "{\"type\":\"object\",\"properties\":{}}".to_owned(),
        },
    );
    tools.push(
        ToolDefinition {
            name: "anchor_file_symbols".to_owned(),
            description:
                "List all symbols defined in a specific file. Returns functions, classes, structs, methods, constants, etc. with their source code.".to_owned(),
            input_schema:
                "{\"type\":\"object\",\"properties\":{\"file\":{\"type\":\"string\",\"description\":\"File path to list symbols for\"}},\"required\":[\"file\"]}".to_owned(),
        },
    );
    proof {
        assert(tool_defs_view(tools@) =~= spec_tool_defs());
    }
    tools
}

// ─── Serialized forms ───────────────────────────────────────────

pub open spec fn spec_tool_def_json(t: ToolDefView) -> Seq<char> {
    "{\"name\":\""@ + spec_esc(t.name) + "\",\"description\":\""@ + spec_esc(t.description)
        + "\",\"inputSchema\":"@ + t.input_schema + "}"@
}

pub open spec fn spec_tool_defs_json(ts: Seq<ToolDefView>) -> Seq<char>
    decreases ts.len(),
{
    if ts.len() == 0 {
        Seq::empty()
    } else if ts.len() == 1 {
        spec_tool_def_json(ts[0])
    } else {
        spec_tool_defs_json(ts.drop_last()) + ","@ + spec_tool_def_json(ts.last())
    }
}

/// The `tools/list` result object.
pub open spec fn spec_tools_list_json(ts: Seq<ToolDefView>) -> Seq<char> {
    "{\"tools\":["@ + spec_tool_defs_json(ts) + "]}"@
}

/// Serialize a tool list as the `tools/list` result object.
pub fn tools_list_json(tools: &Vec<ToolDefinition>) -> (r: String)
    ensures
        r@ == spec_tools_list_json(tool_defs_view(tools@)),
{
    let mut out = String::new();
    out.append("{\"tools\":[");
    let ghost base = out@;
    let n = tools.len();
    let mut i: usize = 0;
    while i < n
        invariant
            0 <= i <= n,
            n == tools@.len(),
            out@ == base + spec_tool_defs_json(tool_defs_view(tools@).take(i as int)),
        decreases n - i,
    {
        proof {
            assert(tool_defs_view(tools@).take(i + 1).drop_last() =~= tool_defs_view(
                tools@,
            ).take(i as int));
            assert(tool_defs_view(tools@).take(i + 1).last() == tools@[i as int]@);
        }
        if i > 0 {
            out.append(",");
        }
        out.append("{\"name\":\"");
        let e = json_escape(tools[i].name.as_str());
        out.append(e.as_str());
        out.append("\",\"description\":\"");
        let e2 = json_escape(tools[i].description.as_str());
        out.append(e2.as_str());
        out.append("\",\"inputSchema\":");
        out.append(tools[i].input_schema.as_str());
        out.append("}");
        i += 1;
        proof {
            assert(out@ =~= base + spec_tool_defs_json(tool_defs_view(tools@).take(i as int)));
        }
    }
    proof {
        assert(tool_defs_view(tools@).take(n as int) =~= tool_defs_view(tools@));
        assert(out@ + "]}"@ =~= spec_tools_list_json(tool_defs_view(tools@)));
    }
    out.append("]}");
    out
}

pub open spec fn spec_content_json(c: (Seq<char>, Seq<char>)) -> Seq<char> {
    "{\"type\":\""@ + spec_esc(c.0) + "\",\"text\":\""@ + spec_esc(c.1) + "\"}"@
}

pub open spec fn spec_contents_json(cs: Seq<(Seq<char>, Seq<char>)>) -> Seq<char>
    decreases cs.len(),
{
    if cs.len() == 0 {
        Seq::empty()
    } else if cs.len() == 1 {
        spec_content_json(cs[0])
    } else {
        spec_contents_json(cs.drop_last()) + ","@ + spec_content_json(cs.last())
    }
}

/// The `tools/call` result object.
pub open spec fn spec_tool_result_json(cs: Seq<(Seq<char>, Seq<char>)>, is_error: Option<
    bool,
>) -> Seq<char> {
    "{\"content\":["@ + spec_contents_json(cs) + "]"@ + (match is_error {
        Some(true) => ",\"isError\":true"@,
        Some(false) => ",\"isError\":false"@,
        None => Seq::empty(),
    }) + "}"@
}

/// Serialize a tool-call result.
pub fn tool_result_json(r: &ToolsCallResult) -> (s: String)
    ensures
        s@ == spec_tool_result_json(contents_view(r.content@), r.is_error),
{
    let mut out = String::new();
    out.append("{\"content\":[");
    let ghost base = out@;
    let n = r.content.len();
    let mut i: usize = 0;
    while i < n
        invariant
            0 <= i <= n,
            n == r.content@.len(),
            out@ == base + spec_contents_json(contents_view(r.content@).take(i as int)),
        decreases n - i,
    {
        proof {
            assert(contents_view(r.content@).take(i + 1).drop_last() =~= contents_view(
                r.content@,
            ).take(i as int));
            assert(contents_view(r.content@).take(i + 1).last() == (
                r.content@[i as int].content_type@,
                r.content@[i as int].text@,
            ));
        }
        if i > 0 {
            out.append(",");
        }
        out.append("{\"type\":\"");
        let e = json_escape(r.content[i].content_type.as_str());
        out.append(e.as_str());
        out.append("\",\"text\":\"");
        let e2 = json_escape(r.content[i].text.as_str());
        out.append(e2.as_str());
        out.append("\"}");
        i += 1;
        proof {
            assert(out@ =~= base + spec_contents_json(contents_view(r.content@).take(i as int)));
        }
    }
    proof {
        assert(contents_view(r.content@).take(n as int) =~= contents_view(r.content@));
    }
    out.append("]");
    match r.is_error {
        Some(true) => {
            out.append(",\"isError\":true");
        },
        Some(false) => {
            out.append(",\"isError\":false");
        },
        None => {},
    }
    out.append("}");
    proof {
        assert(out@ =~= spec_tool_result_json(contents_view(r.content@), r.is_error));
    }
    out
}

/// The model of an optional id argument.
pub open spec fn id_view(o: Option<String>) -> Option<Seq<char>> {
    match o {
        Some(t) => Some(t@),
        None => None,
    }
}

/// A JSON-RPC success envelope.
pub open spec fn spec_success_response(id: Option<Seq<char>>, result: Seq<char>) -> Seq<char> {
    "{\"jsonrpc\":\"2.0\","@ + (match id {
        Some(t) => "\"id\":"@ + t + ","@,
        None => Seq::empty(),
    }) + "\"result\":"@ + result + "}"@
}

/// The decimal label of a protocol error code.
pub open spec fn spec_code_label(code: int) -> Seq<char> {
    if code == -32700 {
        "-32700"@
    } else if code == -32601 {
        "-32601"@
    } else if code == -32602 {
        "-32602"@
    } else {
        "-32603"@
    }
}

/// A JSON-RPC error envelope.
pub open spec fn spec_error_response(id: Option<Seq<char>>, code: int, msg: Seq<char>) -> Seq<
    char,
> {
    "{\"jsonrpc\":\"2.0\","@ + (match id {
        Some(t) => "\"id\":"@ + t + ","@,
        None => Seq::empty(),
    }) + "\"error\":{\"code\":"@ + spec_code_label(code) + ",\"message\":\""@ + spec_esc(msg)
        + "\"}}"@
}

/// Build a JSON-RPC success envelope around a result object.
pub fn success_response(id_text: &Option<String>, result_json: &str) -> (r: String)
    ensures
        r@ == spec_success_response(id_view(*id_text), result_json@),
{
    let mut out = String::new();
    out.append("{\"jsonrpc\":\"2.0\",");
    match id_text {
        Some(t) => {
            out.append("\"id\":");
            out.append(t.as_str());
            out.append(",");
        },
        None => {},
    }
    out.append("\"result\":");
    out.append(result_json);
    out.append("}");
    proof {
        assert(out@ =~= spec_success_response(id_view(*id_text), result_json@));
    }
    out
}

/// Build a JSON-RPC error envelope. The code must be one of the
/// protocol's error codes.
pub fn error_response(id_text: &Option<String>, code: i64, message: &str) -> (r: String)
    requires
        code == -32700 || code == -32601 || code == -32602 || code == -32603,
    ensures
        r@ == spec_error_response(id_view(*id_text), code as int, message@),
{
    let mut out = String::new();
    out.append("{\"jsonrpc\":\"2.0\",");
    match id_text {
        Some(t) => {
            out.append("\"id\":");
            out.append(t.as_str());
            out.append(",");
        },
        None => {},
    }
    out.append("\"error\":{\"code\":");
    if code == -32700 {
        out.append("-32700");
    } else if code == -32601 {
        out.append("-32601");
    } else if code == -32602 {
        out.append("-32602");
    } else {
        out.append("-32603");
    }
    out.append(",\"message\":\"");
    let e = json_escape(message);
    out.append(e.as_str());
    out.append("\"}}");
    proof {
        assert(out@ =~= spec_error_response(id_view(*id_text), code as int, message@));
    }
    out
}

// ─── Tool dispatch ──────────────────────────────────────────────

/// What one tool call produces: the error flag and the text block.
pub ghost struct ToolOutcome {
    pub is_error: Option<bool>,
    pub text: Seq<char>,
}

/// What `call_tool` produces for a tool name, a graph, and the
/// argument model: the spec-level search, dependency, statistics or
/// file-symbols response serialized by the library's own forms, or
/// the matching error text.
pub open spec fn spec_call_tool(m: GraphModel, name: Seq<char>, a: ArgsView) -> ToolOutcome {
    if name == "anchor_search"@ {
        match a.query {
            None => ToolOutcome {
                is_error: Some(true),
                text: "Missing required parameter: query"@,
            },
            Some(q) => {
                let rs = if a.kind is Some || a.file is Some {
                    filter_results(spec_search(m, q, 5), a.kind, a.file)
                } else {
                    spec_search(m, q, 5)
                };
                ToolOutcome {
                    is_error: None,
                    text: spec_search_response_json(rs.len() > 0, rs.len(), rs),
                }
            },
        }
    } else if name == "anchor_dependencies"@ {
        match a.symbol {
            None => ToolOutcome {
                is_error: Some(true),
                text: "Missing required parameter: symbol"@,
            },
            Some(s) => ToolOutcome {
                is_error: None,
                text: spec_report_json(spec_dependencies(m, s), spec_dependents(m, s)),
            },
        }
    } else if name == "anchor_stats"@ {
        ToolOutcome { is_error: None, text: spec_stats_json(spec_stats_of(m)) }
    } else if name == "anchor_file_symbols"@ {
        match a.file {
            None => ToolOutcome {
                is_error: Some(true),
                text: "Missing required parameter: file"@,
            },
            Some(f) => {
                let fs = spec_file_symbols(m, f);
                ToolOutcome {
                    is_error: None,
                    text: spec_file_symbols_json(fs.0, fs.1, fs.2),
                }
            },
        }
    } else {
        ToolOutcome { is_error: Some(true), text: "Unknown tool: "@ + name }
    }
}

/// Dispatch a tool call by name; an unknown tool or missing argument
/// is an error result, never a failure of the server.
pub fn call_tool(graph: &CodeGraph, name: &str, arguments: &serde_json::Value) -> (r:
    ToolsCallResult)
    requires
        well_formed(graph@),
    ensures
        r.content@.len() == 1,
        r.content@[0].content_type@ == "text"@,
        r.is_error == spec_call_tool(graph@, name@, args_view(*arguments)).is_error,
        r.content@[0].text@ == spec_call_tool(graph@, name@, args_view(*arguments)).text,
{
    let ghost a = args_view(*arguments);
    if streq(name, "anchor_search") {
        let query_str = match arg_query(arguments) {
            Some(s) => s,
            None => {
                return ToolsCallResult::error("Missing required parameter: query".to_owned());
            },
        };
        let kind = arg_kind(arguments);
        let file = arg_file(arguments);
        let query = if kind.is_some() || file.is_some() {
            Query::Structured { symbol: query_str, kind, file }
        } else {
            Query::Simple(query_str)
        };
        let response = anchor_search(graph, query);
        ToolsCallResult::text(search_response_json(&response))
    } else if streq(name, "anchor_dependencies") {
        let symbol = match arg_symbol(arguments) {
            Some(s) => s,
            None => {
                return ToolsCallResult::error("Missing required parameter: symbol".to_owned());
            },
        };
        let response = anchor_dependencies(graph, symbol.as_str());
        ToolsCallResult::text(report_json(&response))
    } else if streq(name, "anchor_stats") {
        let response = anchor_stats(graph);
        ToolsCallResult::text(stats_json(&response))
    } else if streq(name, "anchor_file_symbols") {
        let file = match arg_file(arguments) {
            Some(s) => s,
            None => {
                return ToolsCallResult::error("Missing required parameter: file".to_owned());
            },
        };
        let response = anchor_file_symbols(graph, file.as_str());
        ToolsCallResult::text(file_symbols_json(&response))
    } else {
        let mut msg = String::new();
        msg.append("Unknown tool: ");
        msg.append(name);
        ToolsCallResult::error(msg)
    }
}

// ─── Request dispatch ───────────────────────────────────────────

/// The methods this server answers.
pub open spec fn known_method(m: Seq<char>) -> bool {
    m == "initialize"@ || m == "notifications/initialized"@ || m == "tools/list"@ || m
        == "tools/call"@ || m == "ping"@
}

/// The `initialize` result object.
pub open spec fn spec_initialize_json() -> Seq<char> {
    "{\"protocolVersion\":\""@ + spec_esc("2024-11-05"@)
        + "\",\"capabilities\":{\"tools\":{}},\"serverInfo\":{\"name\":\""@ + spec_esc("anchor"@)
        + "\",\"version\":\""@ + spec_esc("0.1.0"@) + "\"}}"@
}

/// The tool outcome of a `tools/call` request, with a missing
/// arguments object read as the empty object.
pub open spec fn spec_call_outcome(m: GraphModel, rq: ReqView, tn: Seq<char>) -> ToolOutcome {
    if rq.has_args {
        spec_call_tool(m, tn, rq.args)
    } else {
        spec_call_tool(m, tn, args_view(parsed_of("{}"@)))
    }
}

/// Handle one line of JSON-RPC: parse, dispatch, and serialize the
/// response. A notification gets no response; everything else gets
/// exactly the envelope the protocol fixes for its method, and a
/// failure to parse or to find the method is reported as an error
/// object, never a failure of the server.
pub fn handle_request(graph: &CodeGraph, line: &str) -> (r: Option<String>)
    requires
        well_formed(graph@),
    ensures
        ({
            let rq = req_view(parsed_of(line@));
            &&& !json_ok(line@) ==> (r matches Some(resp) && resp@ == spec_error_response(
                None::<Seq<char>>,
                -32700,
                "Parse error"@,
            ))
            &&& json_ok(line@) && rq.method is None ==> (r matches Some(resp) && resp@
                == spec_error_response(rq.id, -32700, "Parse error"@))
            &&& (r is None) <==> (json_ok(line@) && rq.method == Some(
                "notifications/initialized"@,
            ))
            &&& json_ok(line@) && rq.method == Some("initialize"@) ==> (r matches Some(resp)
                && resp@ == spec_success_response(rq.id, spec_initialize_json()))
            &&& json_ok(line@) && rq.method == Some("tools/list"@) ==> (r matches Some(resp)
                && resp@ == spec_success_response(rq.id, spec_tools_list_json(spec_tool_defs())))
            &&& json_ok(line@) && rq.method == Some("ping"@) ==> (r matches Some(resp) && resp@
                == spec_success_response(rq.id, "{}"@))
            &&& json_ok(line@) && rq.method is Some && !known_method(rq.method->Some_0) ==> (
            r matches Some(resp) && resp@ == spec_error_response(
                rq.id,
                -32601,
                "Method not found: "@ + rq.method->Some_0,
            ))
            &&& json_ok(line@) && rq.method == Some("tools/call"@) && !(rq.has_params
                && rq.tool_name is Some) ==> (r matches Some(resp) && resp@
                == spec_error_response(rq.id, -32602, "Invalid params"@))
            &&& json_ok(line@) && rq.method == Some("tools/call"@) && rq.has_params
                && rq.tool_name is Some && (rq.has_args || json_ok("{}"@)) ==> {
                let out = spec_call_outcome(graph@, rq, rq.tool_name->Some_0);
                r matches Some(resp) && resp@ == spec_success_response(
                    rq.id,
                    spec_tool_result_json(seq![("text"@, out.text)], out.is_error),
                )
            }
            &&& json_ok(line@) && rq.method == Some("tools/call"@) && rq.has_params
                && rq.tool_name is Some && !rq.has_args && !json_ok("{}"@) ==> (r matches Some(
                resp,
            ) && resp@ == spec_error_response(rq.id, -32603, "Internal error"@))
        }),
{
    proof {
        // the five method names are pairwise distinct
        assert("initialize"@.len() == 10 && "notifications/initialized"@.len() == 25
            && "tools/list"@.len() == 10 && "tools/call"@.len() == 10 && "ping"@.len() == 4) by {
            reveal_strlit("initialize");
            reveal_strlit("notifications/initialized");
            reveal_strlit("tools/list");
            reveal_strlit("tools/call");
            reveal_strlit("ping");
        }
        assert("initialize"@[0] == 'i' && "tools/list"@[0] == 't' && "tools/call"@[0] == 't'
            && "tools/list"@[6] == 'l' && "tools/call"@[6] == 'c') by {
            reveal_strlit("initialize");
            reveal_strlit("tools/list");
            reveal_strlit("tools/call");
        }
    }
    let parsed = match json_parse(line) {
        Some(v) => v,
        None => {
            return Some(error_response(&None, -32700, "Parse error"));
        },
    };
    let id_text: Option<String> = req_id_text(&parsed);
    proof {
        assert(id_view(id_text) == req_view(parsed_of(line@)).id);
    }
    let method: String = match req_method(&parsed) {
        Some(s) => s,
        None => {
            return Some(error_response(&id_text, -32700, "Parse error"));
        },
    };
    if streq(method.as_str(), "initialize") {
        let info = InitializeResult::current();
        let mut result = String::new();
        result.append("{\"protocolVersion\":\"");
        let e = json_escape(info.protocol_version.as_str());
        result.append(e.as_str());
        result.append("\",\"capabilities\":{\"tools\":{}},\"serverInfo\":{\"name\":\"");
        let e2 = json_escape(info.server_info.name.as_str());
        result.append(e2.as_str());
        result.append("\",\"version\":\"");
        let e3 = json_escape(info.server_info.version.as_str());
        result.append(e3.as_str());
        result.append("\"}}");
        proof {
            assert(result@ =~= spec_initialize_json());
        }
        Some(success_response(&id_text, result.as_str()))
    } else if streq(method.as_str(), "notifications/initialized") {
        None
    } else if streq(method.as_str(), "tools/list") {
        let tools = list_tools();
        let result = tools_list_json(&tools);
        Some(success_response(&id_text, result.as_str()))
    } else if streq(method.as_str(), "tools/call") {
        if !req_has_params(&parsed) {
            return Some(error_response(&id_text, -32602, "Invalid params"));
        }
        let name = match req_tool_name(&parsed) {
            Some(s) => s,
            None => {
                return Some(error_response(&id_text, -32602, "Invalid params"));
            },
        };
        let result = match req_args(&parsed) {
            Some(args) => call_tool(graph, name.as_str(), args),
            None => {
                let empty = match json_parse("{}") {
                    Some(v) => v,
                    None => {
                        return Some(error_response(&id_text, -32603, "Internal error"));
                    },
                };
                call_tool(graph, name.as_str(), &empty)
            },
        };
        let body = tool_result_json(&result);
        proof {
            let rq = req_view(parsed_of(line@));
            let out = spec_call_outcome(graph@, rq, rq.tool_name->Some_0);
            assert(contents_view(result.content@) =~= seq![("text"@, out.text)]);
        }
        Some(success_response(&id_text, body.as_str()))
    } else if streq(method.as_str(), "ping") {
        Some(success_response(&id_text, "{}"))
    } else {
        let mut msg = String::new();
        msg.append("Method not found: ");
        msg.append(method.as_str());
        proof {
            assert(msg@ =~= "Method not found: "@ + method@);
        }
        Some(error_response(&id_text, -32601, msg.as_str()))
    }
}

} // verus!
