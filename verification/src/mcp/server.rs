use vstd::prelude::*;

use crate::mcp::types::{
    CallToolParams, CallToolResult, InitializeResult, JsonRpcError, JsonRpcRequest, JsonRpcResponse,
    ListToolsResult, McpTool, ResponseBody, SchemaProperty, ServerCapabilities, ServerInfo,
    ToolInputSchema, ToolView, ToolsCapability, is_rpc_error, is_text_result,
};
use crate::text::{owned, push_text, text_eq};

verus! {

/// The MCP server: answers the protocol's requests and decides what each tool call does.
pub struct McpServer {
    server_info: ServerInfo,
}

impl McpServer {
    /// The name that the server announces.
    pub closed spec fn name(&self) -> Seq<char> {
        self.server_info.name@
    }

    /// The version that the server announces.
    pub closed spec fn version(&self) -> Seq<char> {
        self.server_info.version@
    }

    /// The server `rustowl-mcp`, version `0.1.0`.
    pub fn new() -> (s: Self)
        ensures
            s.name() == "rustowl-mcp"@,
            s.version() == "0.1.0"@,
    {
        Self::default()
    }
}

impl Default for McpServer {
    /// The server `rustowl-mcp`, version `0.1.0`.
    fn default() -> (s: Self)
        ensures
            s.name() == "rustowl-mcp"@,
            s.version() == "0.1.0"@,
    {
        McpServer { server_info: ServerInfo { name: owned("rustowl-mcp"), version: owned("0.1.0") } }
    }
}

/// The tools that the server offers, in order.
pub open spec fn tool_catalog() -> Seq<ToolView> {
    seq![
        ToolView {
            name: "rustowl_inspect_cursor"@,
            description: "Inspect Rust variable lifetime, immutable/mutable borrows, moves, and borrow-checker conflicts at a specific file coordinate."@,
            properties: seq![
                ("path"@, "string"@, "Path to the Rust source file"@),
                ("line"@, "integer"@, "1-indexed line number of the variable/token"@),
                ("col"@, "integer"@, "1-indexed column number of the variable/token"@),
            ],
            required: seq!["path"@, "line"@, "col"@],
        },
        ToolView {
            name: "rustowl_inspect_line"@,
            description: "Inspect all Rust variable lifetimes, borrows, and moves on an entire line of code."@,
            properties: seq![
                ("path"@, "string"@, "Path to the Rust source file"@),
                ("line"@, "integer"@, "1-indexed line number to inspect"@),
            ],
            required: seq!["path"@, "line"@],
        },
    ]
}

fn property(name: &str, value_type: &str, description: &str) -> (p: SchemaProperty)
    ensures
        p.name@ == name@,
        p.value_type@ == value_type@,
        p.description@ == description@,
{
    SchemaProperty { name: owned(name), value_type: owned(value_type), description: owned(description) }
}

/// What a tool call comes to.
pub enum ToolAction {
    /// Inspect the variable at the one-based (`line`, `col`) of the file at `path`.
    InspectCursor { path: String, line: u32, col: u32 },
    /// Inspect every variable on the one-based `line` of the file at `path`.
    InspectLine { path: String, line: u32 },
    /// The call is answered at once with this result.
    Finish(CallToolResult),
}

/// Which tool ran.
pub enum ToolKind {
    Cursor,
    Line,
}

/// How running a tool went.
pub enum ToolOutcome {
    /// The analysis succeeded and its report was rendered as this JSON text.
    Rendered(String),
    /// The analysis succeeded but its report could not be rendered, for this reason.
    RenderFailed(String),
    /// The analysis failed, for this reason.
    AnalysisFailed(String),
}

/// What a step of request handling comes to.
pub enum RequestStep<Id, P> {
    /// Send this response.
    Respond(JsonRpcResponse<Id>),
    /// Read `params` as the parameters of a tool call and run it (see `dispatch_tool`).
    CallTool { id: Option<Id>, params: P },
}

/// The methods that the server tells apart.
pub enum MethodKind {
    Initialize,
    Initialized,
    ListTools,
    CallTool,
    Other,
}

/// Which method `m` names.
pub open spec fn method_kind(m: Seq<char>) -> MethodKind {
    if m == "initialize"@ {
        MethodKind::Initialize
    } else if m == "notifications/initialized"@ || m == "initialized"@ {
        MethodKind::Initialized
    } else if m == "tools/list"@ {
        MethodKind::ListTools
    } else if m == "tools/call"@ {
        MethodKind::CallTool
    } else {
        MethodKind::Other
    }
}

/// `r` is a JSON-RPC 2.0 response to the request `id`.
pub open spec fn answers<Id>(r: JsonRpcResponse<Id>, id: Option<Id>) -> bool {
    r.jsonrpc@ == "2.0"@ && r.id == id
}

/// `init` announces protocol version `2024-11-05`, tools whose list does not change, and the
/// server's name and version.
pub open spec fn initialize_result_ok(init: InitializeResult, name: Seq<char>, version: Seq<char>) -> bool {
    &&& init.protocol_version@ == "2024-11-05"@
    &&& init.capabilities.tools matches Some(t) && t.list_changed == Some(false)
    &&& init.server_info.name@ == name
    &&& init.server_info.version@ == version
}

/// How a server with the given name and version handles `req`: `initialize` is answered
/// with the server's capabilities, `initialized` with an empty object, `tools/list` with the
/// tool catalog; `tools/call` goes on to the tool with its parameters, or is refused for
/// want of them; any other method is refused as not found. Every response answers the
/// request's id.
pub open spec fn handles<Id, P>(
    name: Seq<char>,
    version: Seq<char>,
    req: JsonRpcRequest<Id, P>,
    step: RequestStep<Id, P>,
) -> bool {
    match method_kind(req.method@) {
        MethodKind::Initialize => match step {
            RequestStep::Respond(r) => answers(r, req.id) && r.error is None && match r.result {
                Some(ResponseBody::Initialize(init)) => initialize_result_ok(init, name, version),
                _ => false,
            },
            _ => false,
        },
        MethodKind::Initialized => match step {
            RequestStep::Respond(r) => answers(r, req.id) && r.error is None && r.result == Some(
                ResponseBody::Empty,
            ),
            _ => false,
        },
        MethodKind::ListTools => match step {
            RequestStep::Respond(r) => answers(r, req.id) && r.error is None && match r.result {
                Some(ResponseBody::ToolList(l)) => l.tools@.map_values(|t: McpTool| t@) == tool_catalog(),
                _ => false,
            },
            _ => false,
        },
        MethodKind::CallTool => match req.params {
            Some(p) => step == RequestStep::CallTool { id: req.id, params: p },
            None => match step {
                RequestStep::Respond(r) => answers(r, req.id) && r.result is None && match r.error {
                    Some(e) => is_rpc_error(e, -32602, "Invalid params: "@ + "Missing params"@),
                    None => false,
                },
                _ => false,
            },
        },
        MethodKind::Other => match step {
            RequestStep::Respond(r) => answers(r, req.id) && r.result is None && match r.error {
                Some(e) => is_rpc_error(e, -32601, "Method not found: "@ + req.method@),
                None => false,
            },
            _ => false,
        },
    }
}

/// The failed result with the single text `message`.
pub open spec fn refused(a: ToolAction, message: Seq<char>) -> bool {
    match a {
        ToolAction::Finish(r) => is_text_result(r, message, true),
        _ => false,
    }
}

/// What a tool call `call` comes to: the cursor tool needs `path`, `line` and `col`, the
/// line tool `path` and `line` (in that order, the first missing one refuses the call); the
/// numbers are taken as `u32` (truncated); an unknown tool is refused.
pub open spec fn dispatched(call: CallToolParams, a: ToolAction) -> bool {
    let args = call.arguments;
    if call.name@ == "rustowl_inspect_cursor"@ {
        match args.path {
            None => refused(a, "Missing 'path' argument"@),
            Some(p) => match args.line {
                None => refused(a, "Missing or invalid 'line' argument"@),
                Some(l) => match args.col {
                    None => refused(a, "Missing or invalid 'col' argument"@),
                    Some(c) => a == ToolAction::InspectCursor { path: p, line: l as u32, col: c as u32 },
                },
            },
        }
    } else if call.name@ == "rustowl_inspect_line"@ {
        match args.path {
            None => refused(a, "Missing 'path' argument"@),
            Some(p) => match args.line {
                None => refused(a, "Missing or invalid 'line' argument"@),
                Some(l) => a == ToolAction::InspectLine { path: p, line: l as u32 },
            },
        }
    } else {
        refused(a, "Unknown tool: "@ + call.name@)
    }
}

/// The result that a tool call gets from how running the tool went: the rendered report as
/// text, or an error that says what failed.
pub open spec fn tool_result_ok(kind: ToolKind, outcome: ToolOutcome, r: CallToolResult) -> bool {
    match outcome {
        ToolOutcome::Rendered(json) => is_text_result(r, json@, false),
        ToolOutcome::RenderFailed(e) => match kind {
            ToolKind::Cursor => is_text_result(r, "Failed to serialize report: "@ + e@, true),
            ToolKind::Line => is_text_result(r, "Failed to serialize reports: "@ + e@, true),
        },
        ToolOutcome::AnalysisFailed(e) => is_text_result(r, "RustOwl analysis error: "@ + e@, true),
    }
}

fn message_with(prefix: &str, detail: &str) -> (r: String)
    ensures
        r@ == prefix@ + detail@,
{
    let mut r = owned(prefix);
    push_text(&mut r, detail);
    r
}

impl McpServer {
    /// The tools that the server offers (see `tool_catalog`).
    pub fn get_tools(&self) -> (tools: Vec<McpTool>)
        ensures
            tools@.map_values(|t: McpTool| t@) == tool_catalog(),
    {
        let cursor = McpTool {
            name: owned("rustowl_inspect_cursor"),
            description: owned(
                "Inspect Rust variable lifetime, immutable/mutable borrows, moves, and borrow-checker conflicts at a specific file coordinate.",
            ),
            input_schema: ToolInputSchema {
                properties: vec![
                    property("path", "string", "Path to the Rust source file"),
                    property("line", "integer", "1-indexed line number of the variable/token"),
                    property("col", "integer", "1-indexed column number of the variable/token"),
                ],
                required: vec![owned("path"), owned("line"), owned("col")],
            },
        };
        let line = McpTool {
            name: owned("rustowl_inspect_line"),
            description: owned(
                "Inspect all Rust variable lifetimes, borrows, and moves on an entire line of code.",
            ),
            input_schema: ToolInputSchema {
                properties: vec![
                    property("path", "string", "Path to the Rust source file"),
                    property("line", "integer", "1-indexed line number to inspect"),
                ],
                required: vec![owned("path"), owned("line")],
            },
        };
        let tools = vec![cursor, line];
        assert(tools@[0]@.properties =~= tool_catalog()[0].properties);
        assert(tools@[0]@.required =~= tool_catalog()[0].required);
        assert(tools@[1]@.properties =~= tool_catalog()[1].properties);
        assert(tools@[1]@.required =~= tool_catalog()[1].required);
        assert(tools@.map_values(|t: McpTool| t@) =~= tool_catalog());
        tools
    }

    /// Handles one request (see `handles`).
    pub fn handle_request<Id, P>(&self, req: JsonRpcRequest<Id, P>) -> (step: RequestStep<Id, P>)
        ensures
            handles(self.name(), self.version(), req, step),
    {
        if text_eq(req.method.as_str(), "initialize") {
            let res = InitializeResult {
                protocol_version: owned("2024-11-05"),
                capabilities: ServerCapabilities {
                    tools: Some(ToolsCapability { list_changed: Some(false) }),
                },
                server_info: ServerInfo {
                    name: self.server_info.name.clone(),
                    version: self.server_info.version.clone(),
                },
            };
            RequestStep::Respond(JsonRpcResponse::success(req.id, ResponseBody::Initialize(res)))
        } else if text_eq(req.method.as_str(), "notifications/initialized") || text_eq(
            req.method.as_str(),
            "initialized",
        ) {
            RequestStep::Respond(JsonRpcResponse::success(req.id, ResponseBody::Empty))
        } else if text_eq(req.method.as_str(), "tools/list") {
            let res = ListToolsResult { tools: self.get_tools() };
            RequestStep::Respond(JsonRpcResponse::success(req.id, ResponseBody::ToolList(res)))
        } else if text_eq(req.method.as_str(), "tools/call") {
            match req.params {
                Some(p) => RequestStep::CallTool { id: req.id, params: p },
                None => RequestStep::Respond(
                    JsonRpcResponse::error(req.id, JsonRpcError::invalid_params("Missing params")),
                ),
            }
        } else {
            let e = JsonRpcError::method_not_found(req.method.as_str());
            RequestStep::Respond(JsonRpcResponse::error(req.id, e))
        }
    }

    /// Decides what a tool call comes to (see `dispatched`).
    pub fn dispatch_tool(&self, call: CallToolParams) -> (a: ToolAction)
        ensures
            dispatched(call, a),
    {
        let is_cursor = text_eq(call.name.as_str(), "rustowl_inspect_cursor");
        let is_line = text_eq(call.name.as_str(), "rustowl_inspect_line");
        if is_cursor || is_line {
            let args = call.arguments;
            let path = match args.path {
                Some(p) => p,
                None => return ToolAction::Finish(CallToolResult::error(owned("Missing 'path' argument"))),
            };
            let line: u32 = match args.line {
                Some(l) => l as u32,
                None => return ToolAction::Finish(
                    CallToolResult::error(owned("Missing or invalid 'line' argument")),
                ),
            };
            if is_cursor {
                let col: u32 = match args.col {
                    Some(c) => c as u32,
                    None => return ToolAction::Finish(
                        CallToolResult::error(owned("Missing or invalid 'col' argument")),
                    ),
                };
                ToolAction::InspectCursor { path, line, col }
            } else {
                ToolAction::InspectLine { path, line }
            }
        } else {
            ToolAction::Finish(CallToolResult::error(message_with("Unknown tool: ", call.name.as_str())))
        }
    }
}

/// The result of a tool call from how running the tool went (see `tool_result_ok`).
pub fn tool_call_result(kind: ToolKind, outcome: ToolOutcome) -> (r: CallToolResult)
    ensures
        tool_result_ok(kind, outcome, r),
{
    match outcome {
        ToolOutcome::Rendered(json) => CallToolResult::text(json),
        ToolOutcome::RenderFailed(e) => match kind {
            ToolKind::Cursor => CallToolResult::error(message_with("Failed to serialize report: ", e.as_str())),
            ToolKind::Line => CallToolResult::error(message_with("Failed to serialize reports: ", e.as_str())),
        },
        ToolOutcome::AnalysisFailed(e) => CallToolResult::error(message_with("RustOwl analysis error: ", e.as_str())),
    }
}

/// The tool argument named `name` is given (as a value of the right type) in `args`.
pub open spec fn argument_given(args: crate::mcp::types::ToolArguments, name: Seq<char>) -> bool {
    ||| name == "path"@ && args.path is Some
    ||| name == "line"@ && args.line is Some
    ||| name == "col"@ && args.col is Some
}

/// Every response answers the request it was made for: its id is the request's id, and a
/// tool call that goes on keeps the request's id too.
pub proof fn lemma_response_answers_request<Id, P>(
    name: Seq<char>,
    version: Seq<char>,
    req: JsonRpcRequest<Id, P>,
    step: RequestStep<Id, P>,
)
    requires
        handles(name, version, req, step),
    ensures
        match step {
            RequestStep::Respond(r) => r.id == req.id && r.jsonrpc@ == "2.0"@,
            RequestStep::CallTool { id, params } => id == req.id && req.params == Some(params),
        },
{
}

proof fn lemma_tool_literals()
    ensures
        "rustowl_inspect_cursor"@ != "rustowl_inspect_line"@,
        "path"@ != "line"@,
        "path"@ != "col"@,
        "line"@ != "col"@,
{
    reveal_strlit("rustowl_inspect_cursor");
    reveal_strlit("rustowl_inspect_line");
    reveal_strlit("path");
    reveal_strlit("line");
    reveal_strlit("col");
    assert("rustowl_inspect_cursor"@[16] != "rustowl_inspect_line"@[16]);
    assert("path"@[0] != "line"@[0]);
    assert("path"@[0] != "col"@[0]);
    assert("line"@.len() != "col"@.len());
}

/// A call of a listed tool that gives every argument the tool's schema requires is run:
/// the cursor tool inspects a cursor, the line tool a line; it is not answered at once.
pub proof fn lemma_listed_tool_runs(call: CallToolParams, a: ToolAction, k: int)
    requires
        0 <= k < tool_catalog().len(),
        call.name@ == tool_catalog()[k].name,
        forall|j: int|
            0 <= j < tool_catalog()[k].required.len() ==> argument_given(
                call.arguments,
                #[trigger] tool_catalog()[k].required[j],
            ),
        dispatched(call, a),
    ensures
        k == 0 ==> a is InspectCursor,
        k == 1 ==> a is InspectLine,
{
    lemma_tool_literals();
    let req = tool_catalog()[k].required;
    assert(argument_given(call.arguments, req[0]));
    assert(argument_given(call.arguments, req[1]));
    if k == 0 {
        assert(argument_given(call.arguments, req[2]));
    }
}

/// A call of a listed tool that lacks an argument that the tool's schema requires is
/// refused with an error result.
pub proof fn lemma_missing_required_refused(call: CallToolParams, a: ToolAction, k: int, j: int)
    requires
        0 <= k < tool_catalog().len(),
        call.name@ == tool_catalog()[k].name,
        0 <= j < tool_catalog()[k].required.len(),
        !argument_given(call.arguments, tool_catalog()[k].required[j]),
        dispatched(call, a),
    ensures
        a matches ToolAction::Finish(r) && r.is_error,
{
    lemma_tool_literals();
}

/// A call of a tool that is not listed is refused with the error "Unknown tool: " and the
/// tool's name.
pub proof fn lemma_unlisted_tool_refused(call: CallToolParams, a: ToolAction)
    requires
        forall|k: int| 0 <= k < tool_catalog().len() ==> call.name@ != #[trigger] tool_catalog()[k].name,
        dispatched(call, a),
    ensures
        refused(a, "Unknown tool: "@ + call.name@),
{
    assert(call.name@ != tool_catalog()[0].name);
    assert(call.name@ != tool_catalog()[1].name);
}

/// The text of a request on one input line of the stdio transport: the line without
/// leading and trailing white space, or nothing where no text is left (the line is skipped).
pub fn request_text(line: &str) -> (r: Option<String>)
    ensures
        match r {
            Some(t) => t@ == crate::text::trim(line@) && t@.len() > 0,
            None => crate::text::trim(line@).len() == 0,
        },
{
    let t = crate::text::trim_chars(&crate::text::chars_of(line));
    if t.len() == 0 {
        None
    } else {
        Some(crate::text::string_of(&t))
    }
}

impl<Id, P> JsonRpcRequest<Id, P> {
    /// A request with an id gets a response; a notification (no id) gets none.
    pub fn expects_response(&self) -> (b: bool)
        ensures
            b == self.id is Some,
    {
        self.id.is_some()
    }
}

/// Every property of every tool's input schema is declared with the JSON type of the
/// argument that dispatch reads for it: `path` (a `String`) is a "string", `line` and `col`
/// (each a `u64`) are "integer"s; and every required argument is one of the tool's
/// properties. So a call that gives each required property a value of its declared type
/// is run (see `lemma_listed_tool_runs`).
pub proof fn lemma_schema_types_match_arguments()
    ensures
        forall|k: int, i: int|
            0 <= k < tool_catalog().len() && 0 <= i < tool_catalog()[k].properties.len() ==> {
                let p = #[trigger] tool_catalog()[k].properties[i];
                ||| p.0 == "path"@ && p.1 == "string"@
                ||| p.0 == "line"@ && p.1 == "integer"@
                ||| p.0 == "col"@ && p.1 == "integer"@
            },
        forall|k: int, j: int|
            0 <= k < tool_catalog().len() && 0 <= j < tool_catalog()[k].required.len() ==> exists|i: int|
                0 <= i < tool_catalog()[k].properties.len() && (#[trigger] tool_catalog()[k].properties[i]).0
                    == #[trigger] tool_catalog()[k].required[j],
{
    let c = tool_catalog();
    assert forall|k: int, j: int|
        0 <= k < c.len() && 0 <= j < c[k].required.len() implies exists|i: int|
            0 <= i < c[k].properties.len() && (#[trigger] c[k].properties[i]).0 == #[trigger] c[k].required[j] by {
        assert(c[k].properties[j].0 == c[k].required[j]);
    }
}

} // verus!
