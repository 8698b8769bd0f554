use vstd::prelude::*;

use crate::text::{owned, push_text};

verus! {

/// Name and version of a server, as announced on `initialize`.
#[derive(Debug, Clone)]
pub struct ServerInfo {
    pub name: String,
    pub version: String,
}

/// What the server can do with tools.
#[derive(Debug, Clone)]
pub struct ToolsCapability {
    pub list_changed: Option<bool>,
}

/// The capabilities that the server announces.
#[derive(Debug, Clone)]
pub struct ServerCapabilities {
    pub tools: Option<ToolsCapability>,
}

/// The result of `initialize`.
#[derive(Debug, Clone)]
pub struct InitializeResult {
    pub protocol_version: String,
    pub capabilities: ServerCapabilities,
    pub server_info: ServerInfo,
}

/// One property of a tool's input object: its name, JSON type and description.
#[derive(Debug, Clone)]
pub struct SchemaProperty {
    pub name: String,
    pub value_type: String,
    pub description: String,
}

/// The JSON schema of a tool's input: an object with these properties, of which those in
/// `required` must be given.
#[derive(Debug, Clone)]
pub struct ToolInputSchema {
    pub properties: Vec<SchemaProperty>,
    pub required: Vec<String>,
}

/// A tool that the server offers.
#[derive(Debug, Clone)]
pub struct McpTool {
    pub name: String,
    pub description: String,
    pub input_schema: ToolInputSchema,
}

/// The result of `tools/list`.
#[derive(Debug, Clone)]
pub struct ListToolsResult {
    pub tools: Vec<McpTool>,
}

/// The arguments of a tool call that the tools read: `path` where it is a string, `line`
/// and `col` where they are unsigned integers.
#[derive(Debug, Clone)]
pub struct ToolArguments {
    pub path: Option<String>,
    pub line: Option<u64>,
    pub col: Option<u64>,
}

/// The parameters of `tools/call`.
#[derive(Debug, Clone)]
pub struct CallToolParams {
    pub name: String,
    pub arguments: ToolArguments,
}

/// One piece of content of a tool result.
#[derive(Debug, Clone)]
pub enum ToolContent {
    Text { text: String },
}

/// The result of a tool call.
#[derive(Debug, Clone)]
pub struct CallToolResult {
    pub content: Vec<ToolContent>,
    pub is_error: bool,
}

/// A JSON-RPC error object.
#[derive(Debug, Clone)]
pub struct JsonRpcError {
    pub code: i64,
    pub message: String,
}

/// A JSON-RPC request; the id and the parameters are carried as the transport gives them.
#[derive(Debug, Clone)]
pub struct JsonRpcRequest<Id, P> {
    pub jsonrpc: String,
    pub id: Option<Id>,
    pub method: String,
    pub params: Option<P>,
}

/// The result of a successful request.
#[derive(Debug, Clone)]
pub enum ResponseBody {
    Initialize(InitializeResult),
    /// An empty JSON object.
    Empty,
    ToolList(ListToolsResult),
    ToolCall(CallToolResult),
}

/// A JSON-RPC response: a result or an error, for the request with id `id`.
#[derive(Debug, Clone)]
pub struct JsonRpcResponse<Id> {
    pub jsonrpc: String,
    pub id: Option<Id>,
    pub result: Option<ResponseBody>,
    pub error: Option<JsonRpcError>,
}

/// `r` is a tool result with the single text `text`, marked as an error or not.
pub open spec fn is_text_result(r: CallToolResult, text: Seq<char>, is_error: bool) -> bool {
    &&& r.is_error == is_error
    &&& r.content@.len() == 1
    &&& match r.content@[0] {
        ToolContent::Text { text: t } => t@ == text,
    }
}

impl CallToolResult {
    /// A successful result with the single text `text`.
    pub fn text(text: String) -> (r: Self)
        ensures
            is_text_result(r, text@, false),
    {
        CallToolResult { content: vec![ToolContent::Text { text }], is_error: false }
    }

    /// A failed result with the single text `message`.
    pub fn error(message: String) -> (r: Self)
        ensures
            is_text_result(r, message@, true),
    {
        CallToolResult { content: vec![ToolContent::Text { text: message }], is_error: true }
    }
}

/// `e` has this code and message.
pub open spec fn is_rpc_error(e: JsonRpcError, code: int, message: Seq<char>) -> bool {
    e.code == code && e.message@ == message
}

fn prefixed(prefix: &str, rest: &str) -> (r: String)
    ensures
        r@ == prefix@ + rest@,
{
    let mut r = owned(prefix);
    push_text(&mut r, rest);
    r
}

impl JsonRpcError {
    /// The request could not be read as JSON (code -32700).
    pub fn parse_error(details: &str) -> (e: Self)
        ensures
            is_rpc_error(e, -32700, "Parse error: "@ + details@),
    {
        JsonRpcError { code: -32700, message: prefixed("Parse error: ", details) }
    }

    /// No method of that name (code -32601).
    pub fn method_not_found(method: &str) -> (e: Self)
        ensures
            is_rpc_error(e, -32601, "Method not found: "@ + method@),
    {
        JsonRpcError { code: -32601, message: prefixed("Method not found: ", method) }
    }

    /// The parameters do not fit the method (code -32602).
    pub fn invalid_params(details: &str) -> (e: Self)
        ensures
            is_rpc_error(e, -32602, "Invalid params: "@ + details@),
    {
        JsonRpcError { code: -32602, message: prefixed("Invalid params: ", details) }
    }
}

impl<Id> JsonRpcResponse<Id> {
    /// A JSON-RPC 2.0 response carrying `result` for the request `id`.
    pub fn success(id: Option<Id>, result: ResponseBody) -> (r: Self)
        ensures
            r.jsonrpc@ == "2.0"@,
            r.id == id,
            r.result == Some(result),
            r.error is None,
    {
        JsonRpcResponse { jsonrpc: owned("2.0"), id, result: Some(result), error: None }
    }

    /// A JSON-RPC 2.0 response carrying `error` for the request `id`.
    pub fn error(id: Option<Id>, error: JsonRpcError) -> (r: Self)
        ensures
            r.jsonrpc@ == "2.0"@,
            r.id == id,
            r.result is None,
            r.error == Some(error),
    {
        JsonRpcResponse { jsonrpc: owned("2.0"), id, result: None, error: Some(error) }
    }
}

/// The plain content of a tool: name, description, the (name, type, description) of each
/// input property, and the names of the required ones.
pub struct ToolView {
    pub name: Seq<char>,
    pub description: Seq<char>,
    pub properties: Seq<(Seq<char>, Seq<char>, Seq<char>)>,
    pub required: Seq<Seq<char>>,
}

impl View for McpTool {
    type V = ToolView;

    open spec fn view(&self) -> ToolView {
        ToolView {
            name: self.name@,
            description: self.description@,
            properties: self.input_schema.properties@.map_values(
                |p: SchemaProperty| (p.name@, p.value_type@, p.description@),
            ),
            required: self.input_schema.required@.map_values(|r: String| r@),
        }
    }
}

} // verus!
