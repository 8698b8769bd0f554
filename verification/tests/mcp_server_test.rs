use rustowl_mcp::analysis::normalize_decorations;
use rustowl_mcp::mcp::server::{tool_call_result, McpServer, RequestStep, ToolAction, ToolKind, ToolOutcome};
use rustowl_mcp::mcp::types::{
    CallToolParams, JsonRpcRequest, JsonRpcResponse, ResponseBody, ToolArguments, ToolContent,
};
use rustowl_mcp::owl::client::mock_analyze;
use rustowl_mcp::owl::protocol::{DecorationType, Position, Range, RustOwlDecoration};
use serde_json::Value;
use std::io::{Read, Write};
use tempfile::NamedTempFile;

fn json(text: &str) -> Value {
    serde_json::from_str(text).unwrap()
}

fn respond<P>(step: RequestStep<Value, P>) -> JsonRpcResponse<Value> {
    match step {
        RequestStep::Respond(r) => r,
        RequestStep::CallTool { .. } => panic!("expected a response"),
    }
}

#[test]
fn test_mcp_initialize_and_tools_list() {
    let server = McpServer::new();

    // 1. Test initialize
    let init_req: JsonRpcRequest<Value, Value> = JsonRpcRequest {
        jsonrpc: "2.0".to_string(),
        id: Some(Value::from(1)),
        method: "initialize".to_string(),
        params: Some(json(
            r#"{"protocolVersion": "2024-11-05", "capabilities": {}, "clientInfo": {"name": "test-client", "version": "1.0"}}"#,
        )),
    };

    let init_res = respond(server.handle_request(init_req));
    assert_eq!(init_res.id, Some(Value::from(1)));
    assert!(init_res.result.is_some());
    assert!(init_res.error.is_none());

    // 2. Test tools/list
    let list_req: JsonRpcRequest<Value, Value> = JsonRpcRequest {
        jsonrpc: "2.0".to_string(),
        id: Some(Value::from(2)),
        method: "tools/list".to_string(),
        params: None,
    };

    let list_res = respond(server.handle_request(list_req));
    assert_eq!(list_res.id, Some(Value::from(2)));
    let result_val = list_res.result.expect("Expected result from tools/list");
    let tools_list = match result_val {
        ResponseBody::ToolList(l) => l,
        _ => panic!("Failed to parse ListToolsResult"),
    };
    assert_eq!(tools_list.tools.len(), 2);
    assert_eq!(tools_list.tools[0].name, "rustowl_inspect_cursor");
    assert_eq!(tools_list.tools[1].name, "rustowl_inspect_line");
}

fn decoration(l0: u32, c0: u32, l1: u32, c1: u32, kind: DecorationType) -> RustOwlDecoration {
    RustOwlDecoration::new(
        Range {
            start: Position { line: l0, character: c0 },
            end: Position { line: l1, character: c1 },
        },
        kind,
    )
}

#[test]
fn test_normalization_decorations_and_conflicts() {
    let dummy_path = "src/main.rs";
    let decorations = vec![
        decoration(9, 4, 24, 1, DecorationType::DefinitelyLive),
        decoration(11, 8, 13, 1, DecorationType::ImmBorrow),
        decoration(17, 8, 21, 1, DecorationType::MutBorrow),
        decoration(20, 4, 20, 12, DecorationType::Outlive),
    ];

    let report = normalize_decorations(dummy_path, 10, 5, &decorations);

    assert_eq!(report.file, "src/main.rs");
    assert_eq!(report.target.line, 10);
    assert_eq!(report.target.col, 5);
    assert!(report.live_span.is_some());
    let live = report.live_span.unwrap();
    assert_eq!(live.start_line, 10);
    assert_eq!(live.end_line, 25);
    assert_eq!(live.certainty, "definitely_live");

    assert_eq!(report.active_borrows.len(), 2);
    assert_eq!(report.active_borrows[0].kind, "immutable");
    assert_eq!(report.active_borrows[1].kind, "mutable");

    assert_eq!(report.conflicts.len(), 1);
    assert_eq!(report.conflicts[0].kind, "outlive_conflict");
    assert!(!report.actionable_fixes.is_empty());
    assert!(report.summary.contains("ALERT"));
}

#[test]
fn test_tool_call_flow_with_temp_file() {
    let mut temp = NamedTempFile::new().unwrap();
    temp.write_all(b"fn calculate() {\n").unwrap();
    temp.write_all(b"    let mut data = vec![1, 2, 3];\n").unwrap();
    temp.write_all(b"    let r = &mut data;\n").unwrap();
    temp.write_all(b"    r.push(4);\n").unwrap();
    temp.write_all(b"}\n").unwrap();
    temp.flush().unwrap();

    let server = McpServer::new();
    let path_text = temp.path().to_str().unwrap().to_string();

    let mut arguments = serde_json::Map::new();
    arguments.insert("path".to_string(), Value::from(path_text.clone()));
    arguments.insert("line".to_string(), Value::from(2));
    arguments.insert("col".to_string(), Value::from(13));
    let mut params = serde_json::Map::new();
    params.insert("name".to_string(), Value::from("rustowl_inspect_cursor"));
    params.insert("arguments".to_string(), Value::Object(arguments));

    let call_req: JsonRpcRequest<Value, Value> = JsonRpcRequest {
        jsonrpc: "2.0".to_string(),
        id: Some(Value::from(42)),
        method: "tools/call".to_string(),
        params: Some(Value::Object(params)),
    };

    let (id, params) = match server.handle_request(call_req) {
        RequestStep::CallTool { id, params } => (id, params),
        RequestStep::Respond(_) => panic!("expected a tool call"),
    };
    let args = params.get("arguments").cloned().unwrap_or(Value::Null);
    let call = CallToolParams {
        name: params.get("name").and_then(|v| v.as_str()).unwrap().to_string(),
        arguments: ToolArguments {
            path: args.get("path").and_then(|v| v.as_str()).map(|s| s.to_string()),
            line: args.get("line").and_then(|v| v.as_u64()),
            col: args.get("col").and_then(|v| v.as_u64()),
        },
    };
    let (path, line, col) = match server.dispatch_tool(call) {
        ToolAction::InspectCursor { path, line, col } => (path, line, col),
        _ => panic!("expected a cursor inspection"),
    };
    assert_eq!(path, path_text);
    assert_eq!((line, col), (2, 13));

    // No RustOwl server runs here: the offline analysis of the file stands in for it.
    let mut content = String::new();
    temp.reopen().unwrap().read_to_string(&mut content).unwrap();
    let decorations = mock_analyze(&content, line);
    let report = normalize_decorations(&path, line, col, &decorations);
    let tool_res = tool_call_result(ToolKind::Cursor, ToolOutcome::Rendered(format!("{:?}", report)));
    let res = JsonRpcResponse::success(id, ResponseBody::ToolCall(tool_res));

    assert_eq!(res.id, Some(Value::from(42)));
    assert!(res.result.is_some());

    let tool_res = match res.result.unwrap() {
        ResponseBody::ToolCall(r) => r,
        _ => panic!("expected a tool result"),
    };
    assert!(!tool_res.is_error);
    assert!(!tool_res.content.is_empty());

    match &tool_res.content[0] {
        ToolContent::Text { text } => {
            assert!(text.contains("data") || text.contains("live_span"));
        }
    }
}
