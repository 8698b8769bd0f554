use rustowl_mcp::analysis::normalize_decorations;
use rustowl_mcp::analysis::report::select_line;
use rustowl_mcp::mcp::server::{
    tool_call_result, McpServer, RequestStep, ToolAction, ToolKind, ToolOutcome,
};
use rustowl_mcp::mcp::types::{
    CallToolParams, CallToolResult, JsonRpcError, JsonRpcRequest, JsonRpcResponse, ResponseBody,
    ToolArguments, ToolContent,
};
use rustowl_mcp::owl::client::{
    classify_header_line, cursor_params, file_uri, frame_message, mock_analyze, HeaderLine,
    LspReply, ReadFailure, ReadStep, ResponseReader,
};
use rustowl_mcp::owl::protocol::{
    DecorationType, Position, Range, RustOwlCursorResult, RustOwlDecoration,
};
use rustowl_mcp::text::{identifier_columns, is_keyword};

fn deco(l0: u32, l1: u32, kind: DecorationType) -> RustOwlDecoration {
    RustOwlDecoration::new(
        Range {
            start: Position { line: l0, character: 0 },
            end: Position { line: l1, character: 1 },
        },
        kind,
    )
}

fn text_of(r: &CallToolResult) -> &str {
    match &r.content[0] {
        ToolContent::Text { text } => text.as_str(),
    }
}

#[test]
fn normalize_without_decorations_reports_nothing() {
    let report = normalize_decorations("lib.rs", 3, 4, &[]);
    assert_eq!(report.file, "lib.rs");
    assert!(report.live_span.is_none());
    assert!(report.active_borrows.is_empty());
    assert!(report.moves.is_empty());
    assert!(report.conflicts.is_empty());
    assert!(report.actionable_fixes.is_empty());
    assert_eq!(report.summary, "No active borrows or conflicts detected for this variable.");
}

#[test]
fn normalize_counts_clean_borrows() {
    let mut imm = deco(1, 2, DecorationType::ImmBorrow);
    imm.hover_text = Some("shared borrow of `x`".to_string());
    let ds = vec![imm, deco(4, 5, DecorationType::MutBorrow), deco(0, 0, DecorationType::Unknown)];
    let report = normalize_decorations("a.rs", 1, 1, &ds);
    assert_eq!(report.active_borrows.len(), 2);
    assert_eq!(report.active_borrows[0].lines, (2, 3));
    assert_eq!(report.active_borrows[0].description.as_deref(), Some("shared borrow of `x`"));
    assert_eq!(report.active_borrows[1].kind, "mutable");
    assert_eq!(report.active_borrows[1].lines, (5, 6));
    assert!(report.active_borrows[1].description.is_none());
    assert_eq!(
        report.summary,
        "Clean lifetime with 2 active borrow(s). No borrow-checker conflicts."
    );
}

#[test]
fn normalize_last_liveness_wins() {
    let ds = vec![
        deco(0, 9, DecorationType::Lifetime),
        deco(2, 7, DecorationType::MaybeInitialized),
        deco(3, 3, DecorationType::Move),
    ];
    let report = normalize_decorations("a.rs", 1, 1, &ds);
    let live = report.live_span.unwrap();
    assert_eq!((live.start_line, live.end_line), (3, 8));
    assert_eq!(live.certainty, "maybe_initialized");

    let ds = vec![deco(2, 7, DecorationType::MaybeInitialized), deco(0, 9, DecorationType::Lifetime)];
    let live = normalize_decorations("a.rs", 1, 1, &ds).live_span.unwrap();
    assert_eq!((live.start_line, live.end_line), (1, 10));
    assert_eq!(live.certainty, "definitely_live");
}

#[test]
fn normalize_moves_in_order() {
    let ds = vec![deco(6, 6, DecorationType::Call), deco(2, 9, DecorationType::Move)];
    let report = normalize_decorations("a.rs", 1, 1, &ds);
    assert_eq!(report.moves.len(), 2);
    assert_eq!((report.moves[0].line, report.moves[0].kind.as_str()), (7, "call_consumption"));
    assert_eq!((report.moves[1].line, report.moves[1].kind.as_str()), (3, "move"));
}

#[test]
fn normalize_conflict_texts() {
    let ds = vec![deco(2, 3, DecorationType::SharedMut), deco(19, 20, DecorationType::Outlive)];
    let report = normalize_decorations("a.rs", 1, 1, &ds);
    assert_eq!(report.conflicts.len(), 2);
    assert_eq!(report.conflicts[0].kind, "aliasing_conflict");
    assert_eq!(report.conflicts[0].lines, (3, 4));
    assert_eq!(report.conflicts[0].description, "Cannot borrow as mutable while also borrowed");
    assert_eq!(
        report.conflicts[0].recommendation,
        "Aliasing violation on lines 3-4: mutable borrow overlaps with another borrow. Narrow borrow scope with `{ ... }`."
    );
    assert_eq!(report.conflicts[1].kind, "outlive_conflict");
    assert_eq!(report.conflicts[1].description, "Reference outlives borrowed data");
    assert_eq!(
        report.conflicts[1].recommendation,
        "Lifetime conflict on lines 20-21: reference outlives the value. Scope references or consider taking ownership."
    );
    // One fix per conflict, in the same order.
    assert_eq!(report.actionable_fixes.len(), 2);
    assert_eq!(report.actionable_fixes[0], report.conflicts[0].recommendation);
    assert_eq!(report.actionable_fixes[1], report.conflicts[1].recommendation);
    assert_eq!(
        report.summary,
        "ALERT: 2 borrow-checker conflict(s) detected! Immediate resolution recommended."
    );
}

#[test]
fn normalize_of_concatenation_lists_both_runs() {
    let first = vec![deco(0, 9, DecorationType::DefinitelyLive), deco(1, 2, DecorationType::ImmBorrow)];
    let second = vec![deco(3, 4, DecorationType::MutBorrow), deco(5, 5, DecorationType::Outlive)];
    let mut both = first.clone();
    both.extend(second.iter().cloned());
    let a = normalize_decorations("a.rs", 1, 1, &first);
    let b = normalize_decorations("a.rs", 1, 1, &second);
    let ab = normalize_decorations("a.rs", 1, 1, &both);
    let kinds = |r: &rustowl_mcp::analysis::report::VariableLifetimeReport| {
        r.active_borrows.iter().map(|b| (b.kind.clone(), b.lines)).collect::<Vec<_>>()
    };
    let mut expected = kinds(&a);
    expected.extend(kinds(&b));
    assert_eq!(kinds(&ab), expected);
    assert_eq!(ab.conflicts.len(), a.conflicts.len() + b.conflicts.len());
    // The second run has no live span, so the first run's stands.
    assert_eq!(ab.live_span.unwrap().end_line, 10);
}

#[test]
fn mock_analysis_marks_borrows() {
    let content = "fn f() {\n    let mut v = vec![1];\n    let r = &mut v;\n    let s = &v;\n    if a && b {}\n}\n";
    let ds = mock_analyze(content, 2);
    // Live from line index 1 to min(2 + 10, 6 lines) = 6.
    assert_eq!(ds.len(), 3);
    assert_eq!(ds[0].kind, DecorationType::DefinitelyLive);
    assert_eq!((ds[0].range.start.line, ds[0].range.start.character), (1, 0));
    assert_eq!((ds[0].range.end.line, ds[0].range.end.character), (6, 1));
    assert_eq!(ds[1].kind, DecorationType::MutBorrow);
    assert_eq!((ds[1].range.start.line, ds[1].range.end.line), (2, 3));
    assert_eq!(ds[2].kind, DecorationType::ImmBorrow);
    assert_eq!((ds[2].range.start.line, ds[2].range.end.line), (3, 4));
    assert!(ds.iter().all(|d| d.hover_text.is_none() && !d.overlapped));
}

#[test]
fn mock_analysis_edges() {
    // Line 0 starts at the first line; an empty file gives an empty window.
    let ds = mock_analyze("", 0);
    assert_eq!(ds.len(), 1);
    assert_eq!((ds[0].range.start.line, ds[0].range.end.line), (0, 0));
    // A line past the end of the file: the window ends at the file's end, before it starts.
    let ds = mock_analyze("let a = &b;\n", 5);
    assert_eq!(ds.len(), 1);
    assert_eq!((ds[0].range.start.line, ds[0].range.end.line), (4, 1));
    // The window is ten lines past the one-based line at most.
    let text = "x\n".repeat(30);
    let ds = mock_analyze(&text, 3);
    assert_eq!(ds[0].range.end.line, 13);
}

#[test]
fn identifier_columns_skip_keywords() {
    assert_eq!(identifier_columns("    let mut data = vec![1, 2, 3];"), vec![13, 20, 25, 28, 31]);
    assert_eq!(identifier_columns("fn main() {"), vec![4]);
    assert_eq!(identifier_columns("self.x_1 + _y"), vec![6, 12]);
    assert!(identifier_columns("").is_empty());
    assert!(identifier_columns("if else").is_empty());
}

#[test]
fn identifier_columns_count_bytes() {
    // 'é' takes two bytes, so 'ü' starts at byte 5 (column 6); both are alphanumeric.
    assert_eq!(identifier_columns("é = ü;"), vec![1, 6]);
    // Non-alphanumeric symbols split identifiers.
    assert_eq!(identifier_columns("a→b"), vec![1, 5]);
}

#[test]
fn keywords() {
    assert!(is_keyword("fn"));
    assert!(is_keyword("Self"));
    assert!(is_keyword("false"));
    assert!(!is_keyword("self_"));
    assert!(!is_keyword("data"));
    assert!(!is_keyword(""));
}

#[test]
fn select_line_follows_str_lines() {
    let content = "first\r\nsecond\n\nfourth";
    assert_eq!(select_line(content, 0).as_deref(), Some("first"));
    assert_eq!(select_line(content, 1).as_deref(), Some("first"));
    assert_eq!(select_line(content, 2).as_deref(), Some("second"));
    assert_eq!(select_line(content, 3).as_deref(), Some(""));
    assert_eq!(select_line(content, 4).as_deref(), Some("fourth"));
    assert_eq!(select_line(content, 5), None);
    assert_eq!(select_line("a\n", 2), None);
    assert_eq!(select_line("a\rb\n", 1).as_deref(), Some("a\rb"));
}

#[test]
fn frames_and_reads_back() {
    assert_eq!(frame_message("{}"), "Content-Length: 2\r\n\r\n{}");
    assert_eq!(frame_message("\"é\""), "Content-Length: 4\r\n\r\n\"é\"");
    let framed = frame_message("{\"id\":1}");
    let header = framed.split("\r\n").next().unwrap();
    assert!(matches!(classify_header_line(header), HeaderLine::ContentLength(Some(8))));
    assert!(matches!(classify_header_line(""), HeaderLine::Blank));
}

#[test]
fn header_lines() {
    assert!(matches!(classify_header_line("Content-Length: 42"), HeaderLine::ContentLength(Some(42))));
    assert!(matches!(classify_header_line("  Content-Length:+7 \r"), HeaderLine::ContentLength(Some(7))));
    assert!(matches!(classify_header_line("Content-Length: x"), HeaderLine::ContentLength(None)));
    assert!(matches!(classify_header_line("Content-Length: -1"), HeaderLine::ContentLength(None)));
    assert!(matches!(
        classify_header_line("Content-Length: 99999999999999999999999"),
        HeaderLine::ContentLength(None)
    ));
    assert!(matches!(classify_header_line(" \t "), HeaderLine::Blank));
    assert!(matches!(classify_header_line("Content-Type: text"), HeaderLine::Other));
}

#[test]
fn response_reader_waits_for_its_reply() {
    let mut reader = ResponseReader::new(7);
    assert!(matches!(reader.on_line::<String>("Content-Length: 10"), ReadStep::NextLine));
    assert!(matches!(reader.on_line::<String>("Content-Type: x"), ReadStep::NextLine));
    assert!(matches!(reader.on_line::<String>(""), ReadStep::ReadBody(10)));
    // A message for another request is skipped.
    let other = LspReply { id: Some(6), error: None, result: Some("x".to_string()) };
    assert!(matches!(reader.on_reply(other), ReadStep::NextLine));
    // Headers without a length.
    assert!(matches!(
        reader.on_line::<String>(""),
        ReadStep::Failed(ReadFailure::MissingContentLength)
    ));
    assert!(matches!(reader.on_line::<String>("Content-Length: 3"), ReadStep::NextLine));
    assert!(matches!(reader.on_end_of_stream::<String>(), ReadStep::ReadBody(3)));
    let mine = LspReply { id: Some(7), error: None, result: Some("ok".to_string()) };
    match reader.on_reply(mine) {
        ReadStep::Reply(Some(r)) => assert_eq!(r, "ok"),
        _ => panic!("expected the reply"),
    }
    let failed = LspReply { id: Some(7), error: Some("boom".to_string()), result: None };
    assert!(matches!(reader.on_reply(failed), ReadStep::Failed(ReadFailure::ServerError(e)) if e == "boom"));
    let no_result: LspReply<String> = LspReply { id: Some(7), error: None, result: None };
    assert!(matches!(reader.on_reply(no_result), ReadStep::Reply(None)));
}

#[test]
fn cursor_request_parameters() {
    let uri = file_uri("/w/src/main.rs");
    assert_eq!(uri, "file:///w/src/main.rs");
    let p = cursor_params(uri, 15, 8);
    assert_eq!(p.document.uri, "file:///w/src/main.rs");
    assert_eq!(p.text_document.unwrap().uri, "file:///w/src/main.rs");
    assert_eq!((p.position.line, p.position.character), (14, 7));
    let p = cursor_params(String::new(), 0, 0);
    assert_eq!((p.position.line, p.position.character), (0, 0));
    let empty = RustOwlCursorResult::default();
    assert!(!empty.is_analyzed && empty.decorations.is_empty());
}

fn request(method: &str, params: Option<u8>) -> JsonRpcRequest<u32, u8> {
    JsonRpcRequest { jsonrpc: "2.0".to_string(), id: Some(5), method: method.to_string(), params }
}

fn response(step: RequestStep<u32, u8>) -> JsonRpcResponse<u32> {
    match step {
        RequestStep::Respond(r) => r,
        _ => panic!("expected a response"),
    }
}

#[test]
fn server_answers_protocol_methods() {
    let server = McpServer::new();
    let r = response(server.handle_request(request("initialize", None)));
    assert_eq!((r.jsonrpc.as_str(), r.id), ("2.0", Some(5)));
    match r.result {
        Some(ResponseBody::Initialize(init)) => {
            assert_eq!(init.protocol_version, "2024-11-05");
            assert_eq!(init.server_info.name, "rustowl-mcp");
            assert_eq!(init.server_info.version, "0.1.0");
            assert_eq!(init.capabilities.tools.unwrap().list_changed, Some(false));
        }
        _ => panic!("expected an initialize result"),
    }
    for m in ["initialized", "notifications/initialized"] {
        let r = response(server.handle_request(request(m, None)));
        assert!(matches!(r.result, Some(ResponseBody::Empty)));
        assert!(r.error.is_none());
    }
    let r = response(server.handle_request(request("resources/list", None)));
    assert!(r.result.is_none());
    let e = r.error.unwrap();
    assert_eq!((e.code, e.message.as_str()), (-32601, "Method not found: resources/list"));
    let r = response(server.handle_request(request("tools/call", None)));
    let e = r.error.unwrap();
    assert_eq!((e.code, e.message.as_str()), (-32602, "Invalid params: Missing params"));
    match server.handle_request(request("tools/call", Some(9))) {
        RequestStep::CallTool { id, params } => assert_eq!((id, params), (Some(5), 9)),
        _ => panic!("expected a tool call"),
    }
}

#[test]
fn tool_schemas() {
    let tools = McpServer::new().get_tools();
    let cursor = &tools[0].input_schema;
    let names: Vec<&str> = cursor.properties.iter().map(|p| p.name.as_str()).collect();
    assert_eq!(names, vec!["path", "line", "col"]);
    assert_eq!(cursor.properties[1].value_type, "integer");
    assert_eq!(cursor.required, vec!["path", "line", "col"]);
    assert_eq!(tools[1].input_schema.required, vec!["path", "line"]);
    assert_eq!(tools[1].input_schema.properties[1].description, "1-indexed line number to inspect");
}

fn call(name: &str, path: Option<&str>, line: Option<u64>, col: Option<u64>) -> CallToolParams {
    CallToolParams {
        name: name.to_string(),
        arguments: ToolArguments { path: path.map(|p| p.to_string()), line, col },
    }
}

fn refusal(a: ToolAction) -> String {
    match a {
        ToolAction::Finish(r) => {
            assert!(r.is_error);
            text_of(&r).to_string()
        }
        _ => panic!("expected a refusal"),
    }
}

#[test]
fn dispatch_checks_arguments() {
    let server = McpServer::new();
    let c = "rustowl_inspect_cursor";
    assert_eq!(refusal(server.dispatch_tool(call(c, None, Some(1), Some(1)))), "Missing 'path' argument");
    assert_eq!(
        refusal(server.dispatch_tool(call(c, Some("a.rs"), None, Some(1)))),
        "Missing or invalid 'line' argument"
    );
    assert_eq!(
        refusal(server.dispatch_tool(call(c, Some("a.rs"), Some(1), None))),
        "Missing or invalid 'col' argument"
    );
    assert_eq!(refusal(server.dispatch_tool(call("nope", None, None, None))), "Unknown tool: nope");
    match server.dispatch_tool(call("rustowl_inspect_line", Some("a.rs"), Some(4), None)) {
        ToolAction::InspectLine { path, line } => assert_eq!((path.as_str(), line), ("a.rs", 4)),
        _ => panic!("expected a line inspection"),
    }
    // Numbers are taken as u32, truncated.
    match server.dispatch_tool(call(c, Some("a.rs"), Some((1u64 << 32) + 3), Some(2))) {
        ToolAction::InspectCursor { line, col, .. } => assert_eq!((line, col), (3, 2)),
        _ => panic!("expected a cursor inspection"),
    }
}

#[test]
fn tool_results() {
    let r = tool_call_result(ToolKind::Cursor, ToolOutcome::Rendered("{}".to_string()));
    assert!(!r.is_error);
    assert_eq!(text_of(&r), "{}");
    let r = tool_call_result(ToolKind::Cursor, ToolOutcome::RenderFailed("e".to_string()));
    assert_eq!((r.is_error, text_of(&r)), (true, "Failed to serialize report: e"));
    let r = tool_call_result(ToolKind::Line, ToolOutcome::RenderFailed("e".to_string()));
    assert_eq!(text_of(&r), "Failed to serialize reports: e");
    let r = tool_call_result(ToolKind::Line, ToolOutcome::AnalysisFailed("no file".to_string()));
    assert_eq!((r.is_error, text_of(&r)), (true, "RustOwl analysis error: no file"));
}

#[test]
fn rpc_errors() {
    let e = JsonRpcError::parse_error("EOF");
    assert_eq!((e.code, e.message.as_str()), (-32700, "Parse error: EOF"));
    let r: JsonRpcResponse<u8> = JsonRpcResponse::error(None, e);
    assert!(r.id.is_none() && r.result.is_none());
}

#[test]
fn fallback_report_is_live_and_clean() {
    let content = "fn f() {\n    let mut v = vec![1];\n    let r = &mut v;\n}\n";
    let ds = mock_analyze(content, 2);
    let report = normalize_decorations("f.rs", 2, 13, &ds);
    let live = report.live_span.unwrap();
    assert_eq!((live.start_line, live.end_line), (2, 5));
    assert_eq!(live.certainty, "definitely_live");
    assert!(report.moves.is_empty() && report.conflicts.is_empty());
    assert_eq!(
        report.summary,
        "Clean lifetime with 1 active borrow(s). No borrow-checker conflicts."
    );
}

#[test]
fn line_numbers_wrap_at_the_top_of_the_range() {
    // One-based lines are `line + 1` in wrapping `u32` arithmetic: the last line becomes 0.
    let ds = vec![deco(u32::MAX, u32::MAX, DecorationType::Move), deco(u32::MAX - 1, u32::MAX, DecorationType::ImmBorrow)];
    let report = normalize_decorations("a.rs", u32::MAX, u32::MAX, &ds);
    assert_eq!(report.moves[0].line, 0);
    assert_eq!(report.active_borrows[0].lines, (u32::MAX, 0));
    assert_eq!((report.target.line, report.target.col), (u32::MAX, u32::MAX));
}

#[test]
fn mock_analysis_window_wraps() {
    // `line + 10` wraps to 9, so the window ends at the file's single line.
    let ds = mock_analyze("let a = &b;\n", u32::MAX);
    assert_eq!(ds.len(), 1);
    assert_eq!((ds[0].range.start.line, ds[0].range.end.line), (u32::MAX - 1, 1));
    let ds = mock_analyze("x\n".repeat(20).as_str(), u32::MAX - 12);
    assert_eq!(ds[0].range.end.line, 20);
}

#[test]
fn report_ignores_unknown_and_cosmetic_fields() {
    let mut borrow = deco(1, 2, DecorationType::ImmBorrow);
    borrow.hover_text = Some("shared".to_string());
    let base = vec![borrow.clone(), deco(3, 3, DecorationType::Move), deco(4, 6, DecorationType::SharedMut)];
    let mut moved = deco(3, 3, DecorationType::Move);
    moved.hover_text = Some("moved here".to_string());
    moved.overlapped = true;
    moved.range.start.character = 17;
    let mut conflict = deco(4, 6, DecorationType::SharedMut);
    conflict.range.end.character = 40;
    let noisy = vec![
        deco(9, 9, DecorationType::Unknown),
        borrow,
        deco(0, 5, DecorationType::Unknown),
        moved,
        conflict,
    ];
    let a = normalize_decorations("a.rs", 2, 3, &base);
    let b = normalize_decorations("a.rs", 2, 3, &noisy);
    assert_eq!(format!("{:?}", a), format!("{:?}", b));
    assert_eq!(b.moves.len(), 1);
    assert_eq!(b.conflicts.len(), 1);
}

#[test]
fn identifier_columns_increase() {
    let cols = identifier_columns("alpha β_2 = gamma(delta, é) + zeta;");
    assert_eq!(cols, vec![1, 7, 14, 20, 27, 33]);
    assert!(cols.windows(2).all(|w| w[0] < w[1]));
}

type Frame<'a> = (Vec<&'a str>, LspReply<String>);

// Drives a reader over whole messages (headers, the empty line, the body) the way the
// client does, and reports the final step with the number of messages it read.
fn read_frames(expected_id: u64, frames: Vec<Frame>) -> (ReadStep<String>, usize) {
    let mut reader = ResponseReader::new(expected_id);
    let mut read = 0;
    for (headers, reply) in frames {
        read += 1;
        let mut step = ReadStep::NextLine;
        for line in headers.iter().copied().chain(std::iter::once("")) {
            step = reader.on_line::<String>(line);
            if !matches!(step, ReadStep::NextLine) {
                break;
            }
        }
        if let ReadStep::ReadBody(_) = step {
            step = reader.on_reply(reply);
        }
        if !matches!(step, ReadStep::NextLine) {
            return (step, read);
        }
    }
    (ReadStep::NextLine, read)
}

fn reply(id: Option<u64>, error: Option<&str>, result: Option<&str>) -> LspReply<String> {
    LspReply { id, error: error.map(String::from), result: result.map(String::from) }
}

#[test]
fn reader_skips_other_messages_and_stops_at_its_reply() {
    let frames = vec![
        (vec!["Content-Length: 30"], reply(None, None, None)),
        (vec!["Content-Type: x", "Content-Length: 12"], reply(Some(3), None, Some("other"))),
        (vec!["Content-Length: 20"], reply(Some(5), None, Some("mine"))),
        (vec!["Content-Length: 20"], reply(Some(5), None, Some("later"))),
    ];
    match read_frames(5, frames) {
        (ReadStep::Reply(Some(r)), read) => {
            assert_eq!(r, "mine");
            assert_eq!(read, 3);
        }
        _ => panic!("expected the reply to request 5"),
    }
    let frames = vec![
        (vec!["Content-Length: 9"], reply(Some(1), Some("wrong id"), None)),
        (vec!["Content-Length: 9"], reply(Some(2), Some("boom"), None)),
        (vec!["Content-Length: 9"], reply(Some(2), None, Some("late"))),
    ];
    match read_frames(2, frames) {
        (ReadStep::Failed(ReadFailure::ServerError(e)), read) => {
            assert_eq!(e, "boom");
            assert_eq!(read, 2);
        }
        _ => panic!("expected the server's error"),
    }
}
