# rustowl-mcp

A Model Context Protocol (MCP) server that brings RustOwl's lifetime, ownership and
borrow inspection to AI agents, with its logic verified by Verus.

## Layout

- `src/` — the verified library.
  - `analysis/report.rs` — the lifetime report and `normalize_decorations`, which turns
    RustOwl decorations into a report (one-based lines, live span, borrows, moves,
    conflicts with their fixes, summary); `select_line` picks the line that
    `rustowl_inspect_line` scans.
  - `owl/protocol.rs` — the RustOwl decoration types.
  - `owl/client.rs` — the client's decisions: the offline fallback analysis
    (`mock_analyze`), `rustowl/cursor` parameters, language-server framing, header lines
    and the wait for a reply (`ResponseReader`).
  - `mcp/types.rs`, `mcp/server.rs` — the MCP protocol types, the request handler, the tool
    catalog and the tool dispatch.
  - `text.rs` — characters and strings: decimal rendering and parsing, `str::lines`,
    `str::trim`, substring search, keywords and the identifier scan of a line.
- `app/` — the program: command line, stdio transport, the `cargo-owlsp` process, file
  reading and the JSON forms of the library's types.
- `tests/` — tests of the library.
