# mcp_server_gdb

The verified core of an MCP server that lets assistants debug programs through GDB's
machine interface.

`src/` is the library, checked by Verus:

- `session` — the registry of debugging sessions (create, look up, close, status and
  program-exit tracking), with laws relating these operations.
- `parse` — decimal numbers, breakpoint numbers (`N` or `N.M`) and register lists.
- `command` — decisions on GDB's answers: result classes, required fields, watch modes,
  register naming.
- `responses` — texts of tool replies and reading a session identifier back from them.
- `hexdump`, `display` — the hexdump lines, value chains and screen layout of the
  terminal interface, as plain values.
- `error`, `text` — the error type and text helpers.

`app/` holds the client program, the server's asynchronous session manager and tools,
the error type with its `Display` texts, and the ratatui rendering.
