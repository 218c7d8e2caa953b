# waku-core

The verified core of Waku's client for the shared OpenCode 2 background
service and of its portable Computer Use helper, written in Verus.

`src/` is the library. Every function in it carries a contract that Verus
proves:

- `text`, `json`, `order`: character-level helpers, the JSON value the logic
  reads, and path-order sorting.
- `wire`: endpoints, request heads, HTTP/1.1 response completion and parsing
  (including chunked framing), and event-stream setup.
- `sse`: server-sent-event framing, one line at a time.
- `api`: every route of the service's HTTP API (method, path, query, body,
  timeout), the `{ data }` envelope, pagination and error classification.
- `service`: registration discovery, probing, event routing, context windows,
  and the service slot.
- `hub`, `reader`: who receives which event, and how the single event reader
  paces reconnection.
- `computer_use`: the helper's MCP protocol, its process registration, the
  preview it publishes, SDK statuses and cancellation, and the MCP bridge.

The few calls into outside crates (`url`, `base64`, `uuid`, and std's UTF-8
and formatting routines) sit behind small wrappers whose contracts say what
those crates document.

`app/` is ordinary Rust around the library: sockets, threads, files, the
environment, serde decoding of the typed answers, and the SDK's native ABI.

`tests/` exercises the library on concrete inputs.
