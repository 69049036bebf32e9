# HardLight

A binary WebSocket RPC subprotocol with connection state and server-sent
events, written in Verus.

- **Calls.** Up to 256 calls can be under way on one connection at a time. Every
  caller gets the result of its own call.
- **Connection state.** The server keeps a state for each connection and sends
  the client the fields that have changed.
- **Events.** Handlers subscribe their connections to topics; an event goes to
  exactly the connections that are subscribed to its topic.

`src/` is the library. It decides everything that both ends do, and each
function states and proves what it decides. What holds across functions is
stated as public proof functions, most of them in `src/protocol.rs`. Where the
library relies on another crate, the contract of the call says what is relied
on.

`app/` moves the bytes: TLS, WebSockets, tasks and archives, a counter as a
service, the attributes that generate such services, and a benchmark.

`tests/` runs the library.
