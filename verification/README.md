# ssh_agent_forward

SSH agent forwarding as a protocol-agnostic byte tunnel. A guest listens on a
Unix socket that it exports as `SSH_AUTH_SOCK`. For each accepted connection it
asks the host to open a tunnel; the host connects to its own agent, and both
ends pipe raw bytes.

- `src/` is the library, written in Verus. It holds the decisions of both ends:
  the connection table, the request handlers and the requests that wait for an
  answer, the two tasks of a connection, the accepting task, and the
  request-then-reply bridge for an agent behind a synchronous pipe. Each has a
  contract; `src/laws/` proves what they guarantee together. The tunnel is
  byte-transparent and keeps connections apart. Every request that brings a chunk
  is answered exactly once: when the chunk's write has ended, or at once where
  nothing will be written. While a connection is open and its writer task at
  work, at most one chunk per direction thus waits at the far end. Both ends have
  the same connections open. The bridge keeps the message boundaries and never
  reads and writes the pipe at once.
- What is trusted stands in `src/sink.rs`, the unbounded channel of the `futures`
  crate between a connection's handler and its writer task, and in
  `src/listener.rs`, the joining of paths.
- `app/` performs the decisions on real sockets, with tasks on `smol`.
- `tests/` runs the library.
