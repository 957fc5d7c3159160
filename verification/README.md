# brio

A small HTTP/1.1 web framework whose core is verified with Verus.

- `src/` is the verified library: header tables (`headers.rs`), requests and
  their bodies as they arrive in chunks (`request.rs`), responses and the bytes
  of their heads (`response.rs`), chunked response bodies (`body.rs`), routes,
  middleware and the way a request takes through them, with the handler of
  requests that no route takes (`router.rs`), reading request heads and
  chunked bodies off the wire one decision at a time (`framing.rs`), the
  application builder and served directories (`lib.rs`), and the character and
  numeral handling these rest on (`text.rs`). `bridge.rs` holds the few calls
  into std, `mime`, `serde_json`, `httparse` and `futures` that are trusted,
  each with the contract it is trusted to keep.
- `app/` is the asynchronous part around it: handlers and middleware as async
  functions, the server that reads bytes from sockets and writes responses,
  awaiting the chunks of a request body on its channel, and reading files from
  disk.
- `tests/` runs the library on concrete requests and responses.
