# serverkit

An HTTP routing core whose behaviour is stated in contracts and proved with
Verus: route patterns and their precedence, method dispatch with generated
`HEAD`/`OPTIONS`/`405` answers, router scopes with prefixes, middleware and
state, schema decoding of path, query and header values, cookies, responses
and error rendering, multipart and server-sent-event framing, WebSocket
upgrade checks, OpenAPI rendering, and the rules of the `Schema` derive.

## Layout

- `src/` — the verified library. Each module states its model in spec
  functions and views and proves every public function against it:
  - `route`, `dispatch`, `app`: patterns, the route table, routers and the
    plan a request is answered by;
  - `method`, `headers`, `request`, `response`, `redirect`, `cookie`,
    `error`: HTTP values and responses;
  - `schemaval`, `values`, `decode`, `extract`, `rename`, `schema_derive`:
    schema metadata, value decoding, extraction and the derive's rules;
  - `multipart`, `stream`, `sse`, `websocket`: body framing and upgrades;
  - `openapi`: document and reference-page rendering;
  - `arities`: the text of the per-arity handler and route-tuple impls;
  - `text`: character and number text shared by the rest.
- `tests/` — tests run against the compiled library.
- `app/` — the serving runtime around the library: async handlers and
  extractors, middleware, JSON through `serde_json`, and drivers on Tokio and
  Hyper and on `async-io`.
