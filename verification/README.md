# wharf

A Docker Registry proxy for accelerating image pulls. Clients point their
`registry-mirrors` at it; it forwards the Registry V2 API to one or more
upstream registries (Docker Hub, GHCR, Quay, ...) and rewrites the
authentication challenge so that `docker login` and token requests go through
the proxy too.

Layout:

- `src/` is the library, written in Verus and verified: every function has a
  contract, and the properties that span functions are stated and proved as
  `law_*` proof functions.
  - `text`: character-level string operations (trimming, case-insensitive
    comparison, splitting, decimal parsing and printing).
  - `auth`: scope rewriting, `Bearer` challenge parsing and building, the
    upstream token request.
  - `proxy`: the upstream request for a registry API call, header forwarding
    in both directions, `Content-Length` decisions.
  - `registry`: registry targets and the choice of target by name or `Host`.
  - `setup`: checking the configuration and building the server state.
  - `cli`, `startup`: command-line options, listener decisions and startup
    messages.
  - `urls`: the calls into the `url` parser (through `reqwest`).
  - `tls`: choosing the certificate chain and private key from PEM text read
    with `rustls_pemfile`.

  The trusted code is the wrappers of outside calls: the `url` calls in
  `urls`, the four PEM readers in `tls`, and `String::push` in `text`.
- `app/` is the program: configuration loading, the actix-web server, the
  HTTP client, reading the TLS files and building the rustls configuration,
  and logging.
- `tests/` exercises the library on concrete values.
