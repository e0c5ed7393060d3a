# torana-core

The decision-making core of the torana reverse proxy, written in Verus.
Verus proves the code in `src/` against its contracts; the calls into
outside crates that it rests on are trusted, as described below.

- `config`, `validate`: the configuration model, duration parsing, and the
  startup/reload validation with one error per rejected setting.
- `routing`: first-match host and path routing.
- `upstream`, `health`: weighted round-robin with GCD-reduced schedules,
  health-aware picking that fails open, and the health registry.
- `headers`, `proxy`: hop-by-hop stripping, `X-Forwarded-*`, route header
  overrides, the mTLS fingerprint header, and addressing a request to an
  upstream.
- `server`: per-request plans, retries, mirroring, replies, the shutdown
  drain, and the engine state that a reload swaps as a whole.
- `plugin`: WASM request filters run under wasmtime with a fuel budget.
- `tls`, `acme`, `admin`: listener certificates, keys and client CAs read
  from PEM, certificate fingerprints, ALPN, ACME setup, and the `/metrics`
  and `/healthz` endpoint.
- `legacy`: the first-generation proxy's configuration, balancer and
  request planning.

Calls into outside crates go through small `#[verifier::external_body]`
functions and declared outside types, next to the code that uses them;
each doc comment names the outside function and what its contract assumes.

`app/` is the `torana` binary: argument parsing, sockets, TLS handshakes,
signals, Prometheus metrics, and the async request loop that carries out
the library's decisions. An embedder running its own hyper server drives
the same library steps (`EngineState`, `RequestFlow`, the header
functions) from its own service.
