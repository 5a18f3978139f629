# axum-frontend

Serve a Vite (or any) single-page frontend from axum: embed the built SPA in the
binary, serve it from a directory on disk, or spawn a dev server and
reverse-proxy to it.

Layout:

- `src/` — the verified library (Verus):
  - `spa.rs` — `SpaOptions`, the entry-document option shared by the routers;
  - `static_dir.rs` — `static_router` / `static_router_with` (tower-http `ServeDir`
    with the index document as fallback, for the root and every unresolved path);
  - `embed.rs` — what an embedded-asset request looks up and how it is answered
    (index document, asset, or `404`);
  - `proxy.rs` — which routes the dev-server reverse proxy is mounted on, and its
    target URL;
  - `route_path.rs` — the route paths accepted as a proxied subtree's base
    (static text and `{name}` captures) and when two subtrees overlap;
  - `dev_router.rs` — `dev_router`, mounting the reverse proxy on those routes,
    and the test of which prefixes and targets axum and the proxy accept;
  - `dev.rs` — `DevConfig`, its command line and its spawn plan;
  - `lifecycle.rs` — readiness, startup and shutdown decisions for a dev server;
  - `text.rs` — string helpers (trimming, decimal rendering) with their specs.
- `app/` — the I/O around the library: the embedded-asset router (generic over
  the caller's `RustEmbed`), spawning and reaping the dev server, the readiness
  probe, and generic front doors (`impl Into<..>` arguments on the `DevConfig`
  and `SpaOptions` builders, `DevConfig::spawn`, panics on rejected proxy
  prefixes) for the library's types and routers.
- `tests/` — tests of the library.
