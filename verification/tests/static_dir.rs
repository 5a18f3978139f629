use axum::body::Body;
use axum::http::{Request, StatusCode};
use axum_frontend::{static_router, static_router_with, SpaOptions};
use std::path::PathBuf;
use tower::ServiceExt;

// The crate's own `src` directory stands in for a built SPA: `lib.rs` plays the
// index document and `text.rs` a named asset.
fn site() -> PathBuf {
  PathBuf::from("src")
}

fn get(router: axum::Router, uri: &str) -> (StatusCode, String) {
  let rt = tokio::runtime::Runtime::new().unwrap();

  rt.block_on(async move {
    let resp = router
      .oneshot(Request::builder().uri(uri).body(Body::empty()).unwrap())
      .await
      .unwrap();
    let status = resp.status();
    let bytes = axum::body::to_bytes(resp.into_body(), usize::MAX)
      .await
      .unwrap();

    (status, String::from_utf8_lossy(&bytes).to_string())
  })
}

fn lib_as_index() -> SpaOptions {
  SpaOptions::new().index("lib.rs".to_string())
}

#[test]
fn on_disk_named_file_is_served() {
  let (status, body) = get(static_router_with(site(), lib_as_index()), "/text.rs");

  assert_eq!(status, StatusCode::OK);
  assert!(body.contains("fn trim_start"));
}

#[test]
fn on_disk_client_route_gets_the_index() {
  let (status, body) = get(static_router_with(site(), lib_as_index()), "/client/route");

  assert_eq!(status, StatusCode::OK);
  assert!(body.contains("pub mod text;"));
}

#[test]
fn on_disk_missing_file_gets_the_index() {
  let (status, body) = get(static_router_with(site(), lib_as_index()), "/missing.js");

  assert_eq!(status, StatusCode::OK);
  assert!(body.contains("pub mod text;"));
}

#[test]
fn on_disk_default_index_is_index_html() {
  // There is no `src/index.html`, so the fallback itself finds nothing.
  let (status, _) = get(static_router(site()), "/client/route");

  assert_eq!(status, StatusCode::NOT_FOUND);
}

#[test]
fn on_disk_root_gets_the_configured_index() {
  let (status, body) = get(static_router_with(site(), lib_as_index()), "/");

  assert_eq!(status, StatusCode::OK);
  assert!(body.contains("pub mod text;"));
}
