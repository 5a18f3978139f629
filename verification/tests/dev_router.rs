use axum::body::Body;
use axum::http::{Request, StatusCode};
use axum_frontend::dev_router::{dev_router, prefixes_accepted, try_dev_router};
use tower::ServiceExt;

fn strings(parts: &[&str]) -> Vec<String> {
  parts.iter().map(|s| s.to_string()).collect()
}

// Nothing listens on port 1, so a request the proxy forwards comes back as
// `502 Bad Gateway`, while one it does not handle is the router's `404`.
const DOWN: &str = "http://127.0.0.1:1";

fn status_through_proxy(prefixes: &[&str], uri: &str) -> StatusCode {
  let rt = tokio::runtime::Runtime::new().unwrap();
  let proxy = dev_router(strings(prefixes), DOWN);

  rt.block_on(async move {
    proxy
      .oneshot(Request::builder().uri(uri).body(Body::empty()).unwrap())
      .await
      .unwrap()
      .status()
  })
}

#[test]
fn catch_all_forwards_every_path() {
  assert_eq!(status_through_proxy(&["/"], "/hello"), StatusCode::BAD_GATEWAY);
  assert_eq!(status_through_proxy(&["/"], "/"), StatusCode::BAD_GATEWAY);
}

#[test]
fn empty_prefixes_forward_every_path() {
  assert_eq!(status_through_proxy(&[], "/anything"), StatusCode::BAD_GATEWAY);
}

#[test]
fn subtrees_forward_only_their_paths() {
  assert_eq!(status_through_proxy(&["/a", "/b"], "/a/hello"), StatusCode::BAD_GATEWAY);
  assert_eq!(status_through_proxy(&["/a", "/b"], "/b"), StatusCode::BAD_GATEWAY);
  assert_eq!(status_through_proxy(&["/a", "/b"], "/c/nope"), StatusCode::NOT_FOUND);
  assert_eq!(status_through_proxy(&["/a", "/b"], "/ab"), StatusCode::NOT_FOUND);
}

#[test]
fn trailing_slash_prefix_forwards_the_subtree() {
  assert_eq!(status_through_proxy(&["/api/"], "/api/x"), StatusCode::BAD_GATEWAY);
  assert_eq!(status_through_proxy(&["/api/"], "/apix"), StatusCode::NOT_FOUND);
}

#[test]
#[should_panic]
fn dev_router_panics_on_prefix_without_leading_slash() {
  let _ = dev_router(strings(&["api"]), "http://127.0.0.1:5173");
}

#[test]
#[should_panic]
fn dev_router_panics_on_overlapping_prefixes() {
  let _ = dev_router(strings(&["/api", "/api"]), "http://127.0.0.1:5173");
}

#[test]
fn rejected_prefixes_are_reported() {
  assert!(!prefixes_accepted(&strings(&["api"])));
  assert!(!prefixes_accepted(&strings(&["/api", "/api"])));
  assert!(!prefixes_accepted(&strings(&["/api", "/api/"])));
  assert!(!prefixes_accepted(&strings(&["//"])));
  assert!(!prefixes_accepted(&strings(&["/:id"])));
  assert!(!prefixes_accepted(&strings(&["/a/*b"])));
  assert!(!prefixes_accepted(&strings(&["/a", "/a/{id}"])));
  assert!(!prefixes_accepted(&strings(&["/a/{x}", "/a/{y}"])));
  assert!(!prefixes_accepted(&strings(&["/a/{x}", "/a/{y}/{z}"])));
  assert!(!prefixes_accepted(&strings(&["/a/{}"])));
  assert!(!prefixes_accepted(&strings(&["/a/{x"])));
  assert!(!prefixes_accepted(&strings(&["/a/{*x}"])));
  assert!(!prefixes_accepted(&strings(&["/a/{x}y"])));
  assert!(!prefixes_accepted(&strings(&["/a/{{x}}"])));
  assert!(!prefixes_accepted(&strings(&["/a/b}"])));
}

#[test]
fn accepted_prefixes_are_reported() {
  assert!(prefixes_accepted(&strings(&[])));
  assert!(prefixes_accepted(&strings(&["/", "/"])));
  assert!(prefixes_accepted(&strings(&["/a", "/a/b", "/"])));
  assert!(prefixes_accepted(&strings(&["/a:b", "/x*"])));
  assert!(prefixes_accepted(&strings(&["/{id}"])));
  assert!(prefixes_accepted(&strings(&["/files/{id}", "/"])));
  assert!(prefixes_accepted(&strings(&["/a/{x}", "/a/b"])));
  assert!(prefixes_accepted(&strings(&["/{x}/a", "/{y}/b"])));
  assert!(prefixes_accepted(&strings(&["/a/{x}/b", "/a/{y}/{z}"])));
  assert!(prefixes_accepted(&strings(&["/{x}", "/a"])));
  assert!(prefixes_accepted(&strings(&["/a/x{y}", "/a/{z}", "/a/x"])));
  assert!(prefixes_accepted(&strings(&["/a/x{y}", "/a"])));
  assert!(!prefixes_accepted(&strings(&["/a/x{y}", "/a/x{z}"])));
}

fn captures(n: usize) -> String {
  (0..n).map(|i| format!("/{{p{i}}}")).collect()
}

#[test]
fn capture_count_is_limited() {
  assert!(prefixes_accepted(&[captures(25)].to_vec()));
  assert!(!prefixes_accepted(&[captures(26)].to_vec()));
  let _ = dev_router(vec![captures(25)], DOWN);
}

#[test]
fn capture_prefixes_forward_their_subtree() {
  assert_eq!(status_through_proxy(&["/files/{id}"], "/files/7"), StatusCode::BAD_GATEWAY);
  assert_eq!(status_through_proxy(&["/files/{id}"], "/files/7/raw"), StatusCode::BAD_GATEWAY);
  assert_eq!(status_through_proxy(&["/files/{id}"], "/files"), StatusCode::NOT_FOUND);
  assert_eq!(status_through_proxy(&["/files/{id}"], "/other/7"), StatusCode::NOT_FOUND);
  assert_eq!(status_through_proxy(&["/files/v{id}"], "/files/v7/raw"), StatusCode::BAD_GATEWAY);
  assert_eq!(status_through_proxy(&["/files/v{id}"], "/files/7"), StatusCode::NOT_FOUND);
}

#[test]
fn accepted_capture_prefixes_build_a_router() {
  for ps in [
    &["/a/{x}", "/a/b"][..],
    &["/{x}/a", "/{y}/b"][..],
    &["/a/{x}/b", "/a/{y}/{z}"][..],
    &["/{x}", "/a", "/"][..],
    &["/a", "/a/b"][..],
    &["/a/x{y}", "/a/{z}", "/a/x"][..],
    &["/a/x{y}", "/a"][..],
  ] {
    assert!(prefixes_accepted(&strings(ps)));
    assert!(try_dev_router(strings(ps), DOWN).is_some());
  }
}

#[test]
fn repeated_root_is_ignored() {
  assert_eq!(status_through_proxy(&["/", "/api", "/"], "/x"), StatusCode::BAD_GATEWAY);
  assert!(prefixes_accepted(&strings(&["/", "/api", "/"])));
  assert_eq!(
    axum_frontend::proxy::dev_routes(strings(&["/", "/api", "/"])),
    axum_frontend::proxy::dev_routes(strings(&["/", "/api"]))
  );
}

#[test]
fn try_dev_router_rejects_bad_input() {
  assert!(try_dev_router(strings(&["api"]), "http://127.0.0.1:5173").is_none());
  assert!(try_dev_router(strings(&["/api", "/api"]), "http://127.0.0.1:5173").is_none());
  assert!(try_dev_router(strings(&["/api"]), "no host here").is_none());
  assert!(try_dev_router(strings(&["/"]), "/just/a/path").is_none());
}

#[test]
fn try_dev_router_accepts_good_input() {
  assert!(try_dev_router(strings(&["/api", "/"]), "http://127.0.0.1:5173").is_some());
  assert!(try_dev_router(Vec::new(), "http://localhost:3000").is_some());
}
