use axum_frontend::proxy::{dev_routes, target_url, DevRoute};

fn strings(parts: &[&str]) -> Vec<String> {
  parts.iter().map(|s| s.to_string()).collect()
}

fn subtree(base: &str, wildcard: &str) -> DevRoute {
  DevRoute::Subtree {
    base: base.to_string(),
    wildcard: wildcard.to_string(),
  }
}

#[test]
fn empty_prefixes_proxy_everything() {
  assert_eq!(dev_routes(Vec::new()), vec![DevRoute::CatchAll]);
  assert_eq!(dev_routes(strings(&["/"])), vec![DevRoute::CatchAll]);
}

#[test]
fn second_catch_all_is_ignored() {
  assert_eq!(
    dev_routes(strings(&["/", "/api", "/"])),
    vec![DevRoute::CatchAll, subtree("/api", "/api/{*rest}")]
  );
}

#[test]
fn prefixes_mount_their_subtrees_in_order() {
  assert_eq!(
    dev_routes(strings(&["/a", "/b"])),
    vec![subtree("/a", "/a/{*rest}"), subtree("/b", "/b/{*rest}")]
  );
}

#[test]
fn trailing_slashes_are_trimmed() {
  assert_eq!(
    dev_routes(strings(&["/api/", "/x//"])),
    vec![subtree("/api", "/api/{*rest}"), subtree("/x", "/x/{*rest}")]
  );
}

#[test]
fn prefix_without_slash_is_kept_as_given() {
  assert_eq!(dev_routes(strings(&["api"])), vec![subtree("api", "api/{*rest}")]);
}

#[test]
fn duplicate_prefixes_stay_duplicated() {
  assert_eq!(
    dev_routes(strings(&["/api", "/api"])),
    vec![subtree("/api", "/api/{*rest}"), subtree("/api", "/api/{*rest}")]
  );
}

#[test]
fn target_url_formats_host_and_port() {
  assert_eq!(target_url("127.0.0.1", 5173), "http://127.0.0.1:5173");
  assert_eq!(target_url("localhost", 0), "http://localhost:0");
}
