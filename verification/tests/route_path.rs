use axum_frontend::route_path::{bases_overlap_check, erase_captures, valid_base_check};

#[test]
fn valid_bases() {
  assert!(valid_base_check("/"));
  assert!(valid_base_check("/api"));
  assert!(valid_base_check("/a:b/c*"));
  assert!(valid_base_check("/files/{id}"));
  assert!(valid_base_check("/{a}/{b}/x"));
  assert!(valid_base_check("/a//b"));
  assert!(valid_base_check("/files/v{id}"));
}

#[test]
fn invalid_bases() {
  assert!(!valid_base_check(""));
  assert!(!valid_base_check("api"));
  assert!(!valid_base_check("/:id"));
  assert!(!valid_base_check("/a/*b"));
  assert!(!valid_base_check("/a/{}"));
  assert!(!valid_base_check("/a/{x"));
  assert!(!valid_base_check("/a/{*x}"));
  assert!(!valid_base_check("/a/{x}y"));
  assert!(!valid_base_check("/a/{x/y}"));
  assert!(!valid_base_check("/a/}"));
  assert!(!valid_base_check("/a/x{y}{z}"));
  assert!(!valid_base_check("/a/{{x}}"));
}

#[test]
fn capture_names_are_erased() {
  let erased: String = erase_captures("/a/{id}/b/{name}").into_iter().collect();
  assert_eq!(erased, "/a/{}/b/{}");
  let plain: String = erase_captures("/a/b").into_iter().collect();
  assert_eq!(plain, "/a/b");
}

#[test]
fn overlapping_bases() {
  assert!(bases_overlap_check("/a", "/a"));
  assert!(bases_overlap_check("/a/{x}", "/a/{y}"));
  assert!(bases_overlap_check("/a", "/a/{x}"));
  assert!(bases_overlap_check("/a/{x}", "/a"));
  assert!(bases_overlap_check("/a/{x}/{y}", "/a/{z}"));
}

#[test]
fn disjoint_bases() {
  assert!(!bases_overlap_check("/a", "/b"));
  assert!(!bases_overlap_check("/a", "/a/b"));
  assert!(!bases_overlap_check("/a/{x}", "/a/b"));
  assert!(!bases_overlap_check("/{x}/a", "/{y}/b"));
  assert!(!bases_overlap_check("/a", "/ab"));
  assert!(!bases_overlap_check("/a/{x}/b", "/a/{y}/{z}"));
  assert!(!bases_overlap_check("/a/x{y}", "/a/{z}"));
  assert!(!bases_overlap_check("/a", "/a/x{y}"));
}
