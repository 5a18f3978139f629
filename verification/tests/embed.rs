use axum_frontend::embed::{embed_answer, embed_lookup, EmbedAnswer, EmbedLookup};

fn asset(p: &str) -> EmbedLookup {
  EmbedLookup::Asset(p.to_string())
}

#[test]
fn root_is_the_index_document() {
  assert_eq!(embed_lookup("/", "index.html"), EmbedLookup::Index);
  assert_eq!(embed_lookup("", "index.html"), EmbedLookup::Index);
  assert_eq!(embed_lookup("///", "index.html"), EmbedLookup::Index);
}

#[test]
fn index_by_name_is_the_index_document() {
  assert_eq!(embed_lookup("/index.html", "index.html"), EmbedLookup::Index);
  assert_eq!(embed_lookup("/app.html", "app.html"), EmbedLookup::Index);
  assert_eq!(embed_lookup("/index.html", "app.html"), asset("index.html"));
}

#[test]
fn other_paths_are_looked_up_without_leading_slashes() {
  assert_eq!(embed_lookup("/app.js", "index.html"), asset("app.js"));
  assert_eq!(embed_lookup("//assets/x.css", "index.html"), asset("assets/x.css"));
  assert_eq!(embed_lookup("/some/client/route", "index.html"), asset("some/client/route"));
}

#[test]
fn found_asset_is_served() {
  assert_eq!(embed_answer(&asset("app.js"), true), EmbedAnswer::Asset);
  assert_eq!(embed_answer(&asset("deep/link"), true), EmbedAnswer::Asset);
}

#[test]
fn missing_file_with_extension_is_not_found() {
  assert_eq!(embed_answer(&asset("missing.js"), false), EmbedAnswer::NotFound);
  assert_eq!(embed_answer(&asset("assets/v1.2/x.js"), false), EmbedAnswer::NotFound);
}

#[test]
fn missing_client_route_gets_the_index() {
  assert_eq!(embed_answer(&asset("some/client/route"), false), EmbedAnswer::IndexDocument);
  assert_eq!(embed_answer(&asset("v1.2/route"), false), EmbedAnswer::IndexDocument);
  assert_eq!(embed_answer(&EmbedLookup::Index, false), EmbedAnswer::IndexDocument);
  assert_eq!(embed_answer(&EmbedLookup::Index, true), EmbedAnswer::IndexDocument);
}
