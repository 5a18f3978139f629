use axum_frontend::SpaOptions;

#[test]
fn default_index_is_index_html() {
  assert_eq!(SpaOptions::new().index_document(), "index.html");
  assert_eq!(SpaOptions::default().index_document(), "index.html");
}

#[test]
fn index_can_be_replaced() {
  let opts = SpaOptions::new().index("app.html".to_string());

  assert_eq!(opts.index_document(), "app.html");
  assert_eq!(opts.index("b.html".to_string()).index_document(), "b.html");
}
