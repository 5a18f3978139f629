#[test]
fn crate_builds() {}
