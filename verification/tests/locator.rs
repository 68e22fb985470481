use relaygraph::locator::parse_locator;
use relaygraph::model::Locator;

#[test]
fn parses_supported_locators() {
    assert!(matches!(
        parse_locator("id:doc.auth"),
        Ok(Locator::Id(id)) if id == "doc.auth"
    ));
    assert!(matches!(
        parse_locator("path:docs/auth.md"),
        Ok(Locator::Path(path)) if path == "docs/auth.md"
    ));
}

#[test]
fn rejects_unknown_locator_prefix() {
    assert!(parse_locator("symbol:Auth.Login").is_err());
}

#[test]
fn rejects_whitespace_only_locator_values() {
    assert!(parse_locator("id:   ").is_err());
    assert!(parse_locator("path:   ").is_err());
}

#[test]
fn locator_errors_name_the_problem() {
    assert_eq!(parse_locator("id:  "), Err("empty id locator".to_string()));
    assert_eq!(parse_locator("path:\t"), Err("empty path locator".to_string()));
    assert_eq!(
        parse_locator("symbol:Auth.Login"),
        Err("unsupported locator prefix: symbol:Auth.Login".to_string())
    );
}

#[test]
fn id_and_path_locators_round_trip() {
    for id in ["a", "docs.root", " padded "] {
        assert_eq!(parse_locator(&format!("id:{id}")), Ok(Locator::Id(id.to_string())));
    }
    for path in ["a.md", "docs/../x.md"] {
        assert_eq!(parse_locator(&format!("path:{path}")), Ok(Locator::Path(path.to_string())));
    }
}
