use relaygraph::config::{sidecar_suffix, validate_config_values};
use relaygraph::model::{Config, Diagnostic};

#[test]
fn default_sidecar_suffix_is_applied() {
    assert_eq!(sidecar_suffix(&Config::default()), ".relaygraph.yaml");
}

#[test]
fn whitespace_only_sidecar_suffix_falls_back_to_default() {
    let config = Config {
        sidecar_suffix: Some(" ".to_string()),
        ..Config::default()
    };

    assert_eq!(sidecar_suffix(&config), ".relaygraph.yaml");
}

#[test]
fn validates_whitespace_only_config_strings() {
    let config = Config {
        sidecar_suffix: Some(" ".to_string()),
        plugins: Some(vec![" ".to_string()]),
        exclude: Some(vec![" ".to_string()]),
        require_sidecar: Some(vec![" ".to_string()]),
        ..Config::default()
    };
    let mut diagnostics: Vec<Diagnostic> = Vec::new();

    validate_config_values(&config, &mut diagnostics);

    assert_eq!(diagnostics.len(), 4);
    assert!(diagnostics
        .iter()
        .all(|diagnostic| diagnostic.code == "schema-error"));
}

#[test]
fn validates_sidecar_suffix_as_filename_suffix() {
    for suffix in [
        "dir/.relaygraph.yaml",
        "dir\\.relaygraph.yaml",
        "../x",
        ".rg..x",
        ":rg.yaml",
        "*.yaml",
        "?.yaml",
        "|.yaml",
        ".rg.",
        ".rg ",
    ] {
        let config = Config {
            sidecar_suffix: Some(suffix.to_string()),
            ..Config::default()
        };
        let mut diagnostics: Vec<Diagnostic> = Vec::new();

        validate_config_values(&config, &mut diagnostics);

        assert_eq!(diagnostics.len(), 1, "suffix should be rejected: {suffix}");
        assert!(diagnostics[0]
            .message
            .contains("without path separators or parent traversal"));
    }
}

#[test]
fn custom_sidecar_suffix_is_kept() {
    let config = Config {
        sidecar_suffix: Some(".rg.yaml".to_string()),
        ..Config::default()
    };
    assert_eq!(sidecar_suffix(&config), ".rg.yaml");
    let mut diagnostics: Vec<Diagnostic> = Vec::new();
    validate_config_values(&config, &mut diagnostics);
    assert!(diagnostics.is_empty());
}

#[test]
fn default_config_has_documented_values() {
    let config = Config::default();
    assert_eq!(config.schema_version, Some(1));
    assert_eq!(config.use_git_ignore, Some(true));
    assert_eq!(config.plugins, Some(vec!["relaygraph/plugins/feature-trace.yaml".to_string()]));
    assert_eq!(config.exclude, Some(vec!["._relaygraph/**".to_string()]));
    assert_eq!(config.require_sidecar, Some(Vec::new()));
}
