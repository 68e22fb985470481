use relaygraph::init::{generated_id_for_path, unique_generated_id_for_path};

#[test]
fn generates_stable_id_from_path() {
    assert_eq!(
        generated_id_for_path("docs/issues/Relay Graph Design.md"),
        "docs.issues.relay.graph.design.md"
    );
    assert_eq!(generated_id_for_path("src/main.rs"), "src.main.rs");
    assert_eq!(generated_id_for_path(".gitignore"), "gitignore");
}

#[test]
fn taken_ids_get_distinct_fallbacks() {
    let mut used: Vec<String> = Vec::new();
    let first = unique_generated_id_for_path("a.md", &mut used);
    let second = unique_generated_id_for_path("a.md", &mut used);
    let third = unique_generated_id_for_path("a.md", &mut used);
    assert_eq!(first, "a.md");
    assert!(second.starts_with("a.md."));
    assert_ne!(second, first);
    assert_ne!(third, second);
    assert!(third.starts_with(&second));
    assert_eq!(used, vec![first, second, third]);
}

#[test]
fn path_without_id_characters_gets_hash_id() {
    let id = generated_id_for_path("///");
    assert!(id.starts_with("resource."));
    assert_eq!(id.len(), "resource.".len() + 16);
}

use relaygraph::init::{init_missing_sidecars, initial_sidecar_text, InitFile, InitInputs, SidecarProbe};
use relaygraph::model::Config;

fn init_file(path: &str, resource: Result<bool, String>, sidecar: SidecarProbe) -> InitFile {
    InitFile { path: path.to_string(), resource, sidecar_ignored: false, sidecar }
}

fn init_config(require: &[&str]) -> Config {
    Config {
        use_git_ignore: Some(false),
        plugins: Some(Vec::new()),
        require_sidecar: Some(require.iter().map(|p| p.to_string()).collect()),
        ..Config::default()
    }
}

#[test]
fn init_without_required_patterns_plans_nothing() {
    let inputs = InitInputs {
        files: vec![init_file("a.md", Ok(false), SidecarProbe::Missing), init_file("docs/b.md", Ok(false), SidecarProbe::Missing)],
        plugin_sources: Vec::new(),
        existing_ids: Vec::new(),
    };
    let plans = init_missing_sidecars(&init_config(&[]), inputs).unwrap();
    assert!(plans.is_empty());
}

#[test]
fn init_plans_missing_required_sidecars_with_fresh_ids() {
    let inputs = InitInputs {
        files: vec![
            init_file("docs/a.md", Ok(false), SidecarProbe::Missing),
            init_file("docs/b.md", Ok(false), SidecarProbe::Present(false)),
            init_file("src/c.rs", Ok(false), SidecarProbe::Missing),
        ],
        plugin_sources: Vec::new(),
        existing_ids: vec!["docs.a.md".to_string()],
    };
    let plans = init_missing_sidecars(&init_config(&["docs/**"]), inputs).unwrap();
    assert_eq!(plans.len(), 1);
    assert_eq!(plans[0].sidecar_path, "docs/a.md.relaygraph.yaml");
    assert_ne!(plans[0].id, "docs.a.md");
    assert!(plans[0].id.starts_with("docs.a.md."));
}

#[test]
fn init_refuses_symlinked_resources() {
    let inputs = InitInputs {
        files: vec![init_file("docs/a.md", Ok(true), SidecarProbe::Missing)],
        plugin_sources: Vec::new(),
        existing_ids: Vec::new(),
    };
    assert_eq!(
        init_missing_sidecars(&init_config(&["docs/**"]), inputs).err(),
        Some("schema-error docs/a.md: resource must not be a symlink".to_string())
    );
}

#[test]
fn initial_sidecar_text_quotes_the_id() {
    assert_eq!(initial_sidecar_text("docs.a.md"), "schemaVersion: 1\nid: \"docs.a.md\"\nlinks: []\n");
    assert_eq!(initial_sidecar_text("a\"b"), "schemaVersion: 1\nid: \"a\\\"b\"\nlinks: []\n");
}

#[test]
fn init_never_plans_sidecars_in_the_reserved_directory() {
    let config = Config {
        use_git_ignore: Some(false),
        plugins: Some(Vec::new()),
        exclude: Some(Vec::new()),
        require_sidecar: Some(vec!["**".to_string()]),
        ..Config::default()
    };
    let inputs = InitInputs {
        files: vec![
            init_file("._relaygraph/generated/relaygraph.json", Ok(false), SidecarProbe::Missing),
            init_file("._RelayGraph/notes.md", Ok(false), SidecarProbe::Missing),
            init_file("a.md", Ok(false), SidecarProbe::Missing),
        ],
        plugin_sources: Vec::new(),
        existing_ids: Vec::new(),
    };
    let plans = init_missing_sidecars(&config, inputs).unwrap();
    assert_eq!(plans.len(), 1);
    assert_eq!(plans[0].sidecar_path, "a.md.relaygraph.yaml");
}
