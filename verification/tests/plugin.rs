use relaygraph::plugin::{normalize_plugin_repo_path, plugin_is_discovered_or_embedded_default, validated_plugin_repo_path};

#[test]
fn plugins_are_never_loaded_from_the_reserved_directory() {
    assert_eq!(
        validated_plugin_repo_path("._relaygraph/plugins/x.yaml"),
        Err("plugin path must not be under reserved generated directory: ._relaygraph/plugins/x.yaml".to_string())
    );
    assert_eq!(
        validated_plugin_repo_path("./._RelayGraph/x.yaml"),
        Err("plugin path must not be under reserved generated directory: ./._RelayGraph/x.yaml".to_string())
    );
}

#[test]
fn plugin_paths_must_stay_inside_the_repository() {
    assert_eq!(
        validated_plugin_repo_path("../outside.yaml"),
        Err("plugin path must be repo-relative and stay inside repository: ../outside.yaml".to_string())
    );
    assert_eq!(
        validated_plugin_repo_path("/abs/plugin.yaml"),
        Err("plugin path must be repo-relative and stay inside repository: /abs/plugin.yaml".to_string())
    );
    assert_eq!(
        validated_plugin_repo_path("relaygraph\\plugins\\..\\x.yaml"),
        Err("plugin path must be repo-relative and stay inside repository: relaygraph\\plugins\\..\\x.yaml".to_string())
    );
}

#[test]
fn plugin_paths_are_normalized() {
    assert_eq!(
        validated_plugin_repo_path("./relaygraph//plugins/./trace.yaml"),
        Ok("relaygraph/plugins/trace.yaml".to_string())
    );
    assert_eq!(normalize_plugin_repo_path("./relaygraph\\plugins/trace.yaml"), "relaygraph/plugins/trace.yaml");
}

#[test]
fn only_discovered_plugins_or_the_embedded_default_load() {
    let discovered = vec!["relaygraph/plugins/custom.yaml".to_string()];
    assert!(plugin_is_discovered_or_embedded_default("./relaygraph/plugins/custom.yaml", &discovered, true));
    assert!(!plugin_is_discovered_or_embedded_default("relaygraph/plugins/other.yaml", &discovered, true));
    assert!(plugin_is_discovered_or_embedded_default("relaygraph/plugins/feature-trace.yaml", &discovered, false));
    assert!(!plugin_is_discovered_or_embedded_default("relaygraph/plugins/feature-trace.yaml", &discovered, true));
    assert!(!plugin_is_discovered_or_embedded_default("../x.yaml", &discovered, false));
}

use relaygraph::model::{Diagnostic, Plugin, Rule, Traversal};
use relaygraph::plugin::{load_plugins, validate_plugin_definition, PluginSource};

fn names(items: &[&str]) -> Vec<String> {
    items.iter().map(|s| s.to_string()).collect()
}

fn plugin(name: &str) -> Plugin {
    Plugin {
        schema_version: Some(1),
        name: name.to_string(),
        resource_kinds: names(&["doc", "source"]),
        relations: names(&["realized-by"]),
        rules: Vec::new(),
        traversal: None,
    }
}

fn schema(path: &str, message: &str) -> Diagnostic {
    Diagnostic { code: "schema-error".to_string(), path: Some(path.to_string()), message: message.to_string() }
}

fn finding(code: &str, path: &str, message: &str) -> Diagnostic {
    Diagnostic { code: code.to_string(), path: Some(path.to_string()), message: message.to_string() }
}

#[test]
fn plugin_definitions_report_each_problem_in_order() {
    let p = Plugin {
        schema_version: Some(1),
        name: " ".to_string(),
        resource_kinds: names(&["doc", "doc", " "]),
        relations: names(&["realized-by"]),
        rules: vec![Rule {
            when: "note".to_string(),
            require_any_outgoing: names(&["cites"]),
            require_reachable_kinds: names(&[""]),
        }],
        traversal: Some(Traversal { start_kinds: names(&["doc"]), relation_order: names(&["cites"]) }),
    };
    let path = "relaygraph/plugins/p.yaml";
    let mut diagnostics = Vec::new();
    validate_plugin_definition(&p, path, &mut diagnostics);
    assert_eq!(
        diagnostics,
        vec![
            schema(path, "plugin name must not be empty"),
            schema(path, "resourceKinds contains duplicate value: doc"),
            schema(path, "resourceKinds must not contain empty value"),
            finding("unknown-kind", path, "rule references unknown kind: note"),
            finding("unknown-relation", path, "rule references unknown relation: cites"),
            schema(path, "rule.requireReachableKinds must not contain empty kind"),
            finding("unknown-relation", path, "traversal references unknown relation: cites"),
        ]
    );
    let mut clean = Vec::new();
    validate_plugin_definition(&plugin("trace"), path, &mut clean);
    assert!(clean.is_empty());
}

#[test]
fn plugins_load_only_when_valid_discovered_and_unique() {
    let source = |path: &str, loaded: Result<Plugin, String>| PluginSource {
        path: path.to_string(),
        root_error: None,
        default_file_exists: true,
        loaded,
    };
    let sources = vec![
        source("relaygraph/plugins/a.yaml", Ok(plugin("trace"))),
        source("relaygraph/plugins/b.yaml", Ok(plugin("trace"))),
        source("relaygraph/plugins/missing.yaml", Ok(plugin("other"))),
        source("../outside.yaml", Ok(plugin("outside"))),
        source("relaygraph/plugins/broken.yaml", Err("failed to parse plugin".to_string())),
    ];
    let discovered = names(&["relaygraph/plugins/a.yaml", "relaygraph/plugins/b.yaml", "relaygraph/plugins/broken.yaml"]);
    let mut diagnostics = Vec::new();
    let plugins = load_plugins(sources, &discovered, &mut diagnostics);
    assert_eq!(plugins, vec![plugin("trace")]);
    assert_eq!(
        diagnostics,
        vec![
            finding("duplicate-plugin", "relaygraph/plugins/b.yaml", "plugin name trace is already used by relaygraph/plugins/a.yaml"),
            finding(
                "plugin-load-error",
                "relaygraph/plugins/missing.yaml",
                "plugin path is not part of Git-backed repository discovery"
            ),
            schema(".relaygraph.yaml", "plugin path must be repo-relative and stay inside repository: ../outside.yaml"),
            finding("plugin-load-error", "relaygraph/plugins/broken.yaml", "failed to parse plugin"),
        ]
    );
}
