use relaygraph::model::{Diagnostic, Plugin, ResolvedLink, Resource, Rule};
use relaygraph::rules::{missing_reachable_kinds, validate_plugin_rules};

fn to(rel: &str, target: &str) -> ResolvedLink {
    ResolvedLink {
        rel: rel.to_string(),
        to: format!("path:{target}"),
        reason: None,
        target_path: Some(target.to_string()),
        target_id: None,
        order: None,
        acknowledged: None,
    }
}

fn node(path: &str, kind: Option<&str>, links: Vec<ResolvedLink>) -> Resource {
    Resource {
        path: path.to_string(),
        id: None,
        kind: kind.map(|k| k.to_string()),
        sidecar: None,
        metadata_json: "{}".to_string(),
        links,
    }
}

fn strings(items: &[&str]) -> Vec<String> {
    items.iter().map(|s| s.to_string()).collect()
}

fn chain() -> Vec<Resource> {
    vec![
        node("design.md", Some("spec"), vec![to("realized-by", "main.rs")]),
        node("main.rs", Some("source"), vec![to("verified-by", "test.rs"), to("loops", "design.md")]),
        node("test.rs", Some("test"), Vec::new()),
        node("lone.md", Some("spec"), Vec::new()),
    ]
}

#[test]
fn reachable_kinds_follow_links_transitively() {
    let rs = chain();
    assert!(missing_reachable_kinds(&rs, &rs[0], &strings(&["source", "test"])).is_empty());
    assert_eq!(missing_reachable_kinds(&rs, &rs[3], &strings(&["test", "source", "test"])), strings(&["source", "test"]));
    assert_eq!(missing_reachable_kinds(&rs, &rs[2], &strings(&["spec"])), strings(&["spec"]));
    assert!(missing_reachable_kinds(&rs, &rs[1], &strings(&["spec"])).is_empty());
}

#[test]
fn plugin_rules_report_missing_relations_and_kinds() {
    let rs = chain();
    let plugin = Plugin {
        schema_version: Some(1),
        name: "feature-trace".to_string(),
        resource_kinds: strings(&["spec", "source", "test"]),
        relations: strings(&["realized-by", "verified-by", "loops"]),
        rules: vec![Rule {
            when: "spec".to_string(),
            require_any_outgoing: strings(&["realized-by", "verified-by"]),
            require_reachable_kinds: strings(&["test"]),
        }],
        traversal: None,
    };
    let mut diagnostics: Vec<Diagnostic> = Vec::new();
    validate_plugin_rules(&rs, &vec![plugin], &mut diagnostics);
    assert_eq!(
        diagnostics,
        vec![
            Diagnostic {
                code: "missing-required-relation".to_string(),
                path: Some("lone.md".to_string()),
                message: "plugin feature-trace requires one of [realized-by, verified-by] for kind spec".to_string(),
            },
            Diagnostic {
                code: "missing-required-relation".to_string(),
                path: Some("lone.md".to_string()),
                message: "plugin feature-trace requires reachable resource kind test for kind spec".to_string(),
            },
        ]
    );
}
