use relaygraph::model::{BuildResult, Config, Resource};
use relaygraph::output::{guard_output, normalize_path_components, parse_id_link, protected_repo_paths, PathPart};

#[test]
fn id_links_need_an_id_target() {
    let link = parse_id_link("realized-by:id:src.main").unwrap();
    assert_eq!((link.rel.as_str(), link.to.as_str()), ("realized-by", "id:src.main"));
    assert_eq!(parse_id_link("realized-by:path:src/main.rs").err(), Some("link target must use id: locator".to_string()));
    assert_eq!(parse_id_link("realized-by:id: ").err(), Some("empty id locator".to_string()));
    assert!(parse_id_link("no-separator").is_err());
}

#[test]
fn protected_paths_cover_declarations_and_resources() {
    let config = Config { plugins: Some(vec!["./relaygraph/plugins/x.yaml".to_string(), "../out.yaml".to_string()]), ..Config::default() };
    let graph = BuildResult {
        resources: vec![Resource {
            path: "a.md".to_string(),
            id: None,
            kind: None,
            sidecar: Some("a.md.relaygraph.yaml".to_string()),
            metadata_json: "{}".to_string(),
            links: vec![],
        }],
        diagnostics: vec![],
        plugins: vec![],
    };
    let files = vec!["orphan.md.relaygraph.yaml".to_string(), "b.txt".to_string(), "a.md".to_string()];
    assert_eq!(
        protected_repo_paths(&config, &graph, &files),
        vec![".relaygraph.yaml", "a.md", "a.md.relaygraph.yaml", "orphan.md.relaygraph.yaml", "relaygraph/plugins/x.yaml"]
    );
}

#[test]
fn outputs_are_guarded() {
    let protected = vec![".relaygraph.yaml".to_string()];
    assert_eq!(
        guard_output(Some(".relaygraph.yaml"), &protected, true, true, true, ".relaygraph.yaml"),
        Err("refusing to write output into repository declaration or source path .relaygraph.yaml".to_string())
    );
    assert_eq!(
        guard_output(Some("graph.json"), &protected, true, false, true, "graph.json"),
        Err("refusing to overwrite existing output graph.json; pass --force to replace it".to_string())
    );
    assert_eq!(guard_output(Some("graph.json"), &protected, true, true, true, "graph.json"), Ok(()));
    assert_eq!(guard_output(None, &protected, true, false, false, "/tmp/x.json"), Ok(()));
}

fn normal(s: &str) -> PathPart {
    PathPart::Normal(s.to_string())
}

#[test]
fn path_components_are_normalized_lexically() {
    let parts = vec![PathPart::Root, normal("repo"), PathPart::Current, normal("docs"), PathPart::Parent, PathPart::Parent, PathPart::Parent, normal("x")];
    let out = normalize_path_components(&parts);
    assert_eq!(out.len(), 2);
    assert!(matches!(out[0], PathPart::Root));
    assert!(matches!(&out[1], PathPart::Normal(s) if s == "x"));
}
