use relaygraph::assemble::{build_graph, GraphInputs};
use relaygraph::cache::{cache_link_rows, cache_trace, CacheResource};
use relaygraph::export::to_export;
use relaygraph::graph::{RepoFile, SidecarRead};
use relaygraph::model::{BuildResult, Config, Direction, Link, Sidecar};
use relaygraph::trace::trace_from;

fn file(path: &str) -> RepoFile {
    RepoFile { path: path.to_string(), is_boundary_link: false }
}

fn link(rel: &str, to: &str, order: Option<i64>) -> Link {
    Link { rel: rel.to_string(), to: to.to_string(), reason: None, path_hint: None, order, acknowledged: None }
}

fn fixture() -> BuildResult {
    let config = Config { use_git_ignore: Some(false), plugins: Some(Vec::new()), ..Config::default() };
    let root = Sidecar {
        schema_version: Some(1),
        id: Some("root".to_string()),
        kind: Some("doc".to_string()),
        links: vec![link("x", "path:a.md", Some(2)), link("x", "id:bee", Some(1))],
        metadata_json: Some("{}".to_string()),
    };
    let bee = Sidecar { schema_version: None, id: Some("bee".to_string()), kind: None, links: Vec::new(), metadata_json: Some("{}".to_string()) };
    let inputs = GraphInputs {
        files: vec![
            file("root.md"),
            file("root.md.relaygraph.yaml"),
            file("a.md"),
            file("b.md"),
            file("b.md.relaygraph.yaml"),
            file("._relaygraph/cache/relaygraph.sqlite"),
            file(".relaygraph.yaml"),
        ],
        listing_diagnostics: Vec::new(),
        plugin_sources: Vec::new(),
        sidecar_reads: vec![
            SidecarRead { path: "root.md.relaygraph.yaml".to_string(), outcome: Ok(root) },
            SidecarRead { path: "b.md.relaygraph.yaml".to_string(), outcome: Ok(bee) },
        ],
    };
    build_graph(&config, inputs)
}

#[test]
fn metadata_that_is_not_json_is_a_schema_error() {
    let config = Config { use_git_ignore: Some(false), plugins: Some(Vec::new()), ..Config::default() };
    let odd = Sidecar { schema_version: None, id: None, kind: None, links: Vec::new(), metadata_json: None };
    let inputs = GraphInputs {
        files: vec![file("a.md"), file("a.md.relaygraph.yaml")],
        listing_diagnostics: Vec::new(),
        plugin_sources: Vec::new(),
        sidecar_reads: vec![SidecarRead { path: "a.md.relaygraph.yaml".to_string(), outcome: Ok(odd) }],
    };
    let graph = build_graph(&config, inputs);
    assert_eq!(graph.diagnostics.len(), 1);
    assert_eq!(graph.diagnostics[0].path.as_deref(), Some("a.md.relaygraph.yaml"));
    assert_eq!(graph.diagnostics[0].message, "metadata must be JSON-compatible; YAML mapping keys must be strings");
    assert_eq!(graph.resources[0].metadata_json, "{}");
}

#[test]
fn graph_resolves_resources_and_links_in_order() {
    let graph = fixture();
    assert!(graph.diagnostics.is_empty(), "{:?}", graph.diagnostics);
    let paths: Vec<&str> = graph.resources.iter().map(|r| r.path.as_str()).collect();
    assert_eq!(paths, vec!["a.md", "b.md", "root.md"]);
    let root = &graph.resources[2];
    assert_eq!(root.id.as_deref(), Some("root"));
    assert_eq!(root.sidecar.as_deref(), Some("root.md.relaygraph.yaml"));
    let targets: Vec<Option<&str>> = root.links.iter().map(|l| l.target_path.as_deref()).collect();
    assert_eq!(targets, vec![Some("b.md"), Some("a.md")]);
    assert_eq!(root.links[0].target_id.as_deref(), Some("bee"));
}

#[test]
fn trace_follows_link_order_in_each_direction() {
    let graph = fixture();
    assert_eq!(
        trace_from(&graph.resources, &graph.plugins, "path:root.md", Direction::Outgoing),
        Ok(vec!["root.md".to_string(), "b.md".to_string(), "a.md".to_string()])
    );
    assert_eq!(
        trace_from(&graph.resources, &graph.plugins, "id:bee", Direction::Incoming),
        Ok(vec!["b.md".to_string(), "root.md".to_string()])
    );
    assert_eq!(
        trace_from(&graph.resources, &graph.plugins, "path:a.md", Direction::Both),
        Ok(vec!["a.md".to_string(), "root.md".to_string(), "b.md".to_string()])
    );
    assert_eq!(
        trace_from(&graph.resources, &graph.plugins, "path:../a.md", Direction::Both),
        Err("path must not contain parent traversal: ../a.md".to_string())
    );
    assert_eq!(
        trace_from(&graph.resources, &graph.plugins, "id:nobody", Direction::Both),
        Err("unknown start id: nobody".to_string())
    );
    assert_eq!(
        trace_from(&graph.resources, &graph.plugins, "path:c.md", Direction::Both),
        Err("unknown start path: c.md".to_string())
    );
}

#[test]
fn export_generates_incoming_links() {
    let export = to_export(fixture());
    let a = &export.resources[0];
    assert_eq!(a.path, "a.md");
    assert_eq!(a.incoming_links.len(), 1);
    assert_eq!(a.incoming_links[0].from_path, "root.md");
    assert_eq!(a.incoming_links[0].from_id.as_deref(), Some("root"));
    assert_eq!(a.incoming_links[0].rel, "x");
    assert_eq!(a.incoming_links[0].order, Some(2));
    assert_eq!(export.resources[2].incoming_links.len(), 0);
    assert_eq!(export.resources[2].links.len(), 2);
}

#[test]
fn cache_rows_and_cache_trace_agree_with_trace() {
    let graph = fixture();
    let rows = cache_link_rows(&graph);
    assert_eq!(rows.len(), 2);
    assert_eq!(rows[0].source_path, "root.md");
    assert_eq!(rows[0].target_locator, "id:bee");
    assert_eq!(rows[0].relation_rank, None);
    let resources: Vec<CacheResource> = graph
        .resources
        .iter()
        .map(|r| CacheResource { path: r.path.clone(), id: r.id.clone(), kind: r.kind.clone(), sidecar: r.sidecar.clone() })
        .collect();
    for (from, direction) in [("path:root.md", Direction::Outgoing), ("path:a.md", Direction::Both), ("id:bee", Direction::Incoming)] {
        assert_eq!(
            cache_trace(&resources, &rows, from, direction),
            trace_from(&graph.resources, &graph.plugins, from, direction)
        );
    }
}

#[test]
fn reserved_generated_directory_is_never_discovered() {
    let config = Config { use_git_ignore: Some(false), plugins: Some(Vec::new()), exclude: Some(Vec::new()), ..Config::default() };
    let hidden = Sidecar { schema_version: None, id: Some("hidden".to_string()), kind: None, links: Vec::new(), metadata_json: Some("{}".to_string()) };
    let inputs = GraphInputs {
        files: vec![
            file("a.md"),
            file("._relaygraph/generated/relaygraph.json"),
            file("._RelayGraph/notes.md"),
            file("._RelayGraph/notes.md.relaygraph.yaml"),
        ],
        listing_diagnostics: Vec::new(),
        plugin_sources: Vec::new(),
        sidecar_reads: vec![SidecarRead { path: "._RelayGraph/notes.md.relaygraph.yaml".to_string(), outcome: Ok(hidden) }],
    };
    let graph = build_graph(&config, inputs);
    assert!(graph.diagnostics.is_empty(), "{:?}", graph.diagnostics);
    let paths: Vec<&str> = graph.resources.iter().map(|r| r.path.as_str()).collect();
    assert_eq!(paths, vec!["a.md"]);
}

#[test]
fn cache_trace_matches_trace_after_mixing_directions() {
    let config = Config { use_git_ignore: Some(false), plugins: Some(Vec::new()), ..Config::default() };
    let sc = |id: &str, links: Vec<Link>| Sidecar {
        schema_version: Some(1),
        id: Some(id.to_string()),
        kind: None,
        links,
        metadata_json: Some("{}".to_string()),
    };
    let inputs = GraphInputs {
        files: vec![
            file("a.md"),
            file("a.md.relaygraph.yaml"),
            file("b.md"),
            file("b.md.relaygraph.yaml"),
            file("c.md"),
            file("c.md.relaygraph.yaml"),
            file("d.md"),
        ],
        listing_diagnostics: Vec::new(),
        plugin_sources: Vec::new(),
        sidecar_reads: vec![
            SidecarRead { path: "a.md.relaygraph.yaml".to_string(), outcome: Ok(sc("a", vec![link("y", "id:b", None), link("x", "path:d.md", None)])) },
            SidecarRead { path: "b.md.relaygraph.yaml".to_string(), outcome: Ok(sc("b", vec![link("x", "path:a.md", Some(1)), link("x", "id:c", None)])) },
            SidecarRead { path: "c.md.relaygraph.yaml".to_string(), outcome: Ok(sc("c", vec![link("x", "id:a", None), link("z", "path:b.md", Some(0))])) },
        ],
    };
    let graph = build_graph(&config, inputs);
    assert!(graph.diagnostics.is_empty(), "{:?}", graph.diagnostics);
    let rows = cache_link_rows(&graph);
    let resources: Vec<CacheResource> = graph
        .resources
        .iter()
        .map(|r| CacheResource { path: r.path.clone(), id: r.id.clone(), kind: r.kind.clone(), sidecar: r.sidecar.clone() })
        .collect();
    for from in ["path:a.md", "path:b.md", "id:c", "path:d.md"] {
        for direction in [Direction::Outgoing, Direction::Incoming, Direction::Both] {
            let live = trace_from(&graph.resources, &graph.plugins, from, direction);
            assert!(live.is_ok());
            assert_eq!(cache_trace(&resources, &rows, from, direction), live, "{from} {direction:?}");
        }
    }
    assert_eq!(
        trace_from(&graph.resources, &graph.plugins, "path:d.md", Direction::Both),
        Ok(vec!["d.md".to_string(), "a.md".to_string(), "b.md".to_string(), "c.md".to_string()])
    );
}
