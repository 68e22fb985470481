use relaygraph::link_edit::LoadedSidecar;
use relaygraph::model::{BuildResult, Diagnostic, Link, Resource, Sidecar};
use relaygraph::sync::{apply_path_hint_updates, plan_sidecar_sync, sync_path_hints, sync_tables, SyncSidecar, SyncTables};

fn tables() -> SyncTables {
    SyncTables {
        ids: vec!["a".to_string(), "b".to_string()],
        id_paths: vec!["docs/a.md".to_string(), "docs/b.md".to_string()],
        resource_paths: vec!["docs/a.md".to_string(), "docs/b.md".to_string(), "c.md".to_string()],
    }
}

fn hinted(to: &str, hint: Option<&str>) -> Link {
    Link { rel: "x".to_string(), to: to.to_string(), reason: None, path_hint: hint.map(|s| s.to_string()), order: None, acknowledged: None }
}

fn sidecar(links: Vec<Link>) -> Sidecar {
    Sidecar { schema_version: Some(1), id: Some("s".to_string()), kind: None, links, metadata_json: None }
}

#[test]
fn stale_hints_are_replaced_with_resolved_paths() {
    let text = "links:\n  - rel: x\n    to: id:a\n    pathHint: old/a.md # was moved\n  - rel: x\n    to: path:./c.md\n    pathHint: c.md\n  - rel: x\n    to: id:b\n";
    let sc = sidecar(vec![hinted("id:a", Some("old/a.md")), hinted("path:./c.md", Some("c.md")), hinted("id:b", None)]);
    assert_eq!(
        plan_sidecar_sync("s.md.relaygraph.yaml", text, &sc, &tables()),
        Ok(Some("links:\n  - rel: x\n    to: id:a\n    pathHint: \"docs/a.md\" # was moved\n  - rel: x\n    to: path:./c.md\n    pathHint: c.md\n  - rel: x\n    to: id:b\n".to_string()))
    );
}

#[test]
fn fresh_and_unresolved_hints_are_left_alone() {
    let text = "links:\n  - rel: x\n    to: id:a\n    pathHint: docs/a.md\n  - rel: x\n    to: id:missing\n    pathHint: gone.md\n";
    let sc = sidecar(vec![hinted("id:a", Some("docs/a.md")), hinted("id:missing", Some("gone.md"))]);
    assert_eq!(plan_sidecar_sync("s.md.relaygraph.yaml", text, &sc, &tables()), Ok(None));
}

#[test]
fn hints_the_text_cannot_take_are_an_error() {
    let text = "links: [{rel: x, to: id:a, pathHint: old.md}]\n";
    let sc = sidecar(vec![hinted("id:a", Some("old.md"))]);
    assert_eq!(
        plan_sidecar_sync("s.md.relaygraph.yaml", text, &sc, &tables()),
        Err("failed to update pathHint values in s.md.relaygraph.yaml: unsupported links formatting; expected 1 update(s), applied 0".to_string())
    );
}

#[test]
fn path_hint_updates_touch_only_hint_lines() {
    let text = "links:\n  - rel: x\n    to: id:a\n    pathHint: old\n    acknowledged:\n      sourceRevision: sha256:aa\nother: pathHint: keep\n";
    let (updated, applied) = apply_path_hint_updates(text, &vec![Some("new/a.md".to_string())]);
    assert_eq!(applied, 1);
    assert_eq!(updated, "links:\n  - rel: x\n    to: id:a\n    pathHint: \"new/a.md\"\n    acknowledged:\n      sourceRevision: sha256:aa\nother: pathHint: keep\n");
    let (same, none) = apply_path_hint_updates("a: 1", &vec![]);
    assert_eq!((same.as_str(), none), ("a: 1", 0));
}

fn resource(path: &str, id: Option<&str>, sidecar: Option<&str>) -> Resource {
    Resource {
        path: path.to_string(),
        id: id.map(|s| s.to_string()),
        kind: None,
        sidecar: sidecar.map(|s| s.to_string()),
        metadata_json: "{}".to_string(),
        links: Vec::new(),
    }
}

#[test]
fn sync_is_blocked_by_diagnostics_other_than_hint_mismatches() {
    let mismatch = Diagnostic { code: "path-hint-mismatch".to_string(), path: Some("s.md.relaygraph.yaml".to_string()), message: "m".to_string() };
    let other = Diagnostic { code: "missing-path".to_string(), path: None, message: "gone".to_string() };
    let graph = BuildResult { resources: vec![resource("docs/a.md", Some("a"), None)], diagnostics: vec![mismatch, other], plugins: vec![] };
    assert_eq!(sync_tables(&graph).err(), Some("missing-path: gone".to_string()));
    assert_eq!(sync_path_hints(&graph, &Vec::new()).err(), Some("missing-path: gone".to_string()));
}

#[test]
fn sync_rewrites_each_stale_sidecar_in_order() {
    let graph = BuildResult {
        resources: vec![
            resource("docs/a.md", Some("a"), Some("docs/a.md.relaygraph.yaml")),
            resource("s.md", None, Some("s.md.relaygraph.yaml")),
        ],
        diagnostics: vec![],
        plugins: vec![],
    };
    let t = sync_tables(&graph).unwrap();
    assert_eq!(t.ids, vec!["a".to_string()]);
    assert_eq!(t.resource_paths, vec!["docs/a.md".to_string(), "s.md".to_string()]);
    let text = "links:\n  - rel: x\n    to: id:a\n    pathHint: a.md\n";
    let sidecars = vec![
        SyncSidecar {
            sidecar_path: "docs/a.md.relaygraph.yaml".to_string(),
            loaded: Ok(LoadedSidecar { text: "id: a\n".to_string(), sidecar: sidecar(vec![]) }),
        },
        SyncSidecar {
            sidecar_path: "s.md.relaygraph.yaml".to_string(),
            loaded: Ok(LoadedSidecar { text: text.to_string(), sidecar: sidecar(vec![hinted("id:a", Some("a.md"))]) }),
        },
    ];
    let rewrites = sync_path_hints(&graph, &sidecars).unwrap();
    assert_eq!(rewrites.len(), 1);
    assert_eq!(rewrites[0].sidecar_path, "s.md.relaygraph.yaml");
    assert_eq!(rewrites[0].text, "links:\n  - rel: x\n    to: id:a\n    pathHint: \"docs/a.md\"\n");
    let broken = vec![SyncSidecar { sidecar_path: "x".to_string(), loaded: Err("failed to parse sidecar x".to_string()) }];
    assert_eq!(sync_path_hints(&graph, &broken).err(), Some("failed to parse sidecar x".to_string()));
}
