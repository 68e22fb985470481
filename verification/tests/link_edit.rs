use relaygraph::generate::GenerateLink;
use relaygraph::link_edit::{
    acknowledge_link, acknowledge_target, add_link, check_update_options, edit_context, edit_source_id,
    locate_edit_source, migrate_sidecar_to_v3, remove_link, update_link, validate_link_reason, AcknowledgeLinkOptions,
    AddLinkOptions, EditContext, EditSource, LinkEditOptions, LoadedSidecar, RemoveLinkOptions, UpdateLinkOptions,
};
use relaygraph::model::{AcknowledgedRevisions, BuildResult, Diagnostic, Link, Plugin, Resource, Sidecar};

fn context() -> EditContext {
    EditContext {
        source_path: "docs/root.md".to_string(),
        sidecar_path: "docs/root.md.relaygraph.yaml".to_string(),
        known_relations: vec!["realized-by".to_string(), "verified-by".to_string()],
        ids: vec!["docs.root".to_string(), "src.main".to_string(), "tests.cli".to_string()],
        id_paths: vec!["docs/root.md".to_string(), "src/main.rs".to_string(), "tests/cli.rs".to_string()],
    }
}

fn link(rel: &str, to: &str) -> Link {
    Link { rel: rel.to_string(), to: to.to_string(), reason: None, path_hint: None, order: None, acknowledged: None }
}

fn sidecar(version: Option<u32>, links: Vec<Link>) -> Sidecar {
    Sidecar { schema_version: version, id: Some("docs.root".to_string()), kind: None, links, metadata_json: None }
}

fn common() -> LinkEditOptions {
    LinkEditOptions { source: "id:docs.root".to_string(), dry_run: false }
}

fn gl(rel: &str, to: &str) -> GenerateLink {
    GenerateLink { rel: rel.to_string(), to: to.to_string() }
}

const BASE: &str = "schemaVersion: 1\nid: docs.root\nlinks:\n  - rel: realized-by\n    to: id:src.main\n";

fn update_options(current: GenerateLink) -> UpdateLinkOptions {
    UpdateLinkOptions {
        common: common(),
        current,
        new_link: None,
        path_hint: false,
        clear_path_hint: false,
        reason: None,
        clear_reason: false,
        order: None,
        clear_order: false,
    }
}

#[test]
fn add_link_appends_item_with_path_hint() {
    let options = AddLinkOptions { common: common(), link: gl("verified-by", "id:tests.cli"), reason: None, path_hint: true, order: Some(2) };
    let loaded = Ok(LoadedSidecar { text: BASE.to_string(), sidecar: sidecar(Some(1), vec![link("realized-by", "id:src.main")]) });
    let updated = add_link(&context(), &options, &loaded).unwrap();
    assert_eq!(
        updated,
        "schemaVersion: 1\nid: docs.root\nlinks:\n  - rel: realized-by\n    to: id:src.main\n  - rel: verified-by\n    to: id:tests.cli\n    pathHint: tests/cli.rs\n    order: 2\n"
    );
}

#[test]
fn add_link_with_reason_upgrades_to_version_3() {
    let options = AddLinkOptions { common: common(), link: gl("verified-by", "id:tests.cli"), reason: Some("covers \"main\"".to_string()), path_hint: false, order: None };
    let loaded = Ok(LoadedSidecar { text: BASE.to_string(), sidecar: sidecar(Some(1), vec![link("realized-by", "id:src.main")]) });
    let updated = add_link(&context(), &options, &loaded).unwrap();
    assert_eq!(
        updated,
        "schemaVersion: 3\nid: docs.root\nlinks:\n  - rel: realized-by\n    to: id:src.main\n  - rel: verified-by\n    to: id:tests.cli\n    reason: \"covers \\\"main\\\"\"\n"
    );
}

#[test]
fn add_link_refuses_duplicates_and_unknown_targets() {
    let loaded = Ok(LoadedSidecar { text: BASE.to_string(), sidecar: sidecar(Some(1), vec![link("realized-by", "id:src.main")]) });
    let dup = AddLinkOptions { common: common(), link: gl("realized-by", "id:src.main"), reason: None, path_hint: false, order: None };
    assert_eq!(
        add_link(&context(), &dup, &loaded),
        Err("link already exists in docs/root.md.relaygraph.yaml: realized-by:id:src.main".to_string())
    );
    let unknown = AddLinkOptions { common: common(), link: gl("realized-by", "id:nope"), reason: None, path_hint: false, order: None };
    assert_eq!(add_link(&context(), &unknown, &loaded), Err("unresolved id locator: id:nope".to_string()));
    let bad_rel = AddLinkOptions { common: common(), link: gl("depends-on", "id:src.main"), reason: None, path_hint: false, order: None };
    assert_eq!(add_link(&context(), &bad_rel, &loaded), Err("unknown relation depends-on".to_string()));
    let path_target = AddLinkOptions { common: common(), link: gl("realized-by", "path:src/main.rs"), reason: None, path_hint: false, order: None };
    assert_eq!(add_link(&context(), &path_target, &loaded), Err("link target must use an id: locator".to_string()));
    let blank_reason = AddLinkOptions { common: common(), link: gl("verified-by", "id:tests.cli"), reason: Some("  ".to_string()), path_hint: false, order: None };
    assert_eq!(add_link(&context(), &blank_reason, &loaded), Err("link reason must not be empty or whitespace".to_string()));
}

#[test]
fn add_link_reports_read_errors_after_link_checks() {
    let options = AddLinkOptions { common: common(), link: gl("verified-by", "id:tests.cli"), reason: None, path_hint: false, order: None };
    let loaded: Result<LoadedSidecar, String> = Err("failed to read sidecar docs/root.md.relaygraph.yaml".to_string());
    assert_eq!(add_link(&context(), &options, &loaded), Err("failed to read sidecar docs/root.md.relaygraph.yaml".to_string()));
}

#[test]
fn add_link_creates_links_block_and_replaces_empty_one() {
    let options = AddLinkOptions { common: common(), link: gl("verified-by", "id:tests.cli"), reason: None, path_hint: false, order: None };
    let none = Ok(LoadedSidecar { text: "schemaVersion: 1\nid: docs.root\n".to_string(), sidecar: sidecar(Some(1), vec![]) });
    assert_eq!(
        add_link(&context(), &options, &none).unwrap(),
        "schemaVersion: 1\nid: docs.root\nlinks:\n  - rel: verified-by\n    to: id:tests.cli\n"
    );
    let empty = Ok(LoadedSidecar { text: "id: docs.root\nlinks: []\nkind: doc\n".to_string(), sidecar: sidecar(None, vec![]) });
    assert_eq!(
        add_link(&context(), &options, &empty).unwrap(),
        "id: docs.root\nlinks:\n  - rel: verified-by\n    to: id:tests.cli\nkind: doc\n"
    );
    let flow = Ok(LoadedSidecar { text: "id: docs.root\nlinks: [{rel: x, to: id:y}]\n".to_string(), sidecar: sidecar(None, vec![]) });
    assert_eq!(
        add_link(&context(), &options, &flow),
        Err("failed to update links in docs/root.md.relaygraph.yaml: unsupported links formatting; use block-style links".to_string())
    );
}

#[test]
fn remove_link_drops_item_and_empties_block() {
    let sc = sidecar(Some(1), vec![link("realized-by", "id:src.main")]);
    let options = RemoveLinkOptions { common: common(), link: gl("realized-by", "id:src.main") };
    assert_eq!(
        remove_link(&context(), &options, BASE, &sc).unwrap(),
        "schemaVersion: 1\nid: docs.root\nlinks: []\n"
    );
    let missing = RemoveLinkOptions { common: common(), link: gl("verified-by", "id:tests.cli") };
    assert_eq!(
        remove_link(&context(), &missing, BASE, &sc),
        Err("link not found: verified-by:id:tests.cli".to_string())
    );
    let twice = sidecar(Some(1), vec![link("realized-by", "id:src.main"), link("realized-by", "id:src.main")]);
    assert_eq!(
        remove_link(&context(), &options, BASE, &twice),
        Err("link match is ambiguous: realized-by:id:src.main".to_string())
    );
}

#[test]
fn remove_link_keeps_other_items_and_comments() {
    let text = "id: docs.root\nlinks:\n  # first\n  - rel: realized-by\n    to: id:src.main\n  - rel: verified-by\n    to: id:tests.cli\nkind: doc\n";
    let sc = sidecar(None, vec![link("realized-by", "id:src.main"), link("verified-by", "id:tests.cli")]);
    let options = RemoveLinkOptions { common: common(), link: gl("realized-by", "id:src.main") };
    assert_eq!(
        remove_link(&context(), &options, text, &sc).unwrap(),
        "id: docs.root\nlinks:\n  # first\n  - rel: verified-by\n    to: id:tests.cli\nkind: doc\n"
    );
}

#[test]
fn update_link_replaces_target_and_refreshes_hint() {
    let text = "schemaVersion: 1\nlinks:\n  - rel: realized-by\n    to: id:src.main\n    pathHint: src/main.rs # hint\n";
    let mut l = link("realized-by", "id:src.main");
    l.path_hint = Some("src/main.rs".to_string());
    let sc = sidecar(Some(1), vec![l]);
    let mut options = update_options(gl("realized-by", "id:src.main"));
    options.new_link = Some(gl("verified-by", "id:tests.cli"));
    assert_eq!(
        update_link(&context(), &options, text, &sc).unwrap(),
        "schemaVersion: 1\nlinks:\n  - rel: verified-by\n    to: id:tests.cli\n    pathHint: tests/cli.rs # hint\n"
    );
}

#[test]
fn update_link_sets_and_clears_order_and_hint() {
    let sc = sidecar(Some(1), vec![link("realized-by", "id:src.main")]);
    let mut options = update_options(gl("realized-by", "id:src.main"));
    options.order = Some(-3);
    options.path_hint = true;
    let with = update_link(&context(), &options, BASE, &sc).unwrap();
    assert_eq!(with, "schemaVersion: 1\nid: docs.root\nlinks:\n  - rel: realized-by\n    to: id:src.main\n    pathHint: src/main.rs\n    order: -3\n");
    let mut l = link("realized-by", "id:src.main");
    l.order = Some(-3);
    l.path_hint = Some("src/main.rs".to_string());
    let sc2 = sidecar(Some(1), vec![l]);
    let mut clear = update_options(gl("realized-by", "id:src.main"));
    clear.clear_order = true;
    clear.clear_path_hint = true;
    assert_eq!(update_link(&context(), &clear, &with, &sc2).unwrap(), BASE);
}

#[test]
fn update_link_refuses_duplicate_result() {
    let text = "links:\n  - rel: realized-by\n    to: id:src.main\n  - rel: verified-by\n    to: id:tests.cli\n";
    let sc = sidecar(None, vec![link("realized-by", "id:src.main"), link("verified-by", "id:tests.cli")]);
    let mut options = update_options(gl("realized-by", "id:src.main"));
    options.new_link = Some(gl("verified-by", "id:tests.cli"));
    assert_eq!(
        update_link(&context(), &options, text, &sc),
        Err("updated link would duplicate existing link in docs/root.md.relaygraph.yaml: verified-by:id:tests.cli".to_string())
    );
}

fn ack(link_revision: Option<&str>) -> AcknowledgedRevisions {
    AcknowledgedRevisions {
        source_revision: "sha256:aa".to_string(),
        target_revision: "sha256:bb".to_string(),
        link_revision: link_revision.map(|s| s.to_string()),
    }
}

#[test]
fn update_link_reason_clears_acknowledgement_and_migrates_siblings() {
    let text = "schemaVersion: 2\nlinks:\n  - rel: realized-by\n    to: id:src.main\n    acknowledged:\n      sourceRevision: sha256:aa\n      targetRevision: sha256:bb\n  - rel: verified-by\n    to: id:tests.cli\n    acknowledged:\n      sourceRevision: sha256:aa\n      targetRevision: sha256:bb\n";
    let mut first = link("realized-by", "id:src.main");
    first.acknowledged = Some(ack(None));
    let mut second = link("verified-by", "id:tests.cli");
    second.acknowledged = Some(ack(None));
    let sc = sidecar(Some(2), vec![first, second]);
    let mut options = update_options(gl("realized-by", "id:src.main"));
    options.reason = Some("why".to_string());
    let updated = update_link(&context(), &options, text, &sc).unwrap();
    let sibling_revision = relaygraph::freshness::fingerprint_link_revision("verified-by", "id:tests.cli", None);
    assert_eq!(
        updated,
        format!("schemaVersion: 3\nlinks:\n  - rel: realized-by\n    to: id:src.main\n    reason: \"why\"\n  - rel: verified-by\n    to: id:tests.cli\n    acknowledged:\n      sourceRevision: sha256:aa\n      targetRevision: sha256:bb\n      linkRevision: {sibling_revision}\n")
    );
}

#[test]
fn update_link_same_reason_keeps_acknowledgement() {
    let revision = relaygraph::freshness::fingerprint_link_revision("realized-by", "id:src.main", Some("why"));
    let text = format!("schemaVersion: 3\nlinks:\n  - rel: realized-by\n    to: id:src.main\n    reason: \"why\"\n    acknowledged:\n      sourceRevision: sha256:aa\n      targetRevision: sha256:bb\n      linkRevision: {revision}\n");
    let mut l = link("realized-by", "id:src.main");
    l.reason = Some("why".to_string());
    l.acknowledged = Some(ack(Some(&revision)));
    let sc = sidecar(Some(3), vec![l]);
    let mut options = update_options(gl("realized-by", "id:src.main"));
    options.reason = Some("why".to_string());
    assert_eq!(update_link(&context(), &options, &text, &sc).unwrap(), text);
}

#[test]
fn update_options_must_change_something_consistently() {
    let base = update_options(gl("realized-by", "id:src.main"));
    assert_eq!(
        check_update_options(&base),
        Err("update requires --new, --path-hint, --clear-path-hint, --reason, --clear-reason, --order, or --clear-order".to_string())
    );
    let mut both_hint = update_options(gl("realized-by", "id:src.main"));
    both_hint.path_hint = true;
    both_hint.clear_path_hint = true;
    assert_eq!(check_update_options(&both_hint), Err("--path-hint and --clear-path-hint cannot be used together".to_string()));
    let mut both_reason = update_options(gl("realized-by", "id:src.main"));
    both_reason.reason = Some("x".to_string());
    both_reason.clear_reason = true;
    assert_eq!(check_update_options(&both_reason), Err("--reason and --clear-reason cannot be used together".to_string()));
    let mut both_order = update_options(gl("realized-by", "id:src.main"));
    both_order.order = Some(1);
    both_order.clear_order = true;
    assert_eq!(check_update_options(&both_order), Err("--order and --clear-order cannot be used together".to_string()));
    let mut fine = update_options(gl("realized-by", "id:src.main"));
    fine.order = Some(1);
    assert_eq!(check_update_options(&fine), Ok(()));
}

#[test]
fn acknowledge_records_revisions_and_raises_version_1_to_2() {
    let sc = sidecar(Some(1), vec![link("realized-by", "id:src.main")]);
    let options = AcknowledgeLinkOptions { common: common(), link: gl("realized-by", "id:src.main") };
    let target = acknowledge_target(&context(), &options, &sc).unwrap();
    assert_eq!(target.index, 0);
    assert_eq!(target.target_path, "src/main.rs");
    assert_eq!(target.link_revision, None);
    let updated = acknowledge_link(&context(), BASE, &sc, target.index, ack(None)).unwrap();
    assert_eq!(
        updated,
        "schemaVersion: 2\nid: docs.root\nlinks:\n  - rel: realized-by\n    to: id:src.main\n    acknowledged:\n      sourceRevision: sha256:aa\n      targetRevision: sha256:bb\n"
    );
}

#[test]
fn acknowledge_in_version_3_records_link_revision() {
    let text = "schemaVersion: 3\nlinks:\n  - rel: realized-by\n    to: id:src.main\n";
    let sc = sidecar(Some(3), vec![link("realized-by", "id:src.main")]);
    let options = AcknowledgeLinkOptions { common: common(), link: gl("realized-by", "id:src.main") };
    let target = acknowledge_target(&context(), &options, &sc).unwrap();
    let revision = relaygraph::freshness::fingerprint_link_revision("realized-by", "id:src.main", None);
    assert_eq!(target.link_revision, Some(revision.clone()));
    let updated = acknowledge_link(&context(), text, &sc, target.index, ack(Some(&revision))).unwrap();
    assert_eq!(
        updated,
        format!("schemaVersion: 3\nlinks:\n  - rel: realized-by\n    to: id:src.main\n    acknowledged:\n      sourceRevision: sha256:aa\n      targetRevision: sha256:bb\n      linkRevision: {revision}\n")
    );
}

#[test]
fn migration_is_a_no_op_at_version_3() {
    let mut l = link("realized-by", "id:src.main");
    l.acknowledged = Some(ack(None));
    let mut sc = sidecar(Some(3), vec![l]);
    assert_eq!(migrate_sidecar_to_v3("anything\n", &mut sc, None), Ok("anything\n".to_string()));
    assert_eq!(sc.schema_version, Some(3));
    assert_eq!(sc.links[0].acknowledged.as_ref().unwrap().link_revision, None);
}

#[test]
fn migration_adds_link_revision_to_inline_acknowledgement() {
    let text = "links:\n  - rel: realized-by\n    to: id:src.main\n    acknowledged: {sourceRevision: sha256:aa, targetRevision: sha256:bb} # kept\n";
    let mut l = link("realized-by", "id:src.main");
    l.acknowledged = Some(ack(None));
    let mut sc = sidecar(None, vec![l]);
    let updated = migrate_sidecar_to_v3(text, &mut sc, None).unwrap();
    let revision = relaygraph::freshness::fingerprint_link_revision("realized-by", "id:src.main", None);
    assert_eq!(
        updated,
        format!("schemaVersion: 3\nlinks:\n  - rel: realized-by\n    to: id:src.main\n    acknowledged: # kept\n      sourceRevision: sha256:aa\n      targetRevision: sha256:bb\n      linkRevision: {revision}\n")
    );
    assert_eq!(sc.schema_version, Some(3));
    assert_eq!(sc.links[0].acknowledged.as_ref().unwrap().link_revision, Some(revision));
}

#[test]
fn link_reason_must_not_be_blank() {
    assert_eq!(validate_link_reason(Some(" \t")), Err("link reason must not be empty or whitespace".to_string()));
    assert_eq!(validate_link_reason(Some("ok")), Ok(()));
    assert_eq!(validate_link_reason(None), Ok(()));
}

fn resource(path: &str, id: Option<&str>, sidecar: Option<&str>) -> Resource {
    Resource {
        path: path.to_string(),
        id: id.map(|s| s.to_string()),
        kind: None,
        sidecar: sidecar.map(|s| s.to_string()),
        metadata_json: "{}".to_string(),
        links: Vec::new(),
    }
}

#[test]
fn edit_source_must_be_an_attached_id_with_sidecar() {
    assert_eq!(edit_source_id("path:docs/root.md"), Err("link edit source must use an id: locator".to_string()));
    assert_eq!(edit_source_id("id:docs.root"), Ok("docs.root".to_string()));
    let resources = vec![
        resource("a.md", Some("a"), None),
        resource("docs/root.md", Some("docs.root"), Some("docs/root.md.relaygraph.yaml")),
    ];
    assert_eq!(locate_edit_source(&resources, "a").err(), Some("source id has no sidecar: a".to_string()));
    assert_eq!(
        locate_edit_source(&resources, "b").err(),
        Some("source id is not attached to a discovered resource: b".to_string())
    );
    let found = locate_edit_source(&resources, "docs.root").unwrap();
    assert_eq!(found.source_path, "docs/root.md");
    assert_eq!(found.sidecar_path, "docs/root.md.relaygraph.yaml");
}

#[test]
fn edit_context_is_blocked_by_unrepairable_diagnostics() {
    let diag = |code: &str, path: Option<&str>, message: &str| Diagnostic {
        code: code.to_string(),
        path: path.map(|s| s.to_string()),
        message: message.to_string(),
    };
    let graph = BuildResult {
        resources: vec![
            resource("docs/root.md", Some("docs.root"), Some("docs/root.md.relaygraph.yaml")),
            resource("src/main.rs", Some("src.main"), None),
            resource("x.md", None, None),
        ],
        diagnostics: vec![
            diag("unresolved-id", Some("docs/root.md.relaygraph.yaml"), "unresolved id locator: id:x"),
            diag("schema-error", Some("docs/root.md.relaygraph.yaml"), "link.acknowledged.linkRevision is required in sidecar schemaVersion 3"),
        ],
        plugins: vec![Plugin {
            schema_version: Some(1),
            name: "p".to_string(),
            resource_kinds: vec![],
            relations: vec!["realized-by".to_string()],
            rules: vec![],
            traversal: None,
        }],
    };
    let source = || EditSource { source_path: "docs/root.md".to_string(), sidecar_path: "docs/root.md.relaygraph.yaml".to_string() };
    assert_eq!(
        edit_context(&graph, source(), false).err(),
        Some("schema-error docs/root.md.relaygraph.yaml: link.acknowledged.linkRevision is required in sidecar schemaVersion 3".to_string())
    );
    let ctx = edit_context(&graph, source(), true).unwrap();
    assert_eq!(ctx.known_relations, vec!["realized-by".to_string()]);
    assert_eq!(ctx.ids, vec!["docs.root".to_string(), "src.main".to_string()]);
    assert_eq!(ctx.id_paths, vec!["docs/root.md".to_string(), "src/main.rs".to_string()]);
}

#[test]
fn update_link_refuses_empty_and_conflicting_options() {
    let sc = sidecar(Some(1), vec![link("realized-by", "id:src.main")]);
    let nothing = update_options(gl("realized-by", "id:src.main"));
    assert_eq!(
        update_link(&context(), &nothing, BASE, &sc),
        Err("update requires --new, --path-hint, --clear-path-hint, --reason, --clear-reason, --order, or --clear-order".to_string())
    );
    let mut both_hint = update_options(gl("realized-by", "id:src.main"));
    both_hint.path_hint = true;
    both_hint.clear_path_hint = true;
    assert_eq!(
        update_link(&context(), &both_hint, BASE, &sc),
        Err("--path-hint and --clear-path-hint cannot be used together".to_string())
    );
    let mut both_reason = update_options(gl("realized-by", "id:src.main"));
    both_reason.reason = Some("why".to_string());
    both_reason.clear_reason = true;
    assert_eq!(
        update_link(&context(), &both_reason, BASE, &sc),
        Err("--reason and --clear-reason cannot be used together".to_string())
    );
    let mut both_order = update_options(gl("realized-by", "id:src.main"));
    both_order.order = Some(1);
    both_order.clear_order = true;
    assert_eq!(
        update_link(&context(), &both_order, BASE, &sc),
        Err("--order and --clear-order cannot be used together".to_string())
    );
}
