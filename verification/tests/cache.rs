use relaygraph::cache::{cache_links, default_cache_path, resolve_cache_locator, resolve_cache_resource_path, CacheLink, CacheResource};

fn res(path: &str, id: Option<&str>) -> CacheResource {
    CacheResource { path: path.to_string(), id: id.map(|s| s.to_string()), kind: None, sidecar: None }
}

fn row(source: &str, rel: &str, locator: &str, target_path: Option<&str>, target_id: Option<&str>) -> CacheLink {
    CacheLink {
        source_path: source.to_string(),
        rel: rel.to_string(),
        target_locator: locator.to_string(),
        target_path: target_path.map(|s| s.to_string()),
        target_id: target_id.map(|s| s.to_string()),
        relation_rank: None,
        order: None,
    }
}

fn resources() -> Vec<CacheResource> {
    vec![res("a.md", Some("alpha")), res("b.md", Some("beta")), res("c.md", None), res("d.md", Some("dup")), res("e.md", Some("dup"))]
}

fn links() -> Vec<CacheLink> {
    vec![
        row("a.md", "x", "id:beta", Some("b.md"), Some("beta")),
        row("a.md", "y", "path:c.md", Some("c.md"), None),
        row("b.md", "x", "id:missing", None, Some("missing")),
        row("c.md", "x", "path:./b.md", Some("b.md"), None),
    ]
}

#[test]
fn cache_locators_resolve_to_resource_paths() {
    let rs = resources();
    assert_eq!(resolve_cache_locator(&rs, "id:alpha"), Ok(Some("a.md".to_string())));
    assert_eq!(resolve_cache_locator(&rs, "id:nobody"), Ok(None));
    assert_eq!(resolve_cache_locator(&rs, "path:./c.md"), Ok(Some("c.md".to_string())));
    assert_eq!(resolve_cache_locator(&rs, "path:z.md"), Ok(None));
    assert_eq!(resolve_cache_locator(&rs, "id:dup"), Err("ambiguous cache resource id: id:dup".to_string()));
    assert_eq!(resolve_cache_resource_path(&rs, "id:nobody"), Err("unknown cache resource locator: id:nobody".to_string()));
    assert_eq!(resolve_cache_resource_path(&rs, "path:../a.md"), Err("path must not contain parent traversal: ../a.md".to_string()));
    assert_eq!(default_cache_path(), "._relaygraph/cache/relaygraph.sqlite");
}

#[test]
fn cache_links_filter_by_source_relation_and_target() {
    let rs = resources();
    let ls = links();
    assert_eq!(cache_links(&rs, &ls, None, None, None), Ok(ls.clone()));
    assert_eq!(cache_links(&rs, &ls, Some("id:alpha"), None, None), Ok(vec![ls[0].clone(), ls[1].clone()]));
    assert_eq!(cache_links(&rs, &ls, Some("path:a.md"), None, Some("y")), Ok(vec![ls[1].clone()]));
    assert_eq!(cache_links(&rs, &ls, None, Some("path:b.md"), None), Ok(vec![ls[0].clone(), ls[3].clone()]));
    assert_eq!(cache_links(&rs, &ls, None, Some("id:beta"), None), Ok(vec![ls[0].clone(), ls[3].clone()]));
    assert_eq!(cache_links(&rs, &ls, None, Some("id:missing"), None), Ok(vec![ls[2].clone()]));
    assert_eq!(cache_links(&rs, &ls, Some("id:nobody"), None, None), Err("unknown cache resource locator: id:nobody".to_string()));
    assert_eq!(
        cache_links(&rs, &ls, None, Some("name:b"), None),
        Err("unsupported locator prefix: name:b".to_string())
    );
}
