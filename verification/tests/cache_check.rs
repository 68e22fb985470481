use relaygraph::cache_check::{
    cache_indexes, cache_tables, validate_cache_schema, CacheSchemaFacts, CacheTableFacts, ColumnsRead, ForeignKey,
    ForeignKeyCheck,
};

fn healthy() -> CacheSchemaFacts {
    CacheSchemaFacts {
        integrity: Ok("ok".to_string()),
        user_version: Ok(1),
        tables: cache_tables()
            .into_iter()
            .map(|t| CacheTableFacts { count: Ok(1), columns: ColumnsRead::Read(t.columns) })
            .collect(),
        indexes: cache_indexes().into_iter().map(|_| Ok(1)).collect(),
        foreign_keys: Ok(vec![ForeignKey {
            table: "resources".to_string(),
            from: "source_path".to_string(),
            to: "path".to_string(),
        }]),
        foreign_key_check: ForeignKeyCheck::Clean,
        schema_version: Ok(Some("1".to_string())),
    }
}

const P: &str = "._relaygraph/cache/relaygraph.sqlite";

#[test]
fn healthy_cache_is_accepted() {
    assert_eq!(validate_cache_schema(P, &healthy()), Ok(()));
    let tables: Vec<String> = cache_tables().into_iter().map(|t| t.name).collect();
    assert_eq!(tables, vec!["metadata", "plugins", "resources", "links", "diagnostics"]);
    assert_eq!(cache_indexes().len(), 5);
}

#[test]
fn cache_schema_validation_rejects_incomplete_schema() {
    let mut facts = healthy();
    facts.tables[1].count = Ok(0);
    let message = validate_cache_schema(P, &facts).unwrap_err();
    assert!(message.contains("run `relaygraph cache rebuild`"));
    assert!(message.contains("sqlite cache table plugins is missing"));
}

#[test]
fn cache_schema_validation_rejects_wrong_user_version() {
    let mut facts = healthy();
    facts.user_version = Ok(999);
    assert_eq!(
        validate_cache_schema(P, &facts),
        Err("unsupported sqlite cache user_version 999; expected 1; run `relaygraph cache rebuild`".to_string())
    );
}

#[test]
fn cache_schema_validation_rejects_missing_index() {
    let mut facts = healthy();
    facts.indexes[0] = Ok(0);
    assert_eq!(
        validate_cache_schema(P, &facts),
        Err(format!("sqlite cache index links_source_path_idx is missing in {P}; run `relaygraph cache rebuild`"))
    );
}

#[test]
fn cache_schema_validation_rejects_foreign_key_violations() {
    let mut facts = healthy();
    facts.foreign_key_check = ForeignKeyCheck::Violation;
    assert_eq!(
        validate_cache_schema(P, &facts),
        Err(format!("sqlite cache foreign key check failed in {P}; run `relaygraph cache rebuild`"))
    );
}

#[test]
fn cache_schema_validation_rejects_missing_foreign_key_definition() {
    let mut facts = healthy();
    facts.foreign_keys = Ok(vec![]);
    let message = validate_cache_schema(P, &facts).unwrap_err();
    assert!(message.contains("foreign key links.source_path -> resources.path is missing"));
    assert!(message.contains("run `relaygraph cache rebuild`"));
}

#[test]
fn cache_checks_report_each_failure_in_order() {
    let mut facts = healthy();
    facts.integrity = Ok("*** corrupt".to_string());
    facts.user_version = Ok(7);
    assert_eq!(
        validate_cache_schema(P, &facts),
        Err(format!("sqlite cache integrity check failed for {P}: *** corrupt; run `relaygraph cache rebuild`"))
    );
    let mut facts = healthy();
    facts.integrity = Err("disk I/O error".to_string());
    assert_eq!(
        validate_cache_schema(P, &facts),
        Err(format!("failed to verify sqlite cache integrity for {P}; run `relaygraph cache rebuild`: disk I/O error"))
    );
    let mut facts = healthy();
    facts.tables[3].columns = ColumnsRead::Read(vec!["source_path".to_string(), "rel".to_string()]);
    assert_eq!(
        validate_cache_schema(P, &facts),
        Err(format!("sqlite cache column links.target_locator is missing in {P}; run `relaygraph cache rebuild`"))
    );
    let mut facts = healthy();
    facts.tables[0].columns = ColumnsRead::QueryFailed("no such table".to_string());
    assert_eq!(validate_cache_schema(P, &facts), Err("no such table".to_string()));
}

#[test]
fn cache_schema_version_metadata_is_checked() {
    let mut facts = healthy();
    facts.schema_version = Ok(None);
    assert_eq!(
        validate_cache_schema(P, &facts),
        Err(format!("cache metadata is missing in {P}; run `relaygraph cache rebuild`"))
    );
    facts.schema_version = Ok(Some("2".to_string()));
    assert_eq!(
        validate_cache_schema(P, &facts),
        Err("unsupported cacheSchemaVersion 2; expected 1; run `relaygraph cache rebuild`".to_string())
    );
    facts.schema_version = Ok(Some("+1".to_string()));
    assert_eq!(validate_cache_schema(P, &facts), Ok(()));
    facts.schema_version = Ok(Some("one".to_string()));
    assert_eq!(
        validate_cache_schema(P, &facts),
        Err(format!("invalid cacheSchemaVersion \"one\" in {P}; run `relaygraph cache rebuild`: invalid digit found in string"))
    );
}
