use relaygraph::cache::CACHE_SCHEMA_SQL;

#[test]
fn cache_schema_documents_versioned_tables_and_indexes() {
    let schema = CACHE_SCHEMA_SQL;

    assert!(schema.contains("cacheSchemaVersion"));
    assert!(schema.contains("CREATE TABLE metadata"));
    assert!(schema.contains("CREATE TABLE plugins"));
    assert!(schema.contains("CREATE TABLE resources"));
    assert!(schema.contains("CREATE TABLE links"));
    assert!(schema.contains("CREATE TABLE diagnostics"));
    assert!(schema.contains("CREATE INDEX resources_id_idx"));
    assert!(schema.contains("relation_rank INTEGER"));
}

#[test]
fn cache_schema_applies_to_sqlite() {
    let connection = rusqlite::Connection::open_in_memory().unwrap();
    connection.execute_batch(CACHE_SCHEMA_SQL).unwrap();

    for table in ["metadata", "plugins", "resources", "links", "diagnostics"] {
        let count: i64 = connection
            .query_row(
                "SELECT COUNT(*) FROM sqlite_master WHERE type = 'table' AND name = ?1",
                [table],
                |row| row.get(0),
            )
            .unwrap();
        assert_eq!(count, 1, "missing table {table}");
    }
}
