//! Whether an existing SQLite cache has the layout this version writes,
//! judged from what its integrity and layout queries returned.
use vstd::prelude::*;

use crate::model::strs_view;
use crate::numfmt::decimal;
use crate::text::{cat, own};

verus! {

/// The advice that ends each refusal of a cache.
pub open spec fn rebuild_advice() -> Seq<char> {
    "; run `relaygraph cache rebuild`"@
}

/// A query failure in context: what failed, where, the advice, then the
/// error.
pub open spec fn query_failure(head: Seq<char>, p: Seq<char>, e: Seq<char>) -> Seq<char> {
    head + p + rebuild_advice() + ": "@ + e
}

/// A failed check: what is wrong, where, then the advice.
pub open spec fn check_failure(head: Seq<char>, p: Seq<char>, tail: Seq<char>) -> Seq<char> {
    head + p + tail + rebuild_advice()
}

/// A table of the cache with the columns it must have.
pub struct CacheTable {
    pub name: String,
    pub columns: Vec<String>,
}

/// The tables of the cache layout and their columns.
pub open spec fn expected_tables() -> Seq<(Seq<char>, Seq<Seq<char>>)> {
    seq![
        ("metadata"@, seq!["key"@, "value"@]),
        ("plugins"@, seq!["name"@, "traversal_json"@]),
        ("resources"@, seq!["path"@, "id"@, "kind"@, "sidecar"@, "metadata_json"@]),
        ("links"@, seq!["source_path"@, "rel"@, "target_locator"@, "target_path"@, "target_id"@, "relation_rank"@, "link_order"@]),
        ("diagnostics"@, seq!["code"@, "path"@, "message"@]),
    ]
}

/// The indexes of the cache layout.
pub open spec fn expected_indexes() -> Seq<Seq<char>> {
    seq!["links_source_path_idx"@, "links_target_path_idx"@, "links_target_id_idx"@, "resources_id_idx"@, "resources_kind_idx"@]
}

/// The view of a table of the layout.
pub open spec fn table_view(t: CacheTable) -> (Seq<char>, Seq<Seq<char>>) {
    (t.name@, strs_view(t.columns@))
}

/// A list of strings from literals.
fn strings(items: &[&str]) -> (r: Vec<String>)
    ensures
        r.len() == items.len(),
        forall|i: int| 0 <= i < items.len() ==> #[trigger] r@[i]@ == items@[i]@,
{
    let mut r: Vec<String> = Vec::new();
    let mut i: usize = 0;
    while i < items.len()
        invariant
            i <= items.len(),
            r.len() == i,
            forall|q: int| 0 <= q < i ==> #[trigger] r@[q]@ == items@[q]@,
        decreases items.len() - i,
    {
        r.push(own(items[i]));
        i += 1;
    }
    r
}

/// A table of the layout.
fn table(name: &str, columns: &[&str]) -> (r: CacheTable)
    ensures
        r.name@ == name@,
        strs_view(r.columns@) == columns@.map_values(|c: &str| c@),
{
    let columns = strings(columns);
    let r = CacheTable { name: own(name), columns };
    r
}

/// The tables of the cache layout, in the order they are checked.
pub fn cache_tables() -> (r: Vec<CacheTable>)
    ensures
        r@.map_values(|t: CacheTable| table_view(t)) == expected_tables(),
{
    let mut r: Vec<CacheTable> = Vec::new();
    r.push(table("metadata", &["key", "value"]));
    r.push(table("plugins", &["name", "traversal_json"]));
    r.push(table("resources", &["path", "id", "kind", "sidecar", "metadata_json"]));
    r.push(table("links", &["source_path", "rel", "target_locator", "target_path", "target_id", "relation_rank", "link_order"]));
    r.push(table("diagnostics", &["code", "path", "message"]));
    assert(r@.map_values(|t: CacheTable| table_view(t)) =~= expected_tables()) by {
        assert(strs_view(r@[0].columns@) =~= seq!["key"@, "value"@]);
        assert(strs_view(r@[1].columns@) =~= seq!["name"@, "traversal_json"@]);
        assert(strs_view(r@[2].columns@) =~= seq!["path"@, "id"@, "kind"@, "sidecar"@, "metadata_json"@]);
        assert(strs_view(r@[3].columns@) =~= seq!["source_path"@, "rel"@, "target_locator"@, "target_path"@, "target_id"@, "relation_rank"@, "link_order"@]);
        assert(strs_view(r@[4].columns@) =~= seq!["code"@, "path"@, "message"@]);
    }
    r
}

/// The indexes of the cache layout, in the order they are checked.
pub fn cache_indexes() -> (r: Vec<String>)
    ensures
        strs_view(r@) == expected_indexes(),
{
    let r = strings(&["links_source_path_idx", "links_target_path_idx", "links_target_id_idx", "resources_id_idx", "resources_kind_idx"]);
    assert(strs_view(r@) =~= expected_indexes());
    r
}

/// What reading a table's columns gave.
pub enum ColumnsRead {
    /// The column names.
    Read(Vec<String>),
    /// Preparing the `table_info` query failed.
    PrepareFailed(String),
    /// Running it failed.
    QueryFailed(String),
    /// Reading its rows failed.
    CollectFailed(String),
}

/// What the checks of one table read: how many tables have its name, and
/// its columns.
pub struct CacheTableFacts {
    pub count: Result<i64, String>,
    pub columns: ColumnsRead,
}

/// A foreign key of the `links` table: referenced table, column, and
/// referenced column.
pub struct ForeignKey {
    pub table: String,
    pub from: String,
    pub to: String,
}

/// What the foreign-key check gave.
pub enum ForeignKeyCheck {
    /// No row violates a foreign key.
    Clean,
    /// Some row does.
    Violation,
    /// Preparing the check failed.
    PrepareFailed(String),
    /// Running it failed.
    QueryFailed(String),
}

/// What the cache's integrity and layout queries returned, in the order
/// the checks use them; a failed query is kept as its error text.
pub struct CacheSchemaFacts {
    pub integrity: Result<String, String>,
    pub user_version: Result<u32, String>,
    /// One entry per table of `cache_tables`, in that order.
    pub tables: Vec<CacheTableFacts>,
    /// One entry per index of `cache_indexes`, in that order.
    pub indexes: Vec<Result<i64, String>>,
    pub foreign_keys: Result<Vec<ForeignKey>, String>,
    pub foreign_key_check: ForeignKeyCheck,
    /// The `cacheSchemaVersion` metadata value, if present.
    pub schema_version: Result<Option<String>, String>,
}

/// The first expected column from `k` on that `found` lacks.
pub open spec fn missing_column(expected: Seq<Seq<char>>, found: Seq<Seq<char>>, k: int) -> Option<Seq<char>>
    decreases expected.len() - k,
{
    if k < 0 || k >= expected.len() {
        None
    } else if !found.contains(expected[k]) {
        Some(expected[k])
    } else {
        missing_column(expected, found, k + 1)
    }
}

/// Why one table fails its check, if it does.
pub open spec fn table_problem(p: Seq<char>, name: Seq<char>, columns: Seq<Seq<char>>, f: CacheTableFacts) -> Option<Seq<char>> {
    match f.count {
        Err(e) => Some(query_failure("failed to inspect sqlite cache tables in "@, p, e@)),
        Ok(n) => if n != 1 {
            Some(check_failure("sqlite cache table "@ + name + " is missing in "@, p, seq![]))
        } else {
            match f.columns {
                ColumnsRead::PrepareFailed(e) => Some(query_failure("failed to inspect sqlite cache table "@ + name + " in "@, p, e@)),
                ColumnsRead::QueryFailed(e) => Some(e@),
                ColumnsRead::CollectFailed(e) => Some(query_failure("failed to read sqlite cache columns for "@ + name + " in "@, p, e@)),
                ColumnsRead::Read(found) => match missing_column(columns, strs_view(found@), 0) {
                    Some(c) => Some(check_failure("sqlite cache column "@ + name + "."@ + c + " is missing in "@, p, seq![])),
                    None => None,
                },
            }
        },
    }
}

/// The first problem among the tables from `k` on.
pub open spec fn tables_problem(p: Seq<char>, facts: Seq<CacheTableFacts>, k: int) -> Option<Seq<char>>
    decreases expected_tables().len() - k,
{
    if k < 0 || k >= expected_tables().len() || k >= facts.len() {
        None
    } else {
        match table_problem(p, expected_tables()[k].0, expected_tables()[k].1, facts[k]) {
            Some(m) => Some(m),
            None => tables_problem(p, facts, k + 1),
        }
    }
}

/// The first problem among the indexes from `k` on.
pub open spec fn indexes_problem(p: Seq<char>, facts: Seq<Result<i64, String>>, k: int) -> Option<Seq<char>>
    decreases expected_indexes().len() - k,
{
    if k < 0 || k >= expected_indexes().len() || k >= facts.len() {
        None
    } else {
        match facts[k] {
            Err(e) => Some(query_failure("failed to inspect sqlite cache indexes in "@, p, e@)),
            Ok(n) => if n != 1 {
                Some(check_failure("sqlite cache index "@ + expected_indexes()[k] + " is missing in "@, p, seq![]))
            } else {
                indexes_problem(p, facts, k + 1)
            },
        }
    }
}

/// Whether `links.source_path` references `resources.path`.
pub open spec fn has_source_key(keys: Seq<ForeignKey>) -> bool {
    exists|i: int| 0 <= i < keys.len() && #[trigger] keys[i].table@ == "resources"@ && keys[i].from@ == "source_path"@
        && keys[i].to@ == "path"@
}

/// Why the foreign keys fail their check, if they do.
pub open spec fn foreign_key_problem(p: Seq<char>, keys: Result<Vec<ForeignKey>, String>, check: ForeignKeyCheck) -> Option<Seq<char>> {
    match keys {
        Err(e) => Some(query_failure("failed to inspect sqlite cache foreign key definitions in "@, p, e@)),
        Ok(k) => if !has_source_key(k@) {
            Some(check_failure("sqlite cache foreign key links.source_path -> resources.path is missing in "@, p, seq![]))
        } else {
            match check {
                ForeignKeyCheck::Clean => None,
                ForeignKeyCheck::Violation => Some(check_failure("sqlite cache foreign key check failed in "@, p, seq![])),
                ForeignKeyCheck::PrepareFailed(e) => Some(query_failure("failed to inspect sqlite cache foreign keys in "@, p, e@)),
                ForeignKeyCheck::QueryFailed(e) => Some(e@),
            }
        },
    }
}

/// The value of a run of ASCII digits.
pub open spec fn digits_value(s: Seq<char>) -> nat
    decreases s.len(),
{
    if s.len() == 0 {
        0
    } else {
        digits_value(s.drop_last()) * 10 + ((s.last() as u32) - ('0' as u32)) as nat
    }
}

/// The digits of a `u32` text: what follows an optional leading `+`.
pub open spec fn u32_digits(s: Seq<char>) -> Seq<char> {
    if s.len() > 0 && s[0] == '+' {
        s.skip(1)
    } else {
        s
    }
}

/// Whether `u32::from_str` accepts `s`: an optional `+`, then one or more
/// ASCII digits whose value fits in a `u32`.
pub open spec fn parses_as_u32(s: Seq<char>) -> bool {
    let d = u32_digits(s);
    &&& d.len() > 0
    &&& forall|i: int| 0 <= i < d.len() ==> '0' <= #[trigger] d[i] <= '9'
    &&& digits_value(d) <= u32::MAX
}

/// The message of the error `u32::from_str` gives for `s`.
pub uninterp spec fn u32_parse_error(s: Seq<char>) -> Seq<char>;

/// `u32::from_str` (std): an optional `+`, then decimal digits whose value
/// fits, is accepted and gives that value; anything else is refused with
/// the error's message, which depends on the text alone.
#[verifier::external_body]
fn parse_u32(s: &str) -> (r: Result<u32, String>)
    ensures
        r is Ok <==> parses_as_u32(s@),
        r matches Ok(n) ==> n as nat == digits_value(u32_digits(s@)),
        r matches Err(e) ==> e@ == u32_parse_error(s@),
{
    match s.parse::<u32>() {
        Ok(n) => Ok(n),
        Err(e) => Err(e.to_string()),
    }
}

/// The `Debug` rendering of a string: quoted, with escapes.
pub uninterp spec fn debug_text(s: Seq<char>) -> Seq<char>;

/// The `Debug` rendering of a string (std `format!("{:?}")`), a function of
/// the text alone.
#[verifier::external_body]
fn debug_quoted(s: &str) -> (r: String)
    ensures
        r@ == debug_text(s@),
{
    format!("{:?}", s)
}

/// Why the recorded schema version is refused, if it is.
pub open spec fn version_problem(p: Seq<char>, version: Result<Option<String>, String>) -> Option<Seq<char>> {
    match version {
        Err(e) => Some(query_failure("failed to read cache metadata from "@, p, e@)),
        Ok(None) => Some(check_failure("cache metadata is missing in "@, p, seq![])),
        Ok(Some(v)) => if !parses_as_u32(v@) {
            Some(query_failure("invalid cacheSchemaVersion "@ + debug_text(v@) + " in "@, p, u32_parse_error(v@)))
        } else if digits_value(u32_digits(v@)) != 1 {
            Some("unsupported cacheSchemaVersion "@ + decimal(digits_value(u32_digits(v@))) + "; expected 1"@ + rebuild_advice())
        } else {
            None
        },
    }
}

/// Why the cache at `p` is refused, if it is: integrity, user version,
/// tables and columns, indexes, foreign keys, then the recorded schema
/// version, the first failure winning.
pub open spec fn schema_problem(p: Seq<char>, f: CacheSchemaFacts) -> Option<Seq<char>> {
    match f.integrity {
        Err(e) => Some(query_failure("failed to verify sqlite cache integrity for "@, p, e@)),
        Ok(s) => if s@ != "ok"@ {
            Some(check_failure("sqlite cache integrity check failed for "@, p, ": "@ + s@))
        } else {
            match f.user_version {
                Err(e) => Some(query_failure("failed to read sqlite cache user_version from "@, p, e@)),
                Ok(v) => if v != 1 {
                    Some("unsupported sqlite cache user_version "@ + decimal(v as nat) + "; expected 1"@ + rebuild_advice())
                } else {
                    match tables_problem(p, f.tables@, 0) {
                        Some(m) => Some(m),
                        None => match indexes_problem(p, f.indexes@, 0) {
                            Some(m) => Some(m),
                            None => match foreign_key_problem(p, f.foreign_keys, f.foreign_key_check) {
                                Some(m) => Some(m),
                                None => version_problem(p, f.schema_version),
                            },
                        },
                    }
                },
            }
        },
    }
}

// ---------------------------------------------------------------------------
// The checks
// ---------------------------------------------------------------------------

/// A query failure in context.
fn query_failure_exec(head: String, p: &str, e: &str) -> (r: String)
    ensures
        r@ == query_failure(head@, p@, e@),
{
    let mut r = head;
    r.append(p);
    r.append("; run `relaygraph cache rebuild`");
    r.append(": ");
    r.append(e);
    r
}

/// A failed check in context.
fn check_failure_exec(head: String, p: &str, tail: &str) -> (r: String)
    ensures
        r@ == check_failure(head@, p@, tail@),
{
    let mut r = head;
    r.append(p);
    r.append(tail);
    r.append("; run `relaygraph cache rebuild`");
    r
}

/// A failed check in context, with nothing between the path and the
/// advice.
fn check_failure_at(head: String, p: &str) -> (r: String)
    ensures
        r@ == check_failure(head@, p@, seq![]),
{
    let mut r = head;
    r.append(p);
    r.append("; run `relaygraph cache rebuild`");
    assert(r@ =~= check_failure(head@, p@, seq![]));
    r
}

/// The first expected column that `found` lacks.
fn find_missing_column(expected: &Vec<String>, found: &Vec<String>) -> (r: Option<String>)
    ensures
        crate::model::opt_view(r) == missing_column(strs_view(expected@), strs_view(found@), 0),
{
    let ghost ev = strs_view(expected@);
    let mut k: usize = 0;
    while k < expected.len()
        invariant
            k <= expected.len(),
            ev == strs_view(expected@),
            missing_column(ev, strs_view(found@), 0) == missing_column(ev, strs_view(found@), k as int),
        decreases expected.len() - k,
    {
        assert(ev[k as int] == expected@[k as int]@);
        if !crate::model::vec_contains(found, expected[k].as_str()) {
            return Some(expected[k].clone());
        }
        k += 1;
    }
    None
}

/// Why one table fails its check, if it does.
fn find_table_problem(p: &str, t: &CacheTable, f: &CacheTableFacts) -> (r: Option<String>)
    ensures
        crate::model::opt_view(r) == table_problem(p@, t.name@, strs_view(t.columns@), *f),
{
    match &f.count {
        Err(e) => Some(query_failure_exec(own("failed to inspect sqlite cache tables in "), p, e.as_str())),
        Ok(n) => if *n != 1 {
            let mut head = cat("sqlite cache table ", t.name.as_str());
            head.append(" is missing in ");
            Some(check_failure_at(head, p))
        } else {
            match &f.columns {
                ColumnsRead::PrepareFailed(e) => {
                    let mut head = cat("failed to inspect sqlite cache table ", t.name.as_str());
                    head.append(" in ");
                    Some(query_failure_exec(head, p, e.as_str()))
                },
                ColumnsRead::QueryFailed(e) => Some(e.clone()),
                ColumnsRead::CollectFailed(e) => {
                    let mut head = cat("failed to read sqlite cache columns for ", t.name.as_str());
                    head.append(" in ");
                    Some(query_failure_exec(head, p, e.as_str()))
                },
                ColumnsRead::Read(found) => match find_missing_column(&t.columns, found) {
                    Some(c) => {
                        let mut head = cat("sqlite cache column ", t.name.as_str());
                        head.append(".");
                        head.append(c.as_str());
                        head.append(" is missing in ");
                        Some(check_failure_at(head, p))
                    },
                    None => None,
                },
            }
        },
    }
}

/// The first problem among the tables.
fn find_tables_problem(p: &str, tables: &Vec<CacheTable>, facts: &Vec<CacheTableFacts>) -> (r: Option<String>)
    requires
        tables@.map_values(|t: CacheTable| table_view(t)) == expected_tables(),
    ensures
        crate::model::opt_view(r) == tables_problem(p@, facts@, 0),
{
    let ghost tv = tables@.map_values(|t: CacheTable| table_view(t));
    let mut k: usize = 0;
    while k < tables.len() && k < facts.len()
        invariant
            k <= tables.len(),
            tv == tables@.map_values(|t: CacheTable| table_view(t)),
            tv == expected_tables(),
            tables_problem(p@, facts@, 0) == tables_problem(p@, facts@, k as int),
        decreases tables.len() - k,
    {
        assert(tv[k as int] == table_view(tables@[k as int]));
        match find_table_problem(p, &tables[k], &facts[k]) {
            Some(m) => { return Some(m); },
            None => {},
        }
        k += 1;
    }
    None
}

/// The first problem among the indexes.
fn find_indexes_problem(p: &str, indexes: &Vec<String>, facts: &Vec<Result<i64, String>>) -> (r: Option<String>)
    requires
        strs_view(indexes@) == expected_indexes(),
    ensures
        crate::model::opt_view(r) == indexes_problem(p@, facts@, 0),
{
    let mut k: usize = 0;
    while k < indexes.len() && k < facts.len()
        invariant
            k <= indexes.len(),
            strs_view(indexes@) == expected_indexes(),
            indexes_problem(p@, facts@, 0) == indexes_problem(p@, facts@, k as int),
        decreases indexes.len() - k,
    {
        assert(strs_view(indexes@)[k as int] == indexes@[k as int]@);
        match &facts[k] {
            Err(e) => { return Some(query_failure_exec(own("failed to inspect sqlite cache indexes in "), p, e.as_str())); },
            Ok(n) => if *n != 1 {
                let mut head = cat("sqlite cache index ", indexes[k].as_str());
                head.append(" is missing in ");
                return Some(check_failure_at(head, p));
            },
        }
        k += 1;
    }
    None
}

/// Whether `links.source_path` references `resources.path`.
fn find_source_key(keys: &Vec<ForeignKey>) -> (r: bool)
    ensures
        r == has_source_key(keys@),
{
    let mut i: usize = 0;
    while i < keys.len()
        invariant
            i <= keys.len(),
            forall|q: int| 0 <= q < i ==> !(#[trigger] keys@[q].table@ == "resources"@ && keys@[q].from@ == "source_path"@
                && keys@[q].to@ == "path"@),
        decreases keys.len() - i,
    {
        let k = &keys[i];
        if crate::text::text_eq(k.table.as_str(), "resources") && crate::text::text_eq(k.from.as_str(), "source_path")
            && crate::text::text_eq(k.to.as_str(), "path") {
            return true;
        }
        i += 1;
    }
    false
}

/// Why the foreign keys fail their check, if they do.
fn find_foreign_key_problem(p: &str, keys: &Result<Vec<ForeignKey>, String>, check: &ForeignKeyCheck) -> (r: Option<String>)
    ensures
        crate::model::opt_view(r) == foreign_key_problem(p@, *keys, *check),
{
    match keys {
        Err(e) => Some(query_failure_exec(own("failed to inspect sqlite cache foreign key definitions in "), p, e.as_str())),
        Ok(k) => if !find_source_key(k) {
            Some(check_failure_at(own("sqlite cache foreign key links.source_path -> resources.path is missing in "), p))
        } else {
            match check {
                ForeignKeyCheck::Clean => None,
                ForeignKeyCheck::Violation => Some(check_failure_at(own("sqlite cache foreign key check failed in "), p)),
                ForeignKeyCheck::PrepareFailed(e) => Some(query_failure_exec(own("failed to inspect sqlite cache foreign keys in "), p, e.as_str())),
                ForeignKeyCheck::QueryFailed(e) => Some(e.clone()),
            }
        },
    }
}

/// Why the recorded schema version is refused, if it is.
fn find_version_problem(p: &str, version: &Result<Option<String>, String>) -> (r: Option<String>)
    ensures
        crate::model::opt_view(r) == version_problem(p@, *version),
{
    match version {
        Err(e) => Some(query_failure_exec(own("failed to read cache metadata from "), p, e.as_str())),
        Ok(None) => Some(check_failure_at(own("cache metadata is missing in "), p)),
        Ok(Some(v)) => match parse_u32(v.as_str()) {
            Err(pe) => {
                let mut head = own("invalid cacheSchemaVersion ");
                head.append(debug_quoted(v.as_str()).as_str());
                head.append(" in ");
                Some(query_failure_exec(head, p, pe.as_str()))
            },
            Ok(n) => if n != 1 {
                let mut m = own("unsupported cacheSchemaVersion ");
                m.append(crate::numfmt::decimal_string(n as u64).as_str());
                m.append("; expected 1");
                m.append("; run `relaygraph cache rebuild`");
                Some(m)
            } else {
                None
            },
        },
    }
}

/// Refuses a cache whose integrity, layout or recorded version does not
/// match what this version writes; `p` is the cache path as shown in
/// messages, and the facts hold one entry per expected table and index.
pub fn validate_cache_schema(p: &str, facts: &CacheSchemaFacts) -> (r: Result<(), String>)
    requires
        facts.tables.len() == expected_tables().len(),
        facts.indexes.len() == expected_indexes().len(),
    ensures
        match schema_problem(p@, *facts) {
            None => r is Ok,
            Some(m) => r matches Err(e) && e@ == m,
        },
{
    proof { reveal_strlit("ok"); }
    match &facts.integrity {
        Err(e) => { return Err(query_failure_exec(own("failed to verify sqlite cache integrity for "), p, e.as_str())); },
        Ok(s) => if !crate::text::text_eq(s.as_str(), "ok") {
            let tail = cat(": ", s.as_str());
            return Err(check_failure_exec(own("sqlite cache integrity check failed for "), p, tail.as_str()));
        },
    }
    match &facts.user_version {
        Err(e) => { return Err(query_failure_exec(own("failed to read sqlite cache user_version from "), p, e.as_str())); },
        Ok(v) => if *v != 1 {
            let mut m = own("unsupported sqlite cache user_version ");
            m.append(crate::numfmt::decimal_string(*v as u64).as_str());
            m.append("; expected 1");
            m.append("; run `relaygraph cache rebuild`");
            return Err(m);
        },
    }
    let tables = cache_tables();
    if let Some(m) = find_tables_problem(p, &tables, &facts.tables) {
        return Err(m);
    }
    let indexes = cache_indexes();
    if let Some(m) = find_indexes_problem(p, &indexes, &facts.indexes) {
        return Err(m);
    }
    if let Some(m) = find_foreign_key_problem(p, &facts.foreign_keys, &facts.foreign_key_check) {
        return Err(m);
    }
    match find_version_problem(p, &facts.schema_version) {
        Some(m) => Err(m),
        None => Ok(()),
    }
}

} // verus!
