//! Queries over the rows of the SQLite cache: locator resolution, link
//! filtering and tracing.
use vstd::prelude::*;

use crate::locator::{locator_spec, parse_locator};
use crate::model::{opt_view, strs_view, Direction, Locator};
use crate::text::{cat, own, text_less, text_order, TextOrder};
use crate::traverse::{depth_first_order, dfs_order, entry_neighbors, AdjEntry};
use crate::util::strict_path;

verus! {

/// The statements that create the cache schema (version 1).
pub const CACHE_SCHEMA_SQL: &'static str = "-- RelayGraph cache schema. metadata.cacheSchemaVersion and PRAGMA user_version both hold the schema version.
CREATE TABLE metadata (
    key TEXT PRIMARY KEY NOT NULL,
    value TEXT NOT NULL
);

CREATE TABLE plugins (
    name TEXT PRIMARY KEY NOT NULL,
    traversal_json TEXT NOT NULL
);

CREATE TABLE resources (
    path TEXT PRIMARY KEY NOT NULL,
    id TEXT,
    kind TEXT,
    sidecar TEXT,
    metadata_json TEXT NOT NULL
);

CREATE TABLE links (
    source_path TEXT NOT NULL REFERENCES resources(path),
    rel TEXT NOT NULL,
    target_locator TEXT NOT NULL,
    target_path TEXT,
    target_id TEXT,
    relation_rank INTEGER,
    link_order INTEGER
);

CREATE TABLE diagnostics (
    code TEXT NOT NULL,
    path TEXT,
    message TEXT NOT NULL
);

CREATE INDEX links_source_path_idx ON links(source_path);
CREATE INDEX links_target_path_idx ON links(target_path);
CREATE INDEX links_target_id_idx ON links(target_id);
CREATE INDEX resources_id_idx ON resources(id);
CREATE INDEX resources_kind_idx ON resources(kind);
";

/// The cache's default location under the reserved generated directory.
pub fn default_cache_path() -> (r: String)
    ensures
        r@ == "._relaygraph/cache/relaygraph.sqlite"@,
{
    own("._relaygraph/cache/relaygraph.sqlite")
}

/// A row of the `resources` table.
#[derive(Debug, Clone, PartialEq, Eq)]
pub struct CacheResource {
    pub path: String,
    pub id: Option<String>,
    pub kind: Option<String>,
    pub sidecar: Option<String>,
}

/// A row of the `links` table.
#[derive(Debug, Clone, PartialEq, Eq)]
pub struct CacheLink {
    pub source_path: String,
    pub rel: String,
    pub target_locator: String,
    pub target_path: Option<String>,
    pub target_id: Option<String>,
    pub relation_rank: Option<i64>,
    pub order: Option<i64>,
}

impl CacheLink {
    /// A field-for-field copy.
    pub fn duplicate(&self) -> (r: Self)
        ensures
            r == *self,
    {
        CacheLink {
            source_path: self.source_path.clone(),
            rel: self.rel.clone(),
            target_locator: self.target_locator.clone(),
            target_path: crate::model::copy_opt(&self.target_path),
            target_id: crate::model::copy_opt(&self.target_id),
            relation_rank: self.relation_rank,
            order: self.order,
        }
    }
}

/// A row of the `diagnostics` table.
#[derive(Debug, Clone, PartialEq, Eq)]
pub struct CacheDiagnostic {
    pub code: String,
    pub path: Option<String>,
    pub message: String,
}

/// The paths of the resources with id `id`, in row order.
pub open spec fn paths_with_id(resources: Seq<CacheResource>, id: Seq<char>) -> Seq<Seq<char>>
    decreases resources.len(),
{
    if resources.len() == 0 {
        seq![]
    } else {
        let rest = paths_with_id(resources.drop_last(), id);
        if opt_view(resources.last().id) == Some(id) {
            rest.push(resources.last().path@)
        } else {
            rest
        }
    }
}

/// Whether a resource row has path `p`.
pub open spec fn has_path(resources: Seq<CacheResource>, p: Seq<char>) -> bool {
    exists|i: int| 0 <= i < resources.len() && #[trigger] resources[i].path@ == p
}

/// The resource a locator names in the cache (`None` when none does), or the
/// error text of a malformed locator or an id that several resources share.
pub open spec fn cache_locator_spec(resources: Seq<CacheResource>, locator: Seq<char>) -> Result<Option<Seq<char>>, Seq<char>> {
    match locator_spec(locator) {
        Err(m) => Err(m),
        Ok((true, id)) => {
            let ps = paths_with_id(resources, id);
            if ps.len() == 0 {
                Ok(None)
            } else if ps.len() == 1 {
                Ok(Some(ps[0]))
            } else {
                Err("ambiguous cache resource id: "@ + locator)
            }
        },
        Ok((false, p)) => match strict_path(p) {
            Err(m) => Err(m),
            Ok(n) => if has_path(resources, n) {
                Ok(Some(n))
            } else {
                Ok(None)
            },
        },
    }
}

/// The resource a locator names in the cache, or the error text.
pub open spec fn cache_resource_spec(resources: Seq<CacheResource>, locator: Seq<char>) -> Result<Seq<char>, Seq<char>> {
    match cache_locator_spec(resources, locator) {
        Err(m) => Err(m),
        Ok(Some(p)) => Ok(p),
        Ok(None) => Err("unknown cache resource locator: "@ + locator),
    }
}

/// View of an optional-path result.
pub open spec fn opt_result_view(r: Result<Option<String>, String>) -> Result<Option<Seq<char>>, Seq<char>> {
    match r {
        Ok(o) => Ok(opt_view(o)),
        Err(e) => Err(e@),
    }
}

} // verus!

verus! {

/// The resource a locator names among the cache rows (the rows' paths are
/// unique, as the table's key makes them).
pub fn resolve_cache_locator(resources: &Vec<CacheResource>, locator: &str) -> (r: Result<Option<String>, String>)
    ensures
        opt_result_view(r) == cache_locator_spec(resources@, locator@),
{
    proof { reveal_strlit("ambiguous cache resource id: "); }
    match parse_locator(locator) {
        Err(m) => Err(m),
        Ok(Locator::Id(id)) => {
            let mut found: Vec<String> = Vec::new();
            let mut i: usize = 0;
            while i < resources.len()
                invariant
                    i <= resources.len(),
                    strs_view(found@) == paths_with_id(resources@.take(i as int), id@),
                    locator_spec(locator@) == Ok::<(bool, Seq<char>), Seq<char>>((true, id@)),
                decreases resources.len() - i,
            {
                assert(resources@.take(i + 1).drop_last() =~= resources@.take(i as int));
                let hit = match &resources[i].id {
                    Some(x) => crate::text::text_eq(x.as_str(), id.as_str()),
                    None => false,
                };
                if hit {
                    let ghost prev = found@;
                    found.push(resources[i].path.clone());
                    assert(strs_view(found@) =~= strs_view(prev).push(resources@[i as int].path@));
                }
                i += 1;
            }
            assert(resources@.take(resources.len() as int) =~= resources@);
            if found.len() == 0 {
                Ok(None)
            } else if found.len() == 1 {
                assert(strs_view(found@)[0] == found@[0]@);
                Ok(Some(found[0].clone()))
            } else {
                Err(cat("ambiguous cache resource id: ", locator))
            }
        },
        Ok(Locator::Path(p)) => {
            let n = match crate::util::normalize_repo_path_strict(p.as_str()) {
                Ok(n) => n,
                Err(m) => return Err(m),
            };
            let mut i: usize = 0;
            while i < resources.len()
                invariant
                    i <= resources.len(),
                    forall|q: int| 0 <= q < i ==> resources@[q].path@ != n@,
                    locator_spec(locator@) == Ok::<(bool, Seq<char>), Seq<char>>((false, p@)),
                    strict_path(p@) == Ok::<Seq<char>, Seq<char>>(n@),
                decreases resources.len() - i,
            {
                if crate::text::text_eq(resources[i].path.as_str(), n.as_str()) {
                    assert(resources@[i as int].path@ == n@);
                    assert(has_path(resources@, n@));
                    return Ok(Some(n));
                }
                i += 1;
            }
            Ok(None)
        },
    }
}

/// The resource a locator names among the cache rows, or the error text.
pub fn resolve_cache_resource_path(resources: &Vec<CacheResource>, locator: &str) -> (r: Result<String, String>)
    ensures
        crate::util::result_view(r) == cache_resource_spec(resources@, locator@),
{
    proof { reveal_strlit("unknown cache resource locator: "); }
    match resolve_cache_locator(resources, locator) {
        Err(m) => Err(m),
        Ok(Some(p)) => Ok(p),
        Ok(None) => Err(cat("unknown cache resource locator: ", locator)),
    }
}

// ---------------------------------------------------------------------------
// Link queries
// ---------------------------------------------------------------------------

/// The path a `path:` locator names, when it is well formed.
pub open spec fn locator_target_path(locator: Seq<char>) -> Option<Seq<char>> {
    match locator_spec(locator) {
        Ok((false, p)) => match strict_path(p) {
            Ok(n) => Some(n),
            Err(_) => None,
        },
        _ => None,
    }
}

/// Whether link `l` passes the filters: its source, its relation, and its
/// target (by id, or by path through its resolved path or its locator).
pub open spec fn link_kept(l: CacheLink, from_path: Option<Seq<char>>, rel: Option<Seq<char>>, to: Option<(bool, Seq<char>)>, to_path: Option<Seq<char>>) -> bool {
    &&& (from_path matches Some(p) ==> l.source_path@ == p)
    &&& (rel matches Some(r) ==> l.rel@ == r)
    &&& match to {
        Some((true, id)) => opt_view(l.target_id) == Some(id) || (to_path matches Some(tp) && opt_view(l.target_path) == Some(tp)),
        Some((false, path)) => match strict_path(path) {
            Ok(n) => opt_view(l.target_path) == Some(n) || locator_target_path(l.target_locator@) == Some(n),
            Err(_) => false,
        },
        None => true,
    }
}

/// The links that pass the filters, in row order.
pub open spec fn kept_links(links: Seq<CacheLink>, from_path: Option<Seq<char>>, rel: Option<Seq<char>>, to: Option<(bool, Seq<char>)>, to_path: Option<Seq<char>>) -> Seq<CacheLink>
    decreases links.len(),
{
    if links.len() == 0 {
        seq![]
    } else {
        let rest = kept_links(links.drop_last(), from_path, rel, to, to_path);
        if link_kept(links.last(), from_path, rel, to, to_path) {
            rest.push(links.last())
        } else {
            rest
        }
    }
}

/// View of an optional locator.
pub open spec fn locator_opt_view(o: Option<Locator>) -> Option<(bool, Seq<char>)> {
    match o {
        Some(l) => Some(crate::locator::locator_view(l)),
        None => None,
    }
}

/// View of an optional string argument.
pub open spec fn opt_str(o: Option<&str>) -> Option<Seq<char>> {
    match o {
        Some(s) => Some(s@),
        None => None,
    }
}

/// What `cache_links` gives: the filtered links, or the error of resolving
/// the `from` locator, parsing the `to` locator or resolving it.
pub open spec fn cache_links_spec(resources: Seq<CacheResource>, links: Seq<CacheLink>, from: Option<Seq<char>>, to: Option<Seq<char>>, rel: Option<Seq<char>>) -> Result<Seq<CacheLink>, Seq<char>> {
    let from_r: Result<Option<Seq<char>>, Seq<char>> = match from {
        Some(f) => match cache_resource_spec(resources, f) {
            Ok(p) => Ok(Some(p)),
            Err(m) => Err(m),
        },
        None => Ok(None),
    };
    match from_r {
        Err(m) => Err(m),
        Ok(from_path) => match to {
            None => Ok(kept_links(links, from_path, rel, None, None)),
            Some(t) => match locator_spec(t) {
                Err(m) => Err(m),
                Ok(loc) => match cache_locator_spec(resources, t) {
                    Err(m) => Err(m),
                    Ok(tp) => Ok(kept_links(links, from_path, rel, Some(loc), tp)),
                },
            },
        },
    }
}

/// The links of the cache that pass the filters, in row order.
pub fn cache_links(resources: &Vec<CacheResource>, links: &Vec<CacheLink>, from: Option<&str>, to: Option<&str>, rel: Option<&str>) -> (r: Result<Vec<CacheLink>, String>)
    ensures
        match cache_links_spec(resources@, links@, opt_str(from), opt_str(to), opt_str(rel)) {
            Ok(ls) => r matches Ok(v) && v@ == ls,
            Err(m) => r matches Err(e) && e@ == m,
        },
{
    let from_path: Option<String> = match from {
        Some(f) => match resolve_cache_resource_path(resources, f) {
            Ok(p) => Some(p),
            Err(m) => return Err(m),
        },
        None => None,
    };
    let target: Option<Locator> = match to {
        Some(t) => match parse_locator(t) {
            Ok(l) => Some(l),
            Err(m) => return Err(m),
        },
        None => None,
    };
    let to_path: Option<String> = match to {
        Some(t) => match resolve_cache_locator(resources, t) {
            Ok(o) => o,
            Err(m) => return Err(m),
        },
        None => None,
    };
    let ghost fp = opt_view(from_path);
    let ghost tv = locator_opt_view(target);
    let ghost tp = opt_view(to_path);
    let mut out: Vec<CacheLink> = Vec::new();
    let mut i: usize = 0;
    while i < links.len()
        invariant
            i <= links.len(),
            fp == opt_view(from_path),
            tp == opt_view(to_path),
            tv == locator_opt_view(target),
            out@ == kept_links(links@.take(i as int), fp, opt_str(rel), tv, tp),
        decreases links.len() - i,
    {
        assert(links@.take(i + 1).drop_last() =~= links@.take(i as int));
        let l = &links[i];
        let mut keep = true;
        if let Some(p) = &from_path {
            if !crate::text::text_eq(l.source_path.as_str(), p.as_str()) {
                keep = false;
            }
        }
        if let Some(rl) = rel {
            if !crate::text::text_eq(l.rel.as_str(), rl) {
                keep = false;
            }
        }
        match &target {
            Some(Locator::Id(id)) => {
                let by_id = match &l.target_id {
                    Some(x) => crate::text::text_eq(x.as_str(), id.as_str()),
                    None => false,
                };
                let by_path = match (&to_path, &l.target_path) {
                    (Some(a), Some(b)) => crate::text::text_eq(a.as_str(), b.as_str()),
                    _ => false,
                };
                if !by_id && !by_path {
                    keep = false;
                }
            },
            Some(Locator::Path(path)) => {
                match crate::util::normalize_repo_path_strict(path.as_str()) {
                    Err(_) => {
                        keep = false;
                    },
                    Ok(n) => {
                        let direct = match &l.target_path {
                            Some(b) => crate::text::text_eq(b.as_str(), n.as_str()),
                            None => false,
                        };
                        let via_locator = match cache_link_target_path(l) {
                            Some(b) => crate::text::text_eq(b.as_str(), n.as_str()),
                            None => false,
                        };
                        if !direct && !via_locator {
                            keep = false;
                        }
                    },
                }
            },
            None => {},
        }
        assert(keep == link_kept(links@[i as int], fp, opt_str(rel), tv, tp));
        if keep {
            out.push(l.duplicate());
        }
        assert(links@.take(i + 1).last() == links@[i as int]);
        i += 1;
    }
    assert(links@.take(links.len() as int) =~= links@);
    Ok(out)
}

/// The path a link's `path:` locator names, when well formed.
fn cache_link_target_path(link: &CacheLink) -> (r: Option<String>)
    ensures
        opt_view(r) == locator_target_path(link.target_locator@),
{
    match parse_locator(link.target_locator.as_str()) {
        Ok(Locator::Path(p)) => match crate::util::normalize_repo_path_strict(p.as_str()) {
            Ok(n) => Some(n),
            Err(_) => None,
        },
        _ => None,
    }
}

// ---------------------------------------------------------------------------
// Tracing over cached links
// ---------------------------------------------------------------------------

/// A traversal edge of the cache: `(order, relation rank, relation, target
/// locator, target path)`.
pub type CacheEdgeView = (Option<i64>, Option<i64>, Seq<char>, Seq<char>, Option<Seq<char>>);

/// The edge view of a link row.
pub open spec fn cache_edge_of(l: CacheLink) -> CacheEdgeView {
    (l.order, l.relation_rank, l.rel@, l.target_locator@, opt_view(l.target_path))
}

/// The edge views of link rows.
pub open spec fn cache_edge_views(items: Seq<CacheLink>) -> Seq<CacheEdgeView> {
    items.map_values(|l: CacheLink| cache_edge_of(l))
}

/// The edges leaving `p` in `direction`: for each link row in order, the row
/// itself when it starts at `p` (outgoing), then its reverse when it ends at
/// `p` (incoming).
pub open spec fn cache_edges(links: Seq<CacheLink>, p: Seq<char>, direction: Direction) -> Seq<CacheEdgeView>
    decreases links.len(),
{
    if links.len() == 0 {
        seq![]
    } else {
        let l = links.last();
        let out: Seq<CacheEdgeView> = if direction != Direction::Incoming && l.source_path@ == p {
            seq![cache_edge_of(l)]
        } else {
            seq![]
        };
        let inc: Seq<CacheEdgeView> = if direction != Direction::Outgoing && opt_view(l.target_path) == Some(p) {
            seq![(l.order, l.relation_rank, l.rel@, "path:"@ + l.source_path@, Some(l.source_path@))]
        } else {
            seq![]
        };
        cache_edges(links.drop_last(), p, direction) + out + inc
    }
}

/// An absent value sorts last.
pub open spec fn or_max(o: Option<i64>) -> int {
    match o {
        Some(v) => v as int,
        None => i64::MAX as int,
    }
}

/// `a` sorts strictly before `b`: by order, relation rank, relation name and
/// target locator.
pub open spec fn cache_before(a: CacheEdgeView, b: CacheEdgeView) -> bool {
    ||| or_max(a.0) < or_max(b.0)
    ||| or_max(a.0) == or_max(b.0) && or_max(a.1) < or_max(b.1)
    ||| or_max(a.0) == or_max(b.0) && or_max(a.1) == or_max(b.1) && text_less(a.2, b.2)
    ||| or_max(a.0) == or_max(b.0) && or_max(a.1) == or_max(b.1) && a.2 == b.2 && text_less(a.3, b.3)
}

/// `a` and `b` have the same sort key.
pub open spec fn cache_same_key(a: CacheEdgeView, b: CacheEdgeView) -> bool {
    or_max(a.0) == or_max(b.0) && or_max(a.1) == or_max(b.1) && a.2 == b.2 && a.3 == b.3
}

/// `perm` lists the positions of `items` in stable sorted order.
pub open spec fn cache_sorted_positions(items: Seq<CacheEdgeView>, perm: Seq<int>) -> bool {
    &&& perm.len() == items.len()
    &&& perm.no_duplicates()
    &&& forall|j: int| 0 <= j < perm.len() ==> 0 <= #[trigger] perm[j] < items.len()
    &&& forall|a: int, b: int| 0 <= a < b < perm.len() ==> {
        ||| cache_before(items[#[trigger] perm[a]], items[#[trigger] perm[b]])
        ||| cache_same_key(items[perm[a]], items[perm[b]]) && perm[a] < perm[b]
    }
}

/// The target paths of `items` taken in the order `perm`, skipping edges
/// without one.
pub open spec fn present_targets(items: Seq<CacheEdgeView>, perm: Seq<int>) -> Seq<Seq<char>>
    decreases perm.len(),
{
    if perm.len() == 0 {
        seq![]
    } else {
        present_targets(items, perm.drop_last()) + match items[perm.last()].4 {
            Some(t) => seq![t],
            None => seq![],
        }
    }
}

/// `ns` are the targets of `edges` in stable sorted order.
pub open spec fn cache_neighbors_ok(ns: Seq<Seq<char>>, edges: Seq<CacheEdgeView>) -> bool {
    exists|perm: Seq<int>| cache_sorted_positions(edges, perm) && ns == present_targets(edges, perm)
}

/// `adj` gives each node the sorted targets of its edges, and has an entry
/// for every node with edges.
pub open spec fn cache_adjacency(adj: Seq<AdjEntry>, links: Seq<CacheLink>, direction: Direction) -> bool {
    &&& forall|k: int| 0 <= k < adj.len() ==> cache_neighbors_ok(strs_view((#[trigger] adj[k]).next@), cache_edges(links, adj[k].node@, direction))
    &&& forall|p: Seq<char>| #[trigger] cache_edges(links, p, direction).len() > 0 ==> exists|k: int| 0 <= k < adj.len() && (#[trigger] adj[k]).node@ == p
}

pub proof fn lemma_cache_before_total(a: CacheEdgeView, b: CacheEdgeView)
    ensures
        cache_before(a, b) || cache_before(b, a) || cache_same_key(a, b),
{
    crate::text::lemma_text_less_total(a.2, b.2);
    crate::text::lemma_text_less_total(a.3, b.3);
}

pub proof fn lemma_cache_before_transitive(a: CacheEdgeView, b: CacheEdgeView, c: CacheEdgeView)
    requires
        (cache_before(a, b) || cache_same_key(a, b)) && cache_before(b, c)
            || cache_before(a, b) && (cache_before(b, c) || cache_same_key(b, c)),
    ensures
        cache_before(a, c),
{
    if text_less(a.2, b.2) && text_less(b.2, c.2) {
        crate::text::lemma_text_less_transitive(a.2, b.2, c.2);
    }
    if text_less(a.3, b.3) && text_less(b.3, c.3) {
        crate::text::lemma_text_less_transitive(a.3, b.3, c.3);
    }
}

/// Whether edge `a` sorts strictly before edge `b`.
fn cache_edge_before(a: &CacheLink, b: &CacheLink) -> (r: bool)
    ensures
        r == cache_before(cache_edge_of(*a), cache_edge_of(*b)),
{
    let oa: i64 = match a.order { Some(v) => v, None => i64::MAX };
    let ob: i64 = match b.order { Some(v) => v, None => i64::MAX };
    if oa != ob {
        return oa < ob;
    }
    let ra: i64 = match a.relation_rank { Some(v) => v, None => i64::MAX };
    let rb: i64 = match b.relation_rank { Some(v) => v, None => i64::MAX };
    if ra != rb {
        return ra < rb;
    }
    match text_order(a.rel.as_str(), b.rel.as_str()) {
        TextOrder::Less => true,
        TextOrder::Greater => {
            proof { crate::text::lemma_text_less_asymmetric(a.rel@, b.rel@); }
            false
        },
        TextOrder::Equal => {
            proof { crate::text::lemma_text_less_irreflexive(a.rel@); }
            match text_order(a.target_locator.as_str(), b.target_locator.as_str()) {
                TextOrder::Less => true,
                _ => {
                    proof {
                        crate::text::lemma_text_less_asymmetric(a.target_locator@, b.target_locator@);
                        crate::text::lemma_text_less_irreflexive(a.target_locator@);
                    }
                    false
                },
            }
        },
    }
}

/// The sorted positions of the edges `items` (a stable sort).
fn sort_cache_positions(items: &Vec<CacheLink>) -> (perm: Vec<usize>)
    ensures
        cache_sorted_positions(cache_edge_views(items@), perm@.map_values(|k: usize| k as int)),
{
    let ghost v = cache_edge_views(items@);
    let mut out: Vec<usize> = Vec::new();
    let mut i: usize = 0;
    while i < items.len()
        invariant
            i <= items.len(),
            v == cache_edge_views(items@),
            out.len() == i,
            out@.no_duplicates(),
            forall|j: int| 0 <= j < out.len() ==> #[trigger] out@[j] < i,
            forall|a: int, b: int| 0 <= a < b < out.len() ==> {
                ||| cache_before(v[#[trigger] out@[a] as int], v[#[trigger] out@[b] as int])
                ||| cache_same_key(v[out@[a] as int], v[out@[b] as int]) && out@[a] < out@[b]
            },
        decreases items.len() - i,
    {
        let mut p: usize = 0;
        while p < out.len() && !cache_edge_before(&items[i], &items[out[p]])
            invariant
                p <= out.len(),
                i < items.len(),
                v == cache_edge_views(items@),
                forall|j: int| 0 <= j < out.len() ==> #[trigger] out@[j] < i,
                forall|q: int| 0 <= q < p ==> !cache_before(v[i as int], v[#[trigger] out@[q] as int]),
            decreases out.len() - p,
        {
            p += 1;
        }
        let ghost old_out = out@;
        proof {
            assert forall|q: int| p < q < old_out.len() implies cache_before(v[i as int], v[#[trigger] old_out[q] as int]) by {
                assert(cache_before(v[i as int], v[old_out[p as int] as int]));
                lemma_cache_before_transitive(v[i as int], v[old_out[p as int] as int], v[old_out[q] as int]);
            }
        }
        out.insert(p, i);
        proof {
            assert forall|a: int, b: int| 0 <= a < b < out.len() implies {
                ||| cache_before(v[#[trigger] out@[a] as int], v[#[trigger] out@[b] as int])
                ||| cache_same_key(v[out@[a] as int], v[out@[b] as int]) && out@[a] < out@[b]
            } by {
                if b == p {
                    lemma_cache_before_total(v[out@[a] as int], v[i as int]);
                    assert(out@[a] == old_out[a]);
                    if !cache_same_key(v[out@[a] as int], v[i as int]) && !cache_before(v[out@[a] as int], v[i as int]) {
                        assert(!cache_before(v[i as int], v[old_out[a] as int]));
                    }
                } else if a == p {
                    assert(out@[b] == old_out[b - 1]);
                } else if a < p && b < p {
                    assert(out@[a] == old_out[a] && out@[b] == old_out[b]);
                } else if a < p {
                    assert(out@[a] == old_out[a] && out@[b] == old_out[b - 1]);
                } else {
                    assert(out@[a] == old_out[a - 1] && out@[b] == old_out[b - 1]);
                }
            }
            assert forall|j: int| 0 <= j < out.len() implies #[trigger] out@[j] < i + 1 by {
                if j < p { assert(out@[j] == old_out[j]); } else if j > p { assert(out@[j] == old_out[j - 1]); }
            }
            assert forall|x: int, y: int| 0 <= x < y < out.len() implies out@[x] != out@[y] by {
                if x < p && y < p { assert(out@[x] == old_out[x] && out@[y] == old_out[y]); }
                else if x < p && y == p { assert(out@[x] == old_out[x]); }
                else if x < p { assert(out@[x] == old_out[x] && out@[y] == old_out[y - 1]); }
                else if x == p { assert(out@[y] == old_out[y - 1]); }
                else { assert(out@[x] == old_out[x - 1] && out@[y] == old_out[y - 1]); }
            }
            assert(out@.no_duplicates());
        }
        i += 1;
    }
    let ghost pm = out@.map_values(|k: usize| k as int);
    proof {
        assert forall|x: int, y: int| 0 <= x < y < pm.len() implies pm[x] != pm[y] by {
            assert(out@[x] != out@[y]);
        }
        assert forall|a: int, b: int| 0 <= a < b < pm.len() implies {
            ||| cache_before(v[#[trigger] pm[a]], v[#[trigger] pm[b]])
            ||| cache_same_key(v[pm[a]], v[pm[b]]) && pm[a] < pm[b]
        } by {
            assert(pm[a] == out@[a] as int && pm[b] == out@[b] as int);
        }
        assert forall|j: int| 0 <= j < pm.len() implies 0 <= #[trigger] pm[j] < v.len() by {
            assert(pm[j] == out@[j] as int);
        }
    }
    out
}

/// The edges leaving `p` in `direction`, as link rows.
fn collect_cache_edges(links: &Vec<CacheLink>, p: &str, direction: Direction) -> (r: Vec<CacheLink>)
    ensures
        cache_edge_views(r@) == cache_edges(links@, p@, direction),
{
    proof { reveal_strlit("path:"); }
    let mut r: Vec<CacheLink> = Vec::new();
    let mut i: usize = 0;
    assert(cache_edge_views(r@) =~= cache_edges(links@.take(0), p@, direction));
    while i < links.len()
        invariant
            i <= links.len(),
            cache_edge_views(r@) == cache_edges(links@.take(i as int), p@, direction),
        decreases links.len() - i,
    {
        assert(links@.take(i + 1).drop_last() =~= links@.take(i as int));
        let l = &links[i];
        let ghost before = cache_edge_views(r@);
        if direction != Direction::Incoming && crate::text::text_eq(l.source_path.as_str(), p) {
            r.push(l.duplicate());
        }
        let ghost mid = cache_edge_views(r@);
        assert(mid =~= before + if direction != Direction::Incoming && l.source_path@ == p@ { seq![cache_edge_of(*l)] } else { Seq::<CacheEdgeView>::empty() });
        let hit = match &l.target_path {
            Some(t) => crate::text::text_eq(t.as_str(), p),
            None => false,
        };
        if direction != Direction::Outgoing && hit {
            r.push(CacheLink {
                source_path: l.target_path.clone().unwrap(),
                rel: l.rel.clone(),
                target_locator: cat("path:", l.source_path.as_str()),
                target_path: Some(l.source_path.clone()),
                target_id: None,
                relation_rank: l.relation_rank,
                order: l.order,
            });
        }
        assert(links@.take(i + 1).last() == links@[i as int]);
        assert(cache_edge_views(r@) =~= cache_edges(links@.take(i + 1), p@, direction));
        i += 1;
    }
    assert(links@.take(links.len() as int) =~= links@);
    r
}

/// The sorted targets of the edges leaving `p`.
fn cache_neighbors(links: &Vec<CacheLink>, p: &str, direction: Direction) -> (r: Vec<String>)
    ensures
        cache_neighbors_ok(strs_view(r@), cache_edges(links@, p@, direction)),
{
    let edges = collect_cache_edges(links, p, direction);
    let ghost v = cache_edge_views(edges@);
    let perm = sort_cache_positions(&edges);
    let ghost pm = perm@.map_values(|k: usize| k as int);
    let mut out: Vec<String> = Vec::new();
    let mut j: usize = 0;
    while j < perm.len()
        invariant
            j <= perm.len(),
            v == cache_edge_views(edges@),
            pm == perm@.map_values(|k: usize| k as int),
            cache_sorted_positions(v, pm),
            strs_view(out@) == present_targets(v, pm.take(j as int)),
        decreases perm.len() - j,
    {
        assert(pm.take(j + 1).drop_last() =~= pm.take(j as int));
        assert(pm.take(j + 1).last() == perm@[j as int] as int);
        let e = &edges[perm[j]];
        assert(v[perm@[j as int] as int] == cache_edge_of(*e));
        let ghost prev = out@;
        if let Some(t) = &e.target_path {
            out.push(t.clone());
            assert(strs_view(out@) =~= strs_view(prev).push(t@));
        }
        assert(strs_view(out@) =~= present_targets(v, pm.take(j + 1)));
        j += 1;
    }
    assert(pm.take(perm.len() as int) =~= pm);
    out
}

/// Cache paths in depth-first order from `from`, following cached links in
/// `direction` with neighbors sorted by order, stored relation rank, relation
/// name and target locator. Fails when the start locator does not resolve.
pub fn cache_trace(resources: &Vec<CacheResource>, links: &Vec<CacheLink>, from: &str, direction: Direction) -> (r: Result<Vec<String>, String>)
    ensures
        match cache_resource_spec(resources@, from@) {
            Err(m) => r matches Err(e) && e@ == m,
            Ok(s) => r matches Ok(order) && cache_traced(links@, direction, s, strs_view(order@)),
        },
{
    let start = match resolve_cache_resource_path(resources, from) {
        Ok(s) => s,
        Err(m) => return Err(m),
    };
    let ghost sv = start@;
    let mut adj: Vec<AdjEntry> = Vec::new();
    let mut i: usize = 0;
    while i < links.len()
        invariant
            i <= links.len(),
            forall|k: int| 0 <= k < adj.len() ==> cache_neighbors_ok(strs_view((#[trigger] adj@[k]).next@), cache_edges(links@, adj@[k].node@, direction)),
            forall|q: int| #![trigger links@[q]] 0 <= q < i ==> exists|k: int| 0 <= k < adj.len() && (#[trigger] adj@[k]).node@ == links@[q].source_path@,
            forall|q: int| #![trigger links@[q]] 0 <= q < i && links@[q].target_path is Some ==> exists|k: int| 0 <= k < adj.len() && (#[trigger] adj@[k]).node@ == links@[q].target_path->0@,
        decreases links.len() - i,
    {
        let ghost old_adj = adj@;
        let src = links[i].source_path.clone();
        let next = cache_neighbors(links, src.as_str(), direction);
        adj.push(AdjEntry { node: src, next });
        let ghost src_at = adj.len() - 1;
        assert(adj@[src_at].node@ == links@[i as int].source_path@);
        if let Some(t) = &links[i].target_path {
            let next2 = cache_neighbors(links, t.as_str(), direction);
            adj.push(AdjEntry { node: t.clone(), next: next2 });
            assert(adj@[adj.len() - 1].node@ == t@);
        }
        proof {
            assert forall|k: int| 0 <= k < old_adj.len() implies adj@[k] == old_adj[k] by {}
            assert(adj@[src_at].node@ == links@[i as int].source_path@);
            assert forall|q: int| #![trigger links@[q]] 0 <= q < i + 1 implies exists|k: int| 0 <= k < adj.len() && (#[trigger] adj@[k]).node@ == links@[q].source_path@ by {
                if q < i {
                    let k = choose|k: int| 0 <= k < old_adj.len() && (#[trigger] old_adj[k]).node@ == links@[q].source_path@;
                    assert(adj@[k] == old_adj[k]);
                } else {
                    assert(adj@[src_at].node@ == links@[q].source_path@);
                }
            }
            assert forall|q: int| #![trigger links@[q]] 0 <= q < i + 1 && links@[q].target_path is Some implies exists|k: int| 0 <= k < adj.len() && (#[trigger] adj@[k]).node@ == links@[q].target_path->0@ by {
                if q < i {
                    let k = choose|k: int| 0 <= k < old_adj.len() && (#[trigger] old_adj[k]).node@ == links@[q].target_path->0@;
                    assert(adj@[k] == old_adj[k]);
                } else {
                    assert(adj@[adj.len() - 1].node@ == links@[q].target_path->0@);
                }
            }
        }
        i += 1;
    }
    proof {
        assert forall|p: Seq<char>| #[trigger] cache_edges(links@, p, direction).len() > 0 implies exists|k: int| 0 <= k < adj.len() && (#[trigger] adj@[k]).node@ == p by {
            lemma_cache_edges_endpoint(links@, p, direction);
            let q = choose|q: int| 0 <= q < links.len() && (links@[q].source_path@ == p || opt_view(links@[q].target_path) == Some(p));
            assert(links@[q] == links@[q]);
        }
    }
    let order = depth_first_order(&adj, start);
    proof {
        assert(cache_adjacency(adj@, links@, direction));
        assert(dfs_order(adj@, sv, strs_view(order@)));
    }
    Ok(order)
}

/// `order` is the depth-first visiting order from `start` over the cached
/// links in `direction`.
pub open spec fn cache_traced(links: Seq<CacheLink>, direction: Direction, start: Seq<char>, order: Seq<Seq<char>>) -> bool {
    exists|adj: Seq<AdjEntry>| cache_adjacency(adj, links, direction) && #[trigger] dfs_order(adj, start, order)
}

pub proof fn lemma_cache_edges_endpoint(links: Seq<CacheLink>, p: Seq<char>, direction: Direction)
    requires
        cache_edges(links, p, direction).len() > 0,
    ensures
        exists|q: int| 0 <= q < links.len() && (links[q].source_path@ == p || opt_view(links[q].target_path) == Some(p)),
    decreases links.len(),
{
    if links.len() > 0 {
        let l = links.last();
        if l.source_path@ == p || opt_view(l.target_path) == Some(p) {
            assert(links[links.len() - 1] == l);
        } else {
            assert(cache_edges(links, p, direction) =~= cache_edges(links.drop_last(), p, direction));
            lemma_cache_edges_endpoint(links.drop_last(), p, direction);
            let q = choose|q: int| 0 <= q < links.drop_last().len() && (links.drop_last()[q].source_path@ == p || opt_view(links.drop_last()[q].target_path) == Some(p));
            assert(links[q] == links.drop_last()[q]);
        }
    }
}

} // verus!

verus! {

// ---------------------------------------------------------------------------
// Rows written to the cache
// ---------------------------------------------------------------------------

/// The view of a `links` row: source path, relation, target locator,
/// target path, target id, relation rank and order.
pub type CacheLinkView = (Seq<char>, Seq<char>, Seq<char>, Option<Seq<char>>, Option<Seq<char>>, Option<i64>, Option<i64>);

/// The view of a `links` row.
pub open spec fn cache_link_view(c: CacheLink) -> CacheLinkView {
    (c.source_path@, c.rel@, c.target_locator@, crate::model::opt_view(c.target_path), crate::model::opt_view(c.target_id), c.relation_rank, c.order)
}

/// The views of `links` rows.
pub open spec fn cache_links_view(v: Seq<CacheLink>) -> Seq<CacheLinkView> {
    v.map_values(|c: CacheLink| cache_link_view(c))
}

/// The rank stored for a relation: its position among the ranked
/// relations, or none when it is unranked.
pub open spec fn row_rank(ranked: Seq<Seq<char>>, rel: Seq<char>) -> Option<i64> {
    if ranked.contains(rel) {
        Some(ranked.index_of(rel) as i64)
    } else {
        None
    }
}

/// The `links` rows of one resource's links.
pub open spec fn resource_link_rows(path: Seq<char>, links: Seq<crate::model::ResolvedLink>, ranked: Seq<Seq<char>>) -> Seq<CacheLinkView>
    decreases links.len(),
{
    if links.len() == 0 {
        seq![]
    } else {
        let l = links.last();
        resource_link_rows(path, links.drop_last(), ranked).push(
            (path, l.rel@, l.to@, crate::model::opt_view(l.target_path), crate::model::opt_view(l.target_id), row_rank(ranked, l.rel@), l.order))
    }
}

/// The `links` rows of all resources, resource by resource.
pub open spec fn link_rows_spec(rs: Seq<crate::model::Resource>, ranked: Seq<Seq<char>>) -> Seq<CacheLinkView>
    decreases rs.len(),
{
    if rs.len() == 0 {
        seq![]
    } else {
        link_rows_spec(rs.drop_last(), ranked) + resource_link_rows(rs.last().path@, rs.last().links@, ranked)
    }
}

/// The `links` rows of a graph: each resource's resolved links with the
/// rank of their relation in the plugins' traversal orders.
pub fn cache_link_rows(graph: &crate::model::BuildResult) -> (r: Vec<CacheLink>)
    ensures
        cache_links_view(r@) == link_rows_spec(graph.resources@,
            crate::plugin::first_occurrences(crate::plugin::all_relation_orders(graph.plugins@))),
{
    let rank = crate::plugin::build_relation_rank(&graph.plugins);
    let ghost ranked = rank.ranked();
    let rs = &graph.resources;
    let mut out: Vec<CacheLink> = Vec::new();
    let mut k: usize = 0;
    while k < rs.len()
        invariant
            k <= rs.len(),
            ranked == rank.ranked(),
            ranked.no_duplicates(),
            cache_links_view(out@) == link_rows_spec(rs@.take(k as int), ranked),
        decreases rs.len() - k,
    {
        assert(rs@.take(k + 1).drop_last() =~= rs@.take(k as int));
        let res = &rs[k];
        let ghost base = cache_links_view(out@);
        let mut j: usize = 0;
        while j < res.links.len()
            invariant
                j <= res.links.len(),
                ranked == rank.ranked(),
                ranked.no_duplicates(),
                cache_links_view(out@) == base + resource_link_rows(res.path@, res.links@.take(j as int), ranked),
            decreases res.links.len() - j,
        {
            let l = &res.links[j];
            assert(res.links@.take(j + 1).drop_last() =~= res.links@.take(j as int));
            let relation_rank = match crate::model::vec_position(&rank.relations, l.rel.as_str()) {
                Some(i) => {
                    proof {
                        assert(ranked[i as int] == l.rel@);
                        crate::plugin::lemma_no_dup_index(ranked, l.rel@, i as int);
                    }
                    Some(i as i64)
                },
                None => None,
            };
            let row = CacheLink {
                source_path: res.path.clone(),
                rel: l.rel.clone(),
                target_locator: l.to.clone(),
                target_path: crate::model::copy_opt(&l.target_path),
                target_id: crate::model::copy_opt(&l.target_id),
                relation_rank,
                order: l.order,
            };
            let ghost before = out@;
            out.push(row);
            assert(cache_links_view(out@) =~= cache_links_view(before).push(cache_link_view(row)));
            j += 1;
        }
        assert(res.links@.take(res.links.len() as int) =~= res.links@);
        k += 1;
    }
    assert(rs@.take(rs.len() as int) =~= rs@);
    out
}

} // verus!
