//! Tracing the graph from a start resource.
use vstd::prelude::*;

use crate::locator::{locator_spec, parse_locator};
use crate::model::{opt_view, strs_view, Direction, Locator, Plugin, ResolvedLink, Resource};
use crate::plugin::{all_relation_orders, build_relation_rank, first_occurrences, RelationRank};
use crate::resolve::{sort_positions, sorted_positions};
use crate::text::{cat, own};
use crate::traverse::{depth_first_order, dfs_order, AdjEntry};
use crate::util::strict_path;

verus! {

/// A traversal edge: `(order, relation, target locator, target path)`.
pub type EdgeView = (Option<i64>, Seq<char>, Seq<char>, Seq<char>);

/// The view of an edge held as a resolved link.
pub open spec fn edge_of(e: ResolvedLink) -> EdgeView {
    (e.order, e.rel@, e.to@, match e.target_path {
        Some(t) => t@,
        None => seq![],
    })
}

/// Index of the last resource at path `p`.
pub open spec fn last_with_path(resources: Seq<Resource>, p: Seq<char>) -> Option<int>
    decreases resources.len(),
{
    if resources.len() == 0 {
        None
    } else if resources.last().path@ == p {
        Some(resources.len() - 1)
    } else {
        last_with_path(resources.drop_last(), p)
    }
}

/// Index of the last resource with id `id`.
pub open spec fn last_with_id(resources: Seq<Resource>, id: Seq<char>) -> Option<int>
    decreases resources.len(),
{
    if resources.len() == 0 {
        None
    } else if opt_view(resources.last().id) == Some(id) {
        Some(resources.len() - 1)
    } else {
        last_with_id(resources.drop_last(), id)
    }
}

/// The outgoing edges of the links in `links` that resolved to a path.
pub open spec fn out_edges(links: Seq<ResolvedLink>) -> Seq<EdgeView>
    decreases links.len(),
{
    if links.len() == 0 {
        seq![]
    } else {
        let l = links.last();
        out_edges(links.drop_last()) + match l.target_path {
            Some(t) => seq![(l.order, l.rel@, l.to@, t@)],
            None => seq![],
        }
    }
}

/// The incoming edges to `p` from the links `links` of the resource at `src`.
pub open spec fn in_edges_from(links: Seq<ResolvedLink>, src: Seq<char>, p: Seq<char>) -> Seq<EdgeView>
    decreases links.len(),
{
    if links.len() == 0 {
        seq![]
    } else {
        let l = links.last();
        in_edges_from(links.drop_last(), src, p) + if opt_view(l.target_path) == Some(p) {
            seq![(l.order, l.rel@, "path:"@ + src, src)]
        } else {
            seq![]
        }
    }
}

/// The incoming edges to `p` from every resource of `sources`, in order.
pub open spec fn in_edges(sources: Seq<Resource>, p: Seq<char>) -> Seq<EdgeView>
    decreases sources.len(),
{
    if sources.len() == 0 {
        seq![]
    } else {
        in_edges(sources.drop_last(), p) + in_edges_from(sources.last().links@, sources.last().path@, p)
    }
}

/// The edges followed from resource `k` in `direction`.
pub open spec fn resource_edges(resources: Seq<Resource>, k: int, direction: Direction) -> Seq<EdgeView> {
    (if direction != Direction::Incoming { out_edges(resources[k].links@) } else { seq![] })
        + (if direction != Direction::Outgoing { in_edges(resources, resources[k].path@) } else { seq![] })
}

/// `ns` are the targets of `views` stably sorted by order, relation rank,
/// relation name and target locator.
pub open spec fn sorted_neighbors(ns: Seq<Seq<char>>, views: Seq<EdgeView>, ranked: Seq<Seq<char>>) -> bool {
    exists|edges: Seq<ResolvedLink>, perm: Seq<int>| {
        &&& edges.len() == views.len()
        &&& forall|j: int| 0 <= j < views.len() ==> edge_of(#[trigger] edges[j]) == views[j]
        &&& sorted_positions(edges, perm, ranked)
        &&& ns.len() == perm.len()
        &&& forall|j: int| 0 <= j < ns.len() ==> ns[j] == views[#[trigger] perm[j]].3
    }
}

/// `adj` holds, for each resource in order, its path and its neighbors.
pub open spec fn trace_adjacency(adj: Seq<AdjEntry>, resources: Seq<Resource>, direction: Direction, ranked: Seq<Seq<char>>) -> bool {
    &&& adj.len() == resources.len()
    &&& forall|k: int| 0 <= k < adj.len() ==> (#[trigger] adj[k]).node@ == resources[k].path@
        && sorted_neighbors(strs_view(adj[k].next@), resource_edges(resources, k, direction), ranked)
}

/// `order` is the depth-first visiting order from `start` over the graph of
/// `resources` in `direction`, with neighbors sorted by the plugins' ranks.
pub open spec fn traced(resources: Seq<Resource>, plugins: Seq<Plugin>, direction: Direction, start: Seq<char>, order: Seq<Seq<char>>) -> bool {
    exists|adj: Seq<AdjEntry>|
        trace_adjacency(adj, resources, direction, first_occurrences(all_relation_orders(plugins)))
        && #[trigger] dfs_order(adj, start, order)
}

/// The start path of a trace, or the error text.
pub open spec fn trace_start(resources: Seq<Resource>, from: Seq<char>) -> Result<Seq<char>, Seq<char>> {
    match locator_spec(from) {
        Err(m) => Err(m),
        Ok((true, id)) => match last_with_id(resources, id) {
            Some(i) => Ok(resources[i].path@),
            None => Err("unknown start id: "@ + id),
        },
        Ok((false, p)) => match strict_path(p) {
            Err(m) => Err(m),
            Ok(n) => if last_with_path(resources, n) is Some {
                Ok(n)
            } else {
                Err("unknown start path: "@ + n)
            },
        },
    }
}

} // verus!

verus! {

/// The outgoing edges of `links`, as resolved links keyed for sorting.
fn collect_out_edges(links: &Vec<ResolvedLink>, edges: &mut Vec<ResolvedLink>)
    ensures
        final(edges)@.map_values(|e: ResolvedLink| edge_of(e)) == old(edges)@.map_values(|e: ResolvedLink| edge_of(e)) + out_edges(links@),
        forall|j: int| 0 <= j < final(edges).len() ==> (#[trigger] final(edges)@[j]).target_path is Some || j < old(edges).len(),
{
    let ghost base = edges@.map_values(|e: ResolvedLink| edge_of(e));
    let ghost n0 = edges.len();
    let mut i: usize = 0;
    assert(base =~= base + out_edges(links@.take(0)));
    while i < links.len()
        invariant
            i <= links.len(),
            edges.len() >= n0,
            edges@.map_values(|e: ResolvedLink| edge_of(e)) == base + out_edges(links@.take(i as int)),
            forall|j: int| 0 <= j < edges.len() ==> (#[trigger] edges@[j]).target_path is Some || j < n0,
        decreases links.len() - i,
    {
        assert(links@.take(i + 1).drop_last() =~= links@.take(i as int));
        let l = &links[i];
        if let Some(t) = &l.target_path {
            let e = ResolvedLink {
                rel: l.rel.clone(),
                to: l.to.clone(),
                reason: None,
                target_path: Some(t.clone()),
                target_id: None,
                order: l.order,
                acknowledged: None,
            };
            let ghost prev = edges@;
            edges.push(e);
            assert(edges@.map_values(|e: ResolvedLink| edge_of(e)) =~= prev.map_values(|e: ResolvedLink| edge_of(e)).push(edge_of(e)));
        }
        assert(edges@.map_values(|e: ResolvedLink| edge_of(e)) =~= base + out_edges(links@.take(i + 1)));
        i += 1;
    }
    assert(links@.take(links.len() as int) =~= links@);
}

/// The incoming edges to `p` from every resource.
fn collect_in_edges(resources: &Vec<Resource>, p: &str, edges: &mut Vec<ResolvedLink>)
    ensures
        final(edges)@.map_values(|e: ResolvedLink| edge_of(e)) == old(edges)@.map_values(|e: ResolvedLink| edge_of(e)) + in_edges(resources@, p@),
        forall|j: int| 0 <= j < final(edges).len() ==> (#[trigger] final(edges)@[j]).target_path is Some || (j < old(edges).len() && old(edges)@[j].target_path is None),
        forall|j: int| 0 <= j < old(edges).len() ==> final(edges)@[j] == old(edges)@[j],
{
    proof { reveal_strlit("path:"); }
    let ghost base = edges@.map_values(|e: ResolvedLink| edge_of(e));
    let ghost old_edges = edges@;
    let mut s: usize = 0;
    assert(base =~= base + in_edges(resources@.take(0), p@));
    while s < resources.len()
        invariant
            s <= resources.len(),
            edges.len() >= old_edges.len(),
            forall|j: int| 0 <= j < old_edges.len() ==> edges@[j] == old_edges[j],
            edges@.map_values(|e: ResolvedLink| edge_of(e)) == base + in_edges(resources@.take(s as int), p@),
            forall|j: int| 0 <= j < edges.len() ==> (#[trigger] edges@[j]).target_path is Some || (j < old_edges.len() && old_edges[j].target_path is None),
        decreases resources.len() - s,
    {
        assert(resources@.take(s + 1).drop_last() =~= resources@.take(s as int));
        let src = &resources[s];
        let ghost mid = edges@.map_values(|e: ResolvedLink| edge_of(e));
        let mut i: usize = 0;
        assert(mid =~= mid + in_edges_from(src.links@.take(0), src.path@, p@));
        while i < src.links.len()
            invariant
                i <= src.links.len(),
                edges.len() >= old_edges.len(),
                forall|j: int| 0 <= j < old_edges.len() ==> edges@[j] == old_edges[j],
                edges@.map_values(|e: ResolvedLink| edge_of(e)) == mid + in_edges_from(src.links@.take(i as int), src.path@, p@),
                forall|j: int| 0 <= j < edges.len() ==> (#[trigger] edges@[j]).target_path is Some || (j < old_edges.len() && old_edges[j].target_path is None),
            decreases src.links.len() - i,
        {
            assert(src.links@.take(i + 1).drop_last() =~= src.links@.take(i as int));
            let l = &src.links[i];
            let hit = match &l.target_path {
                Some(t) => crate::text::text_eq(t.as_str(), p),
                None => false,
            };
            if hit {
                let e = ResolvedLink {
                    rel: l.rel.clone(),
                    to: cat("path:", src.path.as_str()),
                    reason: None,
                    target_path: Some(src.path.clone()),
                    target_id: None,
                    order: l.order,
                    acknowledged: None,
                };
                let ghost prev = edges@;
                edges.push(e);
                assert(edges@.map_values(|e: ResolvedLink| edge_of(e)) =~= prev.map_values(|e: ResolvedLink| edge_of(e)).push(edge_of(e)));
            }
            assert(edges@.map_values(|e: ResolvedLink| edge_of(e)) =~= mid + in_edges_from(src.links@.take(i + 1), src.path@, p@));
            i += 1;
        }
        assert(src.links@.take(src.links.len() as int) =~= src.links@);
        assert(edges@.map_values(|e: ResolvedLink| edge_of(e)) =~= base + in_edges(resources@.take(s + 1), p@));
        s += 1;
    }
    assert(resources@.take(resources.len() as int) =~= resources@);
}

/// The neighbors of resource `k` in visiting order.
fn resource_neighbors(resources: &Vec<Resource>, k: usize, direction: Direction, rank: &RelationRank) -> (r: Vec<String>)
    requires
        k < resources.len(),
        rank.ranked().no_duplicates(),
    ensures
        sorted_neighbors(strs_view(r@), resource_edges(resources@, k as int, direction), rank.ranked()),
{
    let mut edges: Vec<ResolvedLink> = Vec::new();
    assert(edges@.map_values(|e: ResolvedLink| edge_of(e)) =~= seq![]);
    if direction != Direction::Incoming {
        collect_out_edges(&resources[k].links, &mut edges);
    }
    let ghost mid = edges@.map_values(|e: ResolvedLink| edge_of(e));
    if direction != Direction::Outgoing {
        collect_in_edges(resources, resources[k].path.as_str(), &mut edges);
    }
    let ghost views = resource_edges(resources@, k as int, direction);
    assert(edges@.map_values(|e: ResolvedLink| edge_of(e)) =~= views);
    let perm = sort_positions(&edges, rank);
    let ghost pm = perm@.map_values(|q: usize| q as int);
    let mut out: Vec<String> = Vec::new();
    let mut j: usize = 0;
    while j < perm.len()
        invariant
            j <= perm.len(),
            pm == perm@.map_values(|q: usize| q as int),
            sorted_positions(edges@, pm, rank.ranked()),
            edges@.map_values(|e: ResolvedLink| edge_of(e)) == views,
            forall|q: int| 0 <= q < edges.len() ==> (#[trigger] edges@[q]).target_path is Some,
            out.len() == j,
            forall|q: int| 0 <= q < j ==> out@[q]@ == views[#[trigger] pm[q]].3,
        decreases perm.len() - j,
    {
        assert(pm[j as int] == perm@[j as int] as int);
        let e = &edges[perm[j]];
        assert(edge_of(*e) == views[pm[j as int]]);
        match &e.target_path {
            Some(t) => out.push(t.clone()),
            None => out.push(String::new()),
        }
        j += 1;
    }
    proof {
        assert forall|q: int| 0 <= q < views.len() implies edge_of(#[trigger] edges@[q]) == views[q] by {
            assert(edges@.map_values(|e: ResolvedLink| edge_of(e))[q] == edge_of(edges@[q]));
        }
        let ns = strs_view(out@);
        assert forall|q: int| 0 <= q < ns.len() implies ns[q] == views[#[trigger] pm[q]].3 by {
            assert(ns[q] == out@[q]@);
        }
    }
    out
}

/// The resource paths in depth-first order from the start locator `from`,
/// following resolved links in `direction` and visiting neighbors by order,
/// relation rank, relation name and target locator. Fails on a malformed
/// locator or an unknown start.
pub fn trace_from(resources: &Vec<Resource>, plugins: &Vec<Plugin>, from: &str, direction: Direction) -> (r: Result<Vec<String>, String>)
    ensures
        match trace_start(resources@, from@) {
            Err(m) => r matches Err(e) && e@ == m,
            Ok(s) => r matches Ok(order) && traced(resources@, plugins@, direction, s, strs_view(order@)),
        },
{
    proof {
        reveal_strlit("unknown start id: ");
        reveal_strlit("unknown start path: ");
    }
    let rank = build_relation_rank(plugins);
    let start = match parse_locator(from) {
        Err(m) => return Err(m),
        Ok(Locator::Id(id)) => {
            let mut k = resources.len();
            let mut found: Option<usize> = None;
            assert(resources@.take(k as int) =~= resources@);
            while k > 0 && found.is_none()
                invariant
                    k <= resources.len(),
                    found is None ==> last_with_id(resources@, id@) == last_with_id(resources@.take(k as int), id@),
                    found matches Some(i) ==> last_with_id(resources@, id@) == Some(i as int) && i < resources.len(),
                decreases k,
            {
                assert(resources@.take(k as int).drop_last() =~= resources@.take(k - 1));
                let hit = match &resources[k - 1].id {
                    Some(x) => crate::text::text_eq(x.as_str(), id.as_str()),
                    None => false,
                };
                if hit {
                    assert(resources@.take(k as int).last() == resources@[k - 1]);
                    assert(last_with_id(resources@.take(k as int), id@) == Some(k - 1));
                    found = Some(k - 1);
                }
                k -= 1;
            }
            assert(found is None ==> resources@.take(k as int) =~= seq![]);
            match found {
                Some(i) => resources[i].path.clone(),
                None => return Err(cat("unknown start id: ", id.as_str())),
            }
        },
        Ok(Locator::Path(p)) => {
            let n = match crate::util::normalize_repo_path_strict(p.as_str()) {
                Ok(n) => n,
                Err(m) => return Err(m),
            };
            let mut k = resources.len();
            let mut found = false;
            assert(resources@.take(k as int) =~= resources@);
            while k > 0 && !found
                invariant
                    k <= resources.len(),
                    !found ==> last_with_path(resources@, n@) == last_with_path(resources@.take(k as int), n@),
                    found ==> last_with_path(resources@, n@) is Some,
                decreases k,
            {
                assert(resources@.take(k as int).drop_last() =~= resources@.take(k - 1));
                if crate::text::text_eq(resources[k - 1].path.as_str(), n.as_str()) {
                    assert(resources@.take(k as int).last() == resources@[k - 1]);
                    found = true;
                }
                k -= 1;
            }
            assert(!found ==> resources@.take(k as int) =~= seq![]);
            if !found {
                return Err(cat("unknown start path: ", n.as_str()));
            }
            n
        },
    };
    let ghost sv = start@;
    assert(trace_start(resources@, from@) == Ok::<Seq<char>, Seq<char>>(sv));
    let ghost ranked = rank.ranked();
    let mut adj: Vec<AdjEntry> = Vec::new();
    let mut k: usize = 0;
    while k < resources.len()
        invariant
            k <= resources.len(),
            ranked == rank.ranked(),
            ranked.no_duplicates(),
            adj.len() == k,
            forall|q: int| 0 <= q < k ==> (#[trigger] adj@[q]).node@ == resources@[q].path@
                && sorted_neighbors(strs_view(adj@[q].next@), resource_edges(resources@, q, direction), ranked),
        decreases resources.len() - k,
    {
        let next = resource_neighbors(resources, k, direction, &rank);
        adj.push(AdjEntry { node: resources[k].path.clone(), next });
        k += 1;
    }
    let order = depth_first_order(&adj, start);
    proof {
        assert(trace_adjacency(adj@, resources@, direction, ranked));
        assert(dfs_order(adj@, sv, strs_view(order@)));
        assert(ranked == first_occurrences(all_relation_orders(plugins@)));
        assert(exists|a: Seq<AdjEntry>| trace_adjacency(a, resources@, direction, first_occurrences(all_relation_orders(plugins@)))
            && #[trigger] dfs_order(a, sv, strs_view(order@)));
        assert(traced(resources@, plugins@, direction, sv, strs_view(order@)));
    }
    Ok(order)
}

} // verus!
