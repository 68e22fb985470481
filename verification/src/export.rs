//! The export document of a built graph: resources with their outgoing and
//! incoming links.
use vstd::prelude::*;

use crate::model::{opt_view, BuildResult, Diagnostic, Plugin, ResolvedLink, Resource, Traversal};
use crate::plugin::{all_relation_orders, build_relation_rank, first_occurrences, RelationRank};
use crate::resolve::{sort_positions, sorted_positions};

verus! {

/// A plugin in the export: its name and traversal settings.
pub struct ExportPlugin {
    pub name: String,
    pub traversal: Option<Traversal>,
}

/// An outgoing link in the export.
#[derive(Debug, Clone, PartialEq, Eq)]
pub struct ExportLink {
    pub rel: String,
    pub to: String,
    pub target_path: Option<String>,
    pub target_id: Option<String>,
    pub order: Option<i64>,
}

/// An incoming link in the export: the resource it comes from and how.
#[derive(Debug, Clone, PartialEq, Eq)]
pub struct ExportIncomingLink {
    pub from_path: String,
    pub from_id: Option<String>,
    pub rel: String,
    pub order: Option<i64>,
}

/// A resource in the export.
pub struct ExportResource {
    pub path: String,
    pub id: Option<String>,
    pub kind: Option<String>,
    pub sidecar: Option<String>,
    pub metadata_json: String,
    pub links: Vec<ExportLink>,
    pub incoming_links: Vec<ExportIncomingLink>,
}

/// The export document.
pub struct ExportGraph {
    pub resources: Vec<ExportResource>,
    pub diagnostics: Vec<Diagnostic>,
    pub plugins: Vec<ExportPlugin>,
}

/// An incoming link: `(from_path, from_id, rel, order)`.
pub type IncomingView = (Seq<char>, Option<Seq<char>>, Seq<char>, Option<i64>);

/// The incoming links to `p` from the links of `src`, in link order.
pub open spec fn incoming_from(src: Resource, links: Seq<ResolvedLink>, p: Seq<char>) -> Seq<IncomingView>
    decreases links.len(),
{
    if links.len() == 0 {
        seq![]
    } else {
        let l = links.last();
        incoming_from(src, links.drop_last(), p) + if opt_view(l.target_path) == Some(p) {
            seq![(src.path@, opt_view(src.id), l.rel@, l.order)]
        } else {
            seq![]
        }
    }
}

/// The incoming links to `p` from `sources`, in resource and link order.
pub open spec fn incoming_views(sources: Seq<Resource>, p: Seq<char>) -> Seq<IncomingView>
    decreases sources.len(),
{
    if sources.len() == 0 {
        seq![]
    } else {
        incoming_views(sources.drop_last(), p) + incoming_from(sources.last(), sources.last().links@, p)
    }
}

/// An incoming link held as a resolved link for sorting (`to` holds the
/// source path, `target_id` the source id).
pub open spec fn incoming_of(e: ResolvedLink) -> IncomingView {
    (e.to@, opt_view(e.target_id), e.rel@, e.order)
}

/// The view of an exported incoming link.
pub open spec fn export_incoming_view(x: ExportIncomingLink) -> IncomingView {
    (x.from_path@, opt_view(x.from_id), x.rel@, x.order)
}

/// `out` is `views` stably sorted by order, relation rank, relation name and
/// source path.
pub open spec fn sorted_incoming(out: Seq<ExportIncomingLink>, views: Seq<IncomingView>, ranked: Seq<Seq<char>>) -> bool {
    exists|edges: Seq<ResolvedLink>, perm: Seq<int>| {
        &&& edges.len() == views.len()
        &&& forall|j: int| 0 <= j < views.len() ==> incoming_of(#[trigger] edges[j]) == views[j]
        &&& sorted_positions(edges, perm, ranked)
        &&& out.len() == perm.len()
        &&& forall|j: int| 0 <= j < out.len() ==> export_incoming_view(out[j]) == views[#[trigger] perm[j]]
    }
}

/// `x` carries the exported fields of `l`.
pub open spec fn exported_link(x: ExportLink, l: ResolvedLink) -> bool {
    x.rel == l.rel && x.to == l.to && x.target_path == l.target_path && x.target_id == l.target_id && x.order == l.order
}

/// Whether an earlier resource than `i` has the same path.
pub open spec fn path_seen_before(resources: Seq<Resource>, i: int) -> bool {
    exists|j: int| 0 <= j < i && #[trigger] resources[j].path@ == resources[i].path@
}

/// `x` is the export of resource `i` of `resources`: its own fields, its
/// links, and the links that point at it (given to the first resource with
/// its path).
pub open spec fn exported_resource(x: ExportResource, resources: Seq<Resource>, i: int, ranked: Seq<Seq<char>>) -> bool {
    let r = resources[i];
    &&& x.path == r.path
    &&& x.id == r.id
    &&& x.kind == r.kind
    &&& x.sidecar == r.sidecar
    &&& x.metadata_json == r.metadata_json
    &&& x.links.len() == r.links.len()
    &&& forall|j: int| 0 <= j < r.links.len() ==> exported_link(#[trigger] x.links@[j], r.links@[j])
    &&& if path_seen_before(resources, i) {
        x.incoming_links.len() == 0
    } else {
        sorted_incoming(x.incoming_links@, incoming_views(resources, r.path@), ranked)
    }
}

} // verus!

verus! {

/// The incoming links to `p`, as resolved links keyed for sorting.
fn collect_incoming(resources: &Vec<Resource>, p: &str) -> (r: Vec<ResolvedLink>)
    ensures
        r@.map_values(|e: ResolvedLink| incoming_of(e)) == incoming_views(resources@, p@),
{
    let mut r: Vec<ResolvedLink> = Vec::new();
    let mut s: usize = 0;
    assert(r@.map_values(|e: ResolvedLink| incoming_of(e)) =~= incoming_views(resources@.take(0), p@));
    while s < resources.len()
        invariant
            s <= resources.len(),
            r@.map_values(|e: ResolvedLink| incoming_of(e)) == incoming_views(resources@.take(s as int), p@),
        decreases resources.len() - s,
    {
        assert(resources@.take(s + 1).drop_last() =~= resources@.take(s as int));
        let src = &resources[s];
        let ghost mid = r@.map_values(|e: ResolvedLink| incoming_of(e));
        let mut i: usize = 0;
        assert(mid =~= mid + incoming_from(*src, src.links@.take(0), p@));
        while i < src.links.len()
            invariant
                i <= src.links.len(),
                r@.map_values(|e: ResolvedLink| incoming_of(e)) == mid + incoming_from(*src, src.links@.take(i as int), p@),
            decreases src.links.len() - i,
        {
            assert(src.links@.take(i + 1).drop_last() =~= src.links@.take(i as int));
            let l = &src.links[i];
            let hit = match &l.target_path {
                Some(t) => crate::text::text_eq(t.as_str(), p),
                None => false,
            };
            if hit {
                let e = ResolvedLink {
                    rel: l.rel.clone(),
                    to: src.path.clone(),
                    reason: None,
                    target_path: None,
                    target_id: crate::model::copy_opt(&src.id),
                    order: l.order,
                    acknowledged: None,
                };
                let ghost prev = r@;
                r.push(e);
                assert(r@.map_values(|e: ResolvedLink| incoming_of(e)) =~= prev.map_values(|e: ResolvedLink| incoming_of(e)).push(incoming_of(e)));
            }
            assert(r@.map_values(|e: ResolvedLink| incoming_of(e)) =~= mid + incoming_from(*src, src.links@.take(i + 1), p@));
            i += 1;
        }
        assert(src.links@.take(src.links.len() as int) =~= src.links@);
        assert(r@.map_values(|e: ResolvedLink| incoming_of(e)) =~= incoming_views(resources@.take(s + 1), p@));
        s += 1;
    }
    assert(resources@.take(resources.len() as int) =~= resources@);
    r
}

/// The sorted incoming links to `p`.
fn sorted_incoming_links(resources: &Vec<Resource>, p: &str, rank: &RelationRank) -> (r: Vec<ExportIncomingLink>)
    requires
        rank.ranked().no_duplicates(),
    ensures
        sorted_incoming(r@, incoming_views(resources@, p@), rank.ranked()),
{
    let edges = collect_incoming(resources, p);
    let ghost views = incoming_views(resources@, p@);
    let perm = sort_positions(&edges, rank);
    let ghost pm = perm@.map_values(|q: usize| q as int);
    let mut out: Vec<ExportIncomingLink> = Vec::new();
    let mut j: usize = 0;
    while j < perm.len()
        invariant
            j <= perm.len(),
            pm == perm@.map_values(|q: usize| q as int),
            sorted_positions(edges@, pm, rank.ranked()),
            edges@.map_values(|e: ResolvedLink| incoming_of(e)) == views,
            out.len() == j,
            forall|q: int| 0 <= q < j ==> export_incoming_view(out@[q]) == views[#[trigger] pm[q]],
        decreases perm.len() - j,
    {
        assert(pm[j as int] == perm@[j as int] as int);
        let e = &edges[perm[j]];
        assert(incoming_of(*e) == views[pm[j as int]]);
        out.push(ExportIncomingLink {
            from_path: e.to.clone(),
            from_id: crate::model::copy_opt(&e.target_id),
            rel: e.rel.clone(),
            order: e.order,
        });
        j += 1;
    }
    proof {
        assert forall|q: int| 0 <= q < views.len() implies incoming_of(#[trigger] edges@[q]) == views[q] by {
            assert(edges@.map_values(|e: ResolvedLink| incoming_of(e))[q] == incoming_of(edges@[q]));
        }
    }
    out
}

/// The exported outgoing links.
fn export_links(links: &Vec<ResolvedLink>) -> (r: Vec<ExportLink>)
    ensures
        r.len() == links.len(),
        forall|j: int| 0 <= j < links.len() ==> exported_link(#[trigger] r@[j], links@[j]),
{
    let mut r: Vec<ExportLink> = Vec::new();
    let mut j: usize = 0;
    while j < links.len()
        invariant
            j <= links.len(),
            r.len() == j,
            forall|q: int| 0 <= q < j ==> exported_link(#[trigger] r@[q], links@[q]),
        decreases links.len() - j,
    {
        let l = &links[j];
        r.push(ExportLink {
            rel: l.rel.clone(),
            to: l.to.clone(),
            target_path: crate::model::copy_opt(&l.target_path),
            target_id: crate::model::copy_opt(&l.target_id),
            order: l.order,
        });
        j += 1;
    }
    r
}

/// The export document of `graph`: each resource with its links and the
/// links that point at it (stably sorted by order, relation rank, relation
/// name and source path), the diagnostics, and each plugin's name and
/// traversal.
pub fn to_export(graph: BuildResult) -> (r: ExportGraph)
    ensures
        r.resources.len() == graph.resources.len(),
        forall|i: int| 0 <= i < graph.resources.len() ==> exported_resource(#[trigger] r.resources@[i], graph.resources@, i, first_occurrences(all_relation_orders(graph.plugins@))),
        r.diagnostics == graph.diagnostics,
        r.plugins.len() == graph.plugins.len(),
        forall|i: int| 0 <= i < graph.plugins.len() ==> (#[trigger] r.plugins@[i]).name == graph.plugins@[i].name && r.plugins@[i].traversal == graph.plugins@[i].traversal,
{
    let rank = build_relation_rank(&graph.plugins);
    let ghost ranked = rank.ranked();
    let resources = &graph.resources;
    let mut out: Vec<ExportResource> = Vec::new();
    let mut i: usize = 0;
    while i < resources.len()
        invariant
            i <= resources.len(),
            ranked == rank.ranked(),
            ranked.no_duplicates(),
            ranked == first_occurrences(all_relation_orders(graph.plugins@)),
            resources == &graph.resources,
            out.len() == i,
            forall|q: int| 0 <= q < i ==> exported_resource(#[trigger] out@[q], resources@, q, ranked),
        decreases resources.len() - i,
    {
        let r = &resources[i];
        let mut seen = false;
        let mut j: usize = 0;
        while j < i
            invariant
                j <= i,
                i < resources.len(),
                *r == resources@[i as int],
                seen == exists|q: int| 0 <= q < j && #[trigger] resources@[q].path@ == resources@[i as int].path@,
            decreases i - j,
        {
            if crate::text::text_eq(resources[j].path.as_str(), r.path.as_str()) {
                seen = true;
                assert(resources@[j as int].path@ == resources@[i as int].path@);
            }
            proof {
                if !seen {
                    assert forall|q: int| 0 <= q < j + 1 implies #[trigger] resources@[q].path@ != resources@[i as int].path@ by {}
                }
            }
            j += 1;
        }
        let incoming = if seen {
            Vec::new()
        } else {
            sorted_incoming_links(resources, r.path.as_str(), &rank)
        };
        out.push(ExportResource {
            path: r.path.clone(),
            id: crate::model::copy_opt(&r.id),
            kind: crate::model::copy_opt(&r.kind),
            sidecar: crate::model::copy_opt(&r.sidecar),
            metadata_json: r.metadata_json.clone(),
            links: export_links(&r.links),
            incoming_links: incoming,
        });
        proof {
            assert(exported_resource(out@[i as int], resources@, i as int, ranked));
        }
        i += 1;
    }
    let BuildResult { resources: _, diagnostics, plugins } = graph;
    let mut eplugins: Vec<ExportPlugin> = Vec::new();
    let mut k: usize = 0;
    let ghost pv = plugins@;
    let mut plugins = plugins;
    let total = plugins.len();
    while plugins.len() > 0
        invariant
            k <= pv.len(),
            total == pv.len(),
            plugins.len() + k == pv.len(),
            plugins@ == pv.skip(k as int),
            eplugins.len() == k,
            forall|q: int| 0 <= q < k ==> (#[trigger] eplugins@[q]).name == pv[q].name && eplugins@[q].traversal == pv[q].traversal,
        decreases plugins.len(),
    {
        let p = plugins.remove(0);
        assert(p == pv[k as int]);
        eplugins.push(ExportPlugin { name: p.name, traversal: p.traversal });
        assert(pv.skip(k + 1) =~= pv.skip(k as int).drop_first());
        k += 1;
    }
    ExportGraph { resources: out, diagnostics, plugins: eplugins }
}

} // verus!
