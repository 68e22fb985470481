//! Link resolution: locators to resources, and the order of a resource's links.
use vstd::prelude::*;

use crate::graph::{id_slot, LoadedResources};
use crate::locator::{locator_spec, parse_locator};
use crate::model::{
    diags_view, opt_view, push_diag, strs_view, vec_contains, DiagView, Diagnostic, Link, Locator,
    ResolvedLink,
};
use crate::plugin::{rank_spec, RelationRank};
use crate::text::{cat, own, text_less, text_order, TextOrder};
use crate::util::strict_path;

verus! {

/// What link resolution looks up: whether any plugin is loaded, the declared
/// relations, the id table and the resource paths.
pub struct ResolveScope {
    pub has_plugins: bool,
    pub relations: Seq<Seq<char>>,
    pub ids: Seq<Seq<char>>,
    pub id_paths: Seq<Seq<char>>,
    pub dups: Seq<Seq<char>>,
    pub paths: Seq<Seq<char>>,
}

/// Where a link points: `(target_path, target_id)`.
pub type Target = (Option<Seq<char>>, Option<Seq<char>>);

/// A stale `pathHint` finding for a link resolved to `target`.
pub open spec fn hint_diagnostics(link: Link, sp: Seq<char>, target: Seq<char>) -> Seq<DiagView> {
    match link.path_hint {
        Some(h) => if h@ != target {
            seq![("path-hint-mismatch"@, Some(sp), "pathHint "@ + h@ + " does not match resolved path "@ + target)]
        } else {
            seq![]
        },
        None => seq![],
    }
}

/// The relation check of a link.
pub open spec fn relation_diagnostics(link: Link, sp: Seq<char>, scope: ResolveScope) -> Seq<DiagView> {
    if scope.has_plugins && !scope.relations.contains(link.rel@) {
        seq![("unknown-relation"@, Some(sp), "unknown relation: "@ + link.rel@)]
    } else {
        seq![]
    }
}

/// Resolution of one link of the sidecar at `sp`: its target (`None` when the
/// locator is malformed and the link is dropped) and its diagnostics.
pub open spec fn resolve_spec(link: Link, sp: Seq<char>, scope: ResolveScope) -> (Option<Target>, Seq<DiagView>) {
    let d0 = relation_diagnostics(link, sp, scope);
    match locator_spec(link.to@) {
        Ok((true, id)) => {
            if scope.dups.contains(id) {
                (Some((None, Some(id))), d0.push(("ambiguous-id"@, Some(sp), "ambiguous id locator: "@ + link.to@)))
            } else {
                match id_slot(scope.ids, id) {
                    Some(k) => (Some((Some(scope.id_paths[k]), Some(id))), d0 + hint_diagnostics(link, sp, scope.id_paths[k])),
                    None => (Some((None, Some(id))), d0.push(("unresolved-id"@, Some(sp), "unresolved id locator: "@ + link.to@))),
                }
            }
        },
        Ok((false, p)) => match strict_path(p) {
            Ok(n) => if scope.paths.contains(n) {
                (Some((Some(n), None)), d0 + hint_diagnostics(link, sp, n))
            } else {
                (Some((None, None)), d0.push(("missing-path"@, Some(sp), "unresolved path locator: "@ + link.to@)))
            },
            Err(m) => (None, d0.push(("schema-error"@, Some(sp), m))),
        },
        Err(m) => (None, d0.push(("schema-error"@, Some(sp), m))),
    }
}

/// `r` is `link` resolved to `target`.
pub open spec fn resolved_as(r: ResolvedLink, link: Link, target: Target) -> bool {
    &&& r.rel == link.rel
    &&& r.to == link.to
    &&& r.reason == link.reason
    &&& r.order == link.order
    &&& r.acknowledged == link.acknowledged
    &&& opt_view(r.target_path) == target.0
    &&& opt_view(r.target_id) == target.1
}

/// The links of a sidecar that survive resolution, as `(index, target)` in
/// declaration order, and the diagnostics of resolving all of them.
pub open spec fn resolve_all(links: Seq<Link>, sp: Seq<char>, scope: ResolveScope) -> (Seq<(int, Target)>, Seq<DiagView>)
    decreases links.len(),
{
    if links.len() == 0 {
        (seq![], seq![])
    } else {
        let (kept, ds) = resolve_all(links.drop_last(), sp, scope);
        let (t, d) = resolve_spec(links.last(), sp, scope);
        match t {
            Some(target) => (kept.push(((links.len() - 1) as int, target)), ds + d),
            None => (kept, ds + d),
        }
    }
}

/// Scope views of the exec lookup tables.
pub open spec fn scope_of(
    has_plugins: bool,
    relations: Seq<String>,
    ids: Seq<String>,
    id_paths: Seq<String>,
    dups: Seq<String>,
    paths: Seq<String>,
) -> ResolveScope {
    ResolveScope {
        has_plugins,
        relations: strs_view(relations),
        ids: strs_view(ids),
        id_paths: strs_view(id_paths),
        dups: strs_view(dups),
        paths: strs_view(paths),
    }
}

/// The exec lookup tables of link resolution.
pub struct ResolveTables<'a> {
    pub has_plugins: bool,
    pub relations: &'a Vec<String>,
    pub ids: &'a Vec<String>,
    pub id_paths: &'a Vec<String>,
    pub dups: &'a Vec<String>,
    pub paths: &'a Vec<String>,
}

impl<'a> ResolveTables<'a> {
    pub open spec fn scope(&self) -> ResolveScope {
        scope_of(self.has_plugins, self.relations@, self.ids@, self.id_paths@, self.dups@, self.paths@)
    }
}

} // verus!

verus! {

/// Reports a stale `pathHint`.
fn check_hint(link: &Link, sp: &str, target: &String, diagnostics: &mut Vec<Diagnostic>)
    ensures
        diags_view(final(diagnostics)@) == diags_view(old(diagnostics)@) + hint_diagnostics(*link, sp@, target@),
{
    proof {
        reveal_strlit("path-hint-mismatch");
        reveal_strlit("pathHint ");
        reveal_strlit(" does not match resolved path ");
    }
    if let Some(h) = &link.path_hint {
        if !crate::text::text_eq(h.as_str(), target.as_str()) {
            let mut m = cat("pathHint ", h.as_str());
            m.append(" does not match resolved path ");
            m.append(target.as_str());
            push_diag(diagnostics, crate::model::diagnostic("path-hint-mismatch", Some(own(sp)), m));
            return;
        }
    }
    assert(diags_view(diagnostics@) =~= diags_view(old(diagnostics)@) + seq![]);
}

/// Resolves one link of the sidecar at `sp`, appending its diagnostics.
pub fn resolve_link(link: &Link, sp: &str, tables: &ResolveTables, diagnostics: &mut Vec<Diagnostic>) -> (r: Option<ResolvedLink>)
    requires
        tables.ids.len() == tables.id_paths.len(),
    ensures
        ({
            let (t, d) = resolve_spec(*link, sp@, tables.scope());
            &&& diags_view(final(diagnostics)@) == diags_view(old(diagnostics)@) + d
            &&& match t {
                Some(target) => r matches Some(x) && resolved_as(x, *link, target),
                None => r is None,
            }
        }),
{
    proof {
        reveal_strlit("unknown-relation");
        reveal_strlit("unknown relation: ");
        reveal_strlit("ambiguous-id");
        reveal_strlit("ambiguous id locator: ");
        reveal_strlit("unresolved-id");
        reveal_strlit("unresolved id locator: ");
        reveal_strlit("missing-path");
        reveal_strlit("unresolved path locator: ");
        reveal_strlit("schema-error");
    }
    let ghost scope = tables.scope();
    let ghost start = diags_view(diagnostics@);
    if tables.has_plugins && !vec_contains(tables.relations, link.rel.as_str()) {
        push_diag(diagnostics, crate::model::diagnostic("unknown-relation", Some(own(sp)), cat("unknown relation: ", link.rel.as_str())));
    }
    let ghost after_rel = diags_view(diagnostics@);
    assert(after_rel =~= start + relation_diagnostics(*link, sp@, scope));
    let base = ResolvedLink {
        rel: link.rel.clone(),
        to: link.to.clone(),
        reason: crate::model::copy_opt(&link.reason),
        target_path: None,
        target_id: None,
        order: link.order,
        acknowledged: crate::model::copy_ack(&link.acknowledged),
    };
    match parse_locator(link.to.as_str()) {
        Ok(Locator::Id(id)) => {
            if vec_contains(tables.dups, id.as_str()) {
                push_diag(diagnostics, crate::model::diagnostic("ambiguous-id", Some(own(sp)), cat("ambiguous id locator: ", link.to.as_str())));
                Some(ResolvedLink { target_id: Some(id), ..base })
            } else {
                match crate::graph::find_id(tables.ids, id.as_str()) {
                    Some(k) => {
                        let target = tables.id_paths[k].clone();
                        assert(scope.id_paths[k as int] == target@);
                        check_hint(link, sp, &target, diagnostics);
                        assert(diags_view(diagnostics@) =~= start + (relation_diagnostics(*link, sp@, scope) + hint_diagnostics(*link, sp@, target@)));
                        Some(ResolvedLink { target_path: Some(target), target_id: Some(id), ..base })
                    },
                    None => {
                        push_diag(diagnostics, crate::model::diagnostic("unresolved-id", Some(own(sp)), cat("unresolved id locator: ", link.to.as_str())));
                        Some(ResolvedLink { target_id: Some(id), ..base })
                    },
                }
            }
        },
        Ok(Locator::Path(p)) => {
            match crate::util::normalize_repo_path_strict(p.as_str()) {
                Ok(n) => {
                    if vec_contains(tables.paths, n.as_str()) {
                        check_hint(link, sp, &n, diagnostics);
                        assert(diags_view(diagnostics@) =~= start + (relation_diagnostics(*link, sp@, scope) + hint_diagnostics(*link, sp@, n@)));
                        Some(ResolvedLink { target_path: Some(n), ..base })
                    } else {
                        push_diag(diagnostics, crate::model::diagnostic("missing-path", Some(own(sp)), cat("unresolved path locator: ", link.to.as_str())));
                        Some(base)
                    }
                },
                Err(m) => {
                    push_diag(diagnostics, crate::model::diagnostic("schema-error", Some(own(sp)), m));
                    None
                },
            }
        },
        Err(m) => {
            push_diag(diagnostics, crate::model::diagnostic("schema-error", Some(own(sp)), m));
            None
        },
    }
}

/// Resolves the links of the sidecar at `sp` in declaration order, dropping
/// those with malformed locators.
pub fn resolve_links(links: &Vec<Link>, sp: &str, tables: &ResolveTables, diagnostics: &mut Vec<Diagnostic>) -> (r: Vec<ResolvedLink>)
    requires
        tables.ids.len() == tables.id_paths.len(),
    ensures
        ({
            let (kept, d) = resolve_all(links@, sp@, tables.scope());
            &&& diags_view(final(diagnostics)@) == diags_view(old(diagnostics)@) + d
            &&& r.len() == kept.len()
            &&& forall|j: int| 0 <= j < kept.len() ==> 0 <= (#[trigger] kept[j]).0 < links.len() && resolved_as(r@[j], links@[kept[j].0], kept[j].1)
        }),
{
    let ghost start = diags_view(diagnostics@);
    let mut out: Vec<ResolvedLink> = Vec::new();
    let mut i: usize = 0;
    assert(links@.take(0) =~= seq![]);
    assert(diags_view(diagnostics@) =~= start + seq![]);
    while i < links.len()
        invariant
            i <= links.len(),
            tables.ids.len() == tables.id_paths.len(),
            ({
                let (kept, d) = resolve_all(links@.take(i as int), sp@, tables.scope());
                &&& diags_view(diagnostics@) == start + d
                &&& out.len() == kept.len()
                &&& forall|j: int| 0 <= j < kept.len() ==> 0 <= (#[trigger] kept[j]).0 < i && resolved_as(out@[j], links@[kept[j].0], kept[j].1)
            }),
        decreases links.len() - i,
    {
        let ghost prev = links@.take(i as int);
        assert(links@.take(i + 1).drop_last() =~= prev);
        assert(links@.take(i + 1).last() == links@[i as int]);
        let ghost (kept0, d0) = resolve_all(prev, sp@, tables.scope());
        let ghost before = diags_view(diagnostics@);
        let ghost out0 = out@;
        let r = resolve_link(&links[i], sp, tables, diagnostics);
        proof {
            let (t, d) = resolve_spec(links@[i as int], sp@, tables.scope());
            assert(diags_view(diagnostics@) =~= start + (d0 + d));
        }
        if let Some(x) = r {
            out.push(x);
            proof {
                let (kept, d) = resolve_all(links@.take(i + 1), sp@, tables.scope());
                assert forall|j: int| 0 <= j < kept.len() implies 0 <= (#[trigger] kept[j]).0 < i + 1 && resolved_as(out@[j], links@[kept[j].0], kept[j].1) by {
                    if j < kept0.len() {
                        assert(kept[j] == kept0[j]);
                        assert(out@[j] == out0[j]);
                    }
                }
            }
        }
        i += 1;
    }
    assert(links@.take(links.len() as int) =~= links@);
    out
}

} // verus!

verus! {

// ---------------------------------------------------------------------------
// Link order
// ---------------------------------------------------------------------------

/// A link's explicit order, or the largest order when it has none.
pub open spec fn order_key(o: Option<i64>) -> int {
    match o {
        Some(v) => v as int,
        None => i64::MAX as int,
    }
}

/// `a` sorts strictly before `b`: by order, then relation rank, then relation
/// name, then target locator.
pub open spec fn link_before(a: ResolvedLink, b: ResolvedLink, ranked: Seq<Seq<char>>) -> bool {
    let (oa, ob) = (order_key(a.order), order_key(b.order));
    let (ra, rb) = (rank_spec(ranked, a.rel@), rank_spec(ranked, b.rel@));
    ||| oa < ob
    ||| oa == ob && ra < rb
    ||| oa == ob && ra == rb && text_less(a.rel@, b.rel@)
    ||| oa == ob && ra == rb && a.rel@ == b.rel@ && text_less(a.to@, b.to@)
}

/// `a` and `b` have the same sort key.
pub open spec fn same_key(a: ResolvedLink, b: ResolvedLink) -> bool {
    order_key(a.order) == order_key(b.order) && a.rel@ == b.rel@ && a.to@ == b.to@
}

/// `perm` lists the positions of `items` in sorted order; items with the same
/// key keep their relative order.
pub open spec fn sorted_positions(items: Seq<ResolvedLink>, perm: Seq<int>, ranked: Seq<Seq<char>>) -> bool {
    &&& perm.len() == items.len()
    &&& perm.no_duplicates()
    &&& forall|j: int| 0 <= j < perm.len() ==> 0 <= #[trigger] perm[j] < items.len()
    &&& forall|a: int, b: int| 0 <= a < b < perm.len() ==> {
        ||| link_before(items[#[trigger] perm[a]], items[#[trigger] perm[b]], ranked)
        ||| same_key(items[perm[a]], items[perm[b]]) && perm[a] < perm[b]
    }
}

/// Of two links, one sorts before the other unless their keys are equal.
pub proof fn lemma_link_before_total(a: ResolvedLink, b: ResolvedLink, ranked: Seq<Seq<char>>)
    ensures
        link_before(a, b, ranked) || link_before(b, a, ranked) || same_key(a, b),
{
    crate::text::lemma_text_less_total(a.rel@, b.rel@);
    crate::text::lemma_text_less_total(a.to@, b.to@);
}

/// No two links sort before each other, and no link sorts before one with
/// the same key.
pub proof fn lemma_link_before_asymmetric(a: ResolvedLink, b: ResolvedLink, ranked: Seq<Seq<char>>)
    ensures
        !(link_before(a, b, ranked) && link_before(b, a, ranked)),
        !(link_before(a, b, ranked) && same_key(a, b)),
{
    crate::text::lemma_text_less_asymmetric(a.rel@, b.rel@);
    crate::text::lemma_text_less_asymmetric(a.to@, b.to@);
    crate::text::lemma_text_less_irreflexive(a.rel@);
    crate::text::lemma_text_less_irreflexive(a.to@);
}

/// The link order is transitive, also through links with equal keys.
pub proof fn lemma_link_before_transitive(a: ResolvedLink, b: ResolvedLink, c: ResolvedLink, ranked: Seq<Seq<char>>)
    requires
        (link_before(a, b, ranked) || same_key(a, b)) && link_before(b, c, ranked)
            || link_before(a, b, ranked) && (link_before(b, c, ranked) || same_key(b, c)),
    ensures
        link_before(a, c, ranked),
{
    if text_less(a.rel@, b.rel@) && text_less(b.rel@, c.rel@) {
        crate::text::lemma_text_less_transitive(a.rel@, b.rel@, c.rel@);
    }
    if text_less(a.to@, b.to@) && text_less(b.to@, c.to@) {
        crate::text::lemma_text_less_transitive(a.to@, b.to@, c.to@);
    }
}

/// Whether `a` sorts strictly before `b`.
fn before(a: &ResolvedLink, b: &ResolvedLink, rank: &RelationRank) -> (r: bool)
    requires
        rank.ranked().no_duplicates(),
    ensures
        r == link_before(*a, *b, rank.ranked()),
{
    let oa: i64 = match a.order { Some(v) => v, None => i64::MAX };
    let ob: i64 = match b.order { Some(v) => v, None => i64::MAX };
    if oa != ob {
        return oa < ob;
    }
    let ra = rank.rank(a.rel.as_str());
    let rb = rank.rank(b.rel.as_str());
    if ra != rb {
        return ra < rb;
    }
    match text_order(a.rel.as_str(), b.rel.as_str()) {
        TextOrder::Less => true,
        TextOrder::Greater => {
            proof { crate::text::lemma_text_less_asymmetric(a.rel@, b.rel@); }
            false
        },
        TextOrder::Equal => {
            proof { crate::text::lemma_text_less_irreflexive(a.rel@); }
            match text_order(a.to.as_str(), b.to.as_str()) {
                TextOrder::Less => true,
                _ => {
                    proof { crate::text::lemma_text_less_asymmetric(a.to@, b.to@); crate::text::lemma_text_less_irreflexive(a.to@); }
                    false
                },
            }
        },
    }
}

/// The sorted positions of `items`: a stable sort by order, relation rank,
/// relation name and target.
pub fn sort_positions(items: &Vec<ResolvedLink>, rank: &RelationRank) -> (perm: Vec<usize>)
    requires
        rank.ranked().no_duplicates(),
    ensures
        sorted_positions(items@, perm@.map_values(|k: usize| k as int), rank.ranked()),
{
    let ghost ranked = rank.ranked();
    let mut out: Vec<usize> = Vec::new();
    let mut i: usize = 0;
    while i < items.len()
        invariant
            i <= items.len(),
            ranked == rank.ranked(),
            rank.ranked().no_duplicates(),
            out.len() == i,
            out@.no_duplicates(),
            forall|j: int| 0 <= j < out.len() ==> #[trigger] out@[j] < i,
            forall|a: int, b: int| 0 <= a < b < out.len() ==> {
                ||| link_before(items@[#[trigger] out@[a] as int], items@[#[trigger] out@[b] as int], ranked)
                ||| same_key(items@[out@[a] as int], items@[out@[b] as int]) && out@[a] < out@[b]
            },
        decreases items.len() - i,
    {
        let mut p: usize = 0;
        while p < out.len() && !before(&items[i], &items[out[p]], rank)
            invariant
                p <= out.len(),
                i < items.len(),
                rank.ranked().no_duplicates(),
                ranked == rank.ranked(),
                forall|j: int| 0 <= j < out.len() ==> #[trigger] out@[j] < i,
                forall|q: int| 0 <= q < p ==> !link_before(items@[i as int], items@[#[trigger] out@[q] as int], ranked),
            decreases out.len() - p,
        {
            p += 1;
        }
        let ghost old_out = out@;
        proof {
            assert forall|q: int| p < q < old_out.len() implies link_before(items@[i as int], items@[#[trigger] old_out[q] as int], ranked) by {
                assert(link_before(items@[i as int], items@[old_out[p as int] as int], ranked));
                lemma_link_before_transitive(items@[i as int], items@[old_out[p as int] as int], items@[old_out[q] as int], ranked);
            }
        }
        out.insert(p, i);
        proof {
            assert forall|a: int, b: int| 0 <= a < b < out.len() implies {
                ||| link_before(items@[#[trigger] out@[a] as int], items@[#[trigger] out@[b] as int], ranked)
                ||| same_key(items@[out@[a] as int], items@[out@[b] as int]) && out@[a] < out@[b]
            } by {
                if b == p {
                    lemma_link_before_total(items@[out@[a] as int], items@[i as int], ranked);
                    assert(out@[a] == old_out[a]);
                    if same_key(items@[out@[a] as int], items@[i as int]) {
                    } else if !link_before(items@[out@[a] as int], items@[i as int], ranked) {
                        assert(!link_before(items@[i as int], items@[old_out[a] as int], ranked));
                    }
                } else if a == p {
                    assert(out@[b] == old_out[b - 1]);
                    if b - 1 == p {
                    }
                } else if a < p && b < p {
                    assert(out@[a] == old_out[a] && out@[b] == old_out[b]);
                } else if a < p {
                    assert(out@[a] == old_out[a] && out@[b] == old_out[b - 1]);
                } else {
                    assert(out@[a] == old_out[a - 1] && out@[b] == old_out[b - 1]);
                }
            }
            assert forall|j: int| 0 <= j < out.len() implies #[trigger] out@[j] < i + 1 by {
                if j < p { assert(out@[j] == old_out[j]); } else if j > p { assert(out@[j] == old_out[j - 1]); }
            }
            assert forall|x: int, y: int| 0 <= x < y < out.len() implies out@[x] != out@[y] by {
                if x < p && y < p { assert(out@[x] == old_out[x] && out@[y] == old_out[y]); }
                else if x < p && y == p { assert(out@[x] == old_out[x]); }
                else if x < p { assert(out@[x] == old_out[x] && out@[y] == old_out[y - 1]); }
                else if x == p { assert(out@[y] == old_out[y - 1]); }
                else { assert(out@[x] == old_out[x - 1] && out@[y] == old_out[y - 1]); }
            }
            assert(out@.no_duplicates());
        }
        i += 1;
    }
    let ghost pm = out@.map_values(|k: usize| k as int);
    proof {
        assert forall|x: int, y: int| 0 <= x < y < pm.len() implies pm[x] != pm[y] by {
            assert(out@[x] != out@[y]);
        }
        assert forall|a: int, b: int| 0 <= a < b < pm.len() implies {
            ||| link_before(items@[#[trigger] pm[a]], items@[#[trigger] pm[b]], ranked)
            ||| same_key(items@[pm[a]], items@[pm[b]]) && pm[a] < pm[b]
        } by {
            assert(pm[a] == out@[a] as int && pm[b] == out@[b] as int);
        }
        assert forall|j: int| 0 <= j < pm.len() implies 0 <= #[trigger] pm[j] < items.len() by {
            assert(pm[j] == out@[j] as int);
        }
    }
    out
}

// ---------------------------------------------------------------------------
// Resolving every resource's links
// ---------------------------------------------------------------------------

/// The links of the sidecar loaded from read entry `slot`.
pub open spec fn sidecar_links(reads: Seq<crate::graph::SidecarRead>, slot: Option<usize>) -> Seq<Link> {
    match slot {
        Some(k) => match reads[k as int].outcome {
            Ok(sc) => sc.links@,
            Err(_) => seq![],
        },
        None => seq![],
    }
}

/// `out` is the sidecar's links resolved (malformed locators dropped) and then
/// stably sorted by order, relation rank, relation name and target.
pub open spec fn ordered_links_ok(out: Seq<ResolvedLink>, links: Seq<Link>, sp: Seq<char>, scope: ResolveScope, ranked: Seq<Seq<char>>) -> bool {
    let kept = resolve_all(links, sp, scope).0;
    exists|unsorted: Seq<ResolvedLink>, perm: Seq<int>| {
        &&& unsorted.len() == kept.len()
        &&& forall|j: int| 0 <= j < kept.len() ==> 0 <= (#[trigger] kept[j]).0 < links.len() && resolved_as(unsorted[j], links[kept[j].0], kept[j].1)
        &&& sorted_positions(unsorted, perm, ranked)
        &&& out.len() == perm.len()
        &&& forall|j: int| 0 <= j < out.len() ==> out[j] == unsorted[#[trigger] perm[j]]
    }
}

/// The paths of `resources`.
pub open spec fn resource_path_views(resources: Seq<crate::model::Resource>) -> Seq<Seq<char>> {
    resources.map_values(|x: crate::model::Resource| x.path@)
}

/// The diagnostics of resolving the links of the resources at `paths`, in
/// resource order.
pub open spec fn links_diagnostics(
    paths: Seq<Seq<char>>,
    slots: Seq<Option<usize>>,
    suffix: Seq<char>,
    reads: Seq<crate::graph::SidecarRead>,
    scope: ResolveScope,
) -> Seq<DiagView>
    decreases paths.len(),
{
    if paths.len() == 0 || slots.len() != paths.len() {
        seq![]
    } else {
        links_diagnostics(paths.drop_last(), slots.drop_last(), suffix, reads, scope)
            + resolve_all(sidecar_links(reads, slots.last()), paths.last() + suffix, scope).1
    }
}

/// Resolves and orders the links of one sidecar.
pub fn ordered_links(links: &Vec<Link>, sp: &str, tables: &ResolveTables, rank: &RelationRank, diagnostics: &mut Vec<Diagnostic>) -> (r: Vec<ResolvedLink>)
    requires
        tables.ids.len() == tables.id_paths.len(),
        rank.ranked().no_duplicates(),
    ensures
        diags_view(final(diagnostics)@) == diags_view(old(diagnostics)@) + resolve_all(links@, sp@, tables.scope()).1,
        ordered_links_ok(r@, links@, sp@, tables.scope(), rank.ranked()),
{
    let unsorted = resolve_links(links, sp, tables, diagnostics);
    let perm = sort_positions(&unsorted, rank);
    let ghost pm = perm@.map_values(|k: usize| k as int);
    let mut out: Vec<ResolvedLink> = Vec::new();
    let mut j: usize = 0;
    while j < perm.len()
        invariant
            j <= perm.len(),
            pm == perm@.map_values(|k: usize| k as int),
            sorted_positions(unsorted@, pm, rank.ranked()),
            out.len() == j,
            forall|q: int| 0 <= q < j ==> out@[q] == unsorted@[#[trigger] pm[q]],
        decreases perm.len() - j,
    {
        assert(pm[j as int] == perm@[j as int] as int);
        out.push(unsorted[perm[j]].duplicate());
        j += 1;
    }
    proof {
        let kept = resolve_all(links@, sp@, tables.scope()).0;
        assert(unsorted@.len() == kept.len());
    }
    out
}

/// A copy of `r` with `links` in place of its links.
fn with_links(r: &crate::model::Resource, links: Vec<ResolvedLink>) -> (out: crate::model::Resource)
    ensures
        out.path == r.path,
        out.id == r.id,
        out.kind == r.kind,
        out.sidecar == r.sidecar,
        out.metadata_json == r.metadata_json,
        out.links == links,
{
    crate::model::Resource {
        path: r.path.clone(),
        id: crate::model::copy_opt(&r.id),
        kind: crate::model::copy_opt(&r.kind),
        sidecar: crate::model::copy_opt(&r.sidecar),
        metadata_json: r.metadata_json.clone(),
        links,
    }
}

/// Resolves and orders the links of every resource whose sidecar loaded.
pub fn resolve_resources(
    resources: &Vec<crate::model::Resource>,
    read_index: &Vec<Option<usize>>,
    suffix: &str,
    reads: &Vec<crate::graph::SidecarRead>,
    tables: &ResolveTables,
    rank: &RelationRank,
    diagnostics: &mut Vec<Diagnostic>,
) -> (r: Vec<crate::model::Resource>)
    requires
        tables.ids.len() == tables.id_paths.len(),
        rank.ranked().no_duplicates(),
        read_index.len() == resources.len(),
        forall|i: int| 0 <= i < read_index.len() ==> match #[trigger] read_index@[i] {
            Some(k) => k < reads.len(),
            None => true,
        },
    ensures
        r.len() == resources.len(),
        diags_view(final(diagnostics)@) == diags_view(old(diagnostics)@) + links_diagnostics(
            resource_path_views(resources@), read_index@, suffix@, reads@, tables.scope()),
        forall|i: int| 0 <= i < resources.len() ==> {
            &&& (#[trigger] r@[i]).path == resources@[i].path
            &&& r@[i].id == resources@[i].id
            &&& r@[i].kind == resources@[i].kind
            &&& r@[i].sidecar == resources@[i].sidecar
            &&& r@[i].metadata_json == resources@[i].metadata_json
            &&& ordered_links_ok(r@[i].links@, sidecar_links(reads@, read_index@[i]), resources@[i].path@ + suffix@, tables.scope(), rank.ranked())
        },
{
    let ghost start = diags_view(diagnostics@);
    let ghost paths = resource_path_views(resources@);
    let mut out: Vec<crate::model::Resource> = Vec::new();
    let mut i: usize = 0;
    while i < resources.len()
        invariant
            i <= resources.len(),
            read_index.len() == resources.len(),
            tables.ids.len() == tables.id_paths.len(),
            rank.ranked().no_duplicates(),
            forall|q: int| 0 <= q < read_index.len() ==> match #[trigger] read_index@[q] {
                Some(k) => k < reads.len(),
                None => true,
            },
            paths == resource_path_views(resources@),
            out.len() == i,
            diags_view(diagnostics@) == start + links_diagnostics(paths.take(i as int), read_index@.take(i as int), suffix@, reads@, tables.scope()),
            forall|q: int| 0 <= q < i ==> {
                &&& (#[trigger] out@[q]).path == resources@[q].path
                &&& out@[q].id == resources@[q].id
                &&& out@[q].kind == resources@[q].kind
                &&& out@[q].sidecar == resources@[q].sidecar
                &&& out@[q].metadata_json == resources@[q].metadata_json
                &&& ordered_links_ok(out@[q].links@, sidecar_links(reads@, read_index@[q]), resources@[q].path@ + suffix@, tables.scope(), rank.ranked())
            },
        decreases resources.len() - i,
    {
        assert(paths.take(i + 1).drop_last() =~= paths.take(i as int));
        assert(read_index@.take(i + 1).drop_last() =~= read_index@.take(i as int));
        assert(paths.take(i + 1).last() == resources@[i as int].path@);
        let ghost before = diags_view(diagnostics@);
        let sp = cat(resources[i].path.as_str(), suffix);
        let empty: Vec<Link> = Vec::new();
        let links: &Vec<Link> = match read_index[i] {
            Some(k) => match &reads[k].outcome {
                Ok(sc) => &sc.links,
                Err(_) => &empty,
            },
            None => &empty,
        };
        assert(links@ == sidecar_links(reads@, read_index@[i as int]));
        let ordered = ordered_links(links, sp.as_str(), tables, rank, diagnostics);
        out.push(with_links(&resources[i], ordered));
        i += 1;
    }
    assert(paths.take(resources.len() as int) =~= paths);
    assert(read_index@.take(resources.len() as int) =~= read_index@);
    out
}

} // verus!
