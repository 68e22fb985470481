//! Tracing the cache rows of a graph visits what tracing the graph visits:
//! both sort each node's edges by the same key, so each node gets the same
//! neighbors in the same order.
use vstd::prelude::*;
use vstd::relations::{sorted_by, total_ordering};

use crate::cache::{cache_edge_of, cache_edges, cache_links_view, link_rows_spec, or_max, resource_link_rows, row_rank, CacheLink, CacheLinkView};
use crate::model::{opt_view, Direction, ResolvedLink, Resource};
use crate::resolve::order_key;
use crate::text::text_less;
use crate::trace::{edge_of, in_edges, in_edges_from, out_edges, resource_edges, sorted_neighbors, EdgeView};
use crate::cache::{cache_before, cache_same_key, cache_sorted_positions, present_targets, CacheEdgeView};
use crate::plugin::rank_spec;
use crate::traverse::{dfs_order, dfs_run, entry_neighbors, AdjEntry};
use crate::model::strs_view;
use crate::resolve::{link_before, sorted_positions};
use vstd::seq_lib::lemma_sorted_unique;

verus! {

/// A sort key and its target: order, relation rank, relation, target
/// locator, target path.
pub type Item = (int, int, Seq<char>, Seq<char>, Option<Seq<char>>);

/// Optional targets, an absent one first, present ones by text.
pub open spec fn opt_le(a: Option<Seq<char>>, b: Option<Seq<char>>) -> bool {
    match (a, b) {
        (None, _) => true,
        (Some(_), None) => false,
        (Some(x), Some(y)) => x == y || text_less(x, y),
    }
}

/// `a` and `b` agree on the sort key.
pub open spec fn same_key(a: Item, b: Item) -> bool {
    a.0 == b.0 && a.1 == b.1 && a.2 == b.2 && a.3 == b.3
}

/// The lexicographic order of items.
pub open spec fn item_le(a: Item, b: Item) -> bool {
    ||| a.0 < b.0
    ||| a.0 == b.0 && a.1 < b.1
    ||| a.0 == b.0 && a.1 == b.1 && text_less(a.2, b.2)
    ||| a.0 == b.0 && a.1 == b.1 && a.2 == b.2 && text_less(a.3, b.3)
    ||| same_key(a, b) && opt_le(a.4, b.4)
}

proof fn lemma_item_le_trans(a: Item, b: Item, c: Item)
    requires
        item_le(a, b),
        item_le(b, c),
    ensures
        item_le(a, c),
{
    if text_less(a.2, b.2) && text_less(b.2, c.2) {
        crate::text::lemma_text_less_transitive(a.2, b.2, c.2);
    }
    if text_less(a.3, b.3) && text_less(b.3, c.3) {
        crate::text::lemma_text_less_transitive(a.3, b.3, c.3);
    }
    if let (Some(x), Some(y), Some(z)) = (a.4, b.4, c.4) {
        if text_less(x, y) && text_less(y, z) {
            crate::text::lemma_text_less_transitive(x, y, z);
        }
    }
}

proof fn lemma_item_le_antisym(a: Item, b: Item)
    requires
        item_le(a, b),
        item_le(b, a),
    ensures
        a == b,
{
    crate::text::lemma_text_less_asymmetric(a.2, b.2);
    crate::text::lemma_text_less_asymmetric(a.3, b.3);
    crate::text::lemma_text_less_irreflexive(a.2);
    crate::text::lemma_text_less_irreflexive(a.3);
    if let (Some(x), Some(y)) = (a.4, b.4) {
        crate::text::lemma_text_less_asymmetric(x, y);
    }
}

proof fn lemma_item_le_total(a: Item, b: Item)
    ensures
        item_le(a, b) || item_le(b, a),
{
    crate::text::lemma_text_less_total(a.2, b.2);
    crate::text::lemma_text_less_total(a.3, b.3);
    if let (Some(x), Some(y)) = (a.4, b.4) {
        crate::text::lemma_text_less_total(x, y);
    }
}

/// The item order is a total order.
pub proof fn lemma_item_le_total_ordering()
    ensures
        total_ordering(|a: Item, b: Item| item_le(a, b)),
{
    let r = |a: Item, b: Item| item_le(a, b);
    assert forall|x: Item| #[trigger] r(x, x) by {
        let w = x;
        assert(same_key(w, w));
    }
    assert forall|x: Item, y: Item, z: Item| #[trigger] r(x, y) && #[trigger] r(y, z) implies r(x, z) by {
        lemma_item_le_trans(x, y, z);
    }
    assert forall|x: Item, y: Item| #[trigger] r(x, y) && #[trigger] r(y, x) implies x == y by {
        lemma_item_le_antisym(x, y);
    }
    assert forall|x: Item, y: Item| #[trigger] r(x, y) || #[trigger] r(y, x) by {
        lemma_item_le_total(x, y);
    }
}


/// `s` taken in the order of the positions `perm`.
pub open spec fn permuted(s: Seq<Item>, perm: Seq<int>) -> Seq<Item> {
    perm.map_values(|i: int| s[i])
}

/// `perm` lists each position of a sequence of length `n` once.
pub open spec fn is_perm(perm: Seq<int>, n: nat) -> bool {
    &&& perm.len() == n
    &&& perm.no_duplicates()
    &&& forall|j: int| 0 <= j < perm.len() ==> 0 <= #[trigger] perm[j] < n
}

/// Reordering keeps the multiset of items.
pub proof fn lemma_permuted_multiset(s: Seq<Item>, perm: Seq<int>)
    requires
        is_perm(perm, s.len()),
    ensures
        permuted(s, perm).to_multiset() == s.to_multiset(),
    decreases s.len(),
{
    broadcast use vstd::seq_lib::group_to_multiset_ensures;
    broadcast use vstd::multiset::group_multiset_axioms;
    if s.len() == 0 {
        assert(permuted(s, perm) =~= s);
    } else {
        let n = s.len();
        let i0 = perm.last();
        let s2 = s.remove(i0);
        let front = perm.drop_last();
        let p2 = front.map_values(|i: int| if i < i0 { i } else { i - 1 });
        assert forall|j: int| 0 <= j < front.len() implies #[trigger] front[j] != i0 by {
            assert(perm[j] != perm[n - 1]);
        }
        assert forall|a: int, b: int| 0 <= a < b < p2.len() implies p2[a] != p2[b] by {
            assert(perm[a] != perm[b]);
            assert(front[a] != i0 && front[b] != i0);
        }
        assert(p2.no_duplicates());
        assert forall|j: int| 0 <= j < p2.len() implies 0 <= #[trigger] p2[j] < s2.len() by {
            assert(front[j] != i0);
            assert(0 <= perm[j] < n);
        }
        lemma_permuted_multiset(s2, p2);
        assert(permuted(s2, p2) =~= permuted(s, front)) by {
            assert forall|j: int| 0 <= j < front.len() implies permuted(s2, p2)[j] == permuted(s, front)[j] by {
                assert(front[j] != i0);
            }
        }
        assert(permuted(s, perm) =~= permuted(s, front).push(s[i0]));
        assert(s.to_multiset().count(s[i0]) > 0) by {
            assert(s.contains(s[i0]));
        }
        assert(s2.to_multiset().insert(s[i0]) =~= s.to_multiset());
    }
}

/// The items of `s` that have a target, in order.
pub open spec fn some_items(s: Seq<Item>) -> Seq<Item>
    decreases s.len(),
{
    if s.len() == 0 {
        seq![]
    } else {
        some_items(s.drop_last()) + if s.last().4 is Some { seq![s.last()] } else { seq![] }
    }
}

proof fn lemma_some_items_member(s: Seq<Item>, x: Item)
    requires
        some_items(s).contains(x),
    ensures
        exists|a: int| 0 <= a < s.len() && s[a] == x && x.4 is Some,
    decreases s.len(),
{
    if s.len() > 0 {
        let rest = some_items(s.drop_last());
        let tail: Seq<Item> = if s.last().4 is Some { seq![s.last()] } else { seq![] };
        let k = choose|k: int| 0 <= k < some_items(s).len() && some_items(s)[k] == x;
        if k < rest.len() {
            assert(rest[k] == x);
            lemma_some_items_member(s.drop_last(), x);
            let a = choose|a: int| 0 <= a < s.drop_last().len() && s.drop_last()[a] == x && x.4 is Some;
            assert(s[a] == x);
        } else {
            assert(tail[k - rest.len()] == x);
            assert(s[s.len() - 1] == x);
        }
    }
}

proof fn lemma_some_items_one(x: Item)
    ensures
        some_items(seq![x]) == if x.4 is Some { seq![x] } else { Seq::<Item>::empty() },
{
    assert(seq![x].drop_last() =~= Seq::<Item>::empty());
    assert(some_items(Seq::<Item>::empty()) =~= Seq::<Item>::empty());
    assert(some_items(seq![x]) =~= if x.4 is Some { seq![x] } else { Seq::<Item>::empty() });
}

/// The items of a concatenation that have a target.
pub proof fn lemma_some_items_concat(a: Seq<Item>, b: Seq<Item>)
    ensures
        some_items(a + b) == some_items(a) + some_items(b),
    decreases b.len(),
{
    if b.len() == 0 {
        assert(a + b =~= a);
        assert(some_items(a) + some_items(b) =~= some_items(a));
    } else {
        lemma_some_items_concat(a, b.drop_last());
        assert((a + b).drop_last() =~= a + b.drop_last());
        assert((a + b).last() == b.last());
    }
}

/// How often an item occurs among those with a target.
proof fn lemma_some_items_count(s: Seq<Item>, x: Item)
    ensures
        some_items(s).to_multiset().count(x) == if x.4 is Some { s.to_multiset().count(x) } else { 0 },
    decreases s.len(),
{
    broadcast use vstd::seq_lib::group_to_multiset_ensures;
    broadcast use vstd::multiset::group_multiset_axioms;
    if s.len() == 0 {
        assert(some_items(s) =~= seq![]);
    } else {
        lemma_some_items_count(s.drop_last(), x);
        assert(s =~= s.drop_last().push(s.last()));
        if s.last().4 is Some {
            assert(some_items(s) =~= some_items(s.drop_last()).push(s.last()));
        } else {
            assert(some_items(s) =~= some_items(s.drop_last()));
        }
    }
}

/// Sequences with the same multiset have the same items with a target.
proof fn lemma_some_items_multiset(s: Seq<Item>, t: Seq<Item>)
    requires
        s.to_multiset() == t.to_multiset(),
    ensures
        some_items(s).to_multiset() == some_items(t).to_multiset(),
{
    assert forall|x: Item| some_items(s).to_multiset().count(x) == some_items(t).to_multiset().count(x) by {
        lemma_some_items_count(s, x);
        lemma_some_items_count(t, x);
    }
    assert(some_items(s).to_multiset() =~= some_items(t).to_multiset());
}

/// Items with a target that are in order pairwise stay in order together.
proof fn lemma_some_items_sorted(s: Seq<Item>)
    requires
        forall|a: int, b: int| 0 <= a < b < s.len() && s[a].4 is Some && s[b].4 is Some ==> item_le(#[trigger] s[a], #[trigger] s[b]),
    ensures
        sorted_by(some_items(s), |x: Item, y: Item| item_le(x, y)),
    decreases s.len(),
{
    if s.len() > 0 {
        let d = s.drop_last();
        lemma_some_items_sorted(d);
        let rest = some_items(d);
        if s.last().4 is Some {
            let t = some_items(s);
            let le = |x: Item, y: Item| item_le(x, y);
            assert(t =~= rest.push(s.last()));
            assert forall|i: int, j: int| 0 <= i < j < t.len() implies #[trigger] le(t[i], t[j]) by {
                if j == t.len() - 1 {
                    assert(rest.contains(t[i]));
                    lemma_some_items_member(d, t[i]);
                    let a = choose|a: int| 0 <= a < d.len() && d[a] == t[i] && t[i].4 is Some;
                    assert(s[a] == d[a]);
                    assert(item_le(s[a], s[s.len() - 1]));
                } else {
                    assert(t[i] == rest[i] && t[j] == rest[j]);
                    assert(le(rest[i], rest[j]));
                }
            }
        } else {
            assert(some_items(s) =~= rest);
        }
    }
}

/// A relation's rank as an integer: its position among the ranked
/// relations, or `i64::MAX` when it has none.
pub open spec fn rank_int(ranked: Seq<Seq<char>>, rel: Seq<char>) -> int {
    if ranked.contains(rel) { ranked.index_of(rel) } else { i64::MAX as int }
}

/// The item of a traversal edge of the graph.
pub open spec fn edge_item(v: EdgeView, ranked: Seq<Seq<char>>) -> Item {
    (order_key(v.0), rank_int(ranked, v.1), v.1, v.2, Some(v.3))
}

/// The item of a traversal edge of the cache.
pub open spec fn cache_item(v: crate::cache::CacheEdgeView) -> Item {
    (or_max(v.0), or_max(v.1), v.2, v.3, v.4)
}

/// The item of a link followed forward.
pub open spec fn out_item(l: ResolvedLink, ranked: Seq<Seq<char>>) -> Item {
    (order_key(l.order), rank_int(ranked, l.rel@), l.rel@, l.to@, opt_view(l.target_path))
}

/// The item of a link of the resource at `src` followed backward.
pub open spec fn in_item(src: Seq<char>, l: ResolvedLink, ranked: Seq<Seq<char>>) -> Item {
    (order_key(l.order), rank_int(ranked, l.rel@), l.rel@, "path:"@ + src, Some(src))
}

/// The cache items at `p` of link rows, row by row.
pub open spec fn citems(v: Seq<CacheLinkView>, p: Seq<char>, d: Direction) -> Seq<Item>
    decreases v.len(),
{
    if v.len() == 0 {
        seq![]
    } else {
        let r = v.last();
        let out: Seq<Item> = if d != Direction::Incoming && r.0 == p {
            seq![(or_max(r.6), or_max(r.5), r.1, r.2, r.3)]
        } else {
            seq![]
        };
        let inc: Seq<Item> = if d != Direction::Outgoing && r.3 == Some(p) {
            seq![(or_max(r.6), or_max(r.5), r.1, "path:"@ + r.0, Some(r.0))]
        } else {
            seq![]
        };
        citems(v.drop_last(), p, d) + out + inc
    }
}

/// The cache items at `p` of the links of the resource at `path`.
pub open spec fn res_citems(path: Seq<char>, links: Seq<ResolvedLink>, p: Seq<char>, d: Direction, ranked: Seq<Seq<char>>) -> Seq<Item>
    decreases links.len(),
{
    if links.len() == 0 {
        seq![]
    } else {
        let l = links.last();
        let out: Seq<Item> = if d != Direction::Incoming && path == p { seq![out_item(l, ranked)] } else { seq![] };
        let inc: Seq<Item> = if d != Direction::Outgoing && opt_view(l.target_path) == Some(p) { seq![in_item(path, l, ranked)] } else { seq![] };
        res_citems(path, links.drop_last(), p, d, ranked) + out + inc
    }
}

/// The cache items at `p` of all resources' links.
pub open spec fn all_citems(rs: Seq<Resource>, p: Seq<char>, d: Direction, ranked: Seq<Seq<char>>) -> Seq<Item>
    decreases rs.len(),
{
    if rs.len() == 0 {
        seq![]
    } else {
        all_citems(rs.drop_last(), p, d, ranked) + res_citems(rs.last().path@, rs.last().links@, p, d, ranked)
    }
}

proof fn lemma_cache_edges_items(rows: Seq<CacheLink>, p: Seq<char>, d: Direction)
    ensures
        cache_edges(rows, p, d).map_values(|v: crate::cache::CacheEdgeView| cache_item(v)) == citems(cache_links_view(rows), p, d),
    decreases rows.len(),
{
    reveal_strlit("path:");
    if rows.len() == 0 {
        assert(cache_edges(rows, p, d).map_values(|v: crate::cache::CacheEdgeView| cache_item(v)) =~= seq![]);
    } else {
        lemma_cache_edges_items(rows.drop_last(), p, d);
        assert(cache_links_view(rows).drop_last() =~= cache_links_view(rows.drop_last()));
        assert(cache_edges(rows, p, d).map_values(|v: crate::cache::CacheEdgeView| cache_item(v))
            =~= citems(cache_links_view(rows), p, d));
    }
}

#[verifier::spinoff_prover]
#[verifier::rlimit(40)]
proof fn lemma_citems_concat(a: Seq<CacheLinkView>, b: Seq<CacheLinkView>, p: Seq<char>, d: Direction)
    ensures
        citems(a + b, p, d) == citems(a, p, d) + citems(b, p, d),
    decreases b.len(),
{
    if b.len() == 0 {
        assert(a + b =~= a);
        assert(citems(a, p, d) + citems(b, p, d) =~= citems(a, p, d));
    } else {
        lemma_citems_concat(a, b.drop_last(), p, d);
        assert((a + b).drop_last() =~= a + b.drop_last());
        assert(citems(a + b, p, d) =~= citems(a, p, d) + citems(b, p, d));
    }
}

proof fn lemma_rank_row(ranked: Seq<Seq<char>>, rel: Seq<char>)
    requires
        ranked.len() < i64::MAX,
    ensures
        or_max(row_rank(ranked, rel)) == rank_int(ranked, rel),
{
    if ranked.contains(rel) {
        let i = ranked.index_of(rel);
        assert(0 <= i < ranked.len() && ranked[i] == rel);
    }
}

proof fn lemma_resource_rows_items(path: Seq<char>, links: Seq<ResolvedLink>, p: Seq<char>, d: Direction, ranked: Seq<Seq<char>>)
    requires
        ranked.len() < i64::MAX,
    ensures
        citems(resource_link_rows(path, links, ranked), p, d) == res_citems(path, links, p, d, ranked),
    decreases links.len(),
{
    if links.len() > 0 {
        lemma_resource_rows_items(path, links.drop_last(), p, d, ranked);
        lemma_rank_row(ranked, links.last().rel@);
        let v = resource_link_rows(path, links, ranked);
        assert(v.drop_last() == resource_link_rows(path, links.drop_last(), ranked));
        assert(citems(v, p, d) =~= res_citems(path, links, p, d, ranked));
    }
}

/// The cache items of the rows of a graph are those of its resources' links.
proof fn lemma_rows_items(rs: Seq<Resource>, p: Seq<char>, d: Direction, ranked: Seq<Seq<char>>)
    requires
        ranked.len() < i64::MAX,
    ensures
        citems(link_rows_spec(rs, ranked), p, d) == all_citems(rs, p, d, ranked),
    decreases rs.len(),
{
    if rs.len() > 0 {
        lemma_rows_items(rs.drop_last(), p, d, ranked);
        lemma_citems_concat(link_rows_spec(rs.drop_last(), ranked), resource_link_rows(rs.last().path@, rs.last().links@, ranked), p, d);
        lemma_resource_rows_items(rs.last().path@, rs.last().links@, p, d, ranked);
    }
}

/// The items of the links of `links` that resolved, followed forward.
pub open spec fn out_items(links: Seq<ResolvedLink>, ranked: Seq<Seq<char>>) -> Seq<Item>
    decreases links.len(),
{
    if links.len() == 0 {
        seq![]
    } else {
        out_items(links.drop_last(), ranked) + if links.last().target_path is Some { seq![out_item(links.last(), ranked)] } else { seq![] }
    }
}

/// The items of the links of the resource at `src` that point at `p`,
/// followed backward.
pub open spec fn in_items_from(links: Seq<ResolvedLink>, src: Seq<char>, p: Seq<char>, ranked: Seq<Seq<char>>) -> Seq<Item>
    decreases links.len(),
{
    if links.len() == 0 {
        seq![]
    } else {
        in_items_from(links.drop_last(), src, p, ranked)
            + if opt_view(links.last().target_path) == Some(p) { seq![in_item(src, links.last(), ranked)] } else { seq![] }
    }
}

/// The items of all links that point at `p`, followed backward.
pub open spec fn in_items(rs: Seq<Resource>, p: Seq<char>, ranked: Seq<Seq<char>>) -> Seq<Item>
    decreases rs.len(),
{
    if rs.len() == 0 {
        seq![]
    } else {
        in_items(rs.drop_last(), p, ranked) + in_items_from(rs.last().links@, rs.last().path@, p, ranked)
    }
}

proof fn lemma_out_edges_items(links: Seq<ResolvedLink>, ranked: Seq<Seq<char>>)
    ensures
        out_edges(links).map_values(|v: EdgeView| edge_item(v, ranked)) == out_items(links, ranked),
    decreases links.len(),
{
    if links.len() == 0 {
        assert(out_edges(links).map_values(|v: EdgeView| edge_item(v, ranked)) =~= seq![]);
    } else {
        lemma_out_edges_items(links.drop_last(), ranked);
        assert(out_edges(links).map_values(|v: EdgeView| edge_item(v, ranked)) =~= out_items(links, ranked));
    }
}

proof fn lemma_in_edges_from_items(links: Seq<ResolvedLink>, src: Seq<char>, p: Seq<char>, ranked: Seq<Seq<char>>)
    ensures
        in_edges_from(links, src, p).map_values(|v: EdgeView| edge_item(v, ranked)) == in_items_from(links, src, p, ranked),
    decreases links.len(),
{
    if links.len() == 0 {
        assert(in_edges_from(links, src, p).map_values(|v: EdgeView| edge_item(v, ranked)) =~= seq![]);
    } else {
        lemma_in_edges_from_items(links.drop_last(), src, p, ranked);
        assert(in_edges_from(links, src, p).map_values(|v: EdgeView| edge_item(v, ranked)) =~= in_items_from(links, src, p, ranked));
    }
}

proof fn lemma_in_edges_items(rs: Seq<Resource>, p: Seq<char>, ranked: Seq<Seq<char>>)
    ensures
        in_edges(rs, p).map_values(|v: EdgeView| edge_item(v, ranked)) == in_items(rs, p, ranked),
    decreases rs.len(),
{
    if rs.len() == 0 {
        assert(in_edges(rs, p).map_values(|v: EdgeView| edge_item(v, ranked)) =~= seq![]);
    } else {
        lemma_in_edges_items(rs.drop_last(), p, ranked);
        lemma_in_edges_from_items(rs.last().links@, rs.last().path@, p, ranked);
        assert(in_edges(rs, p).map_values(|v: EdgeView| edge_item(v, ranked)) =~= in_items(rs, p, ranked));
    }
}

proof fn lemma_out_items_member(links: Seq<ResolvedLink>, ranked: Seq<Seq<char>>, x: Item)
    requires
        out_items(links, ranked).contains(x),
    ensures
        exists|j: int| 0 <= j < links.len() && links[j].target_path is Some && x == #[trigger] out_item(links[j], ranked),
    decreases links.len(),
{
    let rest = out_items(links.drop_last(), ranked);
    let k = choose|k: int| 0 <= k < out_items(links, ranked).len() && out_items(links, ranked)[k] == x;
    if k < rest.len() {
        assert(rest[k] == x);
        lemma_out_items_member(links.drop_last(), ranked, x);
        let j = choose|j: int| 0 <= j < links.drop_last().len() && links.drop_last()[j].target_path is Some && x == #[trigger] out_item(links.drop_last()[j], ranked);
        assert(links[j] == links.drop_last()[j]);
    } else {
        assert(links[links.len() - 1] == links.last());
    }
}

proof fn lemma_in_items_from_member(links: Seq<ResolvedLink>, src: Seq<char>, p: Seq<char>, ranked: Seq<Seq<char>>, x: Item)
    requires
        in_items_from(links, src, p, ranked).contains(x),
    ensures
        exists|j: int| 0 <= j < links.len() && opt_view(links[j].target_path) == Some(p) && x == #[trigger] in_item(src, links[j], ranked),
    decreases links.len(),
{
    let rest = in_items_from(links.drop_last(), src, p, ranked);
    let k = choose|k: int| 0 <= k < in_items_from(links, src, p, ranked).len() && in_items_from(links, src, p, ranked)[k] == x;
    if k < rest.len() {
        assert(rest[k] == x);
        lemma_in_items_from_member(links.drop_last(), src, p, ranked, x);
        let j = choose|j: int| 0 <= j < links.drop_last().len() && opt_view(links.drop_last()[j].target_path) == Some(p) && x == #[trigger] in_item(src, links.drop_last()[j], ranked);
        assert(links[j] == links.drop_last()[j]);
    } else {
        assert(links[links.len() - 1] == links.last());
    }
}

proof fn lemma_in_items_member(rs: Seq<Resource>, p: Seq<char>, ranked: Seq<Seq<char>>, x: Item)
    requires
        in_items(rs, p, ranked).contains(x),
    ensures
        exists|i: int, j: int| 0 <= i < rs.len() && 0 <= j < rs[i].links@.len() && opt_view(rs[i].links@[j].target_path) == Some(p)
            && x == #[trigger] in_item(rs[i].path@, rs[i].links@[j], ranked),
    decreases rs.len(),
{
    let rest = in_items(rs.drop_last(), p, ranked);
    let last = in_items_from(rs.last().links@, rs.last().path@, p, ranked);
    let k = choose|k: int| 0 <= k < in_items(rs, p, ranked).len() && in_items(rs, p, ranked)[k] == x;
    if k < rest.len() {
        assert(rest[k] == x);
        lemma_in_items_member(rs.drop_last(), p, ranked, x);
        let (i, j) = choose|i: int, j: int| 0 <= i < rs.drop_last().len() && 0 <= j < rs.drop_last()[i].links@.len()
            && opt_view(rs.drop_last()[i].links@[j].target_path) == Some(p)
            && x == #[trigger] in_item(rs.drop_last()[i].path@, rs.drop_last()[i].links@[j], ranked);
        assert(rs[i] == rs.drop_last()[i]);
    } else {
        assert(last[k - rest.len()] == x);
        lemma_in_items_from_member(rs.last().links@, rs.last().path@, p, ranked, x);
        let i = rs.len() - 1;
        assert(rs[i] == rs.last());
    }
}

/// The forward items of the resource at `path` at node `p`.
pub open spec fn out_part(path: Seq<char>, links: Seq<ResolvedLink>, p: Seq<char>, d: Direction, ranked: Seq<Seq<char>>) -> Seq<Item> {
    if d != Direction::Incoming && path == p { out_items(links, ranked) } else { seq![] }
}

/// The backward items of the resource at `path` at node `p`.
pub open spec fn in_part(path: Seq<char>, links: Seq<ResolvedLink>, p: Seq<char>, d: Direction, ranked: Seq<Seq<char>>) -> Seq<Item> {
    if d != Direction::Outgoing { in_items_from(links, path, p, ranked) } else { seq![] }
}

proof fn lemma_res_citems_multiset(path: Seq<char>, links: Seq<ResolvedLink>, p: Seq<char>, d: Direction, ranked: Seq<Seq<char>>)
    ensures
        some_items(res_citems(path, links, p, d, ranked)).to_multiset()
            == out_part(path, links, p, d, ranked).to_multiset().add(in_part(path, links, p, d, ranked).to_multiset()),
    decreases links.len(),
{
    broadcast use vstd::seq_lib::group_to_multiset_ensures;
    broadcast use vstd::multiset::group_multiset_axioms;
    broadcast use vstd::seq_lib::lemma_multiset_commutative;
    if links.len() == 0 {
        assert(some_items(res_citems(path, links, p, d, ranked)) =~= seq![]);
        assert(out_part(path, links, p, d, ranked) =~= seq![]);
        assert(in_part(path, links, p, d, ranked) =~= seq![]);
        assert(Seq::<Item>::empty().to_multiset().add(Seq::<Item>::empty().to_multiset()) =~= Seq::<Item>::empty().to_multiset());
    } else {
        let l = links.last();
        let front = links.drop_last();
        lemma_res_citems_multiset(path, front, p, d, ranked);
        let out: Seq<Item> = if d != Direction::Incoming && path == p { seq![out_item(l, ranked)] } else { seq![] };
        let inc: Seq<Item> = if d != Direction::Outgoing && opt_view(l.target_path) == Some(p) { seq![in_item(path, l, ranked)] } else { seq![] };
        let base = res_citems(path, front, p, d, ranked);
        assert(res_citems(path, links, p, d, ranked) == base + out + inc);
        lemma_some_items_concat(base + out, inc);
        lemma_some_items_concat(base, out);
        let so: Seq<Item> = if d != Direction::Incoming && path == p && l.target_path is Some { seq![out_item(l, ranked)] } else { seq![] };
        lemma_some_items_one(out_item(l, ranked));
        lemma_some_items_one(in_item(path, l, ranked));
        assert(some_items(Seq::<Item>::empty()) =~= Seq::<Item>::empty());
        assert(some_items(out) =~= so);
        assert(some_items(inc) =~= inc);
        assert(out_part(path, links, p, d, ranked) =~= out_part(path, front, p, d, ranked) + so);
        assert(in_part(path, links, p, d, ranked) =~= in_part(path, front, p, d, ranked) + inc);
        assert(some_items(res_citems(path, links, p, d, ranked)).to_multiset()
            =~= out_part(path, links, p, d, ranked).to_multiset().add(in_part(path, links, p, d, ranked).to_multiset()));
    }
}

/// Paths are unique among `rs`.
pub open spec fn unique_paths(rs: Seq<Resource>) -> bool {
    forall|i: int, j: int| 0 <= i < rs.len() && 0 <= j < rs.len() && #[trigger] rs[i].path@ == #[trigger] rs[j].path@ ==> i == j
}

/// The forward items at `p`, from the resource at `p` if there is one.
pub open spec fn node_out(rs: Seq<Resource>, p: Seq<char>, d: Direction, ranked: Seq<Seq<char>>) -> Seq<Item> {
    match crate::trace::last_with_path(rs, p) {
        Some(k) => if d != Direction::Incoming { out_items(rs[k].links@, ranked) } else { seq![] },
        None => seq![],
    }
}

/// The backward items at `p`.
pub open spec fn node_in(rs: Seq<Resource>, p: Seq<char>, d: Direction, ranked: Seq<Seq<char>>) -> Seq<Item> {
    if d != Direction::Outgoing { in_items(rs, p, ranked) } else { seq![] }
}

proof fn lemma_last_with_path_none(rs: Seq<Resource>, p: Seq<char>)
    requires
        crate::trace::last_with_path(rs, p) is None,
    ensures
        forall|m: int| 0 <= m < rs.len() ==> (#[trigger] rs[m]).path@ != p,
    decreases rs.len(),
{
    if rs.len() > 0 {
        lemma_last_with_path_none(rs.drop_last(), p);
        assert forall|m: int| 0 <= m < rs.len() implies (#[trigger] rs[m]).path@ != p by {
            if m < rs.len() - 1 {
                assert(rs[m] == rs.drop_last()[m]);
            }
        }
    }
}

proof fn lemma_last_with_path_some(rs: Seq<Resource>, p: Seq<char>)
    ensures
        crate::trace::last_with_path(rs, p) matches Some(k) ==> 0 <= k < rs.len() && rs[k].path@ == p,
    decreases rs.len(),
{
    if rs.len() > 0 {
        lemma_last_with_path_some(rs.drop_last(), p);
    }
}

/// The cache items with a target at `p` are, as a multiset, the graph's
/// forward and backward items at `p`.
proof fn lemma_all_citems_multiset(rs: Seq<Resource>, p: Seq<char>, d: Direction, ranked: Seq<Seq<char>>)
    requires
        unique_paths(rs),
    ensures
        some_items(all_citems(rs, p, d, ranked)).to_multiset()
            == node_out(rs, p, d, ranked).to_multiset().add(node_in(rs, p, d, ranked).to_multiset()),
    decreases rs.len(),
{
    broadcast use vstd::seq_lib::group_to_multiset_ensures;
    broadcast use vstd::multiset::group_multiset_axioms;
    broadcast use vstd::seq_lib::lemma_multiset_commutative;
    if rs.len() == 0 {
        assert(some_items(all_citems(rs, p, d, ranked)) =~= seq![]);
        assert(node_in(rs, p, d, ranked) =~= seq![]);
        assert(Seq::<Item>::empty().to_multiset().add(Seq::<Item>::empty().to_multiset()) =~= Seq::<Item>::empty().to_multiset());
    } else {
        let front = rs.drop_last();
        let r = rs.last();
        assert(unique_paths(front)) by {
            assert forall|i: int, j: int| 0 <= i < front.len() && 0 <= j < front.len() && #[trigger] front[i].path@ == #[trigger] front[j].path@ implies i == j by {
                assert(rs[i] == front[i] && rs[j] == front[j]);
            }
        }
        lemma_all_citems_multiset(front, p, d, ranked);
        lemma_some_items_concat(all_citems(front, p, d, ranked), res_citems(r.path@, r.links@, p, d, ranked));
        lemma_res_citems_multiset(r.path@, r.links@, p, d, ranked);
        assert(node_in(rs, p, d, ranked) =~= node_in(front, p, d, ranked) + in_part(r.path@, r.links@, p, d, ranked));
        if r.path@ == p {
            assert(crate::trace::last_with_path(front, p) is None) by {
                lemma_last_with_path_some(front, p);
                if let Some(k) = crate::trace::last_with_path(front, p) {
                    assert(rs[k] == front[k]);
                    assert(rs[rs.len() - 1] == r);
                }
            }
            assert(node_out(rs, p, d, ranked) == out_part(r.path@, r.links@, p, d, ranked));
            assert(node_out(front, p, d, ranked) =~= seq![]);
        } else {
            assert(out_part(r.path@, r.links@, p, d, ranked) =~= seq![]);
            lemma_last_with_path_some(front, p);
            if let Some(k) = crate::trace::last_with_path(front, p) {
                assert(rs[k] == front[k]);
            }
            assert(node_out(rs, p, d, ranked) == node_out(front, p, d, ranked));
        }
        assert(some_items(all_citems(rs, p, d, ranked)).to_multiset()
            =~= node_out(rs, p, d, ranked).to_multiset().add(node_in(rs, p, d, ranked).to_multiset()));
    }
}

/// What the graph build guarantees of resolved links, and what the agreement
/// of the two traces rests on: paths are unique, every resolved target is a
/// resource, links with the same locator resolve alike, and a `path:`
/// locator naming a resource resolves to it.
pub open spec fn links_consistent(rs: Seq<Resource>) -> bool {
    &&& unique_paths(rs)
    &&& forall|i: int, j: int| 0 <= i < rs.len() && 0 <= j < rs[i].links@.len() && (#[trigger] rs[i].links@[j]).target_path is Some
        ==> exists|m: int| 0 <= m < rs.len() && Some(#[trigger] rs[m].path@) == opt_view(rs[i].links@[j].target_path)
    &&& forall|i1: int, j1: int, i2: int, j2: int|
        0 <= i1 < rs.len() && 0 <= j1 < rs[i1].links@.len() && 0 <= i2 < rs.len() && 0 <= j2 < rs[i2].links@.len()
        && (#[trigger] rs[i1].links@[j1]).to@ == (#[trigger] rs[i2].links@[j2]).to@
        ==> opt_view(rs[i1].links@[j1].target_path) == opt_view(rs[i2].links@[j2].target_path)
    &&& forall|i: int, j: int, m: int| 0 <= i < rs.len() && 0 <= j < rs[i].links@.len() && 0 <= m < rs.len()
        && (#[trigger] rs[i].links@[j]).to@ == "path:"@ + (#[trigger] rs[m].path@)
        ==> opt_view(rs[i].links@[j].target_path) == Some(rs[m].path@)
}

/// Items of `s` with the same sort key are the same item.
pub open spec fn ties_agree(s: Seq<Item>) -> bool {
    forall|x: Item, y: Item| s.contains(x) && s.contains(y) && same_key(x, y) ==> x == y
}

proof fn lemma_path_prefix_cancel(a: Seq<char>, b: Seq<char>)
    requires
        "path:"@ + a == "path:"@ + b,
    ensures
        a == b,
{
    reveal_strlit("path:");
    assert(a =~= ("path:"@ + a).skip(5));
    assert(b =~= ("path:"@ + b).skip(5));
}

/// At every node, items of the graph with the same key agree.
proof fn lemma_node_ties(rs: Seq<Resource>, p: Seq<char>, d: Direction, ranked: Seq<Seq<char>>)
    requires
        links_consistent(rs),
    ensures
        ties_agree(node_out(rs, p, d, ranked) + node_in(rs, p, d, ranked)),
{
    let o = node_out(rs, p, d, ranked);
    let n = node_in(rs, p, d, ranked);
    let a = o + n;
    lemma_last_with_path_some(rs, p);
    assert forall|x: Item, y: Item| a.contains(x) && a.contains(y) && same_key(x, y) implies x == y by {
        let ix = choose|ix: int| 0 <= ix < a.len() && a[ix] == x;
        let iy = choose|iy: int| 0 <= iy < a.len() && a[iy] == y;
        // Where each item comes from.
        let x_out = ix < o.len();
        let y_out = iy < o.len();
        if x_out {
            assert(o[ix] == x);
            assert(o.contains(x));
        } else {
            assert(n[ix - o.len()] == x);
            assert(n.contains(x));
        }
        if y_out {
            assert(o[iy] == y);
            assert(o.contains(y));
        } else {
            assert(n[iy - o.len()] == y);
            assert(n.contains(y));
        }
        if x_out || y_out {
            let k = crate::trace::last_with_path(rs, p)->0;
        }
        if x_out && y_out {
            let k = crate::trace::last_with_path(rs, p)->0;
            let links = rs[k].links@;
            lemma_out_items_member(links, ranked, x);
            lemma_out_items_member(links, ranked, y);
            let j1 = choose|j: int| 0 <= j < links.len() && links[j].target_path is Some && x == #[trigger] out_item(links[j], ranked);
            let j2 = choose|j: int| 0 <= j < links.len() && links[j].target_path is Some && y == #[trigger] out_item(links[j], ranked);
            assert(rs[k].links@[j1].to@ == rs[k].links@[j2].to@);
        } else if !x_out && !y_out {
            lemma_in_items_member(rs, p, ranked, x);
            lemma_in_items_member(rs, p, ranked, y);
            let (i1, j1) = choose|i: int, j: int| 0 <= i < rs.len() && 0 <= j < rs[i].links@.len() && opt_view(rs[i].links@[j].target_path) == Some(p)
                && x == #[trigger] in_item(rs[i].path@, rs[i].links@[j], ranked);
            let (i2, j2) = choose|i: int, j: int| 0 <= i < rs.len() && 0 <= j < rs[i].links@.len() && opt_view(rs[i].links@[j].target_path) == Some(p)
                && y == #[trigger] in_item(rs[i].path@, rs[i].links@[j], ranked);
            lemma_path_prefix_cancel(rs[i1].path@, rs[i2].path@);
        } else {
            let (u, v) = if x_out { (x, y) } else { (y, x) };
            let k = crate::trace::last_with_path(rs, p)->0;
            let links = rs[k].links@;
            lemma_out_items_member(links, ranked, u);
            let j1 = choose|j: int| 0 <= j < links.len() && links[j].target_path is Some && u == #[trigger] out_item(links[j], ranked);
            lemma_in_items_member(rs, p, ranked, v);
            let (i2, j2) = choose|i: int, j: int| 0 <= i < rs.len() && 0 <= j < rs[i].links@.len() && opt_view(rs[i].links@[j].target_path) == Some(p)
                && v == #[trigger] in_item(rs[i].path@, rs[i].links@[j], ranked);
            assert(rs[k].links@[j1].to@ == "path:"@ + rs[i2].path@);
            assert(opt_view(rs[k].links@[j1].target_path) == Some(rs[i2].path@));
        }
    }
}

proof fn lemma_rank_compare(ranked: Seq<Seq<char>>, a: Seq<char>, b: Seq<char>)
    requires
        ranked.len() < i64::MAX,
    ensures
        (rank_spec(ranked, a) < rank_spec(ranked, b)) == (rank_int(ranked, a) < rank_int(ranked, b)),
        (rank_spec(ranked, a) == rank_spec(ranked, b)) == (rank_int(ranked, a) == rank_int(ranked, b)),
{
    if ranked.contains(a) {
        let i = ranked.index_of(a);
        assert(0 <= i < ranked.len() && ranked[i] == a);
    }
    if ranked.contains(b) {
        let i = ranked.index_of(b);
        assert(0 <= i < ranked.len() && ranked[i] == b);
    }
}

/// The items of a resource's edges are its forward and backward items.
proof fn lemma_resource_edge_items(rs: Seq<Resource>, k: int, d: Direction, ranked: Seq<Seq<char>>)
    requires
        0 <= k < rs.len(),
        crate::trace::last_with_path(rs, rs[k].path@) == Some(k),
    ensures
        resource_edges(rs, k, d).map_values(|v: EdgeView| edge_item(v, ranked))
            == node_out(rs, rs[k].path@, d, ranked) + node_in(rs, rs[k].path@, d, ranked),
{
    let p = rs[k].path@;
    let o: Seq<EdgeView> = if d != Direction::Incoming { out_edges(rs[k].links@) } else { seq![] };
    let n: Seq<EdgeView> = if d != Direction::Outgoing { in_edges(rs, p) } else { seq![] };
    lemma_out_edges_items(rs[k].links@, ranked);
    lemma_in_edges_items(rs, p, ranked);
    assert(resource_edges(rs, k, d) == o + n);
    assert((o + n).map_values(|v: EdgeView| edge_item(v, ranked))
        =~= o.map_values(|v: EdgeView| edge_item(v, ranked)) + n.map_values(|v: EdgeView| edge_item(v, ranked)));
    assert(o.map_values(|v: EdgeView| edge_item(v, ranked)) =~= node_out(rs, p, d, ranked));
    assert(n.map_values(|v: EdgeView| edge_item(v, ranked)) =~= node_in(rs, p, d, ranked));
}

/// The targets of items that all have one.
pub open spec fn targets_of(s: Seq<Item>) -> Seq<Seq<char>> {
    s.map_values(|x: Item| x.4->0)
}

/// The graph's sorted neighbors are the targets of its items in sorted order.
proof fn lemma_trace_side(ns: Seq<Seq<char>>, views: Seq<EdgeView>, ranked: Seq<Seq<char>>) -> (perm: Seq<int>)
    requires
        ranked.len() < i64::MAX,
        sorted_neighbors(ns, views, ranked),
        ties_agree(views.map_values(|v: EdgeView| edge_item(v, ranked))),
    ensures
        is_perm(perm, views.len()),
        sorted_by(permuted(views.map_values(|v: EdgeView| edge_item(v, ranked)), perm), |x: Item, y: Item| item_le(x, y)),
        ns == targets_of(permuted(views.map_values(|v: EdgeView| edge_item(v, ranked)), perm)),
{
    let a = views.map_values(|v: EdgeView| edge_item(v, ranked));
    let (edges, perm) = choose|edges: Seq<ResolvedLink>, perm: Seq<int>| {
        &&& edges.len() == views.len()
        &&& forall|j: int| 0 <= j < views.len() ==> edge_of(#[trigger] edges[j]) == views[j]
        &&& sorted_positions(edges, perm, ranked)
        &&& ns.len() == perm.len()
        &&& forall|j: int| 0 <= j < ns.len() ==> ns[j] == views[#[trigger] perm[j]].3
    };
    let sa = permuted(a, perm);
    let le = |x: Item, y: Item| item_le(x, y);
    assert forall|i: int, j: int| 0 <= i < j < sa.len() implies #[trigger] le(sa[i], sa[j]) by {
        let (pi, pj) = (perm[i], perm[j]);
        let (ei, ej) = (edges[pi], edges[pj]);
        assert(edge_of(ei) == views[pi] && edge_of(ej) == views[pj]);
        assert(sa[i] == edge_item(views[pi], ranked) && sa[j] == edge_item(views[pj], ranked));
        lemma_rank_compare(ranked, ei.rel@, ej.rel@);
        if link_before(ei, ej, ranked) {
        } else {
            assert(crate::resolve::same_key(ei, ej));
            assert(a.contains(sa[i]) && a.contains(sa[j])) by {
                assert(a[pi] == sa[i] && a[pj] == sa[j]);
            }
            assert(same_key(sa[i], sa[j]));
            assert(sa[i] == sa[j]);
        }
    }
    assert(ns =~= targets_of(sa));
    perm
}

/// The cache's sorted targets, read through the items.
proof fn lemma_present_targets(c: Seq<CacheEdgeView>, perm: Seq<int>)
    requires
        forall|j: int| 0 <= j < perm.len() ==> 0 <= #[trigger] perm[j] < c.len(),
    ensures
        present_targets(c, perm) == targets_of(some_items(permuted(c.map_values(|v: CacheEdgeView| cache_item(v)), perm))),
    decreases perm.len(),
{
    let b = c.map_values(|v: CacheEdgeView| cache_item(v));
    if perm.len() == 0 {
        assert(permuted(b, perm) =~= seq![]);
        assert(targets_of(some_items(permuted(b, perm))) =~= seq![]);
    } else {
        lemma_present_targets(c, perm.drop_last());
        let sb = permuted(b, perm);
        assert(sb.drop_last() =~= permuted(b, perm.drop_last()));
        assert(sb.last() == cache_item(c[perm.last()]));
        let rest = some_items(sb.drop_last());
        let tail: Seq<Item> = if sb.last().4 is Some { seq![sb.last()] } else { seq![] };
        assert(some_items(sb) == rest + tail);
        assert(targets_of(rest + tail) =~= targets_of(rest) + targets_of(tail));
        assert(present_targets(c, perm) =~= targets_of(some_items(sb)));
    }
}

/// The cache's items at `p` with a target are the graph's items at `p`.
proof fn lemma_cache_items_multiset(rs: Seq<Resource>, ranked: Seq<Seq<char>>, rows: Seq<CacheLink>, p: Seq<char>, d: Direction)
    requires
        unique_paths(rs),
        ranked.len() < i64::MAX,
        cache_links_view(rows) == link_rows_spec(rs, ranked),
    ensures
        some_items(cache_edges(rows, p, d).map_values(|v: CacheEdgeView| cache_item(v))).to_multiset()
            == (node_out(rs, p, d, ranked) + node_in(rs, p, d, ranked)).to_multiset(),
{
    broadcast use vstd::seq_lib::lemma_multiset_commutative;
    lemma_cache_edges_items(rows, p, d);
    lemma_rows_items(rs, p, d, ranked);
    lemma_all_citems_multiset(rs, p, d, ranked);
}

/// Sorted cache items with targets are in item order.
proof fn lemma_cache_side_sorted(c: Seq<CacheEdgeView>, perm: Seq<int>, a: Seq<Item>)
    requires
        cache_sorted_positions(c, perm),
        some_items(c.map_values(|v: CacheEdgeView| cache_item(v))).to_multiset() == a.to_multiset(),
        ties_agree(a),
    ensures
        sorted_by(some_items(permuted(c.map_values(|v: CacheEdgeView| cache_item(v)), perm)), |x: Item, y: Item| item_le(x, y)),
        some_items(permuted(c.map_values(|v: CacheEdgeView| cache_item(v)), perm)).to_multiset() == a.to_multiset(),
{
    broadcast use vstd::seq_lib::group_to_multiset_ensures;
    let b = c.map_values(|v: CacheEdgeView| cache_item(v));
    let sb = permuted(b, perm);
    lemma_permuted_multiset(b, perm);
    lemma_some_items_multiset(sb, b);
    assert forall|i: int, j: int| 0 <= i < j < sb.len() && sb[i].4 is Some && sb[j].4 is Some implies item_le(#[trigger] sb[i], #[trigger] sb[j]) by {
        let (pi, pj) = (perm[i], perm[j]);
        assert(sb[i] == cache_item(c[pi]) && sb[j] == cache_item(c[pj]));
        if !cache_before(c[pi], c[pj]) {
            assert(cache_same_key(c[pi], c[pj]));
            assert(same_key(sb[i], sb[j]));
            lemma_some_items_count(sb, sb[i]);
            lemma_some_items_count(sb, sb[j]);
            assert(sb.contains(sb[i]) && sb.contains(sb[j]));
            assert(a.to_multiset().count(sb[i]) > 0 && a.to_multiset().count(sb[j]) > 0);
            assert(a.contains(sb[i]) && a.contains(sb[j]));
            assert(sb[i] == sb[j]);
        }
    }
    lemma_some_items_sorted(sb);
}

proof fn lemma_last_with_path_unique(rs: Seq<Resource>, k: int)
    requires
        unique_paths(rs),
        0 <= k < rs.len(),
    ensures
        crate::trace::last_with_path(rs, rs[k].path@) == Some(k),
{
    lemma_last_with_path_some(rs, rs[k].path@);
    if crate::trace::last_with_path(rs, rs[k].path@) is None {
        lemma_last_with_path_none(rs, rs[k].path@);
    }
}

/// At a resource's node, the graph and the cache give the same neighbors.
pub proof fn lemma_node_agrees(rs: Seq<Resource>, ranked: Seq<Seq<char>>, rows: Seq<CacheLink>, k: int, d: Direction, ns: Seq<Seq<char>>, perm: Seq<int>)
    requires
        links_consistent(rs),
        ranked.len() < i64::MAX,
        cache_links_view(rows) == link_rows_spec(rs, ranked),
        0 <= k < rs.len(),
        sorted_neighbors(ns, resource_edges(rs, k, d), ranked),
        cache_sorted_positions(cache_edges(rows, rs[k].path@, d), perm),
    ensures
        ns == present_targets(cache_edges(rows, rs[k].path@, d), perm),
{
    let p = rs[k].path@;
    let views = resource_edges(rs, k, d);
    let a = node_out(rs, p, d, ranked) + node_in(rs, p, d, ranked);
    let c = cache_edges(rows, p, d);
    lemma_last_with_path_unique(rs, k);
    lemma_resource_edge_items(rs, k, d, ranked);
    lemma_node_ties(rs, p, d, ranked);
    let perm1 = lemma_trace_side(ns, views, ranked);
    let sa = permuted(a, perm1);
    lemma_permuted_multiset(a, perm1);
    lemma_cache_items_multiset(rs, ranked, rows, p, d);
    lemma_cache_side_sorted(c, perm, a);
    let sb = some_items(permuted(c.map_values(|v: CacheEdgeView| cache_item(v)), perm));
    lemma_item_le_total_ordering();
    lemma_sorted_unique(sa, sb, |x: Item, y: Item| item_le(x, y));
    lemma_present_targets(c, perm);
}

/// At a path that is no resource, the cache gives no neighbors.
pub proof fn lemma_non_resource_node(rs: Seq<Resource>, ranked: Seq<Seq<char>>, rows: Seq<CacheLink>, p: Seq<char>, d: Direction, perm: Seq<int>)
    requires
        links_consistent(rs),
        ranked.len() < i64::MAX,
        cache_links_view(rows) == link_rows_spec(rs, ranked),
        crate::trace::last_with_path(rs, p) is None,
        cache_sorted_positions(cache_edges(rows, p, d), perm),
    ensures
        present_targets(cache_edges(rows, p, d), perm) == Seq::<Seq<char>>::empty(),
{
    broadcast use vstd::seq_lib::group_to_multiset_ensures;
    let c = cache_edges(rows, p, d);
    let b = c.map_values(|v: CacheEdgeView| cache_item(v));
    lemma_last_with_path_none(rs, p);
    assert(node_out(rs, p, d, ranked) =~= seq![]);
    if in_items(rs, p, ranked).len() > 0 {
        let x = in_items(rs, p, ranked)[0];
        assert(in_items(rs, p, ranked).contains(x));
        lemma_in_items_member(rs, p, ranked, x);
        let (i, j) = choose|i: int, j: int| 0 <= i < rs.len() && 0 <= j < rs[i].links@.len() && opt_view(rs[i].links@[j].target_path) == Some(p)
            && x == #[trigger] in_item(rs[i].path@, rs[i].links@[j], ranked);
        assert(rs[i].links@[j].target_path is Some);
        let m = choose|m: int| 0 <= m < rs.len() && Some(#[trigger] rs[m].path@) == opt_view(rs[i].links@[j].target_path);
        assert(rs[m].path@ != p);
    }
    let a = node_out(rs, p, d, ranked) + node_in(rs, p, d, ranked);
    assert(a.len() == 0);
    lemma_cache_items_multiset(rs, ranked, rows, p, d);
    lemma_permuted_multiset(b, perm);
    lemma_some_items_multiset(permuted(b, perm), b);
    lemma_present_targets(c, perm);
    assert(a.to_multiset().len() == 0);
    assert(some_items(permuted(b, perm)).to_multiset().len() == 0);
    assert(some_items(permuted(b, perm)).len() == 0);
    assert(present_targets(c, perm) =~= Seq::<Seq<char>>::empty());
}

proof fn lemma_trace_entry(adj: Seq<AdjEntry>, rs: Seq<Resource>, p: Seq<char>)
    requires
        adj.len() == rs.len(),
        forall|k: int| 0 <= k < adj.len() ==> (#[trigger] adj[k]).node@ == rs[k].path@,
    ensures
        entry_neighbors(adj, p) == match crate::trace::last_with_path(rs, p) {
            Some(k) => strs_view(adj[k].next@),
            None => Seq::<Seq<char>>::empty(),
        },
    decreases adj.len(),
{
    if adj.len() > 0 {
        assert forall|k: int| 0 <= k < adj.drop_last().len() implies (#[trigger] adj.drop_last()[k]).node@ == rs.drop_last()[k].path@ by {
            assert(adj.drop_last()[k] == adj[k] && rs.drop_last()[k] == rs[k]);
        }
        lemma_trace_entry(adj.drop_last(), rs.drop_last(), p);
        assert(adj.last() == adj[adj.len() - 1]);
        if let Some(k) = crate::trace::last_with_path(rs.drop_last(), p) {
            lemma_last_with_path_some(rs.drop_last(), p);
            assert(adj.drop_last()[k] == adj[k]);
        }
    }
}

proof fn lemma_cache_entry(adj: Seq<AdjEntry>, p: Seq<char>)
    ensures
        (exists|k: int| 0 <= k < adj.len() && (#[trigger] adj[k]).node@ == p && entry_neighbors(adj, p) == strs_view(adj[k].next@))
        || ((forall|k: int| 0 <= k < adj.len() ==> (#[trigger] adj[k]).node@ != p) && entry_neighbors(adj, p) == Seq::<Seq<char>>::empty()),
    decreases adj.len(),
{
    if adj.len() > 0 {
        let k0 = adj.len() - 1;
        if adj[k0].node@ == p {
            assert(adj.last() == adj[k0]);
        } else {
            lemma_cache_entry(adj.drop_last(), p);
            if exists|k: int| 0 <= k < adj.drop_last().len() && (#[trigger] adj.drop_last()[k]).node@ == p
                && entry_neighbors(adj.drop_last(), p) == strs_view(adj.drop_last()[k].next@) {
                let k = choose|k: int| 0 <= k < adj.drop_last().len() && (#[trigger] adj.drop_last()[k]).node@ == p
                    && entry_neighbors(adj.drop_last(), p) == strs_view(adj.drop_last()[k].next@);
                assert(adj[k] == adj.drop_last()[k]);
            } else {
                assert forall|k: int| 0 <= k < adj.len() implies (#[trigger] adj[k]).node@ != p by {
                    if k < k0 {
                        assert(adj[k] == adj.drop_last()[k]);
                    }
                }
            }
        }
    }
}

/// Depth-first runs over adjacencies with the same neighbors agree.
proof fn lemma_dfs_same(a1: Seq<AdjEntry>, a2: Seq<AdjEntry>, pending: Seq<Seq<char>>, visited: Seq<Seq<char>>, fuel: nat)
    requires
        forall|p: Seq<char>| #[trigger] entry_neighbors(a1, p) == entry_neighbors(a2, p),
    ensures
        dfs_run(a1, pending, visited, fuel) == dfs_run(a2, pending, visited, fuel),
    decreases fuel,
{
    if pending.len() > 0 && fuel > 0 {
        let p = pending.last();
        let rest = pending.drop_last();
        assert(entry_neighbors(a1, p) == entry_neighbors(a2, p));
        if visited.contains(p) {
            lemma_dfs_same(a1, a2, rest, visited, (fuel - 1) as nat);
        } else {
            lemma_dfs_same(a1, a2, rest + entry_neighbors(a1, p).reverse(), visited.push(p), (fuel - 1) as nat);
        }
    }
}

/// Every node gets the same neighbors from the graph's adjacency and from
/// the cache's.
proof fn lemma_same_neighbors(rs: Seq<Resource>, ranked: Seq<Seq<char>>, rows: Seq<CacheLink>, d: Direction, a1: Seq<AdjEntry>, a2: Seq<AdjEntry>, p: Seq<char>)
    requires
        links_consistent(rs),
        ranked.len() < i64::MAX,
        cache_links_view(rows) == link_rows_spec(rs, ranked),
        crate::trace::trace_adjacency(a1, rs, d, ranked),
        crate::cache::cache_adjacency(a2, rows, d),
    ensures
        entry_neighbors(a1, p) == entry_neighbors(a2, p),
{
    lemma_trace_entry(a1, rs, p);
    lemma_cache_entry(a2, p);
    lemma_last_with_path_some(rs, p);
    let c = cache_edges(rows, p, d);
    // The cache's neighbors at `p`, with the order they were sorted in.
    let perm: Seq<int> = if exists|k: int| 0 <= k < a2.len() && (#[trigger] a2[k]).node@ == p && entry_neighbors(a2, p) == strs_view(a2[k].next@) {
        let k = choose|k: int| 0 <= k < a2.len() && (#[trigger] a2[k]).node@ == p && entry_neighbors(a2, p) == strs_view(a2[k].next@);
        assert(crate::cache::cache_neighbors_ok(strs_view(a2[k].next@), cache_edges(rows, a2[k].node@, d)));
        choose|perm: Seq<int>| cache_sorted_positions(c, perm) && strs_view(a2[k].next@) == present_targets(c, perm)
    } else {
        if c.len() > 0 {
            let k = choose|k: int| 0 <= k < a2.len() && (#[trigger] a2[k]).node@ == p;
        }
        assert(present_targets(c, Seq::<int>::empty()) =~= Seq::<Seq<char>>::empty());
        Seq::<int>::empty()
    };
    assert(cache_sorted_positions(c, perm));
    assert(entry_neighbors(a2, p) == present_targets(c, perm));
    match crate::trace::last_with_path(rs, p) {
        Some(k) => {
            assert(sorted_neighbors(strs_view(a1[k].next@), resource_edges(rs, k, d), ranked));
            lemma_node_agrees(rs, ranked, rows, k, d, strs_view(a1[k].next@), perm);
        },
        None => {
            lemma_non_resource_node(rs, ranked, rows, p, d, perm);
        },
    }
}

/// For a graph whose links are consistent, a trace of the graph and a trace
/// of its cache rows from the same start visit the same paths in the same
/// order.
pub(crate) proof fn lemma_traces_agree(rs: Seq<Resource>, ranked: Seq<Seq<char>>, rows: Seq<CacheLink>, d: Direction, start: Seq<char>, a1: Seq<AdjEntry>, a2: Seq<AdjEntry>, o1: Seq<Seq<char>>, o2: Seq<Seq<char>>)
    requires
        links_consistent(rs),
        ranked.len() < i64::MAX,
        cache_links_view(rows) == link_rows_spec(rs, ranked),
        crate::trace::trace_adjacency(a1, rs, d, ranked),
        crate::cache::cache_adjacency(a2, rows, d),
        dfs_order(a1, start, o1),
        dfs_order(a2, start, o2),
    ensures
        o1 == o2,
{
    assert forall|p: Seq<char>| #[trigger] entry_neighbors(a1, p) == entry_neighbors(a2, p) by {
        lemma_same_neighbors(rs, ranked, rows, d, a1, a2, p);
    }
    let f1 = choose|fuel: nat| dfs_run(a1, seq![start], seq![], fuel) == Some(o1);
    let f2 = choose|fuel: nat| dfs_run(a2, seq![start], seq![], fuel) == Some(o2);
    lemma_dfs_same(a1, a2, seq![start], seq![], f1);
    lemma_dfs_same(a1, a2, seq![start], seq![], f2);
    if f1 <= f2 {
        crate::traverse::lemma_dfs_run_more_fuel(a2, seq![start], seq![], f1, f2);
    } else {
        crate::traverse::lemma_dfs_run_more_fuel(a2, seq![start], seq![], f2, f1);
    }
}

/// The cache's resource rows list the graph's resources: same paths and ids,
/// in the same order.
pub open spec fn rows_mirror(cr: Seq<crate::cache::CacheResource>, rs: Seq<Resource>) -> bool {
    &&& cr.len() == rs.len()
    &&& forall|i: int| 0 <= i < rs.len() ==> (#[trigger] cr[i]).path@ == rs[i].path@ && opt_view(cr[i].id) == opt_view(rs[i].id)
}

/// No two resources share an id.
pub open spec fn unique_ids(rs: Seq<Resource>) -> bool {
    forall|i: int, j: int| 0 <= i < rs.len() && 0 <= j < rs.len() && (#[trigger] rs[i]).id is Some
        && opt_view(rs[i].id) == opt_view((#[trigger] rs[j]).id) ==> i == j
}

proof fn lemma_last_with_id_some(rs: Seq<Resource>, id: Seq<char>)
    ensures
        crate::trace::last_with_id(rs, id) matches Some(k) ==> 0 <= k < rs.len() && opt_view(rs[k].id) == Some(id),
    decreases rs.len(),
{
    if rs.len() > 0 {
        lemma_last_with_id_some(rs.drop_last(), id);
    }
}

proof fn lemma_paths_with_id(cr: Seq<crate::cache::CacheResource>, rs: Seq<Resource>, id: Seq<char>)
    requires
        rows_mirror(cr, rs),
        unique_ids(rs),
    ensures
        crate::cache::paths_with_id(cr, id) == match crate::trace::last_with_id(rs, id) {
            Some(k) => seq![rs[k].path@],
            None => Seq::<Seq<char>>::empty(),
        },
    decreases rs.len(),
{
    if rs.len() > 0 {
        let (cf, rf) = (cr.drop_last(), rs.drop_last());
        assert(rows_mirror(cf, rf)) by {
            assert forall|i: int| 0 <= i < rf.len() implies (#[trigger] cf[i]).path@ == rf[i].path@ && opt_view(cf[i].id) == opt_view(rf[i].id) by {
                assert(cf[i] == cr[i] && rf[i] == rs[i]);
            }
        }
        assert(unique_ids(rf)) by {
            assert forall|i: int, j: int| 0 <= i < rf.len() && 0 <= j < rf.len() && (#[trigger] rf[i]).id is Some
                && opt_view(rf[i].id) == opt_view((#[trigger] rf[j]).id) implies i == j by {
                assert(rf[i] == rs[i] && rf[j] == rs[j]);
            }
        }
        lemma_paths_with_id(cf, rf, id);
        lemma_last_with_id_some(rf, id);
        let n = rs.len() - 1;
        assert(cr.last() == cr[n] && rs.last() == rs[n]);
        if opt_view(rs[n].id) == Some(id) {
            if let Some(k) = crate::trace::last_with_id(rf, id) {
                assert(rs[k] == rf[k]);
                assert(rs[n].id is Some);
            }
            assert(crate::cache::paths_with_id(cr, id) =~= seq![rs[n].path@]);
        } else {
            if let Some(k) = crate::trace::last_with_id(rf, id) {
                assert(rs[k] == rf[k]);
            }
        }
    }
}

/// With unique ids, and cache rows that list the graph's resources, a start
/// locator resolves in the cache exactly when it resolves in the graph, and
/// to the same path.
pub(crate) proof fn lemma_starts_agree(cr: Seq<crate::cache::CacheResource>, rs: Seq<Resource>, from: Seq<char>)
    requires
        rows_mirror(cr, rs),
        unique_ids(rs),
    ensures
        match crate::trace::trace_start(rs, from) {
            Ok(s) => crate::cache::cache_resource_spec(cr, from) == Ok::<Seq<char>, Seq<char>>(s),
            Err(_) => crate::cache::cache_resource_spec(cr, from) is Err,
        },
{
    match crate::locator::locator_spec(from) {
        Err(_) => {},
        Ok((true, id)) => {
            lemma_paths_with_id(cr, rs, id);
        },
        Ok((false, p)) => {
            if let Ok(n) = crate::util::strict_path(p) {
                lemma_last_with_path_some(rs, n);
                if let Some(k) = crate::trace::last_with_path(rs, n) {
                    assert(cr[k].path@ == n);
                    assert(crate::cache::has_path(cr, n));
                } else {
                    lemma_last_with_path_none(rs, n);
                    if crate::cache::has_path(cr, n) {
                        let i = choose|i: int| 0 <= i < cr.len() && #[trigger] cr[i].path@ == n;
                        assert(rs[i].path@ != n);
                    }
                }
            }
        },
    }
}

/// Where a link locator resolves in `scope`: the path of the resource it
/// names, if it names one that is not ambiguous.
pub open spec fn locator_target(to: Seq<char>, scope: crate::resolve::ResolveScope) -> Option<Seq<char>> {
    match crate::locator::locator_spec(to) {
        Ok((true, id)) => if scope.dups.contains(id) {
            None
        } else {
            match crate::graph::id_slot(scope.ids, id) {
                Some(k) => Some(scope.id_paths[k]),
                None => None,
            }
        },
        Ok((false, p)) => match crate::util::strict_path(p) {
            Ok(n) => if scope.paths.contains(n) { Some(n) } else { None },
            Err(_) => None,
        },
        Err(_) => None,
    }
}

proof fn lemma_resolve_all_targets(links: Seq<crate::model::Link>, sp: Seq<char>, scope: crate::resolve::ResolveScope)
    ensures
        forall|m: int| 0 <= m < crate::resolve::resolve_all(links, sp, scope).0.len() ==> {
            let e = #[trigger] crate::resolve::resolve_all(links, sp, scope).0[m];
            &&& 0 <= e.0 < links.len()
            &&& crate::locator::locator_spec(links[e.0].to@) is Ok
            &&& e.1.0 == locator_target(links[e.0].to@, scope)
        },
    decreases links.len(),
{
    if links.len() > 0 {
        lemma_resolve_all_targets(links.drop_last(), sp, scope);
        let kept = crate::resolve::resolve_all(links.drop_last(), sp, scope).0;
        assert forall|m: int| 0 <= m < kept.len() implies links[(#[trigger] kept[m]).0] == links.drop_last()[kept[m].0] by {
            let e = kept[m];
            assert(0 <= e.0 < links.drop_last().len());
        }
    }
}

/// Every link of a resource resolved with `ordered_links_ok` has the target
/// its locator names, and a well-formed locator.
proof fn lemma_ordered_targets(out: Seq<ResolvedLink>, links: Seq<crate::model::Link>, sp: Seq<char>, scope: crate::resolve::ResolveScope, ranked: Seq<Seq<char>>)
    requires
        crate::resolve::ordered_links_ok(out, links, sp, scope, ranked),
    ensures
        forall|j: int| 0 <= j < out.len() ==> crate::locator::locator_spec((#[trigger] out[j]).to@) is Ok
            && opt_view(out[j].target_path) == locator_target(out[j].to@, scope),
{
    let kept = crate::resolve::resolve_all(links, sp, scope).0;
    lemma_resolve_all_targets(links, sp, scope);
    let (unsorted, perm) = choose|unsorted: Seq<ResolvedLink>, perm: Seq<int>| {
        &&& unsorted.len() == kept.len()
        &&& forall|j: int| 0 <= j < kept.len() ==> 0 <= (#[trigger] kept[j]).0 < links.len() && crate::resolve::resolved_as(unsorted[j], links[kept[j].0], kept[j].1)
        &&& crate::resolve::sorted_positions(unsorted, perm, ranked)
        &&& out.len() == perm.len()
        &&& forall|j: int| 0 <= j < out.len() ==> out[j] == unsorted[#[trigger] perm[j]]
    };
    assert forall|j: int| 0 <= j < out.len() implies crate::locator::locator_spec((#[trigger] out[j]).to@) is Ok
        && opt_view(out[j].target_path) == locator_target(out[j].to@, scope) by {
        let m = perm[j];
        assert(0 <= m < unsorted.len());
        assert(out[j] == unsorted[m]);
        let e = kept[m];
        assert(crate::resolve::resolved_as(unsorted[m], links[e.0], e.1));
    }
}

proof fn lemma_load_id_paths(
    paths: Seq<Seq<char>>,
    targets: Seq<Seq<char>>,
    suffix: Seq<char>,
    reads: Seq<crate::graph::SidecarRead>,
    has_plugins: bool,
    kinds: Seq<Seq<char>>,
)
    ensures
        ({
            let st = crate::graph::load_spec(paths, targets, suffix, reads, has_plugins, kinds);
            &&& st.0.len() == st.1.len()
            &&& forall|k: int| 0 <= k < st.1.len() ==> paths.contains(#[trigger] st.1[k])
        }),
    decreases paths.len(),
{
    if paths.len() > 0 {
        lemma_load_id_paths(paths.drop_last(), targets, suffix, reads, has_plugins, kinds);
        let st = crate::graph::load_spec(paths.drop_last(), targets, suffix, reads, has_plugins, kinds);
        assert forall|k: int| 0 <= k < st.1.len() implies paths.contains(#[trigger] st.1[k]) by {
            let i = choose|i: int| 0 <= i < paths.drop_last().len() && paths.drop_last()[i] == st.1[k];
            assert(paths[i] == st.1[k]);
        }
        assert(paths[paths.len() - 1] == paths.last());
    }
}

/// A graph built from a listing of normal-form paths has consistent links:
/// its resources are in strict path order and each is a listed file.
pub(crate) proof fn lemma_built_links_consistent(
    config: crate::model::Config,
    inputs: crate::assemble::GraphInputs,
    ex: Seq<Seq<char>>,
    req: Seq<Seq<char>>,
    r: crate::model::BuildResult,
)
    requires
        crate::assemble::graph_spec(config, inputs, ex, req, r),
        crate::sorted::sorted_strict(crate::resolve::resource_path_views(r.resources@)),
        forall|i: int| 0 <= i < r.resources.len() ==> exists|k: int| 0 <= k < inputs.files.len()
            && (#[trigger] inputs.files@[k]).path@ == (#[trigger] r.resources@[i]).path@,
        forall|k: int| 0 <= k < inputs.files.len() ==> crate::util::strict_path((#[trigger] inputs.files@[k]).path@)
            == Ok::<Seq<char>, Seq<char>>(inputs.files@[k].path@),
    ensures
        links_consistent(r.resources@),
{
    assert forall|i: int| 0 <= i < r.resources.len() implies crate::util::strict_path((#[trigger] r.resources@[i]).path@)
        == Ok::<Seq<char>, Seq<char>>(r.resources@[i].path@) by {
        let k = choose|k: int| 0 <= k < inputs.files.len() && (#[trigger] inputs.files@[k]).path@ == r.resources@[i].path@;
    }
    let rs = r.resources@;
    let suffix = crate::config::sidecar_suffix_spec(config);
    let pp = crate::plugin::valid_plugin_paths(crate::config::list_view(config.plugins));
    let files = inputs.files@;
    let discovered = crate::assemble::file_path_views(files);
    let (plugins, _, _) = crate::plugin::load_plugins_spec(inputs.plugin_sources@, discovered);
    let paths = crate::sorted::sorted_of(crate::graph::resource_path_set(files, suffix, ex, pp));
    let targets = crate::sorted::sorted_of(crate::graph::sidecar_target_set(files, suffix, ex, pp));
    let reads = inputs.sidecar_reads@;
    let has = plugins.len() > 0;
    let (ids, id_paths, dups, _) = crate::graph::load_spec(paths, targets, suffix, reads, has, crate::assemble::all_kinds(plugins));
    let scope = crate::resolve::ResolveScope { has_plugins: has, relations: crate::assemble::all_relations(plugins), ids, id_paths, dups, paths };
    let ranked = crate::plugin::first_occurrences(crate::plugin::all_relation_orders(plugins));
    let views = crate::resolve::resource_path_views(rs);
    assert forall|i: int| 0 <= i < rs.len() implies (#[trigger] rs[i]).path@ == paths[i] by {
        assert(crate::graph::resource_head(r.resources@[i]) == crate::graph::expected_head(paths[i], targets, suffix, reads));
    }
    assert(views =~= paths);
    crate::sorted::lemma_sorted_no_dup(views);
    lemma_load_id_paths(paths, targets, suffix, reads, has, crate::assemble::all_kinds(plugins));
    // Every link's target is where its locator points.
    assert forall|i: int, j: int| 0 <= i < rs.len() && 0 <= j < rs[i].links@.len() implies
        crate::locator::locator_spec((#[trigger] rs[i].links@[j]).to@) is Ok
        && opt_view(rs[i].links@[j].target_path) == locator_target(rs[i].links@[j].to@, scope) by {
        assert(crate::resolve::ordered_links_ok(r.resources@[i].links@, crate::assemble::loaded_links(paths[i], targets, suffix, reads), paths[i] + suffix, scope, ranked));
        lemma_ordered_targets(r.resources@[i].links@, crate::assemble::loaded_links(paths[i], targets, suffix, reads), paths[i] + suffix, scope, ranked);
    }
    assert(unique_paths(rs)) by {
        assert forall|i: int, j: int| 0 <= i < rs.len() && 0 <= j < rs.len() && #[trigger] rs[i].path@ == #[trigger] rs[j].path@ implies i == j by {
            assert(views[i] == views[j]);
        }
    }
    assert forall|i: int, j: int| 0 <= i < rs.len() && 0 <= j < rs[i].links@.len() && (#[trigger] rs[i].links@[j]).target_path is Some
        implies exists|m: int| 0 <= m < rs.len() && Some(#[trigger] rs[m].path@) == opt_view(rs[i].links@[j].target_path) by {
        let l = rs[i].links@[j];
        let t = locator_target(l.to@, scope)->0;
        assert(paths.contains(t)) by {
            match crate::locator::locator_spec(l.to@) {
                Ok((true, id)) => {
                    let k = crate::graph::id_slot(ids, id)->0;
                    assert(crate::graph::is_first_slot(ids, id, k));
                    assert(id_paths.contains(id_paths[k]));
                },
                _ => {},
            }
        }
        let m = choose|m: int| 0 <= m < paths.len() && paths[m] == t;
        assert(rs[m].path@ == t);
    }
    assert forall|i: int, j: int, m: int| 0 <= i < rs.len() && 0 <= j < rs[i].links@.len() && 0 <= m < rs.len()
        && (#[trigger] rs[i].links@[j]).to@ == "path:"@ + (#[trigger] rs[m].path@)
        implies opt_view(rs[i].links@[j].target_path) == Some(rs[m].path@) by {
        let q = rs[m].path@;
        reveal_strlit("path:");
        reveal_strlit("id:");
        let to = rs[i].links@[j].to@;
        assert("path:"@.is_prefix_of(to));
        assert(!"id:"@.is_prefix_of(to)) by {
            assert(to[0] == 'p');
            assert("id:"@[0] == 'i');
        }
        assert(to.skip(5) =~= q);
        assert(crate::util::strict_path(q) == Ok::<Seq<char>, Seq<char>>(q));
        assert(paths[m] == q);
    }
}

} // verus!
