//! Depth-first traversal over an ordered adjacency list.
use vstd::prelude::*;

use crate::model::{strs_view, vec_contains};

verus! {

/// A node and its neighbors in visiting order.
pub struct AdjEntry {
    pub node: String,
    pub next: Vec<String>,
}

/// The neighbors of `p`: those of the last entry for `p`, none when there is
/// no entry.
pub open spec fn entry_neighbors(adj: Seq<AdjEntry>, p: Seq<char>) -> Seq<Seq<char>>
    decreases adj.len(),
{
    if adj.len() == 0 {
        seq![]
    } else if adj.last().node@ == p {
        strs_view(adj.last().next@)
    } else {
        entry_neighbors(adj.drop_last(), p)
    }
}

/// Depth-first visiting with an explicit stack: pop the top path; skip it when
/// already visited; otherwise record it and push its neighbors in reverse, so
/// the first neighbor is visited next. `None` when `fuel` runs out first.
pub open spec fn dfs_run(adj: Seq<AdjEntry>, pending: Seq<Seq<char>>, visited: Seq<Seq<char>>, fuel: nat) -> Option<Seq<Seq<char>>>
    decreases fuel,
{
    if pending.len() == 0 {
        Some(visited)
    } else if fuel == 0 {
        None
    } else {
        let p = pending.last();
        let rest = pending.drop_last();
        if visited.contains(p) {
            dfs_run(adj, rest, visited, (fuel - 1) as nat)
        } else {
            dfs_run(adj, rest + entry_neighbors(adj, p).reverse(), visited.push(p), (fuel - 1) as nat)
        }
    }
}

/// The depth-first visiting order from `start`.
pub open spec fn dfs_order(adj: Seq<AdjEntry>, start: Seq<char>, order: Seq<Seq<char>>) -> bool {
    exists|fuel: nat| dfs_run(adj, seq![start], seq![], fuel) == Some(order)
}

/// Every path that can appear: `start` and all neighbors.
pub open spec fn all_nodes(adj: Seq<AdjEntry>, start: Seq<char>) -> Seq<Seq<char>>
    decreases adj.len(),
{
    if adj.len() == 0 {
        seq![start]
    } else {
        all_nodes(adj.drop_last(), start) + strs_view(adj.last().next@)
    }
}

pub proof fn lemma_neighbors_in_nodes(adj: Seq<AdjEntry>, start: Seq<char>, p: Seq<char>, q: Seq<char>)
    requires
        entry_neighbors(adj, p).contains(q),
    ensures
        all_nodes(adj, start).contains(q),
    decreases adj.len(),
{
    if adj.len() > 0 {
        if adj.last().node@ == p {
            let k = choose|k: int| 0 <= k < strs_view(adj.last().next@).len() && strs_view(adj.last().next@)[k] == q;
            assert(all_nodes(adj, start)[all_nodes(adj.drop_last(), start).len() + k] == q);
        } else {
            lemma_neighbors_in_nodes(adj.drop_last(), start, p, q);
            let k = choose|k: int| 0 <= k < all_nodes(adj.drop_last(), start).len() && all_nodes(adj.drop_last(), start)[k] == q;
            assert(all_nodes(adj, start)[k] == q);
        }
    }
}

pub proof fn lemma_start_in_nodes(adj: Seq<AdjEntry>, start: Seq<char>)
    ensures
        all_nodes(adj, start).contains(start),
    decreases adj.len(),
{
    if adj.len() == 0 {
        assert(all_nodes(adj, start)[0] == start);
    } else {
        lemma_start_in_nodes(adj.drop_last(), start);
        let k = choose|k: int| 0 <= k < all_nodes(adj.drop_last(), start).len() && all_nodes(adj.drop_last(), start)[k] == start;
        assert(all_nodes(adj, start)[k] == start);
    }
}

pub proof fn lemma_dfs_run_more_fuel(adj: Seq<AdjEntry>, pending: Seq<Seq<char>>, visited: Seq<Seq<char>>, fuel: nat, more: nat)
    requires
        dfs_run(adj, pending, visited, fuel) is Some,
        fuel <= more,
    ensures
        dfs_run(adj, pending, visited, more) == dfs_run(adj, pending, visited, fuel),
    decreases fuel,
{
    if pending.len() > 0 && fuel > 0 {
        let p = pending.last();
        let rest = pending.drop_last();
        if visited.contains(p) {
            lemma_dfs_run_more_fuel(adj, rest, visited, (fuel - 1) as nat, (more - 1) as nat);
        } else {
            lemma_dfs_run_more_fuel(adj, rest + entry_neighbors(adj, p).reverse(), visited.push(p), (fuel - 1) as nat, (more - 1) as nat);
        }
    }
}

/// The neighbors of `p` in `adj` (the last entry for `p`).
fn lookup_neighbors(adj: &Vec<AdjEntry>, p: &str) -> (r: Vec<String>)
    ensures
        strs_view(r@) == entry_neighbors(adj@, p@),
{
    let mut k = adj.len();
    assert(adj@.take(k as int) =~= adj@);
    while k > 0
        invariant
            k <= adj.len(),
            entry_neighbors(adj@, p@) == entry_neighbors(adj@.take(k as int), p@),
        decreases k,
    {
        assert(adj@.take(k as int).drop_last() =~= adj@.take(k - 1));
        assert(adj@.take(k as int).last() == adj@[k - 1]);
        if crate::text::text_eq(adj[k - 1].node.as_str(), p) {
            return crate::model::copy_strs(&adj[k - 1].next);
        }
        k -= 1;
    }
    let empty: Vec<String> = Vec::new();
    assert(strs_view(empty@) =~= seq![]);
    empty
}

/// The depth-first visiting order from `start` over `adj`.
pub fn depth_first_order(adj: &Vec<AdjEntry>, start: String) -> (r: Vec<String>)
    ensures
        dfs_order(adj@, start@, strs_view(r@)),
{
    let ghost nodes = all_nodes(adj@, start@);
    let ghost universe = nodes.to_set();
    let mut pending: Vec<String> = Vec::new();
    pending.push(start.clone());
    let mut visited: Vec<String> = Vec::new();
    let ghost mut fuel_used: nat = 0;
    proof {
        vstd::seq_lib::seq_to_set_is_finite(nodes);
        lemma_start_in_nodes(adj@, start@);
        assert(strs_view(pending@) =~= seq![start@]);
        assert(strs_view(visited@) =~= seq![]);
    }
    while pending.len() > 0
        invariant
            universe == all_nodes(adj@, start@).to_set(),
            universe.finite(),
            strs_view(visited@).no_duplicates(),
            forall|q: Seq<char>| strs_view(visited@).contains(q) ==> universe.contains(q),
            forall|q: Seq<char>| strs_view(pending@).contains(q) ==> universe.contains(q),
            forall|f: nat| #[trigger] dfs_run(adj@, strs_view(pending@), strs_view(visited@), f)
                == dfs_run(adj@, seq![start@], seq![], f + fuel_used),
        decreases universe.len() - strs_view(visited@).len(), pending.len(),
    {
        let ghost pv = strs_view(pending@);
        let ghost vv = strs_view(visited@);
        proof {
            assert forall|f: nat| #[trigger] dfs_run(adj@, pv, vv, f + 1) == dfs_run(adj@, seq![start@], seq![], f + fuel_used + 1) by {
                assert(dfs_run(adj@, pv, vv, (f + 1) as nat) == dfs_run(adj@, seq![start@], seq![], (f + 1) as nat + fuel_used));
            }
            vv.unique_seq_to_set();
            vstd::set_lib::lemma_len_subset(vv.to_set(), universe);
        }
        let p = pending.pop().unwrap();
        assert(strs_view(pending@) =~= pv.drop_last());
        assert(p@ == pv.last());
        if vec_contains(&visited, p.as_str()) {
            proof {
                fuel_used = fuel_used + 1;
                assert forall|f: nat| #[trigger] dfs_run(adj@, strs_view(pending@), strs_view(visited@), f) == dfs_run(adj@, seq![start@], seq![], f + fuel_used) by {
                    assert(dfs_run(adj@, pv, vv, f + 1) == dfs_run(adj@, strs_view(pending@), strs_view(visited@), f));
                }
                assert forall|q: Seq<char>| strs_view(pending@).contains(q) implies universe.contains(q) by {
                    let k = choose|k: int| 0 <= k < strs_view(pending@).len() && strs_view(pending@)[k] == q;
                    assert(pv[k] == q);
                }
            }
        } else {
            let next = lookup_neighbors(adj, p.as_str());
            let ghost nv = strs_view(next@);
            let mut j = next.len();
            let ghost base = strs_view(pending@);
            while j > 0
                invariant
                    j <= next.len(),
                    nv == strs_view(next@),
                    strs_view(pending@) == base + nv.reverse().take((next.len() - j) as int),
                decreases j,
            {
                let ghost prev = strs_view(pending@);
                pending.push(next[j - 1].clone());
                proof {
                    assert(strs_view(pending@) =~= prev.push(nv[j - 1]));
                    assert(nv.reverse().take((next.len() - j + 1) as int) =~= nv.reverse().take((next.len() - j) as int).push(nv.reverse()[(next.len() - j) as int]));
                    assert(nv.reverse()[(next.len() - j) as int] == nv[j - 1]);
                    assert(strs_view(pending@) =~= base + nv.reverse().take((next.len() - j + 1) as int));
                }
                j -= 1;
            }
            assert(nv.reverse().take(next.len() as int) =~= nv.reverse());
            visited.push(p);
            proof {
                assert(strs_view(visited@) =~= vv.push(p@));
                assert(strs_view(visited@).no_duplicates());
                assert forall|q: Seq<char>| strs_view(pending@).contains(q) implies universe.contains(q) by {
                    let k = choose|k: int| 0 <= k < strs_view(pending@).len() && strs_view(pending@)[k] == q;
                    if k < base.len() {
                        assert(base[k] == q);
                        assert(pv.contains(q));
                    } else {
                        assert(nv.reverse()[k - base.len()] == q);
                        assert(nv[nv.len() - 1 - (k - base.len())] == q);
                        assert(nv.contains(q));
                        lemma_neighbors_in_nodes(adj@, start@, p@, q);
                    }
                }
                assert(pv[pv.len() - 1] == p@);
                assert(universe.contains(p@));
                assert forall|q: Seq<char>| strs_view(visited@).contains(q) implies universe.contains(q) by {
                    if q != p@ {
                        let k = choose|k: int| 0 <= k < strs_view(visited@).len() && strs_view(visited@)[k] == q;
                        assert(vv[k] == q);
                    }
                }
                strs_view(visited@).unique_seq_to_set();
                vstd::set_lib::lemma_len_subset(strs_view(visited@).to_set(), universe);
                fuel_used = fuel_used + 1;
                assert(strs_view(pending@) =~= pv.drop_last() + entry_neighbors(adj@, p@).reverse());
                assert forall|f: nat| #[trigger] dfs_run(adj@, strs_view(pending@), strs_view(visited@), f) == dfs_run(adj@, seq![start@], seq![], f + fuel_used) by {
                    assert(dfs_run(adj@, pv, vv, f + 1) == dfs_run(adj@, strs_view(pending@), strs_view(visited@), f));
                }
            }
        }
    }
    proof {
        assert(dfs_run(adj@, strs_view(pending@), strs_view(visited@), 0) == dfs_run(adj@, seq![start@], seq![], 0 + fuel_used));
        assert(strs_view(pending@) =~= seq![]);
        assert(dfs_run(adj@, seq![start@], seq![], fuel_used) == Some(strs_view(visited@)));
    }
    visited
}

} // verus!
