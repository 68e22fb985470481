//! Properties the library keeps across its functions and inputs.
use vstd::prelude::*;

use crate::freshness::{component, fingerprint_input, fingerprint_text, lf_normalized, state_of};
use crate::graph::{is_sidecar_path, resource_path_seq, RepoFile};
use crate::link_edit::{upd_candidate, upd_reason, upd_target_changed, UpdateLinkOptions};
use crate::model::{opt_view, Link};
use crate::traverse::{dfs_order, dfs_run, AdjEntry};
use crate::util::is_reserved_spec;

verus! {

/// The reserved generated directory is never discovered: whatever the
/// exclude list and plugin paths, no path under `._relaygraph/` becomes a
/// resource or counts as a sidecar.
pub proof fn law_reserved_directory_is_never_discovered(
    files: Seq<RepoFile>,
    suffix: Seq<char>,
    exclude: Seq<Seq<char>>,
    plugin_paths: Seq<Seq<char>>,
    p: Seq<char>,
)
    requires
        is_reserved_spec(p),
    ensures
        !resource_path_seq(files, suffix, exclude, plugin_paths).contains(p),
        !is_sidecar_path(p, suffix, exclude, plugin_paths),
    decreases files.len(),
{
    if files.len() > 0 {
        law_reserved_directory_is_never_discovered(files.drop_last(), suffix, exclude, plugin_paths, p);
        let rest = resource_path_seq(files.drop_last(), suffix, exclude, plugin_paths);
        let all = resource_path_seq(files, suffix, exclude, plugin_paths);
        if all.contains(p) {
            let i = choose|i: int| 0 <= i < all.len() && all[i] == p;
            if all.len() > rest.len() && i == rest.len() {
                assert(all[i] == files.last().path@);
            } else {
                assert(rest[i] == p);
            }
        }
    }
}

/// A plugin path that is accepted never lies under the reserved generated
/// directory.
pub proof fn law_plugins_are_never_loaded_from_the_reserved_directory(path: Seq<char>)
    ensures
        crate::plugin::plugin_path_spec(path) matches Ok(q) ==> !is_reserved_spec(q),
{
}

/// Depth-first visiting keeps what was visited as a prefix and never
/// visits a path twice.
proof fn lemma_dfs_run_extends(adj: Seq<AdjEntry>, pending: Seq<Seq<char>>, visited: Seq<Seq<char>>, fuel: nat)
    requires
        dfs_run(adj, pending, visited, fuel) is Some,
        visited.no_duplicates(),
    ensures
        ({
            let o = dfs_run(adj, pending, visited, fuel)->0;
            &&& o.len() >= visited.len()
            &&& o.take(visited.len() as int) == visited
            &&& o.no_duplicates()
        }),
    decreases fuel,
{
    if pending.len() > 0 && fuel > 0 {
        let p = pending.last();
        let rest = pending.drop_last();
        if visited.contains(p) {
            lemma_dfs_run_extends(adj, rest, visited, (fuel - 1) as nat);
        } else {
            let v2 = visited.push(p);
            assert(v2.no_duplicates()) by {
                assert forall|i: int, j: int| 0 <= i < v2.len() && 0 <= j < v2.len() && i != j implies v2[i] != v2[j] by {
                    if i == visited.len() as int {
                        assert(v2[j] == visited[j]);
                        assert(visited.contains(visited[j]));
                    } else if j == visited.len() as int {
                        assert(v2[i] == visited[i]);
                        assert(visited.contains(visited[i]));
                    }
                }
            }
            let next = rest + crate::traverse::entry_neighbors(adj, p).reverse();
            lemma_dfs_run_extends(adj, next, v2, (fuel - 1) as nat);
            let o = dfs_run(adj, pending, visited, fuel)->0;
            assert(o.take(visited.len() as int) =~= o.take(v2.len() as int).take(visited.len() as int));
            assert(v2.take(visited.len() as int) =~= visited);
        }
    } else if pending.len() == 0 {
        let o = dfs_run(adj, pending, visited, fuel)->0;
        assert(o.take(visited.len() as int) =~= visited);
    }
}

/// A depth-first order starts at the start path and holds each path once.
pub proof fn law_traversal_starts_at_start_and_visits_once(adj: Seq<AdjEntry>, start: Seq<char>, order: Seq<Seq<char>>)
    requires
        dfs_order(adj, start, order),
    ensures
        order.len() >= 1,
        order[0] == start,
        order.no_duplicates(),
{
    let fuel = choose|fuel: nat| dfs_run(adj, seq![start], seq![], fuel) == Some(order);
    assert(fuel > 0);
    let v1: Seq<Seq<char>> = seq![start];
    assert(seq![start].drop_last() + crate::traverse::entry_neighbors(adj, start).reverse()
        =~= crate::traverse::entry_neighbors(adj, start).reverse());
    assert(Seq::<Seq<char>>::empty().push(start) =~= v1);
    lemma_dfs_run_extends(adj, crate::traverse::entry_neighbors(adj, start).reverse(), v1, (fuel - 1) as nat);
    assert(order.take(1)[0] == start);
}

/// A trace of the graph starts at its start resource and lists each
/// resource at most once.
pub proof fn law_trace_starts_at_start_and_visits_once(
    resources: Seq<crate::model::Resource>,
    plugins: Seq<crate::model::Plugin>,
    direction: crate::model::Direction,
    start: Seq<char>,
    order: Seq<Seq<char>>,
)
    requires
        crate::trace::traced(resources, plugins, direction, start, order),
    ensures
        order.len() >= 1,
        order[0] == start,
        order.no_duplicates(),
{
    let adj = choose|adj: Seq<AdjEntry>|
        crate::trace::trace_adjacency(adj, resources, direction,
            crate::plugin::first_occurrences(crate::plugin::all_relation_orders(plugins)))
        && #[trigger] dfs_order(adj, start, order);
    law_traversal_starts_at_start_and_visits_once(adj, start, order);
}

/// Line endings do not change a file's revision: UTF-8 texts that agree
/// once CRLF and CR are read as LF have the same fingerprint.
pub proof fn law_line_endings_do_not_change_file_revision(a: Seq<char>, b: Seq<char>)
    requires
        lf_normalized(a) == lf_normalized(b),
    ensures
        fingerprint_text(fingerprint_input(vstd::utf8::encode_utf8(a)))
            == fingerprint_text(fingerprint_input(vstd::utf8::encode_utf8(b))),
{
    vstd::utf8::encode_utf8_valid_utf8(a);
    vstd::utf8::encode_utf8_valid_utf8(b);
    vstd::utf8::encode_utf8_decode_utf8(a);
    vstd::utf8::encode_utf8_decode_utf8(b);
}

/// A link update that gives the link another reason (or removes it) drops
/// the link's acknowledgement.
pub proof fn law_changed_reason_clears_acknowledgement(old: Link, o: UpdateLinkOptions)
    requires
        opt_view(upd_reason(old, o)) != opt_view(old.reason),
    ensures
        upd_candidate(old, o).acknowledged is None,
{
}

/// A link update that changes the relation or target drops the link's
/// acknowledgement.
pub proof fn law_changed_target_clears_acknowledgement(old: Link, o: UpdateLinkOptions)
    requires
        upd_target_changed(old, o),
    ensures
        upd_candidate(old, o).acknowledged is None,
{
}

/// A link update that keeps the relation, target and reason (setting the
/// same reason again, or changing only the path hint or order) keeps the
/// acknowledgement.
pub proof fn law_unchanged_review_content_keeps_acknowledgement(old: Link, o: UpdateLinkOptions)
    requires
        !upd_target_changed(old, o),
        opt_view(upd_reason(old, o)) == opt_view(old.reason),
    ensures
        upd_candidate(old, o).acknowledged == old.acknowledged,
{
}

/// A relation needs review exactly when some revision changed since its
/// acknowledgement.
pub proof fn law_review_is_required_exactly_when_something_changed(source: bool, target: bool, link: bool)
    ensures
        state_of(source, target, link) is None <==> (!source && !target && !link),
{
}

/// An `id:` locator with a non-blank id is read back as that id.
pub proof fn law_id_locator_round_trip(id: Seq<char>)
    requires
        !crate::text::all_ws(id),
    ensures
        crate::locator::locator_spec("id:"@ + id) == Ok::<(bool, Seq<char>), Seq<char>>((true, id)),
{
    reveal_strlit("id:");
    assert("id:"@.is_prefix_of("id:"@ + id));
    assert(("id:"@ + id).skip(3) =~= id);
}

/// A `path:` locator with a non-blank path is read back as that path.
pub proof fn law_path_locator_round_trip(path: Seq<char>)
    requires
        !crate::text::all_ws(path),
    ensures
        crate::locator::locator_spec("path:"@ + path) == Ok::<(bool, Seq<char>), Seq<char>>((false, path)),
{
    reveal_strlit("id:");
    reveal_strlit("path:");
    assert(!"id:"@.is_prefix_of("path:"@ + path)) by {
        if "id:"@.is_prefix_of("path:"@ + path) {
            assert(("path:"@ + path).take(3)[0] == ("path:"@ + path)[0]);
            assert(("path:"@ + path)[0] == 'p');
            assert("id:"@[0] == 'i');
        }
    }
    assert("path:"@.is_prefix_of("path:"@ + path));
    assert(("path:"@ + path).skip(5) =~= path);
}

/// `256` to the power `w`.
pub open spec fn pow256(w: nat) -> nat
    decreases w,
{
    if w == 0 {
        1
    } else {
        256 * pow256((w - 1) as nat)
    }
}

proof fn lemma_be_bytes_len(n: nat, w: nat)
    ensures
        crate::freshness::be_bytes(n, w).len() == w,
    decreases w,
{
    if w > 0 {
        lemma_be_bytes_len(n / 256, (w - 1) as nat);
    }
}

/// Big-endian bytes of a fixed width tell numbers below `256^w` apart.
proof fn lemma_be_bytes_injective(n: nat, m: nat, w: nat)
    requires
        n < pow256(w),
        m < pow256(w),
        crate::freshness::be_bytes(n, w) == crate::freshness::be_bytes(m, w),
    ensures
        n == m,
    decreases w,
{
    if w > 0 {
        let bn = crate::freshness::be_bytes(n, w);
        let bm = crate::freshness::be_bytes(m, w);
        assert(bn.drop_last() =~= crate::freshness::be_bytes(n / 256, (w - 1) as nat));
        assert(bm.drop_last() =~= crate::freshness::be_bytes(m / 256, (w - 1) as nat));
        let p = pow256((w - 1) as nat);
        assert(n / 256 < p) by (nonlinear_arith)
            requires n < 256 * p;
        assert(m / 256 < p) by (nonlinear_arith)
            requires m < 256 * p;
        lemma_be_bytes_injective(n / 256, m / 256, (w - 1) as nat);
        assert(bn.last() == (n % 256) as u8);
        assert(bm.last() == (m % 256) as u8);
        assert(n % 256 == m % 256);
        assert(n == 256 * (n / 256) + n % 256) by (nonlinear_arith);
        assert(m == 256 * (m / 256) + m % 256) by (nonlinear_arith);
    }
}

/// A length-prefixed component at the front of two equal sequences is the
/// same component, and what follows it is the same too.
proof fn lemma_component_prefix(a: Seq<u8>, ra: Seq<u8>, b: Seq<u8>, rb: Seq<u8>)
    requires
        a.len() < pow256(8),
        b.len() < pow256(8),
        crate::freshness::component(a) + ra == crate::freshness::component(b) + rb,
    ensures
        a == b,
        ra == rb,
{
    let sa = crate::freshness::component(a) + ra;
    let sb = crate::freshness::component(b) + rb;
    lemma_be_bytes_len(a.len(), 8);
    lemma_be_bytes_len(b.len(), 8);
    assert(sa.take(8) =~= crate::freshness::be_bytes(a.len(), 8));
    assert(sb.take(8) =~= crate::freshness::be_bytes(b.len(), 8));
    lemma_be_bytes_injective(a.len(), b.len(), 8);
    assert(sa.subrange(8, 8 + a.len() as int) =~= a);
    assert(sb.subrange(8, 8 + b.len() as int) =~= b);
    assert(sa.skip(8 + a.len() as int) =~= ra);
    assert(sb.skip(8 + b.len() as int) =~= rb);
}

/// The link revision separates each component and their boundaries: two
/// relation, target and reason triples with the same fingerprinted payload
/// are the same triple (each component's UTF-8 length fitting the 64-bit
/// length prefix).
pub proof fn law_link_payload_determines_the_link(
    rel1: Seq<char>, to1: Seq<char>, reason1: Option<Seq<char>>,
    rel2: Seq<char>, to2: Seq<char>, reason2: Option<Seq<char>>,
)
    requires
        vstd::utf8::encode_utf8(rel1).len() < pow256(8),
        vstd::utf8::encode_utf8(to1).len() < pow256(8),
        vstd::utf8::encode_utf8(rel2).len() < pow256(8),
        vstd::utf8::encode_utf8(to2).len() < pow256(8),
        reason1 matches Some(x) ==> vstd::utf8::encode_utf8(x).len() < pow256(8),
        reason2 matches Some(x) ==> vstd::utf8::encode_utf8(x).len() < pow256(8),
        crate::freshness::link_payload(rel1, to1, reason1) == crate::freshness::link_payload(rel2, to2, reason2),
    ensures
        rel1 == rel2,
        to1 == to2,
        reason1 == reason2,
{
    let head = vstd::utf8::encode_utf8("relaygraph-link-review-v1"@) + seq![0u8];
    let tail1 = match reason1 { Some(r) => seq![1u8] + component(vstd::utf8::encode_utf8(r)), None => seq![0u8] };
    let tail2 = match reason2 { Some(r) => seq![1u8] + component(vstd::utf8::encode_utf8(r)), None => seq![0u8] };
    let p1 = crate::freshness::link_payload(rel1, to1, reason1);
    let p2 = crate::freshness::link_payload(rel2, to2, reason2);
    assert(p1 =~= head + (component(vstd::utf8::encode_utf8(rel1)) + (component(vstd::utf8::encode_utf8(to1)) + tail1)));
    assert(p2 =~= head + (component(vstd::utf8::encode_utf8(rel2)) + (component(vstd::utf8::encode_utf8(to2)) + tail2)));
    assert(p1.skip(head.len() as int) =~= component(vstd::utf8::encode_utf8(rel1)) + (component(vstd::utf8::encode_utf8(to1)) + tail1));
    assert(p2.skip(head.len() as int) =~= component(vstd::utf8::encode_utf8(rel2)) + (component(vstd::utf8::encode_utf8(to2)) + tail2));
    lemma_component_prefix(vstd::utf8::encode_utf8(rel1), component(vstd::utf8::encode_utf8(to1)) + tail1, vstd::utf8::encode_utf8(rel2), component(vstd::utf8::encode_utf8(to2)) + tail2);
    lemma_component_prefix(vstd::utf8::encode_utf8(to1), tail1, vstd::utf8::encode_utf8(to2), tail2);
    vstd::utf8::encode_utf8_decode_utf8(rel1);
    vstd::utf8::encode_utf8_decode_utf8(rel2);
    vstd::utf8::encode_utf8_decode_utf8(to1);
    vstd::utf8::encode_utf8_decode_utf8(to2);
    assert(tail1[0] == tail2[0]);
    match (reason1, reason2) {
        (Some(x1), Some(x2)) => {
            assert(tail1.skip(1) =~= component(vstd::utf8::encode_utf8(x1)) + Seq::<u8>::empty());
            assert(tail2.skip(1) =~= component(vstd::utf8::encode_utf8(x2)) + Seq::<u8>::empty());
            lemma_component_prefix(vstd::utf8::encode_utf8(x1), Seq::<u8>::empty(), vstd::utf8::encode_utf8(x2), Seq::<u8>::empty());
            vstd::utf8::encode_utf8_decode_utf8(x1);
            vstd::utf8::encode_utf8_decode_utf8(x2);
        },
        _ => {},
    }
}

/// The ids of planned sidecars, in order.
pub open spec fn plan_ids(plans: Seq<(Seq<char>, Seq<char>)>) -> Seq<Seq<char>> {
    Seq::new(plans.len(), |i: int| plans[i].1)
}

proof fn lemma_init_run_ids(
    files: Seq<crate::init::InitFile>,
    existing: Seq<Seq<char>>,
    suffix: Seq<char>,
    exclude: Seq<Seq<char>>,
    require: Seq<Seq<char>>,
    plugin_paths: Seq<Seq<char>>,
    git: bool,
)
    ensures
        ({
            let (used, plans, _) = crate::init::init_run(files, existing, suffix, exclude, require, plugin_paths, git);
            &&& used == existing + plan_ids(plans)
            &&& forall|i: int, j: int| 0 <= i < j < plans.len() ==> plans[i].1 != plans[j].1
            &&& forall|i: int| 0 <= i < plans.len() ==> !existing.contains(#[trigger] plans[i].1)
        }),
    decreases files.len(),
{
    if files.len() == 0 {
        assert(existing + plan_ids(seq![]) =~= existing);
    } else {
        lemma_init_run_ids(files.drop_last(), existing, suffix, exclude, require, plugin_paths, git);
        let st = crate::init::init_run(files.drop_last(), existing, suffix, exclude, require, plugin_paths, git);
        let (used, plans, ds) = st;
        let f = files.last();
        let p = f.path@;
        let after = crate::init::init_step(st, f, suffix, exclude, require, plugin_paths, git);
        if after.1.len() != plans.len() {
            let id = crate::init::unique_id(p, used);
            crate::init::lemma_unique_id_fresh(p, used);
            assert(after == (used.push(id), plans.push((p + suffix, id)), ds));
            let np = plans.push((p + suffix, id));
            assert(plan_ids(np) =~= plan_ids(plans).push(id));
            assert(existing + plan_ids(np) =~= (existing + plan_ids(plans)).push(id));
            assert forall|i: int| 0 <= i < plans.len() implies plans[i].1 != id by {
                assert(used[existing.len() + i] == plans[i].1);
            }
            assert forall|i: int| 0 <= i < np.len() implies !existing.contains(#[trigger] np[i].1) by {
                if i == plans.len() {
                    if existing.contains(id) {
                        let k = choose|k: int| 0 <= k < existing.len() && existing[k] == id;
                        assert(used[k] == id);
                    }
                }
            }
        }
    }
}

/// `init` gives every planned sidecar an id that no existing sidecar holds
/// and that no other planned sidecar gets.
pub proof fn law_init_assigns_fresh_distinct_ids(
    files: Seq<crate::init::InitFile>,
    existing: Seq<Seq<char>>,
    suffix: Seq<char>,
    exclude: Seq<Seq<char>>,
    require: Seq<Seq<char>>,
    plugin_paths: Seq<Seq<char>>,
    git: bool,
)
    ensures
        ({
            let plans = crate::init::init_run(files, existing, suffix, exclude, require, plugin_paths, git).1;
            &&& forall|i: int, j: int| 0 <= i < j < plans.len() ==> plans[i].1 != plans[j].1
            &&& forall|i: int| 0 <= i < plans.len() ==> !existing.contains(#[trigger] plans[i].1)
        }),
{
    lemma_init_run_ids(files, existing, suffix, exclude, require, plugin_paths, git);
}

proof fn lemma_sync_scan_lines(lines: Seq<Seq<char>>, updates: Seq<Option<Seq<char>>>, k: int)
    requires
        0 <= k <= lines.len(),
    ensures
        ({
            let done = crate::sync::sync_scan(lines, updates, k).0;
            &&& done.len() == k
            &&& forall|i: int| 0 <= i < k ==> #[trigger] done[i] == lines[i]
                || "pathHint:"@.is_prefix_of(crate::text::trim_start(lines[i]))
        }),
    decreases k,
{
    if k > 0 {
        lemma_sync_scan_lines(lines, updates, k - 1);
        let (done, n, st) = crate::sync::sync_scan(lines, updates, k - 1);
        let step = crate::sync::sync_step(lines[k - 1], updates, st);
        assert(step.0 == lines[k - 1] || "pathHint:"@.is_prefix_of(crate::text::trim_start(lines[k - 1])));
        let all = done.push(step.0);
        assert forall|i: int| 0 <= i < k implies #[trigger] all[i] == lines[i]
            || "pathHint:"@.is_prefix_of(crate::text::trim_start(lines[i])) by {
            if i < k - 1 {
                assert(all[i] == done[i]);
            }
        }
    }
}

/// A sync rewrites nothing but path hints: its text has the same lines,
/// except that lines holding a `pathHint:` field may get a new value; an
/// acknowledgement, in particular, is never touched.
pub proof fn law_sync_rewrites_only_path_hint_lines(text: Seq<char>, updates: Seq<Option<Seq<char>>>)
    ensures
        ({
            let lines = crate::lines::text_lines(text);
            let done = crate::sync::sync_scan(lines, updates, lines.len() as int).0;
            &&& done.len() == lines.len()
            &&& forall|i: int| 0 <= i < lines.len() ==> #[trigger] done[i] == lines[i]
                || "pathHint:"@.is_prefix_of(crate::text::trim_start(lines[i]))
        }),
{
    lemma_sync_scan_lines(crate::lines::text_lines(text), updates, crate::lines::text_lines(text).len() as int);
}

proof fn lemma_incoming_from_has_link(src: crate::model::Resource, links: Seq<crate::model::ResolvedLink>, p: Seq<char>, j: int)
    requires
        0 <= j < links.len(),
        opt_view(links[j].target_path) == Some(p),
    ensures
        crate::export::incoming_from(src, links, p).contains((src.path@, opt_view(src.id), links[j].rel@, links[j].order)),
    decreases links.len(),
{
    let v = (src.path@, opt_view(src.id), links[j].rel@, links[j].order);
    let rest = crate::export::incoming_from(src, links.drop_last(), p);
    let l = links.last();
    let here: Seq<crate::export::IncomingView> = if opt_view(l.target_path) == Some(p) {
        seq![(src.path@, opt_view(src.id), l.rel@, l.order)]
    } else {
        seq![]
    };
    assert(crate::export::incoming_from(src, links, p) == rest + here);
    if j == links.len() - 1 {
        assert((rest + here)[rest.len() as int] == v);
    } else {
        lemma_incoming_from_has_link(src, links.drop_last(), p, j);
        let k = choose|k: int| 0 <= k < rest.len() && rest[k] == v;
        assert((rest + here)[k] == v);
    }
}

proof fn lemma_incoming_views_has_link(sources: Seq<crate::model::Resource>, s: int, j: int, p: Seq<char>)
    requires
        0 <= s < sources.len(),
        0 <= j < sources[s].links.len(),
        opt_view(sources[s].links@[j].target_path) == Some(p),
    ensures
        crate::export::incoming_views(sources, p).contains(
            (sources[s].path@, opt_view(sources[s].id), sources[s].links@[j].rel@, sources[s].links@[j].order)),
    decreases sources.len(),
{
    let v = (sources[s].path@, opt_view(sources[s].id), sources[s].links@[j].rel@, sources[s].links@[j].order);
    let rest = crate::export::incoming_views(sources.drop_last(), p);
    let last = crate::export::incoming_from(sources.last(), sources.last().links@, p);
    assert(crate::export::incoming_views(sources, p) == rest + last);
    if s == sources.len() - 1 {
        lemma_incoming_from_has_link(sources.last(), sources.last().links@, p, j);
        let k = choose|k: int| 0 <= k < last.len() && last[k] == v;
        assert((rest + last)[rest.len() + k] == v);
    } else {
        lemma_incoming_views_has_link(sources.drop_last(), s, j, p);
        let k = choose|k: int| 0 <= k < rest.len() && rest[k] == v;
        assert((rest + last)[k] == v);
    }
}

/// The export generates the reverse of every resolved link: each link
/// whose target resolved to `p` is among the incoming links of `p`, with
/// its source, relation and order.
pub proof fn law_every_resolved_link_is_incoming_at_its_target(
    resources: Seq<crate::model::Resource>,
    s: int,
    j: int,
    p: Seq<char>,
)
    requires
        0 <= s < resources.len(),
        0 <= j < resources[s].links.len(),
        opt_view(resources[s].links@[j].target_path) == Some(p),
    ensures
        crate::export::incoming_views(resources, p).contains(
            (resources[s].path@, opt_view(resources[s].id), resources[s].links@[j].rel@, resources[s].links@[j].order)),
{
    lemma_incoming_views_has_link(resources, s, j, p);
}

/// Without `requireSidecar` patterns, `init` plans no sidecar.
pub proof fn law_init_without_required_patterns_plans_nothing(
    files: Seq<crate::init::InitFile>,
    existing: Seq<Seq<char>>,
    suffix: Seq<char>,
    exclude: Seq<Seq<char>>,
    plugin_paths: Seq<Seq<char>>,
    git: bool,
)
    ensures
        crate::init::init_run(files, existing, suffix, exclude, seq![], plugin_paths, git).1.len() == 0,
        crate::init::init_run(files, existing, suffix, exclude, seq![], plugin_paths, git).2.len() == 0,
    decreases files.len(),
{
    if files.len() > 0 {
        law_init_without_required_patterns_plans_nothing(files.drop_last(), existing, suffix, exclude, plugin_paths, git);
        assert(!crate::globs::set_matches(seq![], files.last().path@));
    }
}

/// A sidecar already at schema version 3 or above is not migrated: its
/// text stays as it is.
pub proof fn law_migration_leaves_version_3_sidecars_alone(text: Seq<char>, sc: crate::model::Sidecar, deferred: Option<int>)
    requires
        crate::graph::sidecar_version(sc) >= 3,
    ensures
        crate::link_edit::migrate_spec(text, sc, deferred) == Ok::<Seq<char>, Seq<char>>(text),
{
}

/// Acknowledging a link never lowers the sidecar's schema version: a
/// sidecar at version 2 or above keeps its version line, and one below is
/// raised to version 2.
pub proof fn law_acknowledge_never_lowers_the_schema_version(
    ctx: crate::link_edit::EditContext,
    text: Seq<char>,
    sc: crate::model::Sidecar,
    index: int,
    ack: crate::model::AcknowledgedRevisions,
)
    ensures
        ({
            let l = sc.links@[index];
            let view = (l.rel@, l.to@, opt_view(l.path_hint), opt_view(l.reason), l.order, Some(crate::link_fields::ack_view(ack)));
            match crate::link_doc::update_spec(text, index, view) {
                Ok(u) => crate::link_edit::ack_plan_spec(ctx, text, sc, index, ack) == Ok::<Seq<char>, Seq<char>>(
                    if crate::graph::sidecar_version(sc) >= 2 { u } else { crate::link_doc::set_version_spec(u, 2) }),
                Err(_) => crate::link_edit::ack_plan_spec(ctx, text, sc, index, ack) is Err,
            }
        }),
{
}

/// Removing a link's reason does not migrate the sidecar: the update only
/// rewrites the link's item.
pub proof fn law_update_without_reason_does_not_migrate(
    ctx: crate::link_edit::EditContext,
    text: Seq<char>,
    sc: crate::model::Sidecar,
    i: int,
    cand: Link,
    hint: Option<Seq<char>>,
)
    requires
        cand.reason is None,
    ensures
        ({
            let view = (cand.rel@, cand.to@, hint, opt_view(cand.reason), cand.order,
                crate::link_edit::upd_ack_view(cand, crate::graph::sidecar_version(sc)));
            match crate::link_doc::update_spec(text, i, view) {
                Ok(u) => crate::link_edit::update_tail_spec(ctx, text, sc, i, cand, hint) == Ok::<Seq<char>, Seq<char>>(u),
                Err(_) => crate::link_edit::update_tail_spec(ctx, text, sc, i, cand, hint) is Err,
            }
        }),
{
}

} // verus!

verus! {

/// Tracing the cache rows of a graph gives what tracing the graph gives:
/// from the same start and in the same direction, both visit the same paths
/// in the same order. It holds for graphs whose links are consistent, as
/// built graphs are: unique paths, resolved targets that are resources,
/// links with one locator resolving alike, and `path:` locators of
/// resources resolving to them.
pub proof fn law_cache_trace_agrees_with_trace(
    resources: Seq<crate::model::Resource>,
    plugins: Seq<crate::model::Plugin>,
    rows: Seq<crate::cache::CacheLink>,
    direction: crate::model::Direction,
    start: Seq<char>,
    graph_order: Seq<Seq<char>>,
    cache_order: Seq<Seq<char>>,
)
    requires
        crate::agreement::links_consistent(resources),
        crate::plugin::first_occurrences(crate::plugin::all_relation_orders(plugins)).len() < i64::MAX,
        crate::cache::cache_links_view(rows)
            == crate::cache::link_rows_spec(resources, crate::plugin::first_occurrences(crate::plugin::all_relation_orders(plugins))),
        crate::trace::traced(resources, plugins, direction, start, graph_order),
        crate::cache::cache_traced(rows, direction, start, cache_order),
    ensures
        graph_order == cache_order,
{
    let ranked = crate::plugin::first_occurrences(crate::plugin::all_relation_orders(plugins));
    let a1 = choose|adj: Seq<AdjEntry>| crate::trace::trace_adjacency(adj, resources, direction, ranked) && #[trigger] dfs_order(adj, start, graph_order);
    let a2 = choose|adj: Seq<AdjEntry>| crate::cache::cache_adjacency(adj, rows, direction) && #[trigger] dfs_order(adj, start, cache_order);
    crate::agreement::lemma_traces_agree(resources, ranked, rows, direction, start, a1, a2, graph_order, cache_order);
}

} // verus!

verus! {

/// `after` is `before` with the path hints a sync plans written in: same
/// links and targets, and each stale hint replaced by the resolved path.
pub open spec fn hints_synced(before: crate::model::Sidecar, after: crate::model::Sidecar, t: crate::sync::TablesView) -> bool {
    &&& after.links@.len() == before.links@.len()
    &&& forall|i: int| 0 <= i < before.links@.len() ==> {
        &&& (#[trigger] after.links@[i]).to@ == before.links@[i].to@
        &&& opt_view(after.links@[i].path_hint) == match crate::sync::hint_update(before.links@[i], t) {
            Some(p) => Some(p),
            None => opt_view(before.links@[i].path_hint),
        }
    }
}

proof fn lemma_no_updates_count(u: Seq<Option<Seq<char>>>)
    requires
        forall|i: int| 0 <= i < u.len() ==> (#[trigger] u[i]) is None,
    ensures
        crate::sync::count_some(u) == 0,
    decreases u.len(),
{
    if u.len() > 0 {
        lemma_no_updates_count(u.drop_last());
        assert(u.last() == u[u.len() - 1]);
    }
}

/// A sync after a sync rewrites nothing: once the planned path hints are
/// written in, and while the targets resolve as before, no hint of the
/// sidecar is stale.
pub proof fn law_second_sync_rewrites_nothing(
    sidecar_path: Seq<char>,
    before: crate::model::Sidecar,
    after: crate::model::Sidecar,
    after_text: Seq<char>,
    t: crate::sync::TablesView,
)
    requires
        hints_synced(before, after, t),
    ensures
        crate::sync::sidecar_sync_spec(sidecar_path, after_text, after, t) == Ok::<Option<Seq<char>>, Seq<char>>(None),
{
    let u = crate::sync::hint_updates_spec(after.links@, t);
    assert forall|i: int| 0 <= i < u.len() implies (#[trigger] u[i]) is None by {
        assert(after.links@[i].to@ == before.links@[i].to@);
    }
    lemma_no_updates_count(u);
}

} // verus!

verus! {

/// A trace of the cache starts where a trace of the graph starts: when the
/// cache's resource rows list the graph's resources and no two resources
/// share an id, a start locator resolves in the cache exactly when it
/// resolves in the graph, and to the same path.
pub proof fn law_cache_trace_starts_where_trace_starts(
    cache_resources: Seq<crate::cache::CacheResource>,
    resources: Seq<crate::model::Resource>,
    from: Seq<char>,
)
    requires
        crate::agreement::rows_mirror(cache_resources, resources),
        crate::agreement::unique_ids(resources),
    ensures
        match crate::trace::trace_start(resources, from) {
            Ok(s) => crate::cache::cache_resource_spec(cache_resources, from) == Ok::<Seq<char>, Seq<char>>(s),
            Err(_) => crate::cache::cache_resource_spec(cache_resources, from) is Err,
        },
{
    crate::agreement::lemma_starts_agree(cache_resources, resources, from);
}

} // verus!

verus! {

/// What `build_graph` promises of its result `g` for `config` and `inputs`.
pub open spec fn built_from(config: crate::model::Config, inputs: crate::assemble::GraphInputs, g: crate::model::BuildResult) -> bool {
    &&& crate::assemble::graph_spec(config, inputs, crate::globs::built_globs(crate::config::list_view(config.exclude)),
        crate::globs::built_globs(crate::config::list_view(config.require_sidecar)), g)
    &&& crate::sorted::sorted_strict(crate::resolve::resource_path_views(g.resources@))
    &&& forall|i: int| 0 <= i < g.resources.len() ==> exists|k: int| 0 <= k < inputs.files.len()
        && (#[trigger] inputs.files@[k]).path@ == (#[trigger] g.resources@[i]).path@
}

/// Every listed path is in normal form, as `git ls-files` lists them.
pub open spec fn listing_normal(inputs: crate::assemble::GraphInputs) -> bool {
    forall|k: int| 0 <= k < inputs.files.len() ==> crate::util::strict_path((#[trigger] inputs.files@[k]).path@)
        == Ok::<Seq<char>, Seq<char>>(inputs.files@[k].path@)
}

/// A graph built from a listing of normal-form paths has consistent links:
/// unique paths, resolved targets that are resources, links with one locator
/// resolving alike, and `path:` locators of resources resolving to them.
pub proof fn law_built_graphs_have_consistent_links(
    config: crate::model::Config,
    inputs: crate::assemble::GraphInputs,
    g: crate::model::BuildResult,
)
    requires
        built_from(config, inputs, g),
        listing_normal(inputs),
    ensures
        crate::agreement::links_consistent(g.resources@),
{
    crate::agreement::lemma_built_links_consistent(config, inputs,
        crate::globs::built_globs(crate::config::list_view(config.exclude)),
        crate::globs::built_globs(crate::config::list_view(config.require_sidecar)), g);
}

/// Tracing the cache rows of a built graph gives what tracing the graph
/// gives: from the same start and in the same direction, both visit the same
/// paths in the same order.
pub proof fn law_cache_trace_of_a_built_graph_agrees_with_trace(
    config: crate::model::Config,
    inputs: crate::assemble::GraphInputs,
    g: crate::model::BuildResult,
    rows: Seq<crate::cache::CacheLink>,
    direction: crate::model::Direction,
    start: Seq<char>,
    graph_order: Seq<Seq<char>>,
    cache_order: Seq<Seq<char>>,
)
    requires
        built_from(config, inputs, g),
        listing_normal(inputs),
        crate::plugin::first_occurrences(crate::plugin::all_relation_orders(g.plugins@)).len() < i64::MAX,
        crate::cache::cache_links_view(rows)
            == crate::cache::link_rows_spec(g.resources@, crate::plugin::first_occurrences(crate::plugin::all_relation_orders(g.plugins@))),
        crate::trace::traced(g.resources@, g.plugins@, direction, start, graph_order),
        crate::cache::cache_traced(rows, direction, start, cache_order),
    ensures
        graph_order == cache_order,
{
    law_built_graphs_have_consistent_links(config, inputs, g);
    law_cache_trace_agrees_with_trace(g.resources@, g.plugins@, rows, direction, start, graph_order, cache_order);
}

} // verus!

verus! {

/// `after` holds the sidecars of `before` read again once a sync wrote its
/// path hints: same sidecars, each readable, with the planned hints in.
pub open spec fn sidecars_synced(before: Seq<crate::sync::SyncSidecar>, after: Seq<crate::sync::SyncSidecar>, t: crate::sync::TablesView) -> bool {
    &&& after.len() == before.len()
    &&& forall|k: int| 0 <= k < before.len() ==> {
        &&& (#[trigger] after[k]).sidecar_path@ == before[k].sidecar_path@
        &&& before[k].loaded matches Ok(b) && after[k].loaded matches Ok(a) && hints_synced(b.sidecar, a.sidecar, t)
    }
}

proof fn lemma_sync_all_after_sync(before: Seq<crate::sync::SyncSidecar>, after: Seq<crate::sync::SyncSidecar>, t: crate::sync::TablesView, k: int)
    requires
        sidecars_synced(before, after, t),
        0 <= k <= after.len(),
    ensures
        crate::sync::sync_all_spec(after, t, k) == Ok::<Seq<(Seq<char>, Seq<char>)>, Seq<char>>(seq![]),
    decreases k,
{
    if k > 0 {
        lemma_sync_all_after_sync(before, after, t, k - 1);
        let s = after[k - 1];
        let b = before[k - 1];
        assert(b.loaded is Ok && s.loaded is Ok);
        law_second_sync_rewrites_nothing(s.sidecar_path@, b.loaded->Ok_0.sidecar, s.loaded->Ok_0.sidecar, s.loaded->Ok_0.text@, t);
    }
}

/// A sync after a sync rewrites nothing: when the repository holds the
/// sidecars with the planned path hints written in, the graph built from it
/// resolves its targets as before, and nothing blocks the sync, the next
/// sync plans no rewrite.
pub proof fn law_sync_after_sync_rewrites_nothing(
    graph: crate::model::BuildResult,
    before: Seq<crate::sync::SyncSidecar>,
    after: Seq<crate::sync::SyncSidecar>,
    t: crate::sync::TablesView,
)
    requires
        crate::sync::graph_tables(graph.resources@) == t,
        crate::sync::sync_blocking_spec(crate::model::diags_view(graph.diagnostics@)).len() == 0,
        sidecars_synced(before, after, t),
    ensures
        crate::sync::sync_all_spec(after, crate::sync::graph_tables(graph.resources@), after.len() as int)
            == Ok::<Seq<(Seq<char>, Seq<char>)>, Seq<char>>(seq![]),
{
    lemma_sync_all_after_sync(before, after, t, after.len() as int);
}

} // verus!
