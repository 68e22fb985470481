//! What each operation is for, stated over all inputs: which revisions a
//! freshness state reports, which characters an id keeps, where a locator
//! resolves and which hints a sync refreshes, what a cache link query
//! returns, and which sidecars are reported as orphans.
use vstd::prelude::*;

use crate::freshness::{state_of, FreshnessState};
use crate::model::DiagView;

verus! {

// ---------------------------------------------------------------------------
// Relation freshness
// ---------------------------------------------------------------------------

/// The revisions a state says changed: `(source, target, link)`.
pub open spec fn changes_of(st: FreshnessState) -> (bool, bool, bool) {
    match st {
        FreshnessState::SourceChanged => (true, false, false),
        FreshnessState::TargetChanged => (false, true, false),
        FreshnessState::BothChanged => (true, true, false),
        FreshnessState::LinkChanged => (false, false, true),
        FreshnessState::SourceAndLinkChanged => (true, false, true),
        FreshnessState::TargetAndLinkChanged => (false, true, true),
        FreshnessState::AllChanged => (true, true, true),
    }
}

/// A freshness state reports exactly the revisions that changed: none when
/// nothing changed, and otherwise a state naming the source when and only
/// when the source changed, the target when and only when the target
/// changed, and the link when and only when the link changed.
pub proof fn law_freshness_state_reports_each_change(source: bool, target: bool, link: bool)
    ensures
        state_of(source, target, link) is None <==> (!source && !target && !link),
        state_of(source, target, link) matches Some(st) ==> changes_of(st) == (source, target, link),
{
}

/// Different states report different changes, so each change set has one
/// state.
pub proof fn law_freshness_states_are_distinct(a: FreshnessState, b: FreshnessState)
    ensures
        changes_of(a) == changes_of(b) ==> a == b,
{
}

/// The names of the changed revisions, in source, target, link order.
pub open spec fn changed_names(source: bool, target: bool, link: bool) -> Seq<Seq<char>> {
    (if source { seq!["source"@] } else { Seq::empty() })
        + (if target { seq!["target"@] } else { Seq::empty() })
        + (if link { seq!["link"@] } else { Seq::empty() })
}

/// A sentence naming the changed revisions: one name, two joined by `and`,
/// or three as a list.
pub open spec fn change_sentence(names: Seq<Seq<char>>) -> Seq<char> {
    if names.len() == 1 {
        names[0] + " revision changed after acknowledgement"@
    } else if names.len() == 2 {
        names[0] + " and "@ + names[1] + " revisions changed after acknowledgement"@
    } else {
        names[0] + ", "@ + names[1] + ", and "@ + names[2] + " revisions changed after acknowledgement"@
    }
}

/// The message of a freshness finding names exactly the revisions that
/// changed.
pub proof fn law_freshness_message_names_the_changes(source: bool, target: bool, link: bool)
    ensures
        state_of(source, target, link) matches Some(st)
            ==> crate::freshness::message_spec(st) == change_sentence(changed_names(source, target, link)),
{
    reveal_strlit("source");
    reveal_strlit("target");
    reveal_strlit("link");
    reveal_strlit(" revision changed after acknowledgement");
    reveal_strlit(" revisions changed after acknowledgement");
    reveal_strlit(" and ");
    reveal_strlit(", ");
    reveal_strlit(", and ");
    reveal_strlit("source revision changed after acknowledgement");
    reveal_strlit("target revision changed after acknowledgement");
    reveal_strlit("source and target revisions changed after acknowledgement");
    reveal_strlit("link revision changed after acknowledgement");
    reveal_strlit("source and link revisions changed after acknowledgement");
    reveal_strlit("target and link revisions changed after acknowledgement");
    reveal_strlit("source, target, and link revisions changed after acknowledgement");
    if let Some(st) = state_of(source, target, link) {
        let names = changed_names(source, target, link);
        if source && !target && !link {
            assert(names =~= seq!["source"@]);
        } else if !source && target && !link {
            assert(names =~= seq!["target"@]);
        } else if source && target && !link {
            assert(names =~= seq!["source"@, "target"@]);
        } else if !source && !target && link {
            assert(names =~= seq!["link"@]);
        } else if source && !target && link {
            assert(names =~= seq!["source"@, "link"@]);
        } else if !source && target && link {
            assert(names =~= seq!["target"@, "link"@]);
        } else {
            assert(names =~= seq!["source"@, "target"@, "link"@]);
        }
        assert(crate::freshness::message_spec(st) =~= change_sentence(names));
    }
}

// ---------------------------------------------------------------------------
// Generated ids
// ---------------------------------------------------------------------------

/// A character an id keeps as it is: a lowercase ASCII letter, a digit,
/// `-` or `_`.
pub open spec fn id_char(c: char) -> bool {
    ('0' <= c && c <= '9') || ('a' <= c && c <= 'z') || c == '-' || c == '_'
}

/// Appending a kept character to a path appends it to the id characters:
/// `-` and `_` stay in place, as letters and digits do.
pub proof fn law_id_keeps_appended_id_chars(s: Seq<char>, c: char)
    requires
        id_char(c),
    ensures
        crate::init::id_chars(s.push(c)) == (crate::init::id_chars(s).0.push(c), false),
{
    assert(s.push(c).drop_last() =~= s);
}

proof fn lemma_id_chars_of_id_text(p: Seq<char>)
    requires
        forall|i: int| 0 <= i < p.len() ==> id_char(#[trigger] p[i]),
    ensures
        crate::init::id_chars(p).0 == p,
    decreases p.len(),
{
    if p.len() > 0 {
        let q = p.drop_last();
        lemma_id_chars_of_id_text(q);
        law_id_keeps_appended_id_chars(q, p.last());
        assert(q.push(p.last()) =~= p);
    }
}

/// A non-empty path made only of lowercase letters, digits, `-` and `_` is
/// its own id: nothing of it is dropped, folded or replaced.
pub proof fn law_id_text_is_its_own_id(p: Seq<char>)
    requires
        p.len() > 0,
        forall|i: int| 0 <= i < p.len() ==> id_char(#[trigger] p[i]),
    ensures
        crate::init::generated_id(p) == p,
{
    lemma_id_chars_of_id_text(p);
    assert(p[0] != '.');
    assert(p.last() == p[p.len() - 1]);
    assert(crate::init::leading_dots(p) == 0);
    assert(crate::init::trailing_dots(p) == 0);
    assert(p.subrange(0, p.len() as int) =~= p);
}

// ---------------------------------------------------------------------------
// Resolving link targets for a sync
// ---------------------------------------------------------------------------

/// A `path:` locator whose normalized path is a resource resolves to that
/// path; one whose path is no resource, or does not normalize, resolves to
/// nothing.
pub proof fn law_path_locators_resolve_to_their_resource(locator: Seq<char>, t: crate::sync::TablesView, p: Seq<char>)
    requires
        crate::locator::locator_spec(locator) == Ok::<(bool, Seq<char>), Seq<char>>((false, p)),
    ensures
        match crate::util::strict_path(p) {
            Ok(n) => crate::sync::resolved_target_spec(locator, t) == if t.2.contains(n) { Some(n) } else { None::<Seq<char>> },
            Err(_) => crate::sync::resolved_target_spec(locator, t) is None,
        },
{
}

/// An `id:` locator resolves to the path recorded for its id (the last
/// entry with it), and to nothing when no entry has it.
pub proof fn law_id_locators_resolve_to_their_resource(locator: Seq<char>, t: crate::sync::TablesView, id: Seq<char>, k: int)
    requires
        crate::locator::locator_spec(locator) == Ok::<(bool, Seq<char>), Seq<char>>((true, id)),
        0 <= k < t.0.len(),
        t.0.len() <= t.1.len(),
        t.0[k] == id,
        forall|j: int| k < j < t.0.len() ==> t.0[j] != id,
    ensures
        crate::sync::resolved_target_spec(locator, t) == Some(t.1[k]),
{
    lemma_id_target_last(t.0, t.1, id, k);
}

proof fn lemma_id_target_last(ids: Seq<Seq<char>>, paths: Seq<Seq<char>>, id: Seq<char>, k: int)
    requires
        0 <= k < ids.len(),
        ids[k] == id,
        forall|j: int| k < j < ids.len() ==> ids[j] != id,
    ensures
        crate::link_edit::id_target(ids, paths, id) == Some(paths[k]),
    decreases ids.len(),
{
    if k < ids.len() - 1 {
        assert(ids.last() == ids[ids.len() - 1]);
        lemma_id_target_last(ids.drop_last(), paths, id, k);
    }
}

/// A sync refreshes exactly the stale hints: a link with a path hint that
/// differs from where its target resolves gets that path; a link whose hint
/// already matches, whose target does not resolve, or that has no hint gets
/// no new hint.
pub proof fn law_sync_refreshes_exactly_the_stale_hints(l: crate::model::Link, t: crate::sync::TablesView)
    ensures
        crate::sync::hint_update(l, t) == match (l.path_hint, crate::sync::resolved_target_spec(l.to@, t)) {
            (Some(h), Some(n)) => if h@ != n { Some(n) } else { None::<Seq<char>> },
            _ => None::<Seq<char>>,
        },
{
}

/// Where a link target resolves is always a resource path or the path
/// recorded for an id.
pub proof fn law_resolved_targets_are_known_paths(locator: Seq<char>, t: crate::sync::TablesView)
    requires
        t.0.len() <= t.1.len(),
    ensures
        crate::sync::resolved_target_spec(locator, t) matches Some(n) ==> t.2.contains(n) || t.1.contains(n),
{
    if let Ok((true, id)) = crate::locator::locator_spec(locator) {
        lemma_id_target_in(t.0, t.1, id);
    }
}

proof fn lemma_id_target_in(ids: Seq<Seq<char>>, paths: Seq<Seq<char>>, id: Seq<char>)
    requires
        ids.len() <= paths.len(),
    ensures
        crate::link_edit::id_target(ids, paths, id) matches Some(n) ==> paths.contains(n),
    decreases ids.len(),
{
    if ids.len() > 0 {
        if ids.last() == id {
            assert(paths[ids.len() - 1] == paths[ids.len() - 1]);
        } else {
            lemma_id_target_in(ids.drop_last(), paths, id);
        }
    }
}

// ---------------------------------------------------------------------------
// Cache link queries
// ---------------------------------------------------------------------------

proof fn lemma_kept_links_member(
    links: Seq<crate::cache::CacheLink>,
    from_path: Option<Seq<char>>,
    rel: Option<Seq<char>>,
    to: Option<(bool, Seq<char>)>,
    to_path: Option<Seq<char>>,
    x: crate::cache::CacheLink,
)
    ensures
        crate::cache::kept_links(links, from_path, rel, to, to_path).contains(x)
            <==> links.contains(x) && crate::cache::link_kept(x, from_path, rel, to, to_path),
    decreases links.len(),
{
    if links.len() > 0 {
        let rest = crate::cache::kept_links(links.drop_last(), from_path, rel, to, to_path);
        lemma_kept_links_member(links.drop_last(), from_path, rel, to, to_path, x);
        let r = crate::cache::kept_links(links, from_path, rel, to, to_path);
        if links.contains(x) && !links.drop_last().contains(x) {
            let i = choose|i: int| 0 <= i < links.len() && links[i] == x;
            if i < links.len() - 1 {
                assert(links.drop_last()[i] == x);
            }
        }
        if links.drop_last().contains(x) {
            let i = choose|i: int| 0 <= i < links.drop_last().len() && links.drop_last()[i] == x;
            assert(links[i] == x);
        }
        if r.contains(x) && !rest.contains(x) {
            let i = choose|i: int| 0 <= i < r.len() && r[i] == x;
            assert(i == rest.len());
        }
        if rest.contains(x) {
            let i = choose|i: int| 0 <= i < rest.len() && rest[i] == x;
            if crate::cache::link_kept(links.last(), from_path, rel, to, to_path) {
                assert(r[i] == x);
            }
        }
        if links.last() == x && crate::cache::link_kept(x, from_path, rel, to, to_path) {
            assert(r[r.len() - 1] == x);
        }
    }
}

/// A cache link query returns only rows of the cache that pass every
/// filter given: with `rel`, only links of that relation; with `from`, only
/// links from the resource it names; whatever else is given.
pub proof fn law_cache_links_keep_the_filters(
    resources: Seq<crate::cache::CacheResource>,
    links: Seq<crate::cache::CacheLink>,
    from: Option<Seq<char>>,
    to: Option<Seq<char>>,
    rel: Option<Seq<char>>,
    x: crate::cache::CacheLink,
)
    requires
        crate::cache::cache_links_spec(resources, links, from, to, rel) matches Ok(ls) && ls.contains(x),
    ensures
        links.contains(x),
        rel matches Some(r) ==> x.rel@ == r,
        from matches Some(f) ==> crate::cache::cache_resource_spec(resources, f) == Ok::<Seq<char>, Seq<char>>(x.source_path@),
{
    let from_r: Option<Seq<char>> = match from {
        Some(f) => match crate::cache::cache_resource_spec(resources, f) {
            Ok(p) => Some(p),
            Err(_) => None,
        },
        None => None,
    };
    match to {
        None => lemma_kept_links_member(links, from_r, rel, None, None, x),
        Some(t) => {
            let loc = crate::locator::locator_spec(t)->Ok_0;
            let tp = crate::cache::cache_locator_spec(resources, t)->Ok_0;
            lemma_kept_links_member(links, from_r, rel, Some(loc), tp, x);
        },
    }
}

/// Without a target filter, a cache link query returns every row of the
/// cache from the resource `from` names (any, without `from`) with the
/// relation `rel` (any, without `rel`), in row order.
pub proof fn law_cache_links_return_every_matching_row(
    resources: Seq<crate::cache::CacheResource>,
    links: Seq<crate::cache::CacheLink>,
    from: Option<Seq<char>>,
    rel: Option<Seq<char>>,
    x: crate::cache::CacheLink,
)
    requires
        crate::cache::cache_links_spec(resources, links, from, None, rel) is Ok,
        links.contains(x),
        rel matches Some(r) ==> x.rel@ == r,
        from matches Some(f) ==> crate::cache::cache_resource_spec(resources, f) == Ok::<Seq<char>, Seq<char>>(x.source_path@),
    ensures
        crate::cache::cache_links_spec(resources, links, from, None, rel) matches Ok(ls) && ls.contains(x),
{
    let from_r: Option<Seq<char>> = match from {
        Some(f) => Some(crate::cache::cache_resource_spec(resources, f)->Ok_0),
        None => None,
    };
    lemma_kept_links_member(links, from_r, rel, None, None, x);
}

/// With a target filter, a cache link query returns only links to that
/// target: for `id:`, links to that id or to the path it names; for
/// `path:`, links whose resolved path or `path:` locator is that path.
pub proof fn law_cache_links_keep_the_target_filter(
    resources: Seq<crate::cache::CacheResource>,
    links: Seq<crate::cache::CacheLink>,
    from: Option<Seq<char>>,
    to: Seq<char>,
    rel: Option<Seq<char>>,
    x: crate::cache::CacheLink,
)
    requires
        crate::cache::cache_links_spec(resources, links, from, Some(to), rel) matches Ok(ls) && ls.contains(x),
    ensures
        crate::locator::locator_spec(to) matches Ok((is_id, v)) && if is_id {
            crate::model::opt_view(x.target_id) == Some(v)
                || (crate::cache::cache_locator_spec(resources, to) matches Ok(Some(tp)) && crate::model::opt_view(x.target_path) == Some(tp))
        } else {
            crate::util::strict_path(v) matches Ok(n) && (crate::model::opt_view(x.target_path) == Some(n)
                || crate::cache::locator_target_path(x.target_locator@) == Some(n))
        },
{
    let from_r: Option<Seq<char>> = match from {
        Some(f) => match crate::cache::cache_resource_spec(resources, f) {
            Ok(p) => Some(p),
            Err(_) => None,
        },
        None => None,
    };
    let loc = crate::locator::locator_spec(to)->Ok_0;
    let tp = crate::cache::cache_locator_spec(resources, to)->Ok_0;
    lemma_kept_links_member(links, from_r, rel, Some(loc), tp, x);
}

// ---------------------------------------------------------------------------
// Orphan sidecars
// ---------------------------------------------------------------------------

/// The finding for a sidecar whose resource does not exist.
pub open spec fn orphan_finding(t: Seq<char>, suffix: Seq<char>) -> DiagView {
    ("orphan-sidecar"@, Some(t + suffix), "sidecar target does not exist: "@ + t)
}

/// Every sidecar whose target is not a resource is reported as an orphan,
/// and nothing else is: the orphan findings are exactly those of the
/// targets missing among the resources.
pub proof fn law_orphan_sidecars_are_reported(targets: Seq<Seq<char>>, resources: Seq<Seq<char>>, suffix: Seq<char>, d: DiagView)
    ensures
        crate::graph::orphan_diagnostics(targets, resources, suffix).contains(d)
            <==> exists|t: Seq<char>| targets.contains(t) && !resources.contains(t) && d == #[trigger] orphan_finding(t, suffix),
    decreases targets.len(),
{
    if targets.len() > 0 {
        let front = targets.drop_last();
        let t = targets.last();
        law_orphan_sidecars_are_reported(front, resources, suffix, d);
        let rest = crate::graph::orphan_diagnostics(front, resources, suffix);
        let all = crate::graph::orphan_diagnostics(targets, resources, suffix);
        assert(targets[targets.len() - 1] == t);
        if all.contains(d) {
            let i = choose|i: int| 0 <= i < all.len() && all[i] == d;
            if i < rest.len() {
                assert(rest[i] == d);
                let u = choose|u: Seq<char>| front.contains(u) && !resources.contains(u) && d == #[trigger] orphan_finding(u, suffix);
                let j = choose|j: int| 0 <= j < front.len() && front[j] == u;
                assert(targets[j] == u);
            } else {
                assert(d == orphan_finding(t, suffix));
            }
        }
        if exists|u: Seq<char>| targets.contains(u) && !resources.contains(u) && d == #[trigger] orphan_finding(u, suffix) {
            let u = choose|u: Seq<char>| targets.contains(u) && !resources.contains(u) && d == #[trigger] orphan_finding(u, suffix);
            let j = choose|j: int| 0 <= j < targets.len() && targets[j] == u;
            if j < front.len() {
                assert(front[j] == u);
                assert(rest.contains(d));
                let k = choose|k: int| 0 <= k < rest.len() && rest[k] == d;
                assert(all[k] == d);
            } else {
                assert(u == t);
                assert(all[all.len() - 1] == d);
            }
        }
    }
}

/// The finding for a resource that `requireSidecar` matches but that has no
/// sidecar.
pub open spec fn missing_finding(p: Seq<char>) -> DiagView {
    ("missing-sidecar"@, Some(p), "resource matches requireSidecar but has no sidecar"@)
}

/// Some glob of `require` matches `p`.
pub open spec fn required(require: Seq<Seq<char>>, p: Seq<char>) -> bool {
    exists|i: int| 0 <= i < require.len() && crate::globs::glob_matches(#[trigger] require[i], p)
}

/// Every resource that `requireSidecar` matches and that has no sidecar is
/// reported, and nothing else is.
pub proof fn law_missing_sidecars_are_reported(resources: Seq<Seq<char>>, targets: Seq<Seq<char>>, require: Seq<Seq<char>>, d: DiagView)
    ensures
        crate::graph::missing_sidecar_diagnostics(resources, targets, require).contains(d)
            <==> exists|p: Seq<char>| resources.contains(p) && !targets.contains(p) && required(require, p) && d == #[trigger] missing_finding(p),
    decreases resources.len(),
{
    if resources.len() > 0 {
        let front = resources.drop_last();
        let p = resources.last();
        law_missing_sidecars_are_reported(front, targets, require, d);
        let rest = crate::graph::missing_sidecar_diagnostics(front, targets, require);
        let all = crate::graph::missing_sidecar_diagnostics(resources, targets, require);
        assert(resources[resources.len() - 1] == p);
        assert(crate::graph::any_glob(require, p) == required(require, p));
        if all.contains(d) {
            let i = choose|i: int| 0 <= i < all.len() && all[i] == d;
            if i < rest.len() {
                assert(rest[i] == d);
                let u = choose|u: Seq<char>| front.contains(u) && !targets.contains(u) && required(require, u) && d == #[trigger] missing_finding(u);
                let j = choose|j: int| 0 <= j < front.len() && front[j] == u;
                assert(resources[j] == u);
            } else {
                assert(d == missing_finding(p));
            }
        }
        if exists|u: Seq<char>| resources.contains(u) && !targets.contains(u) && required(require, u) && d == #[trigger] missing_finding(u) {
            let u = choose|u: Seq<char>| resources.contains(u) && !targets.contains(u) && required(require, u) && d == #[trigger] missing_finding(u);
            let j = choose|j: int| 0 <= j < resources.len() && resources[j] == u;
            assert(crate::graph::any_glob(require, u) == required(require, u));
            if j < front.len() {
                assert(front[j] == u);
                assert(rest.contains(d));
                let k = choose|k: int| 0 <= k < rest.len() && rest[k] == d;
                assert(all[k] == d);
            } else {
                assert(u == p);
                assert(all[all.len() - 1] == d);
            }
        }
    }
}

/// A character that is neither a letter, a digit, `-` nor `_`.
pub open spec fn separator(c: char) -> bool {
    !crate::init::is_ascii_alnum(c) && c != '-' && c != '_'
}

/// A run of separators becomes one `.`: a separator after a letter, digit,
/// `-` or `_` adds a `.`, and one after another separator adds nothing.
pub proof fn law_id_folds_separator_runs(s: Seq<char>, c: char, d: char)
    requires
        separator(c),
        separator(d),
    ensures
        crate::init::id_chars(s.push(c)).0 == if crate::init::id_chars(s).1 {
            crate::init::id_chars(s).0
        } else {
            crate::init::id_chars(s).0.push('.')
        },
        crate::init::id_chars(s.push(c).push(d)).0 == crate::init::id_chars(s.push(c)).0,
{
    assert(s.push(c).drop_last() =~= s);
    assert(s.push(c).push(d).drop_last() =~= s.push(c));
}

/// Letters are lowercased: an uppercase letter adds its lowercase form.
pub proof fn law_id_lowercases_letters(s: Seq<char>, c: char)
    requires
        'A' <= c <= 'Z',
    ensures
        crate::init::id_chars(s.push(c)).0 == crate::init::id_chars(s).0.push(crate::util::lower_char(c)),
        id_char(crate::util::lower_char(c)),
{
    assert(s.push(c).drop_last() =~= s);
}

proof fn lemma_leading_dots_bound(s: Seq<char>)
    ensures
        crate::init::leading_dots(s) <= s.len(),
        forall|i: int| 0 <= i < crate::init::leading_dots(s) ==> s[i] == '.',
        crate::init::leading_dots(s) < s.len() ==> s[crate::init::leading_dots(s) as int] != '.',
    decreases s.len(),
{
    if s.len() > 0 && s[0] == '.' {
        lemma_leading_dots_bound(s.drop_first());
        assert forall|i: int| 0 <= i < crate::init::leading_dots(s) implies s[i] == '.' by {
            if i > 0 {
                assert(s[i] == s.drop_first()[i - 1]);
            }
        }
    }
}

proof fn lemma_trailing_dots_bound(s: Seq<char>)
    ensures
        crate::init::trailing_dots(s) <= s.len(),
        crate::init::trailing_dots(s) < s.len() ==> s[s.len() - 1 - crate::init::trailing_dots(s)] != '.',
        forall|i: int| s.len() - crate::init::trailing_dots(s) <= i < s.len() ==> s[i] == '.',
    decreases s.len(),
{
    if s.len() > 0 && s.last() == '.' {
        lemma_trailing_dots_bound(s.drop_last());
        assert forall|i: int| s.len() - crate::init::trailing_dots(s) <= i < s.len() implies s[i] == '.' by {
            if i < s.len() - 1 {
                assert(s[i] == s.drop_last()[i]);
            }
        }
        if crate::init::trailing_dots(s) < s.len() {
            assert(s[s.len() - 1 - crate::init::trailing_dots(s)] == s.drop_last()[s.drop_last().len() - 1 - crate::init::trailing_dots(s.drop_last())]);
        }
    } else if s.len() > 0 {
        assert(s.last() == s[s.len() - 1]);
    }
}

/// A generated id is never empty, and an id taken from the path's
/// characters neither starts nor ends with `.`.
pub proof fn law_ids_are_trimmed(path: Seq<char>)
    ensures
        crate::init::generated_id(path).len() > 0,
        crate::init::trim_dots(crate::init::id_chars(path).0).len() > 0 ==> {
            let id = crate::init::generated_id(path);
            id[0] != '.' && id[id.len() - 1] != '.'
        },
{
    reveal_strlit("resource.");
    let raw = crate::init::id_chars(path).0;
    lemma_leading_dots_bound(raw);
    lemma_trailing_dots_bound(raw);
    let a = crate::init::leading_dots(raw);
    let t = crate::init::trailing_dots(raw);
    if a < raw.len() {
        // The first non-dot is at `a`, the last at `len - 1 - t`, so `a <= len - 1 - t`.
        assert(a < raw.len() - t) by {
            if raw.len() - t <= a {
                assert(raw[a as int] == '.');
            }
        }
        let id = raw.subrange(a as int, raw.len() - t);
        assert(id[0] == raw[a as int]);
        assert(id[id.len() - 1] == raw[raw.len() - 1 - t]);
    }
}

} // verus!
