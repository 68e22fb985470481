//! Plugin rules over the resolved graph: required outgoing relations and
//! required reachable resource kinds.
use vstd::prelude::*;

use crate::model::{diags_view, opt_view, push_diag, strs_view, vec_contains, DiagView, Diagnostic, Plugin, Resource, Rule};
use crate::sorted::{sorted_insert, sorted_of, sorted_strict};
use crate::text::{cat, join, join_strs};

verus! {

/// The resolved target paths of `r`'s links.
pub open spec fn link_targets(r: Resource) -> Set<Seq<char>> {
    Set::new(|t: Seq<char>| exists|j: int| 0 <= j < r.links@.len() && opt_view(#[trigger] r.links@[j].target_path) == Some(t))
}

/// `s` holds the targets of `start` and of every resource whose path it holds.
pub open spec fn closed_under_links(s: Set<Seq<char>>, resources: Seq<Resource>, start: Resource) -> bool {
    &&& link_targets(start).subset_of(s)
    &&& forall|i: int| 0 <= i < resources.len() && s.contains(#[trigger] resources[i].path@) ==> link_targets(resources[i]).subset_of(s)
}

/// The paths reachable from `start` by following one or more resolved links.
pub open spec fn reachable_paths(resources: Seq<Resource>, start: Resource) -> Set<Seq<char>> {
    Set::new(|q: Seq<char>| forall|s: Set<Seq<char>>| closed_under_links(s, resources, start) ==> #[trigger] s.contains(q))
}

/// The kinds of the resources reachable from `start`.
pub open spec fn reached_kinds(resources: Seq<Resource>, start: Resource) -> Set<Seq<char>> {
    Set::new(|k: Seq<char>| exists|i: int| 0 <= i < resources.len()
        && reachable_paths(resources, start).contains(#[trigger] resources[i].path@)
        && opt_view(resources[i].kind) == Some(k))
}

/// The required kinds that no resource reachable from `start` has, sorted and
/// without repeats.
pub open spec fn missing_kinds_spec(resources: Seq<Resource>, start: Resource, required: Seq<Seq<char>>) -> Seq<Seq<char>> {
    sorted_of(required.to_set().difference(reached_kinds(resources, start)))
}

/// Number of set flags.
pub open spec fn marked_count(marks: Seq<bool>) -> nat
    decreases marks.len(),
{
    if marks.len() == 0 {
        0
    } else {
        marked_count(marks.drop_last()) + if marks.last() { 1nat } else { 0nat }
    }
}

pub proof fn lemma_marked_count_grows(a: Seq<bool>, b: Seq<bool>)
    requires
        a.len() == b.len(),
        forall|i: int| 0 <= i < a.len() && a[i] ==> b[i],
    ensures
        marked_count(a) <= marked_count(b) <= b.len(),
        a != b ==> marked_count(a) < marked_count(b),
    decreases a.len(),
{
    if a.len() > 0 {
        lemma_marked_count_grows(a.drop_last(), b.drop_last());
        assert(a.last() ==> b.last()) by {
            assert(a[a.len() - 1] ==> b[a.len() - 1]);
        }
        assert(a =~= a.drop_last().push(a.last()));
        assert(b =~= b.drop_last().push(b.last()));
        if a != b && a.drop_last() == b.drop_last() {
            assert(a.last() != b.last());
        }
    } else {
        assert(a =~= b);
    }
}

/// The targets of the marked resources.
pub open spec fn marked_targets(resources: Seq<Resource>, marks: Seq<bool>) -> Set<Seq<char>> {
    Set::new(|t: Seq<char>| exists|p: int| 0 <= p < resources.len() && marks[p] && #[trigger] link_targets(resources[p]).contains(t))
}

/// Every resource whose path is `t` is marked.
pub open spec fn all_marked(resources: Seq<Resource>, marks: Seq<bool>, t: Seq<char>) -> bool {
    forall|j: int| 0 <= j < resources.len() && #[trigger] resources[j].path@ == t ==> marks[j]
}

/// Marked resources lie on every link-closed set.
pub open spec fn marks_sound(resources: Seq<Resource>, start: Resource, marks: Seq<bool>) -> bool {
    forall|i: int| 0 <= i < marks.len() && #[trigger] marks[i] ==>
        forall|s: Set<Seq<char>>| closed_under_links(s, resources, start) ==> #[trigger] s.contains(resources[i].path@)
}

} // verus!

verus! {

/// Marks every resource whose path is a target of `r`.
fn mark_targets(resources: &Vec<Resource>, start: Ghost<Resource>, r: &Resource, marks: &mut Vec<bool>) -> (changed: bool)
    requires
        old(marks).len() == resources.len(),
        marks_sound(resources@, start@, old(marks)@),
        forall|s: Set<Seq<char>>| closed_under_links(s, resources@, start@) ==> link_targets(*r).subset_of(s),
    ensures
        final(marks).len() == resources.len(),
        marks_sound(resources@, start@, final(marks)@),
        forall|i: int| 0 <= i < resources.len() && old(marks)@[i] ==> final(marks)@[i],
        forall|t: Seq<char>| link_targets(*r).contains(t) ==> all_marked(resources@, final(marks)@, t),
        changed == (final(marks)@ != old(marks)@),
{
    let ghost orig = marks@;
    let mut changed = false;
    let mut k: usize = 0;
    while k < r.links.len()
        invariant
            k <= r.links.len(),
            marks.len() == resources.len(),
            marks_sound(resources@, start@, marks@),
            forall|s: Set<Seq<char>>| closed_under_links(s, resources@, start@) ==> link_targets(*r).subset_of(s),
            forall|i: int| 0 <= i < resources.len() && orig[i] ==> marks@[i],
            forall|q: int| 0 <= q < k ==> ((#[trigger] r.links@[q]).target_path matches Some(t) ==> all_marked(resources@, marks@, t@)),
            changed == (marks@ != orig),
        decreases r.links.len() - k,
    {
        if let Some(t) = &r.links[k].target_path {
            proof {
                assert(link_targets(*r).contains(t@)) by {
                    assert(opt_view(r.links@[k as int].target_path) == Some(t@));
                }
            }
            let mut j: usize = 0;
            while j < resources.len()
                invariant
                    j <= resources.len(),
                    k < r.links.len(),
                    r.links@[k as int].target_path == Some(*t),
                    link_targets(*r).contains(t@),
                    marks.len() == resources.len(),
                    marks_sound(resources@, start@, marks@),
                    forall|s: Set<Seq<char>>| closed_under_links(s, resources@, start@) ==> link_targets(*r).subset_of(s),
                    forall|i: int| 0 <= i < resources.len() && orig[i] ==> marks@[i],
                    forall|q: int| 0 <= q < k ==> ((#[trigger] r.links@[q]).target_path matches Some(t2) ==> all_marked(resources@, marks@, t2@)),
                    forall|q: int| 0 <= q < j && #[trigger] resources@[q].path@ == t@ ==> marks@[q],
                    changed == (marks@ != orig),
                decreases resources.len() - j,
            {
                if !marks[j] && crate::text::text_eq(resources[j].path.as_str(), t.as_str()) {
                    let ghost before = marks@;
                    marks.set(j, true);
                    proof {
                        assert(marks@[j as int] != orig[j as int]);
                        assert forall|s: Set<Seq<char>>| closed_under_links(s, resources@, start@) implies #[trigger] s.contains(resources@[j as int].path@) by {
                            assert(link_targets(*r).subset_of(s));
                        }
                        assert forall|q: int| 0 <= q < k && (#[trigger] r.links@[q]).target_path is Some implies all_marked(resources@, marks@, r.links@[q].target_path->0@) by {
                            assert(all_marked(resources@, before, r.links@[q].target_path->0@));
                        }
                    }
                    changed = true;
                }
                j += 1;
            }
        }
        k += 1;
    }
    proof {
        assert forall|t: Seq<char>| link_targets(*r).contains(t) implies all_marked(resources@, marks@, t) by {
            let q = choose|q: int| 0 <= q < r.links@.len() && opt_view(#[trigger] r.links@[q].target_path) == Some(t);
            assert(r.links@[q].target_path matches Some(t2) ==> all_marked(resources@, marks@, t2@));
        }
    }
    changed
}

/// The kinds of `required` that no resource reachable from `start` by
/// resolved links has, sorted and without repeats.
pub fn missing_reachable_kinds(resources: &Vec<Resource>, start: &Resource, required: &Vec<String>) -> (r: Vec<String>)
    ensures
        strs_view(r@) == missing_kinds_spec(resources@, *start, strs_view(required@)),
{
    let n = resources.len();
    let mut marks: Vec<bool> = Vec::new();
    let mut i: usize = 0;
    while i < n
        invariant
            i <= n,
            n == resources.len(),
            marks.len() == i,
            forall|q: int| 0 <= q < i ==> !marks@[q],
        decreases n - i,
    {
        marks.push(false);
        i += 1;
    }
    let ghost st = *start;
    proof {
        assert forall|s: Set<Seq<char>>| closed_under_links(s, resources@, st) implies link_targets(*start).subset_of(s) by {}
    }
    mark_targets(resources, Ghost(st), start, &mut marks);
    let mut done = false;
    while !done
        invariant
            marks.len() == resources.len(),
            marks_sound(resources@, st, marks@),
            st == *start,
            forall|t: Seq<char>| link_targets(st).contains(t) ==> all_marked(resources@, marks@, t),
            done ==> forall|q: int| 0 <= q < resources.len() && #[trigger] marks@[q] ==>
                forall|t: Seq<char>| link_targets(resources@[q]).contains(t) ==> all_marked(resources@, marks@, t),
        decreases resources.len() - marked_count(marks@), if done { 0int } else { 1int },
    {
        let ghost round_start = marks@;
        let mut changed = false;
        let mut q: usize = 0;
        while q < resources.len()
            invariant
                q <= resources.len(),
                marks.len() == resources.len(),
                marks_sound(resources@, st, marks@),
                forall|i2: int| 0 <= i2 < resources.len() && round_start[i2] ==> marks@[i2],
                forall|t: Seq<char>| link_targets(st).contains(t) ==> all_marked(resources@, marks@, t),
                changed == (marks@ != round_start),
                !changed ==> forall|p: int| 0 <= p < q && #[trigger] marks@[p] ==>
                    forall|t: Seq<char>| link_targets(resources@[p]).contains(t) ==> all_marked(resources@, marks@, t),
                round_start.len() == resources.len(),
            decreases resources.len() - q,
        {
            if marks[q] {
                proof {
                    assert forall|s: Set<Seq<char>>| closed_under_links(s, resources@, st) implies link_targets(resources@[q as int]).subset_of(s) by {
                        assert(s.contains(resources@[q as int].path@));
                    }
                }
                let ghost before = marks@;
                let c = mark_targets(resources, Ghost(st), &resources[q], &mut marks);
                proof {
                    if !c {
                        assert(marks@ =~= before);
                    } else if before != round_start {
                        assert(!(before =~= round_start));
                        let w = choose|w: int| 0 <= w < before.len() && before[w] != round_start[w];
                        assert(marks@[w] != round_start[w]);
                    }
                    if !changed && !c {
                        assert forall|p: int| 0 <= p < q + 1 && #[trigger] marks@[p] implies
                            forall|t: Seq<char>| link_targets(resources@[p]).contains(t) ==> all_marked(resources@, marks@, t) by {
                            if p < q {
                                assert(before[p]);
                            }
                        }
                    }
                    assert forall|t: Seq<char>| link_targets(st).contains(t) implies all_marked(resources@, marks@, t) by {
                        assert(all_marked(resources@, before, t));
                    }
                }
                if c {
                    changed = true;
                }
            }
            q += 1;
        }
        proof {
            lemma_marked_count_grows(round_start, marks@);
        }
        if !changed {
            done = true;
        }
    }
    let ghost reach = reachable_paths(resources@, st);
    let ghost s0 = link_targets(st).union(marked_targets(resources@, marks@));
    proof {
        assert(closed_under_links(s0, resources@, st)) by {
            assert forall|i2: int| 0 <= i2 < resources.len() && s0.contains(#[trigger] resources@[i2].path@) implies link_targets(resources@[i2]).subset_of(s0) by {
                let t = resources@[i2].path@;
                if link_targets(st).contains(t) {
                    assert(all_marked(resources@, marks@, t));
                } else {
                    let p = choose|p: int| 0 <= p < resources.len() && marks@[p] && #[trigger] link_targets(resources@[p]).contains(t);
                    assert(all_marked(resources@, marks@, t));
                }
                assert(marks@[i2]);
                assert forall|t2: Seq<char>| link_targets(resources@[i2]).contains(t2) implies s0.contains(t2) by {}
            }
        }
    }
    let mut missing: Vec<String> = Vec::new();
    let mut k: usize = 0;
    while k < required.len()
        invariant
            k <= required.len(),
            marks.len() == resources.len(),
            marks_sound(resources@, st, marks@),
            closed_under_links(s0, resources@, st),
            s0 == link_targets(st).union(marked_targets(resources@, marks@)),
            forall|t: Seq<char>| link_targets(st).contains(t) ==> all_marked(resources@, marks@, t),
            forall|q: int| 0 <= q < resources.len() && #[trigger] marks@[q] ==>
                forall|t: Seq<char>| link_targets(resources@[q]).contains(t) ==> all_marked(resources@, marks@, t),
            sorted_strict(strs_view(missing@)),
            strs_view(missing@).to_set() == strs_view(required@).take(k as int).to_set().difference(reached_kinds(resources@, st)),
        decreases required.len() - k,
    {
        let kind = required[k].as_str();
        let mut found = false;
        let mut j: usize = 0;
        while j < resources.len()
            invariant
                j <= resources.len(),
                marks.len() == resources.len(),
                found ==> reached_kinds(resources@, st).contains(kind@),
                !found ==> forall|p: int| 0 <= p < j && #[trigger] marks@[p] ==> opt_view(resources@[p].kind) != Some(kind@),
                marks_sound(resources@, st, marks@),
            decreases resources.len() - j,
        {
            if marks[j] {
                if let Some(rk) = &resources[j].kind {
                    if crate::text::text_eq(rk.as_str(), kind) {
                        proof {
                            assert(reachable_paths(resources@, st).contains(resources@[j as int].path@));
                        }
                        found = true;
                    }
                }
            }
            j += 1;
        }
        proof {
            if !found {
                assert(!reached_kinds(resources@, st).contains(kind@)) by {
                    if reached_kinds(resources@, st).contains(kind@) {
                        let i2 = choose|i2: int| 0 <= i2 < resources.len()
                            && reachable_paths(resources@, st).contains(#[trigger] resources@[i2].path@)
                            && opt_view(resources@[i2].kind) == Some(kind@);
                        assert(s0.contains(resources@[i2].path@));
                        let t = resources@[i2].path@;
                        assert(link_targets(st).contains(t) || marked_targets(resources@, marks@).contains(t));
                        if link_targets(st).contains(t) {
                            assert(all_marked(resources@, marks@, t));
                        } else {
                            let p = choose|p: int| 0 <= p < resources.len() && marks@[p] && #[trigger] link_targets(resources@[p]).contains(t);
                            assert(all_marked(resources@, marks@, t));
                        }
                        assert(marks@[i2]);
                    }
                }
            }
            let pre = strs_view(required@).take(k as int);
            assert(strs_view(required@).take(k + 1) =~= pre.push(kind@));
            assert forall|x: Seq<char>| pre.push(kind@).contains(x) <==> pre.contains(x) || x == kind@ by {
                if pre.push(kind@).contains(x) {
                    let w = choose|w: int| 0 <= w < pre.len() + 1 && pre.push(kind@)[w] == x;
                    if w < pre.len() { assert(pre[w] == x); }
                }
                if pre.contains(x) {
                    let w = choose|w: int| 0 <= w < pre.len() && pre[w] == x;
                    assert(pre.push(kind@)[w] == x);
                }
                if x == kind@ {
                    assert(pre.push(kind@)[pre.len() as int] == x);
                }
            }
            assert forall|x: Seq<char>| #[trigger] pre.push(kind@).to_set().contains(x) == pre.to_set().insert(kind@).contains(x) by {
                assert(pre.push(kind@).contains(x) <==> pre.contains(x) || x == kind@);
            }
            assert(pre.push(kind@).to_set() =~= pre.to_set().insert(kind@));
        }
        if !found {
            sorted_insert(&mut missing, required[k].clone());
        }
        proof {
            assert(strs_view(missing@).to_set() =~= strs_view(required@).take(k + 1).to_set().difference(reached_kinds(resources@, st)));
        }
        k += 1;
    }
    proof {
        assert(strs_view(required@).take(required.len() as int) =~= strs_view(required@));
        crate::sorted::lemma_is_sorted_of(strs_view(missing@));
    }
    missing
}

// ---------------------------------------------------------------------------
// Plugin rules
// ---------------------------------------------------------------------------

/// Whether some link of `r` has a relation in `rels`.
pub open spec fn has_outgoing(r: Resource, rels: Seq<Seq<char>>) -> bool {
    exists|j: int| 0 <= j < r.links@.len() && rels.contains(#[trigger] r.links@[j].rel@)
}

/// One finding per missing reachable kind.
pub open spec fn reachable_kind_diagnostics(kinds: Seq<Seq<char>>, path: Seq<char>, name: Seq<char>, when: Seq<char>) -> Seq<DiagView>
    decreases kinds.len(),
{
    if kinds.len() == 0 {
        seq![]
    } else {
        reachable_kind_diagnostics(kinds.drop_last(), path, name, when).push((
            "missing-required-relation"@,
            Some(path),
            "plugin "@ + name + " requires reachable resource kind "@ + kinds.last() + " for kind "@ + when,
        ))
    }
}

/// The findings of `rule` (of plugin `name`) on resource `r`.
pub open spec fn rule_findings(name: Seq<char>, rule: Rule, r: Resource, all: Seq<Resource>) -> Seq<DiagView> {
    let any = strs_view(rule.require_any_outgoing@);
    let first = if any.len() > 0 && !has_outgoing(r, any) {
        seq![(
            "missing-required-relation"@,
            Some(r.path@),
            "plugin "@ + name + " requires one of ["@ + join(any, ", "@) + "] for kind "@ + rule.when@,
        )]
    } else {
        seq![]
    };
    first + reachable_kind_diagnostics(missing_kinds_spec(all, r, strs_view(rule.require_reachable_kinds@)), r.path@, name, rule.when@)
}

/// The findings of `rule` on the resources of `rs` whose kind it names.
pub open spec fn rule_resources_findings(name: Seq<char>, rule: Rule, rs: Seq<Resource>, all: Seq<Resource>) -> Seq<DiagView>
    decreases rs.len(),
{
    if rs.len() == 0 {
        seq![]
    } else {
        let r = rs.last();
        rule_resources_findings(name, rule, rs.drop_last(), all) + if opt_view(r.kind) == Some(rule.when@) {
            rule_findings(name, rule, r, all)
        } else {
            seq![]
        }
    }
}

/// The findings of a plugin's `rules`.
pub open spec fn rules_findings(name: Seq<char>, rules: Seq<Rule>, all: Seq<Resource>) -> Seq<DiagView>
    decreases rules.len(),
{
    if rules.len() == 0 {
        seq![]
    } else {
        rules_findings(name, rules.drop_last(), all) + rule_resources_findings(name, rules.last(), all, all)
    }
}

/// The findings of every plugin's rules, in plugin order.
pub open spec fn plugin_rules_findings(plugins: Seq<Plugin>, all: Seq<Resource>) -> Seq<DiagView>
    decreases plugins.len(),
{
    if plugins.len() == 0 {
        seq![]
    } else {
        plugin_rules_findings(plugins.drop_last(), all) + rules_findings(plugins.last().name@, plugins.last().rules@, all)
    }
}

/// Whether some link of `r` has a relation in `rels`.
fn any_outgoing(r: &Resource, rels: &Vec<String>) -> (b: bool)
    ensures
        b == has_outgoing(*r, strs_view(rels@)),
{
    let mut j: usize = 0;
    while j < r.links.len()
        invariant
            j <= r.links.len(),
            forall|q: int| 0 <= q < j ==> !strs_view(rels@).contains(#[trigger] r.links@[q].rel@),
        decreases r.links.len() - j,
    {
        if vec_contains(rels, r.links[j].rel.as_str()) {
            return true;
        }
        j += 1;
    }
    false
}

/// Applies `rule` of plugin `name` to resource `r`.
fn check_rule(name: &str, rule: &Rule, r: &Resource, all: &Vec<Resource>, diagnostics: &mut Vec<Diagnostic>)
    ensures
        diags_view(final(diagnostics)@) == diags_view(old(diagnostics)@) + rule_findings(name@, *rule, *r, all@),
{
    proof {
        reveal_strlit("missing-required-relation");
        reveal_strlit("plugin ");
        reveal_strlit(" requires one of [");
        reveal_strlit("] for kind ");
        reveal_strlit(" requires reachable resource kind ");
        reveal_strlit(" for kind ");
        reveal_strlit(", ");
    }
    let ghost start = diags_view(diagnostics@);
    if rule.require_any_outgoing.len() > 0 && !any_outgoing(r, &rule.require_any_outgoing) {
        let mut m = cat("plugin ", name);
        m.append(" requires one of [");
        let joined = join_strs(&rule.require_any_outgoing, ", ");
        m.append(joined.as_str());
        m.append("] for kind ");
        m.append(rule.when.as_str());
        push_diag(diagnostics, crate::model::diagnostic("missing-required-relation", Some(r.path.clone()), m));
    }
    let ghost mid = diags_view(diagnostics@);
    let missing = missing_reachable_kinds(all, r, &rule.require_reachable_kinds);
    let ghost mv = strs_view(missing@);
    let mut k: usize = 0;
    assert(mv.take(0) =~= seq![]);
    assert(mid =~= mid + seq![]);
    while k < missing.len()
        invariant
            k <= missing.len(),
            mv == strs_view(missing@),
            diags_view(diagnostics@) == mid + reachable_kind_diagnostics(mv.take(k as int), r.path@, name@, rule.when@),
        decreases missing.len() - k,
    {
        assert(mv.take(k + 1).drop_last() =~= mv.take(k as int));
        let mut m = cat("plugin ", name);
        m.append(" requires reachable resource kind ");
        m.append(missing[k].as_str());
        m.append(" for kind ");
        m.append(rule.when.as_str());
        push_diag(diagnostics, crate::model::diagnostic("missing-required-relation", Some(r.path.clone()), m));
        k += 1;
    }
    assert(mv.take(missing.len() as int) =~= mv);
}

/// Checks every plugin rule against the resources whose kind it names.
pub fn validate_plugin_rules(resources: &Vec<Resource>, plugins: &Vec<Plugin>, diagnostics: &mut Vec<Diagnostic>)
    ensures
        diags_view(final(diagnostics)@) == diags_view(old(diagnostics)@) + plugin_rules_findings(plugins@, resources@),
{
    let ghost start = diags_view(diagnostics@);
    let mut p: usize = 0;
    assert(plugins@.take(0) =~= seq![]);
    assert(start =~= start + seq![]);
    while p < plugins.len()
        invariant
            p <= plugins.len(),
            diags_view(diagnostics@) == start + plugin_rules_findings(plugins@.take(p as int), resources@),
        decreases plugins.len() - p,
    {
        assert(plugins@.take(p + 1).drop_last() =~= plugins@.take(p as int));
        let plugin = &plugins[p];
        let ghost before_p = diags_view(diagnostics@);
        let mut q: usize = 0;
        assert(plugin.rules@.take(0) =~= seq![]);
        assert(before_p =~= before_p + seq![]);
        while q < plugin.rules.len()
            invariant
                q <= plugin.rules.len(),
                diags_view(diagnostics@) == before_p + rules_findings(plugin.name@, plugin.rules@.take(q as int), resources@),
            decreases plugin.rules.len() - q,
        {
            assert(plugin.rules@.take(q + 1).drop_last() =~= plugin.rules@.take(q as int));
            let rule = &plugin.rules[q];
            let ghost before_q = diags_view(diagnostics@);
            let mut i: usize = 0;
            assert(resources@.take(0) =~= seq![]);
            assert(before_q =~= before_q + seq![]);
            while i < resources.len()
                invariant
                    i <= resources.len(),
                    diags_view(diagnostics@) == before_q + rule_resources_findings(plugin.name@, *rule, resources@.take(i as int), resources@),
                decreases resources.len() - i,
            {
                assert(resources@.take(i + 1).drop_last() =~= resources@.take(i as int));
                let r = &resources[i];
                let matches_kind = match &r.kind {
                    Some(k) => crate::text::text_eq(k.as_str(), rule.when.as_str()),
                    None => false,
                };
                let ghost before_i = diags_view(diagnostics@);
                if matches_kind {
                    check_rule(plugin.name.as_str(), rule, r, resources, diagnostics);
                }
                assert(diags_view(diagnostics@) =~= before_q + rule_resources_findings(plugin.name@, *rule, resources@.take(i + 1), resources@));
                i += 1;
            }
            assert(resources@.take(resources.len() as int) =~= resources@);
            assert(diags_view(diagnostics@) =~= before_p + rules_findings(plugin.name@, plugin.rules@.take(q + 1), resources@));
            q += 1;
        }
        assert(plugin.rules@.take(plugin.rules.len() as int) =~= plugin.rules@);
        assert(diags_view(diagnostics@) =~= start + plugin_rules_findings(plugins@.take(p + 1), resources@));
        p += 1;
    }
    assert(plugins@.take(plugins.len() as int) =~= plugins@);
}

} // verus!
