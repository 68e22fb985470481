//! Plugin contract checks, relation ranking and plugin loading.
use vstd::prelude::*;

use crate::model::{
    diag_view, diags_view, push_diag, strs_view, vec_contains, Config, DiagView, Diagnostic, Plugin,
    Rule, CONFIG_PATH, DEFAULT_FEATURE_TRACE_PLUGIN,
};
use crate::text::{all_ws, cat, cat3, is_blank, own};
use crate::util::{is_reserved_spec, normalize_repo_path, normalize_repo_path_strict, normalized_path, result_view, strict_path};

verus! {

// ---------------------------------------------------------------------------
// Relation ranks
// ---------------------------------------------------------------------------

/// The traversal relation order of each plugin, concatenated in plugin order.
pub open spec fn all_relation_orders(plugins: Seq<Plugin>) -> Seq<Seq<char>>
    decreases plugins.len(),
{
    if plugins.len() == 0 {
        seq![]
    } else {
        all_relation_orders(plugins.drop_last()) + match plugins.last().traversal {
            Some(t) => strs_view(t.relation_order@),
            None => seq![],
        }
    }
}

/// `s` without repeats, each value kept at its first occurrence.
pub open spec fn first_occurrences(s: Seq<Seq<char>>) -> Seq<Seq<char>>
    decreases s.len(),
{
    if s.len() == 0 {
        seq![]
    } else {
        let r = first_occurrences(s.drop_last());
        if r.contains(s.last()) {
            r
        } else {
            r.push(s.last())
        }
    }
}

/// The rank of each relation: its position among the distinct relations of
/// all plugins' `traversal.relationOrder`, in order of first mention.
pub struct RelationRank {
    pub relations: Vec<String>,
}

/// The rank of `rel` in `ranked`, or the largest value when unranked.
pub open spec fn rank_spec(ranked: Seq<Seq<char>>, rel: Seq<char>) -> u64 {
    if ranked.contains(rel) {
        ranked.index_of(rel) as u64
    } else {
        u64::MAX
    }
}

impl RelationRank {
    pub open spec fn ranked(&self) -> Seq<Seq<char>> {
        strs_view(self.relations@)
    }

    /// The rank of `rel`; unranked relations get `u64::MAX`.
    pub fn rank(&self, rel: &str) -> (r: u64)
        requires
            self.ranked().no_duplicates(),
        ensures
            r == rank_spec(self.ranked(), rel@),
    {
        match crate::model::vec_position(&self.relations, rel) {
            Some(i) => {
                proof {
                    let s = self.ranked();
                    assert(s[i as int] == rel@);
                    assert(s.contains(rel@));
                    s.index_of_first_ensures(rel@);
                    lemma_no_dup_index(s, rel@, i as int);
                }
                i as u64
            },
            None => u64::MAX,
        }
    }
}

pub proof fn lemma_no_dup_index(s: Seq<Seq<char>>, x: Seq<char>, i: int)
    requires
        s.no_duplicates(),
        0 <= i < s.len(),
        s[i] == x,
    ensures
        s.index_of(x) == i,
{
    assert(s.contains(x));
    s.index_of_first_ensures(x);
    let k = s.index_of(x);
    assert(0 <= k < s.len() && s[k] == x);
}

pub proof fn lemma_first_occurrences_no_dup(s: Seq<Seq<char>>)
    ensures
        first_occurrences(s).no_duplicates(),
        first_occurrences(s).len() <= s.len(),
        forall|x: Seq<char>| first_occurrences(s).contains(x) <==> s.contains(x),
    decreases s.len(),
{
    if s.len() > 0 {
        lemma_first_occurrences_no_dup(s.drop_last());
        let r = first_occurrences(s.drop_last());
        assert forall|x: Seq<char>| first_occurrences(s).contains(x) <==> s.contains(x) by {
            if s.contains(x) {
                let k = choose|k: int| 0 <= k < s.len() && s[k] == x;
                if k < s.len() - 1 {
                    assert(s.drop_last()[k] == x);
                }
            }
            if s.drop_last().contains(x) {
                let k = choose|k: int| 0 <= k < s.drop_last().len() && s.drop_last()[k] == x;
                assert(s[k] == x);
            }
            if !r.contains(s.last()) {
                if first_occurrences(s).contains(x) && x != s.last() {
                    let k = choose|k: int| 0 <= k < r.push(s.last()).len() && r.push(s.last())[k] == x;
                    assert(r[k] == x);
                }
                if x == s.last() {
                    assert(r.push(s.last())[r.len() as int] == x);
                }
                if r.contains(x) {
                    let k = choose|k: int| 0 <= k < r.len() && r[k] == x;
                    assert(r.push(s.last())[k] == x);
                }
            }
        }
    }
}

/// Ranks the relations named in the plugins' traversal relation orders.
pub fn build_relation_rank(plugins: &Vec<Plugin>) -> (r: RelationRank)
    ensures
        r.ranked() == first_occurrences(all_relation_orders(plugins@)),
        r.ranked().no_duplicates(),
{
    let mut relations: Vec<String> = Vec::new();
    let mut i: usize = 0;
    while i < plugins.len()
        invariant
            i <= plugins.len(),
            strs_view(relations@) == first_occurrences(all_relation_orders(plugins@.take(i as int))),
        decreases plugins.len() - i,
    {
        let ghost base = all_relation_orders(plugins@.take(i as int));
        assert(plugins@.take(i + 1).drop_last() =~= plugins@.take(i as int));
        if let Some(traversal) = &plugins[i].traversal {
            let order = &traversal.relation_order;
            let ghost ov = strs_view(order@);
            let mut j: usize = 0;
            while j < order.len()
                invariant
                    j <= order.len(),
                    ov == strs_view(order@),
                    strs_view(relations@) == first_occurrences(base + ov.take(j as int)),
                decreases order.len() - j,
            {
                assert((base + ov.take(j + 1)).drop_last() =~= base + ov.take(j as int));
                assert((base + ov.take(j + 1)).last() == order@[j as int]@);
                if !vec_contains(&relations, order[j].as_str()) {
                    relations.push(order[j].clone());
                    assert(strs_view(relations@) =~= strs_view(relations@.drop_last()).push(order@[j as int]@));
                }
                j += 1;
            }
            assert(ov.take(order.len() as int) =~= ov);
            assert(all_relation_orders(plugins@.take(i + 1)) == base + ov);
        } else {
            assert(all_relation_orders(plugins@.take(i + 1)) =~= base);
        }
        i += 1;
    }
    assert(plugins@.take(plugins.len() as int) =~= plugins@);
    proof {
        lemma_first_occurrences_no_dup(all_relation_orders(plugins@));
    }
    RelationRank { relations }
}

// ---------------------------------------------------------------------------
// Plugin definition checks
// ---------------------------------------------------------------------------

/// A diagnostic view on `path`.
pub open spec fn dv(code: Seq<char>, path: Seq<char>, message: Seq<char>) -> DiagView {
    (code, Some(path), message)
}

/// Blank and duplicate value diagnostics of a declared list.
pub open spec fn unique_diagnostics(field: Seq<char>, values: Seq<Seq<char>>, path: Seq<char>) -> Seq<DiagView>
    decreases values.len(),
{
    if values.len() == 0 {
        seq![]
    } else {
        let rest = unique_diagnostics(field, values.drop_last(), path);
        let v = values.last();
        if all_ws(v) {
            rest.push(dv("schema-error"@, path, field + " must not contain empty value"@))
        } else if values.drop_last().contains(v) {
            rest.push(dv("schema-error"@, path, field + " contains duplicate value: "@ + v))
        } else {
            rest
        }
    }
}

/// Blank and undeclared value diagnostics of a list that must name declared
/// values.
pub open spec fn member_diagnostics(
    values: Seq<Seq<char>>,
    known: Seq<Seq<char>>,
    path: Seq<char>,
    empty_message: Seq<char>,
    unknown_code: Seq<char>,
    unknown_prefix: Seq<char>,
) -> Seq<DiagView>
    decreases values.len(),
{
    if values.len() == 0 {
        seq![]
    } else {
        let rest = member_diagnostics(values.drop_last(), known, path, empty_message, unknown_code, unknown_prefix);
        let v = values.last();
        if all_ws(v) {
            rest.push(dv("schema-error"@, path, empty_message))
        } else if !known.contains(v) {
            rest.push(dv(unknown_code, path, unknown_prefix + v))
        } else {
            rest
        }
    }
}

/// Diagnostics of one rule.
pub open spec fn rule_diagnostics(rule: Rule, kinds: Seq<Seq<char>>, relations: Seq<Seq<char>>, path: Seq<char>) -> Seq<DiagView> {
    let when = if all_ws(rule.when@) {
        seq![dv("schema-error"@, path, "rule.when must not be empty"@)]
    } else if !kinds.contains(rule.when@) {
        seq![dv("unknown-kind"@, path, "rule references unknown kind: "@ + rule.when@)]
    } else {
        seq![]
    };
    when + member_diagnostics(
        strs_view(rule.require_any_outgoing@),
        relations,
        path,
        "rule.requireAnyOutgoing must not contain empty relation"@,
        "unknown-relation"@,
        "rule references unknown relation: "@,
    ) + member_diagnostics(
        strs_view(rule.require_reachable_kinds@),
        kinds,
        path,
        "rule.requireReachableKinds must not contain empty kind"@,
        "unknown-kind"@,
        "rule references unknown reachable kind: "@,
    )
}

/// Diagnostics of all rules, in order.
pub open spec fn rules_diagnostics(rules: Seq<Rule>, kinds: Seq<Seq<char>>, relations: Seq<Seq<char>>, path: Seq<char>) -> Seq<DiagView>
    decreases rules.len(),
{
    if rules.len() == 0 {
        seq![]
    } else {
        rules_diagnostics(rules.drop_last(), kinds, relations, path) + rule_diagnostics(rules.last(), kinds, relations, path)
    }
}

/// Diagnostics of the traversal section.
pub open spec fn traversal_diagnostics(p: Plugin, kinds: Seq<Seq<char>>, relations: Seq<Seq<char>>, path: Seq<char>) -> Seq<DiagView> {
    match p.traversal {
        Some(t) => member_diagnostics(
            strs_view(t.start_kinds@),
            kinds,
            path,
            "traversal.startKinds must not contain empty kind"@,
            "unknown-kind"@,
            "traversal references unknown kind: "@,
        ) + member_diagnostics(
            strs_view(t.relation_order@),
            relations,
            path,
            "traversal.relationOrder must not contain empty relation"@,
            "unknown-relation"@,
            "traversal references unknown relation: "@,
        ),
        None => seq![],
    }
}

/// All diagnostics of a plugin definition, in the order they are reported.
pub open spec fn plugin_definition_diagnostics(p: Plugin, path: Seq<char>) -> Seq<DiagView> {
    let kinds = strs_view(p.resource_kinds@);
    let relations = strs_view(p.relations@);
    let name = if all_ws(p.name@) {
        seq![dv("schema-error"@, path, "plugin name must not be empty"@)]
    } else {
        seq![]
    };
    name + unique_diagnostics("resourceKinds"@, kinds, path) + unique_diagnostics("relations"@, relations, path)
        + rules_diagnostics(p.rules@, kinds, relations, path) + traversal_diagnostics(p, kinds, relations, path)
}

/// Reports blank and duplicate values of a declared list.
fn validate_non_empty_unique(field: &str, values: &Vec<String>, path: &str, diagnostics: &mut Vec<Diagnostic>)
    ensures
        diags_view(final(diagnostics)@) == diags_view(old(diagnostics)@) + unique_diagnostics(field@, strs_view(values@), path@),
{
    let ghost start = diags_view(diagnostics@);
    let ghost vv = strs_view(values@);
    let mut i: usize = 0;
    while i < values.len()
        invariant
            i <= values.len(),
            vv == strs_view(values@),
            diags_view(diagnostics@) == start + unique_diagnostics(field@, vv.take(i as int), path@),
        decreases values.len() - i,
    {
        proof {
            reveal_strlit("schema-error");
            reveal_strlit(" must not contain empty value");
            reveal_strlit(" contains duplicate value: ");
        }
        let ghost before = vv.take(i as int);
        assert(vv.take(i + 1).drop_last() =~= before);
        assert(vv[i as int] == values@[i as int]@);
        if is_blank(values[i].as_str()) {
            let d = crate::model::diagnostic("schema-error", Some(own(path)), cat(field, " must not contain empty value"));
            push_diag(diagnostics, d);
        } else {
            let mut seen = false;
            let mut j: usize = 0;
            while j < i
                invariant
                    j <= i < values.len(),
                    seen == before.take(j as int).contains(values@[i as int]@),
                    before == vv.take(i as int),
                    vv == strs_view(values@),
                decreases i - j,
            {
                assert(before.take(j + 1) =~= before.take(j as int).push(before[j as int]));
                assert(before[j as int] == values@[j as int]@);
                if crate::text::text_eq(values[j].as_str(), values[i].as_str()) {
                    seen = true;
                    assert(before.take(j + 1)[j as int] == values@[i as int]@);
                } else {
                    assert forall|k: int| 0 <= k < before.take(j + 1).len() && #[trigger] before.take(j + 1)[k] == values@[i as int]@ implies before.take(j as int).contains(values@[i as int]@) by {
                        assert(before.take(j as int)[k] == before.take(j + 1)[k]);
                    }
                }
                j += 1;
            }
            assert(before.take(i as int) =~= before);
            if seen {
                let mut m = cat(field, " contains duplicate value: ");
                m.append(values[i].as_str());
                let d = crate::model::diagnostic("schema-error", Some(own(path)), m);
                push_diag(diagnostics, d);
            }
        }
        i += 1;
    }
    assert(vv.take(values.len() as int) =~= vv);
}

/// Reports blank values and values missing from `known`.
fn validate_members(
    values: &Vec<String>,
    known: &Vec<String>,
    path: &str,
    empty_message: &str,
    unknown_code: &str,
    unknown_prefix: &str,
    diagnostics: &mut Vec<Diagnostic>,
)
    ensures
        diags_view(final(diagnostics)@) == diags_view(old(diagnostics)@) + member_diagnostics(
            strs_view(values@),
            strs_view(known@),
            path@,
            empty_message@,
            unknown_code@,
            unknown_prefix@,
        ),
{
    let ghost start = diags_view(diagnostics@);
    let ghost vv = strs_view(values@);
    let mut i: usize = 0;
    while i < values.len()
        invariant
            i <= values.len(),
            vv == strs_view(values@),
            diags_view(diagnostics@) == start + member_diagnostics(
                vv.take(i as int),
                strs_view(known@),
                path@,
                empty_message@,
                unknown_code@,
                unknown_prefix@,
            ),
        decreases values.len() - i,
    {
        proof {
            reveal_strlit("schema-error");
        }
        assert(vv.take(i + 1).drop_last() =~= vv.take(i as int));
        assert(vv[i as int] == values@[i as int]@);
        if is_blank(values[i].as_str()) {
            let d = crate::model::diagnostic("schema-error", Some(own(path)), own(empty_message));
            push_diag(diagnostics, d);
        } else if !vec_contains(known, values[i].as_str()) {
            let d = crate::model::diagnostic(unknown_code, Some(own(path)), cat(unknown_prefix, values[i].as_str()));
            push_diag(diagnostics, d);
        }
        i += 1;
    }
    assert(vv.take(values.len() as int) =~= vv);
}

/// Reports the diagnostics of one rule.
fn validate_rule(rule: &Rule, kinds: &Vec<String>, relations: &Vec<String>, path: &str, diagnostics: &mut Vec<Diagnostic>)
    ensures
        diags_view(final(diagnostics)@) == diags_view(old(diagnostics)@) + rule_diagnostics(
            *rule,
            strs_view(kinds@),
            strs_view(relations@),
            path@,
        ),
{
    proof {
        reveal_strlit("schema-error");
        reveal_strlit("unknown-kind");
        reveal_strlit("rule.when must not be empty");
        reveal_strlit("rule references unknown kind: ");
    }
    let ghost start = diags_view(diagnostics@);
    if is_blank(rule.when.as_str()) {
        let d = crate::model::diagnostic("schema-error", Some(own(path)), own("rule.when must not be empty"));
        push_diag(diagnostics, d);
    } else if !vec_contains(kinds, rule.when.as_str()) {
        let d = crate::model::diagnostic("unknown-kind", Some(own(path)), cat("rule references unknown kind: ", rule.when.as_str()));
        push_diag(diagnostics, d);
    }
    let ghost after_when = diags_view(diagnostics@);
    validate_members(
        &rule.require_any_outgoing,
        relations,
        path,
        "rule.requireAnyOutgoing must not contain empty relation",
        "unknown-relation",
        "rule references unknown relation: ",
        diagnostics,
    );
    validate_members(
        &rule.require_reachable_kinds,
        kinds,
        path,
        "rule.requireReachableKinds must not contain empty kind",
        "unknown-kind",
        "rule references unknown reachable kind: ",
        diagnostics,
    );
    proof {
        reveal_strlit("rule.requireAnyOutgoing must not contain empty relation");
        reveal_strlit("unknown-relation");
        reveal_strlit("rule references unknown relation: ");
        reveal_strlit("rule.requireReachableKinds must not contain empty kind");
        reveal_strlit("rule references unknown reachable kind: ");
        let w = after_when.skip(start.len() as int);
        assert(after_when =~= start + w);
    }
    assert(diags_view(diagnostics@) =~= start + rule_diagnostics(*rule, strs_view(kinds@), strs_view(relations@), path@));
}

/// Checks a plugin definition: a non-blank name, unique non-blank kinds and
/// relations, and rules and traversal hints that name only declared values.
pub fn validate_plugin_definition(plugin: &Plugin, path: &str, diagnostics: &mut Vec<Diagnostic>)
    ensures
        diags_view(final(diagnostics)@) == diags_view(old(diagnostics)@) + plugin_definition_diagnostics(*plugin, path@),
{
    proof {
        reveal_strlit("schema-error");
        reveal_strlit("plugin name must not be empty");
        reveal_strlit("resourceKinds");
        reveal_strlit("relations");
    }
    let ghost start = diags_view(diagnostics@);
    if is_blank(plugin.name.as_str()) {
        let d = crate::model::diagnostic("schema-error", Some(own(path)), own("plugin name must not be empty"));
        push_diag(diagnostics, d);
    }
    let ghost a1 = diags_view(diagnostics@);
    validate_non_empty_unique("resourceKinds", &plugin.resource_kinds, path, diagnostics);
    let ghost a2 = diags_view(diagnostics@);
    validate_non_empty_unique("relations", &plugin.relations, path, diagnostics);
    let ghost a3 = diags_view(diagnostics@);
    let kinds = &plugin.resource_kinds;
    let relations = &plugin.relations;
    let ghost kv = strs_view(kinds@);
    let ghost rv = strs_view(relations@);
    let mut i: usize = 0;
    while i < plugin.rules.len()
        invariant
            i <= plugin.rules.len(),
            kv == strs_view(kinds@),
            rv == strs_view(relations@),
            diags_view(diagnostics@) == a3 + rules_diagnostics(plugin.rules@.take(i as int), kv, rv, path@),
        decreases plugin.rules.len() - i,
    {
        assert(plugin.rules@.take(i + 1).drop_last() =~= plugin.rules@.take(i as int));
        validate_rule(&plugin.rules[i], kinds, relations, path, diagnostics);
        i += 1;
    }
    assert(plugin.rules@.take(plugin.rules.len() as int) =~= plugin.rules@);
    let ghost a4 = diags_view(diagnostics@);
    if let Some(traversal) = &plugin.traversal {
        validate_members(
            &traversal.start_kinds,
            kinds,
            path,
            "traversal.startKinds must not contain empty kind",
            "unknown-kind",
            "traversal references unknown kind: ",
            diagnostics,
        );
        validate_members(
            &traversal.relation_order,
            relations,
            path,
            "traversal.relationOrder must not contain empty relation",
            "unknown-relation",
            "traversal references unknown relation: ",
            diagnostics,
        );
        proof {
            reveal_strlit("traversal.startKinds must not contain empty kind");
            reveal_strlit("unknown-kind");
            reveal_strlit("traversal references unknown kind: ");
            reveal_strlit("traversal.relationOrder must not contain empty relation");
            reveal_strlit("unknown-relation");
            reveal_strlit("traversal references unknown relation: ");
        }
    }
    proof {
        assert(a1 =~= start + a1.skip(start.len() as int));
        assert(a2 =~= a1 + a2.skip(a1.len() as int));
        assert(a3 =~= a2 + a3.skip(a2.len() as int));
    }
    assert(diags_view(diagnostics@) =~= start + plugin_definition_diagnostics(*plugin, path@));
}

// ---------------------------------------------------------------------------
// Plugin paths
// ---------------------------------------------------------------------------

/// The repository path of a configured plugin, or why it is refused.
pub open spec fn plugin_path_spec(path: Seq<char>) -> Result<Seq<char>, Seq<char>> {
    match strict_path(path) {
        Err(_) => Err("plugin path must be repo-relative and stay inside repository: "@ + path),
        Ok(p) => if is_reserved_spec(p) {
            Err("plugin path must not be under reserved generated directory: "@ + path)
        } else {
            Ok(p)
        },
    }
}

/// Validates a configured plugin path: strictly repo-relative and outside
/// the reserved generated directory.
pub fn validated_plugin_repo_path(path: &str) -> (r: Result<String, String>)
    ensures
        result_view(r) == plugin_path_spec(path@),
{
    match normalize_repo_path_strict(path) {
        Err(_) => Err(cat("plugin path must be repo-relative and stay inside repository: ", path)),
        Ok(repo_path) => {
            if crate::util::is_reserved_generated_path(repo_path.as_str()) {
                Err(cat("plugin path must not be under reserved generated directory: ", path))
            } else {
                Ok(repo_path)
            }
        },
    }
}

/// Lenient normalization of a plugin path.
pub fn normalize_plugin_repo_path(path: &str) -> (r: String)
    ensures
        r@ == normalized_path(path@),
{
    normalize_repo_path(path)
}

/// The validated repository paths of the configured plugins that pass
/// validation, in configuration order.
pub open spec fn valid_plugin_paths(paths: Seq<Seq<char>>) -> Seq<Seq<char>>
    decreases paths.len(),
{
    if paths.len() == 0 {
        seq![]
    } else {
        let rest = valid_plugin_paths(paths.drop_last());
        match plugin_path_spec(paths.last()) {
            Ok(p) => rest.push(p),
            Err(_) => rest,
        }
    }
}

/// The repository paths of the configured plugins that pass validation,
/// in configuration order. These are declarations, not resources.
pub fn configured_plugin_paths(config: &Config) -> (r: Vec<String>)
    ensures
        strs_view(r@) == valid_plugin_paths(crate::config::list_view(config.plugins)),
{
    let mut r: Vec<String> = Vec::new();
    if let Some(plugins) = &config.plugins {
        let ghost pv = strs_view(plugins@);
        let mut i: usize = 0;
        while i < plugins.len()
            invariant
                i <= plugins.len(),
                pv == strs_view(plugins@),
                strs_view(r@) == valid_plugin_paths(pv.take(i as int)),
            decreases plugins.len() - i,
        {
            assert(pv[i as int] == plugins@[i as int]@);
            assert(pv.take(i + 1).drop_last() =~= pv.take(i as int));
            if let Ok(p) = validated_plugin_repo_path(plugins[i].as_str()) {
                r.push(p);
                assert(strs_view(r@) =~= strs_view(r@.drop_last()).push(p@));
            }
            i += 1;
        }
        assert(pv.take(plugins.len() as int) =~= pv);
    } else {
        assert(strs_view(r@) =~= seq![]);
    }
    r
}

/// A plugin is loadable when its validated path was discovered in the
/// repository, or it is the default feature-trace path and no such file
/// exists (the embedded copy is used).
pub open spec fn plugin_available_spec(path: Seq<char>, discovered: Seq<Seq<char>>, default_file_exists: bool) -> bool {
    match plugin_path_spec(path) {
        Err(_) => false,
        Ok(p) => discovered.contains(p) || (p == "relaygraph/plugins/feature-trace.yaml"@ && !default_file_exists),
    }
}

/// Whether a configured plugin can be loaded; `default_file_exists` tells
/// whether a file exists at the validated path.
pub fn plugin_is_discovered_or_embedded_default(path: &str, discovered_files: &Vec<String>, default_file_exists: bool) -> (r: bool)
    ensures
        r == plugin_available_spec(path@, strs_view(discovered_files@), default_file_exists),
{
    match validated_plugin_repo_path(path) {
        Err(_) => false,
        Ok(repo_path) => vec_contains(discovered_files, repo_path.as_str()) || (crate::text::text_eq(
            repo_path.as_str(),
            DEFAULT_FEATURE_TRACE_PLUGIN,
        ) && !default_file_exists),
    }
}

} // verus!

verus! {

// ---------------------------------------------------------------------------
// Loading
// ---------------------------------------------------------------------------

/// What the filesystem said about one configured plugin path. `path` is the
/// configured value; `root_error` is set when the resolved file lies outside
/// the repository (or the root cannot be resolved); `default_file_exists`
/// tells whether a file exists at the validated path; `loaded` is the parsed
/// plugin or the read/parse error text.
pub struct PluginSource {
    pub path: String,
    pub root_error: Option<String>,
    pub default_file_exists: bool,
    pub loaded: Result<Plugin, String>,
}

/// Index of the first loaded plugin named `name`.
pub open spec fn name_index(plugins: Seq<Plugin>, name: Seq<char>) -> Option<int>
    decreases plugins.len(),
{
    if plugins.len() == 0 {
        None
    } else {
        match name_index(plugins.drop_last(), name) {
            Some(k) => Some(k),
            None => if plugins.last().name@ == name {
                Some(plugins.len() - 1)
            } else {
                None
            },
        }
    }
}

/// Diagnostics of a plugin version check: only version 1 is supported.
pub open spec fn plugin_version_diagnostics(version: Option<u32>, path: Seq<char>) -> Seq<DiagView> {
    let v = match version {
        Some(v) => v,
        None => 1u32,
    };
    if v == 1 {
        seq![]
    } else {
        seq![dv("schema-error"@, path, crate::diagnostic::version_message(v, seq![1u32]))]
    }
}

/// The plugins that load, the configured path of each, and the diagnostics.
pub open spec fn load_plugins_spec(sources: Seq<PluginSource>, discovered: Seq<Seq<char>>) -> (Seq<Plugin>, Seq<Seq<char>>, Seq<DiagView>)
    decreases sources.len(),
{
    if sources.len() == 0 {
        (seq![], seq![], seq![])
    } else {
        let (ps, paths, ds) = load_plugins_spec(sources.drop_last(), discovered);
        let s = sources.last();
        let path = s.path@;
        match plugin_path_spec(path) {
            Err(e) => (ps, paths, ds.push(dv("schema-error"@, ".relaygraph.yaml"@, e))),
            Ok(_) => match s.root_error {
                Some(e) => (ps, paths, ds.push(dv("schema-error"@, ".relaygraph.yaml"@, e@))),
                None => if !plugin_available_spec(path, discovered, s.default_file_exists) {
                    (ps, paths, ds.push(dv("plugin-load-error"@, path, "plugin path is not part of Git-backed repository discovery"@)))
                } else {
                    match s.loaded {
                        Err(e) => (ps, paths, ds.push(dv("plugin-load-error"@, path, e@))),
                        Ok(p) => {
                            let checked = ds + plugin_version_diagnostics(p.schema_version, path)
                                + plugin_definition_diagnostics(p, path);
                            match name_index(ps, p.name@) {
                                Some(k) => (ps, paths, checked.push(dv(
                                    "duplicate-plugin"@,
                                    path,
                                    "plugin name "@ + p.name@ + " is already used by "@ + paths[k],
                                ))),
                                None => (ps.push(p), paths.push(path), checked),
                            }
                        },
                    }
                }
            },
        }
    }
}

/// Position of the first plugin named `name`.
fn find_plugin_name(plugins: &Vec<Plugin>, name: &str) -> (r: Option<usize>)
    ensures
        r matches Some(k) ==> name_index(plugins@, name@) == Some(k as int) && k < plugins.len(),
        r is None ==> name_index(plugins@, name@) is None,
{
    let mut i: usize = 0;
    while i < plugins.len()
        invariant
            i <= plugins.len(),
            name_index(plugins@.take(i as int), name@) is None,
        decreases plugins.len() - i,
    {
        assert(plugins@.take(i + 1).drop_last() =~= plugins@.take(i as int));
        if crate::text::text_eq(plugins[i].name.as_str(), name) {
            proof {
                lemma_name_index_prefix(plugins@, name@, i as int + 1);
            }
            return Some(i);
        }
        i += 1;
    }
    assert(plugins@.take(plugins.len() as int) =~= plugins@);
    None
}

pub proof fn lemma_name_index_prefix(plugins: Seq<Plugin>, name: Seq<char>, n: int)
    requires
        0 < n <= plugins.len(),
        name_index(plugins.take(n), name) is Some,
    ensures
        name_index(plugins, name) == name_index(plugins.take(n), name),
    decreases plugins.len() - n,
{
    if n < plugins.len() {
        assert(plugins.take(n + 1).drop_last() =~= plugins.take(n));
        lemma_name_index_prefix(plugins, name, n + 1);
    } else {
        assert(plugins.take(n) =~= plugins);
    }
}

/// Loads the configured plugins from what the filesystem reported: refuses
/// invalid, escaping, undiscovered and unreadable plugins with diagnostics,
/// checks each loaded plugin's version and definition, and drops a plugin
/// whose name an earlier one already uses.
pub fn load_plugins(sources: Vec<PluginSource>, discovered_files: &Vec<String>, diagnostics: &mut Vec<Diagnostic>) -> (r: Vec<Plugin>)
    ensures
        ({
            let (ps, _, ds) = load_plugins_spec(sources@, strs_view(discovered_files@));
            &&& r@ == ps
            &&& diags_view(final(diagnostics)@) == diags_view(old(diagnostics)@) + ds
        }),
{
    proof {
        reveal_strlit("schema-error");
        reveal_strlit(".relaygraph.yaml");
        reveal_strlit("plugin-load-error");
        reveal_strlit("plugin path is not part of Git-backed repository discovery");
        reveal_strlit("duplicate-plugin");
        reveal_strlit("plugin name ");
        reveal_strlit(" is already used by ");
    }
    let ghost start = diags_view(diagnostics@);
    let ghost dvw = strs_view(discovered_files@);
    let ghost all = sources@;
    assert(all.len() == sources.len());
    let mut rest = sources;
    assert(all.skip(0) =~= all);
    let mut plugins: Vec<Plugin> = Vec::new();
    let mut paths: Vec<String> = Vec::new();
    let mut i: usize = 0;
    while rest.len() > 0
        invariant
            i <= all.len(),
            all.len() <= usize::MAX,
            i + rest.len() == all.len(),
            rest@ == all.skip(i as int),
            plugins.len() == paths.len(),
            dvw == strs_view(discovered_files@),
            ({
                let (ps, pp, ds) = load_plugins_spec(all.take(i as int), dvw);
                &&& plugins@ == ps
                &&& strs_view(paths@) == pp
                &&& diags_view(diagnostics@) == start + ds
            }),
        decreases rest.len(),
    {
        proof {
            reveal_strlit("schema-error");
            reveal_strlit(".relaygraph.yaml");
            reveal_strlit("plugin-load-error");
            reveal_strlit("plugin path is not part of Git-backed repository discovery");
            reveal_strlit("duplicate-plugin");
            reveal_strlit("plugin name ");
            reveal_strlit(" is already used by ");
        }
        assert(all.take(i + 1).drop_last() =~= all.take(i as int));
        assert(all.take(i + 1).last() == all[i as int]);
        let source = rest.remove(0);
        assert(source == all[i as int]);
        assert(rest@ =~= all.skip(i + 1));
        let path = source.path.as_str();
        match validated_plugin_repo_path(path) {
            Err(e) => {
                push_diag(diagnostics, crate::model::diagnostic("schema-error", Some(own(CONFIG_PATH)), e));
            },
            Ok(_) => {
                match source.root_error {
                    Some(e) => {
                        push_diag(diagnostics, crate::model::diagnostic("schema-error", Some(own(CONFIG_PATH)), e));
                    },
                    None => {
                        if !plugin_is_discovered_or_embedded_default(path, discovered_files, source.default_file_exists) {
                            push_diag(
                                diagnostics,
                                crate::model::diagnostic(
                                    "plugin-load-error",
                                    Some(own(path)),
                                    own("plugin path is not part of Git-backed repository discovery"),
                                ),
                            );
                        } else {
                            match source.loaded {
                                Err(e) => {
                                    push_diag(diagnostics, crate::model::diagnostic("plugin-load-error", Some(own(path)), e));
                                },
                                Ok(plugin) => {
                                    let plugin = plugin;
                                    let ghost d0 = diags_view(diagnostics@);
                                    let supported: [u32; 1] = [1];
                                    crate::diagnostic::validate_schema_version(plugin.schema_version, 1, &supported, path, diagnostics);
                                    assert(supported@ =~= seq![1u32]);
                                    let ghost d1 = diags_view(diagnostics@);
                                    assert(d1 =~= d0 + plugin_version_diagnostics(plugin.schema_version, path@));
                                    validate_plugin_definition(&plugin, path, diagnostics);
                                    match find_plugin_name(&plugins, plugin.name.as_str()) {
                                        Some(k) => {
                                            let mut m = cat("plugin name ", plugin.name.as_str());
                                            m.append(" is already used by ");
                                            m.append(paths[k].as_str());
                                            assert(strs_view(paths@)[k as int] == paths@[k as int]@);
                                            push_diag(diagnostics, crate::model::diagnostic("duplicate-plugin", Some(own(path)), m));
                                        },
                                        None => {
                                            plugins.push(plugin);
                                            paths.push(own(path));
                                            assert(strs_view(paths@) =~= strs_view(paths@.drop_last()).push(path@));
                                        },
                                    }
                                },
                            }
                        }
                    },
                }
            },
        }
        i += 1;
    }
    assert(i == all.len());
    assert(all.take(all.len() as int) =~= all);
    plugins
}

} // verus!
