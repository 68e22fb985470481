//! The validated resource graph, from the repository's files, plugins and
//! sidecars.
use vstd::prelude::*;

use crate::config::{config_value_diagnostics, list_view, sidecar_suffix, sidecar_suffix_spec, validate_config_values};
use crate::globs::glob_diagnostics;
use crate::graph::{
    classify_diagnostics, classify_files, collect_sidecar_diagnostics, diag_if, expected_head, load_resources,
    load_spec, missing_sidecar_diagnostics, orphan_diagnostics, read_of, read_slot_ok,
    resource_head, resource_path_set, sidecar_target_set, RepoFile, SidecarRead,
};
use crate::model::{diags_view, strs_view, BuildResult, Config, DiagView, Diagnostic, Link, Plugin, Resource};
use crate::plugin::{all_relation_orders, build_relation_rank, first_occurrences, load_plugins, load_plugins_spec, valid_plugin_paths, PluginSource};
use crate::resolve::{resource_path_views, 
    links_diagnostics, ordered_links_ok, resolve_all, resolve_resources, sidecar_links, ResolveScope, ResolveTables,
};
use crate::rules::{plugin_rules_findings, validate_plugin_rules};
use crate::sorted::sorted_of;

verus! {

/// What the filesystem reported for a graph build: the discovered files (with
/// the diagnostics of listing them), each configured plugin's source, and the
/// read outcome of each sidecar file.
pub struct GraphInputs {
    pub files: Vec<RepoFile>,
    pub listing_diagnostics: Vec<Diagnostic>,
    pub plugin_sources: Vec<PluginSource>,
    pub sidecar_reads: Vec<SidecarRead>,
}

/// The paths of the discovered files.
pub open spec fn file_path_views(files: Seq<RepoFile>) -> Seq<Seq<char>> {
    files.map_values(|f: RepoFile| f.path@)
}

/// The resource kinds declared by the plugins.
pub open spec fn all_kinds(plugins: Seq<Plugin>) -> Seq<Seq<char>>
    decreases plugins.len(),
{
    if plugins.len() == 0 {
        seq![]
    } else {
        all_kinds(plugins.drop_last()) + strs_view(plugins.last().resource_kinds@)
    }
}

/// The relations declared by the plugins.
pub open spec fn all_relations(plugins: Seq<Plugin>) -> Seq<Seq<char>>
    decreases plugins.len(),
{
    if plugins.len() == 0 {
        seq![]
    } else {
        all_relations(plugins.drop_last()) + strs_view(plugins.last().relations@)
    }
}

/// The links of the sidecar loaded for the resource at `p`.
pub open spec fn loaded_links(p: Seq<char>, targets: Seq<Seq<char>>, suffix: Seq<char>, reads: Seq<SidecarRead>) -> Seq<Link> {
    if targets.contains(p) {
        match read_of(reads, p + suffix) {
            Some(Ok(sc)) => sc.links@,
            _ => seq![],
        }
    } else {
        seq![]
    }
}

/// The diagnostics of resolving the links of the resources at `paths`.
pub open spec fn graph_links_diagnostics(paths: Seq<Seq<char>>, targets: Seq<Seq<char>>, suffix: Seq<char>, reads: Seq<SidecarRead>, scope: ResolveScope) -> Seq<DiagView>
    decreases paths.len(),
{
    if paths.len() == 0 {
        seq![]
    } else {
        graph_links_diagnostics(paths.drop_last(), targets, suffix, reads, scope)
            + resolve_all(loaded_links(paths.last(), targets, suffix, reads), paths.last() + suffix, scope).1
    }
}

/// The check of the root config's schema version.
pub open spec fn config_version_diagnostics(config: Config) -> Seq<DiagView> {
    let v = match config.schema_version {
        Some(v) => v,
        None => 1u32,
    };
    diag_if(v != 1, "schema-error"@, ".relaygraph.yaml"@, crate::diagnostic::version_message(v, seq![1u32]))
}

/// What `build_graph` gives for `config` and `inputs`, when the exclude and
/// require-sidecar matchers hold the patterns `ex` and `req`.
pub open spec fn graph_spec(config: Config, inputs: GraphInputs, ex: Seq<Seq<char>>, req: Seq<Seq<char>>, r: BuildResult) -> bool {
    let suffix = sidecar_suffix_spec(config);
    let pp = valid_plugin_paths(list_view(config.plugins));
    let files = inputs.files@;
    let discovered = file_path_views(files);
    let (plugins, _, plugin_ds) = load_plugins_spec(inputs.plugin_sources@, discovered);
    let paths = sorted_of(resource_path_set(files, suffix, ex, pp));
    let targets = sorted_of(sidecar_target_set(files, suffix, ex, pp));
    let reads = inputs.sidecar_reads@;
    let has = plugins.len() > 0;
    let (ids, id_paths, dups, load_ds) = load_spec(paths, targets, suffix, reads, has, all_kinds(plugins));
    let scope = ResolveScope { has_plugins: has, relations: all_relations(plugins), ids, id_paths, dups, paths };
    let ranked = first_occurrences(all_relation_orders(plugins));
    &&& r.plugins@ == plugins
    &&& r.resources.len() == paths.len()
    &&& forall|i: int| 0 <= i < paths.len() ==> resource_head(#[trigger] r.resources@[i]) == expected_head(paths[i], targets, suffix, reads)
    &&& forall|i: int| 0 <= i < paths.len() ==> ordered_links_ok((#[trigger] r.resources@[i]).links@, loaded_links(paths[i], targets, suffix, reads), paths[i] + suffix, scope, ranked)
    &&& diags_view(r.diagnostics@) == config_version_diagnostics(config)
        + config_value_diagnostics(config)
        + diags_view(inputs.listing_diagnostics@)
        + plugin_ds
        + glob_diagnostics(list_view(config.exclude))
        + classify_diagnostics(files, suffix, ex, pp)
        + orphan_diagnostics(targets, paths, suffix)
        + glob_diagnostics(list_view(config.require_sidecar))
        + missing_sidecar_diagnostics(paths, targets, req)
        + load_ds
        + graph_links_diagnostics(paths, targets, suffix, reads, scope)
        + plugin_rules_findings(plugins, r.resources@)
}

} // verus!

verus! {

/// The kinds declared by the plugins.
pub(crate) fn collect_kinds(plugins: &Vec<Plugin>) -> (r: Vec<String>)
    ensures
        strs_view(r@) == all_kinds(plugins@),
{
    let mut r: Vec<String> = Vec::new();
    let mut i: usize = 0;
    while i < plugins.len()
        invariant
            i <= plugins.len(),
            strs_view(r@) == all_kinds(plugins@.take(i as int)),
        decreases plugins.len() - i,
    {
        assert(plugins@.take(i + 1).drop_last() =~= plugins@.take(i as int));
        let ghost before = strs_view(r@);
        let kinds = &plugins[i].resource_kinds;
        let mut j: usize = 0;
        while j < kinds.len()
            invariant
                j <= kinds.len(),
                strs_view(r@) == before + strs_view(kinds@).take(j as int),
            decreases kinds.len() - j,
        {
            let ghost prev = r@;
            r.push(kinds[j].clone());
            assert(strs_view(r@) =~= strs_view(prev).push(kinds@[j as int]@));
            assert(strs_view(kinds@).take(j + 1) =~= strs_view(kinds@).take(j as int).push(kinds@[j as int]@));
            assert(strs_view(r@) =~= before + strs_view(kinds@).take(j + 1));
            j += 1;
        }
        assert(strs_view(kinds@).take(kinds.len() as int) =~= strs_view(kinds@));
        i += 1;
    }
    assert(plugins@.take(plugins.len() as int) =~= plugins@);
    r
}

/// The relations declared by the plugins.
pub(crate) fn collect_relations(plugins: &Vec<Plugin>) -> (r: Vec<String>)
    ensures
        strs_view(r@) == all_relations(plugins@),
{
    let mut r: Vec<String> = Vec::new();
    let mut i: usize = 0;
    while i < plugins.len()
        invariant
            i <= plugins.len(),
            strs_view(r@) == all_relations(plugins@.take(i as int)),
        decreases plugins.len() - i,
    {
        assert(plugins@.take(i + 1).drop_last() =~= plugins@.take(i as int));
        let ghost before = strs_view(r@);
        let rels = &plugins[i].relations;
        let mut j: usize = 0;
        while j < rels.len()
            invariant
                j <= rels.len(),
                strs_view(r@) == before + strs_view(rels@).take(j as int),
            decreases rels.len() - j,
        {
            let ghost prev = r@;
            r.push(rels[j].clone());
            assert(strs_view(r@) =~= strs_view(prev).push(rels@[j as int]@));
            assert(strs_view(rels@).take(j + 1) =~= strs_view(rels@).take(j as int).push(rels@[j as int]@));
            assert(strs_view(r@) =~= before + strs_view(rels@).take(j + 1));
            j += 1;
        }
        assert(strs_view(rels@).take(rels.len() as int) =~= strs_view(rels@));
        i += 1;
    }
    assert(plugins@.take(plugins.len() as int) =~= plugins@);
    r
}

/// The paths of the discovered files.
fn file_paths(files: &Vec<RepoFile>) -> (r: Vec<String>)
    ensures
        strs_view(r@) == file_path_views(files@),
{
    let mut r: Vec<String> = Vec::new();
    let mut i: usize = 0;
    while i < files.len()
        invariant
            i <= files.len(),
            strs_view(r@) == file_path_views(files@.take(i as int)),
        decreases files.len() - i,
    {
        let ghost prev = r@;
        r.push(files[i].path.clone());
        assert(strs_view(r@) =~= strs_view(prev).push(files@[i as int].path@));
        assert(file_path_views(files@.take(i + 1)) =~= file_path_views(files@.take(i as int)).push(files@[i as int].path@));
        assert(strs_view(r@) =~= file_path_views(files@.take(i + 1)));
        i += 1;
    }
    assert(files@.take(files.len() as int) =~= files@);
    r
}

proof fn lemma_links_diagnostics(
    paths: Seq<Seq<char>>,
    slots: Seq<Option<usize>>,
    targets: Seq<Seq<char>>,
    suffix: Seq<char>,
    reads: Seq<SidecarRead>,
    scope: ResolveScope,
)
    requires
        slots.len() == paths.len(),
        forall|i: int| 0 <= i < paths.len() ==> read_slot_ok(#[trigger] slots[i], paths[i], targets, suffix, reads),
    ensures
        links_diagnostics(paths, slots, suffix, reads, scope) == graph_links_diagnostics(paths, targets, suffix, reads, scope),
        forall|i: int| 0 <= i < paths.len() ==> sidecar_links(reads, #[trigger] slots[i]) == loaded_links(paths[i], targets, suffix, reads),
    decreases paths.len(),
{
    assert forall|i: int| 0 <= i < paths.len() implies sidecar_links(reads, #[trigger] slots[i]) == loaded_links(paths[i], targets, suffix, reads) by {
        assert(read_slot_ok(slots[i], paths[i], targets, suffix, reads));
    }
    if paths.len() > 0 {
        let n = paths.len() - 1;
        assert forall|i: int| 0 <= i < paths.drop_last().len() implies read_slot_ok(#[trigger] slots.drop_last()[i], paths.drop_last()[i], targets, suffix, reads) by {
            assert(slots.drop_last()[i] == slots[i]);
            assert(read_slot_ok(slots[i], paths[i], targets, suffix, reads));
        }
        lemma_links_diagnostics(paths.drop_last(), slots.drop_last(), targets, suffix, reads, scope);
        assert(sidecar_links(reads, slots[n]) == loaded_links(paths[n], targets, suffix, reads));
    }
}

/// Builds and validates the resource graph: checks the root config, loads the
/// plugins, splits the files into resources and sidecars, loads and checks
/// each sidecar, resolves and orders links, and applies the plugin rules.
#[verifier::rlimit(60)]
pub fn build_graph(config: &Config, inputs: GraphInputs) -> (r: BuildResult)
    ensures
        graph_spec(*config, inputs, crate::globs::built_globs(list_view(config.exclude)),
            crate::globs::built_globs(list_view(config.require_sidecar)), r),
        crate::sorted::sorted_strict(resource_path_views(r.resources@)),
        forall|i: int| 0 <= i < r.resources.len() ==> exists|k: int| 0 <= k < inputs.files.len()
            && (#[trigger] inputs.files@[k]).path@ == (#[trigger] r.resources@[i]).path@,
{
    let ghost inputs0 = inputs;
    let GraphInputs { files, listing_diagnostics, plugin_sources, sidecar_reads } = inputs;
    let suffix = sidecar_suffix(config);
    let mut diagnostics: Vec<Diagnostic> = Vec::new();
    let supported: [u32; 1] = [1];
    crate::diagnostic::validate_schema_version(config.schema_version, 1, &supported, crate::model::CONFIG_PATH, &mut diagnostics);
    proof {
        reveal_strlit(".relaygraph.yaml");
        reveal_strlit("schema-error");
        assert(supported@ =~= seq![1u32]);
        let v = match config.schema_version { Some(v) => v, None => 1u32 };
        assert(supported@.contains(v) <==> v == 1) by {
            if v == 1 { assert(supported@[0] == v); }
        }
        assert(diags_view(diagnostics@) =~= config_version_diagnostics(*config));
    }
    let ghost d1 = diags_view(diagnostics@);
    validate_config_values(config, &mut diagnostics);
    let ghost d2 = diags_view(diagnostics@);
    let mut listing = listing_diagnostics;
    let ghost lv = diags_view(listing@);
    let ghost raw2 = diagnostics@;
    diagnostics.append(&mut listing);
    assert(diags_view(diagnostics@) =~= d2 + lv) by {
        assert(diagnostics@ =~= raw2 + inputs0.listing_diagnostics@);
    }
    let ghost d3 = diags_view(diagnostics@);
    let discovered = file_paths(&files);
    let plugins = load_plugins(plugin_sources, &discovered, &mut diagnostics);
    let ghost d4 = diags_view(diagnostics@);
    let known_kinds = collect_kinds(&plugins);
    let known_relations = collect_relations(&plugins);
    let rank = build_relation_rank(&plugins);
    let exclude_list: Vec<String> = match &config.exclude {
        Some(v) => crate::model::copy_strs(v),
        None => Vec::new(),
    };
    assert(strs_view(exclude_list@) =~= list_view(config.exclude));
    let exclude = crate::globs::globset(&exclude_list, &mut diagnostics);
    let ghost d5 = diags_view(diagnostics@);
    let plugin_paths = crate::plugin::configured_plugin_paths(config);
    let classified = classify_files(&files, suffix.as_str(), &exclude, &plugin_paths, &mut diagnostics);
    let ghost d6 = diags_view(diagnostics@);
    let ghost paths_v = strs_view(classified.resource_paths@);
    let ghost targets_v = strs_view(classified.sidecar_targets@);
    proof {
        crate::sorted::lemma_is_sorted_of(paths_v);
        crate::sorted::lemma_is_sorted_of(targets_v);
    }
    collect_sidecar_diagnostics(&classified.resource_paths, &classified.sidecar_targets, suffix.as_str(), config, &mut diagnostics);
    let ghost d7 = diags_view(diagnostics@);
    let ghost req = crate::globs::built_globs(list_view(config.require_sidecar));
    let has_plugins = plugins.len() > 0;
    let loaded = load_resources(&classified.resource_paths, &classified.sidecar_targets, suffix.as_str(), &sidecar_reads, has_plugins, &known_kinds, &mut diagnostics);
    let ghost d8 = diags_view(diagnostics@);
    let tables = ResolveTables {
        has_plugins,
        relations: &known_relations,
        ids: &loaded.ids,
        id_paths: &loaded.id_paths,
        dups: &loaded.duplicate_ids,
        paths: &classified.resource_paths,
    };
    proof {
        assert forall|i: int| 0 <= i < loaded.read_index.len() implies match #[trigger] loaded.read_index@[i] {
            Some(k) => k < sidecar_reads.len(),
            None => true,
        } by {
            assert(read_slot_ok(loaded.read_index@[i], classified.resource_paths@[i]@, targets_v, suffix@, sidecar_reads@));
        }
        assert forall|i: int| 0 <= i < paths_v.len() implies resource_path_views(loaded.resources@)[i] == paths_v[i] by {
            assert(resource_head(loaded.resources@[i]) == expected_head(classified.resource_paths@[i]@, targets_v, suffix@, sidecar_reads@));
        }
        assert(resource_path_views(loaded.resources@) =~= paths_v);
        assert forall|i: int| 0 <= i < paths_v.len() implies read_slot_ok(#[trigger] loaded.read_index@[i], paths_v[i], targets_v, suffix@, sidecar_reads@) by {
            assert(read_slot_ok(loaded.read_index@[i], classified.resource_paths@[i]@, targets_v, suffix@, sidecar_reads@));
        }
        lemma_links_diagnostics(paths_v, loaded.read_index@, targets_v, suffix@, sidecar_reads@, tables.scope());
    }
    let resources = resolve_resources(&loaded.resources, &loaded.read_index, suffix.as_str(), &sidecar_reads, &tables, &rank, &mut diagnostics);
    let ghost d9 = diags_view(diagnostics@);
    validate_plugin_rules(&resources, &plugins, &mut diagnostics);
    let r = BuildResult { resources, diagnostics, plugins };
    proof {
        let ex = crate::globs::globset_patterns(exclude);
        assert(ex == crate::globs::built_globs(list_view(config.exclude)));
        let scope = tables.scope();
        assert forall|i: int| 0 <= i < paths_v.len() implies resource_head(#[trigger] r.resources@[i]) == expected_head(paths_v[i], targets_v, suffix@, sidecar_reads@) by {
            assert(resource_head(loaded.resources@[i]) == expected_head(classified.resource_paths@[i]@, targets_v, suffix@, sidecar_reads@));
        }
        assert forall|i: int| 0 <= i < paths_v.len() implies ordered_links_ok((#[trigger] r.resources@[i]).links@, loaded_links(paths_v[i], targets_v, suffix@, sidecar_reads@), paths_v[i] + suffix@, scope, rank.ranked()) by {
            assert(sidecar_links(sidecar_reads@, loaded.read_index@[i]) == loaded_links(paths_v[i], targets_v, suffix@, sidecar_reads@));
            assert(loaded.resources@[i].path@ == paths_v[i]);
        }
        assert(diags_view(r.diagnostics@) =~= config_version_diagnostics(*config)
            + config_value_diagnostics(*config)
            + lv
            + load_plugins_spec(inputs0.plugin_sources@, file_path_views(files@)).2
            + glob_diagnostics(list_view(config.exclude))
            + classify_diagnostics(files@, suffix@, ex, strs_view(plugin_paths@))
            + orphan_diagnostics(targets_v, paths_v, suffix@)
            + glob_diagnostics(list_view(config.require_sidecar))
            + missing_sidecar_diagnostics(paths_v, targets_v, req)
            + load_spec(paths_v, targets_v, suffix@, sidecar_reads@, has_plugins, strs_view(known_kinds@)).3
            + graph_links_diagnostics(paths_v, targets_v, suffix@, sidecar_reads@, scope)
            + plugin_rules_findings(plugins@, r.resources@));
        assert(graph_spec(*config, inputs0, ex, req, r));
        assert(resource_path_views(r.resources@) =~= paths_v) by {
            assert forall|i: int| 0 <= i < paths_v.len() implies resource_path_views(r.resources@)[i] == paths_v[i] by {
                assert(resource_head(r.resources@[i]) == expected_head(paths_v[i], targets_v, suffix@, sidecar_reads@));
            }
        }
        assert forall|i: int| 0 <= i < r.resources.len() implies exists|k: int| 0 <= k < inputs0.files.len()
            && (#[trigger] inputs0.files@[k]).path@ == (#[trigger] r.resources@[i]).path@ by {
            assert(resource_path_views(r.resources@)[i] == paths_v[i]);
            assert(paths_v.to_set().contains(paths_v[i]));
            crate::graph::lemma_resource_path_listed(files@, suffix@, ex, strs_view(plugin_paths@), paths_v[i]);
            let k = choose|k: int| 0 <= k < files@.len() && (#[trigger] files@[k]).path@ == paths_v[i];
            assert(inputs0.files@[k] == files@[k]);
        }
    }
    r
}

} // verus!
