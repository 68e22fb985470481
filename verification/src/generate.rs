//! Generating one sidecar for a resource, with its kind and links.
use vstd::prelude::*;

use crate::assemble::{all_kinds, all_relations};
use crate::diagnostic::diagnostics_text;
use crate::globs::{glob_diagnostics, globset_patterns, set_matches, GlobMatcher};
use crate::init::{unique_id, SidecarProbe};
use crate::json::json_quoted;
use crate::locator::{locator_spec, parse_locator};
use crate::model::{diags_view, push_diag, strs_view, vec_contains, Config, DiagView, Diagnostic, Locator, Plugin};
use crate::text::{all_ws, cat, find_char, own};
use crate::util::strict_path;

verus! {

/// A link to write into a generated sidecar.
#[derive(Debug, Clone, PartialEq, Eq)]
pub struct GenerateLink {
    pub rel: String,
    pub to: String,
}

/// What to generate: the `path:` target, its kind and its links.
pub struct GenerateOptions {
    pub target: String,
    pub kind: Option<String>,
    pub links: Vec<GenerateLink>,
    pub dry_run: bool,
}

/// What `parse_generate_link` gives for `rel:locator` text: `(rel, to)`, or
/// the error text.
pub open spec fn generate_link_spec(value: Seq<char>) -> Result<(Seq<char>, Seq<char>), Seq<char>> {
    match find_char(value, ':') {
        None => Err("link must use rel:locator syntax"@),
        Some(i) => {
            let rel = value.take(i);
            let to = value.skip(i + 1);
            if all_ws(rel) {
                Err("link relation must not be empty"@)
            } else {
                match locator_spec(to) {
                    Err(m) => Err(m),
                    Ok(_) => Ok((rel, to)),
                }
            }
        },
    }
}

/// Parses a `rel:locator` link argument: the relation is the text before the
/// first `:` and must not be blank; the rest must be a valid locator.
pub fn parse_generate_link(value: &str) -> (r: Result<GenerateLink, String>)
    ensures
        match generate_link_spec(value@) {
            Ok((rel, to)) => r matches Ok(l) && l.rel@ == rel && l.to@ == to,
            Err(m) => r matches Err(e) && e@ == m,
        },
{
    proof {
        reveal_strlit("link must use rel:locator syntax");
        reveal_strlit("link relation must not be empty");
    }
    let v = crate::text::chars_of(value);
    match crate::text::find_char_in(v.as_slice(), ':') {
        None => Err(own("link must use rel:locator syntax")),
        Some(i) => {
            let rel = crate::text::string_of_range(v.as_slice(), 0, i);
            let to = crate::text::string_of_range(v.as_slice(), i + 1, v.len());
            assert(rel@ =~= value@.take(i as int));
            assert(to@ =~= value@.skip(i + 1));
            if crate::text::is_blank(rel.as_str()) {
                return Err(own("link relation must not be empty"));
            }
            match parse_locator(to.as_str()) {
                Err(m) => Err(m),
                Ok(_) => Ok(GenerateLink { rel, to }),
            }
        },
    }
}

/// The target of `generate`: a `path:` locator, strictly normalized.
pub open spec fn target_spec(target: Seq<char>) -> Result<Seq<char>, Seq<char>> {
    if "path:"@.is_prefix_of(target) {
        strict_path(target.skip(5))
    } else {
        Err("generate target must use path: locator"@)
    }
}

/// Normalizes the `path:` target of `generate`.
pub fn normalize_target_path(target: &str) -> (r: Result<String, String>)
    ensures
        crate::util::result_view(r) == target_spec(target@),
{
    proof {
        reveal_strlit("path:");
        reveal_strlit("generate target must use path: locator");
    }
    match crate::text::strip_prefix(target, "path:") {
        Some(p) => crate::util::normalize_repo_path_strict(p.as_str()),
        None => Err(own("generate target must use path: locator")),
    }
}

/// Number of occurrences of `x` in `s`.
pub open spec fn count_of(s: Seq<Seq<char>>, x: Seq<char>) -> nat
    decreases s.len(),
{
    if s.len() == 0 {
        0
    } else {
        count_of(s.drop_last(), x) + if s.last() == x { 1nat } else { 0nat }
    }
}

/// The resources that links may name: `(paths, ids)`, where `ids` holds the
/// id of each readable sidecar (an id once per sidecar that declares it).
pub struct LinkTargets {
    pub paths: Vec<String>,
    pub ids: Vec<String>,
}

/// The checks of the requested kind.
pub open spec fn kind_diagnostics(target: Seq<char>, kind: Option<Seq<char>>, plugins: Seq<Plugin>) -> Seq<DiagView> {
    match kind {
        Some(k) => if all_ws(k) {
            seq![("schema-error"@, Some(target), "kind must not be empty or whitespace"@)]
        } else if plugins.len() > 0 && !all_kinds(plugins).contains(k) {
            seq![("unknown-kind"@, Some(target), "unknown resource kind "@ + k)]
        } else {
            seq![]
        },
        None => seq![],
    }
}

/// The checks of one requested link.
pub open spec fn link_diagnostics(target: Seq<char>, rel: Seq<char>, to: Seq<char>, plugins: Seq<Plugin>, paths: Seq<Seq<char>>, ids: Seq<Seq<char>>) -> Seq<DiagView> {
    let d0: Seq<DiagView> = if plugins.len() > 0 && !all_relations(plugins).contains(rel) {
        seq![("unknown-relation"@, Some(target), "unknown relation "@ + rel)]
    } else {
        seq![]
    };
    d0 + match locator_spec(to) {
        Ok((false, p)) => match strict_path(p) {
            Ok(n) => if paths.contains(n) {
                seq![]
            } else {
                seq![("missing-path"@, Some(target), "unresolved path locator: "@ + to)]
            },
            Err(m) => seq![("schema-error"@, Some(target), "invalid path locator "@ + to + ": "@ + m)],
        },
        Ok((true, id)) => {
            let c = count_of(ids, id);
            if c == 1 {
                seq![]
            } else if c == 0 {
                seq![("unresolved-id"@, Some(target), "unresolved id locator: "@ + to)]
            } else {
                seq![("ambiguous-id"@, Some(target), "ambiguous id locator: "@ + to)]
            }
        },
        Err(m) => seq![("schema-error"@, Some(target), "invalid locator "@ + to + ": "@ + m)],
    }
}

/// The checks of the requested links, in order.
pub open spec fn links_diagnostics(target: Seq<char>, links: Seq<GenerateLink>, plugins: Seq<Plugin>, paths: Seq<Seq<char>>, ids: Seq<Seq<char>>) -> Seq<DiagView>
    decreases links.len(),
{
    if links.len() == 0 {
        seq![]
    } else {
        links_diagnostics(target, links.drop_last(), plugins, paths, ids)
            + link_diagnostics(target, links.last().rel@, links.last().to@, plugins, paths, ids)
    }
}

/// The number of occurrences of `x` in `s`.
fn count_in(s: &Vec<String>, x: &str) -> (n: usize)
    ensures
        n == count_of(strs_view(s@), x@),
{
    let mut n: usize = 0;
    let mut i: usize = 0;
    while i < s.len()
        invariant
            i <= s.len(),
            n == count_of(strs_view(s@.take(i as int)), x@),
            n <= i,
        decreases s.len() - i,
    {
        assert(strs_view(s@.take(i + 1)).drop_last() =~= strs_view(s@.take(i as int)));
        if crate::text::text_eq(s[i].as_str(), x) {
            n += 1;
        }
        i += 1;
    }
    assert(s@.take(s.len() as int) =~= s@);
    n
}

/// Checks the requested kind and links against the plugins and the
/// resources that links may name.
pub fn validate_generate_options(
    target: &str,
    plugins: &Vec<Plugin>,
    link_targets: &LinkTargets,
    options: &GenerateOptions,
    diagnostics: &mut Vec<Diagnostic>,
)
    ensures
        diags_view(final(diagnostics)@) == diags_view(old(diagnostics)@)
            + kind_diagnostics(target@, crate::model::opt_view(options.kind), plugins@)
            + links_diagnostics(target@, options.links@, plugins@, strs_view(link_targets.paths@), strs_view(link_targets.ids@)),
{
    proof {
        reveal_strlit("schema-error");
        reveal_strlit("kind must not be empty or whitespace");
        reveal_strlit("unknown-kind");
        reveal_strlit("unknown resource kind ");
        reveal_strlit("unknown-relation");
        reveal_strlit("unknown relation ");
        reveal_strlit("missing-path");
        reveal_strlit("unresolved path locator: ");
        reveal_strlit("invalid path locator ");
        reveal_strlit(": ");
        reveal_strlit("unresolved-id");
        reveal_strlit("unresolved id locator: ");
        reveal_strlit("ambiguous-id");
        reveal_strlit("ambiguous id locator: ");
        reveal_strlit("invalid locator ");
    }
    let ghost start = diags_view(diagnostics@);
    let kinds = crate::assemble::collect_kinds(plugins);
    let relations = crate::assemble::collect_relations(plugins);
    let has_plugins = plugins.len() > 0;
    if let Some(kind) = &options.kind {
        if crate::text::is_blank(kind.as_str()) {
            push_diag(diagnostics, crate::model::diagnostic("schema-error", Some(own(target)), own("kind must not be empty or whitespace")));
        } else if has_plugins && !vec_contains(&kinds, kind.as_str()) {
            push_diag(diagnostics, crate::model::diagnostic("unknown-kind", Some(own(target)), cat("unknown resource kind ", kind.as_str())));
        }
    }
    let ghost mid = diags_view(diagnostics@);
    assert(mid =~= start + kind_diagnostics(target@, crate::model::opt_view(options.kind), plugins@));
    let links = &options.links;
    let mut i: usize = 0;
    assert(mid =~= mid + links_diagnostics(target@, links@.take(0), plugins@, strs_view(link_targets.paths@), strs_view(link_targets.ids@)));
    while i < links.len()
        invariant
            i <= links.len(),
            has_plugins == (plugins.len() > 0),
            strs_view(kinds@) == all_kinds(plugins@),
            strs_view(relations@) == all_relations(plugins@),
            diags_view(diagnostics@) == mid + links_diagnostics(target@, links@.take(i as int), plugins@, strs_view(link_targets.paths@), strs_view(link_targets.ids@)),
        decreases links.len() - i,
    {
        assert(links@.take(i + 1).drop_last() =~= links@.take(i as int));
        let l = &links[i];
        let ghost before = diags_view(diagnostics@);
        if has_plugins && !vec_contains(&relations, l.rel.as_str()) {
            push_diag(diagnostics, crate::model::diagnostic("unknown-relation", Some(own(target)), cat("unknown relation ", l.rel.as_str())));
        }
        match parse_locator(l.to.as_str()) {
            Ok(Locator::Path(p)) => match crate::util::normalize_repo_path_strict(p.as_str()) {
                Ok(n) => {
                    if !vec_contains(&link_targets.paths, n.as_str()) {
                        push_diag(diagnostics, crate::model::diagnostic("missing-path", Some(own(target)), cat("unresolved path locator: ", l.to.as_str())));
                    }
                },
                Err(m) => {
                    let mut msg = cat("invalid path locator ", l.to.as_str());
                    msg.append(": ");
                    msg.append(m.as_str());
                    push_diag(diagnostics, crate::model::diagnostic("schema-error", Some(own(target)), msg));
                },
            },
            Ok(Locator::Id(id)) => {
                let c = count_in(&link_targets.ids, id.as_str());
                if c == 0 {
                    push_diag(diagnostics, crate::model::diagnostic("unresolved-id", Some(own(target)), cat("unresolved id locator: ", l.to.as_str())));
                } else if c > 1 {
                    push_diag(diagnostics, crate::model::diagnostic("ambiguous-id", Some(own(target)), cat("ambiguous id locator: ", l.to.as_str())));
                }
            },
            Err(m) => {
                let mut msg = cat("invalid locator ", l.to.as_str());
                msg.append(": ");
                msg.append(m.as_str());
                push_diag(diagnostics, crate::model::diagnostic("schema-error", Some(own(target)), msg));
            },
        }
        assert(diags_view(diagnostics@) =~= before + link_diagnostics(target@, l.rel@, l.to@, plugins@, strs_view(link_targets.paths@), strs_view(link_targets.ids@)));
        i += 1;
    }
    assert(links@.take(links.len() as int) =~= links@);
}

/// A listed file, with the id of the sidecar it holds when it is a readable
/// sidecar that declares one.
pub struct GenerateFile {
    pub path: String,
    pub sidecar_id: Option<String>,
}

/// Files that are not resources nor sidecars for link targets: the root
/// config, the reserved generated directory, plugin declarations and
/// excluded paths.
pub open spec fn target_skipped(p: Seq<char>, exclude: Seq<Seq<char>>, plugin_paths: Seq<Seq<char>>) -> bool {
    p == ".relaygraph.yaml"@ || crate::util::is_reserved_spec(p) || plugin_paths.contains(p) || set_matches(exclude, p)
}

/// The resource paths among `files`.
pub open spec fn target_paths(files: Seq<GenerateFile>, suffix: Seq<char>, exclude: Seq<Seq<char>>, plugin_paths: Seq<Seq<char>>) -> Seq<Seq<char>>
    decreases files.len(),
{
    if files.len() == 0 {
        seq![]
    } else {
        let rest = target_paths(files.drop_last(), suffix, exclude, plugin_paths);
        let p = files.last().path@;
        if target_skipped(p, exclude, plugin_paths) || suffix.is_suffix_of(p) {
            rest
        } else {
            rest.push(p)
        }
    }
}

/// The ids declared by the sidecars among `files`.
pub open spec fn target_ids(files: Seq<GenerateFile>, suffix: Seq<char>, exclude: Seq<Seq<char>>, plugin_paths: Seq<Seq<char>>) -> Seq<Seq<char>>
    decreases files.len(),
{
    if files.len() == 0 {
        seq![]
    } else {
        let rest = target_ids(files.drop_last(), suffix, exclude, plugin_paths);
        let f = files.last();
        if !target_skipped(f.path@, exclude, plugin_paths) && suffix.is_suffix_of(f.path@) && f.sidecar_id is Some {
            rest.push(f.sidecar_id->0@)
        } else {
            rest
        }
    }
}

/// The resources that links of a generated sidecar may name.
pub fn collect_link_targets(files: &Vec<GenerateFile>, suffix: &str, exclude: &GlobMatcher, plugin_paths: &Vec<String>) -> (r: LinkTargets)
    ensures
        strs_view(r.paths@) == target_paths(files@, suffix@, globset_patterns(*exclude), strs_view(plugin_paths@)),
        strs_view(r.ids@) == target_ids(files@, suffix@, globset_patterns(*exclude), strs_view(plugin_paths@)),
{
    proof { reveal_strlit(".relaygraph.yaml"); }
    let ghost ex = globset_patterns(*exclude);
    let ghost pp = strs_view(plugin_paths@);
    let mut paths: Vec<String> = Vec::new();
    let mut ids: Vec<String> = Vec::new();
    let mut i: usize = 0;
    while i < files.len()
        invariant
            i <= files.len(),
            ex == globset_patterns(*exclude),
            pp == strs_view(plugin_paths@),
            strs_view(paths@) == target_paths(files@.take(i as int), suffix@, ex, pp),
            strs_view(ids@) == target_ids(files@.take(i as int), suffix@, ex, pp),
        decreases files.len() - i,
    {
        assert(files@.take(i + 1).drop_last() =~= files@.take(i as int));
        let f = &files[i];
        let p = f.path.as_str();
        let skip = crate::text::text_eq(p, crate::model::CONFIG_PATH) || crate::util::is_reserved_generated_path(p)
            || vec_contains(plugin_paths, p) || crate::globs::matches_glob(exclude, p);
        if !skip {
            if crate::text::ends_with(p, suffix) {
                if let Some(id) = &f.sidecar_id {
                    let ghost prev = ids@;
                    ids.push(id.clone());
                    assert(strs_view(ids@) =~= strs_view(prev).push(id@));
                }
            } else {
                let ghost prev = paths@;
                paths.push(f.path.clone());
                assert(strs_view(paths@) =~= strs_view(prev).push(f.path@));
            }
        }
        i += 1;
    }
    assert(files@.take(files.len() as int) =~= files@);
    LinkTargets { paths, ids }
}

/// The text of a generated sidecar.
pub open spec fn content_spec(id: Seq<char>, kind: Option<Seq<char>>, links: Seq<GenerateLink>) -> Seq<char> {
    "schemaVersion: 1\nid: "@ + json_quoted(id) + "\n"@
        + match kind {
            Some(k) => "kind: "@ + json_quoted(k) + "\n"@,
            None => seq![],
        }
        + if links.len() == 0 {
            "links: []\n"@
        } else {
            "links:\n"@ + link_lines(links)
        }
}

/// The lines of the requested links.
pub open spec fn link_lines(links: Seq<GenerateLink>) -> Seq<char>
    decreases links.len(),
{
    if links.len() == 0 {
        seq![]
    } else {
        link_lines(links.drop_last()) + "  - rel: "@ + json_quoted(links.last().rel@) + "\n"@
            + "    to: "@ + json_quoted(links.last().to@) + "\n"@
    }
}

/// The text of a generated sidecar for `id`, `kind` and `links`.
pub fn sidecar_content(id: &str, kind: Option<&str>, links: &Vec<GenerateLink>) -> (r: String)
    ensures
        r@ == content_spec(id@, match kind { Some(k) => Some(k@), None => None }, links@),
{
    let mut content = own("schemaVersion: 1\nid: ");
    content.append(crate::json::json_string(id).as_str());
    content.append("\n");
    if let Some(k) = kind {
        content.append("kind: ");
        content.append(crate::json::json_string(k).as_str());
        content.append("\n");
    }
    let ghost head = content@;
    if links.len() == 0 {
        content.append("links: []\n");
    } else {
        content.append("links:\n");
        let ghost head2 = content@;
        let mut i: usize = 0;
        assert(links@.take(0) =~= seq![]);
        assert(head2 =~= head2 + link_lines(links@.take(0)));
        while i < links.len()
            invariant
                i <= links.len(),
                content@ == head2 + link_lines(links@.take(i as int)),
            decreases links.len() - i,
        {
            assert(links@.take(i + 1).drop_last() =~= links@.take(i as int));
            content.append("  - rel: ");
            content.append(crate::json::json_string(links[i].rel.as_str()).as_str());
            content.append("\n");
            content.append("    to: ");
            content.append(crate::json::json_string(links[i].to.as_str()).as_str());
            content.append("\n");
            i += 1;
        }
        assert(links@.take(links.len() as int) =~= links@);
    }
    content
}

/// What the filesystem reported for generating a sidecar: every listed file,
/// each configured plugin's source, what the target is (a symlink or not, or
/// the inspection error), whether Git would ignore its sidecar, what is at
/// the sidecar path, and the ids of the existing sidecars.
pub struct GenerateInputs {
    pub files: Vec<GenerateFile>,
    pub plugin_sources: Vec<crate::plugin::PluginSource>,
    pub target_probe: Result<bool, String>,
    pub sidecar_ignored: bool,
    pub sidecar_probe: SidecarProbe,
    pub existing_ids: Vec<String>,
}

/// The sidecar to write: its path and text.
pub struct GeneratePlan {
    pub sidecar_path: String,
    pub content: String,
}

/// The paths of the listed files.
pub open spec fn generate_file_paths(files: Seq<GenerateFile>) -> Seq<Seq<char>> {
    files.map_values(|f: GenerateFile| f.path@)
}

/// What `generate_sidecar` gives, when the exclude matcher holds `ex`:
/// `(sidecar path, text)`, or the error text.
pub open spec fn generate_spec(config: Config, options: GenerateOptions, inputs: GenerateInputs, ex: Seq<Seq<char>>) -> Result<(Seq<char>, Seq<char>), Seq<char>> {
    let d1 = crate::assemble::config_version_diagnostics(config) + crate::config::config_value_diagnostics(config)
        + glob_diagnostics(crate::config::list_view(config.exclude));
    let suffix = crate::config::sidecar_suffix_spec(config);
    let listed = generate_file_paths(inputs.files@);
    let (plugins, _, pd) = crate::plugin::load_plugins_spec(inputs.plugin_sources@, listed);
    let pp = crate::plugin::valid_plugin_paths(crate::config::list_view(config.plugins));
    let git = match config.use_git_ignore { Some(b) => b, None => true };
    if d1.len() > 0 {
        Err(diagnostics_text(d1))
    } else {
        match target_spec(options.target@) {
            Err(m) => Err(m),
            Ok(t) => {
                let vd = kind_diagnostics(t, crate::model::opt_view(options.kind), plugins)
                    + links_diagnostics(t, options.links@, plugins, target_paths(inputs.files@, suffix, ex, pp), target_ids(inputs.files@, suffix, ex, pp));
                let sp = t + suffix;
                if pd.len() > 0 {
                    Err(diagnostics_text(pd))
                } else if vd.len() > 0 {
                    Err(diagnostics_text(vd))
                } else if t == ".relaygraph.yaml"@ || crate::util::is_reserved_spec(t) || pp.contains(t) || suffix.is_suffix_of(t) || set_matches(ex, t) {
                    Err("refusing to generate sidecar for non-resource path "@ + t)
                } else if !listed.contains(t) {
                    Err("resource path is not part of Git-backed discovery: "@ + t)
                } else {
                    match inputs.target_probe {
                        Ok(true) => Err("resource must not be a symlink: "@ + t),
                        Err(e) => Err("failed to inspect resource "@ + t + ": "@ + e@),
                        Ok(false) => if set_matches(ex, sp) {
                            Err("generated sidecar would be excluded from discovery: "@ + sp)
                        } else if git && inputs.sidecar_ignored {
                            Err("generated sidecar would be ignored by Git discovery: "@ + sp)
                        } else {
                            match inputs.sidecar_probe {
                                SidecarProbe::Present(true) => Err("sidecar must not be a symlink: "@ + sp),
                                SidecarProbe::Present(false) => Err("sidecar already exists: "@ + sp),
                                SidecarProbe::Failed(e) => Err("failed to inspect sidecar "@ + sp + ": "@ + e@),
                                SidecarProbe::Missing => Ok((sp, content_spec(unique_id(t, strs_view(inputs.existing_ids@)), crate::model::opt_view(options.kind), options.links@))),
                            }
                        },
                    }
                }
            },
        }
    }
}

/// The paths of the listed files.
fn generate_paths(files: &Vec<GenerateFile>) -> (r: Vec<String>)
    ensures
        strs_view(r@) == generate_file_paths(files@),
{
    let mut r: Vec<String> = Vec::new();
    let mut i: usize = 0;
    while i < files.len()
        invariant
            i <= files.len(),
            strs_view(r@) == generate_file_paths(files@.take(i as int)),
        decreases files.len() - i,
    {
        let ghost prev = r@;
        r.push(files[i].path.clone());
        assert(strs_view(r@) =~= strs_view(prev).push(files@[i as int].path@));
        assert(generate_file_paths(files@.take(i + 1)) =~= generate_file_paths(files@.take(i as int)).push(files@[i as int].path@));
        i += 1;
    }
    assert(files@.take(files.len() as int) =~= files@);
    r
}

/// Plans the sidecar for `options.target`: checks the root config, the
/// target, the plugins and the requested kind and links; refuses targets that
/// are no resource (the root config, the reserved generated directory, plugin
/// declarations, sidecars, excluded paths) and undiscovered, symlinked,
/// ignored or already annotated ones; gives the sidecar path and the text
/// with a fresh id.
#[verifier::rlimit(40)]
pub fn generate_sidecar(config: &Config, options: GenerateOptions, inputs: GenerateInputs) -> (r: Result<GeneratePlan, String>)
    ensures
        match generate_spec(*config, options, inputs, crate::globs::built_globs(crate::config::list_view(config.exclude))) {
            Ok((sp, text)) => r matches Ok(plan) && plan.sidecar_path@ == sp && plan.content@ == text,
            Err(m) => r matches Err(e) && e@ == m,
        },
{
    proof {
        reveal_strlit(".relaygraph.yaml");
        reveal_strlit("schema-error");
    }
    let ghost options0 = options;
    let ghost inputs0 = inputs;
    let GenerateInputs { files, plugin_sources, target_probe, sidecar_ignored, sidecar_probe, existing_ids } = inputs;
    let suffix = crate::config::sidecar_suffix(config);
    let mut diagnostics: Vec<Diagnostic> = Vec::new();
    let supported: [u32; 1] = [1];
    crate::diagnostic::validate_schema_version(config.schema_version, 1, &supported, crate::model::CONFIG_PATH, &mut diagnostics);
    proof {
        assert(supported@ =~= seq![1u32]);
        let v = match config.schema_version { Some(v) => v, None => 1u32 };
        assert(supported@.contains(v) <==> v == 1) by {
            if v == 1 { assert(supported@[0] == v); }
        }
        assert(diags_view(diagnostics@) =~= crate::assemble::config_version_diagnostics(*config));
    }
    crate::config::validate_config_values(config, &mut diagnostics);
    let exclude_list: Vec<String> = match &config.exclude {
        Some(v) => crate::model::copy_strs(v),
        None => Vec::new(),
    };
    assert(strs_view(exclude_list@) =~= crate::config::list_view(config.exclude));
    let exclude = crate::globs::globset(&exclude_list, &mut diagnostics);
    let ghost ex = globset_patterns(exclude);
    assert(ex == crate::globs::built_globs(crate::config::list_view(config.exclude)));
    let ghost spec_r = generate_spec(*config, options0, inputs0, ex);
    assert(diags_view(diagnostics@) =~= crate::assemble::config_version_diagnostics(*config) + crate::config::config_value_diagnostics(*config)
        + glob_diagnostics(crate::config::list_view(config.exclude)));
    if diagnostics.len() > 0 {
        return Err(crate::diagnostic::diagnostics_to_message(&diagnostics));
    }
    let target = match normalize_target_path(options.target.as_str()) {
        Ok(t) => t,
        Err(m) => return Err(m),
    };
    let sp = cat(target.as_str(), suffix.as_str());
    let listed = generate_paths(&files);
    let plugins = crate::plugin::load_plugins(plugin_sources, &listed, &mut diagnostics);
    if diagnostics.len() > 0 {
        return Err(crate::diagnostic::diagnostics_to_message(&diagnostics));
    }
    let plugin_paths = crate::plugin::configured_plugin_paths(config);
    let link_targets = collect_link_targets(&files, suffix.as_str(), &exclude, &plugin_paths);
    validate_generate_options(target.as_str(), &plugins, &link_targets, &options, &mut diagnostics);
    if diagnostics.len() > 0 {
        return Err(crate::diagnostic::diagnostics_to_message(&diagnostics));
    }
    if crate::text::text_eq(target.as_str(), crate::model::CONFIG_PATH)
        || crate::util::is_reserved_generated_path(target.as_str())
        || vec_contains(&plugin_paths, target.as_str())
        || crate::text::ends_with(target.as_str(), suffix.as_str())
        || crate::globs::matches_glob(&exclude, target.as_str())
    {
        return Err(cat("refusing to generate sidecar for non-resource path ", target.as_str()));
    }
    if !vec_contains(&listed, target.as_str()) {
        return Err(cat("resource path is not part of Git-backed discovery: ", target.as_str()));
    }
    match &target_probe {
        Ok(true) => {
            return Err(cat("resource must not be a symlink: ", target.as_str()));
        },
        Err(e) => {
            let mut m = cat("failed to inspect resource ", target.as_str());
            m.append(": ");
            m.append(e.as_str());
            return Err(m);
        },
        Ok(false) => {},
    }
    if crate::globs::matches_glob(&exclude, sp.as_str()) {
        return Err(cat("generated sidecar would be excluded from discovery: ", sp.as_str()));
    }
    let git = match config.use_git_ignore { Some(b) => b, None => true };
    if git && sidecar_ignored {
        return Err(cat("generated sidecar would be ignored by Git discovery: ", sp.as_str()));
    }
    match &sidecar_probe {
        SidecarProbe::Present(true) => {
            return Err(cat("sidecar must not be a symlink: ", sp.as_str()));
        },
        SidecarProbe::Present(false) => {
            return Err(cat("sidecar already exists: ", sp.as_str()));
        },
        SidecarProbe::Failed(e) => {
            let mut m = cat("failed to inspect sidecar ", sp.as_str());
            m.append(": ");
            m.append(e.as_str());
            return Err(m);
        },
        SidecarProbe::Missing => {},
    }
    let mut used = existing_ids;
    let id = crate::init::unique_generated_id_for_path(target.as_str(), &mut used);
    let kind: Option<&str> = match &options.kind {
        Some(k) => Some(k.as_str()),
        None => None,
    };
    let content = sidecar_content(id.as_str(), kind, &options.links);
    Ok(GeneratePlan { sidecar_path: sp, content })
}

} // verus!
