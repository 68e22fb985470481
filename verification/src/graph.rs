//! Resource graph construction and validation.
use vstd::prelude::*;

use crate::globs::{GlobMatcher, glob_diagnostics, glob_matches, globset, globset_patterns, matches_glob, valid_globs};
use crate::model::{
    diag_view, diags_view, push_diag, strs_view, vec_contains, Config, DiagView, Diagnostic,
    CONFIG_PATH,
};
use crate::sorted::{sorted_insert, sorted_of, sorted_strict};
use crate::text::{cat, ends_with, own, strip_suffix};
use crate::util::is_reserved_spec;

verus! {

/// A discovered repository file and whether it is a symlink or reparse point.
pub struct RepoFile {
    pub path: String,
    pub is_boundary_link: bool,
}

/// Some glob of `patterns` matches `path`.
pub open spec fn any_glob(patterns: Seq<Seq<char>>, path: Seq<char>) -> bool {
    exists|i: int| 0 <= i < patterns.len() && glob_matches(#[trigger] patterns[i], path)
}

/// Files that are neither resources nor sidecars: the root config, the
/// reserved generated directory, configured plugin declarations and
/// excluded paths.
pub open spec fn skipped(path: Seq<char>, exclude: Seq<Seq<char>>, plugin_paths: Seq<Seq<char>>) -> bool {
    ||| path == ".relaygraph.yaml"@
    ||| is_reserved_spec(path)
    ||| plugin_paths.contains(path)
    ||| any_glob(exclude, path)
}

/// A sidecar candidate: not skipped and named with the sidecar suffix.
pub open spec fn is_sidecar_path(path: Seq<char>, suffix: Seq<char>, exclude: Seq<Seq<char>>, plugin_paths: Seq<Seq<char>>) -> bool {
    !skipped(path, exclude, plugin_paths) && suffix.is_suffix_of(path)
}

/// The resource a sidecar path annotates.
pub open spec fn sidecar_target(path: Seq<char>, suffix: Seq<char>) -> Seq<char> {
    path.take(path.len() - suffix.len())
}

/// The diagnostics of file classification, in file order.
pub open spec fn classify_diagnostics(files: Seq<RepoFile>, suffix: Seq<char>, exclude: Seq<Seq<char>>, plugin_paths: Seq<Seq<char>>) -> Seq<DiagView>
    decreases files.len(),
{
    if files.len() == 0 {
        seq![]
    } else {
        let rest = classify_diagnostics(files.drop_last(), suffix, exclude, plugin_paths);
        let f = files.last();
        if skipped(f.path@, exclude, plugin_paths) || !f.is_boundary_link {
            rest
        } else if suffix.is_suffix_of(f.path@) {
            rest.push(("schema-error"@, Some(f.path@), "sidecar must not be a symlink"@))
        } else {
            rest.push(("schema-error"@, Some(f.path@), "resource must not be a symlink"@))
        }
    }
}

/// The resource paths among the files, in file order.
pub open spec fn resource_path_seq(files: Seq<RepoFile>, suffix: Seq<char>, exclude: Seq<Seq<char>>, plugin_paths: Seq<Seq<char>>) -> Seq<Seq<char>>
    decreases files.len(),
{
    if files.len() == 0 {
        seq![]
    } else {
        let rest = resource_path_seq(files.drop_last(), suffix, exclude, plugin_paths);
        let f = files.last();
        if !skipped(f.path@, exclude, plugin_paths) && !suffix.is_suffix_of(f.path@) && !f.is_boundary_link {
            rest.push(f.path@)
        } else {
            rest
        }
    }
}

/// Every resource path is the path of a listed file.
pub proof fn lemma_resource_path_listed(files: Seq<RepoFile>, suffix: Seq<char>, exclude: Seq<Seq<char>>, plugin_paths: Seq<Seq<char>>, x: Seq<char>)
    requires
        resource_path_seq(files, suffix, exclude, plugin_paths).contains(x),
    ensures
        exists|k: int| 0 <= k < files.len() && (#[trigger] files[k]).path@ == x,
    decreases files.len(),
{
    let rest = resource_path_seq(files.drop_last(), suffix, exclude, plugin_paths);
    if rest.contains(x) {
        lemma_resource_path_listed(files.drop_last(), suffix, exclude, plugin_paths, x);
        let k = choose|k: int| 0 <= k < files.drop_last().len() && (#[trigger] files.drop_last()[k]).path@ == x;
        assert(files[k] == files.drop_last()[k]);
    } else {
        let s = resource_path_seq(files, suffix, exclude, plugin_paths);
        let i = choose|i: int| 0 <= i < s.len() && s[i] == x;
        assert(files[files.len() - 1] == files.last());
    }
}

/// The resources that have a sidecar among the files, in file order.
pub open spec fn sidecar_target_seq(files: Seq<RepoFile>, suffix: Seq<char>, exclude: Seq<Seq<char>>, plugin_paths: Seq<Seq<char>>) -> Seq<Seq<char>>
    decreases files.len(),
{
    if files.len() == 0 {
        seq![]
    } else {
        let rest = sidecar_target_seq(files.drop_last(), suffix, exclude, plugin_paths);
        let f = files.last();
        let t = sidecar_target(f.path@, suffix);
        if is_sidecar_path(f.path@, suffix, exclude, plugin_paths) && !f.is_boundary_link && t.len() > 0 {
            rest.push(t)
        } else {
            rest
        }
    }
}

/// The resource paths among the files.
pub open spec fn resource_path_set(files: Seq<RepoFile>, suffix: Seq<char>, exclude: Seq<Seq<char>>, plugin_paths: Seq<Seq<char>>) -> Set<Seq<char>> {
    resource_path_seq(files, suffix, exclude, plugin_paths).to_set()
}

/// The resources that have a sidecar among the files.
pub open spec fn sidecar_target_set(files: Seq<RepoFile>, suffix: Seq<char>, exclude: Seq<Seq<char>>, plugin_paths: Seq<Seq<char>>) -> Set<Seq<char>> {
    sidecar_target_seq(files, suffix, exclude, plugin_paths).to_set()
}

/// Resource paths and sidecar targets, each in `str` order.
pub struct Classified {
    pub resource_paths: Vec<String>,
    pub sidecar_targets: Vec<String>,
}

/// Splits the discovered files into resources and sidecars, reporting
/// symlinked ones. Returns both lists in `str` order.
pub fn classify_files(
    files: &Vec<RepoFile>,
    suffix: &str,
    exclude: &GlobMatcher,
    plugin_paths: &Vec<String>,
    diagnostics: &mut Vec<Diagnostic>,
) -> (r: Classified)
    ensures
        ({
            let ex = globset_patterns(*exclude);
            let pp = strs_view(plugin_paths@);
            &&& diags_view(final(diagnostics)@) == diags_view(old(diagnostics)@) + classify_diagnostics(files@, suffix@, ex, pp)
            &&& sorted_strict(strs_view(r.resource_paths@))
            &&& strs_view(r.resource_paths@).to_set() == resource_path_set(files@, suffix@, ex, pp)
            &&& sorted_strict(strs_view(r.sidecar_targets@))
            &&& strs_view(r.sidecar_targets@).to_set() == sidecar_target_set(files@, suffix@, ex, pp)
        }),
{
    proof {
        reveal_strlit("schema-error");
        reveal_strlit("sidecar must not be a symlink");
        reveal_strlit("resource must not be a symlink");
        reveal_strlit(".relaygraph.yaml");
    }
    let ghost ex = globset_patterns(*exclude);
    let ghost pp = strs_view(plugin_paths@);
    let ghost start = diags_view(diagnostics@);
    let mut resources: Vec<String> = Vec::new();
    let mut targets: Vec<String> = Vec::new();
    let mut i: usize = 0;
    while i < files.len()
        invariant
            i <= files.len(),
            ex == globset_patterns(*exclude),
            pp == strs_view(plugin_paths@),
            diags_view(diagnostics@) == start + classify_diagnostics(files@.take(i as int), suffix@, ex, pp),
            sorted_strict(strs_view(resources@)),
            strs_view(resources@).to_set() == resource_path_set(files@.take(i as int), suffix@, ex, pp),
            sorted_strict(strs_view(targets@)),
            strs_view(targets@).to_set() == sidecar_target_set(files@.take(i as int), suffix@, ex, pp),
        decreases files.len() - i,
    {
        proof {
            reveal_strlit("schema-error");
            reveal_strlit("sidecar must not be a symlink");
            reveal_strlit("resource must not be a symlink");
            reveal_strlit(".relaygraph.yaml");
        }
        let ghost prev = files@.take(i as int);
        let ghost next = files@.take(i + 1);
        assert(next.drop_last() =~= prev);
        assert(next.last() == files@[i as int]);
        let f = &files[i];
        let path = f.path.as_str();
        let is_skipped = crate::text::text_eq(path, CONFIG_PATH) || crate::util::is_reserved_generated_path(path)
            || vec_contains(plugin_paths, path) || matches_glob(exclude, path);
        assert(is_skipped == skipped(path@, ex, pp));
        let ghost rs_prev = strs_view(resources@);
        let ghost ts_prev = strs_view(targets@);
        if is_skipped {
        } else if ends_with(path, suffix) {
            if f.is_boundary_link {
                push_diag(diagnostics, crate::model::diagnostic("schema-error", Some(own(path)), own("sidecar must not be a symlink")));
            } else {
                let target = strip_suffix(path, suffix).unwrap();
                if target.unicode_len() > 0 {
                    proof {
                        sidecar_target_seq(prev, suffix@, ex, pp).lemma_push_to_set_commute(target@);
                    }
                    sorted_insert(&mut targets, target);
                }
            }
        } else {
            if f.is_boundary_link {
                push_diag(diagnostics, crate::model::diagnostic("schema-error", Some(own(path)), own("resource must not be a symlink")));
            } else {
                proof {
                    resource_path_seq(prev, suffix@, ex, pp).lemma_push_to_set_commute(path@);
                }
                sorted_insert(&mut resources, f.path.clone());
            }
        }
        i += 1;
    }
    assert(files@.take(files.len() as int) =~= files@);
    Classified { resource_paths: resources, sidecar_targets: targets }
}

} // verus!

verus! {

// ---------------------------------------------------------------------------
// Sidecar coverage
// ---------------------------------------------------------------------------

/// `orphan-sidecar` for each sidecar whose resource is missing, in target order.
pub open spec fn orphan_diagnostics(targets: Seq<Seq<char>>, resources: Seq<Seq<char>>, suffix: Seq<char>) -> Seq<DiagView>
    decreases targets.len(),
{
    if targets.len() == 0 {
        seq![]
    } else {
        let rest = orphan_diagnostics(targets.drop_last(), resources, suffix);
        let t = targets.last();
        if resources.contains(t) {
            rest
        } else {
            rest.push(("orphan-sidecar"@, Some(t + suffix), "sidecar target does not exist: "@ + t))
        }
    }
}

/// `missing-sidecar` for each resource matched by `requireSidecar` without a sidecar.
pub open spec fn missing_sidecar_diagnostics(resources: Seq<Seq<char>>, targets: Seq<Seq<char>>, require: Seq<Seq<char>>) -> Seq<DiagView>
    decreases resources.len(),
{
    if resources.len() == 0 {
        seq![]
    } else {
        let rest = missing_sidecar_diagnostics(resources.drop_last(), targets, require);
        let p = resources.last();
        if any_glob(require, p) && !targets.contains(p) {
            rest.push(("missing-sidecar"@, Some(p), "resource matches requireSidecar but has no sidecar"@))
        } else {
            rest
        }
    }
}

/// Reports orphan sidecars, invalid `requireSidecar` globs, and resources
/// that `requireSidecar` matches but that have no sidecar.
pub fn collect_sidecar_diagnostics(
    resource_paths: &Vec<String>,
    sidecar_targets: &Vec<String>,
    suffix: &str,
    config: &Config,
    diagnostics: &mut Vec<Diagnostic>,
)
    ensures
        diags_view(final(diagnostics)@) == diags_view(old(diagnostics)@)
            + orphan_diagnostics(strs_view(sidecar_targets@), strs_view(resource_paths@), suffix@)
            + glob_diagnostics(crate::config::list_view(config.require_sidecar))
            + missing_sidecar_diagnostics(strs_view(resource_paths@), strs_view(sidecar_targets@),
                crate::globs::built_globs(crate::config::list_view(config.require_sidecar))),
{
    proof {
        reveal_strlit("orphan-sidecar");
        reveal_strlit("sidecar target does not exist: ");
    }
    let ghost start = diags_view(diagnostics@);
    let ghost tv = strs_view(sidecar_targets@);
    let ghost rv = strs_view(resource_paths@);
    let mut i: usize = 0;
    while i < sidecar_targets.len()
        invariant
            i <= sidecar_targets.len(),
            tv == strs_view(sidecar_targets@),
            rv == strs_view(resource_paths@),
            diags_view(diagnostics@) == start + orphan_diagnostics(tv.take(i as int), rv, suffix@),
        decreases sidecar_targets.len() - i,
    {
        proof {
            reveal_strlit("orphan-sidecar");
            reveal_strlit("sidecar target does not exist: ");
        }
        assert(tv.take(i + 1).drop_last() =~= tv.take(i as int));
        assert(tv[i as int] == sidecar_targets@[i as int]@);
        let t = sidecar_targets[i].as_str();
        if !vec_contains(resource_paths, t) {
            let d = crate::model::diagnostic("orphan-sidecar", Some(cat(t, suffix)), cat("sidecar target does not exist: ", t));
            push_diag(diagnostics, d);
        }
        i += 1;
    }
    assert(tv.take(sidecar_targets.len() as int) =~= tv);
    let ghost after_orphans = diags_view(diagnostics@);
    let empty: Vec<String> = Vec::new();
    let require = match &config.require_sidecar {
        Some(list) => globset(list, diagnostics),
        None => {
            let g = globset(&empty, diagnostics);
            assert(strs_view(empty@) =~= seq![]);
            g
        },
    };
    let ghost req = globset_patterns(require);
    let ghost after_globs = diags_view(diagnostics@);
    proof {
        assert(crate::config::list_view(config.require_sidecar) == match config.require_sidecar { Some(l) => strs_view(l@), None => seq![] });
        if config.require_sidecar is None {
            assert(strs_view(empty@) =~= seq![]);
            assert(valid_globs(seq![]) =~= seq![]);
        }
    }
    let mut j: usize = 0;
    while j < resource_paths.len()
        invariant
            j <= resource_paths.len(),
            tv == strs_view(sidecar_targets@),
            rv == strs_view(resource_paths@),
            req == globset_patterns(require),
            diags_view(diagnostics@) == after_globs + missing_sidecar_diagnostics(rv.take(j as int), tv, req),
        decreases resource_paths.len() - j,
    {
        proof {
            reveal_strlit("missing-sidecar");
            reveal_strlit("resource matches requireSidecar but has no sidecar");
        }
        assert(rv.take(j + 1).drop_last() =~= rv.take(j as int));
        assert(rv[j as int] == resource_paths@[j as int]@);
        let p = resource_paths[j].as_str();
        if matches_glob(&require, p) && !vec_contains(sidecar_targets, p) {
            let d = crate::model::diagnostic("missing-sidecar", Some(own(p)), own("resource matches requireSidecar but has no sidecar"));
            push_diag(diagnostics, d);
        }
        j += 1;
    }
    assert(rv.take(resource_paths.len() as int) =~= rv);
    proof {
        assert(after_orphans =~= start + orphan_diagnostics(tv, rv, suffix@));
        assert(req == crate::globs::built_globs(crate::config::list_view(config.require_sidecar)));
        assert(diags_view(diagnostics@) =~= start + orphan_diagnostics(tv, rv, suffix@)
            + glob_diagnostics(crate::config::list_view(config.require_sidecar))
            + missing_sidecar_diagnostics(rv, tv, req));
    }
}

} // verus!

verus! {

// ---------------------------------------------------------------------------
// Sidecar definitions
// ---------------------------------------------------------------------------

/// A diagnostic on `path` with a fixed message when `cond` holds.
pub open spec fn diag_if(cond: bool, code: Seq<char>, path: Seq<char>, message: Seq<char>) -> Seq<DiagView> {
    if cond {
        seq![(code, Some(path), message)]
    } else {
        seq![]
    }
}

/// The sidecar version in effect (absent means version 1).
pub open spec fn sidecar_version(s: crate::model::Sidecar) -> u32 {
    match s.schema_version {
        Some(v) => v,
        None => 1u32,
    }
}

/// Shape diagnostics of one declared link.
pub open spec fn link_shape_diagnostics(l: crate::model::Link, version: u32, path: Seq<char>) -> Seq<DiagView> {
    diag_if(crate::text::all_ws(l.rel@), "schema-error"@, path, "link.rel must not be empty"@)
    + diag_if(crate::text::all_ws(l.to@), "schema-error"@, path, "link.to must not be empty"@)
    + reason_diagnostics(l, version, path) + ack_diagnostics(l, version, path)
}

/// Shape diagnostics of all links, in order.
pub open spec fn links_shape_diagnostics(links: Seq<crate::model::Link>, version: u32, path: Seq<char>) -> Seq<DiagView>
    decreases links.len(),
{
    if links.len() == 0 {
        seq![]
    } else {
        links_shape_diagnostics(links.drop_last(), version, path) + link_shape_diagnostics(links.last(), version, path)
    }
}

/// All diagnostics of a sidecar definition, in order.
pub open spec fn sidecar_definition_diagnostics(s: crate::model::Sidecar, path: Seq<char>) -> Seq<DiagView> {
    (match s.id {
        Some(id) => diag_if(crate::text::all_ws(id@), "schema-error"@, path, "sidecar id must not be empty"@),
        None => seq![],
    }) + (match s.kind {
        Some(k) => diag_if(crate::text::all_ws(k@), "schema-error"@, path, "sidecar kind must not be empty"@),
        None => seq![],
    }) + links_shape_diagnostics(s.links@, sidecar_version(s), path)
    + diag_if(s.metadata_json is None, "schema-error"@, path, "metadata must be JSON-compatible; YAML mapping keys must be strings"@)
}

/// Pushes `message` as a `schema-error` on `path` when `cond` holds.
fn schema_error_if(cond: bool, path: &str, message: &str, diagnostics: &mut Vec<Diagnostic>)
    ensures
        diags_view(final(diagnostics)@) == diags_view(old(diagnostics)@) + diag_if(cond, "schema-error"@, path@, message@),
{
    proof {
        reveal_strlit("schema-error");
    }
    if cond {
        push_diag(diagnostics, crate::model::diagnostic("schema-error", Some(own(path)), own(message)));
        assert(diags_view(diagnostics@) =~= diags_view(old(diagnostics)@) + diag_if(cond, "schema-error"@, path@, message@));
    } else {
        assert(diags_view(diagnostics@) =~= diags_view(old(diagnostics)@) + diag_if(cond, "schema-error"@, path@, message@));
    }
}

/// Reason diagnostics of one link.
pub open spec fn reason_diagnostics(l: crate::model::Link, version: u32, path: Seq<char>) -> Seq<DiagView> {
    match l.reason {
        Some(r) => if crate::text::all_ws(r@) {
            seq![("schema-error"@, Some(path), "link reason must not be empty or whitespace"@)]
        } else {
            diag_if(version < 3, "schema-error"@, path, "link.reason requires sidecar schemaVersion 3"@)
        },
        None => seq![],
    }
}

/// Acknowledgement diagnostics of one link.
pub open spec fn ack_diagnostics(l: crate::model::Link, version: u32, path: Seq<char>) -> Seq<DiagView> {
    match l.acknowledged {
        Some(a) => if version == 1 {
            seq![("schema-error"@, Some(path), "link.acknowledged requires sidecar schemaVersion 2 or later"@)]
        } else if version == 3 && a.link_revision is None {
            seq![("schema-error"@, Some(path), "link.acknowledged.linkRevision is required in sidecar schemaVersion 3"@)]
        } else if version == 2 && a.link_revision is Some {
            seq![("schema-error"@, Some(path), "link.acknowledged.linkRevision requires sidecar schemaVersion 3"@)]
        } else {
            seq![]
        },
        None => seq![],
    }
}

fn validate_link_reason_shape(link: &crate::model::Link, version: u32, path: &str, diagnostics: &mut Vec<Diagnostic>)
    ensures
        diags_view(final(diagnostics)@) == diags_view(old(diagnostics)@) + reason_diagnostics(*link, version, path@),
{
    proof {
        reveal_strlit("link reason must not be empty or whitespace");
        reveal_strlit("link.reason requires sidecar schemaVersion 3");
    }
    match &link.reason {
        Some(r) => {
            if crate::text::is_blank(r.as_str()) {
                schema_error_if(true, path, "link reason must not be empty or whitespace", diagnostics);
            } else {
                schema_error_if(version < 3, path, "link.reason requires sidecar schemaVersion 3", diagnostics);
            }
        },
        None => {
            assert(diags_view(diagnostics@) =~= diags_view(old(diagnostics)@) + reason_diagnostics(*link, version, path@));
        },
    }
}

fn validate_link_ack_shape(link: &crate::model::Link, version: u32, path: &str, diagnostics: &mut Vec<Diagnostic>)
    ensures
        diags_view(final(diagnostics)@) == diags_view(old(diagnostics)@) + ack_diagnostics(*link, version, path@),
{
    proof {
        reveal_strlit("link.acknowledged requires sidecar schemaVersion 2 or later");
        reveal_strlit("link.acknowledged.linkRevision is required in sidecar schemaVersion 3");
        reveal_strlit("link.acknowledged.linkRevision requires sidecar schemaVersion 3");
    }
    match &link.acknowledged {
        Some(a) => {
            if version == 1 {
                schema_error_if(true, path, "link.acknowledged requires sidecar schemaVersion 2 or later", diagnostics);
            } else if version == 3 && a.link_revision.is_none() {
                schema_error_if(true, path, "link.acknowledged.linkRevision is required in sidecar schemaVersion 3", diagnostics);
            } else if version == 2 && a.link_revision.is_some() {
                schema_error_if(true, path, "link.acknowledged.linkRevision requires sidecar schemaVersion 3", diagnostics);
            } else {
                assert(diags_view(diagnostics@) =~= diags_view(old(diagnostics)@) + ack_diagnostics(*link, version, path@));
            }
        },
        None => {
            assert(diags_view(diagnostics@) =~= diags_view(old(diagnostics)@) + ack_diagnostics(*link, version, path@));
        },
    }
}

/// Reports the shape problems of one link.
fn validate_link_shape(link: &crate::model::Link, version: u32, path: &str, diagnostics: &mut Vec<Diagnostic>)
    ensures
        diags_view(final(diagnostics)@) == diags_view(old(diagnostics)@) + link_shape_diagnostics(*link, version, path@),
{
    proof {
        reveal_strlit("link.rel must not be empty");
        reveal_strlit("link.to must not be empty");
    }
    let ghost start = diags_view(diagnostics@);
    schema_error_if(crate::text::is_blank(link.rel.as_str()), path, "link.rel must not be empty", diagnostics);
    let ghost a1 = diags_view(diagnostics@);
    schema_error_if(crate::text::is_blank(link.to.as_str()), path, "link.to must not be empty", diagnostics);
    let ghost a2 = diags_view(diagnostics@);
    validate_link_reason_shape(link, version, path, diagnostics);
    let ghost a3 = diags_view(diagnostics@);
    validate_link_ack_shape(link, version, path, diagnostics);
    proof {
        assert(a1 =~= start + a1.skip(start.len() as int));
        assert(a2 =~= a1 + a2.skip(a1.len() as int));
        assert(a3 =~= a2 + a3.skip(a2.len() as int));
    }
    assert(diags_view(diagnostics@) =~= start + link_shape_diagnostics(*link, version, path@));
}

/// Checks a sidecar's shape: non-blank id, kind, relations and targets;
/// link reasons only in version 3; acknowledgements shaped for their
/// version; JSON-compatible metadata.
pub fn validate_sidecar_definition(sidecar: &crate::model::Sidecar, path: &str, diagnostics: &mut Vec<Diagnostic>)
    ensures
        diags_view(final(diagnostics)@) == diags_view(old(diagnostics)@) + sidecar_definition_diagnostics(*sidecar, path@),
{
    proof {
        reveal_strlit("sidecar id must not be empty");
        reveal_strlit("sidecar kind must not be empty");
        reveal_strlit("metadata must be JSON-compatible; YAML mapping keys must be strings");
    }
    let ghost start = diags_view(diagnostics@);
    match &sidecar.id {
        Some(id) => schema_error_if(crate::text::is_blank(id.as_str()), path, "sidecar id must not be empty", diagnostics),
        None => {},
    }
    let ghost a1 = diags_view(diagnostics@);
    match &sidecar.kind {
        Some(k) => schema_error_if(crate::text::is_blank(k.as_str()), path, "sidecar kind must not be empty", diagnostics),
        None => {},
    }
    let ghost a2 = diags_view(diagnostics@);
    let version = match sidecar.schema_version {
        Some(v) => v,
        None => 1,
    };
    let mut i: usize = 0;
    while i < sidecar.links.len()
        invariant
            i <= sidecar.links.len(),
            version == sidecar_version(*sidecar),
            diags_view(diagnostics@) == a2 + links_shape_diagnostics(sidecar.links@.take(i as int), version, path@),
        decreases sidecar.links.len() - i,
    {
        assert(sidecar.links@.take(i + 1).drop_last() =~= sidecar.links@.take(i as int));
        validate_link_shape(&sidecar.links[i], version, path, diagnostics);
        i += 1;
    }
    assert(sidecar.links@.take(sidecar.links.len() as int) =~= sidecar.links@);
    let ghost a3 = diags_view(diagnostics@);
    schema_error_if(sidecar.metadata_json.is_none(), path, "metadata must be JSON-compatible; YAML mapping keys must be strings", diagnostics);
    proof {
        assert(a1 =~= start + a1.skip(start.len() as int));
        assert(a2 =~= a1 + a2.skip(a1.len() as int));
    }
    assert(diags_view(diagnostics@) =~= start + sidecar_definition_diagnostics(*sidecar, path@));
}

} // verus!

verus! {

// ---------------------------------------------------------------------------
// Resources and their sidecars
// ---------------------------------------------------------------------------

/// A sidecar file's read outcome: the parsed sidecar, or the text of the
/// inspection, read or parse error.
pub struct SidecarRead {
    pub path: String,
    pub outcome: Result<crate::model::Sidecar, String>,
}

/// The outcome recorded for `path` (the first entry for it).
pub open spec fn read_of(reads: Seq<SidecarRead>, path: Seq<char>) -> Option<Result<crate::model::Sidecar, String>>
    decreases reads.len(),
{
    if reads.len() == 0 {
        None
    } else if reads[0].path@ == path {
        Some(reads[0].outcome)
    } else {
        read_of(reads.drop_first(), path)
    }
}

/// The part of a resource fixed before links are resolved:
/// `(path, id, kind, sidecar, metadata_json)`.
pub open spec fn resource_head(r: crate::model::Resource) -> (Seq<char>, Option<Seq<char>>, Option<Seq<char>>, Option<Seq<char>>, Seq<char>) {
    (r.path@, crate::model::opt_view(r.id), crate::model::opt_view(r.kind), crate::model::opt_view(r.sidecar), r.metadata_json@)
}

/// The head of the resource at `p`.
pub open spec fn expected_head(p: Seq<char>, targets: Seq<Seq<char>>, suffix: Seq<char>, reads: Seq<SidecarRead>) -> (Seq<char>, Option<Seq<char>>, Option<Seq<char>>, Option<Seq<char>>, Seq<char>) {
    if targets.contains(p) {
        let sp = p + suffix;
        match read_of(reads, sp) {
            Some(Ok(sc)) => (p, crate::model::opt_view(sc.id), crate::model::opt_view(sc.kind), Some(sp), match sc.metadata_json {
                Some(j) => j@,
                None => "{}"@,
            }),
            _ => (p, None, None, Some(sp), "{}"@),
        }
    } else {
        (p, None, None, None, "{}"@)
    }
}

/// `k` is the first position of `x` in `s`.
pub open spec fn is_first_slot(s: Seq<Seq<char>>, x: Seq<char>, k: int) -> bool {
    0 <= k < s.len() && s[k] == x && forall|j: int| 0 <= j < k ==> s[j] != x
}

/// First position of `id` among the recorded ids.
pub open spec fn id_slot(ids: Seq<Seq<char>>, id: Seq<char>) -> Option<int> {
    if exists|k: int| is_first_slot(ids, id, k) {
        Some(choose|k: int| is_first_slot(ids, id, k))
    } else {
        None
    }
}

/// The state of sidecar loading: `(ids, id_paths, duplicate_ids, diagnostics)`.
pub type LoadState = (Seq<Seq<char>>, Seq<Seq<char>>, Seq<Seq<char>>, Seq<DiagView>);

/// Diagnostics of a loaded sidecar's version and shape.
pub open spec fn loaded_sidecar_checks(sc: crate::model::Sidecar, sp: Seq<char>) -> Seq<DiagView> {
    diag_if(
        !(1 <= sidecar_version(sc) <= 3),
        "schema-error"@,
        sp,
        crate::diagnostic::version_message(sidecar_version(sc), seq![1u32, 2u32, 3u32]),
    ) + sidecar_definition_diagnostics(sc, sp)
}

/// The id table and diagnostics after checking the loaded sidecar `sc` (at
/// `sp`) of the resource at `p`. The first resource with an id owns it; later
/// ones are reported as duplicates. The diagnostics are only the new ones.
pub open spec fn sidecar_step(
    ids: Seq<Seq<char>>,
    id_paths: Seq<Seq<char>>,
    dups: Seq<Seq<char>>,
    p: Seq<char>,
    sp: Seq<char>,
    sc: crate::model::Sidecar,
    has_plugins: bool,
    kinds: Seq<Seq<char>>,
) -> LoadState {
    let checked = loaded_sidecar_checks(sc, sp);
    let (ids2, id_paths2, dups2, ds2) = match sc.id {
        Some(id) => match id_slot(ids, id@) {
            Some(k) => (ids, id_paths, dups.push(id@), checked.push(("duplicate-id"@, Some(sp), "id "@ + id@ + " is already used by "@ + id_paths[k]))),
            None => (ids.push(id@), id_paths.push(p), dups, checked),
        },
        None => (ids, id_paths, dups, checked),
    };
    let ds3 = match sc.kind {
        Some(k) => if has_plugins && !kinds.contains(k@) {
            ds2.push(("unknown-kind"@, Some(sp), "unknown resource kind: "@ + k@))
        } else {
            ds2
        },
        None => ds2,
    };
    (ids2, id_paths2, dups2, ds3)
}

/// Loading the sidecar of the resource at `p`: the new id table and the
/// diagnostics it adds.
pub open spec fn load_step(
    ids: Seq<Seq<char>>,
    id_paths: Seq<Seq<char>>,
    dups: Seq<Seq<char>>,
    p: Seq<char>,
    targets: Seq<Seq<char>>,
    suffix: Seq<char>,
    reads: Seq<SidecarRead>,
    has_plugins: bool,
    kinds: Seq<Seq<char>>,
) -> LoadState {
    if !targets.contains(p) {
        (ids, id_paths, dups, seq![])
    } else {
        let sp = p + suffix;
        match read_of(reads, sp) {
            Some(Ok(sc)) => sidecar_step(ids, id_paths, dups, p, sp, sc, has_plugins, kinds),
            Some(Err(m)) => (ids, id_paths, dups, seq![("schema-error"@, Some(sp), m@)]),
            None => (ids, id_paths, dups, seq![("schema-error"@, Some(sp), "failed to read sidecar "@ + sp)]),
        }
    }
}

/// The state after loading the sidecars of `paths`, in order.
pub open spec fn load_spec(
    paths: Seq<Seq<char>>,
    targets: Seq<Seq<char>>,
    suffix: Seq<char>,
    reads: Seq<SidecarRead>,
    has_plugins: bool,
    kinds: Seq<Seq<char>>,
) -> LoadState
    decreases paths.len(),
{
    if paths.len() == 0 {
        (seq![], seq![], seq![], seq![])
    } else {
        let (ids, id_paths, dups, ds) = load_spec(paths.drop_last(), targets, suffix, reads, has_plugins, kinds);
        let (ids2, id_paths2, dups2, added) = load_step(ids, id_paths, dups, paths.last(), targets, suffix, reads, has_plugins, kinds);
        (ids2, id_paths2, dups2, ds + added)
    }
}

/// Which read entry a resource's loaded sidecar came from.
pub open spec fn read_slot_ok(slot: Option<usize>, p: Seq<char>, targets: Seq<Seq<char>>, suffix: Seq<char>, reads: Seq<SidecarRead>) -> bool {
    match slot {
        Some(k) => k < reads.len() && targets.contains(p)
            && read_of(reads, p + suffix) == Some(reads[k as int].outcome)
            && reads[k as int].outcome is Ok,
        None => !(targets.contains(p) && read_of(reads, p + suffix) matches Some(Ok(_))),
    }
}

} // verus!

verus! {

/// Position of the first read outcome recorded for `path`.
fn find_read(reads: &Vec<SidecarRead>, path: &str) -> (r: Option<usize>)
    ensures
        r matches Some(k) ==> k < reads.len() && read_of(reads@, path@) == Some(reads@[k as int].outcome),
        r is None ==> read_of(reads@, path@) is None,
{
    let mut i: usize = 0;
    assert(reads@.skip(0) =~= reads@);
    while i < reads.len()
        invariant
            i <= reads.len(),
            read_of(reads@, path@) == read_of(reads@.skip(i as int), path@),
        decreases reads.len() - i,
    {
        assert(reads@.skip(i as int)[0] == reads@[i as int]);
        assert(reads@.skip(i as int).drop_first() =~= reads@.skip(i + 1));
        if crate::text::text_eq(reads[i].path.as_str(), path) {
            return Some(i);
        }
        i += 1;
    }
    None
}

/// Position of `id` among the recorded ids.
pub fn find_id(ids: &Vec<String>, id: &str) -> (r: Option<usize>)
    ensures
        r matches Some(k) ==> id_slot(strs_view(ids@), id@) == Some(k as int) && k < ids.len(),
        r is None ==> id_slot(strs_view(ids@), id@) is None,
{
    let ghost s = strs_view(ids@);
    match crate::model::vec_position(ids, id) {
        Some(k) => {
            proof {
                assert(is_first_slot(s, id@, k as int));
                let c = choose|c: int| is_first_slot(s, id@, c);
                assert(is_first_slot(s, id@, c));
                if c < k {
                    assert(ids@[c]@ == s[c]);
                }
                if k < c {
                    assert(s[k as int] != id@);
                }
            }
            Some(k)
        },
        None => {
            proof {
                if exists|c: int| is_first_slot(s, id@, c) {
                    let c = choose|c: int| is_first_slot(s, id@, c);
                    assert(s.contains(id@));
                }
            }
            None
        },
    }
}

/// Resources with their sidecar fields, before links are resolved.
pub struct LoadedResources {
    pub resources: Vec<crate::model::Resource>,
    pub read_index: Vec<Option<usize>>,
    pub ids: Vec<String>,
    pub id_paths: Vec<String>,
    pub duplicate_ids: Vec<String>,
}

/// Checks a loaded sidecar and records its id and kind findings.
#[verifier::rlimit(40)]
fn check_loaded_sidecar(
    sc: &crate::model::Sidecar,
    path: &str,
    sp: &String,
    has_plugins: bool,
    known_kinds: &Vec<String>,
    ids: &mut Vec<String>,
    id_paths: &mut Vec<String>,
    dups: &mut Vec<String>,
    diagnostics: &mut Vec<Diagnostic>,
)
    requires
        old(ids).len() == old(id_paths).len(),
    ensures
        final(ids).len() == final(id_paths).len(),
        ({
            let (ids2, id_paths2, dups2, added) = sidecar_step(
                strs_view(old(ids)@), strs_view(old(id_paths)@), strs_view(old(dups)@),
                path@, sp@, *sc, has_plugins, strs_view(known_kinds@));
            &&& strs_view(final(ids)@) == ids2
            &&& strs_view(final(id_paths)@) == id_paths2
            &&& strs_view(final(dups)@) == dups2
            &&& diags_view(final(diagnostics)@) == diags_view(old(diagnostics)@) + added
        }),
{
    proof {
        reveal_strlit("duplicate-id");
        reveal_strlit("id ");
        reveal_strlit(" is already used by ");
        reveal_strlit("unknown-kind");
        reveal_strlit("unknown resource kind: ");
    }
    let ghost d0 = diags_view(diagnostics@);
    let supported: [u32; 3] = [1, 2, 3];
    crate::diagnostic::validate_schema_version(sc.schema_version, 1, &supported, sp.as_str(), diagnostics);
    proof {
        assert(supported@ =~= seq![1u32, 2u32, 3u32]);
        let v = sidecar_version(*sc);
        assert(supported@.contains(v) <==> (1 <= v <= 3)) by {
            if 1 <= v <= 3 {
                if v == 1 { assert(supported@[0] == v); }
                if v == 2 { assert(supported@[1] == v); }
                if v == 3 { assert(supported@[2] == v); }
            }
        }
    }
    validate_sidecar_definition(sc, sp.as_str(), diagnostics);
    let ghost d1 = diags_view(diagnostics@);
    assert(d1 =~= d0 + loaded_sidecar_checks(*sc, sp@));
    if let Some(id) = &sc.id {
        match find_id(ids, id.as_str()) {
            Some(k2) => {
                dups.push(id.clone());
                let mut m = cat("id ", id.as_str());
                m.append(" is already used by ");
                m.append(id_paths[k2].as_str());
                assert(strs_view(id_paths@)[k2 as int] == id_paths@[k2 as int]@);
                push_diag(diagnostics, crate::model::diagnostic("duplicate-id", Some(sp.clone()), m));
            },
            None => {
                ids.push(id.clone());
                id_paths.push(own(path));
            },
        }
    }
    if let Some(kind) = &sc.kind {
        if has_plugins && !vec_contains(known_kinds, kind.as_str()) {
            push_diag(diagnostics, crate::model::diagnostic("unknown-kind", Some(sp.clone()), cat("unknown resource kind: ", kind.as_str())));
        }
    }
}

/// Builds the resource at `path` with the fields of its sidecar, checks the
/// sidecar and records its id.
fn load_one(
    path: &str,
    sidecar_targets: &Vec<String>,
    suffix: &str,
    reads: &Vec<SidecarRead>,
    has_plugins: bool,
    known_kinds: &Vec<String>,
    ids: &mut Vec<String>,
    id_paths: &mut Vec<String>,
    dups: &mut Vec<String>,
    diagnostics: &mut Vec<Diagnostic>,
) -> (r: (crate::model::Resource, Option<usize>))
    requires
        old(ids).len() == old(id_paths).len(),
    ensures
        final(ids).len() == final(id_paths).len(),
        ({
            let (ids2, id_paths2, dups2, added) = load_step(
                strs_view(old(ids)@), strs_view(old(id_paths)@), strs_view(old(dups)@),
                path@, strs_view(sidecar_targets@), suffix@, reads@, has_plugins, strs_view(known_kinds@));
            &&& strs_view(final(ids)@) == ids2
            &&& strs_view(final(id_paths)@) == id_paths2
            &&& strs_view(final(dups)@) == dups2
            &&& diags_view(final(diagnostics)@) == diags_view(old(diagnostics)@) + added
        }),
        resource_head(r.0) == expected_head(path@, strs_view(sidecar_targets@), suffix@, reads@),
        r.0.links@.len() == 0,
        read_slot_ok(r.1, path@, strs_view(sidecar_targets@), suffix@, reads@),
{
    proof {
        reveal_strlit("{}");
        reveal_strlit("schema-error");
        reveal_strlit("failed to read sidecar ");
    }
    let has_sidecar = vec_contains(sidecar_targets, path);
    let mut resource = crate::model::Resource {
        path: own(path),
        id: None,
        kind: None,
        sidecar: None,
        metadata_json: own("{}"),
        links: Vec::new(),
    };
    let mut slot: Option<usize> = None;
    if has_sidecar {
        let sp = cat(path, suffix);
        resource.sidecar = Some(sp.clone());
        match find_read(reads, sp.as_str()) {
            Some(k) => {
                match &reads[k].outcome {
                    Ok(sc) => {
                        slot = Some(k);
                        check_loaded_sidecar(sc, path, &sp, has_plugins, known_kinds, ids, id_paths, dups, diagnostics);
                        resource.id = crate::model::copy_opt(&sc.id);
                        resource.kind = crate::model::copy_opt(&sc.kind);
                        if let Some(j) = &sc.metadata_json {
                            resource.metadata_json = j.clone();
                        }
                    },
                    Err(m) => {
                        push_diag(diagnostics, crate::model::diagnostic("schema-error", Some(sp.clone()), m.clone()));
                    },
                }
            },
            None => {
                push_diag(diagnostics, crate::model::diagnostic("schema-error", Some(sp.clone()), cat("failed to read sidecar ", sp.as_str())));
            },
        }
    }
    (resource, slot)
}

/// Loads the sidecar of each resource in `resource_paths` (in order): checks
/// its version and shape, records ids (reporting duplicates) and reports
/// kinds that no loaded plugin declares.
pub fn load_resources(
    resource_paths: &Vec<String>,
    sidecar_targets: &Vec<String>,
    suffix: &str,
    reads: &Vec<SidecarRead>,
    has_plugins: bool,
    known_kinds: &Vec<String>,
    diagnostics: &mut Vec<Diagnostic>,
) -> (r: LoadedResources)
    ensures
        ({
            let (ids, id_paths, dups, ds) = load_spec(strs_view(resource_paths@), strs_view(sidecar_targets@), suffix@, reads@, has_plugins, strs_view(known_kinds@));
            &&& strs_view(r.ids@) == ids
            &&& strs_view(r.id_paths@) == id_paths
            &&& strs_view(r.duplicate_ids@) == dups
            &&& diags_view(final(diagnostics)@) == diags_view(old(diagnostics)@) + ds
        }),
        r.resources.len() == resource_paths.len(),
        r.read_index.len() == resource_paths.len(),
        r.ids.len() == r.id_paths.len(),
        forall|i: int| 0 <= i < resource_paths.len() ==> resource_head(#[trigger] r.resources@[i]) == expected_head(resource_paths@[i]@, strs_view(sidecar_targets@), suffix@, reads@),
        forall|i: int| 0 <= i < resource_paths.len() ==> (#[trigger] r.resources@[i]).links@.len() == 0,
        forall|i: int| 0 <= i < resource_paths.len() ==> read_slot_ok(#[trigger] r.read_index@[i], resource_paths@[i]@, strs_view(sidecar_targets@), suffix@, reads@),
{
    let ghost start = diags_view(diagnostics@);
    let ghost pv = strs_view(resource_paths@);
    let ghost tv = strs_view(sidecar_targets@);
    let ghost kv = strs_view(known_kinds@);
    let mut resources: Vec<crate::model::Resource> = Vec::new();
    let mut read_index: Vec<Option<usize>> = Vec::new();
    let mut ids: Vec<String> = Vec::new();
    let mut id_paths: Vec<String> = Vec::new();
    let mut dups: Vec<String> = Vec::new();
    let mut i: usize = 0;
    assert(strs_view(ids@) =~= seq![]);
    assert(strs_view(dups@) =~= seq![]);
    assert(diags_view(diagnostics@) =~= start + seq![]);
    while i < resource_paths.len()
        invariant
            i <= resource_paths.len(),
            pv == strs_view(resource_paths@),
            tv == strs_view(sidecar_targets@),
            kv == strs_view(known_kinds@),
            ids.len() == id_paths.len(),
            ({
                let (sids, sid_paths, sdups, ds) = load_spec(pv.take(i as int), tv, suffix@, reads@, has_plugins, kv);
                &&& strs_view(ids@) == sids
                &&& strs_view(id_paths@) == sid_paths
                &&& strs_view(dups@) == sdups
                &&& diags_view(diagnostics@) == start + ds
            }),
            resources.len() == i,
            read_index.len() == i,
            forall|j: int| 0 <= j < i ==> resource_head(#[trigger] resources@[j]) == expected_head(resource_paths@[j]@, tv, suffix@, reads@),
            forall|j: int| 0 <= j < i ==> (#[trigger] resources@[j]).links@.len() == 0,
            forall|j: int| 0 <= j < i ==> read_slot_ok(#[trigger] read_index@[j], resource_paths@[j]@, tv, suffix@, reads@),
        decreases resource_paths.len() - i,
    {
        assert(pv.take(i + 1).drop_last() =~= pv.take(i as int));
        assert(pv.take(i + 1).last() == resource_paths@[i as int]@);
        let ghost before = diags_view(diagnostics@);
        let (resource, slot) = load_one(resource_paths[i].as_str(), sidecar_targets, suffix, reads, has_plugins, known_kinds, &mut ids, &mut id_paths, &mut dups, diagnostics);
        proof {
            let (a, b, c, ds) = load_spec(pv.take(i as int), tv, suffix@, reads@, has_plugins, kv);
            let (a2, b2, c2, added) = load_step(a, b, c, resource_paths@[i as int]@, tv, suffix@, reads@, has_plugins, kv);
            assert(before == start + ds);
            assert(diags_view(diagnostics@) =~= start + (ds + added));
        }
        resources.push(resource);
        read_index.push(slot);
        i += 1;
    }
    assert(pv.take(resource_paths.len() as int) =~= pv);
    LoadedResources { resources, read_index, ids, id_paths, duplicate_ids: dups }
}

} // verus!
