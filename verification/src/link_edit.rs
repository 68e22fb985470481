//! Link edits of an existing sidecar: the checks that decide whether an edit
//! is allowed and the new sidecar text.
use vstd::prelude::*;

use crate::generate::GenerateLink;
use crate::locator::{locator_spec, parse_locator};
use crate::model::{diags_view, opt_view, strs_view, AcknowledgedRevisions, Diagnostic, Link, Locator, Sidecar};
use crate::text::{all_ws, cat, own};

verus! {

/// The source resource of a link edit (an `id:` locator) and whether to
/// leave the sidecar unwritten.
pub struct LinkEditOptions {
    pub source: String,
    pub dry_run: bool,
}

/// `link add`.
pub struct AddLinkOptions {
    pub common: LinkEditOptions,
    pub link: GenerateLink,
    pub reason: Option<String>,
    pub path_hint: bool,
    pub order: Option<i64>,
}

/// `link remove`.
pub struct RemoveLinkOptions {
    pub common: LinkEditOptions,
    pub link: GenerateLink,
}

/// `link update`.
pub struct UpdateLinkOptions {
    pub common: LinkEditOptions,
    pub current: GenerateLink,
    pub new_link: Option<GenerateLink>,
    pub path_hint: bool,
    pub clear_path_hint: bool,
    pub reason: Option<String>,
    pub clear_reason: bool,
    pub order: Option<i64>,
    pub clear_order: bool,
}

/// `link acknowledge`.
pub struct AcknowledgeLinkOptions {
    pub common: LinkEditOptions,
    pub link: GenerateLink,
}

/// What a link edit checks against: the source resource and its sidecar, the
/// relations the plugins declare, and the resource path of each id.
pub struct EditContext {
    pub source_path: String,
    pub sidecar_path: String,
    pub known_relations: Vec<String>,
    pub ids: Vec<String>,
    pub id_paths: Vec<String>,
}

/// The path recorded for `id` (the last entry for it).
pub open spec fn id_target(ids: Seq<Seq<char>>, paths: Seq<Seq<char>>, id: Seq<char>) -> Option<Seq<char>>
    decreases ids.len(),
{
    if ids.len() == 0 {
        None
    } else if ids.last() == id {
        Some(paths[ids.len() - 1])
    } else {
        id_target(ids.drop_last(), paths, id)
    }
}

/// The check of a link reason.
pub open spec fn reason_check(reason: Option<Seq<char>>) -> Result<(), Seq<char>> {
    match reason {
        Some(r) => if all_ws(r) { Err("link reason must not be empty or whitespace"@) } else { Ok(()) },
        None => Ok(()),
    }
}

/// The resource path a link edit's target names, or why the link is refused:
/// a blank reason or relation, an undeclared relation, a target that is not
/// an `id:` locator, or an unknown id.
pub open spec fn validate_link_spec(relations: Seq<Seq<char>>, ids: Seq<Seq<char>>, id_paths: Seq<Seq<char>>, link: Link) -> Result<Seq<char>, Seq<char>> {
    match reason_check(opt_view(link.reason)) {
        Err(m) => Err(m),
        Ok(()) => if all_ws(link.rel@) {
            Err("link relation must not be empty"@)
        } else if relations.len() > 0 && !relations.contains(link.rel@) {
            Err("unknown relation "@ + link.rel@)
        } else {
            match locator_spec(link.to@) {
                Err(m) => Err(m),
                Ok((true, id)) => match id_target(ids, id_paths, id) {
                    Some(p) => Ok(p),
                    None => Err("unresolved id locator: "@ + link.to@),
                },
                Ok((false, _)) => Err("link target must use an id: locator"@),
            }
        },
    }
}

/// The positions of the links with relation `rel` and target `to`.
pub open spec fn matching_indices(links: Seq<Link>, rel: Seq<char>, to: Seq<char>) -> Seq<int>
    decreases links.len(),
{
    if links.len() == 0 {
        seq![]
    } else {
        let rest = matching_indices(links.drop_last(), rel, to);
        if links.last().rel@ == rel && links.last().to@ == to {
            rest.push(links.len() - 1)
        } else {
            rest
        }
    }
}

/// The position of the one link with relation `rel` and target `to`.
pub open spec fn unique_index_spec(links: Seq<Link>, rel: Seq<char>, to: Seq<char>) -> Result<int, Seq<char>> {
    let m = matching_indices(links, rel, to);
    if m.len() == 1 {
        Ok(m[0])
    } else if m.len() == 0 {
        Err("link not found: "@ + rel + ":"@ + to)
    } else {
        Err("link match is ambiguous: "@ + rel + ":"@ + to)
    }
}

} // verus!

verus! {

/// Refuses a blank link reason.
pub fn validate_link_reason(reason: Option<&str>) -> (r: Result<(), String>)
    ensures
        match reason_check(match reason { Some(x) => Some(x@), None => None }) {
            Ok(()) => r is Ok,
            Err(m) => r matches Err(e) && e@ == m,
        },
{
    match reason {
        Some(x) => {
            if crate::text::is_blank(x) {
                Err(own("link reason must not be empty or whitespace"))
            } else {
                Ok(())
            }
        },
        None => Ok(()),
    }
}

/// The path recorded for `id`.
fn lookup_id(ids: &Vec<String>, paths: &Vec<String>, id: &str) -> (r: Option<String>)
    requires
        ids.len() == paths.len(),
    ensures
        opt_view(r) == id_target(strs_view(ids@), strs_view(paths@), id@),
{
    let ghost iv = strs_view(ids@);
    let ghost pv = strs_view(paths@);
    let mut k = ids.len();
    assert(iv.take(k as int) =~= iv);
    while k > 0
        invariant
            k <= ids.len(),
            ids.len() == paths.len(),
            iv == strs_view(ids@),
            pv == strs_view(paths@),
            id_target(iv, pv, id@) == id_target(iv.take(k as int), pv, id@),
        decreases k,
    {
        assert(iv.take(k as int).drop_last() =~= iv.take(k - 1));
        assert(iv.take(k as int).last() == ids@[k - 1]@);
        if crate::text::text_eq(ids[k - 1].as_str(), id) {
            assert(pv[k - 1] == paths@[k - 1]@);
            return Some(paths[k - 1].clone());
        }
        k -= 1;
    }
    None
}

/// The resource path a link edit's target names.
pub fn validate_link(context: &EditContext, link: &Link) -> (r: Result<String, String>)
    requires
        context.ids.len() == context.id_paths.len(),
    ensures
        crate::util::result_view(r) == validate_link_spec(strs_view(context.known_relations@), strs_view(context.ids@), strs_view(context.id_paths@), *link),
{
    let reason: Option<&str> = match &link.reason {
        Some(x) => Some(x.as_str()),
        None => None,
    };
    match validate_link_reason(reason) {
        Err(m) => return Err(m),
        Ok(()) => {},
    }
    if crate::text::is_blank(link.rel.as_str()) {
        return Err(own("link relation must not be empty"));
    }
    if context.known_relations.len() > 0 && !crate::model::vec_contains(&context.known_relations, link.rel.as_str()) {
        return Err(cat("unknown relation ", link.rel.as_str()));
    }
    match parse_locator(link.to.as_str()) {
        Err(m) => Err(m),
        Ok(Locator::Id(id)) => match lookup_id(&context.ids, &context.id_paths, id.as_str()) {
            Some(p) => Ok(p),
            None => Err(cat("unresolved id locator: ", link.to.as_str())),
        },
        Ok(Locator::Path(_)) => Err(own("link target must use an id: locator")),
    }
}

/// Whether `link` has relation `rel` and target `to`.
pub fn same_link_target(link: &Link, rel: &str, to: &str) -> (r: bool)
    ensures
        r == (link.rel@ == rel@ && link.to@ == to@),
{
    crate::text::text_eq(link.rel.as_str(), rel) && crate::text::text_eq(link.to.as_str(), to)
}

/// The position of the one link with relation `rel` and target `to`.
pub fn unique_link_index(links: &Vec<Link>, rel: &str, to: &str) -> (r: Result<usize, String>)
    ensures
        match unique_index_spec(links@, rel@, to@) {
            Ok(i) => r == Ok::<usize, String>(i as usize) && 0 <= i < links.len(),
            Err(m) => r matches Err(e) && e@ == m,
        },
{
    proof { reveal_strlit(":"); }
    let mut found: Vec<usize> = Vec::new();
    let mut i: usize = 0;
    while i < links.len()
        invariant
            i <= links.len(),
            found@.map_values(|x: usize| x as int) == matching_indices(links@.take(i as int), rel@, to@),
            forall|q: int| 0 <= q < found.len() ==> #[trigger] found@[q] < i,
        decreases links.len() - i,
    {
        assert(links@.take(i + 1).drop_last() =~= links@.take(i as int));
        if same_link_target(&links[i], rel, to) {
            let ghost prev = found@;
            found.push(i);
            assert(found@.map_values(|x: usize| x as int) =~= prev.map_values(|x: usize| x as int).push(i as int));
        }
        i += 1;
    }
    assert(links@.take(links.len() as int) =~= links@);
    if found.len() == 1 {
        assert(found@.map_values(|x: usize| x as int)[0] == found@[0] as int);
        Ok(found[0])
    } else if found.len() == 0 {
        let mut m = cat("link not found: ", rel);
        m.append(":");
        m.append(to);
        Err(m)
    } else {
        let mut m = cat("link match is ambiguous: ", rel);
        m.append(":");
        m.append(to);
        Err(m)
    }
}

// ---------------------------------------------------------------------------
// Which graph diagnostics block an edit
// ---------------------------------------------------------------------------

/// Codes that a link edit can repair, so they do not block it.
pub open spec fn repairable_code(code: Seq<char>) -> bool {
    code == "path-hint-mismatch"@ || code == "missing-required-relation"@ || code == "unknown-relation"@
        || code == "unresolved-id"@ || code == "missing-path"@ || code == "missing-sidecar"@
}

/// An acknowledgement-shape error on the sidecar being repaired.
pub open spec fn repairable_ack_shape(d: crate::model::DiagView, sidecar: Option<Seq<char>>) -> bool {
    d.0 == "schema-error"@ && d.1 == sidecar
        && (d.2 == "link.acknowledged.linkRevision is required in sidecar schemaVersion 3"@
            || d.2 == "link.acknowledged.linkRevision requires sidecar schemaVersion 3"@)
}

/// The diagnostics that block a link edit, in order.
pub open spec fn blocking_spec(ds: Seq<crate::model::DiagView>, sidecar: Option<Seq<char>>) -> Seq<crate::model::DiagView>
    decreases ds.len(),
{
    if ds.len() == 0 {
        seq![]
    } else {
        let rest = blocking_spec(ds.drop_last(), sidecar);
        let d = ds.last();
        if !repairable_code(d.0) && !repairable_ack_shape(d, sidecar) {
            rest.push(d)
        } else {
            rest
        }
    }
}

/// Whether a diagnostic code is one that a link edit can repair.
fn is_repairable_code(code: &str) -> (r: bool)
    ensures
        r == repairable_code(code@),
{
    crate::text::text_eq(code, "path-hint-mismatch") || crate::text::text_eq(code, "missing-required-relation")
        || crate::text::text_eq(code, "unknown-relation") || crate::text::text_eq(code, "unresolved-id")
        || crate::text::text_eq(code, "missing-path") || crate::text::text_eq(code, "missing-sidecar")
}

/// The diagnostics that block a link edit: all but repairable codes and,
/// for an acknowledgement repair, the acknowledgement-shape errors of that
/// sidecar.
pub fn link_edit_blocking_diagnostics(diagnostics: &Vec<Diagnostic>, repair_sidecar: Option<&str>) -> (r: Vec<Diagnostic>)
    ensures
        diags_view(r@) == blocking_spec(diags_view(diagnostics@), match repair_sidecar { Some(s) => Some(s@), None => None }),
{
    let ghost sv: Option<Seq<char>> = match repair_sidecar { Some(s) => Some(s@), None => None };
    let ghost dv = diags_view(diagnostics@);
    let mut out: Vec<Diagnostic> = Vec::new();
    let mut i: usize = 0;
    while i < diagnostics.len()
        invariant
            i <= diagnostics.len(),
            dv == diags_view(diagnostics@),
            sv == match repair_sidecar { Some(s) => Some(s@), None => None::<Seq<char>> },
            diags_view(out@) == blocking_spec(dv.take(i as int), sv),
        decreases diagnostics.len() - i,
    {
        assert(dv.take(i + 1).drop_last() =~= dv.take(i as int));
        assert(dv.take(i + 1).last() == crate::model::diag_view(diagnostics@[i as int]));
        let d = &diagnostics[i];
        let shape = crate::text::text_eq(d.code.as_str(), "schema-error")
            && match (&d.path, repair_sidecar) {
                (Some(p), Some(s)) => crate::text::text_eq(p.as_str(), s),
                (None, None) => true,
                _ => false,
            }
            && (crate::text::text_eq(d.message.as_str(), "link.acknowledged.linkRevision is required in sidecar schemaVersion 3")
                || crate::text::text_eq(d.message.as_str(), "link.acknowledged.linkRevision requires sidecar schemaVersion 3"));
        if !is_repairable_code(d.code.as_str()) && !shape {
            crate::model::push_diag(&mut out, d.duplicate());
        }
        i += 1;
    }
    assert(dv.take(diagnostics.len() as int) =~= dv);
    out
}

/// The links whose acknowledgement does not fit the sidecar version: a
/// version 3 acknowledgement without `linkRevision`, or a version 2 one
/// with it.
pub open spec fn ack_mismatch(l: Link, version: u32) -> bool {
    match l.acknowledged {
        Some(a) => (version == 3 && a.link_revision is None) || (version == 2 && a.link_revision is Some),
        None => false,
    }
}

/// The positions of the mismatched acknowledgements.
pub open spec fn mismatch_indices(links: Seq<Link>, version: u32) -> Seq<int>
    decreases links.len(),
{
    if links.len() == 0 {
        seq![]
    } else {
        let rest = mismatch_indices(links.drop_last(), version);
        if ack_mismatch(links.last(), version) { rest.push(links.len() - 1) } else { rest }
    }
}

/// Whether the only mismatched acknowledgement is that of the selected link.
pub open spec fn repair_limited_spec(sidecar: Sidecar, selected: GenerateLink) -> bool {
    let v = crate::graph::sidecar_version(sidecar);
    let m = mismatch_indices(sidecar.links@, v);
    m.len() == 1 && sidecar.links@[m[0]].rel@ == selected.rel@ && sidecar.links@[m[0]].to@ == selected.to@
}

/// Whether acknowledging `selected` would repair the only acknowledgement
/// whose shape does not fit the sidecar version.
pub fn acknowledgement_shape_repair_is_limited_to_selected_link(sidecar: &Sidecar, selected: &GenerateLink) -> (r: bool)
    ensures
        r == repair_limited_spec(*sidecar, *selected),
{
    let v = match sidecar.schema_version { Some(v) => v, None => 1u32 };
    let mut found: Vec<usize> = Vec::new();
    let mut i: usize = 0;
    while i < sidecar.links.len()
        invariant
            i <= sidecar.links.len(),
            v == crate::graph::sidecar_version(*sidecar),
            found@.map_values(|x: usize| x as int) == mismatch_indices(sidecar.links@.take(i as int), v),
            forall|q: int| 0 <= q < found.len() ==> #[trigger] found@[q] < i,
        decreases sidecar.links.len() - i,
    {
        assert(sidecar.links@.take(i + 1).drop_last() =~= sidecar.links@.take(i as int));
        let l = &sidecar.links[i];
        let mismatch = match &l.acknowledged {
            Some(a) => (v == 3 && a.link_revision.is_none()) || (v == 2 && a.link_revision.is_some()),
            None => false,
        };
        if mismatch {
            let ghost prev = found@;
            found.push(i);
            assert(found@.map_values(|x: usize| x as int) =~= prev.map_values(|x: usize| x as int).push(i as int));
        }
        i += 1;
    }
    assert(sidecar.links@.take(sidecar.links.len() as int) =~= sidecar.links@);
    if found.len() != 1 {
        return false;
    }
    assert(found@.map_values(|x: usize| x as int)[0] == found@[0] as int);
    let l = &sidecar.links[found[0]];
    same_link_target(l, selected.rel.as_str(), selected.to.as_str())
}

} // verus!

verus! {

// ---------------------------------------------------------------------------
// Migration to sidecar schema version 3
// ---------------------------------------------------------------------------

/// A link whose acknowledgement lacks the link revision that version 3
/// requires.
pub open spec fn needs_link_revision(l: Link) -> bool {
    l.acknowledged matches Some(a) && a.link_revision is None
}

/// The revision of a link's reviewed relation, target and reason.
pub open spec fn link_revision_of(l: Link) -> Seq<char> {
    crate::freshness::fingerprint_text(crate::freshness::link_payload(l.rel@, l.to@, opt_view(l.reason)))
}

/// The text after writing the link revision into each acknowledgement among
/// the first `k` links that needs one, except that of the deferred link.
pub open spec fn migrate_text_upto(text: Seq<char>, links: Seq<Link>, deferred: Option<int>, k: int) -> Result<Seq<char>, Seq<char>>
    decreases k,
{
    if k <= 0 {
        Ok(text)
    } else {
        match migrate_text_upto(text, links, deferred, k - 1) {
            Err(m) => Err(m),
            Ok(t) => {
                let l = links[k - 1];
                if needs_link_revision(l) && deferred != Some(k - 1) {
                    let a = l.acknowledged->0;
                    crate::link_doc::migration_spec(t, k - 1, a.source_revision@, a.target_revision@, link_revision_of(l))
                } else {
                    Ok(t)
                }
            },
        }
    }
}

/// Once the migrated text is an error, it stays that error.
proof fn lemma_migrate_err_stays(text: Seq<char>, links: Seq<Link>, deferred: Option<int>, k: int, n: int)
    requires
        0 <= k <= n,
        migrate_text_upto(text, links, deferred, k) is Err,
    ensures
        migrate_text_upto(text, links, deferred, n) == migrate_text_upto(text, links, deferred, k),
    decreases n - k,
{
    if k < n {
        lemma_migrate_err_stays(text, links, deferred, k, n - 1);
    }
}

/// `new` is `old` with the link revision recorded in its acknowledgement
/// when it needed one, and `old` itself otherwise.
pub open spec fn migrated_link(old: Link, new: Link) -> bool {
    if needs_link_revision(old) {
        &&& new.rel == old.rel && new.to == old.to && new.reason == old.reason
        &&& new.path_hint == old.path_hint && new.order == old.order
        &&& new.acknowledged is Some
        &&& new.acknowledged->0.source_revision == old.acknowledged->0.source_revision
        &&& new.acknowledged->0.target_revision == old.acknowledged->0.target_revision
        &&& new.acknowledged->0.link_revision is Some
        &&& new.acknowledged->0.link_revision->0@ == link_revision_of(old)
    } else {
        new == old
    }
}

/// The link with its link revision recorded.
fn with_link_revision(l: &Link) -> (r: Link)
    requires
        needs_link_revision(*l),
    ensures
        migrated_link(*l, r),
{
    let reason: Option<&str> = match &l.reason {
        Some(x) => Some(x.as_str()),
        None => None,
    };
    let lr = crate::freshness::fingerprint_link_revision(l.rel.as_str(), l.to.as_str(), reason);
    let a = match &l.acknowledged {
        Some(a) => a,
        None => { return l.duplicate(); },
    };
    let mut n = l.duplicate();
    n.acknowledged = Some(AcknowledgedRevisions {
        source_revision: a.source_revision.clone(),
        target_revision: a.target_revision.clone(),
        link_revision: Some(lr),
    });
    n
}

/// Raises a sidecar below schema version 3 to it: each acknowledgement
/// without a link revision gets one, in the text too except for the
/// deferred link (which the caller rewrites itself), and `schemaVersion`
/// becomes 3. A sidecar already at version 3 or above is left as it is.
#[verifier::rlimit(30)]
pub fn migrate_sidecar_to_v3(text: &str, sidecar: &mut Sidecar, deferred: Option<usize>) -> (r: Result<String, String>)
    ensures
        crate::graph::sidecar_version(*old(sidecar)) >= 3 ==> (r matches Ok(s) && s@ == text@ && *final(sidecar) == *old(sidecar)),
        crate::graph::sidecar_version(*old(sidecar)) < 3 ==> match migrate_text_upto(text@, old(sidecar).links@, match deferred { Some(d) => Some(d as int), None => None }, old(sidecar).links.len() as int) {
            Err(m) => r matches Err(e) && e@ == m,
            Ok(t) => r is Ok && r->Ok_0@ == crate::link_doc::set_version_spec(t, 3)
                && final(sidecar).schema_version == Some(3u32)
                && final(sidecar).id == old(sidecar).id && final(sidecar).kind == old(sidecar).kind
                && final(sidecar).metadata_json == old(sidecar).metadata_json
                && final(sidecar).links.len() == old(sidecar).links.len()
                && forall|j: int| 0 <= j < old(sidecar).links.len() ==> migrated_link(#[trigger] old(sidecar).links@[j], final(sidecar).links@[j]),
        },
{
    let v = match sidecar.schema_version { Some(v) => v, None => 1u32 };
    if v >= 3 {
        return Ok(crate::text::own(text));
    }
    let ghost orig = sidecar.links@;
    let ghost dv: Option<int> = match deferred { Some(d) => Some(d as int), None => None };
    let mut cur = crate::text::own(text);
    let mut i: usize = 0;
    while i < sidecar.links.len()
        invariant
            i <= sidecar.links.len(),
            sidecar.links.len() == orig.len(),
            orig == old(sidecar).links@,
            crate::graph::sidecar_version(*old(sidecar)) < 3,
            sidecar.schema_version == old(sidecar).schema_version,
            sidecar.id == old(sidecar).id && sidecar.kind == old(sidecar).kind,
            sidecar.metadata_json == old(sidecar).metadata_json,
            dv == match deferred { Some(d) => Some(d as int), None => None::<int> },
            forall|j: int| 0 <= j < i ==> migrated_link(#[trigger] orig[j], sidecar.links@[j]),
            forall|j: int| i <= j < orig.len() ==> #[trigger] sidecar.links@[j] == orig[j],
            migrate_text_upto(text@, orig, dv, i as int) == Ok::<Seq<char>, Seq<char>>(cur@),
        decreases orig.len() - i,
    {
        let needs = match &sidecar.links[i].acknowledged {
            Some(a) => a.link_revision.is_none(),
            None => false,
        };
        if needs {
            let n = with_link_revision(&sidecar.links[i]);
            let defer = match deferred { Some(d) => d == i, None => false };
            if !defer {
                if let Some(a) = &n.acknowledged {
                    match crate::link_doc::apply_link_revision_migration(cur.as_str(), i, a) {
                        Ok(t) => { cur = t; },
                        Err(m) => {
                            proof { lemma_migrate_err_stays(text@, orig, dv, i + 1, orig.len() as int); }
                            return Err(m);
                        },
                    }
                }
            }
            sidecar.links.set(i, n);
        }
        i += 1;
    }
    sidecar.schema_version = Some(3u32);
    Ok(crate::link_doc::set_schema_version(cur.as_str(), 3))
}

} // verus!

verus! {

// ---------------------------------------------------------------------------
// The edit context
// ---------------------------------------------------------------------------

/// Where a link edit applies: the source resource's path and its sidecar.
pub struct EditSource {
    pub source_path: String,
    pub sidecar_path: String,
}

/// What inspecting a sidecar path showed.
pub enum SidecarCheck {
    /// A file that is not a link.
    Plain,
    /// A symlink or reparse point.
    Symlink,
    /// Inspecting the path failed with this error text.
    Failed(String),
}

/// The id a link edit's source locator names.
pub open spec fn source_id_spec(source: Seq<char>) -> Result<Seq<char>, Seq<char>> {
    match locator_spec(source) {
        Err(m) => Err(m),
        Ok((true, id)) => Ok(id),
        Ok((false, _)) => Err("link edit source must use an id: locator"@),
    }
}

/// The id a link edit's source locator names; a `path:` locator is refused.
pub fn edit_source_id(source: &str) -> (r: Result<String, String>)
    ensures
        crate::util::result_view(r) == source_id_spec(source@),
{
    match parse_locator(source) {
        Err(m) => Err(m),
        Ok(Locator::Id(id)) => Ok(id),
        Ok(Locator::Path(_)) => Err(own("link edit source must use an id: locator")),
    }
}

/// The first resource from `k` on with id `id`.
pub open spec fn first_with_id(rs: Seq<crate::model::Resource>, id: Seq<char>, k: int) -> Option<int>
    decreases rs.len() - k,
{
    if k < 0 || k >= rs.len() {
        None
    } else if opt_view(rs[k].id) == Some(id) {
        Some(k)
    } else {
        first_with_id(rs, id, k + 1)
    }
}

/// The path and sidecar of the first resource with id `id`, or why there is
/// none.
pub open spec fn locate_spec(rs: Seq<crate::model::Resource>, id: Seq<char>) -> Result<(Seq<char>, Seq<char>), Seq<char>> {
    match first_with_id(rs, id, 0) {
        None => Err("source id is not attached to a discovered resource: "@ + id),
        Some(k) => match rs[k].sidecar {
            None => Err("source id has no sidecar: "@ + id),
            Some(sp) => Ok((rs[k].path@, sp@)),
        },
    }
}

/// The resource a link edit's source id names and its sidecar.
pub fn locate_edit_source(resources: &Vec<crate::model::Resource>, id: &str) -> (r: Result<EditSource, String>)
    ensures
        match locate_spec(resources@, id@) {
            Ok((p, sp)) => r matches Ok(s) && s.source_path@ == p && s.sidecar_path@ == sp,
            Err(m) => r matches Err(e) && e@ == m,
        },
{
    let mut k: usize = 0;
    while k < resources.len()
        invariant
            k <= resources.len(),
            first_with_id(resources@, id@, 0) == first_with_id(resources@, id@, k as int),
        decreases resources.len() - k,
    {
        let r = &resources[k];
        let hit = match &r.id {
            Some(x) => crate::text::text_eq(x.as_str(), id),
            None => false,
        };
        if hit {
            return match &r.sidecar {
                None => Err(cat("source id has no sidecar: ", id)),
                Some(sp) => Ok(EditSource { source_path: r.path.clone(), sidecar_path: sp.clone() }),
            };
        }
        k += 1;
    }
    Err(cat("source id is not attached to a discovered resource: ", id))
}

/// Why a sidecar cannot be edited, from what inspecting it showed.
pub open spec fn sidecar_check_spec(sp: Seq<char>, check: SidecarCheck) -> Result<(), Seq<char>> {
    match check {
        SidecarCheck::Plain => Ok(()),
        SidecarCheck::Symlink => Err("sidecar must not be a symlink: "@ + sp),
        SidecarCheck::Failed(e) => Err("failed to inspect sidecar "@ + sp + ": "@ + e@),
    }
}

/// Refuses a sidecar that is a link or could not be inspected.
pub fn check_edit_sidecar(sidecar_path: &str, check: &SidecarCheck) -> (r: Result<(), String>)
    ensures
        match sidecar_check_spec(sidecar_path@, *check) {
            Ok(()) => r is Ok,
            Err(m) => r matches Err(e) && e@ == m,
        },
{
    match check {
        SidecarCheck::Plain => Ok(()),
        SidecarCheck::Symlink => Err(cat("sidecar must not be a symlink: ", sidecar_path)),
        SidecarCheck::Failed(e) => {
            let mut m = cat("failed to inspect sidecar ", sidecar_path);
            m.append(": ");
            m.append(e.as_str());
            Err(m)
        },
    }
}

/// The ids of the resources that have one, in order.
pub open spec fn resource_ids(rs: Seq<crate::model::Resource>) -> Seq<Seq<char>>
    decreases rs.len(),
{
    if rs.len() == 0 {
        seq![]
    } else {
        match rs.last().id {
            Some(i) => resource_ids(rs.drop_last()).push(i@),
            None => resource_ids(rs.drop_last()),
        }
    }
}

/// The paths of the resources that have an id, in order.
pub open spec fn resource_id_paths(rs: Seq<crate::model::Resource>) -> Seq<Seq<char>>
    decreases rs.len(),
{
    if rs.len() == 0 {
        seq![]
    } else {
        match rs.last().id {
            Some(_) => resource_id_paths(rs.drop_last()).push(rs.last().path@),
            None => resource_id_paths(rs.drop_last()),
        }
    }
}

/// The graph diagnostics that block an edit of the sidecar at `sp`; the
/// acknowledgement-shape errors of that sidecar do not when the edit repairs
/// them.
pub open spec fn edit_blocking(graph: crate::model::BuildResult, sp: Seq<char>, repair: bool) -> Seq<crate::model::DiagView> {
    blocking_spec(diags_view(graph.diagnostics@), if repair { Some(sp) } else { None })
}

impl EditContext {
    /// Each id has its path.
    pub open spec fn wf(&self) -> bool {
        self.ids.len() == self.id_paths.len()
    }
}

/// The context of a link edit of `source` in `graph`: refused with every
/// blocking diagnostic when there is one; `repair` says that the edit
/// repairs the sidecar's only misshapen acknowledgement.
pub fn edit_context(graph: &crate::model::BuildResult, source: EditSource, repair: bool) -> (r: Result<EditContext, String>)
    ensures
        edit_blocking(*graph, source.sidecar_path@, repair).len() > 0 ==> (r matches Err(e)
            && e@ == crate::diagnostic::diagnostics_text(edit_blocking(*graph, source.sidecar_path@, repair))),
        edit_blocking(*graph, source.sidecar_path@, repair).len() == 0 ==> (r matches Ok(c)
            && c.wf()
            && c.source_path == source.source_path && c.sidecar_path == source.sidecar_path
            && strs_view(c.known_relations@) == crate::assemble::all_relations(graph.plugins@)
            && strs_view(c.ids@) == resource_ids(graph.resources@)
            && strs_view(c.id_paths@) == resource_id_paths(graph.resources@)),
{
    let repair_sidecar: Option<&str> = if repair { Some(source.sidecar_path.as_str()) } else { None };
    let blocking = link_edit_blocking_diagnostics(&graph.diagnostics, repair_sidecar);
    if blocking.len() > 0 {
        return Err(crate::diagnostic::diagnostics_to_message(&blocking));
    }
    let known_relations = crate::assemble::collect_relations(&graph.plugins);
    let rs = &graph.resources;
    let mut ids: Vec<String> = Vec::new();
    let mut id_paths: Vec<String> = Vec::new();
    let mut k: usize = 0;
    while k < rs.len()
        invariant
            k <= rs.len(),
            ids.len() == id_paths.len(),
            strs_view(ids@) == resource_ids(rs@.take(k as int)),
            strs_view(id_paths@) == resource_id_paths(rs@.take(k as int)),
        decreases rs.len() - k,
    {
        assert(rs@.take(k + 1).drop_last() =~= rs@.take(k as int));
        if let Some(i) = &rs[k].id {
            let ghost (bi, bp) = (ids@, id_paths@);
            ids.push(i.clone());
            id_paths.push(rs[k].path.clone());
            assert(strs_view(ids@) =~= strs_view(bi).push(i@));
            assert(strs_view(id_paths@) =~= strs_view(bp).push(rs@[k as int].path@));
        }
        k += 1;
    }
    assert(rs@.take(rs.len() as int) =~= rs@);
    Ok(EditContext {
        source_path: source.source_path,
        sidecar_path: source.sidecar_path,
        known_relations,
        ids,
        id_paths,
    })
}

} // verus!

verus! {

// ---------------------------------------------------------------------------
// The edits
// ---------------------------------------------------------------------------

/// Why a `link update` request is refused before anything is read: it
/// changes nothing, or asks to set and clear the same field.
pub open spec fn update_options_spec(o: UpdateLinkOptions) -> Result<(), Seq<char>> {
    if o.new_link is None && !o.path_hint && !o.clear_path_hint && o.reason is None && !o.clear_reason
        && o.order is None && !o.clear_order {
        Err("update requires --new, --path-hint, --clear-path-hint, --reason, --clear-reason, --order, or --clear-order"@)
    } else if o.path_hint && o.clear_path_hint {
        Err("--path-hint and --clear-path-hint cannot be used together"@)
    } else if o.reason is Some && o.clear_reason {
        Err("--reason and --clear-reason cannot be used together"@)
    } else if o.order is Some && o.clear_order {
        Err("--order and --clear-order cannot be used together"@)
    } else {
        Ok(())
    }
}

/// Refuses a `link update` request that changes nothing or both sets and
/// clears a field.
pub fn check_update_options(options: &UpdateLinkOptions) -> (r: Result<(), String>)
    ensures
        match update_options_spec(*options) {
            Ok(()) => r is Ok,
            Err(m) => r matches Err(e) && e@ == m,
        },
{
    if options.new_link.is_none() && !options.path_hint && !options.clear_path_hint && options.reason.is_none()
        && !options.clear_reason && options.order.is_none() && !options.clear_order {
        return Err(own("update requires --new, --path-hint, --clear-path-hint, --reason, --clear-reason, --order, or --clear-order"));
    }
    if options.path_hint && options.clear_path_hint {
        return Err(own("--path-hint and --clear-path-hint cannot be used together"));
    }
    if options.reason.is_some() && options.clear_reason {
        return Err(own("--reason and --clear-reason cannot be used together"));
    }
    if options.order.is_some() && options.clear_order {
        return Err(own("--order and --clear-order cannot be used together"));
    }
    Ok(())
}

/// A sidecar's text and its parsed content.
pub struct LoadedSidecar {
    pub text: String,
    pub sidecar: Sidecar,
}

/// What checking `link` against the context gives.
pub open spec fn validate_in(ctx: EditContext, link: Link) -> Result<Seq<char>, Seq<char>> {
    validate_link_spec(strs_view(ctx.known_relations@), strs_view(ctx.ids@), strs_view(ctx.id_paths@), link)
}

/// The text after migration to schema version 3 (unchanged at version 3 or
/// above).
pub open spec fn migrate_spec(text: Seq<char>, sc: Sidecar, deferred: Option<int>) -> Result<Seq<char>, Seq<char>> {
    if crate::graph::sidecar_version(sc) >= 3 {
        Ok(text)
    } else {
        match migrate_text_upto(text, sc.links@, deferred, sc.links.len() as int) {
            Err(m) => Err(m),
            Ok(t) => Ok(crate::link_doc::set_version_spec(t, 3)),
        }
    }
}

/// `message` in the context of the sidecar at `sp`: `before`, the path,
/// `after`, then the message.
pub open spec fn in_sidecar(before: Seq<char>, sp: Seq<char>, after: Seq<char>, message: Seq<char>) -> Seq<char> {
    before + sp + after + message
}

/// `before`, the sidecar path, `after`, then `message`.
fn in_sidecar_exec(before: &str, sp: &str, after: &str, message: &str) -> (r: String)
    ensures
        r@ == in_sidecar(before@, sp@, after@, message@),
{
    let mut r = cat(before, sp);
    r.append(after);
    r.append(message);
    r
}

/// `rel:to`.
fn link_key(rel: &str, to: &str) -> (r: String)
    ensures
        r@ == rel@ + ":"@ + to@,
{
    let mut r = cat(rel, ":");
    r.append(to);
    r
}

/// Whether some link has relation `rel` and target `to`.
pub open spec fn has_target(links: Seq<Link>, rel: Seq<char>, to: Seq<char>) -> bool {
    exists|j: int| 0 <= j < links.len() && #[trigger] links[j].rel@ == rel && links[j].to@ == to
}

/// Whether a link other than the one at `index` has relation `rel` and
/// target `to`.
pub open spec fn has_other_target(links: Seq<Link>, index: int, rel: Seq<char>, to: Seq<char>) -> bool {
    exists|j: int| 0 <= j < links.len() && j != index && #[trigger] links[j].rel@ == rel && links[j].to@ == to
}

/// Whether a link other than the one at `skip` (none when `skip` is past the
/// end) has relation `rel` and target `to`.
fn find_other_target(links: &Vec<Link>, skip: usize, rel: &str, to: &str) -> (r: bool)
    ensures
        r == has_other_target(links@, skip as int, rel@, to@),
{
    let mut j: usize = 0;
    while j < links.len()
        invariant
            j <= links.len(),
            forall|q: int| 0 <= q < j && q != skip ==> !(#[trigger] links@[q].rel@ == rel@ && links@[q].to@ == to@),
        decreases links.len() - j,
    {
        if j != skip && same_link_target(&links[j], rel, to) {
            return true;
        }
        j += 1;
    }
    false
}

/// The link that `link add` declares, before its path hint is known.
pub open spec fn add_candidate(o: AddLinkOptions) -> Link {
    Link { rel: o.link.rel, to: o.link.to, reason: o.reason, path_hint: None, order: o.order, acknowledged: None }
}

/// The new text of the sidecar after `link add`, or why the edit is refused.
pub open spec fn add_plan_spec(ctx: EditContext, o: AddLinkOptions, loaded: Result<LoadedSidecar, String>) -> Result<Seq<char>, Seq<char>> {
    let sp = ctx.sidecar_path@;
    match validate_in(ctx, add_candidate(o)) {
        Err(m) => Err(m),
        Ok(target) => match loaded {
            Err(e) => Err(e@),
            Ok(ld) => if has_target(ld.sidecar.links@, o.link.rel@, o.link.to@) {
                Err(in_sidecar("link already exists in "@, sp, ": "@, o.link.rel@ + ":"@ + o.link.to@))
            } else {
                let migrated = if o.reason is Some {
                    match migrate_spec(ld.text@, ld.sidecar, None) {
                        Err(m) => Err(in_sidecar("failed to migrate "@, sp, " to schemaVersion 3: "@, m)),
                        Ok(t) => Ok(t),
                    }
                } else {
                    Ok(ld.text@)
                };
                match migrated {
                    Err(m) => Err(m),
                    Ok(t) => {
                        let view = (o.link.rel@, o.link.to@, if o.path_hint { Some(target) } else { None }, opt_view(o.reason), o.order, None);
                        match crate::link_doc::add_spec(t, view) {
                            Err(m) => Err(in_sidecar("failed to update links in "@, sp, ": "@, m)),
                            Ok(u) => Ok(u),
                        }
                    },
                }
            },
        },
    }
}

/// Migrates `text` to schema version 3 when needed, or refuses with the
/// migration error in the sidecar's context; gives back the sidecar as
/// migrated.
fn migrate_for_edit(ctx: &EditContext, text: &str, sidecar: Sidecar, deferred: Option<usize>) -> (r: (Result<String, String>, Sidecar))
    ensures
        match migrate_spec(text@, sidecar, match deferred { Some(d) => Some(d as int), None => None }) {
            Err(m) => r.0 matches Err(e) && e@ == in_sidecar("failed to migrate "@, ctx.sidecar_path@, " to schemaVersion 3: "@, m),
            Ok(t) => r.0 matches Ok(s) && s@ == t,
        },
        crate::graph::sidecar_version(sidecar) >= 3 ==> r.1 == sidecar,
        crate::graph::sidecar_version(sidecar) < 3 && r.0 is Ok ==> (r.1.links.len() == sidecar.links.len()
            && forall|j: int| 0 <= j < sidecar.links.len() ==> migrated_link(#[trigger] sidecar.links@[j], r.1.links@[j])),
{
    let mut sc = sidecar;
    match migrate_sidecar_to_v3(text, &mut sc, deferred) {
        Ok(t) => (Ok(t), sc),
        Err(m) => (Err(in_sidecar_exec("failed to migrate ", ctx.sidecar_path.as_str(), " to schemaVersion 3: ", m.as_str())), sc),
    }
}

/// The new text of the sidecar after `link add`: the link is checked
/// against the context, must not exist yet, may carry its target path as a
/// path hint, and a reason first raises the sidecar to schema version 3.
pub fn add_link(ctx: &EditContext, options: &AddLinkOptions, loaded: &Result<LoadedSidecar, String>) -> (r: Result<String, String>)
    requires
        ctx.wf(),
    ensures
        crate::util::result_view(r) == add_plan_spec(*ctx, *options, *loaded),
{
    proof { reveal_strlit(":"); }
    let candidate = Link {
        rel: options.link.rel.clone(),
        to: options.link.to.clone(),
        reason: crate::model::copy_opt(&options.reason),
        path_hint: None,
        order: options.order,
        acknowledged: None,
    };
    let target = match validate_link(ctx, &candidate) {
        Err(m) => return Err(m),
        Ok(t) => t,
    };
    let ld = match loaded {
        Err(e) => return Err(e.clone()),
        Ok(ld) => ld,
    };
    let links = &ld.sidecar.links;
    if find_other_target(links, links.len(), options.link.rel.as_str(), options.link.to.as_str()) {
        let key = link_key(options.link.rel.as_str(), options.link.to.as_str());
        return Err(in_sidecar_exec("link already exists in ", ctx.sidecar_path.as_str(), ": ", key.as_str()));
    }
    let text = if options.reason.is_some() {
        match migrate_for_edit(ctx, ld.text.as_str(), ld.sidecar.duplicate(), None).0 {
            Err(m) => return Err(m),
            Ok(t) => t,
        }
    } else {
        ld.text.clone()
    };
    let link = Link {
        rel: options.link.rel.clone(),
        to: options.link.to.clone(),
        reason: crate::model::copy_opt(&options.reason),
        path_hint: if options.path_hint { Some(target) } else { None },
        order: options.order,
        acknowledged: None,
    };
    match crate::link_doc::apply_link_add(text.as_str(), &link) {
        Err(m) => Err(in_sidecar_exec("failed to update links in ", ctx.sidecar_path.as_str(), ": ", m.as_str())),
        Ok(u) => Ok(u),
    }
}

/// The new text of the sidecar after `link remove`, or why the edit is
/// refused.
pub open spec fn remove_plan_spec(ctx: EditContext, o: RemoveLinkOptions, text: Seq<char>, sc: Sidecar) -> Result<Seq<char>, Seq<char>> {
    match unique_index_spec(sc.links@, o.link.rel@, o.link.to@) {
        Err(m) => Err(m),
        Ok(i) => match crate::link_doc::remove_spec(text, i) {
            Err(m) => Err(in_sidecar("failed to update links in "@, ctx.sidecar_path@, ": "@, m)),
            Ok(u) => Ok(u),
        },
    }
}

/// The new text of the sidecar after `link remove`: the one link with the
/// given relation and target goes.
pub fn remove_link(ctx: &EditContext, options: &RemoveLinkOptions, text: &str, sidecar: &Sidecar) -> (r: Result<String, String>)
    ensures
        crate::util::result_view(r) == remove_plan_spec(*ctx, *options, text@, *sidecar),
{
    let i = match unique_link_index(&sidecar.links, options.link.rel.as_str(), options.link.to.as_str()) {
        Err(m) => return Err(m),
        Ok(i) => i,
    };
    match crate::link_doc::apply_link_remove(text, i) {
        Err(m) => Err(in_sidecar_exec("failed to update links in ", ctx.sidecar_path.as_str(), ": ", m.as_str())),
        Ok(u) => Ok(u),
    }
}

} // verus!

verus! {

/// Whether two optional strings hold the same text.
fn same_opt_text(a: &Option<String>, b: &Option<String>) -> (r: bool)
    ensures
        r == (opt_view(*a) == opt_view(*b)),
{
    match (a, b) {
        (Some(x), Some(y)) => crate::text::text_eq(x.as_str(), y.as_str()),
        (None, None) => true,
        _ => false,
    }
}

/// Whether `link update` changes the relation or target.
pub open spec fn upd_target_changed(old: Link, o: UpdateLinkOptions) -> bool {
    o.new_link matches Some(n) && (old.rel@ != n.rel@ || old.to@ != n.to@)
}

/// The reason after `link update`.
pub open spec fn upd_reason(old: Link, o: UpdateLinkOptions) -> Option<String> {
    if o.clear_reason {
        None
    } else {
        match o.reason {
            Some(r) => Some(r),
            None => old.reason,
        }
    }
}

/// The link after `link update`, before its path hint is settled: a new
/// relation, target or reason drops the acknowledgement.
pub open spec fn upd_candidate(old: Link, o: UpdateLinkOptions) -> Link {
    let reason = upd_reason(old, o);
    Link {
        rel: match o.new_link { Some(n) => n.rel, None => old.rel },
        to: match o.new_link { Some(n) => n.to, None => old.to },
        reason,
        path_hint: old.path_hint,
        order: if o.clear_order { None } else if o.order is Some { o.order } else { old.order },
        acknowledged: if upd_target_changed(old, o) || opt_view(reason) != opt_view(old.reason) {
            None
        } else {
            old.acknowledged
        },
    }
}

/// The path hint after `link update`: cleared, set to the target path when
/// asked for or when a hinted link gets a new target, else kept.
pub open spec fn upd_hint(old: Link, o: UpdateLinkOptions, target: Seq<char>) -> Option<Seq<char>> {
    if o.clear_path_hint {
        None
    } else if o.path_hint || (upd_target_changed(old, o) && old.path_hint is Some) {
        Some(target)
    } else {
        opt_view(old.path_hint)
    }
}

/// The acknowledgement written for the updated link: a kept acknowledgement
/// without link revision gets one when a reason raises the sidecar to
/// version 3.
pub open spec fn upd_ack_view(cand: Link, version: u32) -> Option<(Seq<char>, Seq<char>, Option<Seq<char>>)> {
    match cand.acknowledged {
        None => None,
        Some(a) => if cand.reason is Some && version < 3 && a.link_revision is None {
            Some((a.source_revision@, a.target_revision@, Some(link_revision_of(cand))))
        } else {
            Some(crate::link_fields::ack_view(a))
        },
    }
}

/// The rest of `link update` once the updated link `cand` (with path hint
/// `hint`) is settled and checked: the migration a reason asks for, then
/// the rewrite of item `i`.
pub open spec fn update_tail_spec(ctx: EditContext, text: Seq<char>, sc: Sidecar, i: int, cand: Link, hint: Option<Seq<char>>) -> Result<Seq<char>, Seq<char>> {
    let sp = ctx.sidecar_path@;
    let migrated = if cand.reason is Some {
        match migrate_spec(text, sc, Some(i)) {
            Err(m) => Err(in_sidecar("failed to migrate "@, sp, " to schemaVersion 3: "@, m)),
            Ok(t) => Ok(t),
        }
    } else {
        Ok(text)
    };
    match migrated {
        Err(m) => Err(m),
        Ok(t) => {
            let view = (cand.rel@, cand.to@, hint, opt_view(cand.reason), cand.order,
                upd_ack_view(cand, crate::graph::sidecar_version(sc)));
            match crate::link_doc::update_spec(t, i, view) {
                Err(m) => Err(in_sidecar("failed to update links in "@, sp, ": "@, m)),
                Ok(u) => Ok(u),
            }
        },
    }
}

/// The new text of the sidecar after `link update`, or why the edit is
/// refused: the options come first, then the link they name.
pub open spec fn update_plan_spec(ctx: EditContext, o: UpdateLinkOptions, text: Seq<char>, sc: Sidecar) -> Result<Seq<char>, Seq<char>> {
    match update_options_spec(o) {
        Err(m) => Err(m),
        Ok(()) => match unique_index_spec(sc.links@, o.current.rel@, o.current.to@) {
            Err(m) => Err(m),
            Ok(i) => {
                let old = sc.links@[i];
                let cand = upd_candidate(old, o);
                match validate_in(ctx, cand) {
                    Err(m) => Err(m),
                    Ok(target) => if has_other_target(sc.links@, i, cand.rel@, cand.to@) {
                        Err(in_sidecar("updated link would duplicate existing link in "@, ctx.sidecar_path@, ": "@, cand.rel@ + ":"@ + cand.to@))
                    } else {
                        update_tail_spec(ctx, text, sc, i, cand, upd_hint(old, o, target))
                    },
                }
            },
        },
    }
}

/// The migrated text does not depend on the deferred link.
proof fn lemma_migrate_ignores_deferred(text: Seq<char>, links: Seq<Link>, d: int, x: Link, k: int)
    requires
        0 <= d < links.len(),
        k <= links.len(),
    ensures
        migrate_text_upto(text, links.update(d, x), Some(d), k) == migrate_text_upto(text, links, Some(d), k),
    decreases k,
{
    if k > 0 {
        lemma_migrate_ignores_deferred(text, links, d, x, k - 1);
        if k - 1 != d {
            assert(links.update(d, x)[k - 1] == links[k - 1]);
        }
    }
}

/// The updated link before its path hint is settled, and whether its
/// relation or target changes.
fn update_candidate(old: &Link, options: &UpdateLinkOptions) -> (r: (Link, bool))
    ensures
        r.0 == upd_candidate(*old, *options),
        r.1 == upd_target_changed(*old, *options),
{
    let changed = match &options.new_link {
        Some(n) => !(crate::text::text_eq(old.rel.as_str(), n.rel.as_str()) && crate::text::text_eq(old.to.as_str(), n.to.as_str())),
        None => false,
    };
    let reason = if options.clear_reason {
        None
    } else {
        match &options.reason {
            Some(x) => Some(x.clone()),
            None => crate::model::copy_opt(&old.reason),
        }
    };
    let reason_changed = !same_opt_text(&reason, &old.reason);
    let cand = Link {
        rel: match &options.new_link { Some(n) => n.rel.clone(), None => old.rel.clone() },
        to: match &options.new_link { Some(n) => n.to.clone(), None => old.to.clone() },
        reason,
        path_hint: crate::model::copy_opt(&old.path_hint),
        order: if options.clear_order { None } else if options.order.is_some() { options.order } else { old.order },
        acknowledged: if changed || reason_changed { None } else { crate::model::copy_ack(&old.acknowledged) },
    };
    (cand, changed)
}

/// Migrates the sidecar when the updated `link` has a reason, then rewrites
/// item `i` to it.
#[verifier::rlimit(40)]
fn finish_update(ctx: &EditContext, text: &str, sidecar: &Sidecar, i: usize, link: Link) -> (r: Result<String, String>)
    requires
        i < sidecar.links.len(),
    ensures
        crate::util::result_view(r) == update_tail_spec(*ctx, text@, *sidecar, i as int, link, opt_view(link.path_hint)),
{
    let (updated, written) = if link.reason.is_some() {
        let mut sc = sidecar.duplicate();
        sc.links.set(i, link.duplicate());
        proof {
            lemma_migrate_ignores_deferred(text@, sidecar.links@, i as int, link, sidecar.links.len() as int);
        }
        let ghost scv = sc;
        let (res, migrated) = migrate_for_edit(ctx, text, sc, Some(i));
        match res {
            Err(m) => return Err(m),
            Ok(t) => {
                assert(crate::graph::sidecar_version(scv) < 3 ==> migrated_link(scv.links@[i as int], migrated.links@[i as int]));
                let l = migrated.links[i].duplicate();
                (t, l)
            },
        }
    } else {
        (crate::text::own(text), link)
    };
    match crate::link_doc::apply_link_update(updated.as_str(), i, &written) {
        Err(m) => Err(in_sidecar_exec("failed to update links in ", ctx.sidecar_path.as_str(), ": ", m.as_str())),
        Ok(u) => Ok(u),
    }
}

/// The new text of the sidecar after `link update`: a request that changes
/// nothing or both sets and clears a field is refused; otherwise the one
/// link with the current relation and target gets the requested relation, target,
/// reason, path hint and order, keeps its acknowledgement only when its
/// reviewed content is unchanged, and a reason raises the sidecar to schema
/// version 3.
#[verifier::rlimit(40)]
pub fn update_link(ctx: &EditContext, options: &UpdateLinkOptions, text: &str, sidecar: &Sidecar) -> (r: Result<String, String>)
    requires
        ctx.wf(),
    ensures
        crate::util::result_view(r) == update_plan_spec(*ctx, *options, text@, *sidecar),
{
    proof { reveal_strlit(":"); }
    if let Err(m) = check_update_options(options) {
        return Err(m);
    }
    let i = match unique_link_index(&sidecar.links, options.current.rel.as_str(), options.current.to.as_str()) {
        Err(m) => return Err(m),
        Ok(i) => i,
    };
    let old = &sidecar.links[i];
    let (mut cand, changed) = update_candidate(old, options);
    let target = match validate_link(ctx, &cand) {
        Err(m) => return Err(m),
        Ok(t) => t,
    };
    let ghost tv = target@;
    if options.clear_path_hint {
        cand.path_hint = None;
    } else if options.path_hint || (changed && old.path_hint.is_some()) {
        cand.path_hint = Some(target);
    }
    assert(opt_view(cand.path_hint) == upd_hint(*old, *options, tv));
    if find_other_target(&sidecar.links, i, cand.rel.as_str(), cand.to.as_str()) {
        let key = link_key(cand.rel.as_str(), cand.to.as_str());
        return Err(in_sidecar_exec("updated link would duplicate existing link in ", ctx.sidecar_path.as_str(), ": ", key.as_str()));
    }
    finish_update(ctx, text, sidecar, i, cand)
}

/// The link `link acknowledge` selects: its position, its target's path,
/// and the link revision to record (only in a version 3 sidecar).
pub struct AcknowledgeTarget {
    pub index: usize,
    pub target_path: String,
    pub link_revision: Option<String>,
}

/// What `link acknowledge` selects, or why it is refused.
pub open spec fn ack_target_spec(ctx: EditContext, o: AcknowledgeLinkOptions, sc: Sidecar) -> Result<(int, Seq<char>, Option<Seq<char>>), Seq<char>> {
    match unique_index_spec(sc.links@, o.link.rel@, o.link.to@) {
        Err(m) => Err(m),
        Ok(i) => match validate_in(ctx, sc.links@[i]) {
            Err(m) => Err(m),
            Ok(t) => Ok((i, t, if sc.schema_version == Some(3u32) { Some(link_revision_of(sc.links@[i])) } else { None })),
        },
    }
}

/// The link `link acknowledge` selects: the one with the given relation
/// and target, checked against the context.
pub fn acknowledge_target(ctx: &EditContext, options: &AcknowledgeLinkOptions, sidecar: &Sidecar) -> (r: Result<AcknowledgeTarget, String>)
    requires
        ctx.wf(),
    ensures
        match ack_target_spec(*ctx, *options, *sidecar) {
            Ok((i, t, lr)) => r matches Ok(a) && a.index == i && a.target_path@ == t && opt_view(a.link_revision) == lr
                && a.index < sidecar.links.len(),
            Err(m) => r matches Err(e) && e@ == m,
        },
{
    let i = match unique_link_index(&sidecar.links, options.link.rel.as_str(), options.link.to.as_str()) {
        Err(m) => return Err(m),
        Ok(i) => i,
    };
    let l = &sidecar.links[i];
    let target_path = match validate_link(ctx, l) {
        Err(m) => return Err(m),
        Ok(t) => t,
    };
    let link_revision = if sidecar.schema_version == Some(3u32) {
        let reason: Option<&str> = match &l.reason {
            Some(x) => Some(x.as_str()),
            None => None,
        };
        Some(crate::freshness::fingerprint_link_revision(l.rel.as_str(), l.to.as_str(), reason))
    } else {
        None
    };
    Ok(AcknowledgeTarget { index: i, target_path, link_revision })
}

/// The new text of the sidecar after recording `ack` on link `index`: the
/// item is rewritten and the sidecar raised to schema version 2 when below.
pub open spec fn ack_plan_spec(ctx: EditContext, text: Seq<char>, sc: Sidecar, index: int, ack: AcknowledgedRevisions) -> Result<Seq<char>, Seq<char>> {
    let l = sc.links@[index];
    let view = (l.rel@, l.to@, opt_view(l.path_hint), opt_view(l.reason), l.order, Some(crate::link_fields::ack_view(ack)));
    match crate::link_doc::update_spec(text, index, view) {
        Err(m) => Err(in_sidecar("failed to update links in "@, ctx.sidecar_path@, ": "@, m)),
        Ok(u) => Ok(if crate::graph::sidecar_version(sc) >= 2 { u } else { crate::link_doc::set_version_spec(u, 2) }),
    }
}

/// The new text of the sidecar after `link acknowledge` records `ack` on
/// link `index`.
pub fn acknowledge_link(ctx: &EditContext, text: &str, sidecar: &Sidecar, index: usize, ack: AcknowledgedRevisions) -> (r: Result<String, String>)
    requires
        index < sidecar.links.len(),
    ensures
        crate::util::result_view(r) == ack_plan_spec(*ctx, text@, *sidecar, index as int, ack),
{
    let mut link = sidecar.links[index].duplicate();
    link.acknowledged = Some(ack);
    match crate::link_doc::apply_link_update(text, index, &link) {
        Err(m) => Err(in_sidecar_exec("failed to update links in ", ctx.sidecar_path.as_str(), ": ", m.as_str())),
        Ok(u) => Ok(crate::link_doc::set_min_schema_version(u.as_str(), sidecar.schema_version, 2)),
    }
}

} // verus!
