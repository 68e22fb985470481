//! The repository file listing: paths reported by `git ls-files`, what
//! inspecting each showed, and the listing of a directory walk.
use vstd::prelude::*;

use crate::model::{diags_view, strs_view, Diagnostic};
use crate::sorted::{sorted_insert, sorted_strict};
use crate::util::normalized_path;

verus! {

/// The text of `bytes` decoded as UTF-8, each invalid sequence replaced.
pub uninterp spec fn lossy_text(bytes: Seq<u8>) -> Seq<char>;

/// `String::from_utf8_lossy` (std): the decoded text, which is exactly the
/// UTF-8 decoding when the bytes are valid UTF-8.
#[verifier::external_body]
fn utf8_lossy(bytes: &[u8]) -> (r: String)
    ensures
        r@ == lossy_text(bytes@),
        vstd::utf8::valid_utf8(bytes@) ==> r@ == vstd::utf8::decode_utf8(bytes@),
{
    String::from_utf8_lossy(bytes).into_owned()
}

/// The pieces of `bytes` between NUL bytes.
pub open spec fn nul_pieces(bytes: Seq<u8>) -> Seq<Seq<u8>>
    decreases bytes.len(),
{
    if bytes.len() == 0 {
        seq![seq![]]
    } else {
        let rest = nul_pieces(bytes.drop_last());
        if bytes.last() == 0u8 {
            rest.push(seq![])
        } else {
            rest.update(rest.len() - 1, rest.last().push(bytes.last()))
        }
    }
}

/// The paths of a NUL-separated `git ls-files` listing: each non-empty
/// piece decoded and normalized.
pub open spec fn listed_paths(pieces: Seq<Seq<u8>>) -> Seq<Seq<char>>
    decreases pieces.len(),
{
    if pieces.len() == 0 {
        seq![]
    } else if pieces.last().len() == 0 {
        listed_paths(pieces.drop_last())
    } else {
        listed_paths(pieces.drop_last()).push(normalized_path(lossy_text(pieces.last())))
    }
}

proof fn lemma_nul_pieces_nonempty(bytes: Seq<u8>)
    ensures
        nul_pieces(bytes).len() >= 1,
    decreases bytes.len(),
{
    if bytes.len() > 0 {
        lemma_nul_pieces_nonempty(bytes.drop_last());
    }
}

/// The repository paths in the output of
/// `git ls-files -z --cached --others --exclude-standard`.
pub fn ls_files_paths(stdout: &Vec<u8>) -> (r: Vec<String>)
    ensures
        strs_view(r@) == listed_paths(nul_pieces(stdout@)),
{
    let ghost all = stdout@;
    let mut pieces: Vec<Vec<u8>> = Vec::new();
    pieces.push(Vec::new());
    assert(pieces@.map_values(|p: Vec<u8>| p@) =~= nul_pieces(all.take(0)));
    let mut i: usize = 0;
    while i < stdout.len()
        invariant
            i <= stdout.len(),
            all == stdout@,
            pieces.len() >= 1,
            pieces@.map_values(|p: Vec<u8>| p@) == nul_pieces(all.take(i as int)),
        decreases stdout.len() - i,
    {
        assert(all.take(i + 1).drop_last() =~= all.take(i as int));
        let b = stdout[i];
        let ghost before = pieces@.map_values(|p: Vec<u8>| p@);
        if b == 0u8 {
            pieces.push(Vec::new());
            assert(pieces@.map_values(|p: Vec<u8>| p@) =~= before.push(seq![]));
        } else {
            let last = pieces.len() - 1;
            let mut cur = pieces.remove(last);
            let ghost cv = cur@;
            cur.push(b);
            pieces.push(cur);
            assert(pieces@.map_values(|p: Vec<u8>| p@) =~= before.update(before.len() - 1, cv.push(b)));
        }
        i += 1;
    }
    assert(all.take(stdout.len() as int) =~= all);
    let ghost pv = pieces@.map_values(|p: Vec<u8>| p@);
    let mut r: Vec<String> = Vec::new();
    let mut k: usize = 0;
    while k < pieces.len()
        invariant
            k <= pieces.len(),
            pv == pieces@.map_values(|p: Vec<u8>| p@),
            strs_view(r@) == listed_paths(pv.take(k as int)),
        decreases pieces.len() - k,
    {
        assert(pv.take(k + 1).drop_last() =~= pv.take(k as int));
        assert(pv[k as int] == pieces@[k as int]@);
        if pieces[k].len() > 0 {
            let text = utf8_lossy(pieces[k].as_slice());
            let ghost before = strs_view(r@);
            let path = crate::util::normalize_repo_path(text.as_str());
            r.push(path);
            assert(strs_view(r@) =~= before.push(normalized_path(lossy_text(pv[k as int]))));
        }
        k += 1;
    }
    assert(pv.take(pieces.len() as int) =~= pv);
    r
}

/// What inspecting a listed path showed.
pub enum PathInspection {
    /// A file, or a link that declares a repository boundary.
    Listed,
    /// Absent, or not a file.
    Unlisted,
    /// Inspecting it failed with this error text.
    Failed(String),
}

/// A listed path and what inspecting it showed.
pub struct InspectedPath {
    pub path: String,
    pub inspection: PathInspection,
}

/// The listed paths that are kept, or the first inspection error.
pub open spec fn kept_paths(items: Seq<InspectedPath>) -> Result<Seq<Seq<char>>, Seq<char>>
    decreases items.len(),
{
    if items.len() == 0 {
        Ok(seq![])
    } else {
        match kept_paths(items.drop_last()) {
            Err(e) => Err(e),
            Ok(kept) => {
                let it = items.last();
                match it.inspection {
                    PathInspection::Listed => if it.path@.len() > 0 { Ok(kept.push(it.path@)) } else { Ok(kept) },
                    PathInspection::Unlisted => Ok(kept),
                    PathInspection::Failed(e) => Err(e@),
                }
            },
        }
    }
}

proof fn lemma_kept_err_stays(items: Seq<InspectedPath>, k: int, n: int)
    requires
        0 <= k <= n <= items.len(),
        kept_paths(items.take(k)) is Err,
    ensures
        kept_paths(items.take(n)) == kept_paths(items.take(k)),
    decreases n - k,
{
    if k < n {
        lemma_kept_err_stays(items, k, n - 1);
        assert(items.take(n).drop_last() =~= items.take(n - 1));
    }
}

/// The repository files among the paths `git ls-files` listed: those
/// inspection shows to be files or boundary links, without empty paths;
/// the first inspection failure refuses the listing.
pub fn list_repo_files(inspected: &Vec<InspectedPath>) -> (r: Result<Vec<String>, String>)
    ensures
        match kept_paths(inspected@) {
            Ok(p) => r matches Ok(v) && strs_view(v@) == p,
            Err(e) => r matches Err(m) && m@ == e,
        },
{
    let mut out: Vec<String> = Vec::new();
    assert(strs_view(out@) =~= seq![]);
    let mut i: usize = 0;
    while i < inspected.len()
        invariant
            i <= inspected.len(),
            kept_paths(inspected@.take(i as int)) == Ok::<Seq<Seq<char>>, Seq<char>>(strs_view(out@)),
        decreases inspected.len() - i,
    {
        assert(inspected@.take(i + 1).drop_last() =~= inspected@.take(i as int));
        let it = &inspected[i];
        match &it.inspection {
            PathInspection::Listed => {
                if it.path.as_str().unicode_len() > 0 {
                    let ghost before = strs_view(out@);
                    out.push(it.path.clone());
                    assert(strs_view(out@) =~= before.push(it.path@));
                }
            },
            PathInspection::Unlisted => {},
            PathInspection::Failed(e) => {
                proof { lemma_kept_err_stays(inspected@, i + 1, inspected.len() as int); }
                assert(inspected@.take(inspected.len() as int) =~= inspected@);
                return Err(e.clone());
            },
        }
        i += 1;
    }
    assert(inspected@.take(inspected.len() as int) =~= inspected@);
    Ok(out)
}

/// The listed paths that are kept when inspection failures become
/// diagnostics.
pub open spec fn kept_with_failures(items: Seq<InspectedPath>) -> Seq<Seq<char>>
    decreases items.len(),
{
    if items.len() == 0 {
        seq![]
    } else {
        let kept = kept_with_failures(items.drop_last());
        let it = items.last();
        match it.inspection {
            PathInspection::Listed => if it.path@.len() > 0 { kept.push(it.path@) } else { kept },
            _ => kept,
        }
    }
}

/// The diagnostics of the failed inspections, in order.
pub open spec fn inspection_diagnostics(items: Seq<InspectedPath>) -> Seq<crate::model::DiagView>
    decreases items.len(),
{
    if items.len() == 0 {
        seq![]
    } else {
        let ds = inspection_diagnostics(items.drop_last());
        let it = items.last();
        match it.inspection {
            PathInspection::Failed(e) => ds.push(("schema-error"@, Some(it.path@), "failed to inspect repo path: "@ + e@)),
            _ => ds,
        }
    }
}

/// The repository files among the paths `git ls-files` listed; a failed
/// inspection becomes a `schema-error` diagnostic on its path instead of
/// refusing the listing.
pub fn list_repo_files_with_diagnostics(inspected: &Vec<InspectedPath>, diagnostics: &mut Vec<Diagnostic>) -> (r: Vec<String>)
    ensures
        strs_view(r@) == kept_with_failures(inspected@),
        diags_view(final(diagnostics)@) == diags_view(old(diagnostics)@) + inspection_diagnostics(inspected@),
{
    let ghost start = diags_view(diagnostics@);
    let mut out: Vec<String> = Vec::new();
    assert(strs_view(out@) =~= seq![]);
    assert(start + inspection_diagnostics(inspected@.take(0)) =~= start);
    let mut i: usize = 0;
    while i < inspected.len()
        invariant
            i <= inspected.len(),
            strs_view(out@) == kept_with_failures(inspected@.take(i as int)),
            diags_view(diagnostics@) == start + inspection_diagnostics(inspected@.take(i as int)),
        decreases inspected.len() - i,
    {
        assert(inspected@.take(i + 1).drop_last() =~= inspected@.take(i as int));
        let it = &inspected[i];
        match &it.inspection {
            PathInspection::Listed => {
                if it.path.as_str().unicode_len() > 0 {
                    let ghost before = strs_view(out@);
                    out.push(it.path.clone());
                    assert(strs_view(out@) =~= before.push(it.path@));
                }
            },
            PathInspection::Unlisted => {},
            PathInspection::Failed(e) => {
                let d = crate::model::diagnostic("schema-error", Some(it.path.clone()), crate::text::cat("failed to inspect repo path: ", e.as_str()));
                crate::model::push_diag(diagnostics, d);
            },
        }
        i += 1;
    }
    assert(inspected@.take(inspected.len() as int) =~= inspected@);
    out
}

/// The files a directory walk found, in `str` order.
pub fn sorted_repo_files(files: Vec<String>) -> (r: Vec<String>)
    ensures
        sorted_strict(strs_view(r@)),
        strs_view(r@).to_set() == strs_view(files@).to_set(),
{
    let mut r: Vec<String> = Vec::new();
    assert(strs_view(r@) =~= seq![]);
    assert(strs_view(files@.take(0)) =~= seq![]);
    let mut i: usize = 0;
    while i < files.len()
        invariant
            i <= files.len(),
            sorted_strict(strs_view(r@)),
            strs_view(r@).to_set() == strs_view(files@.take(i as int)).to_set(),
        decreases files.len() - i,
    {
        let ghost before = strs_view(files@.take(i as int));
        sorted_insert(&mut r, files[i].clone());
        assert(strs_view(files@.take(i + 1)) =~= before.push(files@[i as int]@));
        proof { before.lemma_push_to_set_commute(files@[i as int]@); }
        i += 1;
    }
    assert(files@.take(files.len() as int) =~= files@);
    r
}

/// What inspecting one prefix of a listed path showed.
pub enum EntryKind {
    /// Nothing is there.
    Missing,
    /// A symlink or reparse point: a repository boundary.
    Link,
    /// A regular file.
    File,
    /// A directory or anything else.
    Other,
}

/// What one inspected prefix of a listed path decides: nothing yet (`None`),
/// or whether the path is listed.
pub open spec fn prefix_decision(is_last: bool, kind: EntryKind) -> Option<bool> {
    match kind {
        EntryKind::Missing => Some(false),
        EntryKind::Link => Some(is_last),
        EntryKind::File => if is_last { Some(true) } else { None },
        EntryKind::Other => if is_last { Some(false) } else { None },
    }
}

/// Decides a listed path from its prefixes, inspected from the first
/// component on: a missing prefix drops it, a boundary link keeps it only
/// as its last component, and otherwise the path itself must be a file.
/// `None` asks for the next prefix.
pub fn path_listed(is_last: bool, kind: EntryKind) -> (r: Option<bool>)
    ensures
        r == prefix_decision(is_last, kind),
{
    match kind {
        EntryKind::Missing => Some(false),
        EntryKind::Link => Some(is_last),
        EntryKind::File => if is_last { Some(true) } else { None },
        EntryKind::Other => if is_last { Some(false) } else { None },
    }
}

} // verus!
