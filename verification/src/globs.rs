//! Glob pattern sets for `exclude` and `requireSidecar`.
use ::globset::{Glob, GlobSetBuilder};
use vstd::prelude::*;

use crate::model::{diags_view, diag_view, opt_view, strs_view, Diagnostic, CONFIG_PATH};
use crate::text::{cat3, own};

verus! {

/// A compiled set of globs. The `globset` crate's `GlobSet` is held in a
/// private field that Verus does not read; `globset_patterns` names what it
/// holds, and the wrappers below state what building and matching do.
#[verifier::external_body]
pub struct GlobMatcher {
    set: ::globset::GlobSet,
}

/// The globs a matcher was built from, in order.
pub uninterp spec fn globset_patterns(set: GlobMatcher) -> Seq<Seq<char>>;

/// What `Glob::new(pattern)` reports: `None` when the pattern compiles, the
/// error's display text otherwise.
pub uninterp spec fn glob_error_text(pattern: Seq<char>) -> Option<Seq<char>>;

/// Whether `GlobSetBuilder::build` succeeds on the valid globs `patterns`
/// (it compiles them into matchers; the outcome depends on the patterns
/// alone).
pub uninterp spec fn globset_builds(patterns: Seq<Seq<char>>) -> bool;

/// Whether the glob `pattern` matches `path`.
pub uninterp spec fn glob_matches(pattern: Seq<char>, path: Seq<char>) -> bool;

/// `Glob::new(pattern)`: `None` when the pattern is a valid glob, the error
/// message otherwise. The contract ties the result to the pattern by name.
#[verifier::external_body]
fn glob_error(pattern: &str) -> (r: Option<String>)
    ensures
        opt_view(r) == glob_error_text(pattern@),
{
    match Glob::new(pattern) {
        Ok(_) => None,
        Err(error) => Some(error.to_string()),
    }
}

/// `GlobSetBuilder` over `Glob::new` of each pattern, then `build()`. When
/// `build()` succeeds (`globset_builds`) the set holds the given patterns;
/// when it fails, `GlobSet::empty()` stands in for it.
#[verifier::external_body]
fn build_globset(patterns: &Vec<String>) -> (r: GlobMatcher)
    requires
        forall|i: int| 0 <= i < patterns.len() ==> glob_error_text(#[trigger] patterns@[i]@) is None,
    ensures
        globset_patterns(r) == if globset_builds(strs_view(patterns@)) {
            strs_view(patterns@)
        } else {
            Seq::<Seq<char>>::empty()
        },
{
    let mut builder = GlobSetBuilder::new();
    for pattern in patterns {
        if let Ok(glob) = Glob::new(pattern) {
            builder.add(glob);
        }
    }
    GlobMatcher { set: builder.build().unwrap_or_else(|_| ::globset::GlobSet::empty()) }
}

/// Some pattern of `patterns` matches `path`.
pub open spec fn set_matches(patterns: Seq<Seq<char>>, path: Seq<char>) -> bool {
    exists|i: int| 0 <= i < patterns.len() && glob_matches(#[trigger] patterns[i], path)
}

/// `GlobSet::is_match`: true when some glob of the set matches `path`.
#[verifier::external_body]
fn globset_is_match(set: &GlobMatcher, path: &str) -> (r: bool)
    ensures
        r == (exists|i: int| 0 <= i < globset_patterns(*set).len() && glob_matches(#[trigger] globset_patterns(*set)[i], path@)),
{
    set.set.is_match(path)
}

/// The diagnostics that `globset` reports for `patterns`, in order.
pub open spec fn glob_diagnostics(patterns: Seq<Seq<char>>) -> Seq<
    (Seq<char>, Option<Seq<char>>, Seq<char>),
>
    decreases patterns.len(),
{
    if patterns.len() == 0 {
        seq![]
    } else {
        let rest = glob_diagnostics(patterns.drop_last());
        match glob_error_text(patterns.last()) {
            Some(e) => rest.push(
                (
                    "schema-error"@,
                    Some(".relaygraph.yaml"@),
                    "invalid glob "@ + patterns.last() + ": "@ + e,
                ),
            ),
            None => rest,
        }
    }
}

/// The valid patterns of `patterns`, in order.
pub open spec fn valid_globs(patterns: Seq<Seq<char>>) -> Seq<Seq<char>> {
    patterns.filter(|p: Seq<char>| glob_error_text(p) is None)
}

/// The globs a matcher built from `patterns` holds: the valid ones, or none
/// when the set of valid ones does not build.
pub open spec fn built_globs(patterns: Seq<Seq<char>>) -> Seq<Seq<char>> {
    if globset_builds(valid_globs(patterns)) {
        valid_globs(patterns)
    } else {
        Seq::<Seq<char>>::empty()
    }
}

/// Builds a glob set from the valid patterns and reports each invalid one as
/// a `schema-error` on the config file.
pub fn globset(patterns: &Vec<String>, diagnostics: &mut Vec<Diagnostic>) -> (r: GlobMatcher)
    ensures
        diags_view(final(diagnostics)@) == diags_view(old(diagnostics)@) + glob_diagnostics(
            strs_view(patterns@),
        ),
        globset_patterns(r) == built_globs(strs_view(patterns@)),
{
    proof {
        reveal_strlit("schema-error");
        reveal_strlit(".relaygraph.yaml");
        reveal_strlit("invalid glob ");
        reveal_strlit(": ");
    }
    let ghost pv = strs_view(patterns@);
    let ghost start = diags_view(diagnostics@);
    let mut valid: Vec<String> = Vec::new();
    let mut i: usize = 0;
    while i < patterns.len()
        invariant
            i <= patterns.len(),
            pv == strs_view(patterns@),
            diags_view(diagnostics@) == start + glob_diagnostics(pv.take(i as int)),
            strs_view(valid@) == valid_globs(pv.take(i as int)),
            forall|j: int| 0 <= j < valid.len() ==> glob_error_text(#[trigger] valid@[j]@) is None,
            "schema-error"@ =~= seq!['s', 'c', 'h', 'e', 'm', 'a', '-', 'e', 'r', 'r', 'o', 'r'],
        decreases patterns.len() - i,
    {
        let ghost before = pv.take(i as int);
        assert(pv.take(i + 1) =~= before.push(pv[i as int]));
        assert(pv.take(i + 1).drop_last() =~= before);
        assert(pv[i as int] == patterns@[i as int]@);
        proof {
            before.lemma_filter_push(pv[i as int], |p: Seq<char>| glob_error_text(p) is None);
        }
        match glob_error(patterns[i].as_str()) {
            Some(error) => {
                let message = cat3(
                    "invalid glob ",
                    patterns[i].as_str(),
                    crate::text::cat(": ", error.as_str()).as_str(),
                );
                let d = crate::model::diagnostic("schema-error", Some(own(CONFIG_PATH)), message);
                proof {
                    reveal_strlit(".relaygraph.yaml");
                    reveal_strlit("invalid glob ");
                    reveal_strlit(": ");
                    reveal_strlit("schema-error");
                }
                assert(diag_view(d) == (
                    "schema-error"@,
                    Some(".relaygraph.yaml"@),
                    "invalid glob "@ + pv[i as int] + ": "@ + error@,
                ));
                let ghost old_d = diagnostics@;
                diagnostics.push(d);
                assert(diags_view(diagnostics@) =~= diags_view(old_d).push(diag_view(d)));
                assert(glob_diagnostics(pv.take(i + 1)) == glob_diagnostics(before).push(
                    diag_view(d),
                ));
                assert(diags_view(diagnostics@) =~= start + glob_diagnostics(pv.take(i + 1)));
            },
            None => {
                valid.push(patterns[i].clone());
                assert(strs_view(valid@) =~= strs_view(valid@.drop_last()).push(valid@.last()@));
                assert(glob_diagnostics(pv.take(i + 1)) == glob_diagnostics(before));
            },
        }
        i += 1;
    }
    assert(pv.take(patterns.len() as int) =~= pv);
    build_globset(&valid)
}

/// Whether some pattern of the set matches `path`.
pub fn matches_glob(globset: &GlobMatcher, path: &str) -> (r: bool)
    ensures
        r == set_matches(globset_patterns(*globset), path@),
{
    globset_is_match(globset, path)
}

} // verus!
