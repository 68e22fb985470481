//! Diagnostic formatting and schema version checks.
use vstd::prelude::*;

use crate::model::{diag_view, diags_view, push_diag, Diagnostic};
use crate::numfmt::{decimal, decimal_string};
use crate::text::{cat, join, join_strs, own};

verus! {

/// One diagnostic as a line of text: `code path: message`, or `code: message`
/// when it has no path.
pub open spec fn diagnostic_line(d: (Seq<char>, Option<Seq<char>>, Seq<char>)) -> Seq<char> {
    match d.1 {
        Some(path) => d.0 + " "@ + path + ": "@ + d.2,
        None => d.0 + ": "@ + d.2,
    }
}

/// The line of each diagnostic.
pub open spec fn diagnostic_lines(ds: Seq<(Seq<char>, Option<Seq<char>>, Seq<char>)>) -> Seq<Seq<char>>
    decreases ds.len(),
{
    if ds.len() == 0 {
        seq![]
    } else {
        diagnostic_lines(ds.drop_last()).push(diagnostic_line(ds.last()))
    }
}

/// All diagnostics, one per line.
pub open spec fn diagnostics_text(ds: Seq<(Seq<char>, Option<Seq<char>>, Seq<char>)>) -> Seq<char> {
    join(diagnostic_lines(ds), "\n"@)
}

/// Renders one diagnostic as a line.
pub fn diagnostic_to_line(d: &Diagnostic) -> (r: String)
    ensures
        r@ == diagnostic_line(diag_view(*d)),
{
    match &d.path {
        Some(path) => {
            let mut r = d.code.clone();
            r.append(" ");
            r.append(path.as_str());
            r.append(": ");
            r.append(d.message.as_str());
            r
        },
        None => {
            let mut r = d.code.clone();
            r.append(": ");
            r.append(d.message.as_str());
            r
        },
    }
}

/// Joins the diagnostics into one message, one diagnostic per line.
pub fn diagnostics_to_message(diagnostics: &Vec<Diagnostic>) -> (r: String)
    ensures
        r@ == diagnostics_text(diags_view(diagnostics@)),
{
    let mut lines: Vec<String> = Vec::new();
    let mut i: usize = 0;
    while i < diagnostics.len()
        invariant
            i <= diagnostics.len(),
            crate::model::strs_view(lines@) == diagnostic_lines(diags_view(diagnostics@.take(i as int))),
        decreases diagnostics.len() - i,
    {
        let line = diagnostic_to_line(&diagnostics[i]);
        lines.push(line);
        assert(diagnostics@.take(i + 1) =~= diagnostics@.take(i as int).push(diagnostics@[i as int]));
        assert(diags_view(diagnostics@.take(i + 1)) =~= diags_view(diagnostics@.take(i as int)).push(diag_view(diagnostics@[i as int])));
        assert(crate::model::strs_view(lines@) =~= crate::model::strs_view(lines@.drop_last()).push(line@));
        assert(diags_view(diagnostics@.take(i + 1)).drop_last() =~= diags_view(diagnostics@.take(i as int)));
        i += 1;
    }
    assert(diagnostics@.take(diagnostics.len() as int) =~= diagnostics@);
    join_strs(&lines, "\n")
}

/// The supported versions as text, separated by `, `.
pub open spec fn versions_text(vs: Seq<u32>) -> Seq<char> {
    join(decimals(vs), ", "@)
}

/// The decimal text of each version.
pub open spec fn decimals(vs: Seq<u32>) -> Seq<Seq<char>>
    decreases vs.len(),
{
    if vs.len() == 0 {
        seq![]
    } else {
        decimals(vs.drop_last()).push(decimal(vs.last() as nat))
    }
}

/// The message for an unsupported schema version.
pub open spec fn version_message(version: u32, supported: Seq<u32>) -> Seq<char> {
    "unsupported schemaVersion "@ + decimal(version as nat) + "; expected one of ["@
        + versions_text(supported) + "]"@
}

/// Reports a `schema-error` on `path` when the version (or the default when
/// absent) is not among the supported ones.
pub fn validate_schema_version(
    version: Option<u32>,
    default_version: u32,
    supported_versions: &[u32],
    path: &str,
    diagnostics: &mut Vec<Diagnostic>,
)
    ensures
        ({
            let v = match version {
                Some(v) => v,
                None => default_version,
            };
            if supported_versions@.contains(v) {
                final(diagnostics)@ == old(diagnostics)@
            } else {
                diags_view(final(diagnostics)@) == diags_view(old(diagnostics)@).push(
                    ("schema-error"@, Some(path@), version_message(v, supported_versions@)),
                )
            }
        }),
{
    let v = match version {
        Some(v) => v,
        None => default_version,
    };
    let mut found = false;
    let mut texts: Vec<String> = Vec::new();
    let mut i: usize = 0;
    while i < supported_versions.len()
        invariant
            i <= supported_versions.len(),
            found == supported_versions@.take(i as int).contains(v),
            crate::model::strs_view(texts@) == decimals(supported_versions@.take(i as int)),
        decreases supported_versions.len() - i,
    {
        let ghost before = supported_versions@.take(i as int);
        assert(supported_versions@.take(i + 1) =~= before.push(supported_versions@[i as int]));
        if supported_versions[i] == v {
            found = true;
        }
        let t = decimal_string(supported_versions[i] as u64);
        texts.push(t);
        assert(supported_versions@.take(i + 1).drop_last() =~= before);
        assert(decimals(supported_versions@.take(i + 1)) == decimals(before).push(decimal(supported_versions@[i as int] as nat)));
        assert(crate::model::strs_view(texts@) =~= crate::model::strs_view(texts@.drop_last()).push(t@));
        i += 1;
    }
    assert(supported_versions@.take(supported_versions.len() as int) =~= supported_versions@);
    if !found {
        let expected = join_strs(&texts, ", ");
        let mut message = own("unsupported schemaVersion ");
        message.append(decimal_string(v as u64).as_str());
        message.append("; expected one of [");
        message.append(expected.as_str());
        message.append("]");
        let d = crate::model::diagnostic("schema-error", Some(own(path)), message);
        push_diag(diagnostics, d);
    }
}

} // verus!
