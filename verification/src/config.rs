//! Root configuration defaults and value checks.
use vstd::prelude::*;

use crate::model::{
    diags_view, push_diag, strs_view, Config, Diagnostic, CONFIG_PATH, DEFAULT_FEATURE_TRACE_PLUGIN,
    DEFAULT_SIDECAR_SUFFIX, SUPPORTED_SCHEMA_VERSION,
};
use crate::text::{all_ws, cat, chars_of, char_is_ws, contains_char, contains_str, contains_text, is_blank, is_ws, own};

verus! {

/// The default configuration, as documented in the README.
pub open spec fn default_config_spec(c: Config) -> bool {
    &&& c.schema_version == Some(1u32)
    &&& c.use_git_ignore == Some(true)
    &&& c.sidecar_suffix matches Some(s) && s@ == ".relaygraph.yaml"@
    &&& c.plugins matches Some(p) && strs_view(p@) == seq!["relaygraph/plugins/feature-trace.yaml"@]
    &&& c.exclude matches Some(e) && strs_view(e@) == seq!["._relaygraph/**"@]
    &&& c.require_sidecar matches Some(r) && r@.len() == 0
}

impl Default for Config {
    fn default() -> (c: Self)
        ensures
            default_config_spec(c),
    {
        let mut plugins: Vec<String> = Vec::new();
        plugins.push(own(DEFAULT_FEATURE_TRACE_PLUGIN));
        let mut exclude: Vec<String> = Vec::new();
        exclude.push(own("._relaygraph/**"));
        proof {
            reveal_strlit("._relaygraph/**");
        }
        assert(strs_view(plugins@) =~= seq!["relaygraph/plugins/feature-trace.yaml"@]);
        assert(strs_view(exclude@) =~= seq!["._relaygraph/**"@]);
        Config {
            schema_version: Some(SUPPORTED_SCHEMA_VERSION),
            use_git_ignore: Some(true),
            sidecar_suffix: Some(own(DEFAULT_SIDECAR_SUFFIX)),
            plugins: Some(plugins),
            exclude: Some(exclude),
            require_sidecar: Some(Vec::new()),
        }
    }
}

/// Fills every absent field with its default; present fields are kept.
pub fn apply_config_defaults(config: Config) -> (r: Config)
    ensures
        config.schema_version is Some ==> r.schema_version == config.schema_version,
        config.schema_version is None ==> r.schema_version == Some(1u32),
        config.use_git_ignore is Some ==> r.use_git_ignore == config.use_git_ignore,
        config.use_git_ignore is None ==> r.use_git_ignore == Some(true),
        config.sidecar_suffix is Some ==> r.sidecar_suffix == config.sidecar_suffix,
        config.sidecar_suffix is None ==> (r.sidecar_suffix matches Some(s) && s@ == ".relaygraph.yaml"@),
        config.plugins is Some ==> r.plugins == config.plugins,
        config.plugins is None ==> (r.plugins matches Some(p) && strs_view(p@) == seq!["relaygraph/plugins/feature-trace.yaml"@]),
        config.exclude is Some ==> r.exclude == config.exclude,
        config.exclude is None ==> (r.exclude matches Some(e) && strs_view(e@) == seq!["._relaygraph/**"@]),
        config.require_sidecar is Some ==> r.require_sidecar == config.require_sidecar,
        config.require_sidecar is None ==> (r.require_sidecar matches Some(v) && v@.len() == 0),
{
    let mut config = config;
    let default = Config::default();
    if config.schema_version.is_none() {
        config.schema_version = default.schema_version;
    }
    if config.use_git_ignore.is_none() {
        config.use_git_ignore = default.use_git_ignore;
    }
    if config.sidecar_suffix.is_none() {
        config.sidecar_suffix = default.sidecar_suffix;
    }
    if config.plugins.is_none() {
        config.plugins = default.plugins;
    }
    if config.exclude.is_none() {
        config.exclude = default.exclude;
    }
    if config.require_sidecar.is_none() {
        config.require_sidecar = default.require_sidecar;
    }
    config
}

/// The sidecar suffix in effect: the configured one unless it is absent or
/// blank, in which case the default.
pub open spec fn sidecar_suffix_spec(config: Config) -> Seq<char> {
    match config.sidecar_suffix {
        Some(s) => if all_ws(s@) {
            ".relaygraph.yaml"@
        } else {
            s@
        },
        None => ".relaygraph.yaml"@,
    }
}

/// The sidecar suffix in effect.
pub fn sidecar_suffix(config: &Config) -> (r: String)
    ensures
        r@ == sidecar_suffix_spec(*config),
{
    match &config.sidecar_suffix {
        Some(suffix) => {
            if is_blank(suffix.as_str()) {
                own(DEFAULT_SIDECAR_SUFFIX)
            } else {
                suffix.clone()
            }
        },
        None => own(DEFAULT_SIDECAR_SUFFIX),
    }
}

/// Characters that may not appear in a sidecar suffix.
pub open spec fn is_reserved_filename_char(c: char) -> bool {
    c == '<' || c == '>' || c == ':' || c == '"' || c == '/' || c == '\\' || c == '|' || c == '?'
        || c == '*'
}

/// A sidecar suffix is a non-blank filename suffix: no reserved or
/// separator characters, no `..`, and no trailing dot or whitespace.
pub open spec fn valid_sidecar_suffix(s: Seq<char>) -> bool {
    &&& !all_ws(s)
    &&& !(s.len() > 0 && (s.last() == '.' || is_ws(s.last())))
    &&& forall|i: int| 0 <= i < s.len() ==> !is_reserved_filename_char(#[trigger] s[i])
    &&& !contains_text(s, ".."@)
}

/// Whether `suffix` is usable as a sidecar suffix.
pub fn is_valid_sidecar_suffix(suffix: &str) -> (r: bool)
    ensures
        r == valid_sidecar_suffix(suffix@),
{
    if is_blank(suffix) {
        return false;
    }
    let v = chars_of(suffix);
    if v.len() > 0 && (v[v.len() - 1] == '.' || char_is_ws(v[v.len() - 1])) {
        return false;
    }
    let mut i: usize = 0;
    while i < v.len()
        invariant
            i <= v.len(),
            v@ == suffix@,
            forall|j: int| 0 <= j < i ==> !is_reserved_filename_char(#[trigger] v@[j]),
        decreases v.len() - i,
    {
        let c = v[i];
        if c == '<' || c == '>' || c == ':' || c == '"' || c == '/' || c == '\\' || c == '|' || c
            == '?' || c == '*' {
            assert(is_reserved_filename_char(suffix@[i as int]));
            return false;
        }
        i += 1;
    }
    !contains_str(suffix, "..")
}

/// The message for a blank list entry.
pub open spec fn blank_entry_message(field: Seq<char>) -> Seq<char> {
    field + " entries must not be empty or whitespace"@
}

/// One diagnostic per blank entry of `values`.
pub open spec fn blank_entry_diagnostics(field: Seq<char>, values: Seq<Seq<char>>) -> Seq<
    (Seq<char>, Option<Seq<char>>, Seq<char>),
>
    decreases values.len(),
{
    if values.len() == 0 {
        seq![]
    } else {
        let rest = blank_entry_diagnostics(field, values.drop_last());
        if all_ws(values.last()) {
            rest.push(("schema-error"@, Some(".relaygraph.yaml"@), blank_entry_message(field)))
        } else {
            rest
        }
    }
}

/// The entries of an optional list.
pub open spec fn list_view(values: Option<Vec<String>>) -> Seq<Seq<char>> {
    match values {
        Some(v) => strs_view(v@),
        None => seq![],
    }
}

/// Reports every blank entry of a list field.
fn validate_non_blank_list(field: &str, values: &Option<Vec<String>>, diagnostics: &mut Vec<Diagnostic>)
    ensures
        diags_view(final(diagnostics)@) == diags_view(old(diagnostics)@)
            + blank_entry_diagnostics(field@, list_view(*values)),
{
    proof {
        reveal_strlit("schema-error");
        reveal_strlit(".relaygraph.yaml");
        reveal_strlit(" entries must not be empty or whitespace");
    }
    let ghost start = diags_view(diagnostics@);
    if let Some(values) = values {
        let ghost vv = strs_view(values@);
        let mut i: usize = 0;
        while i < values.len()
            invariant
                i <= values.len(),
                vv == strs_view(values@),
                diags_view(diagnostics@) == start + blank_entry_diagnostics(field@, vv.take(i as int)),
            decreases values.len() - i,
        {
            let ghost before = vv.take(i as int);
            assert(vv.take(i + 1).drop_last() =~= before);
            assert(vv[i as int] == values@[i as int]@);
            if is_blank(values[i].as_str()) {
                proof {
                    reveal_strlit("schema-error");
                    reveal_strlit(".relaygraph.yaml");
                    reveal_strlit(" entries must not be empty or whitespace");
                }
                let d = crate::model::diagnostic(
                    "schema-error",
                    Some(own(CONFIG_PATH)),
                    cat(field, " entries must not be empty or whitespace"),
                );
                push_diag(diagnostics, d);
            }
            i += 1;
        }
        assert(vv.take(values.len() as int) =~= vv);
    } else {
        assert(diags_view(diagnostics@) =~= start + blank_entry_diagnostics(field@, seq![]));
    }
}

/// The message for an unusable sidecar suffix.
pub open spec fn suffix_message() -> Seq<char> {
    "sidecarSuffix must be a non-empty filename suffix without path separators or parent traversal"@
}

/// The diagnostics of `validate_config_values`, in order.
pub open spec fn config_value_diagnostics(config: Config) -> Seq<(Seq<char>, Option<Seq<char>>, Seq<char>)> {
    let suffix = match config.sidecar_suffix {
        Some(s) => if valid_sidecar_suffix(s@) {
            seq![]
        } else {
            seq![("schema-error"@, Some(".relaygraph.yaml"@), suffix_message())]
        },
        None => seq![],
    };
    suffix + blank_entry_diagnostics("plugins"@, list_view(config.plugins))
        + blank_entry_diagnostics("exclude"@, list_view(config.exclude))
        + blank_entry_diagnostics("requireSidecar"@, list_view(config.require_sidecar))
}

/// Reports an unusable sidecar suffix and blank entries of the list fields.
pub fn validate_config_values(config: &Config, diagnostics: &mut Vec<Diagnostic>)
    ensures
        diags_view(final(diagnostics)@) == diags_view(old(diagnostics)@) + config_value_diagnostics(*config),
{
    let ghost start = diags_view(diagnostics@);
    if let Some(suffix) = &config.sidecar_suffix {
        if !is_valid_sidecar_suffix(suffix.as_str()) {
            proof {
                reveal_strlit("schema-error");
                reveal_strlit(".relaygraph.yaml");
                reveal_strlit("sidecarSuffix must be a non-empty filename suffix without path separators or parent traversal");
            }
            let d = crate::model::diagnostic(
                "schema-error",
                Some(own(CONFIG_PATH)),
                own("sidecarSuffix must be a non-empty filename suffix without path separators or parent traversal"),
            );
            push_diag(diagnostics, d);
        }
    }
    let ghost after_suffix = diags_view(diagnostics@);
    validate_non_blank_list("plugins", &config.plugins, diagnostics);
    validate_non_blank_list("exclude", &config.exclude, diagnostics);
    validate_non_blank_list("requireSidecar", &config.require_sidecar, diagnostics);
    proof {
        reveal_strlit("plugins");
        reveal_strlit("exclude");
        reveal_strlit("requireSidecar");
        let s = after_suffix.skip(start.len() as int);
        assert(after_suffix =~= start + s);
    }
    assert(diags_view(diagnostics@) =~= start + config_value_diagnostics(*config));
}

} // verus!
