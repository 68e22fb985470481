//! Shared data shapes: configuration, declarations, resolved graph.
use vstd::prelude::*;

verus! {

/// Repository-relative path of the root configuration file.
pub const CONFIG_PATH: &'static str = ".relaygraph.yaml";

/// Suffix used for sidecars when the configuration names none.
pub const DEFAULT_SIDECAR_SUFFIX: &'static str = ".relaygraph.yaml";

/// Default location of the bundled feature-trace plugin.
pub const DEFAULT_FEATURE_TRACE_PLUGIN: &'static str = "relaygraph/plugins/feature-trace.yaml";

/// Config and plugin format version.
pub const SUPPORTED_SCHEMA_VERSION: u32 = 1;

/// Version of the SQLite cache layout.
pub const CACHE_SCHEMA_VERSION: u32 = 1;

/// Sidecar format versions.
pub const SIDECAR_SCHEMA_VERSION_V1: u32 = 1;

pub const SIDECAR_SCHEMA_VERSION_V2: u32 = 2;

pub const SIDECAR_SCHEMA_VERSION_V3: u32 = 3;

/// Traversal direction.
#[derive(Clone, Copy, Debug, PartialEq, Eq, Structural)]
pub enum Direction {
    Outgoing,
    Incoming,
    Both,
}

/// Root configuration (`.relaygraph.yaml`).
#[derive(Debug, Clone, PartialEq, Eq)]
pub struct Config {
    pub schema_version: Option<u32>,
    pub use_git_ignore: Option<bool>,
    pub sidecar_suffix: Option<String>,
    pub plugins: Option<Vec<String>>,
    pub exclude: Option<Vec<String>>,
    pub require_sidecar: Option<Vec<String>>,
}

/// Endpoint revisions recorded when a relation was reviewed.
#[derive(Debug, Clone, PartialEq, Eq)]
pub struct AcknowledgedRevisions {
    pub source_revision: String,
    pub target_revision: String,
    pub link_revision: Option<String>,
}

/// One declared outgoing link of a sidecar.
#[derive(Debug, Clone, PartialEq, Eq)]
pub struct Link {
    pub rel: String,
    pub to: String,
    pub reason: Option<String>,
    pub path_hint: Option<String>,
    pub order: Option<i64>,
    pub acknowledged: Option<AcknowledgedRevisions>,
}

/// A parsed sidecar. `metadata_json` holds the metadata serialized as JSON
/// when it is JSON-compatible, and is `None` otherwise.
#[derive(Debug, Clone, PartialEq, Eq)]
pub struct Sidecar {
    pub schema_version: Option<u32>,
    pub id: Option<String>,
    pub kind: Option<String>,
    pub links: Vec<Link>,
    pub metadata_json: Option<String>,
}

/// A plugin rule.
#[derive(Debug, Clone, PartialEq, Eq)]
pub struct Rule {
    pub when: String,
    pub require_any_outgoing: Vec<String>,
    pub require_reachable_kinds: Vec<String>,
}

/// Plugin traversal hints.
#[derive(Debug, Clone, PartialEq, Eq)]
pub struct Traversal {
    pub start_kinds: Vec<String>,
    pub relation_order: Vec<String>,
}

/// A declarative plugin.
#[derive(Debug, Clone, PartialEq, Eq)]
pub struct Plugin {
    pub schema_version: Option<u32>,
    pub name: String,
    pub resource_kinds: Vec<String>,
    pub relations: Vec<String>,
    pub rules: Vec<Rule>,
    pub traversal: Option<Traversal>,
}

/// A validation finding.
#[derive(Debug, Clone, PartialEq, Eq)]
pub struct Diagnostic {
    pub code: String,
    pub path: Option<String>,
    pub message: String,
}

/// A link after locator resolution.
#[derive(Debug, Clone, PartialEq, Eq)]
pub struct ResolvedLink {
    pub rel: String,
    pub to: String,
    pub reason: Option<String>,
    pub target_path: Option<String>,
    pub target_id: Option<String>,
    pub order: Option<i64>,
    pub acknowledged: Option<AcknowledgedRevisions>,
}

/// A repository resource. `metadata_json` is the JSON object text of its
/// sidecar metadata (`{}` when there is none or it is not JSON-compatible).
#[derive(Debug, Clone, PartialEq, Eq)]
pub struct Resource {
    pub path: String,
    pub id: Option<String>,
    pub kind: Option<String>,
    pub sidecar: Option<String>,
    pub metadata_json: String,
    pub links: Vec<ResolvedLink>,
}

/// A parsed `id:` or `path:` locator.
#[derive(Debug, Clone, PartialEq, Eq)]
pub enum Locator {
    Id(String),
    Path(String),
}

/// The validated graph.
#[derive(Debug, Clone, PartialEq, Eq)]
pub struct BuildResult {
    pub resources: Vec<Resource>,
    pub diagnostics: Vec<Diagnostic>,
    pub plugins: Vec<Plugin>,
}

/// Spec view of a diagnostic: code, path and message as character sequences.
pub open spec fn diag_view(d: Diagnostic) -> (Seq<char>, Option<Seq<char>>, Seq<char>) {
    (d.code@, opt_view(d.path), d.message@)
}

/// The views of a list of diagnostics.
pub open spec fn diags_view(ds: Seq<Diagnostic>) -> Seq<(Seq<char>, Option<Seq<char>>, Seq<char>)> {
    ds.map_values(|d: Diagnostic| diag_view(d))
}

/// View of an optional string.
pub open spec fn opt_view(o: Option<String>) -> Option<Seq<char>> {
    match o {
        Some(s) => Some(s@),
        None => None,
    }
}

/// The views of a list of strings.
pub open spec fn strs_view(v: Seq<String>) -> Seq<Seq<char>> {
    v.map_values(|s: String| s@)
}

/// Builds a diagnostic.
pub fn diagnostic(code: &str, path: Option<String>, message: String) -> (d: Diagnostic)
    ensures
        d.code@ == code@,
        d.path == path,
        d.message == message,
{
    Diagnostic { code: code.to_owned(), path, message }
}

/// Spec view of one diagnostic.
pub type DiagView = (Seq<char>, Option<Seq<char>>, Seq<char>);

/// Whether `v` holds a string equal to `s`.
pub fn vec_contains(v: &Vec<String>, s: &str) -> (r: bool)
    ensures
        r == strs_view(v@).contains(s@),
{
    let mut i: usize = 0;
    while i < v.len()
        invariant
            i <= v.len(),
            forall|j: int| 0 <= j < i ==> v@[j]@ != s@,
        decreases v.len() - i,
    {
        if crate::text::text_eq(v[i].as_str(), s) {
            assert(strs_view(v@)[i as int] == s@);
            return true;
        }
        i += 1;
    }
    assert forall|j: int| 0 <= j < strs_view(v@).len() implies strs_view(v@)[j] != s@ by {
        assert(strs_view(v@)[j] == v@[j]@);
    }
    false
}

/// Position of the first string of `v` equal to `s`.
pub fn vec_position(v: &Vec<String>, s: &str) -> (r: Option<usize>)
    ensures
        r matches Some(i) ==> i < v.len() && v@[i as int]@ == s@ && forall|j: int| 0 <= j < i ==> v@[j]@ != s@,
        r is None ==> !strs_view(v@).contains(s@),
{
    let mut i: usize = 0;
    while i < v.len()
        invariant
            i <= v.len(),
            forall|j: int| 0 <= j < i ==> v@[j]@ != s@,
        decreases v.len() - i,
    {
        if crate::text::text_eq(v[i].as_str(), s) {
            return Some(i);
        }
        i += 1;
    }
    assert forall|j: int| 0 <= j < strs_view(v@).len() implies strs_view(v@)[j] != s@ by {
        assert(strs_view(v@)[j] == v@[j]@);
    }
    None
}

/// Appends a diagnostic.
pub fn push_diag(diagnostics: &mut Vec<Diagnostic>, d: Diagnostic)
    ensures
        final(diagnostics)@ == old(diagnostics)@.push(d),
        diags_view(final(diagnostics)@) == diags_view(old(diagnostics)@).push(diag_view(d)),
{
    let ghost before = diagnostics@;
    diagnostics.push(d);
    assert(diags_view(diagnostics@) =~= diags_view(before).push(diag_view(d)));
}

/// A copy of an optional string.
pub fn copy_opt(o: &Option<String>) -> (r: Option<String>)
    ensures
        r == *o,
{
    match o {
        Some(s) => Some(s.clone()),
        None => None,
    }
}

/// A copy of a list of strings.
pub fn copy_strs(v: &Vec<String>) -> (r: Vec<String>)
    ensures
        r@ == v@,
{
    let mut r: Vec<String> = Vec::new();
    let mut i: usize = 0;
    while i < v.len()
        invariant
            i <= v.len(),
            r@ == v@.take(i as int),
        decreases v.len() - i,
    {
        r.push(v[i].clone());
        assert(v@.take(i + 1) =~= v@.take(i as int).push(v@[i as int]));
        i += 1;
    }
    assert(v@.take(v.len() as int) =~= v@);
    r
}

impl AcknowledgedRevisions {
    /// A field-for-field copy.
    pub fn duplicate(&self) -> (r: Self)
        ensures
            r == *self,
    {
        AcknowledgedRevisions {
            source_revision: self.source_revision.clone(),
            target_revision: self.target_revision.clone(),
            link_revision: copy_opt(&self.link_revision),
        }
    }
}

/// A copy of an optional acknowledgement.
pub fn copy_ack(o: &Option<AcknowledgedRevisions>) -> (r: Option<AcknowledgedRevisions>)
    ensures
        r == *o,
{
    match o {
        Some(a) => Some(a.duplicate()),
        None => None,
    }
}

impl Link {
    /// A field-for-field copy.
    pub fn duplicate(&self) -> (r: Self)
        ensures
            r == *self,
    {
        Link {
            rel: self.rel.clone(),
            to: self.to.clone(),
            reason: copy_opt(&self.reason),
            path_hint: copy_opt(&self.path_hint),
            order: self.order,
            acknowledged: copy_ack(&self.acknowledged),
        }
    }
}

/// A copy of a list of links.
pub fn copy_links(v: &Vec<Link>) -> (r: Vec<Link>)
    ensures
        r@ == v@,
{
    let mut r: Vec<Link> = Vec::new();
    let mut i: usize = 0;
    while i < v.len()
        invariant
            i <= v.len(),
            r@ == v@.take(i as int),
        decreases v.len() - i,
    {
        r.push(v[i].duplicate());
        assert(v@.take(i + 1) =~= v@.take(i as int).push(v@[i as int]));
        i += 1;
    }
    assert(v@.take(v.len() as int) =~= v@);
    r
}

impl Sidecar {
    /// A field-for-field copy.
    pub fn duplicate(&self) -> (r: Self)
        ensures
            r.schema_version == self.schema_version,
            r.id == self.id,
            r.kind == self.kind,
            r.links@ == self.links@,
            r.metadata_json == self.metadata_json,
    {
        Sidecar {
            schema_version: self.schema_version,
            id: copy_opt(&self.id),
            kind: copy_opt(&self.kind),
            links: copy_links(&self.links),
            metadata_json: copy_opt(&self.metadata_json),
        }
    }
}

impl ResolvedLink {
    /// A field-for-field copy.
    pub fn duplicate(&self) -> (r: Self)
        ensures
            r == *self,
    {
        ResolvedLink {
            rel: self.rel.clone(),
            to: self.to.clone(),
            reason: copy_opt(&self.reason),
            target_path: copy_opt(&self.target_path),
            target_id: copy_opt(&self.target_id),
            order: self.order,
            acknowledged: copy_ack(&self.acknowledged),
        }
    }
}

impl Diagnostic {
    /// A field-for-field copy.
    pub fn duplicate(&self) -> (r: Self)
        ensures
            r == *self,
    {
        Diagnostic {
            code: self.code.clone(),
            path: copy_opt(&self.path),
            message: self.message.clone(),
        }
    }
}

} // verus!
