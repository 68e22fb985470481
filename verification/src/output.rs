//! Command arguments and outputs: `rel:id:` link arguments, the repository
//! paths an output must not replace, the checks before an output is
//! written, and the lexical form of an output path.
use vstd::prelude::*;

use crate::generate::GenerateLink;
use crate::model::{strs_view, BuildResult, Config, Locator};
use crate::sorted::{sorted_insert, sorted_strict};
use crate::text::{cat, own};

verus! {

/// What a `rel:id:<id>` link argument gives: the relation and target, or
/// why it is refused.
pub open spec fn id_link_spec(value: Seq<char>) -> Result<(Seq<char>, Seq<char>), Seq<char>> {
    match crate::generate::generate_link_spec(value) {
        Err(m) => Err(m),
        Ok((rel, to)) => match crate::locator::locator_spec(to) {
            Err(m) => Err(m),
            Ok((true, _)) => Ok((rel, to)),
            Ok((false, _)) => Err("link target must use id: locator"@),
        },
    }
}

/// Parses a link argument of a link edit: `rel:` and an `id:` locator.
pub fn parse_id_link(value: &str) -> (r: Result<GenerateLink, String>)
    ensures
        match id_link_spec(value@) {
            Ok((rel, to)) => r matches Ok(l) && l.rel@ == rel && l.to@ == to,
            Err(m) => r matches Err(e) && e@ == m,
        },
{
    let link = match crate::generate::parse_generate_link(value) {
        Err(m) => return Err(m),
        Ok(l) => l,
    };
    match crate::locator::parse_locator(link.to.as_str()) {
        Err(m) => Err(m),
        Ok(Locator::Id(_)) => Ok(link),
        Ok(Locator::Path(_)) => Err(own("link target must use id: locator")),
    }
}

/// The listed files named with the sidecar suffix, in order.
pub open spec fn sidecar_named(files: Seq<Seq<char>>, suffix: Seq<char>) -> Seq<Seq<char>>
    decreases files.len(),
{
    if files.len() == 0 {
        seq![]
    } else if suffix.is_suffix_of(files.last()) {
        sidecar_named(files.drop_last(), suffix).push(files.last())
    } else {
        sidecar_named(files.drop_last(), suffix)
    }
}

/// The listed files named with the sidecar suffix, in order.
pub fn sidecar_files(files: &Vec<String>, suffix: &str) -> (r: Vec<String>)
    ensures
        strs_view(r@) == sidecar_named(strs_view(files@), suffix@),
{
    let mut named: Vec<String> = Vec::new();
    let mut i: usize = 0;
    assert(strs_view(named@) =~= seq![]);
    while i < files.len()
        invariant
            i <= files.len(),
            strs_view(named@) == sidecar_named(strs_view(files@.take(i as int)), suffix@),
        decreases files.len() - i,
    {
        let ghost before = strs_view(named@);
        assert(strs_view(files@.take(i + 1)).drop_last() =~= strs_view(files@.take(i as int)));
        assert(strs_view(files@.take(i + 1)).last() == files@[i as int]@);
        if crate::text::ends_with(files[i].as_str(), suffix) {
            named.push(files[i].clone());
            assert(strs_view(named@) =~= before.push(files@[i as int]@));
        }
        i += 1;
    }
    assert(files@.take(files.len() as int) =~= files@);
    named
}

/// The path of each resource followed by its sidecar, if any.
pub open spec fn owned_paths(rs: Seq<crate::model::Resource>) -> Seq<Seq<char>>
    decreases rs.len(),
{
    if rs.len() == 0 {
        seq![]
    } else {
        let rest = owned_paths(rs.drop_last()).push(rs.last().path@);
        match rs.last().sidecar {
            Some(sc) => rest.push(sc@),
            None => rest,
        }
    }
}

/// The repository paths an output must never replace: the root config, the
/// configured plugins, every listed file named like a sidecar, and every
/// resource and sidecar of the graph.
pub open spec fn protected_set(config: Config, graph: BuildResult, files: Seq<Seq<char>>) -> Set<Seq<char>> {
    set![".relaygraph.yaml"@]
        + crate::plugin::valid_plugin_paths(crate::config::list_view(config.plugins)).to_set()
        + sidecar_named(files, crate::config::sidecar_suffix_spec(config)).to_set()
        + owned_paths(graph.resources@).to_set()
}

/// Inserts each of `items` into the sorted set `r`.
fn insert_all(r: &mut Vec<String>, items: &Vec<String>)
    requires
        sorted_strict(strs_view(old(r)@)),
    ensures
        sorted_strict(strs_view(final(r)@)),
        strs_view(final(r)@).to_set() == strs_view(old(r)@).to_set() + strs_view(items@).to_set(),
{
    let ghost start = strs_view(r@).to_set();
    let mut i: usize = 0;
    while i < items.len()
        invariant
            i <= items.len(),
            sorted_strict(strs_view(r@)),
            strs_view(r@).to_set() == start + strs_view(items@.take(i as int)).to_set(),
        decreases items.len() - i,
    {
        let ghost before = strs_view(items@.take(i as int));
        sorted_insert(r, items[i].clone());
        assert(strs_view(items@.take(i + 1)) =~= before.push(items@[i as int]@));
        proof { before.lemma_push_to_set_commute(items@[i as int]@); }
        assert(start + before.push(items@[i as int]@).to_set() =~= (start + before.to_set()).insert(items@[i as int]@));
        i += 1;
    }
    assert(items@.take(items.len() as int) =~= items@);
}

/// The protected repository paths, in `str` order; `files` are the listed
/// repository files.
pub fn protected_repo_paths(config: &Config, graph: &BuildResult, files: &Vec<String>) -> (r: Vec<String>)
    ensures
        sorted_strict(strs_view(r@)),
        strs_view(r@).to_set() == protected_set(*config, *graph, strs_view(files@)),
{
    let mut r: Vec<String> = Vec::new();
    assert(strs_view(r@) =~= seq![]);
    sorted_insert(&mut r, own(crate::model::CONFIG_PATH));
    let ghost s0 = strs_view(r@).to_set();
    assert(s0 =~= set![".relaygraph.yaml"@]) by {
        assert(Seq::<Seq<char>>::empty().to_set() =~= Set::empty());
    }
    let plugins = crate::plugin::configured_plugin_paths(config);
    insert_all(&mut r, &plugins);
    let ghost s1 = strs_view(r@).to_set();
    let suffix = crate::config::sidecar_suffix(config);
    let named = sidecar_files(files, suffix.as_str());
    insert_all(&mut r, &named);
    let rs = &graph.resources;
    let mut owned: Vec<String> = Vec::new();
    let mut k: usize = 0;
    assert(strs_view(owned@) =~= seq![]);
    while k < rs.len()
        invariant
            k <= rs.len(),
            strs_view(owned@) == owned_paths(rs@.take(k as int)),
        decreases rs.len() - k,
    {
        assert(rs@.take(k + 1).drop_last() =~= rs@.take(k as int));
        let ghost before = strs_view(owned@);
        owned.push(rs[k].path.clone());
        let ghost b1 = strs_view(owned@);
        assert(b1 =~= before.push(rs@[k as int].path@));
        if let Some(sc) = &rs[k].sidecar {
            owned.push(sc.clone());
            assert(strs_view(owned@) =~= b1.push(sc@));
        }
        k += 1;
    }
    assert(rs@.take(rs.len() as int) =~= rs@);
    insert_all(&mut r, &owned);
    r
}

/// Why an output may not be written: it would replace a protected
/// repository path (`repo_path` is the output's path inside the repository,
/// if it is inside), or it exists and an explicit output needs `--force`.
pub open spec fn guard_spec(repo_path: Option<Seq<char>>, protected: Seq<Seq<char>>, exists: bool, force: bool, require_force: bool, display: Seq<char>) -> Result<(), Seq<char>> {
    match repo_path {
        Some(p) if protected.contains(p) => Err("refusing to write output into repository declaration or source path "@ + p),
        _ => if require_force && exists && !force {
            Err("refusing to overwrite existing output "@ + display + "; pass --force to replace it"@)
        } else {
            Ok(())
        },
    }
}

/// Refuses to write an output over a protected repository path, or over an
/// existing explicit output without `--force`.
pub fn guard_output(repo_path: Option<&str>, protected: &Vec<String>, exists: bool, force: bool, require_force: bool, display: &str) -> (r: Result<(), String>)
    ensures
        match guard_spec(match repo_path { Some(p) => Some(p@), None => None }, strs_view(protected@), exists, force, require_force, display@) {
            Ok(()) => r is Ok,
            Err(m) => r matches Err(e) && e@ == m,
        },
{
    if let Some(p) = repo_path {
        if crate::model::vec_contains(protected, p) {
            return Err(cat("refusing to write output into repository declaration or source path ", p));
        }
    }
    if require_force && exists && !force {
        let mut m = cat("refusing to overwrite existing output ", display);
        m.append("; pass --force to replace it");
        return Err(m);
    }
    Ok(())
}

/// One component of a filesystem path.
pub enum PathPart {
    /// A Windows drive or share prefix.
    Prefix(String),
    /// The root directory.
    Root,
    /// `.`
    Current,
    /// `..`
    Parent,
    /// A name.
    Normal(String),
}

/// The view of a path component: its kind and text.
pub open spec fn part_view(p: PathPart) -> (nat, Seq<char>) {
    match p {
        PathPart::Prefix(s) => (0, s@),
        PathPart::Root => (1, seq![]),
        PathPart::Current => (2, seq![]),
        PathPart::Parent => (3, seq![]),
        PathPart::Normal(s) => (4, s@),
    }
}

/// The lexical normal form of a path's components: `.` is dropped and
/// `..` removes the name before it (never the root or a prefix).
pub open spec fn normalized_parts(parts: Seq<(nat, Seq<char>)>) -> Seq<(nat, Seq<char>)>
    decreases parts.len(),
{
    if parts.len() == 0 {
        seq![]
    } else {
        let rest = normalized_parts(parts.drop_last());
        let p = parts.last();
        if p.0 == 2 {
            rest
        } else if p.0 == 3 {
            if rest.len() > 0 && rest.last().0 == 4 { rest.drop_last() } else { rest }
        } else {
            rest.push(p)
        }
    }
}

/// A copy of a path component.
fn copy_part(p: &PathPart) -> (r: PathPart)
    ensures
        part_view(r) == part_view(*p),
{
    match p {
        PathPart::Prefix(s) => PathPart::Prefix(s.clone()),
        PathPart::Root => PathPart::Root,
        PathPart::Current => PathPart::Current,
        PathPart::Parent => PathPart::Parent,
        PathPart::Normal(s) => PathPart::Normal(s.clone()),
    }
}

/// The views of path components.
pub open spec fn parts_view(v: Seq<PathPart>) -> Seq<(nat, Seq<char>)> {
    v.map_values(|p: PathPart| part_view(p))
}

/// Normalizes a path lexically, without reading the filesystem.
pub fn normalize_path_components(parts: &Vec<PathPart>) -> (r: Vec<PathPart>)
    ensures
        parts_view(r@) == normalized_parts(parts_view(parts@)),
{
    let ghost pv = parts_view(parts@);
    let mut r: Vec<PathPart> = Vec::new();
    let mut i: usize = 0;
    assert(parts_view(r@) =~= seq![]);
    while i < parts.len()
        invariant
            i <= parts.len(),
            pv == parts_view(parts@),
            parts_view(r@) == normalized_parts(pv.take(i as int)),
        decreases parts.len() - i,
    {
        assert(pv.take(i + 1).drop_last() =~= pv.take(i as int));
        assert(pv.take(i + 1).last() == part_view(parts@[i as int]));
        let ghost before = parts_view(r@);
        match &parts[i] {
            PathPart::Current => {},
            PathPart::Parent => {
                let pop = r.len() > 0 && match &r[r.len() - 1] { PathPart::Normal(_) => true, _ => false };
                if pop {
                    assert(before.last() == part_view(r@[r.len() - 1]));
                    let _ = r.pop();
                    assert(parts_view(r@) =~= before.drop_last());
                }
            },
            p => {
                let c = copy_part(p);
                r.push(c);
                assert(parts_view(r@) =~= before.push(part_view(parts@[i as int])));
            },
        }
        i += 1;
    }
    assert(pv.take(parts.len() as int) =~= pv);
    r
}

} // verus!
