//! Rewriting stale path hints to the paths their link targets resolve to.
use vstd::prelude::*;

use crate::json::json_quoted;
use crate::lines::{comment_suffix, indent, replace_value, text_lines};
use crate::link_edit::{id_target, resource_id_paths, resource_ids};
use crate::locator::{locator_spec, parse_locator};
use crate::model::{diags_view, opt_view, strs_view, BuildResult, DiagView, Diagnostic, Link, Locator, Sidecar};
use crate::text::{all_ws, join, trim_start};

verus! {

/// Where link targets resolve: the path of each id (the last one listed
/// wins) and the resource paths.
pub struct SyncTables {
    pub ids: Vec<String>,
    pub id_paths: Vec<String>,
    pub resource_paths: Vec<String>,
}

impl SyncTables {
    /// Each id has its path.
    pub open spec fn wf(&self) -> bool {
        self.ids.len() == self.id_paths.len()
    }
}

/// The views of the tables: ids, their paths, and the resource paths.
pub type TablesView = (Seq<Seq<char>>, Seq<Seq<char>>, Seq<Seq<char>>);

/// The view of sync tables.
pub open spec fn tables_view(t: SyncTables) -> TablesView {
    (strs_view(t.ids@), strs_view(t.id_paths@), strs_view(t.resource_paths@))
}

/// The diagnostics that block a sync: all but path-hint mismatches.
pub open spec fn sync_blocking_spec(ds: Seq<DiagView>) -> Seq<DiagView>
    decreases ds.len(),
{
    if ds.len() == 0 {
        seq![]
    } else if ds.last().0 == "path-hint-mismatch"@ {
        sync_blocking_spec(ds.drop_last())
    } else {
        sync_blocking_spec(ds.drop_last()).push(ds.last())
    }
}

/// The resource paths of the graph, in order.
pub open spec fn resource_paths_of(rs: Seq<crate::model::Resource>) -> Seq<Seq<char>> {
    rs.map_values(|r: crate::model::Resource| r.path@)
}

/// The tables of the graph's resources.
pub open spec fn graph_tables(rs: Seq<crate::model::Resource>) -> TablesView {
    (resource_ids(rs), resource_id_paths(rs), resource_paths_of(rs))
}

/// The tables a sync resolves targets with, or every blocking diagnostic of
/// the graph.
pub fn sync_tables(graph: &BuildResult) -> (r: Result<SyncTables, String>)
    ensures
        sync_blocking_spec(diags_view(graph.diagnostics@)).len() > 0 ==> (r matches Err(e)
            && e@ == crate::diagnostic::diagnostics_text(sync_blocking_spec(diags_view(graph.diagnostics@)))),
        sync_blocking_spec(diags_view(graph.diagnostics@)).len() == 0 ==> (r matches Ok(t) && t.wf()
            && tables_view(t) == graph_tables(graph.resources@)),
{
    proof { reveal_strlit("path-hint-mismatch"); }
    let ds = &graph.diagnostics;
    let ghost dv = diags_view(ds@);
    let mut blocking: Vec<Diagnostic> = Vec::new();
    let mut i: usize = 0;
    while i < ds.len()
        invariant
            i <= ds.len(),
            dv == diags_view(ds@),
            diags_view(blocking@) == sync_blocking_spec(dv.take(i as int)),
        decreases ds.len() - i,
    {
        assert(dv.take(i + 1).drop_last() =~= dv.take(i as int));
        assert(dv.take(i + 1).last() == crate::model::diag_view(ds@[i as int]));
        if !crate::text::text_eq(ds[i].code.as_str(), "path-hint-mismatch") {
            crate::model::push_diag(&mut blocking, ds[i].duplicate());
        }
        i += 1;
    }
    assert(dv.take(ds.len() as int) =~= dv);
    if blocking.len() > 0 {
        return Err(crate::diagnostic::diagnostics_to_message(&blocking));
    }
    let rs = &graph.resources;
    let mut ids: Vec<String> = Vec::new();
    let mut id_paths: Vec<String> = Vec::new();
    let mut paths: Vec<String> = Vec::new();
    let mut k: usize = 0;
    while k < rs.len()
        invariant
            k <= rs.len(),
            ids.len() == id_paths.len(),
            strs_view(ids@) == resource_ids(rs@.take(k as int)),
            strs_view(id_paths@) == resource_id_paths(rs@.take(k as int)),
            strs_view(paths@) == resource_paths_of(rs@.take(k as int)),
        decreases rs.len() - k,
    {
        assert(rs@.take(k + 1).drop_last() =~= rs@.take(k as int));
        let ghost bp = paths@;
        paths.push(rs[k].path.clone());
        assert(strs_view(paths@) =~= strs_view(bp).push(rs@[k as int].path@));
        assert(resource_paths_of(rs@.take(k + 1)) =~= resource_paths_of(rs@.take(k as int)).push(rs@[k as int].path@));
        if let Some(id) = &rs[k].id {
            let ghost (bi, bip) = (ids@, id_paths@);
            ids.push(id.clone());
            id_paths.push(rs[k].path.clone());
            assert(strs_view(ids@) =~= strs_view(bi).push(id@));
            assert(strs_view(id_paths@) =~= strs_view(bip).push(rs@[k as int].path@));
        }
        k += 1;
    }
    assert(rs@.take(rs.len() as int) =~= rs@);
    Ok(SyncTables { ids, id_paths, resource_paths: paths })
}

/// The resource path a link target resolves to: the path of its id, or its
/// strictly normalized path when a resource has it.
pub open spec fn resolved_target_spec(locator: Seq<char>, t: TablesView) -> Option<Seq<char>> {
    match locator_spec(locator) {
        Err(_) => None,
        Ok((true, id)) => id_target(t.0, t.1, id),
        Ok((false, p)) => match crate::util::strict_path(p) {
            Err(_) => None,
            Ok(n) => if t.2.contains(n) { Some(n) } else { None },
        },
    }
}

/// The path of the last id entry equal to `id`.
fn lookup_last(ids: &Vec<String>, paths: &Vec<String>, id: &str) -> (r: Option<String>)
    requires
        ids.len() == paths.len(),
    ensures
        opt_view(r) == id_target(strs_view(ids@), strs_view(paths@), id@),
{
    let ghost iv = strs_view(ids@);
    let ghost pv = strs_view(paths@);
    let mut k = ids.len();
    assert(iv.take(k as int) =~= iv);
    while k > 0
        invariant
            k <= ids.len(),
            ids.len() == paths.len(),
            iv == strs_view(ids@),
            pv == strs_view(paths@),
            id_target(iv, pv, id@) == id_target(iv.take(k as int), pv, id@),
        decreases k,
    {
        assert(iv.take(k as int).drop_last() =~= iv.take(k - 1));
        assert(iv.take(k as int).last() == ids@[k - 1]@);
        if crate::text::text_eq(ids[k - 1].as_str(), id) {
            assert(pv[k - 1] == paths@[k - 1]@);
            return Some(paths[k - 1].clone());
        }
        k -= 1;
    }
    None
}

/// The resource path a link target resolves to, if any.
pub fn resolved_target_path(locator: &str, tables: &SyncTables) -> (r: Option<String>)
    requires
        tables.wf(),
    ensures
        opt_view(r) == resolved_target_spec(locator@, tables_view(*tables)),
{
    match parse_locator(locator) {
        Err(_) => None,
        Ok(Locator::Id(id)) => lookup_last(&tables.ids, &tables.id_paths, id.as_str()),
        Ok(Locator::Path(p)) => match crate::util::normalize_repo_path_strict(p.as_str()) {
            Err(_) => None,
            Ok(n) => if crate::model::vec_contains(&tables.resource_paths, n.as_str()) { Some(n) } else { None },
        },
    }
}

/// The new path hint of a link: its resolved target path when it has a
/// hint that differs from it.
pub open spec fn hint_update(l: Link, t: TablesView) -> Option<Seq<char>> {
    match l.path_hint {
        None => None,
        Some(h) => match resolved_target_spec(l.to@, t) {
            None => None,
            Some(p) => if h@ != p { Some(p) } else { None },
        },
    }
}

/// The new path hint of each link, in order.
pub open spec fn hint_updates_spec(links: Seq<Link>, t: TablesView) -> Seq<Option<Seq<char>>> {
    Seq::new(links.len(), |i: int| hint_update(links[i], t))
}

/// The views of optional strings.
pub open spec fn opts_view(v: Seq<Option<String>>) -> Seq<Option<Seq<char>>> {
    Seq::new(v.len(), |i: int| opt_view(v[i]))
}

/// The new path hint of each link of a sidecar.
pub fn path_hint_updates(links: &Vec<Link>, tables: &SyncTables) -> (r: Vec<Option<String>>)
    requires
        tables.wf(),
    ensures
        opts_view(r@) == hint_updates_spec(links@, tables_view(*tables)),
{
    let mut r: Vec<Option<String>> = Vec::new();
    let mut i: usize = 0;
    while i < links.len()
        invariant
            i <= links.len(),
            tables.wf(),
            r.len() == i,
            forall|q: int| 0 <= q < i ==> opt_view(#[trigger] r@[q]) == hint_update(links@[q], tables_view(*tables)),
        decreases links.len() - i,
    {
        let l = &links[i];
        let u = match &l.path_hint {
            None => None,
            Some(h) => match resolved_target_path(l.to.as_str(), tables) {
                None => None,
                Some(p) => if crate::text::text_eq(h.as_str(), p.as_str()) { None } else { Some(p) },
            },
        };
        r.push(u);
        i += 1;
    }
    assert(opts_view(r@) =~= hint_updates_spec(links@, tables_view(*tables)));
    r
}

/// How many of the updates are present.
pub open spec fn count_some(u: Seq<Option<Seq<char>>>) -> nat
    decreases u.len(),
{
    if u.len() == 0 {
        0
    } else {
        count_some(u.drop_last()) + if u.last() is Some { 1nat } else { 0nat }
    }
}

/// Scan state over a sidecar's lines: inside the links block, past its
/// end, and the position of the current link item.
pub type SyncScan = (bool, bool, Option<int>);

/// One line of the scan: the line as written, whether a path hint was
/// replaced, and the next state. Path hints are replaced inside the links
/// block only, on lines of their own, for link items that have an update.
pub open spec fn sync_step(line: Seq<char>, updates: Seq<Option<Seq<char>>>, st: SyncScan) -> (Seq<char>, bool, SyncScan) {
    let (in_links, stopped, index) = st;
    let t = trim_start(line);
    let ind = indent(line);
    if stopped {
        (line, false, st)
    } else if !in_links {
        if ind == 0 && crate::links_block::is_plain_links_header(t) {
            (line, false, (true, false, index))
        } else {
            (line, false, st)
        }
    } else if ind == 0 && !all_ws(line) && !seq!['#'].is_prefix_of(t) {
        (line, false, (true, true, index))
    } else if ind == 2 && seq!['-', ' '].is_prefix_of(t) {
        (line, false, (true, false, Some(match index { Some(i) => i + 1, None => 0 })))
    } else if !"pathHint:"@.is_prefix_of(t) {
        (line, false, st)
    } else {
        match index {
            Some(i) => if 0 <= i < updates.len() && updates[i] is Some {
                (replace_value(line, json_quoted(updates[i]->0)), true, st)
            } else {
                (line, false, st)
            },
            None => (line, false, st),
        }
    }
}

/// The first `k` lines after the scan, how many hints were replaced, and
/// the state after them.
pub open spec fn sync_scan(lines: Seq<Seq<char>>, updates: Seq<Option<Seq<char>>>, k: int) -> (Seq<Seq<char>>, nat, SyncScan)
    decreases k,
{
    if k <= 0 {
        (seq![], 0, (false, false, None))
    } else {
        let (done, n, st) = sync_scan(lines, updates, k - 1);
        let (l, applied, next) = sync_step(lines[k - 1], updates, st);
        (done.push(l), n + if applied { 1nat } else { 0nat }, next)
    }
}

/// The text after replacing the path hints, and how many were replaced.
pub open spec fn sync_text(text: Seq<char>, updates: Seq<Option<Seq<char>>>) -> (Seq<char>, nat) {
    let lines = text_lines(text);
    let (done, n, _) = sync_scan(lines, updates, lines.len() as int);
    let joined = join(done, seq!['\n']);
    (if crate::link_doc::ends_newline(text) { joined.push('\n') } else { joined }, n)
}

/// Replaces the path hint values of the link items that have an update.
pub fn apply_path_hint_updates(text: &str, updates: &Vec<Option<String>>) -> (r: (String, usize))
    ensures
        r.0@ == sync_text(text@, opts_view(updates@)).0,
        r.1 as nat == sync_text(text@, opts_view(updates@)).1,
{
    proof {
        reveal_strlit("\n");
        assert("\n"@ =~= seq!['\n']);
    }
    let ghost uv = opts_view(updates@);
    let trailing = crate::link_doc::text_ends_newline(text);
    let lines = crate::lines::lines_of(text);
    let ghost lv = strs_view(lines@);
    let mut out: Vec<String> = Vec::new();
    let mut in_links = false;
    let mut stopped = false;
    let mut index: Option<usize> = None;
    let mut applied: usize = 0;
    let mut k: usize = 0;
    while k < lines.len()
        invariant
            k <= lines.len(),
            lv == strs_view(lines@),
            uv == opts_view(updates@),
            out.len() == k,
            applied <= k,
            index matches Some(i) ==> i < k,
            ({
                let (done, n, st) = sync_scan(lv, uv, k as int);
                &&& strs_view(out@) == done
                &&& n == applied as nat
                &&& st == (in_links, stopped, match index { Some(i) => Some(i as int), None => None::<int> })
            }),
        decreases lines.len() - k,
    {
        proof {
            reveal_strlit("pathHint:");
            reveal_strlit("- ");
            reveal_strlit("#");
            assert("- "@ =~= seq!['-', ' ']);
            assert("#"@ =~= seq!['#']);
        }
        let line = &lines[k];
        assert(lv[k as int] == line@);
        let (ind, t) = crate::lines::split_indent(line.as_str());
        let ghost prev = strs_view(out@);
        if stopped {
            out.push(line.clone());
        } else if !in_links {
            if ind == 0 && crate::links_block::is_links_header_line(t.as_str()) && crate::links_block::is_plain_header(t.as_str()) {
                in_links = true;
            }
            out.push(line.clone());
        } else if ind == 0 && !crate::text::is_blank(line.as_str()) && !crate::text::starts_with(t.as_str(), "#") {
            stopped = true;
            out.push(line.clone());
        } else if ind == 2 && crate::text::starts_with(t.as_str(), "- ") {
            index = Some(match index { Some(i) => i + 1, None => 0 });
            out.push(line.clone());
        } else if !crate::text::starts_with(t.as_str(), "pathHint:") {
            out.push(line.clone());
        } else {
            let target: Option<&String> = match index {
                Some(i) => if i < updates.len() {
                    match &updates[i] {
                        Some(p) => Some(p),
                        None => None,
                    }
                } else {
                    None
                },
                None => None,
            };
            match target {
                Some(p) => {
                    let quoted = crate::json::json_string(p.as_str());
                    out.push(crate::lines::replace_yaml_value(line.as_str(), quoted.as_str()));
                    applied += 1;
                },
                None => { out.push(line.clone()); },
            }
        }
        assert(strs_view(out@) =~= prev.push(out@[k as int]@));
        k += 1;
    }
    assert(lv.len() == lines.len());
    let mut joined = crate::text::join_strs(&out, "\n");
    if trailing {
        joined.append("\n");
    }
    (joined, applied)
}

/// The new text of a sidecar whose path hints are stale, `None` when none
/// is, or the error when the text does not take every update.
pub open spec fn sidecar_sync_spec(sp: Seq<char>, text: Seq<char>, sc: Sidecar, t: TablesView) -> Result<Option<Seq<char>>, Seq<char>> {
    let updates = hint_updates_spec(sc.links@, t);
    let expected = count_some(updates);
    if expected == 0 {
        Ok(None)
    } else {
        let (updated, applied) = sync_text(text, updates);
        if applied != expected {
            Err("failed to update pathHint values in "@ + sp + ": unsupported links formatting; expected "@
                + crate::numfmt::decimal(expected) + " update(s), applied "@ + crate::numfmt::decimal(applied))
        } else {
            Ok(Some(updated))
        }
    }
}

/// The number of present updates.
fn count_updates(updates: &Vec<Option<String>>) -> (n: usize)
    ensures
        n as nat == count_some(opts_view(updates@)),
{
    let ghost uv = opts_view(updates@);
    let mut n: usize = 0;
    let mut i: usize = 0;
    while i < updates.len()
        invariant
            i <= updates.len(),
            n <= i,
            uv == opts_view(updates@),
            n as nat == count_some(uv.take(i as int)),
        decreases updates.len() - i,
    {
        assert(uv.take(i + 1).drop_last() =~= uv.take(i as int));
        if updates[i].is_some() {
            n += 1;
        }
        i += 1;
    }
    assert(uv.take(updates.len() as int) =~= uv);
    n
}

/// The new text of the sidecar at `sidecar_path` with its stale path hints
/// replaced by the resolved target paths; `None` when none is stale.
pub fn plan_sidecar_sync(sidecar_path: &str, text: &str, sidecar: &Sidecar, tables: &SyncTables) -> (r: Result<Option<String>, String>)
    requires
        tables.wf(),
    ensures
        match sidecar_sync_spec(sidecar_path@, text@, *sidecar, tables_view(*tables)) {
            Ok(None) => r matches Ok(None),
            Ok(Some(u)) => r matches Ok(Some(s)) && s@ == u,
            Err(m) => r matches Err(e) && e@ == m,
        },
{
    let updates = path_hint_updates(&sidecar.links, tables);
    let expected = count_updates(&updates);
    if expected == 0 {
        return Ok(None);
    }
    let (updated, applied) = apply_path_hint_updates(text, &updates);
    if applied != expected {
        let mut m = crate::text::cat("failed to update pathHint values in ", sidecar_path);
        m.append(": unsupported links formatting; expected ");
        m.append(crate::numfmt::decimal_string(expected as u64).as_str());
        m.append(" update(s), applied ");
        m.append(crate::numfmt::decimal_string(applied as u64).as_str());
        return Err(m);
    }
    Ok(Some(updated))
}

/// A sidecar of the graph as read for a sync: its path, and its text and
/// content or the error reading or parsing it gave.
pub struct SyncSidecar {
    pub sidecar_path: String,
    pub loaded: Result<crate::link_edit::LoadedSidecar, String>,
}

/// A sidecar that a sync rewrites, and its new text.
pub struct SidecarRewrite {
    pub sidecar_path: String,
    pub text: String,
}

/// The rewrites of the first `k` sidecars, in order, or the first error.
pub open spec fn sync_all_spec(sidecars: Seq<SyncSidecar>, t: TablesView, k: int) -> Result<Seq<(Seq<char>, Seq<char>)>, Seq<char>>
    decreases k,
{
    if k <= 0 {
        Ok(seq![])
    } else {
        match sync_all_spec(sidecars, t, k - 1) {
            Err(m) => Err(m),
            Ok(done) => {
                let s = sidecars[k - 1];
                match s.loaded {
                    Err(e) => Err(e@),
                    Ok(ld) => match sidecar_sync_spec(s.sidecar_path@, ld.text@, ld.sidecar, t) {
                        Err(m) => Err(m),
                        Ok(None) => Ok(done),
                        Ok(Some(u)) => Ok(done.push((s.sidecar_path@, u))),
                    },
                }
            },
        }
    }
}

/// The views of the rewrites.
pub open spec fn rewrites_view(v: Seq<SidecarRewrite>) -> Seq<(Seq<char>, Seq<char>)> {
    v.map_values(|w: SidecarRewrite| (w.sidecar_path@, w.text@))
}

/// The sidecars of the graph whose path hints are stale, each with its new
/// text, in order; refused when the graph has a diagnostic other than a
/// path-hint mismatch, or at the first sidecar that could not be read or
/// does not take its updates.
pub fn sync_path_hints(graph: &BuildResult, sidecars: &Vec<SyncSidecar>) -> (r: Result<Vec<SidecarRewrite>, String>)
    ensures
        sync_blocking_spec(diags_view(graph.diagnostics@)).len() > 0 ==> (r matches Err(e)
            && e@ == crate::diagnostic::diagnostics_text(sync_blocking_spec(diags_view(graph.diagnostics@)))),
        sync_blocking_spec(diags_view(graph.diagnostics@)).len() == 0 ==>
            match sync_all_spec(sidecars@, graph_tables(graph.resources@), sidecars.len() as int) {
                Ok(w) => r matches Ok(v) && rewrites_view(v@) == w,
                Err(m) => r matches Err(e) && e@ == m,
            },
{
    let tables = match sync_tables(graph) {
        Err(m) => return Err(m),
        Ok(t) => t,
    };
    let ghost tv = tables_view(tables);
    let mut out: Vec<SidecarRewrite> = Vec::new();
    assert(rewrites_view(out@) =~= seq![]);
    let mut k: usize = 0;
    while k < sidecars.len()
        invariant
            k <= sidecars.len(),
            tables.wf(),
            sync_blocking_spec(diags_view(graph.diagnostics@)).len() == 0,
            tv == graph_tables(graph.resources@),
            tv == tables_view(tables),
            sync_all_spec(sidecars@, tv, k as int) == Ok::<Seq<(Seq<char>, Seq<char>)>, Seq<char>>(rewrites_view(out@)),
        decreases sidecars.len() - k,
    {
        let s = &sidecars[k];
        match &s.loaded {
            Err(e) => {
                proof { lemma_sync_err_stays(sidecars@, tv, k as int + 1, sidecars.len() as int); }
                return Err(e.clone());
            },
            Ok(ld) => match plan_sidecar_sync(s.sidecar_path.as_str(), ld.text.as_str(), &ld.sidecar, &tables) {
                Err(m) => {
                    proof { lemma_sync_err_stays(sidecars@, tv, k as int + 1, sidecars.len() as int); }
                    return Err(m);
                },
                Ok(None) => {},
                Ok(Some(u)) => {
                    let ghost before = out@;
                    let ghost uv = u@;
                    out.push(SidecarRewrite { sidecar_path: s.sidecar_path.clone(), text: u });
                    assert(rewrites_view(out@) =~= rewrites_view(before).push((s.sidecar_path@, uv)));
                },
            },
        }
        k += 1;
    }
    Ok(out)
}

/// Once the sync is an error, it stays that error.
proof fn lemma_sync_err_stays(sidecars: Seq<SyncSidecar>, t: TablesView, k: int, n: int)
    requires
        0 <= k <= n,
        sync_all_spec(sidecars, t, k) is Err,
    ensures
        sync_all_spec(sidecars, t, n) == sync_all_spec(sidecars, t, k),
    decreases n - k,
{
    if k < n {
        lemma_sync_err_stays(sidecars, t, k, n - 1);
    }
}

} // verus!
