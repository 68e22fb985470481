use relaygraph::model::Diagnostic;
use relaygraph::repo::{
    list_repo_files, list_repo_files_with_diagnostics, ls_files_paths, path_listed, sorted_repo_files, EntryKind,
    InspectedPath, PathInspection,
};

#[test]
fn ls_files_output_is_split_decoded_and_normalized() {
    let stdout = "docs/a.md\0./b.md\0\0日本.md\0".as_bytes().to_vec();
    assert_eq!(ls_files_paths(&stdout), vec!["docs/a.md", "b.md", "日本.md"]);
    assert_eq!(ls_files_paths(&b"dir\\x.md".to_vec()), vec!["dir/x.md"]);
    assert!(ls_files_paths(&Vec::new()).is_empty());
}

fn inspected(path: &str, inspection: PathInspection) -> InspectedPath {
    InspectedPath { path: path.to_string(), inspection }
}

#[test]
fn listed_paths_are_kept_or_refused_by_inspection() {
    let items = vec![
        inspected("a.md", PathInspection::Listed),
        inspected("gone.md", PathInspection::Unlisted),
        inspected("", PathInspection::Listed),
        inspected("b.md", PathInspection::Listed),
    ];
    assert_eq!(list_repo_files(&items), Ok(vec!["a.md".to_string(), "b.md".to_string()]));
    let failing = vec![
        inspected("a.md", PathInspection::Listed),
        inspected("bad", PathInspection::Failed("failed to inspect bad: denied".to_string())),
        inspected("worse", PathInspection::Failed("second".to_string())),
    ];
    assert_eq!(list_repo_files(&failing), Err("failed to inspect bad: denied".to_string()));
    let mut diagnostics: Vec<Diagnostic> = Vec::new();
    assert_eq!(list_repo_files_with_diagnostics(&failing, &mut diagnostics), vec!["a.md".to_string()]);
    assert_eq!(diagnostics.len(), 2);
    assert_eq!(diagnostics[0].code, "schema-error");
    assert_eq!(diagnostics[0].path.as_deref(), Some("bad"));
    assert_eq!(diagnostics[0].message, "failed to inspect repo path: failed to inspect bad: denied");
}

#[test]
fn walked_files_are_sorted() {
    let files = vec!["b.md".to_string(), "a/z.md".to_string(), "a.md".to_string()];
    assert_eq!(sorted_repo_files(files), vec!["a.md", "a/z.md", "b.md"]);
}

#[test]
fn path_prefixes_decide_listing() {
    assert_eq!(path_listed(false, EntryKind::Missing), Some(false));
    assert_eq!(path_listed(false, EntryKind::Link), Some(false));
    assert_eq!(path_listed(true, EntryKind::Link), Some(true));
    assert_eq!(path_listed(false, EntryKind::Other), None);
    assert_eq!(path_listed(true, EntryKind::File), Some(true));
    assert_eq!(path_listed(true, EntryKind::Other), Some(false));
}
