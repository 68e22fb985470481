use relaygraph::generate::parse_generate_link;

#[test]
fn parses_generate_links() {
    let link = parse_generate_link("verified-by:path:tests/cli.rs").unwrap();
    assert_eq!(link.rel, "verified-by");
    assert_eq!(link.to, "path:tests/cli.rs");
    assert!(parse_generate_link(":path:a.md").is_err());
    assert!(parse_generate_link("verified-by:a.md").is_err());
}

use relaygraph::generate::{generate_sidecar, normalize_target_path, sidecar_content, GenerateFile, GenerateInputs, GenerateLink, GenerateOptions};
use relaygraph::init::SidecarProbe;
use relaygraph::model::Config;

fn gen_config() -> Config {
    Config {
        use_git_ignore: Some(true),
        plugins: Some(Vec::new()),
        exclude: Some(vec!["build/**".to_string()]),
        ..Config::default()
    }
}

fn gen_file(path: &str, sidecar_id: Option<&str>) -> GenerateFile {
    GenerateFile { path: path.to_string(), sidecar_id: sidecar_id.map(|s| s.to_string()) }
}

fn gen_inputs(target_probe: Result<bool, String>, sidecar_ignored: bool, sidecar_probe: SidecarProbe) -> GenerateInputs {
    GenerateInputs {
        files: vec![
            gen_file(".relaygraph.yaml", None),
            gen_file("a.md", None),
            gen_file("b.md", None),
            gen_file("b.md.relaygraph.yaml", Some("bee")),
            gen_file("build/out.txt", None),
        ],
        plugin_sources: Vec::new(),
        target_probe,
        sidecar_ignored,
        sidecar_probe,
        existing_ids: vec!["bee".to_string()],
    }
}

fn gen_options(target: &str, kind: Option<&str>, links: Vec<GenerateLink>) -> GenerateOptions {
    GenerateOptions { target: target.to_string(), kind: kind.map(|k| k.to_string()), links, dry_run: false }
}

fn gen_link(rel: &str, to: &str) -> GenerateLink {
    GenerateLink { rel: rel.to_string(), to: to.to_string() }
}

#[test]
fn generate_writes_only_the_requested_kind_and_links() {
    let plan = generate_sidecar(
        &gen_config(),
        gen_options("path:./a.md", Some("doc"), vec![gen_link("x", "id:bee"), gen_link("y", "path:b.md")]),
        gen_inputs(Ok(false), false, SidecarProbe::Missing),
    )
    .unwrap();
    assert_eq!(plan.sidecar_path, "a.md.relaygraph.yaml");
    assert_eq!(
        plan.content,
        "schemaVersion: 1\nid: \"a.md\"\nkind: \"doc\"\nlinks:\n  - rel: \"x\"\n    to: \"id:bee\"\n  - rel: \"y\"\n    to: \"path:b.md\"\n"
    );
    let bare = generate_sidecar(&gen_config(), gen_options("path:a.md", None, Vec::new()), gen_inputs(Ok(false), false, SidecarProbe::Missing))
        .unwrap();
    assert_eq!(bare.content, "schemaVersion: 1\nid: \"a.md\"\nlinks: []\n");
}

#[test]
fn generate_refuses_paths_that_cannot_get_a_sidecar() {
    let run = |target: &str, probe: Result<bool, String>, ignored: bool, sidecar: SidecarProbe| {
        generate_sidecar(&gen_config(), gen_options(target, None, Vec::new()), gen_inputs(probe, ignored, sidecar)).err()
    };
    assert_eq!(run("id:a", Ok(false), false, SidecarProbe::Missing), Some("generate target must use path: locator".to_string()));
    assert_eq!(
        run("path:../a.md", Ok(false), false, SidecarProbe::Missing),
        Some("path must not contain parent traversal: ../a.md".to_string())
    );
    assert_eq!(
        run("path:build/out.txt", Ok(false), false, SidecarProbe::Missing),
        Some("refusing to generate sidecar for non-resource path build/out.txt".to_string())
    );
    assert_eq!(
        run("path:.relaygraph.yaml", Ok(false), false, SidecarProbe::Missing),
        Some("refusing to generate sidecar for non-resource path .relaygraph.yaml".to_string())
    );
    assert_eq!(
        run("path:b.md.relaygraph.yaml", Ok(false), false, SidecarProbe::Missing),
        Some("refusing to generate sidecar for non-resource path b.md.relaygraph.yaml".to_string())
    );
    assert_eq!(
        run("path:c.md", Ok(false), false, SidecarProbe::Missing),
        Some("resource path is not part of Git-backed discovery: c.md".to_string())
    );
    assert_eq!(run("path:a.md", Ok(true), false, SidecarProbe::Missing), Some("resource must not be a symlink: a.md".to_string()));
    assert_eq!(
        run("path:a.md", Err("denied".to_string()), false, SidecarProbe::Missing),
        Some("failed to inspect resource a.md: denied".to_string())
    );
    assert_eq!(
        run("path:a.md", Ok(false), true, SidecarProbe::Missing),
        Some("generated sidecar would be ignored by Git discovery: a.md.relaygraph.yaml".to_string())
    );
    assert_eq!(
        run("path:a.md", Ok(false), false, SidecarProbe::Present(false)),
        Some("sidecar already exists: a.md.relaygraph.yaml".to_string())
    );
    assert_eq!(
        run("path:a.md", Ok(false), false, SidecarProbe::Present(true)),
        Some("sidecar must not be a symlink: a.md.relaygraph.yaml".to_string())
    );
    assert_eq!(
        run("path:a.md", Ok(false), false, SidecarProbe::Failed("gone".to_string())),
        Some("failed to inspect sidecar a.md.relaygraph.yaml: gone".to_string())
    );
}

#[test]
fn generate_reports_invalid_kind_and_links() {
    let run = |kind: Option<&str>, links: Vec<GenerateLink>| {
        generate_sidecar(&gen_config(), gen_options("path:a.md", kind, links), gen_inputs(Ok(false), false, SidecarProbe::Missing)).err()
    };
    assert_eq!(run(Some("  "), Vec::new()), Some("schema-error a.md: kind must not be empty or whitespace".to_string()));
    assert_eq!(
        run(None, vec![gen_link("x", "id:nobody")]),
        Some("unresolved-id a.md: unresolved id locator: id:nobody".to_string())
    );
    assert_eq!(
        run(None, vec![gen_link("x", "path:c.md")]),
        Some("missing-path a.md: unresolved path locator: path:c.md".to_string())
    );
}

#[test]
fn generate_target_and_content_are_normalized_and_quoted() {
    assert_eq!(normalize_target_path("path:./docs//a.md"), Ok("docs/a.md".to_string()));
    assert_eq!(
        sidecar_content("a\"b", Some("k"), &vec![gen_link("r", "id:x")]),
        "schemaVersion: 1\nid: \"a\\\"b\"\nkind: \"k\"\nlinks:\n  - rel: \"r\"\n    to: \"id:x\"\n"
    );
}

#[test]
fn generate_refuses_the_reserved_generated_directory() {
    let config = Config { use_git_ignore: Some(false), plugins: Some(Vec::new()), exclude: Some(Vec::new()), ..Config::default() };
    let inputs = GenerateInputs {
        files: vec![gen_file("._relaygraph/notes.md", None), gen_file("._RelayGraph/other.md", None)],
        plugin_sources: Vec::new(),
        target_probe: Ok(false),
        sidecar_ignored: false,
        sidecar_probe: SidecarProbe::Missing,
        existing_ids: Vec::new(),
    };
    assert_eq!(
        generate_sidecar(&config, gen_options("path:._relaygraph/notes.md", None, Vec::new()), inputs).err(),
        Some("refusing to generate sidecar for non-resource path ._relaygraph/notes.md".to_string())
    );
}
