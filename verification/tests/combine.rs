use agentsmd::combine::{needs_files, render_combined, render_text};
use agentsmd::template::Template;
use agentsmd::error::Error;
use agentsmd::project::{Project, ProjectFile};

fn tree(files: &[&str]) -> Project {
    Project::new(
        files
            .iter()
            .map(|f| ProjectFile {
                path: f.to_string(),
                extension: std::path::Path::new(f)
                    .extension()
                    .and_then(|e| e.to_str())
                    .map(|e| e.to_string()),
            })
            .collect(),
        Vec::new(),
    )
}

#[test]
fn combines_local_then_shared() {
    let project = tree(&[".agents.md", "shared.md"]);
    let out = render_combined(&project, Some("L\n"), Some("S\n")).unwrap();
    assert_eq!(out, "L\nS\n");
}

#[test]
fn local_is_full_template() {
    let project = tree(&[".agents.md", "Cargo.toml", "shared.md"]);
    let out = render_combined(
        &project,
        Some("Before\n<!-- if exists(\"Cargo.toml\") -->Hit\n<!-- endif -->\nAfter\n"),
        Some(""),
    )
    .unwrap();
    assert!(out.contains("Before\n"));
    assert!(out.contains("Hit\n"));
    assert!(out.contains("After\n"));
}

#[test]
fn same_path_renders_once() {
    // Where the shared template is the project's own file, it is not handed over.
    let project = tree(&[".agents.md"]);
    let out = render_combined(&project, Some("OnlyOnce\n"), None).unwrap();
    assert_eq!(out, "OnlyOnce\n");
}

#[test]
fn errors_when_both_templates_missing() {
    let project = tree(&[]);
    let err = render_combined(&project, None, None).unwrap_err();
    match err {
        Error::Root(msg) => assert!(msg.contains("no template found")),
        other => panic!("unexpected error: {other:?}"),
    }
}

#[test]
fn succeeds_with_only_local_present() {
    let project = tree(&[".agents.md"]);
    let out = render_combined(&project, Some("LocalOnly\n"), None).unwrap();
    assert_eq!(out, "LocalOnly\n");
}

#[test]
fn succeeds_with_only_shared_present() {
    let project = tree(&["Cargo.toml"]);
    let out = render_combined(
        &project,
        None,
        Some("<!-- if exists(Cargo.toml) -->rust<!-- endif -->!"),
    )
    .unwrap();
    assert_eq!(out, "rust!");
}

#[test]
fn the_first_failing_template_decides_the_error() {
    let project = tree(&[]);
    let err = render_combined(&project, Some("<!-- endif -->"), Some("<!-- if env(A) -->"))
        .unwrap_err();
    match err {
        Error::Template(msg) => assert_eq!(msg, "stray 'endif'"),
        other => panic!("unexpected error: {other:?}"),
    }
    let err = render_combined(&project, Some("fine"), Some("<!-- if env(A) -->")).unwrap_err();
    match err {
        Error::Template(msg) => assert_eq!(msg, "unclosed 'if' block"),
        other => panic!("unexpected error: {other:?}"),
    }
    let err = render_combined(&project, Some("<!-- if lang(nope-nope) -->x<!-- endif -->"), None)
        .unwrap_err();
    match err {
        Error::Template(msg) => assert_eq!(msg, "unknown language: nope-nope"),
        other => panic!("unexpected error: {other:?}"),
    }
}

#[test]
fn render_text_parses_and_renders() {
    let project = tree(&["src/main.rs"]);
    assert_eq!(
        render_text(&project, "a<!-- if lang(rust) -->b<!-- endif -->c").unwrap(),
        "abc"
    );
    assert_eq!(
        render_text(&project, "a<!-- if lang(python) -->b<!-- endif -->c").unwrap(),
        "ac"
    );
    assert!(render_text(&project, "<!-- if -->").is_err());
}

#[test]
fn only_guards_on_files_need_the_files() {
    let asks = |src: &str| Template::parse(src).unwrap().reads_files();
    assert!(!asks(""));
    assert!(!asks("plain <!-- note -->"));
    assert!(!asks("<!-- if env(A) && !env(B=c) -->x<!-- endif -->"));
    assert!(asks("<!-- if exists(a) -->x<!-- endif -->"));
    assert!(asks("<!-- if lang(rust) -->x<!-- endif -->"));
    assert!(asks("<!-- if env(A) || !(env(B) && lang(rust)) -->x<!-- endif -->"));
    assert!(asks("<!-- if env(A) -->a<!-- if env(B) -->b<!-- if exists(c) -->c<!-- endif --><!-- endif --><!-- endif -->"));
    assert!(asks("<!-- if env(A) -->a<!-- endif --><!-- if env(B) -->b<!-- endif --><!-- if exists(c) -->c<!-- endif -->"));

    assert!(!needs_files(None, None));
    assert!(!needs_files(Some("<!-- if env(A) -->x<!-- endif -->"), Some("text")));
    assert!(needs_files(Some("<!-- if exists(a) -->x<!-- endif -->"), None));
    assert!(needs_files(Some("text"), Some("<!-- if lang(rust) -->x<!-- endif -->")));
    // A text that is no template fails to render on any project.
    assert!(!needs_files(Some("<!-- if exists(a) -->"), None));
}

#[test]
fn templates_that_ask_for_no_files_render_without_them() {
    let src = "<!-- if env(NOPE) -->a<!-- endif -->b<!-- if !env(NOPE) -->c<!-- endif -->";
    assert!(!needs_files(Some(src), None));
    let with = render_combined(&tree(&["Cargo.toml", "src/main.rs"]), Some(src), None).unwrap();
    let without = render_combined(&tree(&[]), Some(src), None).unwrap();
    assert_eq!(with, "bc");
    assert_eq!(without, "bc");
}
