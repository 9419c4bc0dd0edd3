use mdx::paths::{ensure_extension, is_remote, non_empty_path, resolve_path};

#[test]
fn ensure_extension_replaces_unexpected_extension() {
    let mut path = String::from("report.txt");
    ensure_extension(&mut path, "docx");
    assert_eq!(path, "report.docx");
}

#[test]
fn ensure_extension_keeps_matching_extension_in_any_case() {
    let mut path = String::from("report.DOCX");
    ensure_extension(&mut path, "docx");
    assert_eq!(path, "report.DOCX");
    let mut bare = String::from("report");
    ensure_extension(&mut bare, "tex");
    assert_eq!(bare, "report.tex");
}

#[test]
fn blank_path_field_is_no_path() {
    assert_eq!(non_empty_path("   "), None);
    assert_eq!(non_empty_path("  out/a.docx \n"), Some("out/a.docx".to_string()));
}

#[test]
fn remote_urls_are_recognised() {
    assert!(is_remote("https://x.test/a.png"));
    assert!(is_remote("http://x.test/a.png"));
    assert!(!is_remote("figs/a.png"));
    assert!(!is_remote("ftp://x.test/a.png"));
}

#[test]
fn image_paths_resolve_below_the_base_directory() {
    assert_eq!(resolve_path(" <figs/a.png> ", "src"), "src/figs/a.png");
    assert_eq!(resolve_path("/abs/a.png", "src"), "/abs/a.png");
}
