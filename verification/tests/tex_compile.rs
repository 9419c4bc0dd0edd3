use mdx::tex_compile::{generated_extensions, uses_bibliography, valid_digest, windows_bundle_url};

#[test]
fn windows_bundle_path_is_passed_as_file_url() {
    assert_eq!(
        windows_bundle_url(r"C:\Program Files\mdx\runtime\bundle"),
        "file:///C:/Program Files/mdx/runtime/bundle"
    );
}

#[test]
fn bibliography_command_needs_bibtex() {
    assert!(uses_bibliography("正文\n\\bibliography{references}\n"));
    assert!(!uses_bibliography("\\printbibliography\n"));
    assert!(!uses_bibliography(""));
}

#[test]
fn digest_must_be_sixty_four_hex_digits() {
    let ok = "a".repeat(64);
    assert!(valid_digest(&ok));
    assert!(valid_digest(&format!("  {}\n", "0123456789ABCDEF".repeat(4))));
    assert!(!valid_digest(&"a".repeat(63)));
    assert!(!valid_digest(&format!("{}g", "a".repeat(63))));
}

#[test]
fn side_files_of_a_tex_run() {
    let exts = generated_extensions();
    assert_eq!(exts.len(), 12);
    assert!(exts.contains(&"synctex.gz"));
    assert!(exts.contains(&"run.xml"));
}
