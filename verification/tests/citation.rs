use mdx::common::citation::{check_bibliography, cited_keys, missing_keys_message, without_bibliography, BibError};
use mdx::parser;

fn keys(md: &str) -> Vec<String> {
    cited_keys(&parser::parse(md))
}

#[test]
fn citations_are_collected_sorted_and_once() {
    assert_eq!(keys("[@z; @c; @z]"), vec!["c".to_string(), "z".to_string()]);
}

#[test]
fn collects_citations_nested_in_bold_and_italic() {
    assert_eq!(
        keys("重要结论 **见 [@bold_ref]**，另见 *[@italic_ref]*。"),
        vec!["bold_ref".to_string(), "italic_ref".to_string()]
    );
}

#[test]
fn validates_citation_inside_table_cell() {
    assert_eq!(keys("| 文献 |\n|---|\n| [@table_ref] |\n"), vec!["table_ref".to_string()]);
}

#[test]
fn citation_requires_bibliography_declaration() {
    assert!(without_bibliography(&keys("见 [@missing]。")).is_none());
    let ok = without_bibliography(&keys("正文")).unwrap();
    assert!(!ok.has_citations);
}

#[test]
fn valid_bib_passes_and_missing_keys_are_reported() {
    let bib = "@article{a,title={A}}\n@article{b,title={B}}\n";
    assert_eq!(check_bibliography(&keys("[@a; @b]"), bib), Ok(()));
    let err = check_bibliography(&keys("[@z; @c; @z]"), bib).unwrap_err();
    match err {
        BibError::MissingKeys(m) => assert!(missing_keys_message(&m).contains("c, z")),
        other => panic!("unexpected {other:?}"),
    }
}

#[test]
fn malformed_and_duplicate_bibtex_fail() {
    assert!(matches!(check_bibliography(&keys("正文"), "@article{broken"), Err(BibError::Malformed(_))));
    let dup = "@article{same,title={A}}\n@book{same,title={B}}\n";
    match check_bibliography(&keys("正文"), dup) {
        Err(BibError::Malformed(msg)) => assert!(msg.contains("same"), "{msg}"),
        other => panic!("unexpected {other:?}"),
    }
}
