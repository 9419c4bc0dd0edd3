use mdx::common::ast::MarkerKind;
use mdx::common::escape::{escape_cell, escape_href_url, escape_latex};
use mdx::common::markers::detect;
use mdx::common::quotes::{convert_quotes, normalize_quotes_per_line};
use mdx::common::table::{is_table_line, is_table_separator, parse_table};

fn lines(v: &[&str]) -> Vec<String> {
    v.iter().map(|s| s.to_string()).collect()
}

#[test]
fn per_line_quotes_reset_at_line_break() {
    assert_eq!(normalize_quotes_per_line("\"a\" \"b"), "\u{201c}a\u{201d} \u{201c}b");
    assert_eq!(normalize_quotes_per_line("\"open\nnext \"x\""), "\u{201c}open\nnext \u{201c}x\u{201d}");
    assert_eq!(normalize_quotes_per_line("it's"), "it's");
}

#[test]
fn whole_text_quotes_do_not_reset() {
    assert_eq!(convert_quotes("\"open\nnext \"x\""), "\u{201c}open\nnext \u{201d}x\u{201c}");
    assert_eq!(convert_quotes("'a' \u{201c}b\u{201d}"), "\u{2018}a\u{2019} \u{201c}b\u{201d}");
}

#[test]
fn table_line_needs_outer_bars() {
    assert!(is_table_line("  | a | b |  "));
    assert!(is_table_line("|"));
    assert!(!is_table_line("a | b"));
    assert!(!is_table_line("| a"));
    assert!(!is_table_line(""));
}

#[test]
fn separator_cells_hold_dashes_colons_spaces() {
    assert!(is_table_separator("|---|:--:|"));
    assert!(is_table_separator(" | - - | --: | "));
    assert!(!is_table_separator("| a |---|"));
    assert!(!is_table_separator("||---|"));
    assert!(!is_table_separator("---|---"));
}

#[test]
fn parse_table_strips_bars_and_separator() {
    let ls = lines(&["intro", "| a | b |", "|---|---|", "| 1 | 2 |", "", "| 3 | 4 |", "after"]);
    let (rows, next) = parse_table(&ls, 1);
    assert_eq!(
        rows,
        Some(vec![
            vec!["a".to_string(), "b".to_string()],
            vec!["1".to_string(), "2".to_string()],
            vec!["3".to_string(), "4".to_string()],
        ])
    );
    assert_eq!(next, 6);
}

#[test]
fn parse_table_without_separator_is_none() {
    let ls = lines(&["| a | b |", "| 1 | 2 |"]);
    assert_eq!(parse_table(&ls, 0), (None, 0));
    let one = lines(&["| a |", "text"]);
    assert_eq!(parse_table(&one, 0), (None, 0));
}

#[test]
fn three_escapers_differ() {
    assert_eq!(escape_latex("a_b%c\\d~"), "a\\_b\\%c\\textbackslash{}d\\textasciitilde{}");
    assert_eq!(escape_href_url("http://x/a_b%20#f{}\\"), "http://x/a_b\\%20\\#f\\{\\}\\textbackslash{}");
    assert_eq!(escape_cell("a\\b&c"), "a\\textbackslash{}b\\&c");
}

#[test]
fn section_markers_are_detected() {
    assert_eq!(detect("<!-- [摘要] -->"), Some(MarkerKind::Abstract));
    assert_eq!(detect("<!--[附录]-->"), Some(MarkerKind::Appendix));
    assert_eq!(detect("  <!-- [附录] -->"), None);
    assert_eq!(detect("<!-- [版本变更记录] -->"), Some(MarkerKind::Changelog));
    assert_eq!(detect("<!-- [正文] -->"), Some(MarkerKind::Body));
    assert_eq!(detect("<!-- [参考文献] -->"), Some(MarkerKind::Reference));
    assert_eq!(detect("<!-- [其他] -->"), None);
    assert_eq!(detect("[摘要]"), None);
}
