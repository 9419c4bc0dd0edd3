use mdx::common::crossref::{check, Report, Support};
use mdx::common::ast::{Block, Inline};
use mdx::parser;

fn errors(md: &str, support: Support) -> Vec<String> {
    let blocks = parser::parse(md);
    check(&blocks, support).errors
}

#[test]
fn valid_chapter_figure_table_refs_pass() {
    let md = "## 概述 {#chap:a}\n\n见第{@chap:a}章、图{@fig:x}、表{@tbl:t}。\n\n![图](a.png){#fig:x}\n\n表：题 {#tbl:t}\n\n| A |\n|---|\n| 1 |\n";
    let errs = errors(md, Support::Full);
    assert!(errs.is_empty(), "{errs:?}");
}

#[test]
fn dangling_ref_is_error() {
    let errs = errors("见第{@chap:missing}章。", Support::Full);
    assert!(errs.iter().any(|e| e.contains("chap:missing")), "{errs:?}");
}

#[test]
fn duplicate_label_is_error() {
    let errs = errors("## 甲 {#chap:x}\n\n## 乙 {#chap:x}\n", Support::Full);
    assert!(
        errs.iter()
            .any(|e| e.contains("重复定义") && e.contains("chap:x")),
        "{errs:?}"
    );
}

#[test]
fn image_label_without_alt_is_error() {
    let errs = errors("![](a.png){#fig:x}\n\n见{@fig:x}。\n", Support::Full);
    assert!(
        errs.iter()
            .any(|e| e.contains("fig:x") && e.contains("替代文本")),
        "{errs:?}"
    );
}

#[test]
fn inline_image_label_is_error() {
    let errs = errors(
        "文字 ![图](a.png){#fig:x} 混排\n\n见{@fig:x}。\n",
        Support::Full,
    );
    assert!(
        errs.iter()
            .any(|e| e.contains("fig:x") && e.contains("未独占一段")),
        "{errs:?}"
    );
}

#[test]
fn official_heading_label_is_error() {
    let errs = errors("## 一、节 {#sec:a}\n\n见{@sec:a}。\n", Support::FiguresOnly);
    assert!(
        errs.iter()
            .any(|e| e.contains("sec:a") && e.contains("official")),
        "{errs:?}"
    );
}

#[test]
fn official_figure_label_passes() {
    let md = "![图](a.png){#fig:x}\n\n见{@fig:x}。\n";
    let errs = errors(md, Support::FiguresOnly);
    assert!(errs.is_empty(), "{errs:?}");
}

#[test]
fn crossref_inside_table_cell_checked() {
    let md = "表：题 {#tbl:t}\n\n| A |\n|---|\n| 见{@fig:nope} |\n";
    let errs = errors(md, Support::Full);
    assert!(errs.iter().any(|e| e.contains("fig:nope")), "{errs:?}");
}

#[test]
fn unused_label_is_warning_not_error() {
    let blocks = parser::parse("## 概述 {#chap:a}\n");
    let report = check(&blocks, Support::Full);
    assert!(report.is_ok());
    assert!(report.warnings.iter().any(|w| w.contains("chap:a")));
}



#[test]
fn dangling_refs_are_listed_once_in_sorted_order() {
    let errs = errors("见{@b}、{@a}、{@b}。", Support::Full);
    assert_eq!(
        errs,
        vec![
            "'{@a}' 引用了未定义的锚点 'a'".to_string(),
            "'{@b}' 引用了未定义的锚点 'b'".to_string(),
        ]
    );
}

#[test]
fn duplicate_label_message_counts_definitions() {
    let errs = errors("## 甲 {#x}\n\n## 乙 {#x}\n\n## 丙 {#x}\n\n见{@x}。\n", Support::Full);
    assert_eq!(
        errs,
        vec![
            "锚点 'x' 重复定义（第 2 次）".to_string(),
            "锚点 'x' 重复定义（第 3 次）".to_string(),
        ]
    );
}

#[test]
fn label_without_following_heading_is_error() {
    let blocks = vec![Block::Label("a".to_string())];
    let report: Report = check(&blocks, Support::Full);
    assert!(!report.is_ok());
    assert_eq!(report.errors, vec!["锚点 'a' 未挂接到标题或表格，不会生效".to_string()]);
    assert!(report.warnings.is_empty());
}

#[test]
fn default_report_is_ok() {
    assert!(Report::default().is_ok());
}

#[test]
fn dangling_ref_inside_bold_or_italic_is_error() {
    let blocks = vec![Block::Paragraph(vec![
        Inline::Text("见".to_string()),
        Inline::Bold(vec![Inline::Italic(vec![Inline::CrossRef("fig:deep".to_string())])]),
    ])];
    let report = check(&blocks, Support::Full);
    assert_eq!(report.errors, vec!["'{@fig:deep}' 引用了未定义的锚点 'fig:deep'".to_string()]);
}

#[test]
fn ref_inside_bold_counts_as_use() {
    let blocks = parser::parse("## 概述 {#chap:a}\n\n见**第{@chap:a}章**。\n");
    let report = check(&blocks, Support::Full);
    assert!(report.is_ok(), "{:?}", report.errors);
    assert!(report.warnings.is_empty(), "{:?}", report.warnings);
}
