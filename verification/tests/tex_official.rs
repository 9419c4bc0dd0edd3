use mdx::common::ast::{Block, Inline};
use mdx::tex_official::{escape_latex, render_inlines, wrap_document, TexEmitter};

#[test]
fn escapes_special_chars() {
    assert_eq!(
        escape_latex("a&b%c$d#e_f{g}h~i^j"),
        "a\\&b\\%c\\$d\\#e\\_f\\{g\\}h\\textasciitilde{}i\\textasciicircum{}j"
    );
}

#[test]
fn inline_bold_italic_emit() {
    let inlines = vec![
        Inline::Text("一段".into()),
        Inline::Bold(vec![Inline::Text("重点".into())]),
        Inline::Text("和".into()),
        Inline::Italic(vec![Inline::Text("斜体".into())]),
    ];
    assert_eq!(
        render_inlines(&inlines),
        "一段\\textbf{重点}和\\textit{斜体}"
    );
}

#[test]
fn h2_uses_chinese_numbering() {
    let mut e = TexEmitter::new();
    e.emit_block(&Block::Heading {
        level: 2,
        text: "引言".into(),
    });
    e.emit_block(&Block::Heading {
        level: 2,
        text: "方法".into(),
    });
    let body = e.into_body();
    assert!(body.contains("一、引言"), "got {}", body);
    assert!(body.contains("二、方法"), "got {}", body);
}

#[test]
fn list_prefix_cycles() {
    let mut e = TexEmitter::new();
    e.emit_block(&Block::List {
        ordered: false,
        level: 1,
        content: vec![Inline::Text("a".into())],
    });
    e.emit_block(&Block::List {
        ordered: false,
        level: 1,
        content: vec![Inline::Text("b".into())],
    });
    e.emit_block(&Block::List {
        ordered: false,
        level: 2,
        content: vec![Inline::Text("c".into())],
    });
    let body = e.into_body();
    assert!(body.contains('①') && body.contains('②') && body.contains('⑴'));
}

#[test]
fn table_emits_tabular() {
    let mut e = TexEmitter::new();
    e.emit_block(&Block::Table {
        rows: vec![
            vec!["列A".into(), "列B".into()],
            vec!["1".into(), "2".into()],
        ],
        caption: None,
    });
    let body = e.into_body();
    assert!(body.contains("\\begin{tabular}{|l|l|}"));
    assert!(body.contains("\\textbf{列A}"));
    assert!(body.contains("\\hline"));
}

#[test]
fn table_cell_bold_italic() {
    let mut e = TexEmitter::new();
    e.emit_block(&Block::Table {
        rows: vec![
            vec!["列A".into(), "列B".into()],
            vec!["**重点**".into(), "*斜体*".into()],
        ],
        caption: None,
    });
    let body = e.into_body();
    assert!(body.contains("\\textbf{重点}"));
    assert!(body.contains("\\textit{斜体}"));
    assert!(!body.contains("**重点**"));
}



#[test]
fn heading_levels_use_official_numbering() {
    let mut e = TexEmitter::new();
    for (level, text) in [(1u8, "标题"), (2, "甲"), (3, "乙"), (4, "丙"), (5, "丁"), (3, "戊")] {
        e.emit_block(&Block::Heading { level, text: text.into() });
    }
    assert_eq!(
        e.into_body(),
        "\\begin{center}{\\xbsong\\zihao{2}标题}\\end{center}\n\n\
{\\hei 一、甲}\\par\n\n\
{\\kai （一）乙}\\par\n\n\
1.丙\\par\n\n\
\\textbf{(1)丁}\\par\n\n\
{\\kai （二）戊}\\par\n\n"
    );
}

#[test]
fn table_pads_short_rows_and_bolds_header() {
    let mut e = TexEmitter::new();
    e.emit_block(&Block::Table {
        rows: vec![vec!["A".into(), "B".into()], vec!["1".into()]],
        caption: None,
    });
    assert_eq!(
        e.into_body(),
        "\\begin{center}\n\\begin{tabular}{|l|l|}\n\\hline\n\\textbf{A} & \\textbf{B} \\\\\n\\hline\n1 &  \\\\\n\\hline\n\\end{tabular}\n\\end{center}\n\n"
    );
}

#[test]
fn markers_code_and_labels_are_ignored() {
    let mut e = TexEmitter::new();
    e.emit_block(&Block::Marker(mdx::common::ast::MarkerKind::Appendix));
    e.emit_block(&Block::CodeBlock { lang: None, content: "x".into() });
    e.emit_block(&Block::Label("a".into()));
    e.emit_block(&Block::Empty);
    assert_eq!(e.into_body(), "");
}

#[test]
fn list_level_one_beyond_twenty_uses_parenthesized_numbers() {
    let mut e = TexEmitter::new();
    for _ in 0..21 {
        e.emit_block(&Block::List { ordered: false, level: 1, content: vec![Inline::Text("x".into())] });
    }
    assert!(e.into_body().ends_with("(21)x\\par\n\n"));
}

#[test]
fn wrap_document_adds_missing_newline() {
    assert_eq!(
        wrap_document("正文"),
        "\\documentclass{official}\n\n\\begin{document}\n\n正文\n\n\\end{document}\n"
    );
    assert_eq!(
        wrap_document("正文\n"),
        "\\documentclass{official}\n\n\\begin{document}\n\n正文\n\n\\end{document}\n"
    );
}
