use mdx::common::ast::{Block, Inline, MarkerKind};

use mdx::parser::{parse, render_text};

fn paragraph_text(b: &Block) -> String {
    match b {
        Block::Paragraph(inlines) => mdx::common::inline::flatten(inlines),
        _ => panic!("not a paragraph: {:?}", b),
    }
}

#[test]
fn parses_headings_and_strips_numbering() {
    let blocks = parse("# 一、引言\n## 1.1 背景\n### （一）问题\n");
    let titles: Vec<&str> = blocks
        .iter()
        .filter_map(|b| match b {
            Block::Heading { text, .. } => Some(text.as_str()),
            _ => None,
        })
        .collect();
    assert_eq!(titles, vec!["引言", "背景", "问题"]);
}

#[test]
fn parses_paragraphs_with_bold_italic() {
    let blocks = parse("一段**加粗**和*斜体*文字。\n");
    let para = blocks
        .iter()
        .find(|b| matches!(b, Block::Paragraph(_)))
        .expect("paragraph");
    let inlines = match para {
        Block::Paragraph(v) => v,
        _ => unreachable!(),
    };
    assert!(matches!(&inlines[0], Inline::Text(t) if t == "一段"));
    assert!(
        matches!(&inlines[1], Inline::Bold(children) if matches!(children.as_slice(), [Inline::Text(t)] if t == "加粗"))
    );
    assert!(matches!(&inlines[2], Inline::Text(t) if t == "和"));
    assert!(
        matches!(&inlines[3], Inline::Italic(children) if matches!(children.as_slice(), [Inline::Text(t)] if t == "斜体"))
    );
}

#[test]
fn detects_markers() {
    let blocks = parse(
        "<!-- [摘要] -->\n<!-- [附录] -->\n<!-- [版本变更记录] -->\n<!-- [正文] -->\n<!-- [参考文献] -->\n",
    );
    let kinds: Vec<MarkerKind> = blocks
        .iter()
        .filter_map(|b| match b {
            Block::Marker(k) => Some(*k),
            _ => None,
        })
        .collect();
    assert_eq!(
        kinds,
        vec![
            MarkerKind::Abstract,
            MarkerKind::Appendix,
            MarkerKind::Changelog,
            MarkerKind::Body,
            MarkerKind::Reference,
        ]
    );
}

#[test]
fn parses_table_block() {
    let md = "| 列A | 列B |\n|---|---|\n| 1 | 2 |\n| 3 | 4 |\n";
    let blocks = parse(md);
    let table = blocks
        .iter()
        .find(|b| matches!(b, Block::Table { .. }))
        .expect("table");
    if let Block::Table { rows, caption } = table {
        assert_eq!(rows.len(), 3);
        assert_eq!(rows[0], vec!["列A".to_string(), "列B".to_string()]);
        assert_eq!(rows[2], vec!["3".to_string(), "4".to_string()]);
        assert_eq!(caption, &None);
    }
}

#[test]
fn parses_leading_table_caption() {
    let md = "Table: 测试表格\n\n| 列A | 列B |\n|---|---|\n| 1 | 2 |\n";
    let blocks = parse(md);
    let tables: Vec<_> = blocks
        .iter()
        .filter_map(|b| match b {
            Block::Table { caption, .. } => Some(caption.as_deref()),
            _ => None,
        })
        .collect();
    assert_eq!(tables, vec![Some("测试表格")]);
    assert!(!blocks.iter().any(|b| match b {
        Block::Paragraph(inlines) => mdx::common::inline::flatten(inlines).contains("Table:"),
        _ => false,
    }));
}

#[test]
fn parses_trailing_table_caption() {
    let md = "| 列A | 列B |\n|---|---|\n| 1 | 2 |\n\n: 测试表格\n";
    let blocks = parse(md);
    let caption = blocks
        .iter()
        .find_map(|b| match b {
            Block::Table { caption, .. } => caption.as_deref(),
            _ => None,
        })
        .expect("caption");
    assert_eq!(caption, "测试表格");
}

#[test]
fn parses_chinese_table_caption_marker() {
    let md = "表：中文表题\n\n| 列A | 列B |\n|---|---|\n| 1 | 2 |\n";
    let blocks = parse(md);
    let caption = blocks
        .iter()
        .find_map(|b| match b {
            Block::Table { caption, .. } => caption.as_deref(),
            _ => None,
        })
        .expect("caption");
    assert_eq!(caption, "中文表题");
}

#[test]
fn strips_number_from_table_caption_markers() {
    // 编号交给 LaTeX 表格计数器自动生成，标记里的旧编号必须剥除
    let cases = [
        ("表1：中文表题", "中文表题"),
        ("表 1: 中文表题", "中文表题"),
        ("表1.2 中文表题", "中文表题"),
        ("表 1-1 中文表题", "中文表题"),
        ("表E.1：中文表题", "中文表题"),
        ("表 E-1 中文表题", "中文表题"),
        ("Table 1: 测试表格", "测试表格"),
        ("table 2.3：测试表格", "测试表格"),
    ];
    for (marker, expected) in cases {
        let md = format!("{}\n\n| 列A | 列B |\n|---|---|\n| 1 | 2 |\n", marker);
        let blocks = parse(&md);
        let caption = blocks
            .iter()
            .find_map(|b| match b {
                Block::Table { caption, .. } => caption.as_deref(),
                _ => None,
            })
            .unwrap_or_else(|| panic!("caption for {:?}", marker));
        assert_eq!(caption, expected, "marker {:?}", marker);
        // 带编号的标记行不得残留为普通段落，否则与自动编号重复
        assert!(
            !blocks.iter().any(|b| match b {
                Block::Paragraph(inlines) => mdx::common::inline::flatten(inlines).contains(marker),
                _ => false,
            }),
            "marker {:?} left as paragraph",
            marker
        );
    }
}

#[test]
fn strips_number_from_caption_text() {
    // 表题文本开头残留的旧编号（"4.6" / "3"）也必须剥除
    let cases = [
        (
            ": 4.6 CH-06 产品清单、任务筹划与任务分配",
            "CH-06 产品清单、任务筹划与任务分配",
        ),
        (": E.1 附录表题", "附录表题"),
        (": 附录E 集成任务清单", "集成任务清单"),
        ("Table: 3 测试表格", "测试表格"),
        ("表：1.2 中文表题", "中文表题"),
    ];
    for (marker, expected) in cases {
        let md = format!("| 列A | 列B |\n|---|---|\n| 1 | 2 |\n\n{}\n", marker);
        let blocks = parse(&md);
        let caption = blocks
            .iter()
            .find_map(|b| match b {
                Block::Table { caption, .. } => caption.as_deref(),
                _ => None,
            })
            .unwrap_or_else(|| panic!("caption for {:?}", marker));
        assert_eq!(caption, expected, "marker {:?}", marker);
    }
}

#[test]
fn plain_table_words_not_treated_as_caption() {
    // "Table of contents" 这类正文不含数字编号，不得被误判为表题
    let md = "Table of contents\n\n| 列A | 列B |\n|---|---|\n| 1 | 2 |\n";
    let blocks = parse(md);
    assert!(blocks.iter().any(|b| match b {
        Block::Paragraph(inlines) => mdx::common::inline::flatten(inlines) == "Table of contents",
        _ => false,
    }));
    let caption = blocks.iter().find_map(|b| match b {
        Block::Table { caption, .. } => caption.as_deref(),
        _ => None,
    });
    assert_eq!(caption, None);
}

#[test]
fn lists_track_indent_levels() {
    let md = "- 一级\n  - 二级\n      - 三级\n";
    let blocks = parse(md);
    let levels: Vec<u8> = blocks
        .iter()
        .filter_map(|b| match b {
            Block::List { level, .. } => Some(*level),
            _ => None,
        })
        .collect();
    assert_eq!(levels, vec![1, 2, 3]);
}

#[test]
fn lists_accept_two_space_multilevel_indentation() {
    let md = "- 一级\n  - 二级\n    - 三级\n      - 四级\n        - 五级\n          - 六级\n";
    let blocks = parse(md);
    let levels: Vec<u8> = blocks
        .iter()
        .filter_map(|b| match b {
            Block::List { level, .. } => Some(*level),
            _ => None,
        })
        .collect();
    assert_eq!(levels, vec![1, 2, 3, 4, 5, 6]);
}

#[test]
fn independent_indented_list_keeps_legacy_level() {
    let md = "说明文字\n      - 独立三级列表\n";
    let blocks = parse(md);
    assert!(blocks
        .iter()
        .any(|block| matches!(block, Block::List { level: 3, .. })));
}

#[test]
fn quotes_normalized_globally() {
    let blocks = parse("说\"你好\"。\n");
    let p = paragraph_text(&blocks[0]);
    assert!(
        p.contains('\u{201c}') && p.contains('\u{201d}'),
        "got {:?}",
        p
    );
}

#[test]
fn ordered_list_distinguished() {
    let blocks = parse("1. 第一\n- 第二\n");
    let mut iter = blocks.iter().filter_map(|b| match b {
        Block::List { ordered, .. } => Some(*ordered),
        _ => None,
    });
    assert_eq!(iter.next(), Some(true));
    assert_eq!(iter.next(), Some(false));
}

#[test]
fn code_block_preserves_ascii_quotes() {
    let blocks = parse("```rust\nlet s = \"hello\";\n```\n");
    let code = blocks
        .iter()
        .find_map(|b| match b {
            Block::CodeBlock { content, .. } => Some(content.as_str()),
            _ => None,
        })
        .expect("code block");
    assert_eq!(code, "let s = \"hello\";");
}

#[test]
fn fenced_code_does_not_create_citations() {
    let blocks = parse("```text\n[@key]\n```\n");
    assert!(matches!(
        &blocks[0],
        Block::CodeBlock { content, .. } if content == "[@key]"
    ));
}

#[test]
fn code_block_uses_first_info_word_as_language() {
    let blocks = parse("```rust {#id}\nfn main() {}\n```\n");
    let lang = blocks
        .iter()
        .find_map(|b| match b {
            Block::CodeBlock { lang, .. } => lang.as_deref(),
            _ => None,
        })
        .expect("language");
    assert_eq!(lang, "rust");
}

#[test]
fn heading_label_attr_becomes_label_block() {
    let blocks = parse("## 第一章 概述 {#chap:overview}\n");
    assert!(matches!(&blocks[0], Block::Label(id) if id == "chap:overview"));
    assert!(matches!(&blocks[1], Block::Heading { level: 2, text } if text == "概述"));
}

#[test]
fn heading_without_label_attr_has_no_label_block() {
    let blocks = parse("## 概述\n");
    assert!(!blocks.iter().any(|b| matches!(b, Block::Label(_))));
    assert!(matches!(&blocks[0], Block::Heading { text, .. } if text == "概述"));
}

#[test]
fn table_caption_label_attr_becomes_label_block() {
    let md = "表：产品清单 {#tbl:products}\n\n| 列A | 列B |\n|---|---|\n| 1 | 2 |\n";
    let blocks = parse(md);
    let label_pos = blocks
        .iter()
        .position(|b| matches!(b, Block::Label(id) if id == "tbl:products"))
        .expect("label block");
    let table_pos = blocks
        .iter()
        .position(|b| matches!(b, Block::Table { .. }))
        .expect("table");
    assert!(label_pos < table_pos);
    let caption = blocks.iter().find_map(|b| match b {
        Block::Table { caption, .. } => caption.as_deref(),
        _ => None,
    });
    assert_eq!(caption, Some("产品清单"));
}



#[test]
fn blank_lines_become_empty_blocks_between_paragraphs() {
    let blocks = parse("第一段\n\n第二段\n");
    assert_eq!(blocks.len(), 3);
    assert_eq!(paragraph_text(&blocks[0]), "第一段");
    assert!(matches!(blocks[1], Block::Empty));
    assert_eq!(paragraph_text(&blocks[2]), "第二段");
}

#[test]
fn single_row_table_stays_text() {
    let blocks = parse("| 只有 | 一行 |\n");
    assert_eq!(blocks.len(), 1);
    assert_eq!(paragraph_text(&blocks[0]), "| 只有 | 一行 |");
}

#[test]
fn unclosed_fence_takes_rest_of_document() {
    let blocks = parse("```\na\nb\n");
    assert_eq!(blocks.len(), 1);
    assert!(matches!(&blocks[0], Block::CodeBlock { lang: None, content } if content == "a\nb"));
}

#[test]
fn render_text_joins_inline_text() {
    let inlines = vec![
        Inline::Text("甲".to_string()),
        Inline::Bold(vec![Inline::Text("乙".to_string())]),
    ];
    assert_eq!(render_text(&inlines), "甲乙");
}

#[test]
fn lone_bar_inside_table_is_an_empty_row() {
    let blocks = parse("| a |\n|\n|---|\n");
    assert_eq!(blocks.len(), 1);
    assert!(matches!(&blocks[0], Block::Table { rows, caption: None }
        if *rows == vec![vec!["a".to_string()], vec![String::new()]]));
    assert!(!mdx::common::table::is_table_separator("|"));
    assert!(!mdx::common::table::is_table_separator("  |  "));
}

#[test]
fn parsed_levels_stay_within_six() {
    let blocks = parse("####### 深\n\n- a\n  - b\n    - c\n      - d\n        - e\n          - f\n            - g\n");
    for block in &blocks {
        match block {
            Block::Heading { level, .. } | Block::List { level, .. } => assert!((1..=6).contains(level), "{block:?}"),
            Block::Table { rows, .. } => assert!(!rows.is_empty()),
            _ => {}
        }
    }
    assert!(matches!(&blocks[0], Block::Heading { level: 6, .. }));
}
