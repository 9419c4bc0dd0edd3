use mdx::common::ast::{Block, Inline, MarkerKind};
use mdx::common::front_matter::Metadata;
use mdx::docx_plan::{DocItem, ListState, RunContent, SpecialIndent};
use mdx::docx_research::blocks::{inline_run_style, list_paragraph};
use mdx::docx_research::document::{add_cover, figure_source, prepare, render, split_blocks};
use mdx::docx_research::emitter::{next_prefix, MainEmitter};
use mdx::parser;

fn run_texts(runs: &[mdx::docx_plan::RunSpec]) -> String {
    let mut s = String::new();
    for r in runs {
        match &r.content {
            RunContent::Text(t) => s.push_str(t),
            RunContent::Tab => s.push('\t'),
            RunContent::Image { .. } => {}
        }
    }
    s
}

fn paragraph_texts(items: &[DocItem]) -> Vec<String> {
    items
        .iter()
        .filter_map(|item| match item {
            DocItem::Paragraph(p) => Some(run_texts(&p.runs)),
            _ => None,
        })
        .collect()
}

fn emit_all(e: &mut MainEmitter, blocks: &[Block], loaded: &[bool]) -> Vec<DocItem> {
    let mut out = Vec::new();
    e.emit_all(&mut out, blocks, loaded);
    out
}

#[test]
fn split_extracts_title_and_changelog() {
    let blocks = vec![
        Block::Heading { level: 1, text: "测试报告".into() },
        Block::Marker(MarkerKind::Changelog),
        Block::Paragraph(vec![Inline::Text("v1.0 初版".into())]),
        Block::Marker(MarkerKind::Body),
        Block::Heading { level: 2, text: "引言".into() },
        Block::Paragraph(vec![Inline::Text("正文".into())]),
    ];
    let split = split_blocks(&blocks);
    assert_eq!(split.title.as_deref(), Some("测试报告"));
    assert_eq!(split.changelog.len(), 1);
    assert!(split.main.iter().any(|b| matches!(b, Block::Heading { level: 2, .. })));
}

#[test]
fn main_emitter_numbers_chapters() {
    let mut e = MainEmitter::new();
    let mut out = Vec::new();
    e.emit(&mut out, &Block::Heading { level: 2, text: "引言".into() }, false);
    e.emit(&mut out, &Block::Heading { level: 3, text: "背景".into() }, false);
    e.emit(&mut out, &Block::Heading { level: 4, text: "动机".into() }, false);
    assert_eq!(e.chapter, 1);
    assert_eq!(e.section, 1);
    assert_eq!(e.subsection, 1);
}

#[test]
fn main_emitter_appendix_letters() {
    let mut e = MainEmitter::new();
    e.handle_marker(MarkerKind::Appendix);
    let mut out = Vec::new();
    e.emit(&mut out, &Block::Heading { level: 2, text: "数据集".into() }, false);
    e.emit(&mut out, &Block::Heading { level: 2, text: "代码".into() }, false);
    assert_eq!(e.appendix_idx, 2);
}

#[test]
fn docx_fallback_reconstructs_citation_source() {
    let (text, bold, italic) = inline_run_style(&Inline::Citation(vec!["a".into(), "b".into()]));
    assert_eq!(text, "[@a; @b]");
    assert!(!bold);
    assert!(!italic);
}

#[test]
fn cover_uses_front_matter_fields() {
    let metadata = Metadata {
        security: Some("机密".into()),
        security_years: Some("5年".into()),
        doc_type: Some("技术报告".into()),
        doc_number: Some("XX-2026-001".into()),
        version: Some("V2.1".into()),
        institution: Some("某研究所".into()),
        date: Some("2026-07".into()),
        title: Some("系统报告".into()),
        bibliography: None,
    };
    let mut out = Vec::new();
    add_cover(&mut out, metadata.title.as_deref(), &metadata, 1999, 1);
    let text = paragraph_texts(&out).join("\n");

    for expected in [
        "密级：机密★5年",
        "编号：XX-2026-001",
        "版本：V2.1",
        "技术报告",
        "系统报告",
        "某研究所",
        "2026 年 7 月",
    ] {
        assert!(text.contains(expected), "missing {expected:?} in {text:?}");
    }
}

#[test]
fn section_markers_avoid_duplicate_titles_and_support_h1_appendix() {
    let blocks = parser::parse(
        "<!-- [参考文献] -->\n# 参考文献\n- 条目\n<!-- [附录] -->\n# 数据集\n## 说明\n",
    );
    let mut emitter = MainEmitter::new();
    let loaded = vec![false; blocks.len()];
    let out = emit_all(&mut emitter, &blocks, &loaded);
    let texts = paragraph_texts(&out);

    assert_eq!(texts.iter().filter(|text| *text == "参考文献").count(), 1);
    assert!(texts.iter().any(|text| text == "[1] 条目"));
    assert!(texts.iter().any(|text| text == "附录 A 数据集"));
    assert!(texts.iter().any(|text| text == "说明"));
}

#[test]
fn research_lists_use_expected_prefixes_and_hanging_indent() {
    let mut state = ListState::new();
    assert_eq!(next_prefix(&mut state, 1), "⑴ ");
    assert_eq!(next_prefix(&mut state, 2), "① ");
    assert_eq!(next_prefix(&mut state, 3), "(A) ");
    assert_eq!(next_prefix(&mut state, 4), "(a) ");
    assert_eq!(next_prefix(&mut state, 5), "I. ");
    assert_eq!(next_prefix(&mut state, 6), "i. ");

    let mut paragraphs = Vec::new();
    for level in 1..=6u8 {
        paragraphs.push(list_paragraph(level, "⑴ ", &[Inline::Text(format!("第{level}级"))]));
    }
    for (index, paragraph) in paragraphs.iter().enumerate() {
        let indent = paragraph.format.indent.as_ref().expect("list indent");
        assert_eq!(indent.start, Some(1120 + index as u32 * 560));
        assert!(matches!(indent.special, Some(SpecialIndent::Hanging(560))));
    }
    assert_eq!(run_texts(&paragraphs[0].runs), "⑴ 第1级");
}

#[test]
fn third_chapter_numbers_table_and_embeds_numbered_figure() {
    let dir = tempfile::tempdir().unwrap();
    let image_path = dir.path().join("figure.png");
    image::DynamicImage::new_rgb8(80, 40)
        .save_with_format(&image_path, image::ImageFormat::Png)
        .unwrap();
    let blocks = parser::parse(
        "<!-- [正文] -->\n## 1 第一章\n## 2 第二章\n## 3 第三章标题\n\
         Table: 数据表\n\n| A | B |\n|---|---|\n| 1 | 2 |\n\n\
         ![结构图](figure.png)\n",
    );
    let loaded: Vec<bool> = blocks
        .iter()
        .map(|b| figure_source(b).map(|url| dir.path().join(url).is_file()).unwrap_or(false))
        .collect();
    let mut emitter = MainEmitter::new();
    let out = emit_all(&mut emitter, &blocks, &loaded);
    let texts = paragraph_texts(&out);

    assert!(texts.iter().any(|text| text == "第三章 第三章标题"));
    assert!(texts.iter().any(|text| text == "表 3.1 数据表"));
    assert!(texts.iter().any(|text| text == "图 3.1 结构图"));
    assert!(out.iter().any(|item| matches!(item, DocItem::Figure { url, .. } if url == "figure.png")));
}

#[test]
fn missing_figure_becomes_failure_line() {
    let blocks = parser::parse("![结构图](nope.png)\n");
    let mut emitter = MainEmitter::new();
    let out = emit_all(&mut emitter, &blocks, &[false]);
    assert_eq!(paragraph_texts(&out), vec!["[图片加载失败：结构图]"]);
    assert_eq!(emitter.figure_counter, 0);
}

#[test]
fn document_has_cover_contents_changelog_and_body() {
    let raw = "---\ntitle: 报告\ndate: 2026/7\n---\n<!-- [版本变更记录] -->\n# 版本变更记录\n- 初版\n<!-- [正文] -->\n## 引言\n正文\n";
    let src = prepare(raw);
    let loaded = vec![false; src.split.main.len()];
    let items = render(&src, &loaded, 1999, 1).expect("letters fit");
    let texts = paragraph_texts(&items);
    assert!(texts.iter().any(|t| t == "报告"));
    assert!(texts.iter().any(|t| t == "2026 年 7 月"));
    assert!(texts.iter().any(|t| t == "目  录"));
    assert_eq!(texts.iter().filter(|t| *t == "版本变更记录").count(), 1);
    assert!(texts.iter().any(|t| t == "⑴ 初版"));
    assert!(texts.iter().any(|t| t == "第一章 引言"));
    assert!(items.iter().any(|i| matches!(i, DocItem::TableOfContents)));
}

#[test]
fn cover_without_date_uses_given_month() {
    let metadata = Metadata::default();
    let mut out = Vec::new();
    add_cover(&mut out, None, &metadata, 2027, 3);
    let texts = paragraph_texts(&out);
    assert!(texts.iter().any(|t| t == "研究报告"));
    assert!(texts.iter().any(|t| t == "2027 年 3 月"));
    assert!(texts.iter().any(|t| t == "密级：公开"));
    assert!(texts.iter().any(|t| t == "某某单位"));
}

#[test]
fn reference_and_abstract_headings() {
    let blocks = parser::parse("<!-- [摘要] -->\n# 摘要\n## 小节\n<!-- [正文] -->\n## 引言\n### 背景\n#### 细节\n");
    let mut emitter = MainEmitter::new();
    let loaded = vec![false; blocks.len()];
    let out = emit_all(&mut emitter, &blocks, &loaded);
    let texts = paragraph_texts(&out);
    assert_eq!(texts.iter().filter(|t| *t == "摘要").count(), 1);
    assert!(texts.iter().any(|t| t == "小节"));
    assert!(texts.iter().any(|t| t == "1.1 背景"));
    assert!(texts.iter().any(|t| t == "1.1.1 细节"));
}

#[test]
fn appendix_letter_wraps_as_a_byte() {
    let mut e = MainEmitter::new();
    e.handle_marker(MarkerKind::Appendix);
    e.appendix_idx = 256;
    let mut out = Vec::new();
    e.emit(&mut out, &Block::Heading { level: 1, text: "续".into() }, false);
    assert_eq!(e.appendix_idx, 257);
    assert!(paragraph_texts(&out).iter().any(|t| t == "附录 A 续"));
}
