use mdx::docx_official::render;
use mdx::docx_plan::{DocItem, ParaSpec, RunContent, RunSpec};
use mdx::docx_research::document::figure_source;
use mdx::parser;

fn escape_xml(text: &str) -> String {
    let mut escaped = String::new();
    for ch in text.chars() {
        match ch {
            '&' => escaped.push_str("&amp;"),
            '<' => escaped.push_str("&lt;"),
            '>' => escaped.push_str("&gt;"),
            '"' => escaped.push_str("&quot;"),
            '\'' => escaped.push_str("&apos;"),
            '\n' => escaped.push_str("&#xA;"),
            '\r' => {}
            _ => escaped.push(ch),
        }
    }
    escaped
}

fn run_text(run: &RunSpec) -> String {
    match &run.content {
        RunContent::Text(t) => escape_xml(t),
        _ => String::new(),
    }
}

fn paragraph_text(paragraph: &ParaSpec) -> String {
    paragraph.runs.iter().map(run_text).collect()
}

fn paragraphs(items: &[DocItem]) -> Vec<&ParaSpec> {
    items
        .iter()
        .filter_map(|item| match item {
            DocItem::Paragraph(p) => Some(p),
            _ => None,
        })
        .collect()
}

fn plan(markdown: &str) -> Vec<DocItem> {
    let blocks = parser::parse(markdown);
    let loaded = vec![false; blocks.len()];
    render(&blocks, &loaded)
}

#[test]
fn table_caption_is_preserved_before_table() {
    let items = plan("Table: 产品清单\n\n| 名称 | 数量 |\n|---|---|\n| A | 1 |\n");

    assert!(matches!(items.as_slice(), [DocItem::Paragraph(_), DocItem::Table(_)]));
    let captions: Vec<String> = paragraphs(&items)
        .into_iter()
        .map(paragraph_text)
        .filter(|text| !text.is_empty())
        .collect();
    assert_eq!(captions, vec!["表 1 产品清单"]);
}

#[test]
fn code_block_content_is_preserved_and_resets_list() {
    let items = plan("- 第一项\n```rust\nlet s = \"hello\";\n```\n- 新列表\n");
    let texts: Vec<String> = paragraphs(&items).into_iter().map(paragraph_text).collect();

    assert_eq!(texts, vec!["①第一项", "let s = &quot;hello&quot;;", "①新列表"]);
}

#[test]
fn heading_renders_inline_emphasis_without_markers() {
    let items = plan("## **重点**和*说明*\n");
    let heading = paragraphs(&items)[0];
    let runs: Vec<&RunSpec> = heading.runs.iter().collect();

    assert_eq!(paragraph_text(heading), "一、重点和说明");
    assert!(runs.iter().any(|run| run_text(run) == "重点" && run.style.bold));
    assert!(runs.iter().any(|run| run_text(run) == "说明" && run.style.italic));
}

#[test]
fn section_markers_render_headings_and_reference_numbers() {
    let items = plan("<!-- [摘要] -->\n# 摘要\n摘要正文\n<!-- [参考文献] -->\n# 参考文献\n- 条目\n");
    let texts: Vec<String> = paragraphs(&items).into_iter().map(paragraph_text).collect();

    assert_eq!(texts.iter().filter(|text| *text == "摘要").count(), 1);
    assert_eq!(texts.iter().filter(|text| *text == "参考文献").count(), 1);
    assert!(texts.iter().any(|text| text == "[1] 条目"));
}

#[test]
fn tables_and_figures_are_numbered_and_image_is_embedded() {
    let dir = tempfile::tempdir().unwrap();
    let image_path = dir.path().join("figure.png");
    image::DynamicImage::new_rgb8(80, 40)
        .save_with_format(&image_path, image::ImageFormat::Png)
        .unwrap();
    let blocks = parser::parse("Table: 数据表\n\n| A | B |\n|---|---|\n| 1 | 2 |\n\n![结构图](figure.png)\n");
    let loaded: Vec<bool> = blocks
        .iter()
        .map(|b| figure_source(b).map(|url| dir.path().join(url).is_file()).unwrap_or(false))
        .collect();
    let items = render(&blocks, &loaded);
    let texts: Vec<String> = paragraphs(&items).into_iter().map(paragraph_text).collect();

    assert!(texts.iter().any(|text| text == "表 1 数据表"));
    assert!(texts.iter().any(|text| text == "图 1 结构图"));
    assert!(items.iter().any(|item| matches!(item, DocItem::Figure { .. })));
}

#[test]
fn official_headings_are_numbered_by_level() {
    let items = plan("# 标题\n## 总体\n### 目标\n#### 要求\n##### 细则\n## 其他\n");
    let texts: Vec<String> = paragraphs(&items).into_iter().map(paragraph_text).collect();
    assert_eq!(texts, vec!["标题", "", "一、总体", "（一）目标", "1.要求", "(1)细则", "二、其他"]);
}
