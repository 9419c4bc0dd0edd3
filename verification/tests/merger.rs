use mdx::common::front_matter::Metadata as CoverInfo;
use mdx::tex_research::merger::{
    configure_biblatex, extract_title_from_content, normalize_cover_date, remove_first_h1,
    render_template, Merger, merge_markdown_contents, read_markdown_content,
};

#[test]
fn template_renders_title_and_body() {
    let template = "$if(title)$T:$title$$else$UNTITLED$endif$\n$body$";
    let rendered = render_template(template, "BODY", Some("A&B"), &CoverInfo::default(), false);
    assert_eq!(rendered, "T:A\\&B\nBODY");
}

#[test]
fn template_uses_else_without_title() {
    let template = "$if(title)$T:$title$$else$UNTITLED$endif$\n$body$";
    let rendered = render_template(template, "BODY", None, &CoverInfo::default(), false);
    assert_eq!(rendered, "UNTITLED\nBODY");
}

#[test]
fn template_conditionally_renders_bibliography() {
    let template = "$if(bibliography)$BIB$endif$\n$body$";
    assert_eq!(
        render_template(template, "BODY", None, &CoverInfo::default(), true),
        "BIB\nBODY"
    );
    assert_eq!(
        render_template(template, "BODY", None, &CoverInfo::default(), false),
        "\nBODY"
    );
}

#[test]
fn configure_biblatex_removes_nocite_and_disabled_setup() {
    let input = "\\usepackage[style=gb7714-2015]{biblatex}\n\\addbibresource{references.bib}\n\\nocite{*}\n\\printbibliography\n";
    let enabled = configure_biblatex(input, true);
    assert!(enabled.contains("biblatex"));
    assert!(enabled.contains("printbibliography"));
    assert!(!enabled.contains("nocite"));

    let disabled = configure_biblatex(input, false);
    assert!(!disabled.contains("biblatex"));
    assert!(!disabled.contains("addbibresource"));
    assert!(!disabled.contains("printbibliography"));
    assert!(!disabled.contains("nocite"));
}

#[test]
fn configure_biblatex_removes_inline_nocite() {
    let input = "\\AtBeginDocument{\\nocite{*}}\n";
    let configured = configure_biblatex(input, true);
    assert!(!configured.contains("\\nocite{*}"), "{configured}");
    assert_eq!(configured, "\\AtBeginDocument{}\n");
}

#[test]
fn template_renders_cover_fields() {
    let template = "$security$|$doctype$|$docnumber$|$docversion$|$institution$|$submitdate$";
    let cover = CoverInfo {
        security: Some("内部".into()),
        security_years: None,
        doc_type: Some("技术报告".into()),
        doc_number: Some("XX-2026-001".into()),
        version: Some("V2.1".into()),
        institution: Some("某研究所".into()),
        date: Some("2026-07".into()),
        title: None,
        bibliography: None,
    };
    let rendered = render_template(template, "", None, &cover, false);
    assert_eq!(
        rendered,
        "内部|技术报告|XX-2026-001|V2.1|某研究所|2026 年 7 月"
    );
}

#[test]
fn template_cover_defaults() {
    let template = "$security$|$doctype$|$docnumber$|$docversion$|$institution$|$submitdate$";
    let rendered = render_template(template, "", None, &CoverInfo::default(), false);
    assert_eq!(
        rendered,
        r"公开|研究报告||V1.0|某某单位|\the\year 年 \the\month 月"
    );
}

#[test]
fn template_renders_security_years_separately() {
    let template = "$security$/$securityyears$";
    let cover = CoverInfo {
        security: Some("机密".into()),
        security_years: Some("5年".into()),
        ..CoverInfo::default()
    };
    let rendered = render_template(template, "", None, &cover, false);
    assert_eq!(rendered, "机密/5年");
}

#[test]
fn template_security_years_defaults_to_empty() {
    let template = "$security$/$securityyears$";
    let rendered = render_template(template, "", None, &CoverInfo::default(), false);
    assert_eq!(rendered, "公开/");
}

#[test]
fn normalizes_cover_date_to_month() {
    assert_eq!(normalize_cover_date("2026-07"), "2026 年 7 月");
    assert_eq!(normalize_cover_date("2026/7"), "2026 年 7 月");
    assert_eq!(normalize_cover_date("2026年07月"), "2026 年 7 月");
    assert_eq!(normalize_cover_date("二〇二六年七月"), "二〇二六年七月");
}

#[test]
fn title_comes_from_first_level_one_heading() {
    let content = "前言\n## 二级\n# 一、测试报告 {#t}\n# 第二个\n";
    assert_eq!(extract_title_from_content(content).as_deref(), Some("测试报告"));
    assert_eq!(extract_title_from_content("## 只有二级\n"), None);
}

#[test]
fn first_level_one_heading_is_removed_once() {
    let content = "\n# 标题\n\n## 背景\n# 第二个\n正文";
    assert_eq!(remove_first_h1(content), "## 背景\n# 第二个\n正文");
}

#[test]
fn merger_can_be_created() {
    let _m = Merger::new();
}

#[test]
fn template_escapes_cover_fields() {
    let template = "$institution$";
    let cover = CoverInfo { institution: Some("A&B_C".into()), ..CoverInfo::default() };
    assert_eq!(render_template(template, "", None, &cover, false), "A\\&B\\_C");
}

#[test]
fn directory_files_merge_with_first_title() {
    let files = vec![
        "\u{feff}前言\n".to_string(),
        "# 报告标题\n## 第一章\n".to_string(),
        "# 另一个标题\n".to_string(),
    ];
    let (merged, title) = merge_markdown_contents(&files);
    assert_eq!(title.as_deref(), Some("报告标题"));
    assert_eq!(merged, "前言\n\n\n## 第一章\n\n# 另一个标题\n\n\n");
}

#[test]
fn single_file_loses_its_title_heading() {
    let (body, title) = read_markdown_content("\u{feff}\u{feff}# 标题\n正文\n");
    assert_eq!(title.as_deref(), Some("标题"));
    assert_eq!(body, "正文");
}

#[test]
fn directory_merge_removes_first_h1_once() {
    let files = vec!["# 一、测试报告\n\n## 背景\n正文".to_string(), "# 第二章 后续\n内容".to_string()];
    let (merged, title) = merge_markdown_contents(&files);
    assert_eq!(title.as_deref(), Some("测试报告"));
    assert!(!merged.contains("# 一、测试报告"));
    assert!(merged.contains("# 第二章 后续"));
}

#[test]
fn directory_merge_strips_bom_from_each_file() {
    let files = vec![
        "# 测试报告\n\n## 第一章 概述\n".to_string(),
        "\u{feff}## 第三章 感知类研制任务\n\n正文\n".to_string(),
    ];
    let (merged, _) = merge_markdown_contents(&files);
    let blocks = mdx::parser::parse(&merged);
    let mut emitter = mdx::tex_research_emitter::TexResearchEmitter::new();
    emitter.emit_all(&blocks);
    let (main, parts) = emitter.finish();
    let body = main + &parts.into_iter().map(|(_, c)| c).collect::<String>();

    assert!(body.contains("\\chapter{感知类研制任务}"), "{body}");
    assert!(!body.contains("\\#\\# 第三章"), "{body}");
}

#[test]
fn removing_addbibresource_keeps_the_next_line() {
    let input = "\\addbibresource{references.bib}   % 文献库\n\\begin{document}\n";
    assert_eq!(configure_biblatex(input, false), "\\begin{document}\n");
}
