use mdx::convert::{output_path, request_for, start_events, Format, Style};
use mdx::input::{
    base_name, bundle_dir_name, classify, default_output_for, merge_contents, sort_file_names,
    strip_bom, strip_horizontal_rules, InputError, InputKind,
};
use mdx::{default_output, ConvertRequest, DocumentStyle, OutputFormat, ProgressLevel};

#[test]
fn classify_accepts_directories_and_markdown_files() {
    assert_eq!(classify("x", false, false, false), Err(InputError::NotFound));
    assert_eq!(classify("dir", true, true, false), Ok(InputKind::Directory));
    assert_eq!(classify("a.MD", true, false, true), Ok(InputKind::File));
    assert_eq!(classify("a.txt", true, false, true), Err(InputError::NotMarkdown));
}

#[test]
fn tex_output_goes_into_its_own_directory() {
    assert_eq!(default_output("report.md", InputKind::File, None, OutputFormat::Tex), "report/report.tex");
}

#[test]
fn tex_output_dir_for_input_directory_gets_suffix() {
    assert_eq!(default_output("chapters", InputKind::Directory, None, OutputFormat::Tex), "chapters-tex/chapters.tex");
}

#[test]
fn docx_output_stays_a_bare_file() {
    assert_eq!(default_output("report.md", InputKind::File, None, OutputFormat::Docx), "report.docx");
    assert_eq!(default_output("chapters", InputKind::Directory, None, OutputFormat::Docx), "chapters.docx");
}

#[test]
fn dot_directory_falls_back_to_canonical_name() {
    assert_eq!(base_name(".", InputKind::Directory, Some("work")), "work");
    assert_eq!(base_name("..", InputKind::Directory, None), "output");
    assert_eq!(default_output_for("work", InputKind::Directory, "tex"), "work-tex/work.tex");
    assert_eq!(bundle_dir_name("work", InputKind::File, "TEX"), Some("work".to_string()));
    assert_eq!(bundle_dir_name("work", InputKind::File, "docx"), None);
}

#[test]
fn merged_files_lose_their_byte_order_marks() {
    let files = vec!["\u{feff}## 第一章 标题\n".to_string(), "\u{feff}## 第二章 标题\n".to_string()];
    let merged = merge_contents(&files);
    assert!(!merged.contains('\u{feff}'));
    assert_eq!(merged, "## 第一章 标题\n\n\n## 第二章 标题\n\n\n");
    assert_eq!(strip_bom("\u{feff}\u{feff}x"), "\u{feff}x");
}

#[test]
fn horizontal_rules_are_dropped_but_table_rows_stay() {
    let md = "甲\n---\n  -----  \n|---|---|\n乙";
    assert_eq!(strip_horizontal_rules(md), "甲\n|---|---|\n乙");
}

#[test]
fn file_names_are_sorted_by_name() {
    let names = vec!["b.md".to_string(), "a.md".to_string(), "10.md".to_string(), "a.md".to_string()];
    assert_eq!(sort_file_names(&names), vec!["10.md", "a.md", "a.md", "b.md"]);
}

#[test]
fn command_line_requests() {
    let docx = request_for(Format::Docx { input: "a.md".into(), style: Style::Official, output: None });
    assert_eq!(docx.format, OutputFormat::Docx);
    assert_eq!(docx.style, DocumentStyle::Official);
    assert!(!docx.compile_pdf);
    let tex = request_for(Format::Tex {
        input: "a.md".into(),
        style: Style::Research,
        output: Some("o.tex".into()),
        template: Some("t.tex".into()),
    });
    assert!(tex.compile_pdf);
    assert_eq!(tex.template.as_deref(), Some("t.tex"));
    assert_eq!(output_path(&tex, InputKind::File, None), "o.tex");
}

#[test]
fn official_template_request_warns() {
    let req = ConvertRequest {
        input: "a.md".into(),
        output: None,
        format: OutputFormat::Tex,
        style: DocumentStyle::Official,
        template: Some("t.tex".into()),
        compile_pdf: true,
    };
    let events = start_events(&req, "a/a.tex");
    assert_eq!(events.len(), 4);
    assert_eq!(events[0].message, "输入：a.md");
    assert_eq!(events[1].message, "输出：a/a.tex");
    assert_eq!(events[2].level, ProgressLevel::Warning);
    assert_eq!(events[3].message, "正在解析 Markdown 并生成文档…");
}
