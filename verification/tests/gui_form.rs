use mdx::convert::{ConvertOutcome, DocumentStyle, OutputFormat, ProgressEvent, ProgressLevel};
use mdx::gui_form::{LogTone, MdxApp, WorkerMessage};
use mdx::input::InputKind;

fn messages(app: &MdxApp) -> Vec<(LogTone, String)> {
    app.logs.iter().map(|l| (l.tone, l.message.clone())).collect()
}

#[test]
fn new_form_asks_for_input() {
    let app = MdxApp::new();
    assert_eq!(messages(&app), vec![(LogTone::Info, "请选择 Markdown 文件或目录。".to_string())]);
    assert_eq!(app.format, OutputFormat::Docx);
    assert!(app.compile_pdf);
}

#[test]
fn input_sets_suggested_output_and_format_switch_recomputes_it() {
    let mut app = MdxApp::new();
    app.set_input("reports/source.md", InputKind::File, None);
    assert_eq!(app.output, "reports/source.docx");
    app.format = OutputFormat::Tex;
    app.update_output_extension(InputKind::File, None);
    assert_eq!(app.output, "reports/source/source.tex");
}

#[test]
fn output_extension_changes_without_input() {
    let mut app = MdxApp::new();
    app.output = " out/report.docx ".to_string();
    app.format = OutputFormat::Tex;
    app.update_output_extension(InputKind::File, None);
    assert_eq!(app.output, "out/report.tex");
}

#[test]
fn request_is_refused_with_reasons() {
    let mut app = MdxApp::new();
    assert_eq!(app.build_request(true, true).unwrap_err(), "请选择输入文件或目录。");
    app.input = "a.md".to_string();
    assert_eq!(app.build_request(false, true).unwrap_err(), "输入路径不存在：a.md");
    assert_eq!(app.build_request(true, true).unwrap_err(), "请选择输出文件。");
    app.output = "a.tex".to_string();
    assert_eq!(app.build_request(true, true).unwrap_err(), "输出文件扩展名应为 .docx");
    app.format = OutputFormat::Tex;
    app.style = DocumentStyle::Research;
    app.template = " t.tex ".to_string();
    assert_eq!(app.build_request(true, false).unwrap_err(), "模板文件不存在：t.tex");
    let request = app.build_request(true, true).unwrap();
    assert_eq!(request.template.as_deref(), Some("t.tex"));
    assert!(request.compile_pdf);
    assert_eq!(request.output.as_deref(), Some("a.tex"));
}

#[test]
fn conversion_start_and_finish_are_logged() {
    let mut app = MdxApp::new();
    app.input = "a.md".to_string();
    app.output = "a.docx".to_string();
    assert!(app.start_conversion(true, false).is_some());
    assert!(app.running);
    assert_eq!(messages(&app), vec![(LogTone::Info, "转换任务已启动。".to_string())]);
    app.receive(WorkerMessage::Progress(ProgressEvent { level: ProgressLevel::Warning, message: "注意".to_string() }));
    app.receive(WorkerMessage::Finished(Ok(ConvertOutcome { output: "a.tex".to_string(), pdf: Some("a.pdf".to_string()) })));
    assert!(!app.running);
    assert_eq!(
        messages(&app)[1..],
        [
            (LogTone::Warning, "注意".to_string()),
            (LogTone::Success, "已生成：a.tex".to_string()),
            (LogTone::Success, "已生成 PDF：a.pdf".to_string()),
        ]
    );
    app.receive(WorkerMessage::Finished(Err("坏了".to_string())));
    assert_eq!(messages(&app).last().unwrap(), &(LogTone::Error, "转换失败：坏了".to_string()));
}

#[test]
fn dropped_files_must_be_markdown_or_directories() {
    let mut app = MdxApp::new();
    app.accept_dropped_file("notes/readme.txt", false, InputKind::File, None);
    assert_eq!(messages(&app).last().unwrap(), &(LogTone::Error, "拖入项必须是 Markdown 文件或目录。".to_string()));
    app.accept_dropped_file("notes/a.MARKDOWN", false, InputKind::File, None);
    assert_eq!(app.input, "notes/a.MARKDOWN");
    assert_eq!(messages(&app).last().unwrap(), &(LogTone::Info, "已接受拖入的输入路径。".to_string()));
    app.accept_dropped_file("chapters", true, InputKind::Directory, None);
    assert_eq!(app.output, "chapters.docx");
}

#[test]
fn selecting_a_format_recomputes_output_only_on_change() {
    let mut app = MdxApp::new();
    app.set_input("reports/source.md", InputKind::File, None);
    app.output = "custom/name.docx".to_string();
    app.select_format(OutputFormat::Docx, InputKind::File, None);
    assert_eq!(app.output, "custom/name.docx");
    app.select_format(OutputFormat::Tex, InputKind::File, None);
    assert_eq!(app.format, OutputFormat::Tex);
    assert_eq!(app.output, "reports/source/source.tex");
}

#[test]
fn rows_and_enabled_state_follow_the_form() {
    let mut app = MdxApp::new();
    assert!(app.accepts_input());
    assert!(!app.shows_template());
    assert!(!app.shows_pdf_option());
    app.format = OutputFormat::Tex;
    assert!(app.shows_pdf_option());
    assert!(!app.shows_template());
    app.style = DocumentStyle::Research;
    assert!(app.shows_template());
    app.running = true;
    assert!(!app.accepts_input());
}
