//! What a conversion is asked to do, and the decisions around it: output
//! names, progress messages, the command line's requests.
use vstd::prelude::*;
use crate::input::{InputKind, base_name, base_name_spec, default_output_for, default_output_spec};
use crate::paths::{join_paths, no_separator, parent_of, path_join, path_parent, path_with_extension, with_extension};
use crate::text::push_str;

verus! {

/// Target format of a conversion.
#[derive(Debug, Clone, Copy, PartialEq, Eq, Structural)]
pub enum OutputFormat {
    Docx,
    Tex,
}

pub open spec fn extension_spec(f: OutputFormat) -> Seq<char> {
    match f {
        OutputFormat::Docx => "docx"@,
        OutputFormat::Tex => "tex"@,
    }
}

/// A format's extension holds no path separator.
pub proof fn lemma_extension_plain(f: OutputFormat)
    ensures
        no_separator(extension_spec(f)),
{
    reveal_strlit("docx");
    reveal_strlit("tex");
    assert(!"docx"@.contains('/') && !"docx"@.contains('\\')) by {
        assert("docx"@ =~= seq!['d', 'o', 'c', 'x']);
    }
    assert(!"tex"@.contains('/') && !"tex"@.contains('\\')) by {
        assert("tex"@ =~= seq!['t', 'e', 'x']);
    }
}

impl OutputFormat {
    /// File extension of the format.
    pub fn extension(self) -> (e: &'static str)
        ensures
            e@ == extension_spec(self),
            no_separator(e@),
    {
        proof {
            lemma_extension_plain(self);
        }
        match self {
            OutputFormat::Docx => "docx",
            OutputFormat::Tex => "tex",
        }
    }
}

/// Built-in document styles.
#[derive(Debug, Clone, Copy, PartialEq, Eq, Structural)]
pub enum DocumentStyle {
    Official,
    Research,
}

/// Everything a conversion needs (paths as text).
#[derive(Debug, Clone)]
pub struct ConvertRequest {
    pub input: String,
    pub output: Option<String>,
    pub format: OutputFormat,
    pub style: DocumentStyle,
    pub template: Option<String>,
    pub compile_pdf: bool,
}

/// Level of a progress message.
#[derive(Debug, Clone, Copy, PartialEq, Eq, Structural)]
pub enum ProgressLevel {
    Info,
    Warning,
}

/// A message for the user about a running conversion.
#[derive(Debug, Clone)]
pub struct ProgressEvent {
    pub level: ProgressLevel,
    pub message: String,
}

/// The main files a successful conversion produced.
#[derive(Debug, Clone)]
pub struct ConvertOutcome {
    pub output: String,
    pub pdf: Option<String>,
}

/// Default output path of an input, by the command line's rules: TeX in a
/// directory of its own, DOCX as a bare file.
pub fn default_output(input: &str, kind: InputKind, canonical: Option<&str>, format: OutputFormat) -> (r: String)
    ensures
        r@ == default_output_spec(
            base_name_spec(input@, kind, match canonical { Some(c) => Some(c@), None => None }),
            kind,
            extension_spec(format),
        ),
{
    let name = base_name(input, kind, canonical);
    default_output_for(name.as_str(), kind, format.extension())
}

/// The output of a request: the one asked for, or the default.
pub fn output_path(request: &ConvertRequest, kind: InputKind, canonical: Option<&str>) -> (r: String)
    ensures
        r@ == match request.output {
            Some(o) => o@,
            None => default_output_spec(
                base_name_spec(request.input@, kind, match canonical { Some(c) => Some(c@), None => None }),
                kind,
                extension_spec(request.format),
            ),
        },
{
    match &request.output {
        Some(o) => o.clone(),
        None => default_output(request.input.as_str(), kind, canonical, request.format),
    }
}

/// Output suggested next to the input, by the same rules as the command line.
pub fn suggested_output(input: &str, kind: InputKind, canonical: Option<&str>, format: OutputFormat) -> (r: String)
    ensures
        r@ == path_join(
            match path_parent(input@) { Some(p) => p, None => "."@ },
            default_output_spec(
                base_name_spec(input@, kind, match canonical { Some(c) => Some(c@), None => None }),
                kind,
                extension_spec(format),
            ),
        ),
{
    let dir = match parent_of(input) {
        Some(p) => p,
        None => ".".to_owned(),
    };
    let out = default_output(input, kind, canonical, format);
    join_paths(dir.as_str(), out.as_str())
}

pub open spec fn message(e: ProgressEvent) -> (ProgressLevel, Seq<char>) {
    (e.level, e.message@)
}

/// Messages at the start of a conversion: input, output, a warning when an
/// official-style request names a template, then the parsing step.
pub open spec fn start_messages(r: ConvertRequest, output: Seq<char>) -> Seq<(ProgressLevel, Seq<char>)> {
    seq![
        (ProgressLevel::Info, "输入："@ + r.input@),
        (ProgressLevel::Info, "输出："@ + output),
    ] + (if r.style == DocumentStyle::Official && r.template is Some {
        seq![(ProgressLevel::Warning, "公文 TeX 不支持自定义模板，已忽略该设置"@)]
    } else {
        Seq::empty()
    }) + seq![(ProgressLevel::Info, "正在解析 Markdown 并生成文档…"@)]
}

fn event(level: ProgressLevel, prefix: &str, rest: &str) -> (e: ProgressEvent)
    ensures
        e.level == level,
        e.message@ == prefix@ + rest@,
{
    let mut m = String::new();
    push_str(&mut m, prefix);
    push_str(&mut m, rest);
    ProgressEvent { level, message: m }
}

pub fn start_events(request: &ConvertRequest, output: &str) -> (r: Vec<ProgressEvent>)
    ensures
        r@.map_values(|e: ProgressEvent| message(e)) == start_messages(*request, output@),
{
    let mut r: Vec<ProgressEvent> = Vec::new();
    r.push(event(ProgressLevel::Info, "输入：", request.input.as_str()));
    r.push(event(ProgressLevel::Info, "输出：", output));
    if matches!(request.style, DocumentStyle::Official) && request.template.is_some() {
        r.push(event(ProgressLevel::Warning, "公文 TeX 不支持自定义模板，已忽略该设置", ""));
    }
    r.push(event(ProgressLevel::Info, "正在解析 Markdown 并生成文档…", ""));
    proof {
        reveal_strlit("");
        assert(r@.map_values(|e: ProgressEvent| message(e)) =~= start_messages(*request, output@));
    }
    r
}

/// The message at the end of a successful conversion.
pub fn finish_event() -> (e: ProgressEvent)
    ensures
        e.level == ProgressLevel::Info,
        e.message@ == "转换完成"@,
{
    ProgressEvent { level: ProgressLevel::Info, message: "转换完成".to_owned() }
}

/// Where the PDF of a TeX output would be; DOCX output has none.
pub fn pdf_candidate(format: OutputFormat, output: &str) -> (r: Option<String>)
    ensures
        match r {
            Some(p) => format == OutputFormat::Tex && p@ == path_with_extension(output@, "pdf"@),
            None => format == OutputFormat::Docx,
        },
{
    proof {
        reveal_strlit("pdf");
        assert("pdf"@ =~= seq!['p', 'd', 'f']);
    }
    match format {
        OutputFormat::Tex => Some(with_extension(output, "pdf")),
        OutputFormat::Docx => None,
    }
}

/// Styles on the command line.
#[derive(Debug, Clone, Copy, PartialEq, Eq, Structural)]
pub enum Style {
    Official,
    Research,
}

/// Subcommands of the command line.
#[derive(Debug, Clone)]
pub enum Format {
    Docx { input: String, style: Style, output: Option<String> },
    Tex { input: String, style: Style, output: Option<String>, template: Option<String> },
}

/// The command line.
#[derive(Debug, Clone)]
pub struct Cli {
    pub command: Format,
}

pub open spec fn style_of(s: Style) -> DocumentStyle {
    match s {
        Style::Official => DocumentStyle::Official,
        Style::Research => DocumentStyle::Research,
    }
}

pub fn map_style(style: Style) -> (d: DocumentStyle)
    ensures
        d == style_of(style),
{
    match style {
        Style::Official => DocumentStyle::Official,
        Style::Research => DocumentStyle::Research,
    }
}

/// The request a command line asks for: DOCX never takes a template nor
/// compiles; TeX compiles a PDF when it can.
pub fn request_for(command: Format) -> (r: ConvertRequest)
    ensures
        match command {
            Format::Docx { input, style, output } => r.input == input && r.output == output
                && r.format == OutputFormat::Docx && r.style == style_of(style) && r.template is None
                && !r.compile_pdf,
            Format::Tex { input, style, output, template } => r.input == input && r.output == output
                && r.format == OutputFormat::Tex && r.style == style_of(style) && r.template == template
                && r.compile_pdf,
        },
{
    match command {
        Format::Docx { input, style, output } => ConvertRequest {
            input,
            output,
            format: OutputFormat::Docx,
            style: map_style(style),
            template: None,
            compile_pdf: false,
        },
        Format::Tex { input, style, output, template } => ConvertRequest {
            input,
            output,
            format: OutputFormat::Tex,
            style: map_style(style),
            template,
            compile_pdf: true,
        },
    }
}

} // verus!
