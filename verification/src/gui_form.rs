//! The desktop front end's form: input, output and template fields, format
//! and style choices, and the task log. What the form decides (suggested
//! outputs, whether a request can start, what the log says) is here; the
//! window, dialogs and worker thread feed it what they observe.

use vstd::prelude::*;
use crate::convert::{
    ConvertOutcome, ConvertRequest, DocumentStyle, OutputFormat, ProgressEvent, ProgressLevel, extension_spec,
    suggested_output,
};
use crate::input::{InputKind, base_name_spec, default_output_spec};
use crate::paths::{
    eq_ignore_ascii_case, eq_ignore_case, extension_of, has_extension, non_empty_path, non_empty_path_spec,
    opt_string, path_extension, path_join, path_parent, path_with_extension, with_extension,
};
use crate::text::{chars_of, push_str, trim};

verus! {

/// How a log line reads: plain information, success, warning or failure.
#[derive(Debug, Clone, Copy, PartialEq, Eq, Structural)]
pub enum LogTone {
    Info,
    Success,
    Warning,
    Error,
}

/// A line of the task log.
#[derive(Debug)]
pub struct LogEntry {
    pub message: String,
    pub tone: LogTone,
}

impl LogEntry {
    pub fn info(message: String) -> (e: LogEntry)
        ensures
            e.tone == LogTone::Info && e.message == message,
    {
        LogEntry { message, tone: LogTone::Info }
    }

    pub fn success(message: String) -> (e: LogEntry)
        ensures
            e.tone == LogTone::Success && e.message == message,
    {
        LogEntry { message, tone: LogTone::Success }
    }

    pub fn error(message: String) -> (e: LogEntry)
        ensures
            e.tone == LogTone::Error && e.message == message,
    {
        LogEntry { message, tone: LogTone::Error }
    }

    /// A progress message keeps its text; a warning reads as one.
    pub fn from_event(event: ProgressEvent) -> (e: LogEntry)
        ensures
            e.message == event.message,
            e.tone == (if event.level == ProgressLevel::Warning { LogTone::Warning } else { LogTone::Info }),
    {
        let tone = match event.level {
            ProgressLevel::Info => LogTone::Info,
            ProgressLevel::Warning => LogTone::Warning,
        };
        LogEntry { message: event.message, tone }
    }
}

pub open spec fn log_view(l: LogEntry) -> (LogTone, Seq<char>) {
    (l.tone, l.message@)
}

pub open spec fn logs_view(s: Seq<LogEntry>) -> Seq<(LogTone, Seq<char>)> {
    s.map_values(|l: LogEntry| log_view(l))
}

/// What the worker thread reports.
pub enum WorkerMessage {
    Progress(ProgressEvent),
    Finished(Result<ConvertOutcome, String>),
}

/// The form's state.
pub struct MdxApp {
    pub input: String,
    pub output: String,
    pub template: String,
    pub format: OutputFormat,
    pub style: DocumentStyle,
    pub compile_pdf: bool,
    pub running: bool,
    pub logs: Vec<LogEntry>,
    pub outcome: Option<ConvertOutcome>,
}

fn push_log(logs: &mut Vec<LogEntry>, e: LogEntry)
    ensures
        logs_view(final(logs)@) == logs_view(old(logs)@).push(log_view(e)),
{
    let ghost before = logs@;
    logs.push(e);
    assert(logs_view(logs@) =~= logs_view(before).push(log_view(e)));
}

fn joined(a: &str, b: &str) -> (s: String)
    ensures
        s@ == a@ + b@,
{
    let mut s = String::new();
    push_str(&mut s, a);
    push_str(&mut s, b);
    s
}

/// The output suggested next to an input.
pub open spec fn suggested_spec(input: Seq<char>, kind: InputKind, canonical: Option<Seq<char>>, format: OutputFormat) -> Seq<char> {
    path_join(
        match path_parent(input) { Some(p) => p, None => "."@ },
        default_output_spec(base_name_spec(input, kind, canonical), kind, extension_spec(format)),
    )
}

pub open spec fn opt_str(o: Option<&str>) -> Option<Seq<char>> {
    match o {
        Some(c) => Some(c@),
        None => None,
    }
}

/// Why the form's request cannot start, if it cannot.
pub open spec fn refusal(app: MdxApp, input_exists: bool, template_is_file: bool) -> Option<Seq<char>> {
    match non_empty_path_spec(app.input@) {
        None => Some("请选择输入文件或目录。"@),
        Some(input) => if !input_exists {
            Some("输入路径不存在："@ + input)
        } else {
            match non_empty_path_spec(app.output@) {
                None => Some("请选择输出文件。"@),
                Some(output) => if !has_extension(output, extension_spec(app.format)) {
                    Some("输出文件扩展名应为 ."@ + extension_spec(app.format))
                } else {
                    let wants_template = app.format == OutputFormat::Tex && app.style == DocumentStyle::Research
                        && trim(app.template@).len() > 0;
                    if wants_template && !template_is_file {
                        Some("模板文件不存在："@ + trim(app.template@))
                    } else {
                        None
                    }
                },
            }
        },
    }
}

impl MdxApp {
    pub fn new() -> (app: MdxApp)
        ensures
            app.input@ == Seq::<char>::empty() && app.output@ == Seq::<char>::empty() && app.template@ == Seq::<char>::empty(),
            app.format == OutputFormat::Docx && app.style == DocumentStyle::Official,
            app.compile_pdf && !app.running && app.outcome is None,
            logs_view(app.logs@) == seq![(LogTone::Info, "请选择 Markdown 文件或目录。"@)],
    {
        let mut logs: Vec<LogEntry> = Vec::new();
        push_log(&mut logs, LogEntry::info("请选择 Markdown 文件或目录。".to_owned()));
        proof {
            assert(logs_view(logs@) =~= seq![(LogTone::Info, "请选择 Markdown 文件或目录。"@)]);
        }
        MdxApp {
            input: String::new(),
            output: String::new(),
            template: String::new(),
            format: OutputFormat::Docx,
            style: DocumentStyle::Official,
            compile_pdf: true,
            running: false,
            logs,
            outcome: None,
        }
    }

    /// Takes a new input and suggests the output next to it; `kind` and
    /// `canonical` are what the file system says of the path.
    pub fn set_input(&mut self, path: &str, kind: InputKind, canonical: Option<&str>)
        ensures
            final(self).output@ == suggested_spec(path@, kind, opt_str(canonical), old(self).format),
            final(self).input@ == path@,
            final(self).outcome is None,
            final(self).template == old(self).template,
            final(self).format == old(self).format,
            final(self).style == old(self).style,
            final(self).compile_pdf == old(self).compile_pdf,
            final(self).running == old(self).running,
            final(self).logs == old(self).logs,
    {
        self.output = suggested_output(path, kind, canonical, self.format);
        self.input = path.to_owned();
        self.outcome = None;
    }

    /// After the format changed: the output is suggested anew from the input,
    /// or, without an input, the output gets the format's extension.
    pub fn update_output_extension(&mut self, kind: InputKind, canonical: Option<&str>)
        ensures
            final(self).output@ == match non_empty_path_spec(old(self).input@) {
                Some(i) => suggested_spec(i, kind, opt_str(canonical), old(self).format),
                None => match non_empty_path_spec(old(self).output@) {
                    Some(o) => path_with_extension(o, extension_spec(old(self).format)),
                    None => old(self).output@,
                },
            },
            final(self).outcome is None,
            final(self).input == old(self).input,
            final(self).template == old(self).template,
            final(self).format == old(self).format,
            final(self).style == old(self).style,
            final(self).compile_pdf == old(self).compile_pdf,
            final(self).running == old(self).running,
            final(self).logs == old(self).logs,
    {
        match non_empty_path(self.input.as_str()) {
            Some(input) => {
                self.output = suggested_output(input.as_str(), kind, canonical, self.format);
            },
            None => match non_empty_path(self.output.as_str()) {
                Some(path) => {
                    self.output = with_extension(path.as_str(), self.format.extension());
                },
                None => {},
            },
        }
        self.outcome = None;
    }

    /// Picks an output format; a change of format recomputes the output as
    /// [`Self::update_output_extension`] does, picking the same one changes
    /// nothing.
    pub fn select_format(&mut self, format: OutputFormat, kind: InputKind, canonical: Option<&str>)
        ensures
            final(self).format == format,
            format == old(self).format ==> final(self).output == old(self).output
                && final(self).outcome == old(self).outcome,
            format != old(self).format ==> final(self).output@ == match non_empty_path_spec(old(self).input@) {
                Some(i) => suggested_spec(i, kind, opt_str(canonical), format),
                None => match non_empty_path_spec(old(self).output@) {
                    Some(o) => path_with_extension(o, extension_spec(format)),
                    None => old(self).output@,
                },
            } && final(self).outcome is None,
            final(self).input == old(self).input,
            final(self).template == old(self).template,
            final(self).style == old(self).style,
            final(self).compile_pdf == old(self).compile_pdf,
            final(self).running == old(self).running,
            final(self).logs == old(self).logs,
    {
        if format != self.format {
            self.format = format;
            self.update_output_extension(kind, canonical);
        }
    }

    /// The form, the convert button and dropped files are taken only while
    /// no conversion runs.
    pub fn accepts_input(&self) -> (r: bool)
        ensures
            r == !self.running,
    {
        !self.running
    }

    /// The custom template row shows for a research report in TeX.
    pub fn shows_template(&self) -> (r: bool)
        ensures
            r == (self.format == OutputFormat::Tex && self.style == DocumentStyle::Research),
    {
        self.format == OutputFormat::Tex && self.style == DocumentStyle::Research
    }

    /// The PDF option shows for TeX output.
    pub fn shows_pdf_option(&self) -> (r: bool)
        ensures
            r == (self.format == OutputFormat::Tex),
    {
        self.format == OutputFormat::Tex
    }

    /// The request the form describes, or why it cannot start;
    /// `input_exists` and `template_is_file` are what the file system says of
    /// the trimmed input and template paths.
    pub fn build_request(&self, input_exists: bool, template_is_file: bool) -> (r: Result<ConvertRequest, String>)
        ensures
            match r {
                Err(msg) => refusal(*self, input_exists, template_is_file) == Some(msg@),
                Ok(req) => refusal(*self, input_exists, template_is_file) is None
                    && non_empty_path_spec(self.input@) == Some(req.input@)
                    && opt_string(req.output) == non_empty_path_spec(self.output@)
                    && req.format == self.format && req.style == self.style
                    && opt_string(req.template) == (if self.format == OutputFormat::Tex
                        && self.style == DocumentStyle::Research && trim(self.template@).len() > 0 {
                        Some(trim(self.template@))
                    } else {
                        None
                    })
                    && req.compile_pdf == (self.format == OutputFormat::Tex && self.compile_pdf),
            },
    {
        let input = match non_empty_path(self.input.as_str()) {
            None => return Err("请选择输入文件或目录。".to_owned()),
            Some(i) => i,
        };
        if !input_exists {
            return Err(joined("输入路径不存在：", input.as_str()));
        }
        let output = match non_empty_path(self.output.as_str()) {
            None => return Err("请选择输出文件。".to_owned()),
            Some(o) => o,
        };
        let expected = self.format.extension();
        let matches = match extension_of(output.as_str()) {
            Some(e) => eq_ignore_case(e.as_str(), expected),
            None => false,
        };
        if !matches {
            return Err(joined("输出文件扩展名应为 .", expected));
        }
        let wants_template = matches!(self.format, OutputFormat::Tex) && matches!(self.style, DocumentStyle::Research);
        let template = if wants_template {
            match non_empty_path(self.template.as_str()) {
                Some(t) => {
                    if !template_is_file {
                        return Err(joined("模板文件不存在：", t.as_str()));
                    }
                    Some(t)
                },
                None => None,
            }
        } else {
            None
        };
        Ok(ConvertRequest {
            input,
            output: Some(output),
            format: self.format,
            style: self.style,
            template,
            compile_pdf: matches!(self.format, OutputFormat::Tex) && self.compile_pdf,
        })
    }

    /// Starts a conversion: a request that cannot start is logged as an
    /// error; otherwise the log restarts and the form runs.
    pub fn start_conversion(&mut self, input_exists: bool, template_is_file: bool) -> (r: Option<ConvertRequest>)
        ensures
            match refusal(*old(self), input_exists, template_is_file) {
                Some(msg) => r is None && final(self).running == old(self).running
                    && logs_view(final(self).logs@) == logs_view(old(self).logs@).push((LogTone::Error, msg)),
                None => r is Some && final(self).running && final(self).outcome is None
                    && logs_view(final(self).logs@) == seq![(LogTone::Info, "转换任务已启动。"@)],
            },
            final(self).input == old(self).input && final(self).output == old(self).output,
            final(self).format == old(self).format && final(self).style == old(self).style,
    {
        match self.build_request(input_exists, template_is_file) {
            Err(e) => {
                push_log(&mut self.logs, LogEntry::error(e));
                None
            },
            Ok(r) => {
                let mut logs: Vec<LogEntry> = Vec::new();
                push_log(&mut logs, LogEntry::info("转换任务已启动。".to_owned()));
                proof {
                    assert(logs_view(logs@) =~= seq![(LogTone::Info, "转换任务已启动。"@)]);
                }
                self.logs = logs;
                self.outcome = None;
                self.running = true;
                Some(r)
            },
        }
    }

    /// Takes what the worker reports: progress goes to the log; the end of
    /// the task stops the form and logs the files made, or the failure.
    pub fn receive(&mut self, message: WorkerMessage)
        ensures
            match message {
                WorkerMessage::Progress(e) => final(self).running == old(self).running
                    && logs_view(final(self).logs@) == logs_view(old(self).logs@).push(log_view(LogEntry {
                        message: e.message,
                        tone: if e.level == ProgressLevel::Warning { LogTone::Warning } else { LogTone::Info },
                    })),
                WorkerMessage::Finished(Ok(outcome)) => !final(self).running && final(self).outcome == Some(outcome)
                    && logs_view(final(self).logs@) == logs_view(old(self).logs@).push((LogTone::Success, "已生成："@ + outcome.output@))
                        + match outcome.pdf {
                            Some(pdf) => seq![(LogTone::Success, "已生成 PDF："@ + pdf@)],
                            None => Seq::empty(),
                        },
                WorkerMessage::Finished(Err(e)) => !final(self).running
                    && logs_view(final(self).logs@) == logs_view(old(self).logs@).push((LogTone::Error, "转换失败："@ + e@)),
            },
            final(self).input == old(self).input && final(self).output == old(self).output,
    {
        let ghost l0 = logs_view(self.logs@);
        match message {
            WorkerMessage::Progress(event) => {
                push_log(&mut self.logs, LogEntry::from_event(event));
            },
            WorkerMessage::Finished(Ok(outcome)) => {
                self.running = false;
                push_log(&mut self.logs, LogEntry::success(joined("已生成：", outcome.output.as_str())));
                match &outcome.pdf {
                    Some(pdf) => {
                        push_log(&mut self.logs, LogEntry::success(joined("已生成 PDF：", pdf.as_str())));
                    },
                    None => {},
                }
                proof {
                    let first = l0.push((LogTone::Success, "已生成："@ + outcome.output@));
                    if outcome.pdf is Some {
                        assert(logs_view(self.logs@) =~= first + seq![(LogTone::Success, "已生成 PDF："@ + outcome.pdf->Some_0@)]);
                    } else {
                        assert(logs_view(self.logs@) =~= first + Seq::<(LogTone, Seq<char>)>::empty());
                    }
                }
                self.outcome = Some(outcome);
            },
            WorkerMessage::Finished(Err(error)) => {
                self.running = false;
                push_log(&mut self.logs, LogEntry::error(joined("转换失败：", error.as_str())));
            },
        }
    }

    /// A dropped path is taken as the input when it is a directory or a
    /// Markdown file (`.md` or `.markdown`); anything else is logged as an
    /// error.
    pub fn accept_dropped_file(&mut self, path: &str, is_dir: bool, kind: InputKind, canonical: Option<&str>)
        ensures
            ({
                let markdown = match path_extension(path@) {
                    Some(e) => eq_ignore_ascii_case(e, "md"@) || eq_ignore_ascii_case(e, "markdown"@),
                    None => false,
                };
                if is_dir || markdown {
                    final(self).input@ == path@
                        && final(self).output@ == suggested_spec(path@, kind, opt_str(canonical), old(self).format)
                        && final(self).outcome is None
                        && logs_view(final(self).logs@) == logs_view(old(self).logs@).push((LogTone::Info, "已接受拖入的输入路径。"@))
                } else {
                    final(self).input == old(self).input && final(self).output == old(self).output
                        && logs_view(final(self).logs@) == logs_view(old(self).logs@).push((LogTone::Error, "拖入项必须是 Markdown 文件或目录。"@))
                }
            }),
    {
        let markdown = match extension_of(path) {
            Some(e) => eq_ignore_case(e.as_str(), "md") || eq_ignore_case(e.as_str(), "markdown"),
            None => false,
        };
        if is_dir || markdown {
            self.set_input(path, kind, canonical);
            push_log(&mut self.logs, LogEntry::info("已接受拖入的输入路径。".to_owned()));
        } else {
            push_log(&mut self.logs, LogEntry::error("拖入项必须是 Markdown 文件或目录。".to_owned()));
        }
    }
}

} // verus!
