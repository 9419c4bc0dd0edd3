//! Research-report LaTeX emitter.
//!
//! Headings: level 1 and 2 become `\chapter`, 3 `\section`, 4 `\subsection`,
//! 5 `\subsubsection`. List prefixes by level: `1.` → `(1)` → `a.` → `I.` →
//! `(A)` → `1)`. Tables become `longtblr` environments. Section markers
//! switch between abstract, appendix, revision history, references and body.
//! Every chapter goes to a part of its own (`data/chapterNN.tex`, or
//! `appendix/appendixNN.tex` in the appendix) that the main text includes
//! with `\input`; front and back matter stay in the main text.
use vstd::prelude::*;
use crate::common::ast::{
    Block, Inline, MarkerKind, SBlock, SInline, block_view, blocks_view, inline_view, inlines_view,
    lemma_inlines_view_len, lemma_inlines_view_push, strings_view, table_view,
};
use crate::common::crossref::{meaningful, meaningful_indices};
use crate::common::escape::{Escaper, escape_latex_spec, escape_url_spec, push_escaped};
use crate::common::numbering::{push_roman, roman, small_letter};
use crate::common::table_layout::table_chars;
use crate::common::table_to_longtblr::{emit_longtblr, longtblr_spec};
use crate::text::{
    chars_eq, chars_of, decimal, has_at, is_blank, join_with, push_char, push_decimal, push_joined,
    push_str, string_views, trim_chars,
};

pub use crate::common::escape::escape_latex;

verus! {

/// Section mode: how headings and content of special sections are treated.
#[derive(Debug, Clone, Copy, PartialEq, Eq, Structural)]
pub enum SectionMode {
    Normal,
    Abstract,
    Appendix,
    Changelog,
    Reference,
}

/// Abstract state of the emitter.
pub struct RState {
    /// Buffer being written (main text or the current part).
    pub out: Seq<char>,
    /// Finished main text, with the `\input` lines.
    pub main: Seq<char>,
    /// Finished parts: (relative path, content).
    pub parts: Seq<(Seq<char>, Seq<char>)>,
    /// Path of the part being written; `None` while writing the main text.
    pub current_part: Option<Seq<char>>,
    pub data_idx: nat,
    pub appendix_file_idx: nat,
    /// Anchor waiting for the next heading or table.
    pub pending_label: Option<Seq<char>>,
    pub abstract_content: Seq<Seq<char>>,
    pub in_abstract: bool,
    pub mode: SectionMode,
    pub chapter_num: nat,
    pub section_num: nat,
    pub subsection_num: nat,
    pub appendix_idx: nat,
    pub has_emitted_appendix: bool,
    pub appendix_saw_h1: bool,
    pub abstract_skipped_heading: bool,
    pub changelog_heading_done: bool,
    pub reference_heading_done: bool,
    pub l1: nat,
    pub l2: nat,
    pub l3: nat,
    pub l4: nat,
    pub l5: nat,
    pub l6: nat,
    pub in_list: bool,
    pub list_level: u8,
}

pub open spec fn initial_rstate() -> RState {
    RState {
        out: Seq::empty(),
        main: Seq::empty(),
        parts: Seq::empty(),
        current_part: None,
        data_idx: 0,
        appendix_file_idx: 0,
        pending_label: None,
        abstract_content: Seq::empty(),
        in_abstract: false,
        mode: SectionMode::Normal,
        chapter_num: 0,
        section_num: 0,
        subsection_num: 0,
        appendix_idx: 0,
        has_emitted_appendix: false,
        appendix_saw_h1: false,
        abstract_skipped_heading: false,
        changelog_heading_done: false,
        reference_heading_done: false,
        l1: 0,
        l2: 0,
        l3: 0,
        l4: 0,
        l5: 0,
        l6: 0,
        in_list: false,
        list_level: 0,
    }
}

/// Every counter is at most `m`.
pub open spec fn bounded(s: RState, m: nat) -> bool {
    &&& s.data_idx <= m
    &&& s.appendix_file_idx <= m
    &&& s.chapter_num <= m
    &&& s.section_num <= m
    &&& s.subsection_num <= m
    &&& s.appendix_idx <= m
    &&& s.l1 <= m
    &&& s.l2 <= m
    &&& s.l3 <= m
    &&& s.l4 <= m
    &&& s.l5 <= m
    &&& s.l6 <= m
}

// ---------------------------------------------------------------------------
// Text helpers
// ---------------------------------------------------------------------------

/// At least two digits, zero-padded (`{:02}`).
pub open spec fn pad2(n: nat) -> Seq<char> {
    if n < 10 { "0"@ + decimal(n) } else { decimal(n) }
}

pub open spec fn data_path(n: nat) -> Seq<char> {
    "data/chapter"@ + pad2(n) + ".tex"@
}

pub open spec fn appendix_path(n: nat) -> Seq<char> {
    "appendix/appendix"@ + pad2(n) + ".tex"@
}

/// LaTeX of one inline in running text.
pub open spec fn render_inline(i: SInline) -> Seq<char>
    decreases i, 0nat,
{
    match i {
        SInline::Text(t) => escape_latex_spec(t),
        SInline::Bold(c) => "\\textbf{"@ + render_seq(c) + "}"@,
        SInline::Italic(c) => "\\textit{"@ + render_seq(c) + "}"@,
        SInline::Code(t) => "\\texttt{"@ + escape_latex_spec(t) + "}"@,
        SInline::Link { text, url } => "\\href{"@ + escape_url_spec(url) + "}{"@ + escape_latex_spec(text) + "}"@,
        SInline::Image { alt, url, label } => "\\includegraphics[width=\\textwidth]{"@ + escape_url_spec(url) + "}"@,
        SInline::CrossRef(id) => "\\ref{"@ + id + "}"@,
        SInline::Citation(keys) => "\\cite{"@ + join_with(keys, ","@) + "}"@,
        SInline::Footnote(t) => "\\footnote{"@ + escape_latex_spec(t) + "}"@,
    }
}

/// LaTeX of an inline sequence in running text.
pub open spec fn render_seq(s: Seq<SInline>) -> Seq<char>
    decreases s, s.len(),
{
    if s.len() == 0 {
        Seq::empty()
    } else {
        render_seq(s.drop_last()) + render_inline(s.last())
    }
}

#[verifier::rlimit(40)]
fn push_render(out: &mut String, inlines: &[Inline])
    ensures
        final(out)@ == old(out)@ + render_seq(inlines_view(inlines@)),
    decreases inlines@,
{
    let mut i: usize = 0;
    while i < inlines.len()
        invariant
            i <= inlines@.len(),
            out@ == old(out)@ + render_seq(inlines_view(inlines@.take(i as int))),
        decreases inlines@.len() - i,
    {
        let ghost before = out@;
        match &inlines[i] {
            Inline::Text(t) => push_escaped(out, Escaper::Latex, t.as_str()),
            Inline::Bold(c) => {
                assert(decreases_to!(inlines@ => c@));
                push_str(out, "\\textbf{");
                push_render(out, c.as_slice());
                push_str(out, "}");
            },
            Inline::Italic(c) => {
                assert(decreases_to!(inlines@ => c@));
                push_str(out, "\\textit{");
                push_render(out, c.as_slice());
                push_str(out, "}");
            },
            Inline::Code(t) => {
                push_str(out, "\\texttt{");
                push_escaped(out, Escaper::Latex, t.as_str());
                push_str(out, "}");
            },
            Inline::Link { text, url } => {
                push_str(out, "\\href{");
                push_escaped(out, Escaper::Url, url.as_str());
                push_str(out, "}{");
                push_escaped(out, Escaper::Latex, text.as_str());
                push_str(out, "}");
            },
            Inline::Image { url, .. } => {
                push_str(out, "\\includegraphics[width=\\textwidth]{");
                push_escaped(out, Escaper::Url, url.as_str());
                push_str(out, "}");
            },
            Inline::CrossRef(id) => {
                push_str(out, "\\ref{");
                push_str(out, id.as_str());
                push_str(out, "}");
            },
            Inline::Citation(keys) => {
                push_str(out, "\\cite{");
                push_joined(out, keys.as_slice(), ",");
                push_str(out, "}");
                assert(string_views(keys@) =~= strings_view(keys@));
            },
            Inline::Footnote(t) => {
                push_str(out, "\\footnote{");
                push_escaped(out, Escaper::Latex, t.as_str());
                push_str(out, "}");
            },
        }
        proof {
            let p = inlines@.take(i + 1);
            assert(p =~= inlines@.take(i as int).push(inlines@[i as int]));
            lemma_inlines_view_push(inlines@.take(i as int), inlines@[i as int]);
            assert(inlines_view(inlines@.take(i as int)).push(inline_view(inlines@[i as int])).drop_last()
                =~= inlines_view(inlines@.take(i as int)));
            assert(render_seq(inlines_view(p)) =~= render_seq(inlines_view(inlines@.take(i as int)))
                + render_inline(inline_view(inlines@[i as int])));
        }
        i += 1;
        assert(out@ =~= old(out)@ + render_seq(inlines_view(inlines@.take(i as int))));
    }
    assert(inlines@.take(inlines@.len() as int) =~= inlines@);
}

/// Renders inlines as LaTeX running text.
pub fn render_inlines(inlines: &[Inline]) -> (s: String)
    ensures
        s@ == render_seq(inlines_view(inlines@)),
{
    let mut s = String::new();
    push_render(&mut s, inlines);
    assert(s@ =~= render_seq(inlines_view(inlines@)));
    s
}

/// ASCII letters in lower case, other characters unchanged.
pub open spec fn ascii_lower(t: Seq<char>) -> Seq<char> {
    t.map_values(|c: char| if 'A' <= c <= 'Z' { ((c as u32) + 32) as char } else { c })
}

/// The `listings` language for a fence's language tag, if it knows one.
pub open spec fn listings_language(lang: Seq<char>) -> Option<Seq<char>> {
    let l = ascii_lower(lang);
    if l == "rust"@ || l == "rs"@ {
        Some("Rust"@)
    } else if l == "python"@ || l == "py"@ {
        Some("Python"@)
    } else if l == "cpp"@ || l == "c++"@ || l == "cc"@ || l == "cxx"@ {
        Some("C++"@)
    } else if l == "c"@ {
        Some("C"@)
    } else if l == "java"@ {
        Some("Java"@)
    } else if l == "javascript"@ || l == "js"@ || l == "typescript"@ || l == "ts"@ {
        Some("JavaScript"@)
    } else if l == "bash"@ || l == "sh"@ || l == "shell"@ {
        Some("bash"@)
    } else if l == "html"@ {
        Some("HTML"@)
    } else if l == "xml"@ {
        Some("XML"@)
    } else if l == "sql"@ {
        Some("SQL"@)
    } else {
        None
    }
}

fn ascii_lower_exec(t: &str) -> (r: Vec<char>)
    ensures
        r@ == ascii_lower(t@),
{
    let v = chars_of(t);
    let mut r: Vec<char> = Vec::new();
    let mut i: usize = 0;
    while i < v.len()
        invariant
            i <= v@.len(),
            v@ == t@,
            r@ == ascii_lower(v@.take(i as int)),
        decreases v@.len() - i,
    {
        let c = v[i];
        if 'A' <= c && c <= 'Z' {
            r.push((((c as u32) + 32) as u8) as char);
        } else {
            r.push(c);
        }
        i += 1;
        assert(r@ =~= ascii_lower(v@.take(i as int)));
    }
    assert(v@.take(v@.len() as int) =~= v@);
    r
}

fn is_lit(t: &Vec<char>, lit: &str) -> (r: bool)
    ensures
        r == (t@ == lit@),
{
    chars_eq(t, &chars_of(lit))
}

fn listings_language_exec(lang: &str) -> (r: Option<&'static str>)
    ensures
        match r {
            Some(x) => listings_language(lang@) == Some(x@),
            None => listings_language(lang@) is None,
        },
{
    let l = ascii_lower_exec(lang);
    if is_lit(&l, "rust") || is_lit(&l, "rs") {
        Some("Rust")
    } else if is_lit(&l, "python") || is_lit(&l, "py") {
        Some("Python")
    } else if is_lit(&l, "cpp") || is_lit(&l, "c++") || is_lit(&l, "cc") || is_lit(&l, "cxx") {
        Some("C++")
    } else if is_lit(&l, "c") {
        Some("C")
    } else if is_lit(&l, "java") {
        Some("Java")
    } else if is_lit(&l, "javascript") || is_lit(&l, "js") || is_lit(&l, "typescript") || is_lit(&l, "ts") {
        Some("JavaScript")
    } else if is_lit(&l, "bash") || is_lit(&l, "sh") || is_lit(&l, "shell") {
        Some("bash")
    } else if is_lit(&l, "html") {
        Some("HTML")
    } else if is_lit(&l, "xml") {
        Some("XML")
    } else if is_lit(&l, "sql") {
        Some("SQL")
    } else {
        None
    }
}

/// The image of a paragraph that holds nothing else (blank text aside).
pub open spec fn sole_image(inl: Seq<SInline>) -> Option<(Seq<char>, Seq<char>, Option<Seq<char>>)> {
    let m = meaningful(inl);
    if m.len() == 1 {
        match m[0] {
            SInline::Image { alt, url, label } => Some((alt, url, label)),
            _ => None,
        }
    } else {
        None
    }
}

// ---------------------------------------------------------------------------
// The state machine
// ---------------------------------------------------------------------------

/// The current buffer goes to the current part, or to the main text.
pub open spec fn finalize(s: RState) -> RState {
    match s.current_part {
        Some(p) => RState { out: Seq::empty(), parts: s.parts.push((p, s.out)), current_part: None, ..s },
        None => RState { out: Seq::empty(), main: s.main + s.out, ..s },
    }
}

pub open spec fn start_main(s: RState) -> RState {
    if s.current_part is Some { finalize(s) } else { s }
}

/// A new part begins; the main text includes it where it stands.
pub open spec fn start_part(s: RState, path: Seq<char>) -> RState {
    let f = finalize(s);
    RState { main: f.main + "\\input{"@ + path + "}\n\n"@, current_part: Some(path), ..f }
}

pub open spec fn start_data_part(s: RState) -> RState {
    let n = s.data_idx + 1;
    start_part(RState { data_idx: n, ..s }, data_path(n))
}

pub open spec fn start_appendix_part(s: RState) -> RState {
    let n = s.appendix_file_idx + 1;
    start_part(RState { appendix_file_idx: n, ..s }, appendix_path(n))
}

pub open spec fn reset_list(s: RState) -> RState {
    RState { in_list: false, list_level: 0, l1: 0, l2: 0, l3: 0, l4: 0, l5: 0, l6: 0, ..s }
}

pub open spec fn reset_counters(s: RState) -> RState {
    RState { chapter_num: 0, section_num: 0, subsection_num: 0, ..s }
}

/// Each collected piece of the abstract followed by `\par` and a blank line.
pub open spec fn abstract_items(items: Seq<Seq<char>>) -> Seq<char>
    decreases items.len(),
{
    if items.len() == 0 {
        Seq::empty()
    } else {
        abstract_items(items.drop_last()) + items.last() + "\\par\n\n"@
    }
}

/// Ends the abstract: what was collected goes out in an `abstract`
/// environment, and the body mode resumes.
pub open spec fn finish_abstract_spec(s: RState) -> RState {
    let out = if s.abstract_content.len() > 0 {
        s.out + "\\begin{abstract}\n"@ + abstract_items(s.abstract_content) + "\\end{abstract}\n\n"@
    } else {
        s.out
    };
    RState { out, abstract_content: Seq::empty(), in_abstract: false, mode: SectionMode::Normal, ..s }
}

pub open spec fn leave_abstract(s: RState) -> RState {
    if s.in_abstract { finish_abstract_spec(s) } else { s }
}

pub open spec fn handle_marker_spec(s0: RState, k: MarkerKind) -> RState {
    let s = start_main(s0);
    match k {
        MarkerKind::Abstract => RState {
            mode: SectionMode::Abstract,
            in_abstract: true,
            abstract_skipped_heading: false,
            ..s
        },
        MarkerKind::Appendix => {
            let a = leave_abstract(s);
            let b = if !a.has_emitted_appendix {
                RState { out: a.out + "\\appendix\n\n"@, has_emitted_appendix: true, ..a }
            } else {
                a
            };
            RState { mode: SectionMode::Appendix, appendix_idx: 0, appendix_saw_h1: false, ..b }
        },
        MarkerKind::Changelog => {
            let a = leave_abstract(s);
            reset_counters(RState { mode: SectionMode::Changelog, changelog_heading_done: false, ..a })
        },
        MarkerKind::Reference => {
            let a = leave_abstract(s);
            reset_counters(RState {
                mode: SectionMode::Reference,
                out: a.out + "\\chapter*{参考文献}\n\\addcontentsline{toc}{chapter}{参考文献}\n\n"@,
                reference_heading_done: true,
                ..a
            })
        },
        MarkerKind::Body => {
            let a = leave_abstract(s);
            reset_counters(RState { mode: SectionMode::Normal, ..a })
        },
    }
}

/// A sectioning command with its title and the pending label.
pub open spec fn sectioning(cmd: Seq<char>, title: Seq<char>, label_cmd: Seq<char>) -> Seq<char> {
    "\\"@ + cmd + "{"@ + title + "}"@ + label_cmd + "\\par\n\n"@
}

pub open spec fn starred(cmd: Seq<char>, title: Seq<char>) -> Seq<char> {
    "\\"@ + cmd + "*{"@ + title + "}\n\n"@
}

pub open spec fn label_cmd(l: Option<Seq<char>>) -> Seq<char> {
    match l {
        Some(x) => "\\label{"@ + x + "}"@,
        None => Seq::empty(),
    }
}

/// Headings of the appendix: `\appendix` numbers chapters A, B, ...; once
/// an appendix chapter was opened by a level-1 heading, level 2 and below
/// move one level down.
pub open spec fn appendix_heading(s: RState, level: u8, t: Seq<char>, lc: Seq<char>) -> RState {
    let saw = s.appendix_saw_h1 || level == 1;
    let s1 = RState { appendix_saw_h1: saw, ..s };
    if level == 1 || (level == 2 && !saw) {
        let s2 = start_appendix_part(RState { appendix_idx: s1.appendix_idx + 1, ..s1 });
        RState { out: s2.out + sectioning("chapter"@, t, lc), ..s2 }
    } else if (level == 2 && saw) || (level == 3 && !saw) {
        RState { out: s1.out + sectioning("section"@, t, lc), ..s1 }
    } else if (level == 3 && saw) || (level == 4 && !saw) {
        RState { out: s1.out + sectioning("subsection"@, t, lc), ..s1 }
    } else {
        RState { out: s1.out + sectioning("subsubsection"@, t, lc), ..s1 }
    }
}

/// Headings of the body: level 1 and 2 open a chapter (and a part of
/// its own), 3 a section, 4 a subsection, 5 a subsubsection; deeper
/// headings are dropped.
pub open spec fn body_heading(s: RState, level: u8, t: Seq<char>, lc: Seq<char>) -> RState {
    if level == 1 || level == 2 {
        let s1 = start_data_part(RState { chapter_num: s.chapter_num + 1, section_num: 0, subsection_num: 0, ..s });
        RState { out: s1.out + sectioning("chapter"@, t, lc), ..s1 }
    } else if level == 3 {
        RState { out: s.out + sectioning("section"@, t, lc), section_num: s.section_num + 1, subsection_num: 0, ..s }
    } else if level == 4 {
        RState { out: s.out + sectioning("subsection"@, t, lc), subsection_num: s.subsection_num + 1, ..s }
    } else if level == 5 {
        RState { out: s.out + sectioning("subsubsection"@, t, lc), ..s }
    } else {
        s
    }
}

pub open spec fn emit_heading_spec(s0: RState, level: u8, text: Seq<char>) -> RState {
    let t = escape_latex_spec(text);
    let lc = label_cmd(s0.pending_label);
    let s = RState { pending_label: None, ..s0 };
    if s.in_abstract {
        if !s.abstract_skipped_heading {
            RState { abstract_skipped_heading: true, ..s }
        } else {
            RState { abstract_content: s.abstract_content.push("\\textbf{"@ + t + "}"@), ..s }
        }
    } else if s.mode == SectionMode::Changelog {
        if !s.changelog_heading_done {
            RState { out: s.out + starred("chapter"@, t), changelog_heading_done: true, ..s }
        } else {
            RState { out: s.out + starred("section"@, t), ..s }
        }
    } else if s.mode == SectionMode::Reference {
        if !s.reference_heading_done {
            RState { out: s.out + starred("chapter"@, t), reference_heading_done: true, ..s }
        } else {
            RState { out: s.out + starred("section"@, t), ..s }
        }
    } else if s.mode == SectionMode::Appendix {
        appendix_heading(s, level, t, lc)
    } else {
        body_heading(s, level, t, lc)
    }
}

/// Collected in the abstract, or written to the buffer followed by `tail`.
pub open spec fn put(s: RState, piece: Seq<char>, tail: Seq<char>) -> RState {
    if s.in_abstract {
        RState { abstract_content: s.abstract_content.push(piece), ..s }
    } else {
        RState { out: s.out + piece + tail, ..s }
    }
}

pub open spec fn figure_tex(alt: Seq<char>, url: Seq<char>, label: Option<Seq<char>>) -> Seq<char> {
    "\\begin{figure}[htbp]\n\\centering\n"@ + "\\includegraphics[width=\\textwidth]{"@ + escape_url_spec(url) + "}\n"@
        + (if alt.len() > 0 {
        "\\caption{"@ + escape_latex_spec(alt) + "}\n"@ + match label {
            Some(l) => "\\label{"@ + l + "}\n"@,
            None => Seq::empty(),
        }
    } else {
        Seq::empty()
    }) + "\\end{figure}"@
}

/// A paragraph: a lone image becomes a figure, blank text is dropped.
pub open spec fn emit_paragraph_spec(s: RState, inl: Seq<SInline>) -> RState {
    match sole_image(inl) {
        Some((alt, url, label)) => put(s, figure_tex(alt, url, label), "\n\n"@),
        None => {
            let body = render_seq(inl);
            if is_blank(body) { s } else { put(s, body, "\\par\n\n"@) }
        },
    }
}

pub open spec fn emit_table_spec(s: RState, rows: Seq<Seq<Seq<char>>>, caption: Option<Seq<char>>) -> RState {
    if rows.len() == 0 {
        s
    } else {
        let t = longtblr_spec(rows, caption, s.pending_label);
        put(RState { pending_label: None, ..s }, t, "\n\n"@)
    }
}

pub open spec fn emit_code_spec(s: RState, lang: Option<Seq<char>>, content: Seq<char>) -> RState {
    if s.in_abstract {
        s
    } else {
        let l = match lang { Some(x) => x, None => Seq::empty() };
        let opt = match listings_language(l) {
            Some(name) => "[language="@ + name + "]"@,
            None => Seq::empty(),
        };
        RState { out: s.out + "\\begin{lstlisting}"@ + opt + "\n"@ + content + "\n\\end{lstlisting}\n\n"@, ..s }
    }
}

pub open spec fn prefix_l1(s: RState) -> (Seq<char>, RState) {
    let a = if !s.in_list || s.list_level > 1 { RState { l2: 0, l3: 0, l4: 0, l5: 0, l6: 0, ..s } } else { s };
    let b = if !s.in_list { RState { l1: 0, ..a } } else { a };
    let c = RState { l1: b.l1 + 1, ..b };
    (if s.mode == SectionMode::Reference { "["@ + decimal(c.l1) + "] "@ } else { decimal(c.l1) + ". "@ }, c)
}

pub open spec fn prefix_l2(s: RState) -> (Seq<char>, RState) {
    let a = if !s.in_list || s.list_level != 2 {
        let x = if s.list_level > 2 { RState { l3: 0, l4: 0, l5: 0, l6: 0, ..s } } else { s };
        if !s.in_list || s.list_level < 2 { RState { l2: 0, l3: 0, l4: 0, l5: 0, l6: 0, ..x } } else { x }
    } else {
        s
    };
    let c = RState { l2: a.l2 + 1, ..a };
    ("("@ + decimal(c.l2) + ") "@, c)
}

pub open spec fn prefix_l3(s: RState) -> (Seq<char>, RState) {
    let a = if !s.in_list || s.list_level < 3 { RState { l3: 0, l4: 0, l5: 0, l6: 0, ..s } } else { s };
    let c = RState { l3: a.l3 + 1, ..a };
    (seq![small_letter(((c.l3 - 1) % 26) as nat)] + ". "@, c)
}

pub open spec fn prefix_l4(s: RState) -> (Seq<char>, RState) {
    let a = if !s.in_list || s.list_level < 4 { RState { l4: 0, l5: 0, l6: 0, ..s } } else { s };
    let c = RState { l4: a.l4 + 1, ..a };
    (roman(c.l4) + ". "@, c)
}

pub open spec fn prefix_l5(s: RState) -> (Seq<char>, RState) {
    let a = if !s.in_list || s.list_level < 5 { RState { l5: 0, l6: 0, ..s } } else { s };
    let c = RState { l5: a.l5 + 1, ..a };
    ("("@ + seq![(((65 + (c.l5 - 1) % 26) as u32) as char)] + ") "@, c)
}

pub open spec fn prefix_l6(s: RState) -> (Seq<char>, RState) {
    let a = if !s.in_list || s.list_level < 6 { RState { l6: 0, ..s } } else { s };
    let c = RState { l6: a.l6 + 1, ..a };
    (decimal(c.l6) + ") "@, c)
}

/// The prefix of a list item of `level` and the counters after it.
pub open spec fn list_prefix_spec(s: RState, level: u8) -> (Seq<char>, RState) {
    if level == 1 {
        prefix_l1(s)
    } else if level == 2 {
        prefix_l2(s)
    } else if level == 3 {
        prefix_l3(s)
    } else if level == 4 {
        prefix_l4(s)
    } else if level == 5 {
        prefix_l5(s)
    } else if level == 6 {
        prefix_l6(s)
    } else {
        (Seq::empty(), s)
    }
}

pub open spec fn emit_list_item_spec(s: RState, level: u8, content: Seq<SInline>) -> RState {
    let (prefix, s1) = list_prefix_spec(s, level);
    let body = render_seq(content);
    if s1.in_abstract {
        RState { abstract_content: s1.abstract_content.push(prefix + body), ..s1 }
    } else {
        RState { out: s1.out + prefix + body + "\\par\n\n"@, in_list: true, list_level: level, ..s1 }
    }
}

/// One block through the emitter.
pub open spec fn emit_block_spec(s: RState, b: SBlock) -> RState {
    match b {
        SBlock::Heading { level, text } => emit_heading_spec(reset_list(s), level, text),
        SBlock::Paragraph(inl) => emit_paragraph_spec(reset_list(s), inl),
        SBlock::List { ordered, level, content } => emit_list_item_spec(s, level, content),
        SBlock::Table { rows, caption } => emit_table_spec(reset_list(s), rows, caption),
        SBlock::Marker(k) => handle_marker_spec(s, k),
        SBlock::Label(id) => RState { pending_label: Some(id), ..s },
        SBlock::CodeBlock { lang, content } => emit_code_spec(s, lang, content),
        SBlock::Empty => s,
    }
}

pub open spec fn emit_blocks_spec(s: RState, bs: Seq<SBlock>) -> RState
    decreases bs.len(),
{
    if bs.len() == 0 {
        s
    } else {
        emit_block_spec(emit_blocks_spec(s, bs.drop_last()), bs.last())
    }
}

/// What `finish` returns: the main text and the parts.
pub open spec fn finish_spec(s: RState) -> (Seq<char>, Seq<(Seq<char>, Seq<char>)>) {
    let f = finalize(s);
    (f.main, f.parts)
}

/// A block whose table, if it is one, fits in memory with room to spare.
pub open spec fn block_fits(b: Block) -> bool {
    match b {
        Block::Table { rows, .. } => table_chars(table_view(rows@)) <= usize::MAX,
        _ => true,
    }
}

// ---------------------------------------------------------------------------
// The emitter
// ---------------------------------------------------------------------------

/// Research-report LaTeX emitter; see the module documentation.
pub struct TexResearchEmitter {
    out: String,
    main: String,
    parts: Vec<(String, String)>,
    current_part: Option<String>,
    data_idx: usize,
    appendix_file_idx: usize,
    pending_label: Option<String>,
    abstract_content: Vec<String>,
    in_abstract: bool,
    mode: SectionMode,
    chapter_num: usize,
    section_num: usize,
    subsection_num: usize,
    appendix_idx: usize,
    has_emitted_appendix: bool,
    appendix_saw_h1: bool,
    abstract_skipped_heading: bool,
    changelog_heading_done: bool,
    reference_heading_done: bool,
    l1: usize,
    l2: usize,
    l3: usize,
    l4: usize,
    l5: usize,
    l6: usize,
    in_list: bool,
    list_level: u8,
}

pub open spec fn pair_views(v: Seq<(String, String)>) -> Seq<(Seq<char>, Seq<char>)> {
    v.map_values(|p: (String, String)| (p.0@, p.1@))
}

pub open spec fn opt_str(o: Option<String>) -> Option<Seq<char>> {
    match o {
        Some(x) => Some(x@),
        None => None,
    }
}

impl View for TexResearchEmitter {
    type V = RState;

    closed spec fn view(&self) -> RState {
        RState {
            out: self.out@,
            main: self.main@,
            parts: pair_views(self.parts@),
            current_part: opt_str(self.current_part),
            data_idx: self.data_idx as nat,
            appendix_file_idx: self.appendix_file_idx as nat,
            pending_label: opt_str(self.pending_label),
            abstract_content: string_views(self.abstract_content@),
            in_abstract: self.in_abstract,
            mode: self.mode,
            chapter_num: self.chapter_num as nat,
            section_num: self.section_num as nat,
            subsection_num: self.subsection_num as nat,
            appendix_idx: self.appendix_idx as nat,
            has_emitted_appendix: self.has_emitted_appendix,
            appendix_saw_h1: self.appendix_saw_h1,
            abstract_skipped_heading: self.abstract_skipped_heading,
            changelog_heading_done: self.changelog_heading_done,
            reference_heading_done: self.reference_heading_done,
            l1: self.l1 as nat,
            l2: self.l2 as nat,
            l3: self.l3 as nat,
            l4: self.l4 as nat,
            l5: self.l5 as nat,
            l6: self.l6 as nat,
            in_list: self.in_list,
            list_level: self.list_level,
        }
    }
}

fn push_pad2(s: &mut String, n: usize)
    ensures
        final(s)@ == old(s)@ + pad2(n as nat),
{
    let ghost s0 = s@;
    if n < 10 {
        push_str(s, "0");
    }
    push_decimal(s, n);
    assert(s@ =~= s0 + pad2(n as nat));
}

impl TexResearchEmitter {
    /// A fresh emitter: body mode, nothing written yet.
    pub fn new() -> (e: Self)
        ensures
            e@ == initial_rstate(),
    {
        let e = TexResearchEmitter {
            out: String::new(),
            main: String::new(),
            parts: Vec::new(),
            current_part: None,
            data_idx: 0,
            appendix_file_idx: 0,
            pending_label: None,
            abstract_content: Vec::new(),
            in_abstract: false,
            mode: SectionMode::Normal,
            chapter_num: 0,
            section_num: 0,
            subsection_num: 0,
            appendix_idx: 0,
            has_emitted_appendix: false,
            appendix_saw_h1: false,
            abstract_skipped_heading: false,
            changelog_heading_done: false,
            reference_heading_done: false,
            l1: 0,
            l2: 0,
            l3: 0,
            l4: 0,
            l5: 0,
            l6: 0,
            in_list: false,
            list_level: 0,
        };
        assert(e@.parts =~= Seq::<(Seq<char>, Seq<char>)>::empty());
        assert(e@.abstract_content =~= Seq::<Seq<char>>::empty());
        e
    }

    /// Closes the current buffer and returns the main text and the parts.
    pub fn finish(self) -> (r: (String, Vec<(String, String)>))
        ensures
            (r.0@, pair_views(r.1@)) == finish_spec(self@),
    {
        let mut e = self;
        e.finalize_current();
        (e.main, e.parts)
    }

    fn finalize_current(&mut self)
        ensures
            final(self)@ == finalize(old(self)@),
    {
        let mut buf = String::new();
        std::mem::swap(&mut buf, &mut self.out);
        let cur = self.current_part.take();
        match cur {
            Some(path) => {
                let ghost before = pair_views(self.parts@);
                let ghost pv = path@;
                let ghost bv = buf@;
                self.parts.push((path, buf));
                assert(pair_views(self.parts@) =~= before.push((pv, bv)));
            },
            None => {
                push_str(&mut self.main, buf.as_str());
            },
        }
    }

    fn start_main(&mut self)
        ensures
            final(self)@ == start_main(old(self)@),
    {
        if self.current_part.is_some() {
            self.finalize_current();
        }
    }

    fn start_part(&mut self, path: String)
        ensures
            final(self)@ == start_part(old(self)@, path@),
    {
        self.finalize_current();
        let ghost m0 = self.main@;
        push_str(&mut self.main, "\\input{");
        push_str(&mut self.main, path.as_str());
        push_str(&mut self.main, "}\n\n");
        assert(self.main@ =~= m0 + "\\input{"@ + path@ + "}\n\n"@);
        self.current_part = Some(path);
    }

    fn start_data_part(&mut self)
        requires
            old(self).data_idx < usize::MAX,
        ensures
            final(self)@ == start_data_part(old(self)@),
    {
        self.data_idx = self.data_idx + 1;
        let mut p = String::new();
        push_str(&mut p, "data/chapter");
        push_pad2(&mut p, self.data_idx);
        push_str(&mut p, ".tex");
        assert(p@ =~= data_path(self.data_idx as nat));
        self.start_part(p);
    }

    fn start_appendix_part(&mut self)
        requires
            old(self).appendix_file_idx < usize::MAX,
        ensures
            final(self)@ == start_appendix_part(old(self)@),
    {
        self.appendix_file_idx = self.appendix_file_idx + 1;
        let mut p = String::new();
        push_str(&mut p, "appendix/appendix");
        push_pad2(&mut p, self.appendix_file_idx);
        push_str(&mut p, ".tex");
        assert(p@ =~= appendix_path(self.appendix_file_idx as nat));
        self.start_part(p);
    }

    fn reset_list(&mut self)
        ensures
            final(self)@ == reset_list(old(self)@),
    {
        self.in_list = false;
        self.list_level = 0;
        self.l1 = 0;
        self.l2 = 0;
        self.l3 = 0;
        self.l4 = 0;
        self.l5 = 0;
        self.l6 = 0;
    }

    fn reset_counters(&mut self)
        ensures
            final(self)@ == reset_counters(old(self)@),
    {
        self.chapter_num = 0;
        self.section_num = 0;
        self.subsection_num = 0;
    }

    /// Ends the abstract: the collected content goes out in an `abstract`
    /// environment and the body mode resumes.
    pub fn finish_abstract(&mut self)
        ensures
            final(self)@ == finish_abstract_spec(old(self)@),
    {
        let ghost s0 = self@;
        if self.abstract_content.len() > 0 {
            let mut items_v: Vec<String> = Vec::new();
            std::mem::swap(&mut items_v, &mut self.abstract_content);
            let mut out = String::new();
            std::mem::swap(&mut out, &mut self.out);
            push_str(&mut out, "\\begin{abstract}\n");
            let ghost o1 = out@;
            let mut i: usize = 0;
            let ghost items = string_views(items_v@);
            assert(items.take(0) =~= Seq::<Seq<char>>::empty());
            assert(o1 + abstract_items(items.take(0)) =~= o1);
            while i < items_v.len()
                invariant
                    i <= items_v@.len(),
                    items == string_views(items_v@),
                    out@ == o1 + abstract_items(items.take(i as int)),
                decreases items_v@.len() - i,
            {
                push_str(&mut out, items_v[i].as_str());
                push_str(&mut out, "\\par\n\n");
                assert(items.take(i + 1).drop_last() =~= items.take(i as int));
                i += 1;
                assert(out@ =~= o1 + abstract_items(items.take(i as int)));
            }
            assert(items.take(items.len() as int) =~= items);
            push_str(&mut out, "\\end{abstract}\n\n");
            assert(out@ =~= s0.out + "\\begin{abstract}\n"@ + abstract_items(s0.abstract_content) + "\\end{abstract}\n\n"@);
            self.out = out;
        }
        self.in_abstract = false;
        self.mode = SectionMode::Normal;
        assert(self@.abstract_content =~= Seq::<Seq<char>>::empty());
        assert(self@ == finish_abstract_spec(s0));
    }
}

impl TexResearchEmitter {
    fn handle_marker(&mut self, kind: MarkerKind)
        ensures
            final(self)@ == handle_marker_spec(old(self)@, kind),
    {
        self.start_main();
        match kind {
            MarkerKind::Abstract => {
                self.mode = SectionMode::Abstract;
                self.in_abstract = true;
                self.abstract_skipped_heading = false;
            },
            MarkerKind::Appendix => {
                if self.in_abstract {
                    self.finish_abstract();
                }
                if !self.has_emitted_appendix {
                    push_str(&mut self.out, "\\appendix\n\n");
                    self.has_emitted_appendix = true;
                }
                self.mode = SectionMode::Appendix;
                self.appendix_idx = 0;
                self.appendix_saw_h1 = false;
            },
            MarkerKind::Changelog => {
                if self.in_abstract {
                    self.finish_abstract();
                }
                self.mode = SectionMode::Changelog;
                self.changelog_heading_done = false;
                self.reset_counters();
            },
            MarkerKind::Reference => {
                if self.in_abstract {
                    self.finish_abstract();
                }
                self.mode = SectionMode::Reference;
                push_str(&mut self.out, "\\chapter*{参考文献}\n\\addcontentsline{toc}{chapter}{参考文献}\n\n");
                self.reference_heading_done = true;
                self.reset_counters();
            },
            MarkerKind::Body => {
                if self.in_abstract {
                    self.finish_abstract();
                }
                self.mode = SectionMode::Normal;
                self.reset_counters();
            },
        }
    }

    fn push_sectioning(&mut self, cmd: &str, title: &String, lc: &String)
        ensures
            final(self)@ == (RState { out: old(self)@.out + sectioning(cmd@, title@, lc@), ..old(self)@ }),
    {
        let ghost o = self.out@;
        push_str(&mut self.out, "\\");
        push_str(&mut self.out, cmd);
        push_str(&mut self.out, "{");
        push_str(&mut self.out, title.as_str());
        push_str(&mut self.out, "}");
        push_str(&mut self.out, lc.as_str());
        push_str(&mut self.out, "\\par\n\n");
        assert(self.out@ =~= o + sectioning(cmd@, title@, lc@));
    }

    fn push_starred(&mut self, cmd: &str, title: &String)
        ensures
            final(self)@ == (RState { out: old(self)@.out + starred(cmd@, title@), ..old(self)@ }),
    {
        let ghost o = self.out@;
        push_str(&mut self.out, "\\");
        push_str(&mut self.out, cmd);
        push_str(&mut self.out, "*{");
        push_str(&mut self.out, title.as_str());
        push_str(&mut self.out, "}\n\n");
        assert(self.out@ =~= o + starred(cmd@, title@));
    }

    fn appendix_heading(&mut self, level: u8, t: &String, lc: &String)
        requires
            bounded(old(self)@, (usize::MAX - 1) as nat),
        ensures
            final(self)@ == appendix_heading(old(self)@, level, t@, lc@),
    {
        if level == 1 {
            self.appendix_saw_h1 = true;
        }
        let saw = self.appendix_saw_h1;
        if level == 1 || (level == 2 && !saw) {
            self.appendix_idx = self.appendix_idx + 1;
            self.start_appendix_part();
            self.push_sectioning("chapter", t, lc);
        } else if (level == 2 && saw) || (level == 3 && !saw) {
            self.push_sectioning("section", t, lc);
        } else if (level == 3 && saw) || (level == 4 && !saw) {
            self.push_sectioning("subsection", t, lc);
        } else {
            self.push_sectioning("subsubsection", t, lc);
        }
    }

    fn body_heading(&mut self, level: u8, t: &String, lc: &String)
        requires
            bounded(old(self)@, (usize::MAX - 1) as nat),
        ensures
            final(self)@ == body_heading(old(self)@, level, t@, lc@),
    {
        if level == 1 || level == 2 {
            self.chapter_num = self.chapter_num + 1;
            self.section_num = 0;
            self.subsection_num = 0;
            self.start_data_part();
            self.push_sectioning("chapter", t, lc);
        } else if level == 3 {
            self.push_sectioning("section", t, lc);
            self.section_num = self.section_num + 1;
            self.subsection_num = 0;
        } else if level == 4 {
            self.push_sectioning("subsection", t, lc);
            self.subsection_num = self.subsection_num + 1;
        } else if level == 5 {
            self.push_sectioning("subsubsection", t, lc);
        }
    }

    fn emit_heading(&mut self, level: u8, text: &str)
        requires
            bounded(old(self)@, (usize::MAX - 1) as nat),
        ensures
            final(self)@ == emit_heading_spec(old(self)@, level, text@),
    {
        let escaped = escape_latex(text);
        let mut lc = String::new();
        match self.pending_label.take() {
            Some(l) => {
                push_str(&mut lc, "\\label{");
                push_str(&mut lc, l.as_str());
                push_str(&mut lc, "}");
            },
            None => {},
        }
        assert(lc@ =~= label_cmd(old(self)@.pending_label));
        if self.in_abstract {
            if !self.abstract_skipped_heading {
                self.abstract_skipped_heading = true;
            } else {
                let mut b = String::new();
                push_str(&mut b, "\\textbf{");
                push_str(&mut b, escaped.as_str());
                push_str(&mut b, "}");
                let ghost before = string_views(self.abstract_content@);
                self.abstract_content.push(b);
                assert(string_views(self.abstract_content@) =~= before.push("\\textbf{"@ + escaped@ + "}"@));
            }
            return;
        }
        if matches!(self.mode, SectionMode::Changelog) {
            if !self.changelog_heading_done {
                self.push_starred("chapter", &escaped);
                self.changelog_heading_done = true;
            } else {
                self.push_starred("section", &escaped);
            }
            return;
        }
        if matches!(self.mode, SectionMode::Reference) {
            if !self.reference_heading_done {
                self.push_starred("chapter", &escaped);
                self.reference_heading_done = true;
            } else {
                self.push_starred("section", &escaped);
            }
            return;
        }
        if matches!(self.mode, SectionMode::Appendix) {
            self.appendix_heading(level, &escaped, &lc);
            return;
        }
        self.body_heading(level, &escaped, &lc);
    }

    /// Collected in the abstract, or written followed by `tail`.
    fn put(&mut self, piece: String, tail: &str)
        ensures
            final(self)@ == put(old(self)@, piece@, tail@),
    {
        if self.in_abstract {
            let ghost before = string_views(self.abstract_content@);
            let ghost pv = piece@;
            self.abstract_content.push(piece);
            assert(string_views(self.abstract_content@) =~= before.push(pv));
        } else {
            let ghost o = self.out@;
            push_str(&mut self.out, piece.as_str());
            push_str(&mut self.out, tail);
            assert(self.out@ =~= o + piece@ + tail@);
        }
    }
}

pub fn figure_string(alt: &String, url: &String, label: &Option<String>) -> (f: String)
    ensures
        f@ == figure_tex(alt@, url@, opt_str(*label)),
{
    let mut f = String::new();
    push_str(&mut f, "\\begin{figure}[htbp]\n\\centering\n");
    push_str(&mut f, "\\includegraphics[width=\\textwidth]{");
    push_escaped(&mut f, Escaper::Url, url.as_str());
    push_str(&mut f, "}\n");
    let ghost f1 = f@;
    if chars_of(alt.as_str()).len() > 0 {
        push_str(&mut f, "\\caption{");
        push_escaped(&mut f, Escaper::Latex, alt.as_str());
        push_str(&mut f, "}\n");
        match label {
            Some(l) => {
                push_str(&mut f, "\\label{");
                push_str(&mut f, l.as_str());
                push_str(&mut f, "}\n");
            },
            None => {},
        }
    }
    push_str(&mut f, "\\end{figure}");
    assert(f@ =~= figure_tex(alt@, url@, opt_str(*label)));
    f
}

pub fn sole_image_index(inl: &[Inline]) -> (r: Option<usize>)
    ensures
        match r {
            Some(i) => i < inl@.len() && inl@[i as int] is Image && sole_image(inlines_view(inl@))
                == Some((inl@[i as int]->alt@, inl@[i as int]->Image_url@, opt_str(inl@[i as int]->label))),
            None => sole_image(inlines_view(inl@)) is None,
        },
{
    let idx = meaningful_indices(inl);
    if idx.len() == 1 {
        let i = idx[0];
        assert(meaningful(inlines_view(inl@))[0] == inline_view(inl@[i as int]));
        match &inl[i] {
            Inline::Image { .. } => {
                return Some(i);
            },
            _ => {},
        }
    }
    None
}

impl TexResearchEmitter {
    fn emit_paragraph(&mut self, inlines: &[Inline])
        ensures
            final(self)@ == emit_paragraph_spec(old(self)@, inlines_view(inlines@)),
    {
        match sole_image_index(inlines) {
            Some(i) => {
                match &inlines[i] {
                    Inline::Image { alt, url, label } => {
                        let f = figure_string(alt, url, label);
                        self.put(f, "\n\n");
                    },
                    _ => {},
                }
            },
            None => {
                let body = render_inlines(inlines);
                if crate::text::is_blank_exec(&chars_of(body.as_str())) {
                    return;
                }
                self.put(body, "\\par\n\n");
            },
        }
    }

    fn emit_table(&mut self, rows: &Vec<Vec<String>>, caption: &Option<String>)
        requires
            table_chars(table_view(rows@)) <= usize::MAX,
        ensures
            final(self)@ == emit_table_spec(old(self)@, table_view(rows@), opt_str(*caption)),
    {
        if rows.len() == 0 {
            return;
        }
        let label = self.pending_label.take();
        let cap: Option<&str> = match caption {
            Some(c) => Some(c.as_str()),
            None => None,
        };
        let lab: Option<&str> = match &label {
            Some(l) => Some(l.as_str()),
            None => None,
        };
        let t = emit_longtblr(rows.as_slice(), cap, lab);
        self.put(t, "\n\n");
    }

    fn emit_code_block(&mut self, lang: &Option<String>, content: &String)
        ensures
            final(self)@ == emit_code_spec(old(self)@, opt_str(*lang), content@),
    {
        if self.in_abstract {
            return;
        }
        let ghost o = self.out@;
        let l: &str = match lang {
            Some(x) => x.as_str(),
            None => "",
        };
        assert(l@ == match opt_str(*lang) { Some(x) => x, None => Seq::<char>::empty() }) by {
            reveal_strlit("");
        }
        push_str(&mut self.out, "\\begin{lstlisting}");
        match listings_language_exec(l) {
            Some(language) => {
                push_str(&mut self.out, "[language=");
                push_str(&mut self.out, language);
                push_str(&mut self.out, "]");
            },
            None => {},
        }
        push_str(&mut self.out, "\n");
        push_str(&mut self.out, content.as_str());
        push_str(&mut self.out, "\n\\end{lstlisting}\n\n");
        assert(self.out@ =~= emit_code_spec(old(self)@, opt_str(*lang), content@).out);
    }
}

impl TexResearchEmitter {
    fn prefix_level1(&mut self) -> (p: String)
        requires
            bounded(old(self)@, (usize::MAX - 1) as nat),
        ensures
            (p@, final(self)@) == prefix_l1(old(self)@),
    {
        let mut p = String::new();
        if !self.in_list || self.list_level > 1 {
            self.l2 = 0;
            self.l3 = 0;
            self.l4 = 0;
            self.l5 = 0;
            self.l6 = 0;
        }
        if !self.in_list {
            self.l1 = 0;
        }
        self.l1 = self.l1 + 1;
        if matches!(self.mode, SectionMode::Reference) {
            push_str(&mut p, "[");
            push_decimal(&mut p, self.l1);
            push_str(&mut p, "] ");
        } else {
            push_decimal(&mut p, self.l1);
            push_str(&mut p, ". ");
        }
        assert(p@ =~= prefix_l1(old(self)@).0);
        p
    }

    fn prefix_level2(&mut self) -> (p: String)
        requires
            bounded(old(self)@, (usize::MAX - 1) as nat),
        ensures
            (p@, final(self)@) == prefix_l2(old(self)@),
    {
        let mut p = String::new();
        if !self.in_list || self.list_level != 2 {
            if self.list_level > 2 {
                self.l3 = 0;
                self.l4 = 0;
                self.l5 = 0;
                self.l6 = 0;
            }
            if !self.in_list || self.list_level < 2 {
                self.l2 = 0;
                self.l3 = 0;
                self.l4 = 0;
                self.l5 = 0;
                self.l6 = 0;
            }
        }
        self.l2 = self.l2 + 1;
        push_str(&mut p, "(");
        push_decimal(&mut p, self.l2);
        push_str(&mut p, ") ");
        assert(p@ =~= prefix_l2(old(self)@).0);
        p
    }

    fn prefix_level3(&mut self) -> (p: String)
        requires
            bounded(old(self)@, (usize::MAX - 1) as nat),
        ensures
            (p@, final(self)@) == prefix_l3(old(self)@),
    {
        let mut p = String::new();
        if !self.in_list || self.list_level < 3 {
            self.l3 = 0;
            self.l4 = 0;
            self.l5 = 0;
            self.l6 = 0;
        }
        self.l3 = self.l3 + 1;
        push_char(&mut p, ((97 + ((self.l3 - 1) % 26)) as u8) as char);
        push_str(&mut p, ". ");
        assert(p@ =~= prefix_l3(old(self)@).0);
        p
    }

    fn prefix_level4(&mut self) -> (p: String)
        requires
            bounded(old(self)@, (usize::MAX - 1) as nat),
        ensures
            (p@, final(self)@) == prefix_l4(old(self)@),
    {
        let mut p = String::new();
        if !self.in_list || self.list_level < 4 {
            self.l4 = 0;
            self.l5 = 0;
            self.l6 = 0;
        }
        self.l4 = self.l4 + 1;
        push_roman(&mut p, self.l4);
        push_str(&mut p, ". ");
        assert(p@ =~= prefix_l4(old(self)@).0);
        p
    }

    fn prefix_level5(&mut self) -> (p: String)
        requires
            bounded(old(self)@, (usize::MAX - 1) as nat),
        ensures
            (p@, final(self)@) == prefix_l5(old(self)@),
    {
        let mut p = String::new();
        if !self.in_list || self.list_level < 5 {
            self.l5 = 0;
            self.l6 = 0;
        }
        self.l5 = self.l5 + 1;
        push_str(&mut p, "(");
        push_char(&mut p, ((65 + ((self.l5 - 1) % 26)) as u8) as char);
        push_str(&mut p, ") ");
        assert(p@ =~= prefix_l5(old(self)@).0);
        p
    }

    fn prefix_level6(&mut self) -> (p: String)
        requires
            bounded(old(self)@, (usize::MAX - 1) as nat),
        ensures
            (p@, final(self)@) == prefix_l6(old(self)@),
    {
        let mut p = String::new();
        if !self.in_list || self.list_level < 6 {
            self.l6 = 0;
        }
        self.l6 = self.l6 + 1;
        push_decimal(&mut p, self.l6);
        push_str(&mut p, ") ");
        assert(p@ =~= prefix_l6(old(self)@).0);
        p
    }

    fn list_prefix(&mut self, level: u8) -> (p: String)
        requires
            bounded(old(self)@, (usize::MAX - 1) as nat),
        ensures
            (p@, final(self)@) == list_prefix_spec(old(self)@, level),
    {
        if level == 1 {
            self.prefix_level1()
        } else if level == 2 {
            self.prefix_level2()
        } else if level == 3 {
            self.prefix_level3()
        } else if level == 4 {
            self.prefix_level4()
        } else if level == 5 {
            self.prefix_level5()
        } else if level == 6 {
            self.prefix_level6()
        } else {
            let p = String::new();
            assert(p@ =~= Seq::<char>::empty());
            p
        }
    }

    fn emit_list_item(&mut self, level: u8, content: &[Inline])
        requires
            bounded(old(self)@, (usize::MAX - 1) as nat),
        ensures
            final(self)@ == emit_list_item_spec(old(self)@, level, inlines_view(content@)),
    {
        let ghost s0 = self@;
        let prefix = self.list_prefix(level);
        let ghost s1 = self@;
        assert(list_prefix_spec(s0, level) == (prefix@, s1));
        let body = render_inlines(content);
        let ghost pv = prefix@;
        let mut item = prefix;
        push_str(&mut item, body.as_str());
        assert(item@ == pv + body@);
        if self.in_abstract {
            let ghost before = string_views(self.abstract_content@);
            let ghost iv = item@;
            self.abstract_content.push(item);
            assert(string_views(self.abstract_content@) =~= before.push(iv));
            return;
        }
        let ghost o = self.out@;
        push_str(&mut self.out, item.as_str());
        push_str(&mut self.out, "\\par\n\n");
        self.in_list = true;
        self.list_level = level;
        assert(self.out@ =~= s1.out + pv + body@ + "\\par\n\n"@);
    }

    /// Emits one block.
    #[verifier::rlimit(50)]
    pub fn emit_block(&mut self, block: &Block)
        requires
            bounded(old(self)@, (usize::MAX - 1) as nat),
            block_fits(*block),
        ensures
            final(self)@ == emit_block_spec(old(self)@, block_view(*block)),
    {
        match block {
            Block::Heading { level, text } => {
                self.reset_list();
                self.emit_heading(*level, text.as_str());
            },
            Block::Paragraph(inlines) => {
                self.reset_list();
                self.emit_paragraph(inlines.as_slice());
            },
            Block::List { level, content, .. } => {
                self.emit_list_item(*level, content.as_slice());
            },
            Block::Table { rows, caption } => {
                self.reset_list();
                self.emit_table(rows, caption);
            },
            Block::Marker(kind) => {
                self.handle_marker(*kind);
            },
            Block::Label(id) => {
                self.pending_label = Some(id.clone());
            },
            Block::CodeBlock { lang, content } => {
                self.emit_code_block(lang, content);
            },
            Block::Empty => {},
        }
    }
}

#[verifier::rlimit(40)]
proof fn lemma_heading_bounded(s: RState, level: u8, text: Seq<char>, m: nat)
    requires
        bounded(s, m),
    ensures
        bounded(emit_heading_spec(s, level, text), m + 1),
{
    let t = escape_latex_spec(text);
    let lc = label_cmd(s.pending_label);
    let s1 = RState { pending_label: None, ..s };
    if !s1.in_abstract && s1.mode == SectionMode::Appendix {
        let saw = s1.appendix_saw_h1 || level == 1;
        let s2 = RState { appendix_saw_h1: saw, ..s1 };
        assert(bounded(start_appendix_part(RState { appendix_idx: s2.appendix_idx + 1, ..s2 }), m + 1));
    } else if !s1.in_abstract && s1.mode != SectionMode::Changelog && s1.mode != SectionMode::Reference {
        assert(bounded(start_data_part(RState { chapter_num: s1.chapter_num + 1, section_num: 0, subsection_num: 0, ..s1 }), m + 1));
    }
}

proof fn lemma_marker_bounded(s: RState, k: MarkerKind, m: nat)
    requires
        bounded(s, m),
    ensures
        bounded(handle_marker_spec(s, k), m),
{
    assert(bounded(start_main(s), m));
    assert(bounded(leave_abstract(start_main(s)), m));
}

proof fn lemma_list_bounded(s: RState, level: u8, content: Seq<SInline>, m: nat)
    requires
        bounded(s, m),
    ensures
        bounded(emit_list_item_spec(s, level, content), m + 1),
{
    assert(bounded(list_prefix_spec(s, level).1, m + 1));
}

proof fn lemma_paragraph_bounded(s: RState, inl: Seq<SInline>, m: nat)
    requires
        bounded(s, m),
    ensures
        bounded(emit_paragraph_spec(s, inl), m),
{
}

proof fn lemma_table_bounded(s: RState, rows: Seq<Seq<Seq<char>>>, caption: Option<Seq<char>>, m: nat)
    requires
        bounded(s, m),
    ensures
        bounded(emit_table_spec(s, rows, caption), m),
{
}

/// One block raises no counter by more than one.
pub proof fn lemma_block_bounded(s: RState, b: SBlock, m: nat)
    requires
        bounded(s, m),
    ensures
        bounded(emit_block_spec(s, b), m + 1),
{
    match b {
        SBlock::Heading { level, text } => lemma_heading_bounded(reset_list(s), level, text, m),
        SBlock::Paragraph(inl) => lemma_paragraph_bounded(reset_list(s), inl, m),
        SBlock::List { ordered, level, content } => lemma_list_bounded(s, level, content, m),
        SBlock::Table { rows, caption } => lemma_table_bounded(reset_list(s), rows, caption, m),
        SBlock::Marker(k) => lemma_marker_bounded(s, k, m),
        _ => {},
    }
}

impl TexResearchEmitter {
    /// Emits the blocks in order.
    #[verifier::rlimit(50)]
    pub fn emit_all(&mut self, blocks: &[Block])
        requires
            blocks@.len() < usize::MAX,
            bounded(old(self)@, (usize::MAX - 1 - blocks@.len()) as nat),
            forall|k: int| 0 <= k < blocks@.len() ==> #[trigger] block_fits(blocks@[k]),
        ensures
            final(self)@ == emit_blocks_spec(old(self)@, blocks_view(blocks@)),
    {
        let ghost s0 = self@;
        let ghost bv = blocks_view(blocks@);
        let mut i: usize = 0;
        assert(bv.take(0) =~= Seq::<SBlock>::empty());
        while i < blocks.len()
            invariant
                i <= blocks@.len(),
                blocks@.len() < usize::MAX,
                bv == blocks_view(blocks@),
                forall|k: int| 0 <= k < blocks@.len() ==> #[trigger] block_fits(blocks@[k]),
                bounded(self@, (usize::MAX - 1 - blocks@.len() + i) as nat),
                self@ == emit_blocks_spec(s0, bv.take(i as int)),
            decreases blocks@.len() - i,
        {
            let ghost cur = self@;
            proof {
                lemma_block_bounded(cur, bv[i as int], (usize::MAX - 1 - blocks@.len() + i) as nat);
            }
            self.emit_block(&blocks[i]);
            assert(bv.take(i + 1).drop_last() =~= bv.take(i as int));
            i += 1;
        }
        assert(bv.take(blocks@.len() as int) =~= bv);
    }
}

impl Default for TexResearchEmitter {
    fn default() -> (e: Self)
        ensures
            e@ == initial_rstate(),
    {
        TexResearchEmitter::new()
    }
}

// ---------------------------------------------------------------------------
// Laws
// ---------------------------------------------------------------------------

/// Output of a section marker lands in the main text: after a marker no
/// part is being written.
pub proof fn lemma_marker_writes_main(s: RState, k: MarkerKind)
    ensures
        handle_marker_spec(s, k).current_part is None,
{
}

/// `w` occurs in `t`.
pub open spec fn occurs(t: Seq<char>, w: Seq<char>) -> bool {
    exists|i: int| has_at(t, i, w)
}

pub open spec fn input_line(path: Seq<char>) -> Seq<char> {
    "\\input{"@ + path + "}"@
}

/// Every finished part, and the part being written, is included from the
/// main text.
pub open spec fn parts_included(s: RState) -> bool {
    &&& forall|i: int| 0 <= i < s.parts.len() ==> #[trigger] occurs(s.main, input_line(s.parts[i].0))
    &&& (s.current_part matches Some(p) ==> occurs(s.main, input_line(p)))
}

proof fn lemma_occurs_extend(t: Seq<char>, w: Seq<char>, x: Seq<char>)
    requires
        occurs(t, w),
    ensures
        occurs(t + x, w),
{
    let i = choose|i: int| has_at(t, i, w);
    assert(t.subrange(i, i + w.len()) =~= (t + x).subrange(i, i + w.len()));
    assert(has_at(t + x, i, w));
}

proof fn lemma_finalize_included(s: RState)
    requires
        parts_included(s),
    ensures
        parts_included(finalize(s)),
{
    let f = finalize(s);
    match s.current_part {
        Some(p) => {
            assert forall|i: int| 0 <= i < f.parts.len() implies #[trigger] occurs(f.main, input_line(f.parts[i].0)) by {
                if i < s.parts.len() {
                    assert(f.parts[i] == s.parts[i]);
                }
            }
        },
        None => {
            assert forall|i: int| 0 <= i < f.parts.len() implies #[trigger] occurs(f.main, input_line(f.parts[i].0)) by {
                lemma_occurs_extend(s.main, input_line(s.parts[i].0), s.out);
            }
        },
    }
}

proof fn lemma_start_part_included(s: RState, path: Seq<char>)
    requires
        parts_included(s),
    ensures
        parts_included(start_part(s, path)),
{
    lemma_finalize_included(s);
    let f = finalize(s);
    let g = start_part(s, path);
    let tail = "\\input{"@ + path + "}\n\n"@;
    assert(g.main == f.main + tail);
    assert forall|i: int| 0 <= i < g.parts.len() implies #[trigger] occurs(g.main, input_line(g.parts[i].0)) by {
        lemma_occurs_extend(f.main, input_line(f.parts[i].0), tail);
    }
    assert(occurs(g.main, input_line(path))) by {
        reveal_strlit("}\n\n");
        reveal_strlit("}");
        let k = f.main.len() as int;
        assert(g.main.subrange(k, k + input_line(path).len()) =~= input_line(path));
        assert(has_at(g.main, k, input_line(path)));
    }
}

proof fn lemma_heading_included(s: RState, level: u8, text: Seq<char>)
    requires
        parts_included(s),
    ensures
        parts_included(emit_heading_spec(s, level, text)),
{
    let t = escape_latex_spec(text);
    let lc = label_cmd(s.pending_label);
    let s1 = RState { pending_label: None, ..s };
    assert(parts_included(s1));
    if !s1.in_abstract && s1.mode == SectionMode::Appendix {
        let saw = s1.appendix_saw_h1 || level == 1;
        let s2 = RState { appendix_saw_h1: saw, ..s1 };
        let s3 = RState { appendix_idx: s2.appendix_idx + 1, ..s2 };
        let n = s3.appendix_file_idx + 1;
        lemma_start_part_included(RState { appendix_file_idx: n, ..s3 }, appendix_path(n));
    } else if !s1.in_abstract && s1.mode != SectionMode::Changelog && s1.mode != SectionMode::Reference {
        let s3 = RState { chapter_num: s1.chapter_num + 1, section_num: 0, subsection_num: 0, ..s1 };
        let n = s3.data_idx + 1;
        lemma_start_part_included(RState { data_idx: n, ..s3 }, data_path(n));
    }
}

proof fn lemma_marker_included(s: RState, k: MarkerKind)
    requires
        parts_included(s),
    ensures
        parts_included(handle_marker_spec(s, k)),
{
    if s.current_part is Some {
        lemma_finalize_included(s);
    }
}

/// The main text, the parts and the current part.
pub open spec fn layout(s: RState) -> (Seq<char>, Seq<(Seq<char>, Seq<char>)>, Option<Seq<char>>) {
    (s.main, s.parts, s.current_part)
}

proof fn lemma_paragraph_layout(s: RState, inl: Seq<SInline>)
    ensures
        layout(emit_paragraph_spec(s, inl)) == layout(s),
{
}

proof fn lemma_list_layout(s: RState, level: u8, content: Seq<SInline>)
    ensures
        layout(emit_list_item_spec(s, level, content)) == layout(s),
{
    assert(layout(list_prefix_spec(s, level).1) == layout(s));
}

proof fn lemma_table_layout(s: RState, rows: Seq<Seq<Seq<char>>>, caption: Option<Seq<char>>)
    ensures
        layout(emit_table_spec(s, rows, caption)) == layout(s),
{
}

proof fn lemma_code_layout(s: RState, lang: Option<Seq<char>>, content: Seq<char>)
    ensures
        layout(emit_code_spec(s, lang, content)) == layout(s),
{
}

/// One block keeps every part included from the main text.
pub proof fn lemma_block_keeps_parts_included(s: RState, b: SBlock)
    requires
        parts_included(s),
    ensures
        parts_included(emit_block_spec(s, b)),
{
    match b {
        SBlock::Heading { level, text } => lemma_heading_included(reset_list(s), level, text),
        SBlock::Marker(k) => lemma_marker_included(s, k),
        SBlock::Paragraph(inl) => lemma_paragraph_layout(reset_list(s), inl),
        SBlock::List { ordered, level, content } => lemma_list_layout(s, level, content),
        SBlock::Table { rows, caption } => lemma_table_layout(reset_list(s), rows, caption),
        SBlock::CodeBlock { lang, content } => lemma_code_layout(s, lang, content),
        _ => {},
    }
}

pub proof fn lemma_blocks_keep_parts_included(s: RState, bs: Seq<SBlock>)
    requires
        parts_included(s),
    ensures
        parts_included(emit_blocks_spec(s, bs)),
    decreases bs.len(),
{
    if bs.len() > 0 {
        lemma_blocks_keep_parts_included(s, bs.drop_last());
        lemma_block_keeps_parts_included(emit_blocks_spec(s, bs.drop_last()), bs.last());
    }
}

/// Whatever the blocks, every part that `finish` returns is included from
/// the main text by an `\input` line.
pub proof fn lemma_every_part_is_input(bs: Seq<SBlock>)
    ensures
        forall|i: int| 0 <= i < finish_spec(emit_blocks_spec(initial_rstate(), bs)).1.len() ==> #[trigger] occurs(
            finish_spec(emit_blocks_spec(initial_rstate(), bs)).0,
            input_line(finish_spec(emit_blocks_spec(initial_rstate(), bs)).1[i].0),
        ),
{
    let s = emit_blocks_spec(initial_rstate(), bs);
    lemma_blocks_keep_parts_included(initial_rstate(), bs);
    lemma_finalize_included(s);
}

/// After a heading, a paragraph or a table, list numbering starts again:
/// the next first-level item is numbered 1.
pub proof fn lemma_list_restarts(s: RState, b: SBlock)
    requires
        b is Heading || b is Paragraph || b is Table,
    ensures
        list_prefix_spec(emit_block_spec(s, b), 1).0 == if emit_block_spec(s, b).mode == SectionMode::Reference {
            "["@ + decimal(1) + "] "@
        } else {
            decimal(1) + ". "@
        },
{
    let r = reset_list(s);
    match b {
        SBlock::Heading { level, text } => {
            assert(emit_block_spec(s, b) == emit_heading_spec(r, level, text));
            lemma_heading_keeps_lists(r, level, text);
        },
        SBlock::Paragraph(inl) => {},
        SBlock::Table { rows, caption } => {},
        _ => {},
    }
}

proof fn lemma_heading_keeps_lists(s: RState, level: u8, text: Seq<char>)
    ensures
        emit_heading_spec(s, level, text).in_list == s.in_list,
        emit_heading_spec(s, level, text).l1 == s.l1,
{
}


// ---------------------------------------------------------------------------
// Parts: numbering and chapter starts
// ---------------------------------------------------------------------------

/// The text starts with a `\chapter{` command.
pub open spec fn starts_chapter(t: Seq<char>) -> bool {
    has_at(t, 0, "\\chapter{"@)
}

/// The paths of the finished parts, then the part being written.
pub open spec fn all_paths(s: RState) -> Seq<Seq<char>> {
    s.parts.map_values(|p: (Seq<char>, Seq<char>)| p.0) + match s.current_part {
        Some(p) => seq![p],
        None => Seq::empty(),
    }
}

/// `ps` holds the data parts `data/chapter01.tex` .. of numbers 1..=d and the
/// appendix parts `appendix/appendix01.tex` .. of numbers 1..=a, each kind
/// in increasing order, interleaved as they were opened.
pub open spec fn numbered(ps: Seq<Seq<char>>, d: nat, a: nat) -> bool
    decreases ps.len(),
{
    if ps.len() == 0 {
        d == 0 && a == 0
    } else if d > 0 && ps.last() == data_path(d) {
        numbered(ps.drop_last(), (d - 1) as nat, a)
    } else if a > 0 && ps.last() == appendix_path(a) {
        numbered(ps.drop_last(), d, (a - 1) as nat)
    } else {
        false
    }
}

/// Every finished part, and the part being written, starts with its
/// chapter; the parts are numbered from 01 by kind.
pub open spec fn parts_well_formed(s: RState) -> bool {
    &&& forall|i: int| 0 <= i < s.parts.len() ==> starts_chapter(#[trigger] s.parts[i].1)
    &&& (s.current_part is Some ==> starts_chapter(s.out))
    &&& numbered(all_paths(s), s.data_idx, s.appendix_file_idx)
}

proof fn lemma_starts_chapter_append(t: Seq<char>, x: Seq<char>)
    requires
        starts_chapter(t),
    ensures
        starts_chapter(t + x),
{
    let w = "\\chapter{"@;
    assert((t + x).subrange(0, w.len() as int) =~= t.subrange(0, w.len() as int));
}

proof fn lemma_sectioning_chapter(title: Seq<char>, lc: Seq<char>)
    ensures
        starts_chapter(Seq::<char>::empty() + sectioning("chapter"@, title, lc)),
{
    reveal_strlit("\\");
    reveal_strlit("chapter");
    reveal_strlit("{");
    reveal_strlit("\\chapter{");
    let t = Seq::<char>::empty() + sectioning("chapter"@, title, lc);
    assert(t.subrange(0, 9) =~= "\\chapter{"@);
}

proof fn lemma_finalize_paths(s: RState)
    ensures
        all_paths(finalize(s)) == all_paths(s),
        (s.current_part is Some && starts_chapter(s.out)
            && forall|i: int| 0 <= i < s.parts.len() ==> starts_chapter(#[trigger] s.parts[i].1))
            ==> forall|i: int| 0 <= i < finalize(s).parts.len() ==> starts_chapter(#[trigger] finalize(s).parts[i].1),
        finalize(s).current_part is None,
{
    let f = finalize(s);
    match s.current_part {
        Some(p) => {
            assert(f.parts.map_values(|q: (Seq<char>, Seq<char>)| q.0)
                =~= s.parts.map_values(|q: (Seq<char>, Seq<char>)| q.0) + seq![p]);
            assert(all_paths(f) =~= all_paths(s));
            if starts_chapter(s.out) && forall|i: int| 0 <= i < s.parts.len() ==> starts_chapter(#[trigger] s.parts[i].1) {
                assert forall|i: int| 0 <= i < f.parts.len() implies starts_chapter(#[trigger] f.parts[i].1) by {
                    if i < s.parts.len() {
                        assert(f.parts[i] == s.parts[i]);
                    }
                }
            }
        },
        None => {
            assert(all_paths(f) =~= all_paths(s));
        },
    }
}

proof fn lemma_start_part_well_formed(s: RState, path: Seq<char>, title: Seq<char>, lc: Seq<char>)
    requires
        forall|i: int| 0 <= i < s.parts.len() ==> starts_chapter(#[trigger] s.parts[i].1),
        s.current_part is Some ==> starts_chapter(s.out),
    ensures
        ({
            let g = start_part(s, path);
            let h = RState { out: g.out + sectioning("chapter"@, title, lc), ..g };
            &&& forall|i: int| 0 <= i < h.parts.len() ==> starts_chapter(#[trigger] h.parts[i].1)
            &&& starts_chapter(h.out)
            &&& all_paths(h) == all_paths(s).push(path)
        }),
{
    lemma_finalize_paths(s);
    let f = finalize(s);
    if s.current_part is None {
        assert forall|i: int| 0 <= i < f.parts.len() implies starts_chapter(#[trigger] f.parts[i].1) by {
            assert(f.parts[i] == s.parts[i]);
        }
    }
    lemma_sectioning_chapter(title, lc);
    let g = start_part(s, path);
    assert(all_paths(g) =~= all_paths(f) + seq![path]);
    assert(all_paths(f) + seq![path] =~= all_paths(s).push(path));
}

proof fn lemma_appendix_heading_parts(s1: RState, level: u8, t: Seq<char>, lc: Seq<char>)
    requires
        parts_well_formed(s1),
    ensures
        parts_well_formed(appendix_heading(s1, level, t, lc)),
{
    let r = appendix_heading(s1, level, t, lc);
    let saw = s1.appendix_saw_h1 || level == 1;
    let s2 = RState { appendix_saw_h1: saw, ..s1 };
    assert(all_paths(s2) == all_paths(s1));
    if level == 1 || (level == 2 && !saw) {
        let s3 = RState { appendix_idx: s2.appendix_idx + 1, ..s2 };
        let n = s3.appendix_file_idx + 1;
        let s4 = RState { appendix_file_idx: n, ..s3 };
        lemma_start_part_well_formed(s4, appendix_path(n), t, lc);
        assert(all_paths(s4) == all_paths(s1));
        let ps = all_paths(r);
        assert(ps.drop_last() =~= all_paths(s1));
        if s1.data_idx > 0 {
            lemma_paths_differ(s1.data_idx, n);
        }
    } else {
        assert(r.out.subrange(0, s2.out.len() as int) =~= s2.out);
        lemma_append_parts(s2, r);
    }
}

proof fn lemma_body_heading_parts(s1: RState, level: u8, t: Seq<char>, lc: Seq<char>)
    requires
        parts_well_formed(s1),
    ensures
        parts_well_formed(body_heading(s1, level, t, lc)),
{
    let r = body_heading(s1, level, t, lc);
    if level == 1 || level == 2 {
        let s3 = RState { chapter_num: s1.chapter_num + 1, section_num: 0, subsection_num: 0, ..s1 };
        let n = s3.data_idx + 1;
        let s4 = RState { data_idx: n, ..s3 };
        lemma_start_part_well_formed(s4, data_path(n), t, lc);
        assert(all_paths(s4) == all_paths(s1));
        let ps = all_paths(r);
        assert(ps.drop_last() =~= all_paths(s1));
    } else if level <= 5 {
        assert(r.out.subrange(0, s1.out.len() as int) =~= s1.out);
        lemma_append_parts(s1, r);
    }
}

proof fn lemma_heading_parts(s: RState, level: u8, text: Seq<char>)
    requires
        parts_well_formed(s),
    ensures
        parts_well_formed(emit_heading_spec(s, level, text)),
{
    let t = escape_latex_spec(text);
    let lc = label_cmd(s.pending_label);
    let s1 = RState { pending_label: None, ..s };
    assert(all_paths(s1) == all_paths(s));
    let r = emit_heading_spec(s, level, text);
    if s1.in_abstract {
        assert(all_paths(r) == all_paths(s1));
    } else if s1.mode == SectionMode::Changelog || s1.mode == SectionMode::Reference {
        assert(r.out.subrange(0, s1.out.len() as int) =~= s1.out);
        lemma_append_parts(s1, r);
    } else if s1.mode == SectionMode::Appendix {
        lemma_appendix_heading_parts(s1, level, t, lc);
    } else {
        lemma_body_heading_parts(s1, level, t, lc);
    }
}

/// A data path and an appendix path never coincide.
proof fn lemma_paths_differ(d: nat, a: nat)
    ensures
        data_path(d) != appendix_path(a),
{
    reveal_strlit("data/chapter");
    reveal_strlit("appendix/appendix");
    assert(data_path(d)[0] == 'd');
    assert(appendix_path(a)[0] == 'a');
}

proof fn lemma_append_parts(s: RState, r: RState)
    requires
        parts_well_formed(s),
        r.parts == s.parts,
        r.current_part == s.current_part,
        r.data_idx == s.data_idx,
        r.appendix_file_idx == s.appendix_file_idx,
        s.out.len() <= r.out.len(),
        r.out.subrange(0, s.out.len() as int) == s.out,
    ensures
        parts_well_formed(r),
{
    assert(all_paths(r) == all_paths(s));
    if s.current_part is Some {
        lemma_starts_chapter_append(s.out, r.out.subrange(s.out.len() as int, r.out.len() as int));
        assert(s.out + r.out.subrange(s.out.len() as int, r.out.len() as int) =~= r.out);
    }
}

proof fn lemma_paragraph_parts(s: RState, inl: Seq<SInline>)
    requires
        parts_well_formed(s),
    ensures
        parts_well_formed(emit_paragraph_spec(s, inl)),
{
    let r = emit_paragraph_spec(s, inl);
    assert(r.out.subrange(0, s.out.len() as int) =~= s.out);
    lemma_append_parts(s, r);
}

proof fn lemma_list_parts(s: RState, level: u8, content: Seq<SInline>)
    requires
        parts_well_formed(s),
    ensures
        parts_well_formed(emit_list_item_spec(s, level, content)),
{
    let (prefix, s1) = list_prefix_spec(s, level);
    assert(layout(s1) == layout(s) && s1.out == s.out && s1.data_idx == s.data_idx
        && s1.appendix_file_idx == s.appendix_file_idx);
    let r = emit_list_item_spec(s, level, content);
    assert(r.out.subrange(0, s.out.len() as int) =~= s.out);
    lemma_append_parts(s, r);
}

proof fn lemma_table_parts(s: RState, rows: Seq<Seq<Seq<char>>>, caption: Option<Seq<char>>)
    requires
        parts_well_formed(s),
    ensures
        parts_well_formed(emit_table_spec(s, rows, caption)),
{
    let r = emit_table_spec(s, rows, caption);
    assert(r.out.subrange(0, s.out.len() as int) =~= s.out);
    lemma_append_parts(s, r);
}

proof fn lemma_code_parts(s: RState, lang: Option<Seq<char>>, content: Seq<char>)
    requires
        parts_well_formed(s),
    ensures
        parts_well_formed(emit_code_spec(s, lang, content)),
{
    let r = emit_code_spec(s, lang, content);
    assert(r.out.subrange(0, s.out.len() as int) =~= s.out);
    lemma_append_parts(s, r);
}

proof fn lemma_marker_parts(s: RState, k: MarkerKind)
    requires
        parts_well_formed(s),
    ensures
        parts_well_formed(handle_marker_spec(s, k)),
{
    lemma_finalize_paths(s);
    let m = start_main(s);
    assert(all_paths(m) == all_paths(s));
    if s.current_part is None {
        assert(m == s);
    }
    let r = handle_marker_spec(s, k);
    assert(r.parts == m.parts && r.current_part is None);
    assert(all_paths(r) =~= all_paths(m));
}

/// One block keeps the parts well formed.
pub proof fn lemma_block_keeps_parts_well_formed(s: RState, b: SBlock)
    requires
        parts_well_formed(s),
    ensures
        parts_well_formed(emit_block_spec(s, b)),
{
    let s0 = reset_list(s);
    assert(all_paths(s0) == all_paths(s));
    match b {
        SBlock::Heading { level, text } => lemma_heading_parts(s0, level, text),
        SBlock::Paragraph(inl) => lemma_paragraph_parts(s0, inl),
        SBlock::List { ordered, level, content } => lemma_list_parts(s, level, content),
        SBlock::Table { rows, caption } => lemma_table_parts(s0, rows, caption),
        SBlock::Marker(k) => lemma_marker_parts(s, k),
        SBlock::Label(id) => {
            assert(all_paths(emit_block_spec(s, b)) == all_paths(s));
        },
        SBlock::CodeBlock { lang, content } => lemma_code_parts(s, lang, content),
        SBlock::Empty => {},
    }
}

pub proof fn lemma_blocks_keep_parts_well_formed(s: RState, bs: Seq<SBlock>)
    requires
        parts_well_formed(s),
    ensures
        parts_well_formed(emit_blocks_spec(s, bs)),
    decreases bs.len(),
{
    if bs.len() > 0 {
        lemma_blocks_keep_parts_well_formed(s, bs.drop_last());
        lemma_block_keeps_parts_well_formed(emit_blocks_spec(s, bs.drop_last()), bs.last());
    }
}

/// Whatever the blocks, every part that `finish` returns starts with
/// `\chapter{`, and the parts are `data/chapter01.tex`, `02`, ... and
/// `appendix/appendix01.tex`, `02`, ..., each kind numbered from 01 without
/// gaps, in the order they were opened.
pub proof fn lemma_parts_numbered_and_chaptered(bs: Seq<SBlock>)
    ensures
        ({
            let s = emit_blocks_spec(initial_rstate(), bs);
            let parts = finish_spec(s).1;
            &&& forall|i: int| 0 <= i < parts.len() ==> starts_chapter(#[trigger] parts[i].1)
            &&& numbered(parts.map_values(|p: (Seq<char>, Seq<char>)| p.0), s.data_idx, s.appendix_file_idx)
        }),
{
    assert(all_paths(initial_rstate()) =~= Seq::<Seq<char>>::empty());
    lemma_blocks_keep_parts_well_formed(initial_rstate(), bs);
    let s = emit_blocks_spec(initial_rstate(), bs);
    lemma_finalize_paths(s);
    let f = finalize(s);
    if s.current_part is None {
        assert forall|i: int| 0 <= i < f.parts.len() implies starts_chapter(#[trigger] f.parts[i].1) by {
            assert(f.parts[i] == s.parts[i]);
        }
    }
    assert(all_paths(f) =~= f.parts.map_values(|p: (Seq<char>, Seq<char>)| p.0));
}


// ---------------------------------------------------------------------------
// The order of the `\input` lines
// ---------------------------------------------------------------------------

/// The `\input` line of each path occurs in `main`, in the paths' order.
pub open spec fn inputs_in_order(main: Seq<char>, ps: Seq<Seq<char>>) -> bool {
    exists|pos: Seq<int>| #[trigger] inputs_at(main, ps, pos)
}

/// The `\input` line of `ps[i]` stands at `pos[i]`, the positions increasing.
pub open spec fn inputs_at(main: Seq<char>, ps: Seq<Seq<char>>, pos: Seq<int>) -> bool {
    &&& pos.len() == ps.len()
    &&& forall|i: int| 0 <= i < ps.len() ==> #[trigger] has_at(main, pos[i], input_line(ps[i]))
    &&& forall|i: int, j: int| 0 <= i < j < ps.len() ==> #[trigger] pos[i] < #[trigger] pos[j]
}

proof fn lemma_order_append(main: Seq<char>, x: Seq<char>, ps: Seq<Seq<char>>)
    requires
        inputs_in_order(main, ps),
    ensures
        inputs_in_order(main + x, ps),
{
    let pos = choose|pos: Seq<int>| inputs_at(main, ps, pos);
    assert forall|i: int| 0 <= i < ps.len() implies #[trigger] has_at(main + x, pos[i], input_line(ps[i])) by {
        let w = input_line(ps[i]);
        assert(has_at(main, pos[i], w));
        assert((main + x).subrange(pos[i], pos[i] + w.len()) =~= main.subrange(pos[i], pos[i] + w.len()));
    }
    assert(inputs_at(main + x, ps, pos));
}

proof fn lemma_order_push(main: Seq<char>, ps: Seq<Seq<char>>, path: Seq<char>)
    requires
        inputs_in_order(main, ps),
    ensures
        inputs_in_order(main + "\\input{"@ + path + "}\n\n"@, ps.push(path)),
{
    let pos = choose|pos: Seq<int>| inputs_at(main, ps, pos);
    let tail = "\\input{"@ + path + "}\n\n"@;
    let m2 = main + tail;
    lemma_order_append(main, tail, ps);
    let k = main.len() as int;
    let p2 = pos.push(k);
    reveal_strlit("}\n\n");
    reveal_strlit("}");
    assert(has_at(m2, k, input_line(path))) by {
        assert(m2.subrange(k, k + input_line(path).len()) =~= input_line(path));
    }
    reveal_strlit("\\input{");
    assert forall|i: int| 0 <= i < ps.len() implies pos[i] < k by {
        assert(has_at(main, pos[i], input_line(ps[i])));
        assert(input_line(ps[i]).len() > 0);
    }
    assert forall|i: int| 0 <= i < ps.push(path).len() implies #[trigger] has_at(m2, p2[i], input_line(ps.push(path)[i])) by {
        if i < ps.len() {
            let w = input_line(ps[i]);
            assert(has_at(main, pos[i], w));
            assert(m2.subrange(pos[i], pos[i] + w.len()) =~= main.subrange(pos[i], pos[i] + w.len()));
        }
    }
    assert forall|i: int, j: int| 0 <= i < j < ps.push(path).len() implies #[trigger] p2[i] < #[trigger] p2[j] by {
        if j == ps.len() {
            assert(pos[i] < k);
        }
    }
    assert(inputs_at(m2, ps.push(path), p2));
    assert(m2 =~= main + "\\input{"@ + path + "}\n\n"@);
}

/// The main text holds the `\input` line of every part, finished or being
/// written, in the order the parts were opened.
pub open spec fn ordered(s: RState) -> bool {
    inputs_in_order(s.main, all_paths(s))
}

proof fn lemma_finalize_ordered(s: RState)
    requires
        ordered(s),
    ensures
        ordered(finalize(s)),
{
    lemma_finalize_paths(s);
    if s.current_part is None {
        lemma_order_append(s.main, s.out, all_paths(s));
    }
}

proof fn lemma_start_part_ordered(s: RState, path: Seq<char>)
    requires
        ordered(s),
    ensures
        ordered(start_part(s, path)),
{
    lemma_finalize_ordered(s);
    let f = finalize(s);
    let g = start_part(s, path);
    lemma_order_push(f.main, all_paths(f), path);
    assert(all_paths(g) =~= all_paths(f).push(path));
}

proof fn lemma_heading_ordered(s: RState, level: u8, text: Seq<char>)
    requires
        ordered(s),
    ensures
        ordered(emit_heading_spec(s, level, text)),
{
    let s1 = RState { pending_label: None, ..s };
    assert(all_paths(s1) == all_paths(s));
    let r = emit_heading_spec(s, level, text);
    if !s1.in_abstract && s1.mode == SectionMode::Appendix {
        let saw = s1.appendix_saw_h1 || level == 1;
        let s2 = RState { appendix_saw_h1: saw, ..s1 };
        let s3 = RState { appendix_idx: s2.appendix_idx + 1, ..s2 };
        let n = s3.appendix_file_idx + 1;
        let s4 = RState { appendix_file_idx: n, ..s3 };
        assert(all_paths(s4) == all_paths(s));
        lemma_start_part_ordered(s4, appendix_path(n));
        let g = start_part(s4, appendix_path(n));
        assert(all_paths(RState { out: g.out + Seq::<char>::empty(), ..g }) == all_paths(g));
        if !(level == 1 || (level == 2 && !saw)) {
            assert(all_paths(r) == all_paths(s2));
        } else {
            assert(all_paths(r) == all_paths(g));
        }
    } else if !s1.in_abstract && s1.mode != SectionMode::Changelog && s1.mode != SectionMode::Reference {
        let s3 = RState { chapter_num: s1.chapter_num + 1, section_num: 0, subsection_num: 0, ..s1 };
        let n = s3.data_idx + 1;
        let s4 = RState { data_idx: n, ..s3 };
        assert(all_paths(s4) == all_paths(s));
        lemma_start_part_ordered(s4, data_path(n));
        let g = start_part(s4, data_path(n));
        if level == 1 || level == 2 {
            assert(all_paths(r) == all_paths(g));
        } else {
            assert(all_paths(r) == all_paths(s1));
        }
    } else {
        assert(all_paths(r) == all_paths(s1));
    }
}

proof fn lemma_block_ordered(s: RState, b: SBlock)
    requires
        ordered(s),
    ensures
        ordered(emit_block_spec(s, b)),
{
    let s0 = reset_list(s);
    assert(all_paths(s0) == all_paths(s));
    let r = emit_block_spec(s, b);
    match b {
        SBlock::Heading { level, text } => lemma_heading_ordered(s0, level, text),
        SBlock::Marker(k) => {
            lemma_finalize_ordered(s);
            lemma_finalize_paths(s);
            let m = start_main(s);
            assert(all_paths(r) =~= all_paths(m));
        },
        SBlock::Paragraph(inl) => {
            lemma_paragraph_layout(s0, inl);
            assert(all_paths(r) == all_paths(s0));
        },
        SBlock::List { ordered, level, content } => {
            lemma_list_layout(s, level, content);
            assert(all_paths(r) == all_paths(s));
        },
        SBlock::Table { rows, caption } => {
            lemma_table_layout(s0, rows, caption);
            assert(all_paths(r) == all_paths(s0));
        },
        SBlock::CodeBlock { lang, content } => {
            lemma_code_layout(s, lang, content);
            assert(all_paths(r) == all_paths(s));
        },
        SBlock::Label(id) => {
            assert(all_paths(r) == all_paths(s));
        },
        SBlock::Empty => {},
    }
}

proof fn lemma_blocks_ordered(s: RState, bs: Seq<SBlock>)
    requires
        ordered(s),
    ensures
        ordered(emit_blocks_spec(s, bs)),
    decreases bs.len(),
{
    if bs.len() > 0 {
        lemma_blocks_ordered(s, bs.drop_last());
        lemma_block_ordered(emit_blocks_spec(s, bs.drop_last()), bs.last());
    }
}

/// Whatever the blocks, the main text that `finish` returns holds the
/// `\input` lines of the returned parts in the parts' order.
pub proof fn lemma_inputs_follow_parts(bs: Seq<SBlock>)
    ensures
        ({
            let (main, parts) = finish_spec(emit_blocks_spec(initial_rstate(), bs));
            inputs_in_order(main, parts.map_values(|p: (Seq<char>, Seq<char>)| p.0))
        }),
{
    let s0 = initial_rstate();
    assert(all_paths(s0) =~= Seq::<Seq<char>>::empty());
    assert(inputs_in_order(s0.main, all_paths(s0))) by {
        assert(inputs_at(s0.main, all_paths(s0), Seq::<int>::empty()));
    }
    lemma_blocks_ordered(s0, bs);
    let s = emit_blocks_spec(s0, bs);
    lemma_finalize_ordered(s);
    lemma_finalize_paths(s);
    let f = finalize(s);
    assert(all_paths(f) =~= f.parts.map_values(|p: (Seq<char>, Seq<char>)| p.0));
}


/// Within a list, a level-1 item that follows a deeper item continues the
/// level-1 count: the item after `1. …` and a nested item is numbered from
/// the same counter, one higher, so the k-th level-1 item of a list gets `k`.
pub proof fn lemma_level1_count_continues(s: RState, level: u8, a: Seq<SInline>, b: Seq<SInline>)
    requires
        !s.in_abstract,
        2 <= level <= 6,
    ensures
        ({
            let s1 = emit_list_item_spec(s, 1, a);
            let s2 = emit_list_item_spec(s1, level, b);
            let (p3, s3) = list_prefix_spec(s2, 1);
            &&& s1.l1 == (if s.in_list { s.l1 + 1 } else { 1 })
            &&& s3.l1 == s1.l1 + 1
            &&& p3 == (if s.mode == SectionMode::Reference {
                "["@ + decimal(s1.l1 + 1) + "] "@
            } else {
                decimal(s1.l1 + 1) + ". "@
            })
        }),
{
    let s1 = emit_list_item_spec(s, 1, a);
    assert(s1.in_list && s1.list_level == 1);
    let s2 = emit_list_item_spec(s1, level, b);
    assert(s2.l1 == s1.l1 && s2.in_list && s2.mode == s.mode);
}

} // verus!
