//! Paragraph shapes of the research report: headings, body text, list items,
//! captions, code lines and tables, each as a specification and a builder.

use vstd::prelude::*;
use crate::common::ast::{Inline, SInline, inline_view, inlines_view, lemma_inlines_view_len, strings_view, table_view};
use crate::common::inline::{flat_inline, inline_text, parse, parse_spec};
use crate::common::numbering::{
    circled, circled_exec, column_letters, parenthesized, parenthesized_exec, push_column_letters,
    push_roman, roman, small_letter,
};
use crate::docx_plan::{
    Align, DocItem, Font, Indent, LineRule, ParaFormat, ParaSpec, ParaStyle, RunContent, RunSpec,
    RunStyle, SItem, SPara, SRun, SRunContent, Spacing, SpecialIndent, at_least, empty_paragraph,
    items_view, para_view, plain_format, push_item, push_paragraph, push_run, run_view, runs_view,
    str_run, text_para, text_paragraph, text_run, text_srun, cells_view, grid_view,
};
use crate::text::{
    chars_of, decimal, is_blank, is_blank_exec, lines, lines_of, push_char, push_decimal, push_str,
    string_from_chars, trim, trim_chars,
};

verus! {

pub const SIZE_COVER_TITLE: u32 = 52;
pub const SIZE_HEAD1: u32 = 44;
pub const SIZE_HEAD2: u32 = 32;
pub const SIZE_HEAD3: u32 = 28;
pub const SIZE_BODY: u32 = 28;
pub const SIZE_COVER_INSTITUTION: u32 = 32;
pub const SIZE_COVER_DATE: u32 = 28;
pub const LINE_BODY: u32 = 480;
pub const LINE_HEAD: u32 = 600;
pub const SPACING_BEFORE_CHAPTER: u32 = 480;
pub const SPACING_AFTER_CHAPTER: u32 = 480;
pub const SPACING_BEFORE_SECTION: u32 = 240;
pub const SPACING_AFTER_SECTION: u32 = 120;
pub const MAX_IMAGE_WIDTH_EMU: u32 = 5_600_000;
pub const MAX_INLINE_IMAGE_WIDTH_EMU: u32 = 1_800_000;

// ---------------------------------------------------------------------------
// Styles and formats
// ---------------------------------------------------------------------------

/// Bold heading font at `size`.
pub open spec fn head(size: u32) -> RunStyle {
    RunStyle { font: Font::ResearchHead, size, bold: true, italic: false }
}

pub open spec fn body_style() -> RunStyle {
    RunStyle { font: Font::ResearchBody, size: SIZE_BODY, bold: false, italic: false }
}

pub fn head_style(size: u32) -> (r: RunStyle)
    ensures
        r == head(size),
{
    RunStyle { font: Font::ResearchHead, size, bold: true, italic: false }
}

pub fn body_run_style() -> (r: RunStyle)
    ensures
        r == body_style(),
{
    RunStyle { font: Font::ResearchBody, size: SIZE_BODY, bold: false, italic: false }
}

pub open spec fn chapter_format() -> ParaFormat {
    ParaFormat { style: Some(ParaStyle::Heading1), align: Some(Align::Center), ..plain_format() }
}

/// Section and subsection headings: left aligned, indented by two characters.
pub open spec fn section_format(st: ParaStyle) -> ParaFormat {
    ParaFormat {
        style: Some(st),
        align: Some(Align::Left),
        indent: Some(Indent { start: None, special: None, start_chars: Some(200) }),
        ..plain_format()
    }
}

/// Body text: justified, first line indented by two characters.
pub open spec fn body_format() -> ParaFormat {
    ParaFormat {
        align: Some(Align::Both),
        indent: Some(Indent { start: Some(0), special: Some(SpecialIndent::FirstLine(560)), start_chars: None }),
        spacing: Some(at_least(LINE_BODY)),
        ..plain_format()
    }
}

pub open spec fn body_aligned(a: Align) -> ParaFormat {
    ParaFormat { align: Some(a), ..body_format() }
}

/// A code line: body text indented by 560 twips, no first-line indent.
pub open spec fn code_format() -> ParaFormat {
    ParaFormat { indent: Some(Indent { start: Some(560), special: None, start_chars: None }), ..body_format() }
}

/// Left indent of a list item: two characters, the label, and two more
/// characters per level below the first.
pub open spec fn list_indent(level: u8) -> u32 {
    (1120 + (if level >= 1 { level - 1 } else { 0int }) * 560) as u32
}

pub open spec fn list_format(level: u8) -> ParaFormat {
    ParaFormat {
        align: Some(Align::Both),
        indent: Some(Indent { start: Some(list_indent(level)), special: Some(SpecialIndent::Hanging(560)), start_chars: None }),
        spacing: Some(at_least(LINE_BODY)),
        ..plain_format()
    }
}

pub open spec fn caption_format() -> ParaFormat {
    ParaFormat {
        align: Some(Align::Center),
        keep_next: true,
        spacing: Some(Spacing { before: Some(120), after: Some(120), line: Some(LINE_BODY), rule: Some(LineRule::AtLeast) }),
        ..plain_format()
    }
}

pub open spec fn centered() -> ParaFormat {
    ParaFormat { align: Some(Align::Center), ..plain_format() }
}

pub fn chapter_format_exec() -> (f: ParaFormat)
    ensures
        f == chapter_format(),
{
    ParaFormat {
        style: Some(ParaStyle::Heading1),
        align: Some(Align::Center),
        spacing: None,
        indent: None,
        keep_next: false,
        page_break_before: false,
        bottom_border: false,
        right_tab: None,
    }
}

pub fn section_format_exec(st: ParaStyle) -> (f: ParaFormat)
    ensures
        f == section_format(st),
{
    ParaFormat {
        style: Some(st),
        align: Some(Align::Left),
        spacing: None,
        indent: Some(Indent { start: None, special: None, start_chars: Some(200) }),
        keep_next: false,
        page_break_before: false,
        bottom_border: false,
        right_tab: None,
    }
}

pub fn body_format_exec() -> (f: ParaFormat)
    ensures
        f == body_format(),
{
    ParaFormat {
        style: None,
        align: Some(Align::Both),
        spacing: Some(Spacing { before: None, after: None, line: Some(LINE_BODY), rule: Some(LineRule::AtLeast) }),
        indent: Some(Indent { start: Some(0), special: Some(SpecialIndent::FirstLine(560)), start_chars: None }),
        keep_next: false,
        page_break_before: false,
        bottom_border: false,
        right_tab: None,
    }
}

pub fn centered_exec() -> (f: ParaFormat)
    ensures
        f == centered(),
{
    ParaFormat {
        style: None,
        align: Some(Align::Center),
        spacing: None,
        indent: None,
        keep_next: false,
        page_break_before: false,
        bottom_border: false,
        right_tab: None,
    }
}

// ---------------------------------------------------------------------------
// Paragraphs of one text run
// ---------------------------------------------------------------------------

pub open spec fn chapter_para(t: Seq<char>) -> SPara {
    text_para(chapter_format(), t, head(SIZE_HEAD1))
}

pub open spec fn section_para(t: Seq<char>) -> SPara {
    text_para(section_format(ParaStyle::Heading2), t, head(SIZE_HEAD2))
}

pub open spec fn subsection_para(t: Seq<char>) -> SPara {
    text_para(section_format(ParaStyle::Heading3), t, head(SIZE_HEAD3))
}

pub open spec fn caption_para(t: Seq<char>) -> SPara {
    text_para(caption_format(), t, body_style())
}

/// Chapter-level heading (style `Heading1`, centred).
pub fn heading_chapter_paragraph(t: &str) -> (p: ParaSpec)
    ensures
        para_view(p) == chapter_para(t@),
{
    text_paragraph(chapter_format_exec(), t, head_style(SIZE_HEAD1))
}

/// Section heading (style `Heading2`).
pub fn heading_section_paragraph(t: &str) -> (p: ParaSpec)
    ensures
        para_view(p) == section_para(t@),
{
    text_paragraph(section_format_exec(ParaStyle::Heading2), t, head_style(SIZE_HEAD2))
}

/// Subsection heading (style `Heading3`).
pub fn heading_subsection_paragraph(t: &str) -> (p: ParaSpec)
    ensures
        para_view(p) == subsection_para(t@),
{
    text_paragraph(section_format_exec(ParaStyle::Heading3), t, head_style(SIZE_HEAD3))
}

/// Caption of a table or a figure.
pub fn caption_paragraph(t: &str) -> (p: ParaSpec)
    ensures
        para_view(p) == caption_para(t@),
{
    let f = ParaFormat {
        style: None,
        align: Some(Align::Center),
        spacing: Some(Spacing { before: Some(120), after: Some(120), line: Some(LINE_BODY), rule: Some(LineRule::AtLeast) }),
        indent: None,
        keep_next: true,
        page_break_before: false,
        bottom_border: false,
        right_tab: None,
    };
    text_paragraph(f, t, body_run_style())
}

/// A body paragraph with another alignment and one bold heading-font run.
pub fn aligned_heading_paragraph(a: Align, t: &str, font: Font, size: u32) -> (p: ParaSpec)
    ensures
        para_view(p) == text_para(body_aligned(a), t@, RunStyle { font, size, bold: true, italic: false }),
{
    let f = ParaFormat { align: Some(a), ..body_format_exec() };
    text_paragraph(f, t, RunStyle { font, size, bold: true, italic: false })
}

// ---------------------------------------------------------------------------
// Images
// ---------------------------------------------------------------------------

/// The text that stands for an image that could not be loaded.
pub open spec fn image_error_spec(alt: Seq<char>, url: Seq<char>) -> Seq<char> {
    "[图片加载失败："@ + (if is_blank(alt) { url } else { trim(alt) }) + "]"@
}

pub fn image_error_text(alt: &str, url: &str) -> (s: String)
    ensures
        s@ == image_error_spec(alt@, url@),
{
    let a = chars_of(alt);
    let mut s = String::new();
    push_str(&mut s, "[图片加载失败：");
    if is_blank_exec(&a) {
        push_str(&mut s, url);
    } else {
        let t = trim_chars(&a);
        push_str(&mut s, string_from_chars(&t).as_str());
    }
    push_str(&mut s, "]");
    s
}

pub open spec fn image_error_para(alt: Seq<char>, url: Seq<char>) -> SPara {
    text_para(centered(), image_error_spec(alt, url), body_style())
}

pub fn image_error_paragraph(alt: &str, url: &str) -> (p: ParaSpec)
    ensures
        para_view(p) == image_error_para(alt@, url@),
{
    let t = image_error_text(alt, url);
    text_paragraph(centered_exec(), t.as_str(), body_run_style())
}

// ---------------------------------------------------------------------------
// Inline runs
// ---------------------------------------------------------------------------

/// Body run formatting of an inline: italics in the Kai face, bold kept.
pub open spec fn text_style(i: SInline) -> RunStyle {
    RunStyle {
        font: if i is Italic { Font::ResearchKai } else { Font::ResearchBody },
        size: SIZE_BODY,
        bold: i is Bold,
        italic: i is Italic,
    }
}

/// The run of an inline in body text: an image is embedded (its alternative
/// text stands in when it cannot be loaded), anything else becomes its plain
/// text.
pub open spec fn inline_srun(i: SInline) -> SRun {
    match i {
        SInline::Image { alt, url, label } => SRun {
            content: SRunContent::Image { url, max_width: MAX_INLINE_IMAGE_WIDTH_EMU, fallback: image_error_spec(alt, url) },
            style: body_style(),
        },
        _ => text_srun(flat_inline(i), text_style(i)),
    }
}

pub open spec fn inline_sruns(s: Seq<SInline>) -> Seq<SRun> {
    s.map_values(|i: SInline| inline_srun(i))
}

/// The text of an inline and whether it is bold or italic.
pub fn inline_run_style(ip: &Inline) -> (r: (String, bool, bool))
    ensures
        r.0@ == flat_inline(inline_view(*ip)),
        r.1 == inline_view(*ip) is Bold,
        r.2 == inline_view(*ip) is Italic,
{
    let t = inline_text(ip);
    match ip {
        Inline::Bold(_) => (t, true, false),
        Inline::Italic(_) => (t, false, true),
        _ => (t, false, false),
    }
}

fn inline_run(ip: &Inline) -> (r: RunSpec)
    ensures
        run_view(r) == inline_srun(inline_view(*ip)),
{
    match ip {
        Inline::Image { alt, url, .. } => RunSpec {
            content: RunContent::Image {
                url: url.clone(),
                max_width: MAX_INLINE_IMAGE_WIDTH_EMU,
                fallback: image_error_text(alt.as_str(), url.as_str()),
            },
            style: body_run_style(),
        },
        _ => {
            let (t, bold, italic) = inline_run_style(ip);
            let font = if italic { Font::ResearchKai } else { Font::ResearchBody };
            text_run(t, RunStyle { font, size: SIZE_BODY, bold, italic })
        },
    }
}

/// Appends the runs of the inlines.
pub fn add_inlines(p: &mut ParaSpec, inlines: &[Inline])
    ensures
        para_view(*final(p)) == (SPara { format: old(p).format, runs: para_view(*old(p)).runs + inline_sruns(inlines_view(inlines@)) }),
{
    let ghost iv = inlines_view(inlines@);
    let ghost r0 = para_view(*p).runs;
    proof {
        lemma_inlines_view_len(inlines@);
    }
    let mut i: usize = 0;
    while i < inlines.len()
        invariant
            i <= inlines@.len(),
            iv == inlines_view(inlines@),
            iv.len() == inlines@.len(),
            forall|k: int| 0 <= k < inlines@.len() ==> #[trigger] iv[k] == inline_view(inlines@[k]),
            p.format == old(p).format,
            para_view(*p).runs == r0 + inline_sruns(iv.take(i as int)),
        decreases inlines@.len() - i,
    {
        let r = inline_run(&inlines[i]);
        push_run(p, r);
        proof {
            assert(inline_sruns(iv.take(i + 1)) =~= inline_sruns(iv.take(i as int)).push(inline_srun(iv[i as int])));
        }
        i += 1;
    }
    assert(iv.take(inlines@.len() as int) =~= iv);
}

pub open spec fn body_para(inl: Seq<SInline>) -> SPara {
    SPara { format: body_format(), runs: inline_sruns(inl) }
}

pub fn body_paragraph(inlines: &[Inline]) -> (p: ParaSpec)
    ensures
        para_view(p) == body_para(inlines_view(inlines@)),
{
    let mut p = empty_paragraph(body_format_exec());
    add_inlines(&mut p, inlines);
    assert(Seq::<SRun>::empty() + inline_sruns(inlines_view(inlines@)) =~= inline_sruns(inlines_view(inlines@)));
    p
}

// ---------------------------------------------------------------------------
// Lists
// ---------------------------------------------------------------------------

pub open spec fn paren_count(count: nat) -> Seq<char> {
    seq!['('] + decimal(count) + seq![')', ' ']
}

pub open spec fn roman_lower_char(c: char) -> char {
    if c == 'I' {
        'i'
    } else if c == 'V' {
        'v'
    } else if c == 'X' {
        'x'
    } else if c == 'L' {
        'l'
    } else if c == 'C' {
        'c'
    } else if c == 'D' {
        'd'
    } else if c == 'M' {
        'm'
    } else {
        c
    }
}

/// A Roman numeral in lower case.
pub open spec fn roman_lower(n: nat) -> Seq<char> {
    roman(n).map_values(|c: char| roman_lower_char(c))
}

/// List prefix of the research style for `level` and the item's 1-based
/// `count`: `⑴ ` → `① ` → `(A) ` → `(a) ` → `I. ` → `i. `; past twenty the
/// first two levels read `(21) `; other levels have none.
pub open spec fn research_prefix(level: u8, count: nat) -> Seq<char> {
    if level == 1 {
        if 1 <= count <= 20 { seq![parenthesized((count - 1) as nat), ' '] } else { paren_count(count) }
    } else if level == 2 {
        if 1 <= count <= 20 { seq![circled((count - 1) as nat), ' '] } else { paren_count(count) }
    } else if level == 3 {
        seq!['('] + column_letters(count) + seq![')', ' ']
    } else if level == 4 {
        seq!['(', small_letter(((count - 1) % 26) as nat), ')', ' ']
    } else if level == 5 {
        roman(count) + seq!['.', ' ']
    } else if level == 6 {
        roman_lower(count) + seq!['.', ' ']
    } else {
        Seq::empty()
    }
}

fn push_paren_count(s: &mut String, count: usize)
    ensures
        final(s)@ == old(s)@ + paren_count(count as nat),
{
    let ghost s0 = s@;
    push_char(s, '(');
    push_decimal(s, count);
    push_char(s, ')');
    push_char(s, ' ');
    assert(s@ =~= s0 + paren_count(count as nat));
}

fn push_roman_lower(s: &mut String, count: usize)
    ensures
        final(s)@ == old(s)@ + roman_lower(count as nat),
{
    let mut upper = String::new();
    push_roman(&mut upper, count);
    assert(upper@ =~= roman(count as nat));
    let u = chars_of(upper.as_str());
    let ghost s0 = s@;
    let mut i: usize = 0;
    while i < u.len()
        invariant
            i <= u@.len(),
            u@ == roman(count as nat),
            s@ == s0 + u@.take(i as int).map_values(|c: char| roman_lower_char(c)),
        decreases u@.len() - i,
    {
        let c = u[i];
        let l = if c == 'I' {
            'i'
        } else if c == 'V' {
            'v'
        } else if c == 'X' {
            'x'
        } else if c == 'L' {
            'l'
        } else if c == 'C' {
            'c'
        } else if c == 'D' {
            'd'
        } else if c == 'M' {
            'm'
        } else {
            c
        };
        push_char(s, l);
        assert(u@.take(i + 1).map_values(|c: char| roman_lower_char(c))
            =~= u@.take(i as int).map_values(|c: char| roman_lower_char(c)).push(l));
        i += 1;
    }
    assert(u@.take(u@.len() as int) =~= u@);
}

/// The research-style prefix (see [`research_prefix`]).
pub fn research_prefix_string(level: u8, count: usize) -> (s: String)
    requires
        1 <= level <= 6 ==> count >= 1,
    ensures
        s@ == research_prefix(level, count as nat),
{
    let mut s = String::new();
    if level == 1 {
        if 1 <= count && count <= 20 {
            push_char(&mut s, parenthesized_exec(count - 1));
            push_char(&mut s, ' ');
        } else {
            push_paren_count(&mut s, count);
        }
    } else if level == 2 {
        if 1 <= count && count <= 20 {
            push_char(&mut s, circled_exec(count - 1));
            push_char(&mut s, ' ');
        } else {
            push_paren_count(&mut s, count);
        }
    } else if level == 3 {
        push_char(&mut s, '(');
        push_column_letters(&mut s, count);
        push_char(&mut s, ')');
        push_char(&mut s, ' ');
    } else if level == 4 {
        push_char(&mut s, '(');
        push_char(&mut s, ((97 + ((count - 1) % 26)) as u8) as char);
        push_char(&mut s, ')');
        push_char(&mut s, ' ');
    } else if level == 5 {
        push_roman(&mut s, count);
        push_char(&mut s, '.');
        push_char(&mut s, ' ');
    } else if level == 6 {
        push_roman_lower(&mut s, count);
        push_char(&mut s, '.');
        push_char(&mut s, ' ');
    }
    assert(s@ =~= research_prefix(level, count as nat));
    s
}

/// A list item: the prefix in body font, then the inline runs.
pub open spec fn list_para(level: u8, prefix: Seq<char>, content: Seq<SInline>) -> SPara {
    SPara { format: list_format(level), runs: seq![text_srun(prefix, body_style())] + inline_sruns(content) }
}

pub fn list_paragraph(level: u8, prefix: &str, content: &[Inline]) -> (p: ParaSpec)
    ensures
        para_view(p) == list_para(level, prefix@, inlines_view(content@)),
{
    let step: u32 = if level >= 1 { (level - 1) as u32 } else { 0 };
    let f = ParaFormat {
        style: None,
        align: Some(Align::Both),
        spacing: Some(Spacing { before: None, after: None, line: Some(LINE_BODY), rule: Some(LineRule::AtLeast) }),
        indent: Some(Indent { start: Some(1120 + step * 560), special: Some(SpecialIndent::Hanging(560)), start_chars: None }),
        keep_next: false,
        page_break_before: false,
        bottom_border: false,
        right_tab: None,
    };
    let mut p = text_paragraph(f, prefix, body_run_style());
    add_inlines(&mut p, content);
    p
}

// ---------------------------------------------------------------------------
// Code blocks
// ---------------------------------------------------------------------------

/// One paragraph per non-empty line.
pub open spec fn code_items(ls: Seq<Seq<char>>) -> Seq<SItem>
    decreases ls.len(),
{
    if ls.len() == 0 {
        Seq::empty()
    } else {
        let rest = code_items(ls.drop_last());
        if ls.last().len() == 0 {
            rest
        } else {
            rest.push(SItem::Paragraph(text_para(code_format(), ls.last(), body_style())))
        }
    }
}

pub fn add_code_block(out: &mut Vec<DocItem>, content: &str)
    ensures
        items_view(final(out)@) == items_view(old(out)@) + code_items(lines(content@)),
{
    let c = chars_of(content);
    let ls = lines_of(&c);
    let ghost lv = lines(content@);
    let ghost o0 = items_view(out@);
    let f = ParaFormat { indent: Some(Indent { start: Some(560), special: None, start_chars: None }), ..body_format_exec() };
    let mut i: usize = 0;
    while i < ls.len()
        invariant
            i <= ls@.len(),
            ls@.len() == lv.len(),
            forall|k: int| 0 <= k < ls@.len() ==> #[trigger] ls@[k]@ == lv[k],
            f == code_format(),
            items_view(out@) == o0 + code_items(lv.take(i as int)),
        decreases ls@.len() - i,
    {
        let line = &ls[i];
        proof {
            assert(lv.take(i + 1).drop_last() =~= lv.take(i as int));
            assert(lv.take(i + 1).last() == line@);
        }
        if line.len() > 0 {
            let s = string_from_chars(line);
            push_paragraph(out, text_paragraph(f, s.as_str(), body_run_style()));
        }
        i += 1;
    }
    assert(lv.take(ls@.len() as int) =~= lv);
}

// ---------------------------------------------------------------------------
// Tables
// ---------------------------------------------------------------------------

/// The cell text at column `c`, empty past the row's end.
pub open spec fn cell_text(row: Seq<Seq<char>>, c: int) -> Seq<char> {
    if c < row.len() { row[c] } else { Seq::empty() }
}

/// A run in a table cell: the header row in bold heading font, other rows
/// keep their bold and italics.
pub open spec fn cell_srun(i: SInline, header: bool) -> SRun {
    text_srun(flat_inline(i), if header { head(SIZE_BODY) } else { text_style(i) })
}

pub open spec fn cell_para(t: Seq<char>, header: bool) -> SPara {
    SPara { format: centered(), runs: parse_spec(t).map_values(|i: SInline| cell_srun(i, header)) }
}

/// The greatest row length.
pub open spec fn max_len(rows: Seq<Seq<Seq<char>>>) -> nat
    decreases rows.len(),
{
    if rows.len() == 0 {
        0
    } else {
        let m = max_len(rows.drop_last());
        if rows.last().len() > m { rows.last().len() } else { m }
    }
}

pub open spec fn table_grid(rows: Seq<Seq<Seq<char>>>, n: nat) -> Seq<Seq<SPara>> {
    Seq::new(rows.len(), |r: int| Seq::new(n, |c: int| cell_para(cell_text(rows[r], c), r == 0)))
}

/// A table with as many columns as its longest row; nothing for a table
/// without rows or cells.
pub open spec fn table_items(rows: Seq<Seq<Seq<char>>>) -> Seq<SItem> {
    if rows.len() == 0 || max_len(rows) == 0 {
        Seq::empty()
    } else {
        seq![SItem::Table(table_grid(rows, max_len(rows)))]
    }
}

pub fn max_row_len(rows: &Vec<Vec<String>>) -> (m: usize)
    ensures
        m == max_len(table_view(rows@)),
{
    let ghost tv = table_view(rows@);
    let mut m: usize = 0;
    let mut i: usize = 0;
    while i < rows.len()
        invariant
            i <= rows@.len(),
            tv == table_view(rows@),
            m == max_len(tv.take(i as int)),
        decreases rows@.len() - i,
    {
        proof {
            assert(tv.take(i + 1).drop_last() =~= tv.take(i as int));
            assert(tv.take(i + 1).last() == strings_view(rows@[i as int]@));
        }
        if rows[i].len() > m {
            m = rows[i].len();
        }
        i += 1;
    }
    assert(tv.take(rows@.len() as int) =~= tv);
    m
}

fn cell_paragraph(t: &str, header: bool) -> (p: ParaSpec)
    ensures
        para_view(p) == cell_para(t@, header),
{
    let inl = parse(t);
    let ghost iv = inlines_view(inl@);
    proof {
        lemma_inlines_view_len(inl@);
    }
    let mut p = empty_paragraph(centered_exec());
    let mut i: usize = 0;
    while i < inl.len()
        invariant
            i <= inl@.len(),
            iv == parse_spec(t@),
            iv == inlines_view(inl@),
            iv.len() == inl@.len(),
            forall|k: int| 0 <= k < inl@.len() ==> #[trigger] iv[k] == inline_view(inl@[k]),
            p.format == centered(),
            para_view(p).runs == iv.take(i as int).map_values(|x: SInline| cell_srun(x, header)),
        decreases inl@.len() - i,
    {
        let (t, bold, italic) = inline_run_style(&inl[i]);
        let style = if header {
            head_style(SIZE_BODY)
        } else {
            let font = if italic { Font::ResearchKai } else { Font::ResearchBody };
            RunStyle { font, size: SIZE_BODY, bold, italic }
        };
        push_run(&mut p, text_run(t, style));
        assert(iv.take(i + 1).map_values(|x: SInline| cell_srun(x, header))
            =~= iv.take(i as int).map_values(|x: SInline| cell_srun(x, header)).push(cell_srun(iv[i as int], header)));
        i += 1;
    }
    assert(iv.take(inl@.len() as int) =~= iv);
    p
}

pub fn add_table(out: &mut Vec<DocItem>, rows: &Vec<Vec<String>>)
    ensures
        items_view(final(out)@) == items_view(old(out)@) + table_items(table_view(rows@)),
{
    let ghost tv = table_view(rows@);
    if rows.len() == 0 {
        assert(items_view(out@) + table_items(tv) =~= items_view(out@));
        return;
    }
    let n = max_row_len(rows);
    if n == 0 {
        assert(items_view(out@) + table_items(tv) =~= items_view(out@));
        return;
    }
    let mut grid: Vec<Vec<ParaSpec>> = Vec::new();
    let mut r: usize = 0;
    while r < rows.len()
        invariant
            r <= rows@.len(),
            tv == table_view(rows@),
            grid@.len() == r,
            forall|k: int| 0 <= k < r ==> cells_view(#[trigger] grid@[k]@) == table_grid(tv, n as nat)[k],
        decreases rows@.len() - r,
    {
        let row = &rows[r];
        let mut cells: Vec<ParaSpec> = Vec::new();
        let mut c: usize = 0;
        while c < n
            invariant
                c <= n,
                r < rows@.len(),
                row == rows@[r as int],
                tv == table_view(rows@),
                cells@.len() == c,
                forall|k: int| 0 <= k < c ==> para_view(#[trigger] cells@[k]) == cell_para(cell_text(tv[r as int], k), r == 0),
            decreases n - c,
        {
            let p = if c < row.len() {
                cell_paragraph(row[c].as_str(), r == 0)
            } else {
                cell_paragraph("", r == 0)
            };
            proof {
                assert(tv[r as int] == strings_view(row@));
                if c < row@.len() {
                    assert(cell_text(tv[r as int], c as int) == row@[c as int]@);
                } else {
                    assert(cell_text(tv[r as int], c as int) == Seq::<char>::empty());
                    assert(""@ == Seq::<char>::empty()) by {
                        reveal_strlit("");
                    }
                }
            }
            cells.push(p);
            c += 1;
        }
        assert(cells_view(cells@) =~= table_grid(tv, n as nat)[r as int]);
        grid.push(cells);
        r += 1;
    }
    assert(grid_view(grid@) =~= table_grid(tv, n as nat));
    push_item(out, DocItem::Table(grid));
}

} // verus!
