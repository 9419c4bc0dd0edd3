//! The official-document style as a Word document: headings numbered
//! `一、` → `（一）` → `1.` → `(1)`, fixed 29 pt line spacing, list prefixes
//! `①` → `⑴` → `a.` → `I.` → `(A)` → `1)`, tables and figures numbered `表 N` /
//! `图 N`.

use vstd::prelude::*;
use crate::common::ast::{Block, Inline, MarkerKind, SBlock, SInline, block_view, blocks_view, inline_view, inlines_view, lemma_inlines_view_len, table_view};
use crate::common::inline::{flat_inline, inline_text, parse, parse_spec};
use crate::common::numbering::{chinese_numeral, list_prefix, number_to_chinese, official_list_prefix};
use crate::docx_plan::{
    Align, DocItem, Font, Indent, LineRule, ListState, ParaFormat, ParaSpec, RunContent, RunSpec, RunStyle,
    SItem, SPara, SRun, SRunContent, Spacing, SpecialIndent, cells_view, empty_paragraph, grid_view,
    items_view, lemma_list_advance, list_advance, list_bounded, list_count, list_reset, para_view, plain_format,
    push_item, push_paragraph, push_run, run_view, text_para, text_paragraph, text_run, text_srun,
};
use crate::docx_research::blocks::{cell_text, image_error_spec, image_error_text, max_len, max_row_len};
use crate::docx_research::emitter::p;
use crate::tex_research_emitter::{sole_image, sole_image_index};
use crate::text::{
    chars_eq, chars_of, decimal, is_blank, is_blank_exec, lines, lines_of, push_char, push_decimal, push_str,
    string_from_chars, trim, trim_chars,
};

verus! {

pub const SIZE_TITLE: u32 = 44;
pub const SIZE_BODY: u32 = 32;
pub const SIZE_TABLE: u32 = 28;
pub const SIZE_FOOTER: u32 = 28;
pub const LINE_BODY: u32 = 580;
pub const INDENT_FIRST_LINE: u32 = 640;
pub const MAX_IMAGE_WIDTH_EMU: u32 = 5_600_000;
pub const MAX_INLINE_IMAGE_WIDTH_EMU: u32 = 1_800_000;

// ---------------------------------------------------------------------------
// Paragraph shapes
// ---------------------------------------------------------------------------

/// Fixed 29 pt lines, first line indented by two characters.
pub open spec fn base_format(a: Align) -> ParaFormat {
    ParaFormat {
        align: Some(a),
        spacing: Some(Spacing { before: Some(0), after: Some(0), line: Some(LINE_BODY), rule: Some(LineRule::Exact) }),
        indent: Some(Indent { start: None, special: Some(SpecialIndent::FirstLine(INDENT_FIRST_LINE)), start_chars: None }),
        ..plain_format()
    }
}

pub fn base_format_exec(a: Align) -> (f: ParaFormat)
    ensures
        f == base_format(a),
{
    ParaFormat {
        style: None,
        align: Some(a),
        spacing: Some(Spacing { before: Some(0), after: Some(0), line: Some(LINE_BODY), rule: Some(LineRule::Exact) }),
        indent: Some(Indent { start: None, special: Some(SpecialIndent::FirstLine(INDENT_FIRST_LINE)), start_chars: None }),
        keep_next: false,
        page_break_before: false,
        bottom_border: false,
        right_tab: None,
    }
}

/// The run of an inline in `font` at `size`: bold when the inline is bold or
/// `force_bold`, italic when it is italic; with `images`, an image is
/// embedded (the failure text in the same font stands in when it cannot be
/// loaded), without, it reads as its alternative text.
pub open spec fn official_srun(i: SInline, font: Font, size: u32, force_bold: bool, images: bool) -> SRun {
    match i {
        SInline::Image { alt, url, label } if images => SRun {
            content: SRunContent::Image { url, max_width: MAX_INLINE_IMAGE_WIDTH_EMU, fallback: image_error_spec(alt, url) },
            style: RunStyle { font, size, bold: false, italic: false },
        },
        _ => text_srun(flat_inline(i), RunStyle { font, size, bold: i is Bold || force_bold, italic: i is Italic }),
    }
}

pub open spec fn official_sruns(s: Seq<SInline>, font: Font, size: u32, force_bold: bool, images: bool) -> Seq<SRun> {
    s.map_values(|i: SInline| official_srun(i, font, size, force_bold, images))
}

fn official_run(ip: &Inline, font: Font, size: u32, force_bold: bool, images: bool) -> (r: RunSpec)
    ensures
        run_view(r) == official_srun(inline_view(*ip), font, size, force_bold, images),
{
    if images {
        match ip {
            Inline::Image { alt, url, .. } => {
                return RunSpec {
                    content: RunContent::Image {
                        url: url.clone(),
                        max_width: MAX_INLINE_IMAGE_WIDTH_EMU,
                        fallback: image_error_text(alt.as_str(), url.as_str()),
                    },
                    style: RunStyle { font, size, bold: false, italic: false },
                };
            },
            _ => {},
        }
    }
    let t = inline_text(ip);
    let bold = match ip {
        Inline::Bold(_) => true,
        _ => force_bold,
    };
    let italic = match ip {
        Inline::Italic(_) => true,
        _ => false,
    };
    text_run(t, RunStyle { font, size, bold, italic })
}

/// Appends the runs of the inlines (see [`official_srun`]).
pub fn add_inlines(p: &mut ParaSpec, inlines: &[Inline], font: Font, size: u32, force_bold: bool, images: bool)
    ensures
        para_view(*final(p)) == (SPara {
            format: old(p).format,
            runs: para_view(*old(p)).runs + official_sruns(inlines_view(inlines@), font, size, force_bold, images),
        }),
{
    let ghost iv = inlines_view(inlines@);
    let ghost r0 = para_view(*p).runs;
    proof {
        lemma_inlines_view_len(inlines@);
    }
    let mut i: usize = 0;
    while i < inlines.len()
        invariant
            i <= inlines@.len(),
            iv == inlines_view(inlines@),
            iv.len() == inlines@.len(),
            forall|k: int| 0 <= k < inlines@.len() ==> #[trigger] iv[k] == inline_view(inlines@[k]),
            p.format == old(p).format,
            para_view(*p).runs == r0 + official_sruns(iv.take(i as int), font, size, force_bold, images),
        decreases inlines@.len() - i,
    {
        let r = official_run(&inlines[i], font, size, force_bold, images);
        push_run(p, r);
        proof {
            assert(official_sruns(iv.take(i + 1), font, size, force_bold, images)
                =~= official_sruns(iv.take(i as int), font, size, force_bold, images).push(official_srun(iv[i as int], font, size, force_bold, images)));
        }
        i += 1;
    }
    assert(iv.take(inlines@.len() as int) =~= iv);
}

/// A heading line: its text's inline formatting in `font` at `size`.
pub open spec fn heading_para(text: Seq<char>, font: Font, size: u32, a: Align, force_bold: bool) -> SPara {
    SPara { format: base_format(a), runs: official_sruns(parse_spec(text), font, size, force_bold, false) }
}

pub fn heading_paragraph(text: &str, font: Font, size: u32, a: Align, force_bold: bool) -> (p: ParaSpec)
    ensures
        para_view(p) == heading_para(text@, font, size, a, force_bold),
{
    let mut p = empty_paragraph(base_format_exec(a));
    let inl = parse(text);
    add_inlines(&mut p, inl.as_slice(), font, size, force_bold, false);
    assert(para_view(p).runs =~= official_sruns(parse_spec(text@), font, size, force_bold, false));
    p
}

pub open spec fn body_para(inl: Seq<SInline>) -> SPara {
    SPara { format: base_format(Align::Both), runs: official_sruns(inl, Font::OfficialBody, SIZE_BODY, false, true) }
}

pub fn body_paragraph(inlines: &[Inline]) -> (p: ParaSpec)
    ensures
        para_view(p) == body_para(inlines_view(inlines@)),
{
    let mut p = empty_paragraph(base_format_exec(Align::Both));
    add_inlines(&mut p, inlines, Font::OfficialBody, SIZE_BODY, false, true);
    assert(para_view(p).runs =~= official_sruns(inlines_view(inlines@), Font::OfficialBody, SIZE_BODY, false, true));
    p
}

pub open spec fn body_style() -> RunStyle {
    RunStyle { font: Font::OfficialBody, size: SIZE_BODY, bold: false, italic: false }
}

/// A list item: the prefix, then the inlines, as body text.
pub open spec fn list_para(prefix: Seq<char>, content: Seq<SInline>) -> SPara {
    SPara {
        format: base_format(Align::Both),
        runs: seq![text_srun(prefix, body_style())] + official_sruns(content, Font::OfficialBody, SIZE_BODY, false, true),
    }
}

pub fn list_paragraph(prefix: &str, content: &[Inline]) -> (p: ParaSpec)
    ensures
        para_view(p) == list_para(prefix@, inlines_view(content@)),
{
    let mut p = text_paragraph(base_format_exec(Align::Both), prefix, RunStyle { font: Font::OfficialBody, size: SIZE_BODY, bold: false, italic: false });
    add_inlines(&mut p, content, Font::OfficialBody, SIZE_BODY, false, true);
    p
}

pub open spec fn caption_format() -> ParaFormat {
    ParaFormat {
        align: Some(Align::Center),
        keep_next: true,
        spacing: Some(Spacing { before: Some(80), after: Some(80), line: Some(LINE_BODY), rule: Some(LineRule::Exact) }),
        ..plain_format()
    }
}

pub open spec fn caption_para(t: Seq<char>) -> SPara {
    text_para(caption_format(), t, RunStyle { font: Font::OfficialBody, size: SIZE_TABLE, bold: false, italic: false })
}

pub fn caption_paragraph(t: &str) -> (p: ParaSpec)
    ensures
        para_view(p) == caption_para(t@),
{
    let f = ParaFormat {
        style: None,
        align: Some(Align::Center),
        spacing: Some(Spacing { before: Some(80), after: Some(80), line: Some(LINE_BODY), rule: Some(LineRule::Exact) }),
        indent: None,
        keep_next: true,
        page_break_before: false,
        bottom_border: false,
        right_tab: None,
    };
    text_paragraph(f, t, RunStyle { font: Font::OfficialBody, size: SIZE_TABLE, bold: false, italic: false })
}

pub open spec fn image_error_para(alt: Seq<char>, url: Seq<char>) -> SPara {
    text_para(ParaFormat { align: Some(Align::Center), ..plain_format() }, image_error_spec(alt, url), body_style())
}

pub fn image_error_paragraph(alt: &str, url: &str) -> (p: ParaSpec)
    ensures
        para_view(p) == image_error_para(alt@, url@),
{
    let t = image_error_text(alt, url);
    let f = ParaFormat {
        style: None,
        align: Some(Align::Center),
        spacing: None,
        indent: None,
        keep_next: false,
        page_break_before: false,
        bottom_border: false,
        right_tab: None,
    };
    text_paragraph(f, t.as_str(), RunStyle { font: Font::OfficialBody, size: SIZE_BODY, bold: false, italic: false })
}

/// One body paragraph per non-empty code line.
pub open spec fn code_items(ls: Seq<Seq<char>>) -> Seq<SItem>
    decreases ls.len(),
{
    if ls.len() == 0 {
        Seq::empty()
    } else {
        let rest = code_items(ls.drop_last());
        if ls.last().len() == 0 {
            rest
        } else {
            rest.push(p(text_para(base_format(Align::Both), ls.last(), body_style())))
        }
    }
}

pub fn add_code_block(out: &mut Vec<DocItem>, content: &str)
    ensures
        items_view(final(out)@) == items_view(old(out)@) + code_items(lines(content@)),
{
    let c = chars_of(content);
    let ls = lines_of(&c);
    let ghost lv = lines(content@);
    let ghost o0 = items_view(out@);
    let mut i: usize = 0;
    while i < ls.len()
        invariant
            i <= ls@.len(),
            ls@.len() == lv.len(),
            forall|k: int| 0 <= k < ls@.len() ==> #[trigger] ls@[k]@ == lv[k],
            items_view(out@) == o0 + code_items(lv.take(i as int)),
        decreases ls@.len() - i,
    {
        let line = &ls[i];
        proof {
            assert(lv.take(i + 1).drop_last() =~= lv.take(i as int));
            assert(lv.take(i + 1).last() == line@);
        }
        if line.len() > 0 {
            let s = string_from_chars(line);
            let para = text_paragraph(base_format_exec(Align::Both), s.as_str(), RunStyle { font: Font::OfficialBody, size: SIZE_BODY, bold: false, italic: false });
            push_paragraph(out, para);
        }
        i += 1;
    }
    assert(lv.take(ls@.len() as int) =~= lv);
}

/// A table cell: the header row centred in the heading font, other rows
/// left aligned in the body font, all at the table size.
pub open spec fn cell_para(t: Seq<char>, header: bool) -> SPara {
    SPara {
        format: ParaFormat { align: Some(if header { Align::Center } else { Align::Left }), ..plain_format() },
        runs: official_sruns(parse_spec(t), if header { Font::OfficialHead } else { Font::OfficialBody }, SIZE_TABLE, false, false),
    }
}

pub open spec fn table_grid(rows: Seq<Seq<Seq<char>>>, n: nat) -> Seq<Seq<SPara>> {
    Seq::new(rows.len(), |r: int| Seq::new(n, |c: int| cell_para(cell_text(rows[r], c), r == 0)))
}

pub open spec fn table_items(rows: Seq<Seq<Seq<char>>>) -> Seq<SItem> {
    if rows.len() == 0 || max_len(rows) == 0 {
        Seq::empty()
    } else {
        seq![SItem::Table(table_grid(rows, max_len(rows)))]
    }
}

fn cell_paragraph(t: &str, header: bool) -> (p: ParaSpec)
    ensures
        para_view(p) == cell_para(t@, header),
{
    let f = ParaFormat {
        style: None,
        align: Some(if header { Align::Center } else { Align::Left }),
        spacing: None,
        indent: None,
        keep_next: false,
        page_break_before: false,
        bottom_border: false,
        right_tab: None,
    };
    let mut p = empty_paragraph(f);
    let inl = parse(t);
    let font = if header { Font::OfficialHead } else { Font::OfficialBody };
    add_inlines(&mut p, inl.as_slice(), font, SIZE_TABLE, false, false);
    assert(para_view(p).runs =~= cell_para(t@, header).runs);
    p
}

pub fn add_table(out: &mut Vec<DocItem>, rows: &Vec<Vec<String>>)
    ensures
        items_view(final(out)@) == items_view(old(out)@) + table_items(table_view(rows@)),
{
    let ghost tv = table_view(rows@);
    if rows.len() == 0 {
        assert(items_view(out@) + table_items(tv) =~= items_view(out@));
        return;
    }
    let n = max_row_len(rows);
    if n == 0 {
        assert(items_view(out@) + table_items(tv) =~= items_view(out@));
        return;
    }
    let mut grid: Vec<Vec<ParaSpec>> = Vec::new();
    let mut r: usize = 0;
    while r < rows.len()
        invariant
            r <= rows@.len(),
            tv == table_view(rows@),
            grid@.len() == r,
            forall|k: int| 0 <= k < r ==> cells_view(#[trigger] grid@[k]@) == table_grid(tv, n as nat)[k],
        decreases rows@.len() - r,
    {
        let row = &rows[r];
        let mut cells: Vec<ParaSpec> = Vec::new();
        let mut c: usize = 0;
        while c < n
            invariant
                c <= n,
                r < rows@.len(),
                row == rows@[r as int],
                tv == table_view(rows@),
                cells@.len() == c,
                forall|k: int| 0 <= k < c ==> para_view(#[trigger] cells@[k]) == cell_para(cell_text(tv[r as int], k), r == 0),
            decreases n - c,
        {
            let para = if c < row.len() {
                cell_paragraph(row[c].as_str(), r == 0)
            } else {
                cell_paragraph("", r == 0)
            };
            proof {
                if c < row@.len() {
                    assert(cell_text(tv[r as int], c as int) == row@[c as int]@);
                } else {
                    assert(""@ == Seq::<char>::empty()) by {
                        reveal_strlit("");
                    }
                }
            }
            cells.push(para);
            c += 1;
        }
        assert(cells_view(cells@) =~= table_grid(tv, n as nat)[r as int]);
        grid.push(cells);
        r += 1;
    }
    assert(grid_view(grid@) =~= table_grid(tv, n as nat));
    push_item(out, DocItem::Table(grid));
}

// ---------------------------------------------------------------------------
// The emitter
// ---------------------------------------------------------------------------

/// A section title written by its marker, so that the same heading right
/// after it is left out.
#[derive(Clone, Copy, PartialEq, Eq, Structural, Debug)]
pub enum Suppressed {
    /// 摘要
    Abstract,
    /// 版本变更记录
    Changelog,
    /// 参考文献
    Reference,
}

pub open spec fn suppressed_text(s: Suppressed) -> Seq<char> {
    match s {
        Suppressed::Abstract => "摘要"@,
        Suppressed::Changelog => "版本变更记录"@,
        Suppressed::Reference => "参考文献"@,
    }
}

#[derive(Clone, Copy, Debug)]
pub struct OfficialEmitter {
    pub h2: usize,
    pub h3: usize,
    pub h4: usize,
    pub h5: usize,
    pub list: ListState,
    pub reference_mode: bool,
    pub reference_counter: usize,
    pub suppress_next_heading: Option<Suppressed>,
    pub table_counter: usize,
    pub figure_counter: usize,
}

pub open spec fn initial_official() -> OfficialEmitter {
    OfficialEmitter {
        h2: 0,
        h3: 0,
        h4: 0,
        h5: 0,
        list: list_reset(),
        reference_mode: false,
        reference_counter: 0,
        suppress_next_heading: None,
        table_counter: 0,
        figure_counter: 0,
    }
}

pub open spec fn official_bounded(e: OfficialEmitter, n: int) -> bool {
    &&& e.h2 <= n
    &&& e.h3 <= n
    &&& e.h4 <= n
    &&& e.h5 <= n
    &&& e.reference_counter <= n
    &&& e.table_counter <= n
    &&& e.figure_counter <= n
    &&& list_bounded(e.list, n)
}

/// A heading: level 1 is the centred title followed by an empty line (and
/// restarts the numbering), levels 2..=5 are numbered `一、`, `（一）`, `1.`,
/// `(1)` (the last in bold), deeper levels are left out.
pub open spec fn heading_spec(e: OfficialEmitter, level: u8, text: Seq<char>) -> (OfficialEmitter, Seq<SItem>) {
    if level == 1 {
        (
            OfficialEmitter { h2: 0, h3: 0, h4: 0, h5: 0, ..e },
            seq![p(heading_para(text, Font::OfficialTitle, SIZE_TITLE, Align::Center, false)), p(SPara { format: plain_format(), runs: Seq::empty() })],
        )
    } else if level == 2 {
        let n = (e.h2 + 1) as usize;
        (
            OfficialEmitter { h2: n, h3: 0, h4: 0, h5: 0, ..e },
            seq![p(heading_para(chinese_numeral(n as nat) + "、"@ + text, Font::OfficialHead, SIZE_BODY, Align::Left, false))],
        )
    } else if level == 3 {
        let n = (e.h3 + 1) as usize;
        (
            OfficialEmitter { h3: n, h4: 0, h5: 0, ..e },
            seq![p(heading_para("（"@ + chinese_numeral(n as nat) + "）"@ + text, Font::OfficialKai, SIZE_BODY, Align::Left, false))],
        )
    } else if level == 4 {
        let n = (e.h4 + 1) as usize;
        (
            OfficialEmitter { h4: n, h5: 0, ..e },
            seq![p(heading_para(decimal(n as nat) + seq!['.'] + text, Font::OfficialBody, SIZE_BODY, Align::Left, false))],
        )
    } else if level == 5 {
        let n = (e.h5 + 1) as usize;
        (
            OfficialEmitter { h5: n, ..e },
            seq![p(heading_para(seq!['('] + decimal(n as nat) + seq![')'] + text, Font::OfficialBody, SIZE_BODY, Align::Left, true))],
        )
    } else {
        (e, Seq::empty())
    }
}

/// A section marker: the abstract, revision history and references write
/// their centred title (and the same heading right after is left out); the
/// references restart entry numbering; the body and appendix restart heading
/// numbering.
pub open spec fn marker_spec(e: OfficialEmitter, k: MarkerKind) -> (OfficialEmitter, Seq<SItem>) {
    let rm = k == MarkerKind::Reference;
    let e1 = OfficialEmitter { reference_mode: rm, reference_counter: if rm { 0 } else { e.reference_counter }, ..e };
    let title = |t: Seq<char>| seq![p(heading_para(t, Font::OfficialTitle, SIZE_TITLE, Align::Center, false))];
    match k {
        MarkerKind::Abstract => (OfficialEmitter { suppress_next_heading: Some(Suppressed::Abstract), ..e1 }, title("摘要"@)),
        MarkerKind::Changelog => (OfficialEmitter { suppress_next_heading: Some(Suppressed::Changelog), ..e1 }, title("版本变更记录"@)),
        MarkerKind::Reference => (OfficialEmitter { suppress_next_heading: Some(Suppressed::Reference), ..e1 }, title("参考文献"@)),
        _ => (OfficialEmitter { h2: 0, h3: 0, h4: 0, h5: 0, ..e1 }, Seq::empty()),
    }
}

pub open spec fn reset_list(e: OfficialEmitter) -> OfficialEmitter {
    OfficialEmitter { list: list_reset(), ..e }
}

/// A one-image paragraph: the figure with its caption `图 N 说明` when the
/// alternative text is not blank, or a line saying the image failed.
pub open spec fn figure_spec(e: OfficialEmitter, alt: Seq<char>, url: Seq<char>, loaded: bool) -> (OfficialEmitter, Seq<SItem>) {
    if loaded {
        let captioned = !is_blank(alt);
        let fig = SItem::Figure { url, max_width: MAX_IMAGE_WIDTH_EMU, keep_next: captioned, fallback: image_error_para(alt, url) };
        if captioned {
            let fc = (e.figure_counter + 1) as usize;
            (OfficialEmitter { figure_counter: fc, ..e }, seq![fig, p(caption_para("图 "@ + decimal(fc as nat) + seq![' '] + trim(alt)))])
        } else {
            (e, seq![fig])
        }
    } else {
        (e, seq![p(image_error_para(alt, url))])
    }
}

/// What one block adds and the state after it.
pub open spec fn emit_spec(e: OfficialEmitter, b: SBlock, loaded: bool) -> (OfficialEmitter, Seq<SItem>) {
    match b {
        SBlock::Heading { level, text } => {
            let e1 = OfficialEmitter { suppress_next_heading: None, ..reset_list(e) };
            match e.suppress_next_heading {
                Some(s) if level == 1 && trim(text) == suppressed_text(s) => (e1, Seq::empty()),
                _ => heading_spec(e1, level, text),
            }
        },
        SBlock::Paragraph(inl) => match sole_image(inl) {
            Some((alt, url, label)) => figure_spec(reset_list(e), alt, url, loaded),
            None => (reset_list(e), seq![p(body_para(inl))]),
        },
        SBlock::List { ordered, level, content } => {
            if e.reference_mode && level == 1 {
                let c = (e.reference_counter + 1) as usize;
                (
                    OfficialEmitter { reference_counter: c, ..e },
                    seq![p(list_para(seq!['['] + decimal(c as nat) + seq![']', ' '], content))],
                )
            } else {
                let l = list_advance(e.list, level);
                (OfficialEmitter { list: l, ..e }, seq![p(list_para(official_list_prefix(level, list_count(l, level)), content))])
            }
        },
        SBlock::Table { rows, caption } => {
            let e1 = reset_list(e);
            match caption {
                Some(c) => {
                    let t = (e1.table_counter + 1) as usize;
                    (
                        OfficialEmitter { table_counter: t, ..e1 },
                        seq![p(caption_para("表 "@ + decimal(t as nat) + seq![' '] + c))] + table_items(rows),
                    )
                },
                None => (e1, table_items(rows)),
            }
        },
        SBlock::CodeBlock { lang, content } => (reset_list(e), code_items(lines(content))),
        SBlock::Marker(k) => marker_spec(reset_list(e), k),
        SBlock::Empty => (e, Seq::empty()),
        SBlock::Label(_) => (e, Seq::empty()),
    }
}

pub open spec fn emit_all_spec(e: OfficialEmitter, bs: Seq<SBlock>, loaded: Seq<bool>) -> (OfficialEmitter, Seq<SItem>)
    decreases bs.len(),
{
    if bs.len() == 0 {
        (e, Seq::empty())
    } else {
        let (e1, items) = emit_all_spec(e, bs.drop_last(), loaded);
        let (e2, more) = emit_spec(e1, bs.last(), loaded[bs.len() - 1]);
        (e2, items + more)
    }
}

pub proof fn lemma_emit_bounded(e: OfficialEmitter, b: SBlock, loaded: bool, n: int)
    requires
        official_bounded(e, n),
        n < usize::MAX,
    ensures
        official_bounded(emit_spec(e, b, loaded).0, n + 1),
{
    lemma_list_advance(e.list, 0, n);
    match b {
        SBlock::List { ordered, level, content } => {
            lemma_list_advance(e.list, level, n);
        },
        _ => {},
    }
}

/// The next official-style list prefix for `level` (see
/// [`official_list_prefix`]).
pub fn next_prefix(list: &mut ListState, level: u8) -> (s: String)
    requires
        list_bounded(*old(list), usize::MAX - 1),
    ensures
        *final(list) == list_advance(*old(list), level),
        s@ == official_list_prefix(level, list_count(*final(list), level)),
{
    proof {
        lemma_list_advance(*list, level, usize::MAX - 1);
    }
    let count = list.advance(level);
    list_prefix(level, count)
}

impl OfficialEmitter {
    pub fn new() -> (e: OfficialEmitter)
        ensures
            e == initial_official(),
    {
        OfficialEmitter {
            h2: 0,
            h3: 0,
            h4: 0,
            h5: 0,
            list: ListState::new(),
            reference_mode: false,
            reference_counter: 0,
            suppress_next_heading: None,
            table_counter: 0,
            figure_counter: 0,
        }
    }

    /// Writes a heading (see [`heading_spec`]).
    #[verifier::rlimit(40)]
    pub fn emit_heading(&mut self, out: &mut Vec<DocItem>, level: u8, text: &str)
        requires
            official_bounded(*old(self), usize::MAX - 1),
        ensures
            *final(self) == heading_spec(*old(self), level, text@).0,
            items_view(final(out)@) == items_view(old(out)@) + heading_spec(*old(self), level, text@).1,
    {
        let ghost o0 = items_view(out@);
        let ghost r = heading_spec(*self, level, text@);
        if level == 1 {
            self.h2 = 0;
            self.h3 = 0;
            self.h4 = 0;
            self.h5 = 0;
            push_paragraph(out, heading_paragraph(text, Font::OfficialTitle, SIZE_TITLE, Align::Center, false));
            let blank = ParaFormat {
                style: None,
                align: None,
                spacing: None,
                indent: None,
                keep_next: false,
                page_break_before: false,
                bottom_border: false,
                right_tab: None,
            };
            push_paragraph(out, empty_paragraph(blank));
        } else if level == 2 {
            self.h2 = self.h2 + 1;
            self.h3 = 0;
            self.h4 = 0;
            self.h5 = 0;
            let mut t = number_to_chinese(self.h2);
            push_str(&mut t, "、");
            push_str(&mut t, text);
            push_paragraph(out, heading_paragraph(t.as_str(), Font::OfficialHead, SIZE_BODY, Align::Left, false));
        } else if level == 3 {
            self.h3 = self.h3 + 1;
            self.h4 = 0;
            self.h5 = 0;
            let mut t = String::new();
            push_str(&mut t, "（");
            push_str(&mut t, number_to_chinese(self.h3).as_str());
            push_str(&mut t, "）");
            push_str(&mut t, text);
            push_paragraph(out, heading_paragraph(t.as_str(), Font::OfficialKai, SIZE_BODY, Align::Left, false));
        } else if level == 4 {
            self.h4 = self.h4 + 1;
            self.h5 = 0;
            let mut t = String::new();
            push_decimal(&mut t, self.h4);
            push_char(&mut t, '.');
            push_str(&mut t, text);
            assert(t@ =~= decimal(self.h4 as nat) + seq!['.'] + text@);
            push_paragraph(out, heading_paragraph(t.as_str(), Font::OfficialBody, SIZE_BODY, Align::Left, false));
        } else if level == 5 {
            self.h5 = self.h5 + 1;
            let mut t = String::new();
            push_char(&mut t, '(');
            push_decimal(&mut t, self.h5);
            push_char(&mut t, ')');
            push_str(&mut t, text);
            assert(t@ =~= seq!['('] + decimal(self.h5 as nat) + seq![')'] + text@);
            push_paragraph(out, heading_paragraph(t.as_str(), Font::OfficialBody, SIZE_BODY, Align::Left, true));
        }
        assert(items_view(out@) =~= o0 + r.1);
    }

    /// Writes a section marker (see [`marker_spec`]).
    #[verifier::rlimit(40)]
    pub fn emit_marker(&mut self, out: &mut Vec<DocItem>, kind: MarkerKind)
        ensures
            *final(self) == marker_spec(*old(self), kind).0,
            items_view(final(out)@) == items_view(old(out)@) + marker_spec(*old(self), kind).1,
    {
        let ghost o0 = items_view(out@);
        let ghost r = marker_spec(*self, kind);
        self.reference_mode = match kind {
            MarkerKind::Reference => true,
            _ => false,
        };
        if self.reference_mode {
            self.reference_counter = 0;
        }
        match kind {
            MarkerKind::Abstract => {
                self.suppress_next_heading = Some(Suppressed::Abstract);
                push_paragraph(out, heading_paragraph("摘要", Font::OfficialTitle, SIZE_TITLE, Align::Center, false));
            },
            MarkerKind::Changelog => {
                self.suppress_next_heading = Some(Suppressed::Changelog);
                push_paragraph(out, heading_paragraph("版本变更记录", Font::OfficialTitle, SIZE_TITLE, Align::Center, false));
            },
            MarkerKind::Reference => {
                self.suppress_next_heading = Some(Suppressed::Reference);
                push_paragraph(out, heading_paragraph("参考文献", Font::OfficialTitle, SIZE_TITLE, Align::Center, false));
            },
            MarkerKind::Body | MarkerKind::Appendix => {
                self.h2 = 0;
                self.h3 = 0;
                self.h4 = 0;
                self.h5 = 0;
            },
        }
        assert(items_view(out@) =~= o0 + r.1);
    }

    /// Writes a one-image paragraph (see [`figure_spec`]).
    pub fn add_figure(&mut self, out: &mut Vec<DocItem>, alt: &str, url: &str, loaded: bool)
        requires
            old(self).figure_counter < usize::MAX,
        ensures
            *final(self) == figure_spec(*old(self), alt@, url@, loaded).0,
            items_view(final(out)@) == items_view(old(out)@) + figure_spec(*old(self), alt@, url@, loaded).1,
    {
        let ghost o0 = items_view(out@);
        let ghost r = figure_spec(*self, alt@, url@, loaded);
        if loaded {
            let a = chars_of(alt);
            let captioned = !is_blank_exec(&a);
            push_item(out, DocItem::Figure {
                url: url.to_string(),
                max_width: MAX_IMAGE_WIDTH_EMU,
                keep_next: captioned,
                fallback: image_error_paragraph(alt, url),
            });
            if captioned {
                self.figure_counter = self.figure_counter + 1;
                let mut cap = String::new();
                push_str(&mut cap, "图 ");
                push_decimal(&mut cap, self.figure_counter);
                push_char(&mut cap, ' ');
                push_str(&mut cap, string_from_chars(&trim_chars(&a)).as_str());
                assert(cap@ =~= "图 "@ + decimal(self.figure_counter as nat) + seq![' '] + trim(alt@));
                push_paragraph(out, caption_paragraph(cap.as_str()));
            }
        } else {
            push_paragraph(out, image_error_paragraph(alt, url));
        }
        assert(items_view(out@) =~= o0 + r.1);
    }

    /// Writes one block (see [`emit_spec`]); `loaded` says whether the image
    /// of a one-image paragraph could be loaded.
    #[verifier::rlimit(40)]
    pub fn emit(&mut self, out: &mut Vec<DocItem>, b: &Block, loaded: bool)
        requires
            official_bounded(*old(self), usize::MAX - 1),
        ensures
            *final(self) == emit_spec(*old(self), block_view(*b), loaded).0,
            items_view(final(out)@) == items_view(old(out)@) + emit_spec(*old(self), block_view(*b), loaded).1,
    {
        let ghost o0 = items_view(out@);
        let ghost r = emit_spec(*self, block_view(*b), loaded);
        match b {
            Block::Heading { level, text } => {
                self.list.reset();
                let expected = self.suppress_next_heading;
                self.suppress_next_heading = None;
                let skip = match expected {
                    Some(s) => {
                        if *level == 1 {
                            let t = trim_chars(&chars_of(text.as_str()));
                            let want = match s {
                                Suppressed::Abstract => chars_of("摘要"),
                                Suppressed::Changelog => chars_of("版本变更记录"),
                                Suppressed::Reference => chars_of("参考文献"),
                            };
                            chars_eq(&t, &want)
                        } else {
                            false
                        }
                    },
                    None => false,
                };
                if !skip {
                    self.emit_heading(out, *level, text.as_str());
                }
            },
            Block::Paragraph(inlines) => {
                self.list.reset();
                match sole_image_index(inlines.as_slice()) {
                    Some(i) => match &inlines[i] {
                        Inline::Image { alt, url, .. } => {
                            self.add_figure(out, alt.as_str(), url.as_str(), loaded);
                        },
                        _ => {},
                    },
                    None => {
                        push_paragraph(out, body_paragraph(inlines.as_slice()));
                    },
                }
            },
            Block::List { level, content, .. } => {
                if self.reference_mode && *level == 1 {
                    self.reference_counter = self.reference_counter + 1;
                    let mut prefix = String::new();
                    push_char(&mut prefix, '[');
                    push_decimal(&mut prefix, self.reference_counter);
                    push_char(&mut prefix, ']');
                    push_char(&mut prefix, ' ');
                    assert(prefix@ =~= seq!['['] + decimal(self.reference_counter as nat) + seq![']', ' ']);
                    push_paragraph(out, list_paragraph(prefix.as_str(), content.as_slice()));
                } else {
                    let prefix = next_prefix(&mut self.list, *level);
                    push_paragraph(out, list_paragraph(prefix.as_str(), content.as_slice()));
                }
            },
            Block::Table { rows, caption } => {
                self.list.reset();
                match caption {
                    Some(c) => {
                        self.table_counter = self.table_counter + 1;
                        let mut cap = String::new();
                        push_str(&mut cap, "表 ");
                        push_decimal(&mut cap, self.table_counter);
                        push_char(&mut cap, ' ');
                        push_str(&mut cap, c.as_str());
                        assert(cap@ =~= "表 "@ + decimal(self.table_counter as nat) + seq![' '] + c@);
                        push_paragraph(out, caption_paragraph(cap.as_str()));
                    },
                    None => {},
                }
                add_table(out, rows);
            },
            Block::CodeBlock { content, .. } => {
                self.list.reset();
                add_code_block(out, content.as_str());
            },
            Block::Marker(kind) => {
                self.list.reset();
                self.emit_marker(out, *kind);
            },
            Block::Empty | Block::Label(_) => {},
        }
        assert(items_view(out@) =~= o0 + r.1);
    }

    /// Writes the blocks in order (see [`emit_all_spec`]).
    pub fn emit_all(&mut self, out: &mut Vec<DocItem>, blocks: &[Block], loaded: &[bool])
        requires
            loaded@.len() == blocks@.len(),
            official_bounded(*old(self), usize::MAX - blocks@.len()),
        ensures
            *final(self) == emit_all_spec(*old(self), blocks_view(blocks@), loaded@).0,
            items_view(final(out)@) == items_view(old(out)@) + emit_all_spec(*old(self), blocks_view(blocks@), loaded@).1,
    {
        let ghost bv = blocks_view(blocks@);
        let ghost e0 = *self;
        let ghost o0 = items_view(out@);
        let mut i: usize = 0;
        while i < blocks.len()
            invariant
                i <= blocks@.len(),
                loaded@.len() == blocks@.len(),
                bv == blocks_view(blocks@),
                official_bounded(*self, usize::MAX - blocks@.len() + i),
                *self == emit_all_spec(e0, bv.take(i as int), loaded@).0,
                items_view(out@) == o0 + emit_all_spec(e0, bv.take(i as int), loaded@).1,
            decreases blocks@.len() - i,
        {
            proof {
                assert(bv.take(i + 1).drop_last() =~= bv.take(i as int));
                assert(bv.take(i + 1).last() == block_view(blocks@[i as int]));
                lemma_emit_bounded(*self, bv[i as int], loaded@[i as int], usize::MAX - blocks@.len() + i);
            }
            self.emit(out, &blocks[i], loaded[i]);
            assert(items_view(out@) =~= o0 + emit_all_spec(e0, bv.take(i + 1), loaded@).1);
            i += 1;
        }
        assert(bv.take(blocks@.len() as int) =~= bv);
    }
}

/// The abstract, revision-history and references markers write their
/// title; a level-1 heading with the same text right after them adds
/// nothing, so the title appears once.
pub proof fn lemma_section_title_written_once(e: OfficialEmitter, k: MarkerKind, text: Seq<char>, l1: bool, l2: bool)
    requires
        k == MarkerKind::Abstract || k == MarkerKind::Changelog || k == MarkerKind::Reference,
        trim(text) == (if k == MarkerKind::Abstract {
            "摘要"@
        } else if k == MarkerKind::Changelog {
            "版本变更记录"@
        } else {
            "参考文献"@
        }),
    ensures
        ({
            let (e1, a) = emit_spec(e, SBlock::Marker(k), l1);
            &&& a.len() == 1
            &&& emit_spec(e1, SBlock::Heading { level: 1, text }, l2).1 == Seq::<SItem>::empty()
        }),
{
}

/// After a level-1 heading, the next level-2 heading is numbered `一、` and
/// the level-3 heading after it `（一）`.
pub proof fn lemma_heading_numbering_restarts(e: OfficialEmitter, t0: Seq<char>, t1: Seq<char>, t2: Seq<char>, l0: bool, l1: bool, l2: bool)
    requires
        e.suppress_next_heading is None,
    ensures
        ({
            let e1 = emit_spec(e, SBlock::Heading { level: 1, text: t0 }, l0).0;
            let (e2, a) = emit_spec(e1, SBlock::Heading { level: 2, text: t1 }, l1);
            let (e3, b) = emit_spec(e2, SBlock::Heading { level: 3, text: t2 }, l2);
            &&& a == seq![p(heading_para(chinese_numeral(1) + "、"@ + t1, Font::OfficialHead, SIZE_BODY, Align::Left, false))]
            &&& b == seq![p(heading_para("（"@ + chinese_numeral(1) + "）"@ + t2, Font::OfficialKai, SIZE_BODY, Align::Left, false))]
        }),
{
}

/// After the references marker, first-level list items are numbered `[1] `,
/// `[2] `, ...
pub proof fn lemma_references_numbered_from_one(e: OfficialEmitter, ordered: bool, content: Seq<SInline>, l1: bool, l2: bool)
    ensures
        ({
            let e1 = emit_spec(e, SBlock::Marker(MarkerKind::Reference), l1).0;
            emit_spec(e1, SBlock::List { ordered, level: 1, content }, l2).1
                == seq![p(list_para(seq!['['] + decimal(1) + seq![']', ' '], content))]
        }),
{
}

/// A list that follows a paragraph or a code block starts over at its
/// level's first prefix.
pub proof fn lemma_list_restarts(e: OfficialEmitter, b: SBlock, ordered: bool, level: u8, content: Seq<SInline>, l1: bool, l2: bool)
    requires
        b is Paragraph || b is CodeBlock,
        1 <= level <= 6,
        !(e.reference_mode && level == 1),
    ensures
        emit_spec(emit_spec(e, b, l1).0, SBlock::List { ordered, level, content }, l2).1
            == seq![p(list_para(official_list_prefix(level, 1), content))],
{
    let e1 = emit_spec(e, b, l1).0;
    assert(e1.list == list_reset());
    assert(e1.reference_mode == e.reference_mode);
}

/// Plans an official document from its blocks; `loaded[i]` tells whether the
/// image of block `i`, if it is a one-image paragraph, could be loaded.
pub fn render(blocks: &[Block], loaded: &[bool]) -> (r: Vec<DocItem>)
    requires
        loaded@.len() == blocks@.len(),
    ensures
        items_view(r@) == emit_all_spec(initial_official(), blocks_view(blocks@), loaded@).1,
{
    let mut out: Vec<DocItem> = Vec::new();
    let mut e = OfficialEmitter::new();
    let _n = blocks.len();
    e.emit_all(&mut out, blocks, loaded);
    assert(items_view(out@) =~= emit_all_spec(initial_official(), blocks_view(blocks@), loaded@).1);
    out
}

} // verus!
