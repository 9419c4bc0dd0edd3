//! The emitters of the research report: the main one numbers chapters,
//! sections, appendices, references, tables and figures by section mode; the
//! revision-history one only numbers its lists and tables.

use vstd::prelude::*;
use crate::common::ast::{Block, Inline, MarkerKind, SBlock, SInline, block_view, inlines_view, table_view};
use crate::common::numbering::{chinese_numeral, column_letters, number_to_chinese, push_column_letters};
use crate::docx_plan::{
    Align, DocItem, Font, ListState, RunStyle, SItem, SPara, items_view, list_advance, list_bounded,
    list_count, list_reset, page_break_para, para_view, push_item, push_page_break, push_paragraph,
    text_para, lemma_list_advance,
};
use crate::docx_research::blocks::{
    MAX_IMAGE_WIDTH_EMU, SIZE_BODY, SIZE_HEAD1, SIZE_HEAD2, SIZE_HEAD3, add_code_block, add_table,
    aligned_heading_paragraph, body_aligned, body_para, body_paragraph, caption_para, caption_paragraph,
    chapter_para, code_items, head, heading_chapter_paragraph, heading_section_paragraph,
    heading_subsection_paragraph, image_error_para, image_error_paragraph, list_para, list_paragraph,
    research_prefix, research_prefix_string, section_para, subsection_para, table_items,
};
use crate::tex_research_emitter::{sole_image, sole_image_index};
use crate::text::{
    chars_eq, chars_of, decimal, is_blank, is_blank_exec, lines, push_char, push_decimal, push_str,
    string_from_chars, trim, trim_chars,
};

verus! {

/// Section mode of the main text.
#[derive(Clone, Copy, PartialEq, Eq, Structural, Debug)]
pub enum Mode {
    Body,
    Abstract,
    Appendix,
    Reference,
}

/// A section title written by its marker, so that the same heading right
/// after it is left out.
#[derive(Clone, Copy, PartialEq, Eq, Structural, Debug)]
pub enum Suppressed {
    /// 摘要
    Abstract,
    /// 参考文献
    Reference,
}

pub open spec fn suppressed_text(s: Suppressed) -> Seq<char> {
    match s {
        Suppressed::Abstract => "摘要"@,
        Suppressed::Reference => "参考文献"@,
    }
}

/// State of the main text.
#[derive(Clone, Copy, Debug)]
pub struct MainEmitter {
    pub mode: Mode,
    pub chapter: usize,
    pub section: usize,
    pub subsection: usize,
    /// Appendices so far: 1 is A.
    pub appendix_idx: usize,
    /// Reference entries so far: `[1]`, `[2]`, ...
    pub ref_counter: usize,
    pub list: ListState,
    pub appendix_saw_h1: bool,
    pub suppress_next_heading: Option<Suppressed>,
    pub table_counter: usize,
    pub figure_counter: usize,
}

pub open spec fn initial_main() -> MainEmitter {
    MainEmitter {
        mode: Mode::Body,
        chapter: 0,
        section: 0,
        subsection: 0,
        appendix_idx: 0,
        ref_counter: 0,
        list: list_reset(),
        appendix_saw_h1: false,
        suppress_next_heading: None,
        table_counter: 0,
        figure_counter: 0,
    }
}

/// Every counter is at most `n`.
pub open spec fn main_bounded(e: MainEmitter, n: int) -> bool {
    &&& e.chapter <= n
    &&& e.section <= n
    &&& e.subsection <= n
    &&& e.appendix_idx <= n
    &&& e.ref_counter <= n
    &&& e.table_counter <= n
    &&& e.figure_counter <= n
    &&& list_bounded(e.list, n)
}

/// The state after a section marker.
pub open spec fn marker_state(e: MainEmitter, k: MarkerKind) -> MainEmitter {
    match k {
        MarkerKind::Abstract => MainEmitter { mode: Mode::Abstract, ..e },
        MarkerKind::Appendix => MainEmitter {
            mode: Mode::Appendix,
            appendix_idx: 0,
            appendix_saw_h1: false,
            table_counter: 0,
            figure_counter: 0,
            ..e
        },
        MarkerKind::Body => MainEmitter {
            mode: Mode::Body,
            chapter: 0,
            section: 0,
            subsection: 0,
            table_counter: 0,
            figure_counter: 0,
            ..e
        },
        MarkerKind::Reference => MainEmitter { mode: Mode::Reference, appendix_idx: 0, ref_counter: 0, ..e },
        MarkerKind::Changelog => MainEmitter { mode: Mode::Body, ..e },
    }
}

/// The number of a table or figure: `A.2` in an appendix, `3.2` in a
/// chapter, plain `2` elsewhere.
pub open spec fn object_number_spec(e: MainEmitter, counter: nat) -> Seq<char> {
    if e.mode == Mode::Appendix && e.appendix_idx > 0 {
        column_letters(e.appendix_idx as nat) + seq!['.'] + decimal(counter)
    } else if e.mode == Mode::Body && e.chapter > 0 {
        decimal(e.chapter as nat) + seq!['.'] + decimal(counter)
    } else {
        decimal(counter)
    }
}

/// The letter of appendix `idx` (1 is `A`): the byte `A` plus `idx - 1`,
/// the count taken modulo 256 as a byte.
pub open spec fn appendix_letter(idx: nat) -> char {
    ((65 + ((idx - 1) as nat) % 256) as u32) as char
}

pub open spec fn p(x: SPara) -> SItem {
    SItem::Paragraph(x)
}

/// A heading in an appendix: a level-1 heading, or a level-2 one before any
/// level-1 heading, opens appendix `A`, `B`, ... on a new page; the levels
/// below become sections and subsections; deeper ones bold text.
pub open spec fn appendix_heading_spec(e: MainEmitter, level: u8, text: Seq<char>) -> (MainEmitter, Seq<SItem>) {
    let saw = level == 1 || e.appendix_saw_h1;
    let e0 = MainEmitter { appendix_saw_h1: saw, ..e };
    if level == 1 || (level == 2 && !saw) {
        let idx = (e0.appendix_idx + 1) as usize;
        (
            MainEmitter { appendix_idx: idx, table_counter: 0, figure_counter: 0, ..e0 },
            seq![p(page_break_para()), p(chapter_para("附录 "@ + seq![appendix_letter(idx as nat), ' '] + text))],
        )
    } else if (level == 2 && saw) || (level == 3 && !saw) {
        (e0, seq![p(section_para(text))])
    } else if (level == 3 && saw) || (level == 4 && !saw) {
        (e0, seq![p(subsection_para(text))])
    } else {
        (e0, seq![p(text_para(body_aligned(Align::Left), text, head(SIZE_BODY)))])
    }
}

/// A heading outside the appendices: in the body, level 2 opens chapter
/// `第N章` on a new page, levels 3 and 4 are numbered `N.M` and `N.M.K`; in the
/// references levels 2 and 3 are unnumbered; in the abstract any heading is a
/// centred bold line; elsewhere a level-1 heading is a centred title line
/// and other levels are left out.
pub open spec fn heading_spec(e: MainEmitter, level: u8, text: Seq<char>) -> (MainEmitter, Seq<SItem>) {
    if e.mode == Mode::Appendix {
        appendix_heading_spec(e, level, text)
    } else if level == 2 && e.mode == Mode::Body {
        let ch = (e.chapter + 1) as usize;
        (
            MainEmitter { chapter: ch, section: 0, subsection: 0, table_counter: 0, figure_counter: 0, ..e },
            seq![p(page_break_para()), p(chapter_para("第"@ + chinese_numeral(ch as nat) + "章 "@ + text))],
        )
    } else if level == 3 && e.mode == Mode::Body {
        let sec = (e.section + 1) as usize;
        (
            MainEmitter { section: sec, subsection: 0, ..e },
            seq![p(section_para(decimal(e.chapter as nat) + seq!['.'] + decimal(sec as nat) + seq![' '] + text))],
        )
    } else if level == 4 && e.mode == Mode::Body {
        let sub = (e.subsection + 1) as usize;
        (
            MainEmitter { subsection: sub, ..e },
            seq![p(subsection_para(decimal(e.chapter as nat) + seq!['.'] + decimal(e.section as nat) + seq!['.']
                + decimal(sub as nat) + seq![' '] + text))],
        )
    } else if level == 2 && e.mode == Mode::Reference {
        (e, seq![p(section_para(text))])
    } else if level == 3 && e.mode == Mode::Reference {
        (e, seq![p(subsection_para(text))])
    } else if e.mode == Mode::Abstract {
        (e, seq![p(text_para(body_aligned(Align::Center), text, head(SIZE_HEAD2)))])
    } else if level == 1 {
        (e, seq![p(text_para(body_aligned(Align::Center), text, RunStyle { font: Font::ResearchTitle, size: SIZE_HEAD1, bold: true, italic: false }))])
    } else {
        (e, Seq::empty())
    }
}

/// A paragraph that is one image: when the image loads it is a figure, and
/// when its alternative text is not blank that text is its numbered caption
/// `图 N 说明`; otherwise a centred line says the image failed.
pub open spec fn figure_spec(e: MainEmitter, alt: Seq<char>, url: Seq<char>, loaded: bool) -> (MainEmitter, Seq<SItem>) {
    if loaded {
        let captioned = !is_blank(alt);
        let fig = SItem::Figure { url, max_width: MAX_IMAGE_WIDTH_EMU, keep_next: captioned, fallback: image_error_para(alt, url) };
        if captioned {
            let fc = (e.figure_counter + 1) as usize;
            let e1 = MainEmitter { figure_counter: fc, ..e };
            (e1, seq![fig, p(caption_para("图 "@ + object_number_spec(e1, fc as nat) + seq![' '] + trim(alt)))])
        } else {
            (e, seq![fig])
        }
    } else {
        (e, seq![p(image_error_para(alt, url))])
    }
}

pub open spec fn reset_list(e: MainEmitter) -> MainEmitter {
    MainEmitter { list: list_reset(), ..e }
}

/// What one block of the main text adds, and the state after it; `loaded`
/// says whether the image of a one-image paragraph could be loaded.
pub open spec fn emit_spec(e: MainEmitter, b: SBlock, loaded: bool) -> (MainEmitter, Seq<SItem>) {
    match b {
        SBlock::Marker(k) => {
            let e1 = marker_state(reset_list(e), k);
            if k == MarkerKind::Abstract {
                (MainEmitter { suppress_next_heading: Some(Suppressed::Abstract), ..e1 }, seq![p(chapter_para("摘要"@))])
            } else if k == MarkerKind::Reference {
                (
                    MainEmitter { suppress_next_heading: Some(Suppressed::Reference), ..e1 },
                    seq![p(page_break_para()), p(chapter_para("参考文献"@))],
                )
            } else {
                (e1, Seq::empty())
            }
        },
        SBlock::Heading { level, text } => {
            let e1 = MainEmitter { suppress_next_heading: None, ..reset_list(e) };
            match e.suppress_next_heading {
                Some(s) if level == 1 && trim(text) == suppressed_text(s) => (e1, Seq::empty()),
                _ => heading_spec(e1, level, text),
            }
        },
        SBlock::Paragraph(inl) => match sole_image(inl) {
            Some((alt, url, label)) => figure_spec(reset_list(e), alt, url, loaded),
            None => (reset_list(e), seq![p(body_para(inl))]),
        },
        SBlock::List { ordered, level, content } => {
            if e.mode == Mode::Reference && level == 1 {
                let c = (e.ref_counter + 1) as usize;
                (
                    MainEmitter { ref_counter: c, ..e },
                    seq![p(list_para(level, seq!['['] + decimal(c as nat) + seq![']', ' '], content))],
                )
            } else {
                let l = list_advance(e.list, level);
                (MainEmitter { list: l, ..e }, seq![p(list_para(level, research_prefix(level, list_count(l, level)), content))])
            }
        },
        SBlock::Table { rows, caption } => {
            let e1 = reset_list(e);
            match caption {
                Some(c) => {
                    let t = (e1.table_counter + 1) as usize;
                    let e2 = MainEmitter { table_counter: t, ..e1 };
                    (e2, seq![p(caption_para("表 "@ + object_number_spec(e2, t as nat) + seq![' '] + c))] + table_items(rows))
                },
                None => (e1, table_items(rows)),
            }
        },
        SBlock::CodeBlock { lang, content } => (reset_list(e), code_items(lines(content))),
        SBlock::Empty => (e, Seq::empty()),
        SBlock::Label(_) => (e, Seq::empty()),
    }
}

/// The state after the blocks and what they add.
pub open spec fn emit_all_spec(e: MainEmitter, bs: Seq<SBlock>, loaded: Seq<bool>) -> (MainEmitter, Seq<SItem>)
    decreases bs.len(),
{
    if bs.len() == 0 {
        (e, Seq::empty())
    } else {
        let (e1, items) = emit_all_spec(e, bs.drop_last(), loaded);
        let (e2, more) = emit_spec(e1, bs.last(), loaded[bs.len() - 1]);
        (e2, items + more)
    }
}

/// Whether the block opens a new appendix.
pub open spec fn increments_appendix(e: MainEmitter, b: SBlock) -> bool {
    match b {
        SBlock::Heading { level, text } => {
            &&& e.mode == Mode::Appendix
            &&& !(match e.suppress_next_heading {
                Some(s) => level == 1 && trim(text) == suppressed_text(s),
                None => false,
            })
            &&& (level == 1 || (level == 2 && !e.appendix_saw_h1))
        },
        _ => false,
    }
}

/// No block opens an appendix whose letter would leave the byte range: the
/// count before it, modulo 256, is below 191.
pub open spec fn letters_fit(e: MainEmitter, bs: Seq<SBlock>, loaded: Seq<bool>) -> bool
    decreases bs.len(),
{
    if bs.len() == 0 {
        true
    } else {
        let s = emit_all_spec(e, bs.drop_last(), loaded).0;
        letters_fit(e, bs.drop_last(), loaded) && (increments_appendix(s, bs.last()) ==> s.appendix_idx % 256 < 191)
    }
}

/// One block moves each counter up by at most one.
pub proof fn lemma_emit_bounded(e: MainEmitter, b: SBlock, loaded: bool, n: int)
    requires
        main_bounded(e, n),
        n < usize::MAX,
    ensures
        main_bounded(emit_spec(e, b, loaded).0, n + 1),
{
    lemma_list_advance(e.list, 0, n);
    match b {
        SBlock::List { ordered, level, content } => {
            lemma_list_advance(e.list, level, n);
        },
        _ => {},
    }
}

impl MainEmitter {
    pub fn new() -> (e: MainEmitter)
        ensures
            e == initial_main(),
    {
        MainEmitter {
            mode: Mode::Body,
            chapter: 0,
            section: 0,
            subsection: 0,
            appendix_idx: 0,
            ref_counter: 0,
            list: ListState::new(),
            appendix_saw_h1: false,
            suppress_next_heading: None,
            table_counter: 0,
            figure_counter: 0,
        }
    }

    /// Switches the section mode.
    pub fn handle_marker(&mut self, kind: MarkerKind)
        ensures
            *final(self) == marker_state(*old(self), kind),
    {
        match kind {
            MarkerKind::Abstract => self.mode = Mode::Abstract,
            MarkerKind::Appendix => {
                self.mode = Mode::Appendix;
                self.appendix_idx = 0;
                self.appendix_saw_h1 = false;
                self.table_counter = 0;
                self.figure_counter = 0;
            },
            MarkerKind::Body => {
                self.mode = Mode::Body;
                self.chapter = 0;
                self.section = 0;
                self.subsection = 0;
                self.table_counter = 0;
                self.figure_counter = 0;
            },
            MarkerKind::Reference => {
                self.mode = Mode::Reference;
                self.appendix_idx = 0;
                self.ref_counter = 0;
            },
            MarkerKind::Changelog => {
                self.mode = Mode::Body;
            },
        }
    }

    /// The number of a table or figure (see [`object_number_spec`]).
    pub fn object_number(&self, counter: usize) -> (s: String)
        ensures
            s@ == object_number_spec(*self, counter as nat),
    {
        let mut s = String::new();
        if self.mode == Mode::Appendix && self.appendix_idx > 0 {
            push_column_letters(&mut s, self.appendix_idx);
            push_char(&mut s, '.');
            push_decimal(&mut s, counter);
        } else if self.mode == Mode::Body && self.chapter > 0 {
            push_decimal(&mut s, self.chapter);
            push_char(&mut s, '.');
            push_decimal(&mut s, counter);
        } else {
            push_decimal(&mut s, counter);
        }
        assert(s@ =~= object_number_spec(*self, counter as nat));
        s
    }

    #[verifier::rlimit(40)]
    fn emit_appendix_heading(&mut self, out: &mut Vec<DocItem>, level: u8, text: &str)
        requires
            old(self).mode == Mode::Appendix,
            old(self).appendix_idx < usize::MAX,
            level == 1 || (level == 2 && !old(self).appendix_saw_h1) ==> old(self).appendix_idx % 256 < 191,
        ensures
            *final(self) == appendix_heading_spec(*old(self), level, text@).0,
            items_view(final(out)@) == items_view(old(out)@) + appendix_heading_spec(*old(self), level, text@).1,
    {
        let ghost e = *self;
        let ghost o0 = items_view(out@);
        if level == 1 {
            self.appendix_saw_h1 = true;
        }
        let saw = self.appendix_saw_h1;
        let ghost r = appendix_heading_spec(e, level, text@);
        if level == 1 || (level == 2 && !saw) {
            self.appendix_idx = self.appendix_idx + 1;
            self.table_counter = 0;
            self.figure_counter = 0;
            let idx = self.appendix_idx;
            let off: usize = (idx - 1) % 256;
            let letter = (65u8 + (off as u8)) as char;
            let mut label = String::new();
            push_str(&mut label, "附录 ");
            push_char(&mut label, letter);
            push_char(&mut label, ' ');
            push_str(&mut label, text);
            assert(label@ =~= "附录 "@ + seq![appendix_letter(idx as nat), ' '] + text@);
            push_page_break(out);
            push_paragraph(out, heading_chapter_paragraph(label.as_str()));
        } else if (level == 2 && saw) || (level == 3 && !saw) {
            push_paragraph(out, heading_section_paragraph(text));
        } else if (level == 3 && saw) || (level == 4 && !saw) {
            push_paragraph(out, heading_subsection_paragraph(text));
        } else {
            push_paragraph(out, aligned_heading_paragraph(Align::Left, text, Font::ResearchHead, SIZE_BODY));
        }
        assert(items_view(out@) =~= o0 + r.1);
    }

    /// Writes a heading (see [`heading_spec`]).
    #[verifier::rlimit(40)]
    pub fn emit_heading(&mut self, out: &mut Vec<DocItem>, level: u8, text: &str)
        requires
            main_bounded(*old(self), usize::MAX - 1),
            old(self).mode == Mode::Appendix && (level == 1 || (level == 2 && !old(self).appendix_saw_h1))
                ==> old(self).appendix_idx % 256 < 191,
        ensures
            *final(self) == heading_spec(*old(self), level, text@).0,
            items_view(final(out)@) == items_view(old(out)@) + heading_spec(*old(self), level, text@).1,
    {
        let ghost e = *self;
        let ghost o0 = items_view(out@);
        let ghost r = heading_spec(e, level, text@);
        if self.mode == Mode::Appendix {
            self.emit_appendix_heading(out, level, text);
            return;
        }
        if level == 2 && self.mode == Mode::Body {
            self.chapter = self.chapter + 1;
            self.section = 0;
            self.subsection = 0;
            self.table_counter = 0;
            self.figure_counter = 0;
            let mut label = String::new();
            push_str(&mut label, "第");
            push_str(&mut label, number_to_chinese(self.chapter).as_str());
            push_str(&mut label, "章 ");
            push_str(&mut label, text);
            assert(label@ =~= "第"@ + chinese_numeral(self.chapter as nat) + "章 "@ + text@);
            push_page_break(out);
            push_paragraph(out, heading_chapter_paragraph(label.as_str()));
        } else if level == 3 && self.mode == Mode::Body {
            self.section = self.section + 1;
            self.subsection = 0;
            let mut label = String::new();
            push_decimal(&mut label, self.chapter);
            push_char(&mut label, '.');
            push_decimal(&mut label, self.section);
            push_char(&mut label, ' ');
            push_str(&mut label, text);
            assert(label@ =~= decimal(self.chapter as nat) + seq!['.'] + decimal(self.section as nat) + seq![' '] + text@);
            push_paragraph(out, heading_section_paragraph(label.as_str()));
        } else if level == 4 && self.mode == Mode::Body {
            self.subsection = self.subsection + 1;
            let mut label = String::new();
            push_decimal(&mut label, self.chapter);
            push_char(&mut label, '.');
            push_decimal(&mut label, self.section);
            push_char(&mut label, '.');
            push_decimal(&mut label, self.subsection);
            push_char(&mut label, ' ');
            push_str(&mut label, text);
            assert(label@ =~= decimal(self.chapter as nat) + seq!['.'] + decimal(self.section as nat) + seq!['.']
                + decimal(self.subsection as nat) + seq![' '] + text@);
            push_paragraph(out, heading_subsection_paragraph(label.as_str()));
        } else if level == 2 && self.mode == Mode::Reference {
            push_paragraph(out, heading_section_paragraph(text));
        } else if level == 3 && self.mode == Mode::Reference {
            push_paragraph(out, heading_subsection_paragraph(text));
        } else if self.mode == Mode::Abstract {
            push_paragraph(out, aligned_heading_paragraph(Align::Center, text, Font::ResearchHead, SIZE_HEAD2));
        } else if level == 1 {
            push_paragraph(out, aligned_heading_paragraph(Align::Center, text, Font::ResearchTitle, SIZE_HEAD1));
        }
        assert(items_view(out@) =~= o0 + r.1);
    }

    /// Writes a one-image paragraph (see [`figure_spec`]).
    pub fn add_figure(&mut self, out: &mut Vec<DocItem>, alt: &str, url: &str, loaded: bool)
        requires
            old(self).figure_counter < usize::MAX,
        ensures
            *final(self) == figure_spec(*old(self), alt@, url@, loaded).0,
            items_view(final(out)@) == items_view(old(out)@) + figure_spec(*old(self), alt@, url@, loaded).1,
    {
        let ghost o0 = items_view(out@);
        let ghost r = figure_spec(*self, alt@, url@, loaded);
        if loaded {
            let a = chars_of(alt);
            let captioned = !is_blank_exec(&a);
            push_item(out, DocItem::Figure {
                url: url.to_string(),
                max_width: MAX_IMAGE_WIDTH_EMU,
                keep_next: captioned,
                fallback: image_error_paragraph(alt, url),
            });
            if captioned {
                self.figure_counter = self.figure_counter + 1;
                let mut cap = String::new();
                push_str(&mut cap, "图 ");
                push_str(&mut cap, self.object_number(self.figure_counter).as_str());
                push_char(&mut cap, ' ');
                push_str(&mut cap, string_from_chars(&trim_chars(&a)).as_str());
                assert(cap@ =~= "图 "@ + object_number_spec(*self, self.figure_counter as nat) + seq![' '] + trim(alt@));
                push_paragraph(out, caption_paragraph(cap.as_str()));
            }
        } else {
            push_paragraph(out, image_error_paragraph(alt, url));
        }
        assert(items_view(out@) =~= o0 + r.1);
    }

    /// Writes one block of the main text (see [`emit_spec`]).
    #[verifier::rlimit(40)]
    pub fn emit(&mut self, out: &mut Vec<DocItem>, b: &Block, loaded: bool)
        requires
            main_bounded(*old(self), usize::MAX - 1),
            increments_appendix(*old(self), block_view(*b)) ==> old(self).appendix_idx % 256 < 191,
        ensures
            *final(self) == emit_spec(*old(self), block_view(*b), loaded).0,
            items_view(final(out)@) == items_view(old(out)@) + emit_spec(*old(self), block_view(*b), loaded).1,
    {
        let ghost e = *self;
        let ghost o0 = items_view(out@);
        let ghost r = emit_spec(e, block_view(*b), loaded);
        match b {
            Block::Marker(kind) => {
                self.list.reset();
                self.handle_marker(*kind);
                match kind {
                    MarkerKind::Abstract => {
                        self.suppress_next_heading = Some(Suppressed::Abstract);
                        push_paragraph(out, heading_chapter_paragraph("摘要"));
                    },
                    MarkerKind::Reference => {
                        self.suppress_next_heading = Some(Suppressed::Reference);
                        push_page_break(out);
                        push_paragraph(out, heading_chapter_paragraph("参考文献"));
                    },
                    _ => {},
                }
            },
            Block::Heading { level, text } => {
                self.list.reset();
                let expected = self.suppress_next_heading;
                self.suppress_next_heading = None;
                let skip = match expected {
                    Some(s) => {
                        if *level == 1 {
                            let t = trim_chars(&chars_of(text.as_str()));
                            let want = match s {
                                Suppressed::Abstract => chars_of("摘要"),
                                Suppressed::Reference => chars_of("参考文献"),
                            };
                            chars_eq(&t, &want)
                        } else {
                            false
                        }
                    },
                    None => false,
                };
                if !skip {
                    self.emit_heading(out, *level, text.as_str());
                }
            },
            Block::Paragraph(inlines) => {
                self.list.reset();
                match sole_image_index(inlines.as_slice()) {
                    Some(i) => match &inlines[i] {
                        Inline::Image { alt, url, .. } => {
                            self.add_figure(out, alt.as_str(), url.as_str(), loaded);
                        },
                        _ => {},
                    },
                    None => {
                        push_paragraph(out, body_paragraph(inlines.as_slice()));
                    },
                }
            },
            Block::List { ordered: _, level, content } => {
                if self.mode == Mode::Reference && *level == 1 {
                    self.ref_counter = self.ref_counter + 1;
                    let mut prefix = String::new();
                    push_char(&mut prefix, '[');
                    push_decimal(&mut prefix, self.ref_counter);
                    push_char(&mut prefix, ']');
                    push_char(&mut prefix, ' ');
                    assert(prefix@ =~= seq!['['] + decimal(self.ref_counter as nat) + seq![']', ' ']);
                    push_paragraph(out, list_paragraph(*level, prefix.as_str(), content.as_slice()));
                } else {
                    let prefix = next_prefix(&mut self.list, *level);
                    push_paragraph(out, list_paragraph(*level, prefix.as_str(), content.as_slice()));
                }
            },
            Block::Table { rows, caption } => {
                self.list.reset();
                match caption {
                    Some(c) => {
                        self.table_counter = self.table_counter + 1;
                        let mut cap = String::new();
                        push_str(&mut cap, "表 ");
                        push_str(&mut cap, self.object_number(self.table_counter).as_str());
                        push_char(&mut cap, ' ');
                        push_str(&mut cap, c.as_str());
                        assert(cap@ =~= "表 "@ + object_number_spec(*self, self.table_counter as nat) + seq![' '] + c@);
                        push_paragraph(out, caption_paragraph(cap.as_str()));
                    },
                    None => {},
                }
                add_table(out, rows);
            },
            Block::CodeBlock { content, .. } => {
                self.list.reset();
                add_code_block(out, content.as_str());
            },
            Block::Empty => {},
            Block::Label(_) => {},
        }
        assert(items_view(out@) =~= o0 + r.1);
    }

    /// Whether the block would open a new appendix (see [`increments_appendix`]).
    pub fn opens_appendix(&self, b: &Block) -> (r: bool)
        ensures
            r == increments_appendix(*self, block_view(*b)),
    {
        match b {
            Block::Heading { level, text } => {
                if self.mode != Mode::Appendix {
                    return false;
                }
                let suppressed = match self.suppress_next_heading {
                    Some(s) => {
                        if *level == 1 {
                            let t = trim_chars(&chars_of(text.as_str()));
                            let want = match s {
                                Suppressed::Abstract => chars_of("摘要"),
                                Suppressed::Reference => chars_of("参考文献"),
                            };
                            chars_eq(&t, &want)
                        } else {
                            false
                        }
                    },
                    None => false,
                };
                !suppressed && (*level == 1 || (*level == 2 && !self.appendix_saw_h1))
            },
            _ => false,
        }
    }

    /// Writes the blocks in order; `loaded[i]` tells whether the image of
    /// block `i`, if it is a one-image paragraph, could be loaded.
    pub fn emit_all(&mut self, out: &mut Vec<DocItem>, blocks: &[Block], loaded: &[bool])
        requires
            loaded@.len() == blocks@.len(),
            main_bounded(*old(self), usize::MAX - blocks@.len()),
            letters_fit(*old(self), blocks@.map_values(|b: Block| block_view(b)), loaded@),
        ensures
            *final(self) == emit_all_spec(*old(self), blocks@.map_values(|b: Block| block_view(b)), loaded@).0,
            items_view(final(out)@) == items_view(old(out)@)
                + emit_all_spec(*old(self), blocks@.map_values(|b: Block| block_view(b)), loaded@).1,
    {
        let ghost bv = blocks@.map_values(|b: Block| block_view(b));
        let ghost e0 = *self;
        let ghost o0 = items_view(out@);
        let mut i: usize = 0;
        while i < blocks.len()
            invariant
                i <= blocks@.len(),
                loaded@.len() == blocks@.len(),
                bv == blocks@.map_values(|b: Block| block_view(b)),
                letters_fit(e0, bv, loaded@),
                main_bounded(*self, usize::MAX - blocks@.len() + i),
                *self == emit_all_spec(e0, bv.take(i as int), loaded@).0,
                items_view(out@) == o0 + emit_all_spec(e0, bv.take(i as int), loaded@).1,
            decreases blocks@.len() - i,
        {
            proof {
                assert(bv.take(i + 1).drop_last() =~= bv.take(i as int));
                assert(bv.take(i + 1).last() == block_view(blocks@[i as int]));
                lemma_letters_fit_prefix(e0, bv, loaded@, i as int + 1);
                lemma_emit_bounded(*self, bv[i as int], loaded@[i as int], usize::MAX - blocks@.len() + i);
            }
            self.emit(out, &blocks[i], loaded[i]);
            assert(items_view(out@) =~= o0 + emit_all_spec(e0, bv.take(i + 1), loaded@).1);
            i += 1;
        }
        assert(bv.take(blocks@.len() as int) =~= bv);
    }
}

pub proof fn lemma_letters_fit_prefix(e: MainEmitter, bs: Seq<SBlock>, loaded: Seq<bool>, k: int)
    requires
        0 <= k <= bs.len(),
        letters_fit(e, bs, loaded),
    ensures
        letters_fit(e, bs.take(k), loaded),
    decreases bs.len() - k,
{
    if k < bs.len() {
        lemma_letters_fit_prefix(e, bs, loaded, k + 1);
        assert(bs.take(k + 1).drop_last() =~= bs.take(k));
    } else {
        assert(bs.take(k) =~= bs);
    }
}

/// The next research-style list prefix for `level` (see [`research_prefix`]).
pub fn next_prefix(list: &mut ListState, level: u8) -> (s: String)
    requires
        list_bounded(*old(list), usize::MAX - 1),
    ensures
        *final(list) == list_advance(*old(list), level),
        s@ == research_prefix(level, list_count(*final(list), level)),
{
    proof {
        lemma_list_advance(*list, level, usize::MAX - 1);
    }
    let count = list.advance(level);
    research_prefix_string(level, count)
}

// ---------------------------------------------------------------------------
// Laws of the main text
// ---------------------------------------------------------------------------

/// The abstract and references markers write their title; a level-1 heading
/// with the same text right after them adds nothing, so the title appears
/// once.
pub proof fn lemma_section_title_written_once(e: MainEmitter, k: MarkerKind, text: Seq<char>, l1: bool, l2: bool)
    requires
        k == MarkerKind::Abstract || k == MarkerKind::Reference,
        trim(text) == (if k == MarkerKind::Abstract { "摘要"@ } else { "参考文献"@ }),
    ensures
        ({
            let (e1, a) = emit_spec(e, SBlock::Marker(k), l1);
            &&& a.last() == p(chapter_para(if k == MarkerKind::Abstract { "摘要"@ } else { "参考文献"@ }))
            &&& emit_spec(e1, SBlock::Heading { level: 1, text }, l2).1 == Seq::<SItem>::empty()
        }),
{
}

/// After the references marker, first-level list items are numbered `[1] `,
/// `[2] `, ... whatever lists came before.
pub proof fn lemma_references_numbered_from_one(e: MainEmitter, ordered: bool, content: Seq<SInline>, l1: bool, l2: bool)
    ensures
        ({
            let e1 = emit_spec(e, SBlock::Marker(MarkerKind::Reference), l1).0;
            emit_spec(e1, SBlock::List { ordered, level: 1, content }, l2).1
                == seq![p(list_para(1, seq!['['] + decimal(1) + seq![']', ' '], content))]
        }),
{
}

/// After the body marker, the first level-2 heading opens chapter 一 on a new
/// page, and the level-3 heading that follows is section `1.1`.
pub proof fn lemma_body_numbering_restarts(e: MainEmitter, t1: Seq<char>, t2: Seq<char>, l1: bool, l2: bool, l3: bool)
    ensures
        ({
            let e1 = emit_spec(e, SBlock::Marker(MarkerKind::Body), l1).0;
            let (e2, a) = emit_spec(e1, SBlock::Heading { level: 2, text: t1 }, l2);
            let (e3, b) = emit_spec(e2, SBlock::Heading { level: 3, text: t2 }, l3);
            &&& e2.chapter == 1
            &&& a == seq![p(page_break_para()), p(chapter_para("第"@ + chinese_numeral(1) + "章 "@ + t1))]
            &&& b == seq![p(section_para(decimal(1) + seq!['.'] + decimal(1) + seq![' '] + t2))]
            &&& e3.section == 1
        }),
{
}

/// A list that follows a paragraph starts over: its first item of any level
/// 1..=6 has that level's first prefix (outside the references, whose first
/// level is numbered `[n]`).
pub proof fn lemma_list_restarts_after_paragraph(
    e: MainEmitter,
    inl: Seq<SInline>,
    ordered: bool,
    level: u8,
    content: Seq<SInline>,
    l1: bool,
    l2: bool,
)
    requires
        1 <= level <= 6,
        !(e.mode == Mode::Reference && level == 1),
    ensures
        emit_spec(emit_spec(e, SBlock::Paragraph(inl), l1).0, SBlock::List { ordered, level, content }, l2).1
            == seq![p(list_para(level, research_prefix(level, 1), content))],
{
    let e1 = emit_spec(e, SBlock::Paragraph(inl), l1).0;
    assert(e1.list == list_reset());
    assert(e1.mode == e.mode);
}

// ---------------------------------------------------------------------------
// Revision history
// ---------------------------------------------------------------------------

/// State of the revision-history section.
#[derive(Clone, Copy, Debug)]
pub struct ChangelogEmitter {
    pub list: ListState,
    pub table_counter: usize,
}

pub open spec fn changelog_heading_size(level: u8) -> u32 {
    if level == 1 || level == 2 {
        SIZE_HEAD2
    } else if level == 3 {
        SIZE_HEAD3
    } else {
        SIZE_BODY
    }
}

/// A block of the revision history: headings become bold lines, tables are
/// numbered `表 N`, markers, code and labels are left out.
pub open spec fn changelog_emit_spec(e: ChangelogEmitter, b: SBlock) -> (ChangelogEmitter, Seq<SItem>) {
    match b {
        SBlock::Heading { level, text } => (
            ChangelogEmitter { list: list_reset(), ..e },
            seq![p(text_para(body_aligned(Align::Left), text, head(changelog_heading_size(level))))],
        ),
        SBlock::Paragraph(inl) => (ChangelogEmitter { list: list_reset(), ..e }, seq![p(body_para(inl))]),
        SBlock::List { ordered, level, content } => {
            let l = list_advance(e.list, level);
            (ChangelogEmitter { list: l, ..e }, seq![p(list_para(level, research_prefix(level, list_count(l, level)), content))])
        },
        SBlock::Table { rows, caption } => {
            let e1 = ChangelogEmitter { list: list_reset(), ..e };
            match caption {
                Some(c) => {
                    let t = (e1.table_counter + 1) as usize;
                    (
                        ChangelogEmitter { table_counter: t, ..e1 },
                        seq![p(caption_para("表 "@ + decimal(t as nat) + seq![' '] + c))] + table_items(rows),
                    )
                },
                None => (e1, table_items(rows)),
            }
        },
        _ => (e, Seq::empty()),
    }
}

pub open spec fn changelog_bounded(e: ChangelogEmitter, n: int) -> bool {
    e.table_counter <= n && list_bounded(e.list, n)
}

impl ChangelogEmitter {
    pub fn new() -> (e: ChangelogEmitter)
        ensures
            e.list == list_reset(),
            e.table_counter == 0,
    {
        ChangelogEmitter { list: ListState::new(), table_counter: 0 }
    }

    /// Writes one block of the revision history (see [`changelog_emit_spec`]).
    pub fn emit(&mut self, out: &mut Vec<DocItem>, b: &Block)
        requires
            changelog_bounded(*old(self), usize::MAX - 1),
        ensures
            *final(self) == changelog_emit_spec(*old(self), block_view(*b)).0,
            items_view(final(out)@) == items_view(old(out)@) + changelog_emit_spec(*old(self), block_view(*b)).1,
    {
        let ghost o0 = items_view(out@);
        let ghost r = changelog_emit_spec(*self, block_view(*b));
        match b {
            Block::Heading { level, text } => {
                self.list.reset();
                let size = if *level == 1 || *level == 2 {
                    SIZE_HEAD2
                } else if *level == 3 {
                    SIZE_HEAD3
                } else {
                    SIZE_BODY
                };
                push_paragraph(out, aligned_heading_paragraph(Align::Left, text.as_str(), Font::ResearchHead, size));
            },
            Block::Paragraph(inlines) => {
                self.list.reset();
                push_paragraph(out, body_paragraph(inlines.as_slice()));
            },
            Block::List { ordered: _, level, content } => {
                let prefix = next_prefix(&mut self.list, *level);
                push_paragraph(out, list_paragraph(*level, prefix.as_str(), content.as_slice()));
            },
            Block::Table { rows, caption } => {
                self.list.reset();
                match caption {
                    Some(c) => {
                        self.table_counter = self.table_counter + 1;
                        let mut cap = String::new();
                        push_str(&mut cap, "表 ");
                        push_decimal(&mut cap, self.table_counter);
                        push_char(&mut cap, ' ');
                        push_str(&mut cap, c.as_str());
                        assert(cap@ =~= "表 "@ + decimal(self.table_counter as nat) + seq![' '] + c@);
                        push_paragraph(out, caption_paragraph(cap.as_str()));
                    },
                    None => {},
                }
                add_table(out, rows);
            },
            _ => {},
        }
        assert(items_view(out@) =~= o0 + r.1);
    }
}

} // verus!
