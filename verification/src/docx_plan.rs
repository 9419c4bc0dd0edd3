//! A Word document described as plain values: paragraphs made of runs, figures,
//! tables and the table of contents, in document order, with the formatting
//! each one carries. The two document styles plan their output in this form;
//! writing it into a `.docx` package is a mechanical rendering of each item.
//!
//! Sizes are in half-points, lengths in twips, image widths in EMU.

use vstd::prelude::*;

verus! {

/// The fonts of the two document styles.
#[derive(Clone, Copy, PartialEq, Eq, Debug)]
pub enum Font {
    /// FZXiaoBiaoSong-B05
    ResearchTitle,
    /// FZHei-B01
    ResearchHead,
    /// FZShuSong-Z01
    ResearchBody,
    /// FZKai-Z03
    ResearchKai,
    /// 方正小标宋简体
    OfficialTitle,
    /// 黑体
    OfficialHead,
    /// 楷体_GB2312
    OfficialKai,
    /// 仿宋_GB2312
    OfficialBody,
    /// 宋体
    OfficialSong,
}

/// Character formatting of a run.
#[derive(Clone, Copy, PartialEq, Eq, Debug)]
pub struct RunStyle {
    pub font: Font,
    pub size: u32,
    pub bold: bool,
    pub italic: bool,
}

/// What a run holds.
#[derive(Debug)]
pub enum RunContent {
    Text(String),
    /// A tab character.
    Tab,
    /// An image scaled to at most `max_width`; where it cannot be loaded the
    /// run holds `fallback` as text instead.
    Image { url: String, max_width: u32, fallback: String },
}

#[derive(Debug)]
pub struct RunSpec {
    pub content: RunContent,
    pub style: RunStyle,
}

#[derive(Clone, Copy, PartialEq, Eq, Debug)]
pub enum Align {
    Left,
    Center,
    Both,
}

#[derive(Clone, Copy, PartialEq, Eq, Debug)]
pub enum LineRule {
    AtLeast,
    Exact,
}

#[derive(Clone, Copy, PartialEq, Eq, Debug)]
pub struct Spacing {
    pub before: Option<u32>,
    pub after: Option<u32>,
    pub line: Option<u32>,
    pub rule: Option<LineRule>,
}

#[derive(Clone, Copy, PartialEq, Eq, Debug)]
pub enum SpecialIndent {
    FirstLine(u32),
    Hanging(u32),
}

#[derive(Clone, Copy, PartialEq, Eq, Debug)]
pub struct Indent {
    pub start: Option<u32>,
    pub special: Option<SpecialIndent>,
    /// Start indent in hundredths of a character.
    pub start_chars: Option<u32>,
}

/// The registered heading styles (`Heading1`..`Heading3`).
#[derive(Clone, Copy, PartialEq, Eq, Debug)]
pub enum ParaStyle {
    Heading1,
    Heading2,
    Heading3,
}

/// Paragraph formatting.
#[derive(Clone, Copy, PartialEq, Eq, Debug)]
pub struct ParaFormat {
    pub style: Option<ParaStyle>,
    pub align: Option<Align>,
    pub spacing: Option<Spacing>,
    pub indent: Option<Indent>,
    pub keep_next: bool,
    pub page_break_before: bool,
    /// A thin rule under the paragraph.
    pub bottom_border: bool,
    /// A right-aligned tab stop at this position.
    pub right_tab: Option<u32>,
}

#[derive(Debug)]
pub struct ParaSpec {
    pub format: ParaFormat,
    pub runs: Vec<RunSpec>,
}

/// One element of the document body.
#[derive(Debug)]
pub enum DocItem {
    Paragraph(ParaSpec),
    /// A centred paragraph holding one image scaled to at most `max_width`;
    /// where the image cannot be loaded, the `fallback` paragraph stands in.
    Figure { url: String, max_width: u32, keep_next: bool, fallback: ParaSpec },
    /// A bordered table; each cell holds one paragraph.
    Table(Vec<Vec<ParaSpec>>),
    /// A table of contents over heading levels 1..=3, refreshed when opened.
    TableOfContents,
}

// ---------------------------------------------------------------------------
// Views
// ---------------------------------------------------------------------------

pub enum SRunContent {
    Text(Seq<char>),
    Tab,
    Image { url: Seq<char>, max_width: u32, fallback: Seq<char> },
}

pub struct SRun {
    pub content: SRunContent,
    pub style: RunStyle,
}

pub struct SPara {
    pub format: ParaFormat,
    pub runs: Seq<SRun>,
}

pub enum SItem {
    Paragraph(SPara),
    Figure { url: Seq<char>, max_width: u32, keep_next: bool, fallback: SPara },
    Table(Seq<Seq<SPara>>),
    TableOfContents,
}

pub open spec fn run_view(r: RunSpec) -> SRun {
    SRun {
        content: match r.content {
            RunContent::Text(t) => SRunContent::Text(t@),
            RunContent::Tab => SRunContent::Tab,
            RunContent::Image { url, max_width, fallback } => SRunContent::Image {
                url: url@,
                max_width,
                fallback: fallback@,
            },
        },
        style: r.style,
    }
}

pub open spec fn runs_view(s: Seq<RunSpec>) -> Seq<SRun> {
    s.map_values(|r: RunSpec| run_view(r))
}

pub open spec fn para_view(p: ParaSpec) -> SPara {
    SPara { format: p.format, runs: runs_view(p.runs@) }
}

pub open spec fn cells_view(s: Seq<ParaSpec>) -> Seq<SPara> {
    s.map_values(|p: ParaSpec| para_view(p))
}

pub open spec fn grid_view(s: Seq<Vec<ParaSpec>>) -> Seq<Seq<SPara>> {
    s.map_values(|row: Vec<ParaSpec>| cells_view(row@))
}

pub open spec fn item_view(i: DocItem) -> SItem {
    match i {
        DocItem::Paragraph(p) => SItem::Paragraph(para_view(p)),
        DocItem::Figure { url, max_width, keep_next, fallback } => SItem::Figure {
            url: url@,
            max_width,
            keep_next,
            fallback: para_view(fallback),
        },
        DocItem::Table(rows) => SItem::Table(grid_view(rows@)),
        DocItem::TableOfContents => SItem::TableOfContents,
    }
}

pub open spec fn items_view(s: Seq<DocItem>) -> Seq<SItem> {
    s.map_values(|i: DocItem| item_view(i))
}

/// The text of a run as it reads in the document: a tab reads as `\t`, an
/// image as nothing.
pub open spec fn run_text(r: SRun) -> Seq<char> {
    match r.content {
        SRunContent::Text(t) => t,
        SRunContent::Tab => seq!['\t'],
        SRunContent::Image { .. } => Seq::empty(),
    }
}

/// The text of a paragraph: its runs' texts in order.
pub open spec fn para_text(runs: Seq<SRun>) -> Seq<char>
    decreases runs.len(),
{
    if runs.len() == 0 {
        Seq::empty()
    } else {
        para_text(runs.drop_last()) + run_text(runs.last())
    }
}

// ---------------------------------------------------------------------------
// Building
// ---------------------------------------------------------------------------

/// A paragraph format with nothing set.
pub open spec fn plain_format() -> ParaFormat {
    ParaFormat {
        style: None,
        align: None,
        spacing: None,
        indent: None,
        keep_next: false,
        page_break_before: false,
        bottom_border: false,
        right_tab: None,
    }
}

/// Line spacing of at least `line`.
pub open spec fn at_least(line: u32) -> Spacing {
    Spacing { before: None, after: None, line: Some(line), rule: Some(LineRule::AtLeast) }
}

pub open spec fn text_srun(t: Seq<char>, style: RunStyle) -> SRun {
    SRun { content: SRunContent::Text(t), style }
}

pub fn text_run(t: String, style: RunStyle) -> (r: RunSpec)
    ensures
        run_view(r) == text_srun(t@, style),
{
    RunSpec { content: RunContent::Text(t), style }
}

pub fn str_run(t: &str, style: RunStyle) -> (r: RunSpec)
    ensures
        run_view(r) == text_srun(t@, style),
{
    RunSpec { content: RunContent::Text(t.to_string()), style }
}

/// A paragraph of one text run.
pub open spec fn text_para(format: ParaFormat, t: Seq<char>, style: RunStyle) -> SPara {
    SPara { format, runs: seq![text_srun(t, style)] }
}

pub fn one_run_para(format: ParaFormat, r: RunSpec) -> (p: ParaSpec)
    ensures
        para_view(p) == (SPara { format, runs: seq![run_view(r)] }),
{
    let mut runs: Vec<RunSpec> = Vec::new();
    runs.push(r);
    assert(runs_view(runs@) =~= seq![run_view(r)]);
    ParaSpec { format, runs }
}

pub fn text_paragraph(format: ParaFormat, t: &str, style: RunStyle) -> (p: ParaSpec)
    ensures
        para_view(p) == text_para(format, t@, style),
{
    one_run_para(format, str_run(t, style))
}

pub fn empty_paragraph(format: ParaFormat) -> (p: ParaSpec)
    ensures
        para_view(p) == (SPara { format, runs: Seq::empty() }),
{
    let runs: Vec<RunSpec> = Vec::new();
    assert(runs_view(runs@) =~= Seq::<SRun>::empty());
    ParaSpec { format, runs }
}

pub fn push_run(p: &mut ParaSpec, r: RunSpec)
    ensures
        para_view(*final(p)) == (SPara { format: old(p).format, runs: para_view(*old(p)).runs.push(run_view(r)) }),
{
    let ghost before = p.runs@;
    p.runs.push(r);
    assert(runs_view(p.runs@) =~= runs_view(before).push(run_view(r)));
}

pub fn push_item(out: &mut Vec<DocItem>, it: DocItem)
    ensures
        items_view(final(out)@) == items_view(old(out)@).push(item_view(it)),
{
    let ghost before = out@;
    out.push(it);
    assert(items_view(out@) =~= items_view(before).push(item_view(it)));
}

pub fn push_paragraph(out: &mut Vec<DocItem>, p: ParaSpec)
    ensures
        items_view(final(out)@) == items_view(old(out)@).push(SItem::Paragraph(para_view(p))),
{
    push_item(out, DocItem::Paragraph(p));
}

/// A paragraph that starts a new page and holds nothing.
pub open spec fn page_break_para() -> SPara {
    SPara { format: ParaFormat { page_break_before: true, ..plain_format() }, runs: Seq::empty() }
}

pub fn push_page_break(out: &mut Vec<DocItem>)
    ensures
        items_view(final(out)@) == items_view(old(out)@).push(SItem::Paragraph(page_break_para())),
{
    let f = ParaFormat {
        style: None,
        align: None,
        spacing: None,
        indent: None,
        keep_next: false,
        page_break_before: true,
        bottom_border: false,
        right_tab: None,
    };
    push_paragraph(out, empty_paragraph(f));
}

// ---------------------------------------------------------------------------
// List counters
// ---------------------------------------------------------------------------

/// Counters of the six list levels and the level of the last list item.
#[derive(Clone, Copy, Debug)]
pub struct ListState {
    pub in_list: bool,
    pub level: u8,
    pub l1: usize,
    pub l2: usize,
    pub l3: usize,
    pub l4: usize,
    pub l5: usize,
    pub l6: usize,
}

pub open spec fn list_reset() -> ListState {
    ListState { in_list: false, level: 0, l1: 0, l2: 0, l3: 0, l4: 0, l5: 0, l6: 0 }
}

/// The counters after a list item of `level`: deeper counters restart when a
/// shallower item comes, a level's own counter restarts when the list starts
/// or the item is deeper than the last one, and the level's counter grows by
/// one. An item of another level only records that a list goes on.
pub open spec fn list_advance(s: ListState, level: u8) -> ListState {
    let t = if level == 1 {
        let a = if !s.in_list || s.level > 1 { ListState { l2: 0, l3: 0, l4: 0, l5: 0, l6: 0, ..s } } else { s };
        let b = if !s.in_list { ListState { l1: 0, ..a } } else { a };
        ListState { l1: (b.l1 + 1) as usize, ..b }
    } else if level == 2 {
        let a = if !s.in_list || s.level != 2 {
            let x = if s.level > 2 { ListState { l3: 0, l4: 0, l5: 0, l6: 0, ..s } } else { s };
            if !s.in_list || s.level < 2 { ListState { l2: 0, l3: 0, l4: 0, l5: 0, l6: 0, ..x } } else { x }
        } else {
            s
        };
        ListState { l2: (a.l2 + 1) as usize, ..a }
    } else if level == 3 {
        let a = if !s.in_list || s.level < 3 { ListState { l3: 0, l4: 0, l5: 0, l6: 0, ..s } } else { s };
        ListState { l3: (a.l3 + 1) as usize, ..a }
    } else if level == 4 {
        let a = if !s.in_list || s.level < 4 { ListState { l4: 0, l5: 0, l6: 0, ..s } } else { s };
        ListState { l4: (a.l4 + 1) as usize, ..a }
    } else if level == 5 {
        let a = if !s.in_list || s.level < 5 { ListState { l5: 0, l6: 0, ..s } } else { s };
        ListState { l5: (a.l5 + 1) as usize, ..a }
    } else if level == 6 {
        let a = if !s.in_list || s.level < 6 { ListState { l6: 0, ..s } } else { s };
        ListState { l6: (a.l6 + 1) as usize, ..a }
    } else {
        s
    };
    ListState { in_list: true, level, ..t }
}

/// The counter of `level` (0 for a level outside 1..=6).
pub open spec fn list_count(s: ListState, level: u8) -> nat {
    if level == 1 {
        s.l1 as nat
    } else if level == 2 {
        s.l2 as nat
    } else if level == 3 {
        s.l3 as nat
    } else if level == 4 {
        s.l4 as nat
    } else if level == 5 {
        s.l5 as nat
    } else if level == 6 {
        s.l6 as nat
    } else {
        0
    }
}

/// Every counter is at most `n`.
pub open spec fn list_bounded(s: ListState, n: int) -> bool {
    s.l1 <= n && s.l2 <= n && s.l3 <= n && s.l4 <= n && s.l5 <= n && s.l6 <= n
}

/// An item's counter is at least 1 and grows by one along a level; the
/// counters stay within one more than before.
pub proof fn lemma_list_advance(s: ListState, level: u8, n: int)
    requires
        list_bounded(s, n),
        n < usize::MAX,
    ensures
        list_bounded(list_advance(s, level), n + 1),
        1 <= level <= 6 ==> list_count(list_advance(s, level), level) >= 1,
        1 <= level <= 6 && s.in_list && s.level == level ==> list_count(list_advance(s, level), level)
            == list_count(s, level) + 1,
        1 <= level <= 6 && !s.in_list ==> list_count(list_advance(s, level), level) == 1,
{
}

impl ListState {
    pub fn new() -> (r: ListState)
        ensures
            r == list_reset(),
    {
        ListState { in_list: false, level: 0, l1: 0, l2: 0, l3: 0, l4: 0, l5: 0, l6: 0 }
    }

    pub fn reset(&mut self)
        ensures
            *final(self) == list_reset(),
    {
        *self = ListState::new();
    }

    /// Records a list item of `level` and returns its counter.
    pub fn advance(&mut self, level: u8) -> (count: usize)
        requires
            list_bounded(*old(self), usize::MAX - 1),
        ensures
            *final(self) == list_advance(*old(self), level),
            count == list_count(*final(self), level),
    {
        if level == 1 {
            if !self.in_list || self.level > 1 {
                self.l2 = 0;
                self.l3 = 0;
                self.l4 = 0;
                self.l5 = 0;
                self.l6 = 0;
            }
            if !self.in_list {
                self.l1 = 0;
            }
            self.l1 = self.l1 + 1;
        } else if level == 2 {
            if !self.in_list || self.level != 2 {
                if self.level > 2 {
                    self.l3 = 0;
                    self.l4 = 0;
                    self.l5 = 0;
                    self.l6 = 0;
                }
                if !self.in_list || self.level < 2 {
                    self.l2 = 0;
                    self.l3 = 0;
                    self.l4 = 0;
                    self.l5 = 0;
                    self.l6 = 0;
                }
            }
            self.l2 = self.l2 + 1;
        } else if level == 3 {
            if !self.in_list || self.level < 3 {
                self.l3 = 0;
                self.l4 = 0;
                self.l5 = 0;
                self.l6 = 0;
            }
            self.l3 = self.l3 + 1;
        } else if level == 4 {
            if !self.in_list || self.level < 4 {
                self.l4 = 0;
                self.l5 = 0;
                self.l6 = 0;
            }
            self.l4 = self.l4 + 1;
        } else if level == 5 {
            if !self.in_list || self.level < 5 {
                self.l5 = 0;
                self.l6 = 0;
            }
            self.l5 = self.l5 + 1;
        } else if level == 6 {
            if !self.in_list || self.level < 6 {
                self.l6 = 0;
            }
            self.l6 = self.l6 + 1;
        }
        self.in_list = true;
        self.level = level;
        if level == 1 {
            self.l1
        } else if level == 2 {
            self.l2
        } else if level == 3 {
            self.l3
        } else if level == 4 {
            self.l4
        } else if level == 5 {
            self.l5
        } else if level == 6 {
            self.l6
        } else {
            0
        }
    }
}

} // verus!
