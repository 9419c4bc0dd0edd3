//! The whole research report: the split of the blocks, the cover, the table
//! of contents, the revision history and the main text.

use vstd::prelude::*;
use crate::common::ast::{Block, Inline, MarkerKind, SBlock, block_view, blocks_view, clone_block, opt_view};
use crate::common::front_matter::Metadata;
use crate::docx_plan::{
    Align, DocItem, Font, LineRule, ParaFormat, RunContent, RunSpec, RunStyle, SItem, SPara, SRun, SRunContent,
    Spacing, at_least, items_view, list_bounded, list_reset, page_break_para, plain_format, push_item,
    push_page_break, push_paragraph, push_run, run_view, str_run, text_para, text_paragraph, text_srun,
};
use crate::docx_research::blocks::{
    LINE_BODY, LINE_HEAD, SIZE_BODY, SIZE_COVER_DATE, SIZE_COVER_INSTITUTION, SIZE_COVER_TITLE, SIZE_HEAD1,
    SPACING_AFTER_CHAPTER, head, head_style,
};
use crate::docx_research::emitter::{
    ChangelogEmitter, MainEmitter, changelog_bounded, changelog_emit_spec, emit_all_spec, increments_appendix,
    initial_main, letters_fit, lemma_emit_bounded, main_bounded, p,
};
use crate::tex_research::merger::{normalize_cover_date, normalize_date_spec};
use crate::text::{chars_eq, chars_of, decimal, push_char, push_decimal, push_str, trim, trim_chars};

verus! {

// ---------------------------------------------------------------------------
// The split
// ---------------------------------------------------------------------------

/// The blocks parted into the title (the first level-1 heading), the
/// revision history (what follows its marker up to the next section marker)
/// and the main text (section markers included).
pub struct SplitBlocks {
    pub title: Option<String>,
    pub changelog: Vec<Block>,
    pub main: Vec<Block>,
}

/// The title, the revision history, the main text, and whether the blocks
/// end inside the revision history.
pub open spec fn split_spec(bs: Seq<SBlock>) -> (Option<Seq<char>>, Seq<SBlock>, Seq<SBlock>, bool)
    decreases bs.len(),
{
    if bs.len() == 0 {
        (None, Seq::empty(), Seq::empty(), false)
    } else {
        let (t, c, m, inside) = split_spec(bs.drop_last());
        let b = bs.last();
        match b {
            SBlock::Heading { level, text } if level == 1 && t is None => (Some(text), c, m, inside),
            SBlock::Marker(MarkerKind::Changelog) => (t, c, m, true),
            SBlock::Marker(_) => (t, c, m.push(b), false),
            _ => if inside { (t, c.push(b), m, inside) } else { (t, c, m.push(b), inside) },
        }
    }
}

fn push_block(v: &mut Vec<Block>, b: Block)
    ensures
        blocks_view(final(v)@) == blocks_view(old(v)@).push(block_view(b)),
{
    let ghost before = v@;
    v.push(b);
    assert(blocks_view(v@) =~= blocks_view(before).push(block_view(b)));
}

pub fn split_blocks(blocks: &[Block]) -> (r: SplitBlocks)
    ensures
        ({
            let (t, c, m, _) = split_spec(blocks_view(blocks@));
            &&& opt_view(r.title) == t
            &&& blocks_view(r.changelog@) == c
            &&& blocks_view(r.main@) == m
        }),
{
    let ghost bv = blocks_view(blocks@);
    let mut title: Option<String> = None;
    let mut changelog: Vec<Block> = Vec::new();
    let mut main: Vec<Block> = Vec::new();
    let mut inside = false;
    assert(blocks_view(changelog@) =~= Seq::<SBlock>::empty());
    assert(blocks_view(main@) =~= Seq::<SBlock>::empty());
    let mut i: usize = 0;
    while i < blocks.len()
        invariant
            i <= blocks@.len(),
            bv == blocks_view(blocks@),
            split_spec(bv.take(i as int)) == (opt_view(title), blocks_view(changelog@), blocks_view(main@), inside),
        decreases blocks@.len() - i,
    {
        proof {
            assert(bv.take(i + 1).drop_last() =~= bv.take(i as int));
            assert(bv.take(i + 1).last() == block_view(blocks@[i as int]));
        }
        let b = &blocks[i];
        match b {
            Block::Heading { level, text } => {
                if *level == 1 && title.is_none() {
                    title = Some(text.clone());
                } else if inside {
                    push_block(&mut changelog, clone_block(b));
                } else {
                    push_block(&mut main, clone_block(b));
                }
            },
            Block::Marker(MarkerKind::Changelog) => {
                inside = true;
            },
            Block::Marker(_) => {
                inside = false;
                push_block(&mut main, clone_block(b));
            },
            _ => {
                if inside {
                    push_block(&mut changelog, clone_block(b));
                } else {
                    push_block(&mut main, clone_block(b));
                }
            },
        }
        i += 1;
    }
    assert(bv.take(blocks@.len() as int) =~= bv);
    SplitBlocks { title, changelog, main }
}

// ---------------------------------------------------------------------------
// Cover
// ---------------------------------------------------------------------------

pub open spec fn or_default(o: Option<String>, d: Seq<char>) -> Seq<char> {
    match o {
        Some(s) => s@,
        None => d,
    }
}

/// The security line: level (`公开` by default), then `★` and the period when
/// there is one.
pub open spec fn security_text(m: Metadata) -> Seq<char> {
    let s = or_default(m.security, "公开"@);
    match m.security_years {
        Some(y) => s + "★"@ + y@,
        None => s,
    }
}

pub open spec fn signed_decimal(n: int) -> Seq<char> {
    if n < 0 { seq!['-'] + decimal((-n) as nat) } else { decimal(n as nat) }
}

/// The cover date: the front matter's date normalised, or the given year
/// and month.
pub open spec fn cover_date(m: Metadata, year: int, month: nat) -> Seq<char> {
    match m.date {
        Some(d) => normalize_date_spec(d@),
        None => signed_decimal(year) + " 年 "@ + decimal(month) + " 月"@,
    }
}

pub open spec fn centered_spacing(before: Option<u32>, after: Option<u32>, line: u32) -> ParaFormat {
    ParaFormat {
        align: Some(Align::Center),
        spacing: Some(Spacing { before, after, line: Some(line), rule: Some(LineRule::AtLeast) }),
        ..plain_format()
    }
}

fn centered_spacing_exec(before: Option<u32>, after: Option<u32>, line: u32) -> (f: ParaFormat)
    ensures
        f == centered_spacing(before, after, line),
{
    ParaFormat {
        style: None,
        align: Some(Align::Center),
        spacing: Some(Spacing { before, after, line: Some(line), rule: Some(LineRule::AtLeast) }),
        indent: None,
        keep_next: false,
        page_break_before: false,
        bottom_border: false,
        right_tab: None,
    }
}

pub open spec fn top_format() -> ParaFormat {
    ParaFormat { align: Some(Align::Left), right_tab: Some(8800), spacing: Some(at_least(LINE_BODY)), ..plain_format() }
}

/// The top line: security on the left, the document number (if any) after a
/// right-aligned tab.
pub open spec fn top_para(m: Metadata) -> SPara {
    let lead = seq![text_srun("密级："@ + security_text(m), head(SIZE_BODY))];
    SPara {
        format: top_format(),
        runs: match m.doc_number {
            Some(n) => lead + seq![
                SRun { content: SRunContent::Tab, style: head(SIZE_BODY) },
                text_srun("编号："@ + n@, head(SIZE_BODY)),
            ],
            None => lead,
        },
    }
}

/// The version line, ruled underneath.
pub open spec fn version_format() -> ParaFormat {
    ParaFormat {
        align: Some(Align::Left),
        spacing: Some(Spacing { before: None, after: Some(80), line: Some(LINE_BODY), rule: Some(LineRule::AtLeast) }),
        bottom_border: true,
        ..plain_format()
    }
}

/// The cover page: top line, version, document type (`研究报告` by default),
/// title, institution (`某某单位` by default), date, then a page break.
pub open spec fn cover_spec(title: Seq<char>, m: Metadata, date: Seq<char>) -> Seq<SItem> {
    seq![
        p(top_para(m)),
        p(text_para(version_format(), "版本："@ + or_default(m.version, "V1.0"@), head(SIZE_BODY))),
        p(text_para(centered_spacing(Some(1200), None, LINE_HEAD), or_default(m.doc_type, "研究报告"@), head(SIZE_HEAD1))),
        p(text_para(
            centered_spacing(Some(560), Some(640), 800),
            title,
            RunStyle { font: Font::ResearchTitle, size: SIZE_COVER_TITLE, bold: true, italic: false },
        )),
        p(text_para(centered_spacing(Some(4200), Some(320), LINE_BODY), or_default(m.institution, "某某单位"@), head(SIZE_COVER_INSTITUTION))),
        p(text_para(
            centered_spacing(None, None, LINE_BODY),
            date,
            RunStyle { font: Font::ResearchBody, size: SIZE_COVER_DATE, bold: false, italic: false },
        )),
        p(page_break_para()),
    ]
}

pub open spec fn cover_title(title: Option<Seq<char>>) -> Seq<char> {
    match title {
        Some(t) => t,
        None => "研究报告"@,
    }
}

fn opt_or(o: &Option<String>, d: &str) -> (s: String)
    ensures
        s@ == or_default(*o, d@),
{
    match o {
        Some(x) => x.clone(),
        None => d.to_string(),
    }
}

fn labelled(label: &str, value: &str) -> (s: String)
    ensures
        s@ == label@ + value@,
{
    let mut s = String::new();
    push_str(&mut s, label);
    push_str(&mut s, value);
    s
}

/// Writes the cover with the given date line (see [`cover_spec`]).
#[verifier::rlimit(40)]
pub fn add_cover_dated(out: &mut Vec<DocItem>, title: &str, metadata: &Metadata, date: &str)
    ensures
        items_view(final(out)@) == items_view(old(out)@) + cover_spec(title@, *metadata, date@),
{
    let ghost o0 = items_view(out@);
    let mut security = opt_or(&metadata.security, "公开");
    match &metadata.security_years {
        Some(y) => {
            push_str(&mut security, "★");
            push_str(&mut security, y.as_str());
        },
        None => {},
    }
    assert(security@ == security_text(*metadata));
    let top_f = ParaFormat {
        style: None,
        align: Some(Align::Left),
        spacing: Some(Spacing { before: None, after: None, line: Some(LINE_BODY), rule: Some(LineRule::AtLeast) }),
        indent: None,
        keep_next: false,
        page_break_before: false,
        bottom_border: false,
        right_tab: Some(8800),
    };
    let mut top = text_paragraph(top_f, labelled("密级：", security.as_str()).as_str(), head_style(SIZE_BODY));
    match &metadata.doc_number {
        Some(n) => {
            push_run(&mut top, RunSpec { content: RunContent::Tab, style: head_style(SIZE_BODY) });
            push_run(&mut top, str_run(labelled("编号：", n.as_str()).as_str(), head_style(SIZE_BODY)));
            assert(crate::docx_plan::para_view(top).runs =~= top_para(*metadata).runs);
        },
        None => {
            assert(crate::docx_plan::para_view(top).runs =~= top_para(*metadata).runs);
        },
    }
    assert(crate::docx_plan::para_view(top) == top_para(*metadata));
    push_paragraph(out, top);

    let version_f = ParaFormat {
        style: None,
        align: Some(Align::Left),
        spacing: Some(Spacing { before: None, after: Some(80), line: Some(LINE_BODY), rule: Some(LineRule::AtLeast) }),
        indent: None,
        keep_next: false,
        page_break_before: false,
        bottom_border: true,
        right_tab: None,
    };
    let version = opt_or(&metadata.version, "V1.0");
    push_paragraph(out, text_paragraph(version_f, labelled("版本：", version.as_str()).as_str(), head_style(SIZE_BODY)));

    let doc_type = opt_or(&metadata.doc_type, "研究报告");
    push_paragraph(out, text_paragraph(centered_spacing_exec(Some(1200), None, LINE_HEAD), doc_type.as_str(), head_style(SIZE_HEAD1)));

    push_paragraph(
        out,
        text_paragraph(
            centered_spacing_exec(Some(560), Some(640), 800),
            title,
            RunStyle { font: Font::ResearchTitle, size: SIZE_COVER_TITLE, bold: true, italic: false },
        ),
    );

    let institution = opt_or(&metadata.institution, "某某单位");
    push_paragraph(
        out,
        text_paragraph(centered_spacing_exec(Some(4200), Some(320), LINE_BODY), institution.as_str(), head_style(SIZE_COVER_INSTITUTION)),
    );

    push_paragraph(
        out,
        text_paragraph(
            centered_spacing_exec(None, None, LINE_BODY),
            date,
            RunStyle { font: Font::ResearchBody, size: SIZE_COVER_DATE, bold: false, italic: false },
        ),
    );
    push_page_break(out);
    assert(items_view(out@) =~= o0 + cover_spec(title@, *metadata, date@));
}

fn year_month_text(year: i32, month: u32) -> (s: String)
    ensures
        s@ == signed_decimal(year as int) + " 年 "@ + decimal(month as nat) + " 月"@,
{
    let mut s = String::new();
    if year < 0 {
        push_char(&mut s, '-');
        let y: i64 = -(year as i64);
        push_decimal(&mut s, y as usize);
    } else {
        push_decimal(&mut s, year as usize);
    }
    push_str(&mut s, " 年 ");
    push_decimal(&mut s, month as usize);
    push_str(&mut s, " 月");
    s
}

/// Writes the cover; without a date in the front matter the date line is
/// `year 年 month 月`, the current year and month that the caller reads from
/// the clock.
pub fn add_cover(out: &mut Vec<DocItem>, title: Option<&str>, metadata: &Metadata, year: i32, month: u32)
    ensures
        items_view(final(out)@) == items_view(old(out)@) + cover_spec(
            cover_title(match title { Some(t) => Some(t@), None => None }),
            *metadata,
            cover_date(*metadata, year as int, month as nat),
        ),
{
    let t = match title {
        Some(t) => t.to_string(),
        None => "研究报告".to_string(),
    };
    let date = match &metadata.date {
        Some(d) => normalize_cover_date(d.as_str()),
        None => year_month_text(year, month),
    };
    assert(cover_date(*metadata, year as int, month as nat) == date@);
    add_cover_dated(out, t.as_str(), metadata, date.as_str());
    assert(t@ == cover_title(match title { Some(t) => Some(t@), None => None }));
}

// ---------------------------------------------------------------------------
// Table of contents and revision history
// ---------------------------------------------------------------------------

/// A centred section title that is not itself listed in the contents.
pub open spec fn front_title_para(t: Seq<char>) -> SPara {
    text_para(centered_spacing(Some(0), Some(SPACING_AFTER_CHAPTER), LINE_HEAD), t, head(SIZE_HEAD1))
}

pub open spec fn toc_items() -> Seq<SItem> {
    seq![p(front_title_para("目  录"@)), SItem::TableOfContents, p(page_break_para())]
}

pub fn add_toc(out: &mut Vec<DocItem>)
    ensures
        items_view(final(out)@) == items_view(old(out)@) + toc_items(),
{
    let ghost o0 = items_view(out@);
    push_paragraph(out, text_paragraph(centered_spacing_exec(Some(0), Some(SPACING_AFTER_CHAPTER), LINE_HEAD), "目  录", head_style(SIZE_HEAD1)));
    push_item(out, DocItem::TableOfContents);
    push_page_break(out);
    assert(items_view(out@) =~= o0 + toc_items());
}

/// The revision history's own level-1 title, written once already.
pub open spec fn is_changelog_title(b: SBlock) -> bool {
    match b {
        SBlock::Heading { level, text } => level == 1 && trim(text) == "版本变更记录"@,
        _ => false,
    }
}

/// The revision-history blocks after the first repeated title is left out:
/// the state, whether that title was met, and what the blocks add.
pub open spec fn changelog_run(e: ChangelogEmitter, bs: Seq<SBlock>) -> (ChangelogEmitter, bool, Seq<SItem>)
    decreases bs.len(),
{
    if bs.len() == 0 {
        (e, false, Seq::empty())
    } else {
        let (e1, skipped, items) = changelog_run(e, bs.drop_last());
        if !skipped && is_changelog_title(bs.last()) {
            (e1, true, items)
        } else {
            let (e2, more) = changelog_emit_spec(e1, bs.last());
            (e2, skipped, items + more)
        }
    }
}

pub open spec fn changelog_items(bs: Seq<SBlock>) -> Seq<SItem> {
    let e = ChangelogEmitter { list: list_reset(), table_counter: 0 };
    seq![p(front_title_para("版本变更记录"@))] + changelog_run(e, bs).2 + seq![p(page_break_para())]
}

#[verifier::rlimit(40)]
pub fn add_changelog(out: &mut Vec<DocItem>, blocks: &[Block])
    ensures
        items_view(final(out)@) == items_view(old(out)@) + changelog_items(blocks_view(blocks@)),
{
    let ghost bv = blocks_view(blocks@);
    let ghost o0 = items_view(out@);
    push_paragraph(out, text_paragraph(centered_spacing_exec(Some(0), Some(SPACING_AFTER_CHAPTER), LINE_HEAD), "版本变更记录", head_style(SIZE_HEAD1)));
    let mut e = ChangelogEmitter::new();
    let ghost e0 = e;
    let ghost o1 = items_view(out@);
    let mut skipped = false;
    let title = chars_of("版本变更记录");
    let mut i: usize = 0;
    while i < blocks.len()
        invariant
            i <= blocks@.len(),
            bv == blocks_view(blocks@),
            title@ == "版本变更记录"@,
            e0.list == list_reset() && e0.table_counter == 0,
            changelog_bounded(e, i as int),
            (e, skipped) == (changelog_run(e0, bv.take(i as int)).0, changelog_run(e0, bv.take(i as int)).1),
            items_view(out@) == o1 + changelog_run(e0, bv.take(i as int)).2,
        decreases blocks@.len() - i,
    {
        proof {
            assert(bv.take(i + 1).drop_last() =~= bv.take(i as int));
            assert(bv.take(i + 1).last() == block_view(blocks@[i as int]));
        }
        let b = &blocks[i];
        let is_title = match b {
            Block::Heading { level, text } => *level == 1 && chars_eq(&trim_chars(&chars_of(text.as_str())), &title),
            _ => false,
        };
        if !skipped && is_title {
            skipped = true;
        } else {
            proof {
                crate::docx_plan::lemma_list_advance(e.list, 0, i as int);
                match block_view(*b) {
                    SBlock::List { ordered, level, content } => {
                        crate::docx_plan::lemma_list_advance(e.list, level, i as int);
                    },
                    _ => {},
                }
            }
            e.emit(out, b);
        }
        assert(items_view(out@) =~= o1 + changelog_run(e0, bv.take(i + 1)).2);
        i += 1;
    }
    assert(bv.take(blocks@.len() as int) =~= bv);
    push_page_break(out);
    assert(items_view(out@) =~= o0 + changelog_items(bv));
}

// ---------------------------------------------------------------------------
// The document
// ---------------------------------------------------------------------------

/// What a research report is made of once read: its front matter and its
/// blocks parted.
pub struct ResearchSource {
    pub metadata: Metadata,
    pub split: SplitBlocks,
}

/// The document: cover, contents, the revision history when it has blocks,
/// then the main text.
pub open spec fn document_spec(src: ResearchSource, date: Seq<char>, loaded: Seq<bool>) -> Seq<SItem> {
    let title = match src.metadata.title {
        Some(t) => Some(t@),
        None => opt_view(src.split.title),
    };
    let changelog = blocks_view(src.split.changelog@);
    cover_spec(cover_title(title), src.metadata, date) + toc_items()
        + (if changelog.len() > 0 { changelog_items(changelog) } else { Seq::empty() })
        + emit_all_spec(initial_main(), blocks_view(src.split.main@), loaded).1
}

/// Whether every appendix of the main text gets a letter (see
/// [`letters_fit`]).
pub open spec fn fits(src: ResearchSource, loaded: Seq<bool>) -> bool {
    letters_fit(initial_main(), blocks_view(src.split.main@), loaded)
}

/// Plans the document; `loaded[i]` tells whether the image of main block `i`
/// could be loaded. Without a date in the front matter the cover shows
/// `year` and `month`, the current ones.
#[verifier::rlimit(40)]
pub fn render_document(src: &ResearchSource, loaded: &[bool], year: i32, month: u32) -> (r: Vec<DocItem>)
    requires
        loaded@.len() == src.split.main@.len(),
        fits(*src, loaded@),
    ensures
        items_view(r@) == document_spec(*src, cover_date(src.metadata, year as int, month as nat), loaded@),
{
    let mut out: Vec<DocItem> = Vec::new();
    assert(items_view(out@) =~= Seq::<SItem>::empty());
    let title: Option<&str> = match &src.metadata.title {
        Some(t) => Some(t.as_str()),
        None => match &src.split.title {
            Some(t) => Some(t.as_str()),
            None => None,
        },
    };
    add_cover(&mut out, title, &src.metadata, year, month);
    let ghost cover = items_view(out@);
    add_toc(&mut out);
    if src.split.changelog.len() > 0 {
        add_changelog(&mut out, src.split.changelog.as_slice());
    }
    let ghost before_main = items_view(out@);
    let mut e = MainEmitter::new();
    let _n = src.split.main.len();
    proof {
        assert(blocks_view(src.split.main@) =~= src.split.main@.map_values(|b: Block| block_view(b)));
    }
    e.emit_all(&mut out, src.split.main.as_slice(), loaded);
    proof {
        let changelog = blocks_view(src.split.changelog@);
        let rest = toc_items() + (if changelog.len() > 0 { changelog_items(changelog) } else { Seq::empty() })
            + emit_all_spec(initial_main(), blocks_view(src.split.main@), loaded@).1;
        assert(items_view(out@) =~= cover + rest);
    }
    out
}

/// Whether every appendix of the blocks gets a letter (see [`letters_fit`]).
pub fn appendix_letters_fit(blocks: &[Block], loaded: &[bool]) -> (r: bool)
    requires
        loaded@.len() == blocks@.len(),
    ensures
        r == letters_fit(initial_main(), blocks_view(blocks@), loaded@),
{
    let ghost bv = blocks_view(blocks@);
    let mut e = MainEmitter::new();
    let mut scratch: Vec<DocItem> = Vec::new();
    let mut i: usize = 0;
    while i < blocks.len()
        invariant
            i <= blocks@.len(),
            loaded@.len() == blocks@.len(),
            bv == blocks_view(blocks@),
            main_bounded(e, i as int),
            letters_fit(initial_main(), bv.take(i as int), loaded@),
            e == emit_all_spec(initial_main(), bv.take(i as int), loaded@).0,
        decreases blocks@.len() - i,
    {
        proof {
            assert(bv.take(i + 1).drop_last() =~= bv.take(i as int));
            assert(bv.take(i + 1).last() == block_view(blocks@[i as int]));
        }
        if e.opens_appendix(&blocks[i]) && e.appendix_idx % 256 >= 191 {
            proof {
                lemma_letters_fit_extend(initial_main(), bv, loaded@, i as int + 1);
            }
            return false;
        }
        proof {
            lemma_emit_bounded(e, bv[i as int], loaded@[i as int], i as int);
        }
        e.emit(&mut scratch, &blocks[i], loaded[i]);
        i += 1;
    }
    assert(bv.take(blocks@.len() as int) =~= bv);
    true
}

/// Letters that do not fit in a prefix do not fit in the whole.
proof fn lemma_letters_fit_extend(e: MainEmitter, bs: Seq<SBlock>, loaded: Seq<bool>, k: int)
    requires
        0 <= k <= bs.len(),
        !letters_fit(e, bs.take(k), loaded),
    ensures
        !letters_fit(e, bs, loaded),
    decreases bs.len() - k,
{
    if k < bs.len() {
        assert(bs.take(k + 1).drop_last() =~= bs.take(k));
        lemma_letters_fit_extend(e, bs, loaded, k + 1);
    } else {
        assert(bs.take(k) =~= bs);
    }
}

/// Plans the document (see [`render_document`]), or `None` where an
/// appendix letter would leave the byte range (see [`letters_fit`]).
pub fn render(src: &ResearchSource, loaded: &[bool], year: i32, month: u32) -> (r: Option<Vec<DocItem>>)
    requires
        loaded@.len() == src.split.main@.len(),
    ensures
        r is None <==> !fits(*src, loaded@),
        r matches Some(items) ==> items_view(items@) == document_spec(*src, cover_date(src.metadata, year as int, month as nat), loaded@),
{
    if !appendix_letters_fit(src.split.main.as_slice(), loaded) {
        return None;
    }
    Some(render_document(src, loaded, year, month))
}

/// The front matter and blocks of a report's text.
pub fn prepare(raw: &str) -> (r: ResearchSource)
    ensures
        ({
            let (m, content) = crate::common::front_matter::front_matter_spec(raw@);
            let stripped = crate::input::strip_rules_spec(content);
            let (t, c, mb, _) = split_spec(crate::parser::parse_blocks_spec(stripped));
            &&& crate::common::front_matter::meta_view(r.metadata) == m
            &&& opt_view(r.split.title) == t
            &&& blocks_view(r.split.changelog@) == c
            &&& blocks_view(r.split.main@) == mb
        }),
{
    let (metadata, content) = crate::common::front_matter::parse(raw);
    let content = crate::input::strip_horizontal_rules(content.as_str());
    let blocks = crate::parser::parse(content.as_str());
    let split = split_blocks(blocks.as_slice());
    ResearchSource { metadata, split }
}

/// The image of a one-image paragraph, the only block that becomes a figure.
pub fn figure_source(b: &Block) -> (r: Option<String>)
    ensures
        match block_view(*b) {
            SBlock::Paragraph(inl) => match crate::tex_research_emitter::sole_image(inl) {
                Some((alt, url, label)) => r matches Some(u) && u@ == url,
                None => r is None,
            },
            _ => r is None,
        },
{
    match b {
        Block::Paragraph(inlines) => match crate::tex_research_emitter::sole_image_index(inlines.as_slice()) {
            Some(i) => match &inlines[i] {
                Inline::Image { url, .. } => Some(url.clone()),
                _ => None,
            },
            None => None,
        },
        _ => None,
    }
}

} // verus!
