//! Cross-reference check before a conversion: every `{@id}` must name an
//! anchor `{#id}` that the output style will actually emit.
//!
//! Errors (the conversion stops): a reference to an undefined (or, in the
//! chosen style, ineffective) anchor; an anchor defined twice; an anchor
//! that cannot take effect (a `Label` block that no heading or table
//! follows, an image anchor without alternative text, an image anchor in a
//! paragraph that holds more than the image, a section or table anchor in
//! the official style).
//!
//! Warnings: an anchor that nothing refers to.
use vstd::prelude::*;
use crate::common::ast::{
    Block, Inline, SBlock, SInline, block_view, blocks_view, inline_view, inlines_view, strings_view,
    table_view, lemma_inlines_view_len, lemma_inlines_view_push,
};
use crate::common::inline::{parse_spec, parse};
use crate::strset::{insert_sorted, strictly_sorted, views};
use crate::text::{chars_of, decimal, is_blank, is_blank_exec, push_chars, push_decimal, push_str};

verus! {

/// Which anchors take effect in the output.
#[derive(Debug, Clone, Copy, PartialEq, Eq, Structural)]
pub enum Support {
    /// Research style: chapter, table and figure anchors.
    Full,
    /// Official style: figure anchors only (no chapter numbers, no table counter).
    FiguresOnly,
}

/// Outcome of a check.
#[derive(Debug)]
pub struct Report {
    pub errors: Vec<String>,
    pub warnings: Vec<String>,
}

impl Default for Report {
    fn default() -> (r: Self)
        ensures
            r.errors@.len() == 0,
            r.warnings@.len() == 0,
    {
        Report { errors: Vec::new(), warnings: Vec::new() }
    }
}

impl Report {
    /// No error was found.
    pub fn is_ok(&self) -> (r: bool)
        ensures
            r == (self.errors@.len() == 0),
    {
        self.errors.len() == 0
    }
}

// ---------------------------------------------------------------------------
// Messages
// ---------------------------------------------------------------------------

pub open spec fn msg_not_attached(id: Seq<char>) -> Seq<char> {
    "锚点 '"@ + id + "' 未挂接到标题或表格，不会生效"@
}

pub open spec fn msg_official(id: Seq<char>) -> Seq<char> {
    "锚点 '"@ + id + "' 在 official 样式下不生效（章节/表格无自动编号，仅图片锚点可用）"@
}

pub open spec fn msg_duplicate(id: Seq<char>, n: nat) -> Seq<char> {
    "锚点 '"@ + id + "' 重复定义（第 "@ + decimal(n) + " 次）"@
}

pub open spec fn msg_no_alt(id: Seq<char>) -> Seq<char> {
    "图片锚点 '"@ + id + "' 不会生效：图片缺少替代文本（无 caption，不输出 \\label）"@
}

pub open spec fn msg_not_alone(id: Seq<char>) -> Seq<char> {
    "图片锚点 '"@ + id + "' 不会生效：图片未独占一段（无 figure/caption，不输出 \\label）"@
}

pub open spec fn msg_dangling(id: Seq<char>) -> Seq<char> {
    "'{@"@ + id + "}' 引用了未定义的锚点 '"@ + id + "'"@
}

pub open spec fn msg_unused(id: Seq<char>) -> Seq<char> {
    "锚点 '"@ + id + "' 已定义但未被引用"@
}

// ---------------------------------------------------------------------------
// The model
// ---------------------------------------------------------------------------

/// Scan state: errors so far, anchor definitions and references in order.
pub struct CState {
    pub errors: Seq<Seq<char>>,
    pub defs: Seq<Seq<char>>,
    pub uses: Seq<Seq<char>>,
}

/// Occurrences of `x` in `s`.
pub open spec fn count(s: Seq<Seq<char>>, x: Seq<char>) -> nat
    decreases s.len(),
{
    if s.len() == 0 {
        0
    } else {
        count(s.drop_last(), x) + if s.last() == x { 1nat } else { 0nat }
    }
}

/// Defines an anchor; a second definition is an error that gives the count.
pub open spec fn define(s: CState, id: Seq<char>) -> CState {
    let defs = s.defs.push(id);
    let n = count(defs, id);
    CState {
        errors: if n > 1 { s.errors.push(msg_duplicate(id, n)) } else { s.errors },
        defs,
        uses: s.uses,
    }
}

/// The first block after `k` that is not empty is a heading or a table.
pub open spec fn attached(bs: Seq<SBlock>, k: int) -> bool
    decreases bs.len() - k,
{
    if k + 1 >= bs.len() || k + 1 < 0 {
        false
    } else {
        match bs[k + 1] {
            SBlock::Empty => attached(bs, k + 1),
            SBlock::Heading { .. } => true,
            SBlock::Table { .. } => true,
            _ => false,
        }
    }
}

/// The ids of the cross-references of one inline, bold and italic text
/// looked into.
pub open spec fn inline_refs(i: SInline) -> Seq<Seq<char>>
    decreases i, 0nat,
{
    match i {
        SInline::CrossRef(id) => seq![id],
        SInline::Bold(c) => crossrefs(c),
        SInline::Italic(c) => crossrefs(c),
        _ => Seq::empty(),
    }
}

/// The ids of the cross-references of a run of inlines, in order, at any
/// depth of bold and italic text.
pub open spec fn crossrefs(inl: Seq<SInline>) -> Seq<Seq<char>>
    decreases inl, inl.len(),
{
    if inl.len() == 0 {
        Seq::empty()
    } else {
        crossrefs(inl.drop_last()) + inline_refs(inl.last())
    }
}

/// The top-level inlines other than blank text.
pub open spec fn meaningful(inl: Seq<SInline>) -> Seq<SInline>
    decreases inl.len(),
{
    if inl.len() == 0 {
        Seq::empty()
    } else {
        meaningful(inl.drop_last()) + match inl.last() {
            SInline::Text(t) => if is_blank(t) { Seq::empty() } else { seq![inl.last()] },
            _ => seq![inl.last()],
        }
    }
}

/// Errors for labelled images in a paragraph that holds more than one thing.
pub open spec fn not_alone_errors(m: Seq<SInline>) -> Seq<Seq<char>>
    decreases m.len(),
{
    if m.len() == 0 {
        Seq::empty()
    } else {
        not_alone_errors(m.drop_last()) + match m.last() {
            SInline::Image { label: Some(id), .. } => seq![msg_not_alone(id)],
            _ => Seq::empty(),
        }
    }
}

/// Image anchors of one paragraph: they take effect only for an image that
/// stands alone and has alternative text.
pub open spec fn image_labels(inl: Seq<SInline>, s: CState) -> CState {
    let m = meaningful(inl);
    if m.len() == 1 && m[0] is Image {
        match m[0] {
            SInline::Image { alt, label: Some(id), .. } => if alt.len() == 0 {
                CState { errors: s.errors.push(msg_no_alt(id)), ..s }
            } else {
                define(s, id)
            },
            _ => s,
        }
    } else {
        CState { errors: s.errors + not_alone_errors(m), ..s }
    }
}

/// References in the cells of a row (cells are parsed as inline text).
pub open spec fn row_refs(row: Seq<Seq<char>>) -> Seq<Seq<char>>
    decreases row.len(),
{
    if row.len() == 0 {
        Seq::empty()
    } else {
        row_refs(row.drop_last()) + crossrefs(parse_spec(row.last()))
    }
}

pub open spec fn table_refs(rows: Seq<Seq<Seq<char>>>) -> Seq<Seq<char>>
    decreases rows.len(),
{
    if rows.len() == 0 {
        Seq::empty()
    } else {
        table_refs(rows.drop_last()) + row_refs(rows.last())
    }
}

pub open spec fn text_block(inl: Seq<SInline>, s: CState) -> CState {
    image_labels(inl, CState { uses: s.uses + crossrefs(inl), ..s })
}

/// What block `k` contributes.
pub open spec fn check_block(bs: Seq<SBlock>, k: int, sup: Support, s: CState) -> CState {
    match bs[k] {
        SBlock::Label(id) => if !attached(bs, k) {
            CState { errors: s.errors.push(msg_not_attached(id)), ..s }
        } else if sup == Support::FiguresOnly {
            CState { errors: s.errors.push(msg_official(id)), ..s }
        } else {
            define(s, id)
        },
        SBlock::Paragraph(inl) => text_block(inl, s),
        SBlock::List { content, .. } => text_block(content, s),
        SBlock::Table { rows, .. } => CState { uses: s.uses + table_refs(rows), ..s },
        _ => s,
    }
}

/// The scan over the first `k` blocks.
pub open spec fn scan_blocks(bs: Seq<SBlock>, k: int, sup: Support) -> CState
    decreases k,
{
    if k <= 0 {
        CState { errors: Seq::empty(), defs: Seq::empty(), uses: Seq::empty() }
    } else {
        check_block(bs, k - 1, sup, scan_blocks(bs, k - 1, sup))
    }
}

/// `ids` lists exactly the strings of `a` that do not occur in `b`.
pub open spec fn lists_difference(ids: Seq<Seq<char>>, a: Seq<Seq<char>>, b: Seq<Seq<char>>) -> bool {
    forall|id: Seq<char>| ids.contains(id) <==> (a.contains(id) && !b.contains(id))
}

pub open spec fn dangling_messages(ids: Seq<Seq<char>>) -> Seq<Seq<char>> {
    ids.map_values(|id: Seq<char>| msg_dangling(id))
}

pub open spec fn unused_messages(ids: Seq<Seq<char>>) -> Seq<Seq<char>> {
    ids.map_values(|id: Seq<char>| msg_unused(id))
}

/// The errors and warnings of a report, given the order in which the
/// dangling and unused ids are listed: the scan's errors, then one error per
/// dangling reference; one warning per unused anchor. Each list of ids is
/// sorted and without repetition.
pub open spec fn report_spec(
    bs: Seq<SBlock>,
    sup: Support,
    dangling_ids: Seq<Seq<char>>,
    unused_ids: Seq<Seq<char>>,
    errors: Seq<Seq<char>>,
    warnings: Seq<Seq<char>>,
) -> bool {
    let s = scan_blocks(bs, bs.len() as int, sup);
    &&& strictly_sorted(dangling_ids)
    &&& lists_difference(dangling_ids, s.uses, s.defs)
    &&& strictly_sorted(unused_ids)
    &&& lists_difference(unused_ids, s.defs, s.uses)
    &&& errors == s.errors + dangling_messages(dangling_ids)
    &&& warnings == unused_messages(unused_ids)
}

// ---------------------------------------------------------------------------
// Executable check
// ---------------------------------------------------------------------------

pub open spec fn strs(v: Seq<String>) -> Seq<Seq<char>> {
    v.map_values(|x: String| x@)
}

/// Working state of the check.
struct Scan {
    errors: Vec<String>,
    defs: Vec<Vec<char>>,
    uses: Vec<Vec<char>>,
}

spec fn scan_view(s: Scan) -> CState {
    CState { errors: strs(s.errors@), defs: views(s.defs@), uses: views(s.uses@) }
}

fn count_exec(v: &Vec<Vec<char>>, x: &Vec<char>) -> (r: usize)
    ensures
        r == count(views(v@), x@),
{
    let mut n: usize = 0;
    let mut k: usize = 0;
    while k < v.len()
        invariant
            k <= v@.len(),
            n <= k,
            n == count(views(v@).subrange(0, k as int), x@),
        decreases v@.len() - k,
    {
        assert(views(v@).subrange(0, k + 1).drop_last() =~= views(v@).subrange(0, k as int));
        if crate::text::chars_eq(&v[k], x) {
            n += 1;
        }
        k += 1;
    }
    assert(views(v@).subrange(0, v@.len() as int) =~= views(v@));
    n
}

fn message(pre: &str, id: &[char], post: &str) -> (s: String)
    ensures
        s@ == pre@ + id@ + post@,
{
    let mut s = String::new();
    push_str(&mut s, pre);
    push_chars(&mut s, id);
    push_str(&mut s, post);
    assert(s@ =~= pre@ + id@ + post@);
    s
}

fn push_error(st: &mut Scan, e: String)
    ensures
        scan_view(*final(st)) == (CState { errors: scan_view(*old(st)).errors.push(e@), ..scan_view(*old(st)) }),
{
    let ghost before = strs(st.errors@);
    st.errors.push(e);
    assert(strs(st.errors@) =~= before.push(e@));
}

fn define_exec(st: &mut Scan, id: Vec<char>)
    ensures
        scan_view(*final(st)) == define(scan_view(*old(st)), id@),
{
    let ghost before = views(st.defs@);
    st.defs.push(id.clone());
    assert(views(st.defs@) =~= before.push(id@));
    let n = count_exec(&st.defs, &id);
    if n > 1 {
        let mut s = message("锚点 '", &id, "' 重复定义（第 ");
        push_decimal(&mut s, n);
        push_str(&mut s, " 次）");
        push_error(st, s);
    }
}

fn crossrefs_exec(inl: &[Inline], uses: &mut Vec<Vec<char>>)
    ensures
        views(final(uses)@) == views(old(uses)@) + crossrefs(inlines_view(inl@)),
    decreases inl@,
{
    let ghost u0 = views(uses@);
    let mut k: usize = 0;
    assert(inlines_view(inl@.take(0)) =~= Seq::<SInline>::empty());
    assert(u0 + crossrefs(inlines_view(inl@.take(0))) =~= u0);
    while k < inl.len()
        invariant
            k <= inl@.len(),
            views(uses@) == u0 + crossrefs(inlines_view(inl@.take(k as int))),
        decreases inl@.len() - k,
    {
        let ghost prev = views(uses@);
        match &inl[k] {
            Inline::CrossRef(id) => {
                uses.push(chars_of(id.as_str()));
                assert(views(uses@) =~= prev + seq![id@]);
            },
            Inline::Bold(c) => {
                assert(decreases_to!(inl@ => c@));
                crossrefs_exec(c.as_slice(), uses);
            },
            Inline::Italic(c) => {
                assert(decreases_to!(inl@ => c@));
                crossrefs_exec(c.as_slice(), uses);
            },
            _ => {
                assert(views(uses@) =~= prev + Seq::<Seq<char>>::empty());
            },
        }
        proof {
            let p = inl@.take(k + 1);
            assert(p =~= inl@.take(k as int).push(inl@[k as int]));
            lemma_inlines_view_push(inl@.take(k as int), inl@[k as int]);
            assert(inlines_view(inl@.take(k as int)).push(inline_view(inl@[k as int])).drop_last()
                =~= inlines_view(inl@.take(k as int)));
            let before = inlines_view(inl@.take(k as int));
            let here = inline_refs(inline_view(inl@[k as int]));
            assert(views(uses@) =~= prev + here);
            assert(inlines_view(p) == before.push(inline_view(inl@[k as int])));
            assert(crossrefs(inlines_view(p)) == crossrefs(before) + here);
            assert(views(uses@) =~= u0 + crossrefs(inlines_view(p)));
        }
        k += 1;
    }
    assert(inl@.take(inl@.len() as int) =~= inl@);
}

/// Indices of the top-level inlines other than blank text.
pub fn meaningful_indices(inl: &[Inline]) -> (r: Vec<usize>)
    ensures
        r@.len() == meaningful(inlines_view(inl@)).len(),
        forall|k: int| 0 <= k < r@.len() ==> #[trigger] r@[k] < inl@.len()
            && meaningful(inlines_view(inl@))[k] == inline_view(inl@[r@[k] as int]),
{
    let mut r: Vec<usize> = Vec::new();
    let mut k: usize = 0;
    proof {
        lemma_inlines_view_len(inl@);
        assert(inlines_view(inl@.subrange(0, 0)) =~= Seq::<SInline>::empty());
    }
    while k < inl.len()
        invariant
            k <= inl@.len(),
            r@.len() == meaningful(inlines_view(inl@.subrange(0, k as int))).len(),
            forall|j: int| 0 <= j < r@.len() ==> #[trigger] r@[j] < k
                && meaningful(inlines_view(inl@.subrange(0, k as int)))[j] == inline_view(inl@[r@[j] as int]),
        decreases inl@.len() - k,
    {
        let ghost m0 = meaningful(inlines_view(inl@.subrange(0, k as int)));
        proof {
            lemma_inlines_view_len(inl@.subrange(0, k + 1));
            let a = inlines_view(inl@.subrange(0, k + 1));
            assert(inl@.subrange(0, k + 1).drop_last() =~= inl@.subrange(0, k as int));
            assert(a.drop_last() =~= inlines_view(inl@.subrange(0, k as int)));
            assert(a.last() == inline_view(inl@[k as int]));
        }
        let keep = match &inl[k] {
            Inline::Text(t) => !is_blank_exec(&chars_of(t.as_str())),
            _ => true,
        };
        if keep {
            r.push(k);
        }
        k += 1;
        proof {
            let m1 = meaningful(inlines_view(inl@.subrange(0, k as int)));
            if keep {
                assert(m1 =~= m0.push(inline_view(inl@[k - 1])));
            } else {
                assert(m1 =~= m0);
            }
        }
    }
    assert(inl@.subrange(0, inl@.len() as int) =~= inl@);
    r
}

fn image_labels_exec(inl: &[Inline], st: &mut Scan)
    ensures
        scan_view(*final(st)) == image_labels(inlines_view(inl@), scan_view(*old(st))),
{
    let ghost m = meaningful(inlines_view(inl@));
    let idx = meaningful_indices(inl);
    if idx.len() == 1 {
        let i = idx[0];
        assert(m[0] == inline_view(inl@[i as int]));
        match &inl[i] {
            Inline::Image { alt, label, .. } => {
                match label {
                    Some(id) => {
                        let idc = chars_of(id.as_str());
                        if chars_of(alt.as_str()).len() == 0 {
                            let e = message("图片锚点 '", &idc, "' 不会生效：图片缺少替代文本（无 caption，不输出 \\label）");
                            push_error(st, e);
                        } else {
                            define_exec(st, idc);
                        }
                    },
                    None => {},
                }
                return;
            },
            _ => {},
        }
    }
    let ghost e0 = scan_view(*st).errors;
    let mut k: usize = 0;
    assert(m.subrange(0, 0) =~= Seq::<SInline>::empty());
    while k < idx.len()
        invariant
            k <= idx@.len(),
            idx@.len() == m.len(),
            forall|j: int| 0 <= j < idx@.len() ==> #[trigger] idx@[j] < inl@.len()
                && m[j] == inline_view(inl@[idx@[j] as int]),
            scan_view(*st) == (CState { errors: e0 + not_alone_errors(m.subrange(0, k as int)), ..scan_view(*old(st)) }),
        decreases idx@.len() - k,
    {
        let i = idx[k];
        assert(m.subrange(0, k + 1).drop_last() =~= m.subrange(0, k as int));
        assert(m.subrange(0, k + 1).last() == inline_view(inl@[i as int]));
        match &inl[i] {
            Inline::Image { label: Some(id), .. } => {
                let e = message("图片锚点 '", &chars_of(id.as_str()), "' 不会生效：图片未独占一段（无 figure/caption，不输出 \\label）");
                push_error(st, e);
            },
            _ => {},
        }
        k += 1;
        assert(e0 + not_alone_errors(m.subrange(0, k as int)) =~= scan_view(*st).errors);
    }
    assert(m.subrange(0, m.len() as int) =~= m);
}

fn text_block_exec(inl: &[Inline], st: &mut Scan)
    ensures
        scan_view(*final(st)) == text_block(inlines_view(inl@), scan_view(*old(st))),
{
    crossrefs_exec(inl, &mut st.uses);
    image_labels_exec(inl, st);
}

fn table_refs_exec(rows: &Vec<Vec<String>>, st: &mut Scan)
    ensures
        scan_view(*final(st)) == (CState {
            uses: scan_view(*old(st)).uses + table_refs(table_view(rows@)),
            ..scan_view(*old(st))
        }),
{
    let ghost u0 = views(st.uses@);
    let ghost tv = table_view(rows@);
    let mut r: usize = 0;
    assert(tv.subrange(0, 0) =~= Seq::<Seq<Seq<char>>>::empty());
    assert(u0 + table_refs(tv.subrange(0, 0)) =~= u0);
    while r < rows.len()
        invariant
            r <= rows@.len(),
            tv == table_view(rows@),
            views(st.uses@) == u0 + table_refs(tv.subrange(0, r as int)),
            strs(st.errors@) == scan_view(*old(st)).errors,
            views(st.defs@) == scan_view(*old(st)).defs,
        decreases rows@.len() - r,
    {
        let row = &rows[r];
        let ghost rv = tv[r as int];
        assert(rv == strings_view(row@));
        let ghost before_row = views(st.uses@);
        let mut c: usize = 0;
        assert(rv.subrange(0, 0) =~= Seq::<Seq<char>>::empty());
        assert(before_row + row_refs(rv.subrange(0, 0)) =~= before_row);
        while c < row.len()
            invariant
                c <= row@.len(),
                rv == strings_view(row@),
                views(st.uses@) == before_row + row_refs(rv.subrange(0, c as int)),
                strs(st.errors@) == scan_view(*old(st)).errors,
                views(st.defs@) == scan_view(*old(st)).defs,
            decreases row@.len() - c,
        {
            let parsed = parse(row[c].as_str());
            assert(rv.subrange(0, c + 1).drop_last() =~= rv.subrange(0, c as int));
            crossrefs_exec(parsed.as_slice(), &mut st.uses);
            c += 1;
            assert(views(st.uses@) =~= before_row + row_refs(rv.subrange(0, c as int)));
        }
        assert(rv.subrange(0, row@.len() as int) =~= rv);
        assert(tv.subrange(0, r + 1).drop_last() =~= tv.subrange(0, r as int));
        r += 1;
        assert(views(st.uses@) =~= u0 + table_refs(tv.subrange(0, r as int)));
    }
    assert(tv.subrange(0, rows@.len() as int) =~= tv);
}

fn attached_exec(blocks: &[Block], k: usize) -> (r: bool)
    requires
        k < blocks@.len(),
    ensures
        r == attached(blocks_view(blocks@), k as int),
{
    let ghost bv = blocks_view(blocks@);
    let n = blocks.len();
    let mut j = k + 1;
    while j < blocks.len() && matches!(blocks[j], Block::Empty)
        invariant
            k < j <= blocks@.len(),
            bv == blocks_view(blocks@),
            attached(bv, j - 1) == attached(bv, k as int),
        decreases blocks@.len() - j,
    {
        j += 1;
    }
    if j >= blocks.len() {
        false
    } else {
        matches!(blocks[j], Block::Heading { .. } | Block::Table { .. })
    }
}

fn check_block_exec(blocks: &[Block], k: usize, sup: Support, st: &mut Scan)
    requires
        k < blocks@.len(),
    ensures
        scan_view(*final(st)) == check_block(blocks_view(blocks@), k as int, sup, scan_view(*old(st))),
{
    assert(blocks_view(blocks@)[k as int] == block_view(blocks@[k as int]));
    match &blocks[k] {
        Block::Label(id) => {
            let idc = chars_of(id.as_str());
            if !attached_exec(blocks, k) {
                push_error(st, message("锚点 '", &idc, "' 未挂接到标题或表格，不会生效"));
            } else if matches!(sup, Support::FiguresOnly) {
                push_error(st, message("锚点 '", &idc, "' 在 official 样式下不生效（章节/表格无自动编号，仅图片锚点可用）"));
            } else {
                define_exec(st, idc);
            }
        },
        Block::Paragraph(inl) => text_block_exec(inl.as_slice(), st),
        Block::List { content, .. } => text_block_exec(content.as_slice(), st),
        Block::Table { rows, .. } => table_refs_exec(rows, st),
        _ => {},
    }
}

/// Checks the anchor definitions and references of a document.
pub fn check(blocks: &[Block], support: Support) -> (r: Report)
    ensures
        exists|d: Seq<Seq<char>>, u: Seq<Seq<char>>|
            report_spec(blocks_view(blocks@), support, d, u, strs(r.errors@), strs(r.warnings@)),
{
    let mut st = Scan { errors: Vec::new(), defs: Vec::new(), uses: Vec::new() };
    let ghost bv = blocks_view(blocks@);
    let mut k: usize = 0;
    assert(strs(st.errors@) =~= Seq::<Seq<char>>::empty());
    assert(views(st.defs@) =~= Seq::<Seq<char>>::empty());
    assert(views(st.uses@) =~= Seq::<Seq<char>>::empty());
    assert(scan_view(st) == scan_blocks(bv, 0, support));
    while k < blocks.len()
        invariant
            k <= blocks@.len(),
            bv == blocks_view(blocks@),
            scan_view(st) == scan_blocks(bv, k as int, support),
        decreases blocks@.len() - k,
    {
        check_block_exec(blocks, k, support, &mut st);
        k += 1;
    }
    let ghost s = scan_view(st);
    // References to undefined anchors, sorted.
    let mut dangling_ids: Vec<Vec<char>> = Vec::new();
    let mut i: usize = 0;
    while i < st.uses.len()
        invariant
            i <= st.uses@.len(),
            s == scan_view(st),
            strictly_sorted(views(dangling_ids@)),
            lists_difference(views(dangling_ids@), views(st.uses@).subrange(0, i as int), s.defs),
        decreases st.uses@.len() - i,
    {
        let ghost before = views(st.uses@).subrange(0, i as int);
        let ghost x = st.uses@[i as int]@;
        assert(views(st.uses@).subrange(0, i + 1) =~= before.push(x));
        if count_exec(&st.defs, &st.uses[i]) == 0 {
            proof { lemma_count_contains(s.defs, x); }
            insert_sorted(&mut dangling_ids, st.uses[i].clone());
        } else {
            proof { lemma_count_contains(s.defs, x); }
        }
        i += 1;
        assert forall|id: Seq<char>| before.push(x).contains(id) <==> (before.contains(id) || id == x) by {
            if before.push(x).contains(id) && id != x {
                let k = choose|k: int| 0 <= k < before.push(x).len() && before.push(x)[k] == id;
                assert(before[k] == id);
            }
            if before.contains(id) {
                let k = choose|k: int| 0 <= k < before.len() && before[k] == id;
                assert(before.push(x)[k] == id);
            }
            if id == x {
                assert(before.push(x)[before.len() as int] == id);
            }
        }
    }
    assert(views(st.uses@).subrange(0, st.uses@.len() as int) =~= s.uses);
    let mut unused_ids: Vec<Vec<char>> = Vec::new();
    let mut i: usize = 0;
    while i < st.defs.len()
        invariant
            i <= st.defs@.len(),
            s == scan_view(st),
            strictly_sorted(views(unused_ids@)),
            lists_difference(views(unused_ids@), views(st.defs@).subrange(0, i as int), s.uses),
        decreases st.defs@.len() - i,
    {
        let ghost before = views(st.defs@).subrange(0, i as int);
        let ghost x = st.defs@[i as int]@;
        assert(views(st.defs@).subrange(0, i + 1) =~= before.push(x));
        if count_exec(&st.uses, &st.defs[i]) == 0 {
            proof { lemma_count_contains(s.uses, x); }
            insert_sorted(&mut unused_ids, st.defs[i].clone());
        } else {
            proof { lemma_count_contains(s.uses, x); }
        }
        i += 1;
        assert forall|id: Seq<char>| before.push(x).contains(id) <==> (before.contains(id) || id == x) by {
            if before.push(x).contains(id) && id != x {
                let k = choose|k: int| 0 <= k < before.push(x).len() && before.push(x)[k] == id;
                assert(before[k] == id);
            }
            if before.contains(id) {
                let k = choose|k: int| 0 <= k < before.len() && before[k] == id;
                assert(before.push(x)[k] == id);
            }
            if id == x {
                assert(before.push(x)[before.len() as int] == id);
            }
        }
    }
    assert(views(st.defs@).subrange(0, st.defs@.len() as int) =~= s.defs);
    let mut errors = st.errors;
    let ghost e0 = strs(errors@);
    let mut j: usize = 0;
    while j < dangling_ids.len()
        invariant
            j <= dangling_ids@.len(),
            strs(errors@) == e0 + dangling_messages(views(dangling_ids@).subrange(0, j as int)),
        decreases dangling_ids@.len() - j,
    {
        let id = &dangling_ids[j];
        let ghost d = views(dangling_ids@);
        let mut m = message("'{@", id, "}' 引用了未定义的锚点 '");
        push_chars(&mut m, id);
        push_str(&mut m, "'");
        assert(m@ =~= msg_dangling(d[j as int]));
        let ghost before = strs(errors@);
        errors.push(m);
        assert(strs(errors@) =~= before.push(msg_dangling(d[j as int])));
        assert(dangling_messages(d.subrange(0, j + 1)) =~= dangling_messages(d.subrange(0, j as int)).push(msg_dangling(d[j as int])));
        j += 1;
        assert(strs(errors@) =~= e0 + dangling_messages(views(dangling_ids@).subrange(0, j as int)));
    }
    let mut warnings: Vec<String> = Vec::new();
    let mut j: usize = 0;
    while j < unused_ids.len()
        invariant
            j <= unused_ids@.len(),
            strs(warnings@) == unused_messages(views(unused_ids@).subrange(0, j as int)),
        decreases unused_ids@.len() - j,
    {
        let ghost d = views(unused_ids@);
        let m = message("锚点 '", &unused_ids[j], "' 已定义但未被引用");
        assert(m@ =~= msg_unused(d[j as int]));
        let ghost before = strs(warnings@);
        warnings.push(m);
        assert(strs(warnings@) =~= before.push(msg_unused(d[j as int])));
        assert(unused_messages(d.subrange(0, j + 1)) =~= unused_messages(d.subrange(0, j as int)).push(msg_unused(d[j as int])));
        j += 1;
        assert(strs(warnings@) =~= unused_messages(views(unused_ids@).subrange(0, j as int)));
    }
    assert(views(dangling_ids@).subrange(0, dangling_ids@.len() as int) =~= views(dangling_ids@));
    assert(views(unused_ids@).subrange(0, unused_ids@.len() as int) =~= views(unused_ids@));
    let r = Report { errors, warnings };
    assert(report_spec(bv, support, views(dangling_ids@), views(unused_ids@), strs(r.errors@), strs(r.warnings@)));
    r
}

pub proof fn lemma_count_contains(s: Seq<Seq<char>>, x: Seq<char>)
    ensures
        (count(s, x) == 0) == !s.contains(x),
    decreases s.len(),
{
    if s.len() > 0 {
        lemma_count_contains(s.drop_last(), x);
        if s.drop_last().contains(x) {
            let k = choose|k: int| 0 <= k < s.drop_last().len() && s.drop_last()[k] == x;
            assert(s[k] == x);
        }
        if s.contains(x) && s.last() != x {
            let k = choose|k: int| 0 <= k < s.len() && s[k] == x;
            assert(s.drop_last()[k] == x);
        }
    }
}

/// The report is determined by the document and the style: two lists of
/// errors and warnings that both meet the report's description are equal.
pub proof fn lemma_report_unique(
    bs: Seq<SBlock>,
    sup: Support,
    d1: Seq<Seq<char>>,
    u1: Seq<Seq<char>>,
    e1: Seq<Seq<char>>,
    w1: Seq<Seq<char>>,
    d2: Seq<Seq<char>>,
    u2: Seq<Seq<char>>,
    e2: Seq<Seq<char>>,
    w2: Seq<Seq<char>>,
)
    requires
        report_spec(bs, sup, d1, u1, e1, w1),
        report_spec(bs, sup, d2, u2, e2, w2),
    ensures
        e1 == e2,
        w1 == w2,
{
    crate::strset::lemma_sorted_unique(d1, d2);
    crate::strset::lemma_sorted_unique(u1, u2);
}

/// A document whose references all name anchors it defines, with no anchor
/// defined twice or ineffective, passes the check: the errors are those of
/// the scan alone, and there are none.
pub proof fn lemma_clean_document_passes(
    bs: Seq<SBlock>,
    sup: Support,
    d: Seq<Seq<char>>,
    u: Seq<Seq<char>>,
    e: Seq<Seq<char>>,
    w: Seq<Seq<char>>,
)
    requires
        report_spec(bs, sup, d, u, e, w),
        scan_blocks(bs, bs.len() as int, sup).errors.len() == 0,
        forall|id: Seq<char>| scan_blocks(bs, bs.len() as int, sup).uses.contains(id)
            ==> scan_blocks(bs, bs.len() as int, sup).defs.contains(id),
    ensures
        e.len() == 0,
{
    if d.len() > 0 {
        assert(d.contains(d[0]));
    }
}


/// The references collected by the scan only grow from block to block.
proof fn lemma_uses_grow(bs: Seq<SBlock>, sup: Support, j: int, n: int, x: Seq<char>)
    requires
        0 <= j <= n <= bs.len(),
        scan_blocks(bs, j, sup).uses.contains(x),
    ensures
        scan_blocks(bs, n, sup).uses.contains(x),
    decreases n - j,
{
    if j < n {
        lemma_uses_grow(bs, sup, j, n - 1, x);
        let s = scan_blocks(bs, n - 1, sup);
        let i = choose|i: int| 0 <= i < s.uses.len() && s.uses[i] == x;
        let t = check_block(bs, n - 1, sup, s);
        assert(t.uses.len() >= s.uses.len() && t.uses[i] == s.uses[i]);
        assert(t.uses.contains(x));
    }
}

/// Every reference to an anchor that the document does not define is
/// reported as an error, wherever it stands in a paragraph or a list item,
/// inside bold or italic text too.
pub proof fn lemma_nested_reference_reported(
    bs: Seq<SBlock>,
    sup: Support,
    d: Seq<Seq<char>>,
    u: Seq<Seq<char>>,
    e: Seq<Seq<char>>,
    w: Seq<Seq<char>>,
    k: int,
    id: Seq<char>,
)
    requires
        report_spec(bs, sup, d, u, e, w),
        0 <= k < bs.len(),
        match bs[k] {
            SBlock::Paragraph(inl) => crossrefs(inl).contains(id),
            SBlock::List { content, .. } => crossrefs(content).contains(id),
            _ => false,
        },
        !scan_blocks(bs, bs.len() as int, sup).defs.contains(id),
    ensures
        e.contains(msg_dangling(id)),
{
    let s0 = scan_blocks(bs, k, sup);
    let s1 = scan_blocks(bs, k + 1, sup);
    let r = match bs[k] {
        SBlock::Paragraph(inl) => crossrefs(inl),
        SBlock::List { content, .. } => crossrefs(content),
        _ => Seq::empty(),
    };
    let i = choose|i: int| 0 <= i < r.len() && r[i] == id;
    assert(s1.uses == s0.uses + r);
    assert(s1.uses[s0.uses.len() + i] == id);
    assert(s1.uses.contains(id));
    lemma_uses_grow(bs, sup, k + 1, bs.len() as int, id);
    let s = scan_blocks(bs, bs.len() as int, sup);
    assert(d.contains(id));
    let j = choose|j: int| 0 <= j < d.len() && d[j] == id;
    assert(e[s.errors.len() + j] == msg_dangling(id));
}

} // verus!
