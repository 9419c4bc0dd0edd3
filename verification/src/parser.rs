//! Markdown to blocks.
//!
//! 1. Quotes are normalised line by line outside fenced code blocks;
//! 2. lines are dispatched in order: section marker, heading, fenced code,
//!    table, list item, empty line, paragraph;
//! 3. headings lose their old numbering, paragraphs and list items are split
//!    into inlines.
use vstd::prelude::*;
use crate::captions::{caption_marker, caption_marker_spec, strip_label_attr, strip_label_attr_spec};
use crate::charclass::{digit, is_digit};
use crate::common::ast::{
    Block, Inline, MarkerKind, SBlock, SInline, block_view, blocks_view, inlines_view, opt_view,
    table_view,
};
use crate::common::crossref::attached;
use crate::common::heading::{Class, clean_chars, clean_spec, lemma_run, run};
use crate::common::inline::{flat_seq, flatten, parse_spec, parse_vec};
use crate::common::markers::{detect_chars, marker_spec};
use crate::common::quotes::{convert_quotes_chars, convert_quotes_spec};
use crate::common::table::{
    is_table_line_chars, is_table_line_spec, parse_table_lines, parse_table_spec, rows_view,
};
use crate::text::{
    at, chars_of, has_at, is_ws, lemma_skip_ws_bounds, lines, lines_of, skip_ws, skip_ws_exec,
    slice_of, string_from_chars, trim, trim_chars, trim_start, trim_start_chars,
};

verus! {

// ---------------------------------------------------------------------------
// Quote normalisation outside code fences
// ---------------------------------------------------------------------------

/// A fence line: trimmed at the start, it begins with three backticks.
pub open spec fn is_fence(l: Seq<char>) -> bool {
    has_at(trim_start(l), 0, seq!['`', '`', '`'])
}

fn is_fence_exec(l: &[char]) -> (r: bool)
    ensures
        r == is_fence(l@),
{
    let fence = ['`', '`', '`'];
    assert(fence@ =~= seq!['`', '`', '`']);
    at(&trim_start_chars(l), 0, &fence)
}

/// Lines `i..` with quotes normalised, except inside fenced code.
pub open spec fn normalize_from(ls: Seq<Seq<char>>, i: int, in_code: bool) -> Seq<Seq<char>>
    decreases ls.len() - i,
{
    if i < 0 || i >= ls.len() {
        Seq::empty()
    } else if is_fence(ls[i]) {
        seq![ls[i]] + normalize_from(ls, i + 1, !in_code)
    } else if in_code {
        seq![ls[i]] + normalize_from(ls, i + 1, in_code)
    } else {
        seq![convert_quotes_spec(ls[i])] + normalize_from(ls, i + 1, in_code)
    }
}

pub open spec fn normalized_lines(content: Seq<char>) -> Seq<Seq<char>> {
    normalize_from(lines(content), 0, false)
}

pub open spec fn lines_view(v: Seq<Vec<char>>) -> Seq<Seq<char>> {
    v.map_values(|l: Vec<char>| l@)
}

fn normalize_lines_except_code(content: &[char]) -> (r: Vec<Vec<char>>)
    ensures
        lines_view(r@) == normalized_lines(content@),
{
    let ls = lines_of(content);
    let ghost lv = lines(content@);
    assert(lines_view(ls@) =~= lv);
    let mut out: Vec<Vec<char>> = Vec::new();
    let mut in_code = false;
    let mut i: usize = 0;
    while i < ls.len()
        invariant
            i <= ls@.len(),
            lines_view(ls@) == lv,
            lines_view(out@) + normalize_from(lv, i as int, in_code) == normalize_from(lv, 0, false),
        decreases ls@.len() - i,
    {
        let ghost before = lines_view(out@);
        let ghost c0 = in_code;
        assert(ls@[i as int]@ == lv[i as int]);
        if is_fence_exec(&ls[i]) {
            out.push(slice_of(&ls[i], 0, ls[i].len()));
            in_code = !in_code;
        } else if in_code {
            out.push(slice_of(&ls[i], 0, ls[i].len()));
        } else {
            out.push(convert_quotes_chars(&ls[i]));
        }
        proof {
            assert(lv[i as int].subrange(0, lv[i as int].len() as int) =~= lv[i as int]);
            assert(lines_view(out@) =~= before + seq![lines_view(out@).last()]);
        }
        i += 1;
        assert(lines_view(out@) + normalize_from(lv, i as int, in_code) =~= before + normalize_from(lv, (i - 1) as int, c0));
    }
    assert(lines_view(out@) + normalize_from(lv, i as int, in_code) =~= lines_view(out@));
    out
}

// ---------------------------------------------------------------------------
// List items
// ---------------------------------------------------------------------------

/// Bytes of a character in UTF-8.
pub open spec fn utf8_len(c: char) -> nat {
    if (c as u32) < 0x80 {
        1
    } else if (c as u32) < 0x800 {
        2
    } else if (c as u32) < 0x10000 {
        3
    } else {
        4
    }
}

/// Bytes of a text in UTF-8.
pub open spec fn byte_len(t: Seq<char>) -> nat
    decreases t.len(),
{
    if t.len() == 0 {
        0
    } else {
        byte_len(t.drop_last()) + utf8_len(t.last())
    }
}

/// [`byte_len`] capped at `usize::MAX`.
pub open spec fn byte_len_capped(t: Seq<char>) -> nat {
    if byte_len(t) > usize::MAX {
        usize::MAX as nat
    } else {
        byte_len(t)
    }
}

/// The list item of a raw line: (ordered, bytes of leading whitespace,
/// content). `- x` / `* x` give the trimmed rest; `1. x` gives the rest after
/// the number, the dot and any whitespace.
pub open spec fn list_item_spec(raw: Seq<char>) -> Option<(bool, nat, Seq<char>)> {
    let w = skip_ws(raw, 0);
    let ts = raw.subrange(w, raw.len() as int);
    let indent = byte_len_capped(raw.subrange(0, w));
    if ts.len() == 0 {
        None
    } else if has_at(ts, 0, seq!['-', ' ']) || has_at(ts, 0, seq!['*', ' ']) {
        Some((false, indent, trim(ts.subrange(2, ts.len() as int))))
    } else {
        let d = run(ts, 0, Class::Digit);
        if d > 0 && d < ts.len() && ts[d] == '.' {
            Some((true, indent, ts.subrange(skip_ws(ts, d + 1), ts.len() as int)))
        } else {
            None
        }
    }
}

fn utf8_len_exec(c: char) -> (r: usize)
    ensures
        r == utf8_len(c),
{
    if (c as u32) < 0x80 {
        1
    } else if (c as u32) < 0x800 {
        2
    } else if (c as u32) < 0x10000 {
        3
    } else {
        4
    }
}

fn byte_len_exec(t: &[char]) -> (r: usize)
    ensures
        r == byte_len_capped(t@),
{
    let mut total: usize = 0;
    let mut i: usize = 0;
    while i < t.len()
        invariant
            i <= t@.len(),
            total == byte_len_capped(t@.take(i as int)),
        decreases t@.len() - i,
    {
        assert(t@.take(i + 1).drop_last() =~= t@.take(i as int));
        let l = utf8_len_exec(t[i]);
        if total > usize::MAX - l {
            total = usize::MAX;
        } else {
            total = total + l;
        }
        i += 1;
    }
    assert(t@.take(t@.len() as int) =~= t@);
    total
}

fn list_item(raw: &[char]) -> (r: Option<(bool, usize, Vec<char>)>)
    ensures
        match list_item_spec(raw@) {
            Some((o, ind, c)) => r matches Some((ro, rind, rc)) && ro == o && rind == ind && rc@ == c,
            None => r is None,
        },
{
    let w = skip_ws_exec(raw, 0);
    let ts = slice_of(raw, w, raw.len());
    let indent = byte_len_exec(&slice_of(raw, 0, w));
    if ts.len() == 0 {
        return None;
    }
    let dash = ['-', ' '];
    let star = ['*', ' '];
    assert(dash@ =~= seq!['-', ' ']);
    assert(star@ =~= seq!['*', ' ']);
    if at(&ts, 0, &dash) || at(&ts, 0, &star) {
        let rest = slice_of(&ts, 2, ts.len());
        return Some((false, indent, trim_chars(&rest)));
    }
    let mut d: usize = 0;
    while d < ts.len() && digit(ts[d])
        invariant
            d <= ts@.len(),
            run(ts@, d as int, Class::Digit) == run(ts@, 0, Class::Digit),
        decreases ts@.len() - d,
    {
        d += 1;
    }
    if d > 0 && d < ts.len() && ts[d] == '.' {
        let s = skip_ws_exec(&ts, d + 1);
        Some((true, indent, slice_of(&ts, s, ts.len())))
    } else {
        None
    }
}

/// Level of an isolated indentation (bytes): 0 → 1, 1..=4 → 2, 5..=8 → 3,
/// 9..=12 → 4, 13..=16 → 5, more → 6.
pub open spec fn indent_to_level(indent: nat) -> u8 {
    if indent == 0 {
        1
    } else if indent <= 4 {
        2
    } else if indent <= 8 {
        3
    } else if indent <= 12 {
        4
    } else if indent <= 16 {
        5
    } else {
        6
    }
}

fn indent_to_level_exec(indent: usize) -> (r: u8)
    ensures
        r == indent_to_level(indent as nat),
{
    if indent == 0 {
        1
    } else if indent <= 4 {
        2
    } else if indent <= 8 {
        3
    } else if indent <= 12 {
        4
    } else if indent <= 16 {
        5
    } else {
        6
    }
}

/// First position at or after `k` of a known indentation equal to `indent`
/// (`ind.len()` if none).
pub open spec fn find_indent(ind: Seq<(usize, u8)>, indent: usize, k: int) -> int
    decreases ind.len() - k,
{
    if k < 0 || k >= ind.len() {
        ind.len() as int
    } else if ind[k].0 == indent {
        k
    } else {
        find_indent(ind, indent, k + 1)
    }
}

/// Drops the trailing known indentations deeper than `indent`.
pub open spec fn pop_deeper(ind: Seq<(usize, u8)>, indent: usize) -> Seq<(usize, u8)>
    decreases ind.len(),
{
    if ind.len() > 0 && ind.last().0 > indent {
        pop_deeper(ind.drop_last(), indent)
    } else {
        ind
    }
}

/// Level for a list item with the given indentation and the updated stack of
/// (indentation, level) pairs of the current list: a known indentation gives
/// its level back; a deeper one than the last goes one level down (at most
/// 6); otherwise the isolated rule [`indent_to_level`] applies.
pub open spec fn resolve_level(ind: Seq<(usize, u8)>, indent: usize) -> (u8, Seq<(usize, u8)>) {
    let p = find_indent(ind, indent, 0);
    if p < ind.len() {
        (ind[p].1, ind.subrange(0, p + 1))
    } else if ind.len() > 0 && indent > ind.last().0 {
        let lv: u8 = if ind.last().1 >= 5 { 6 } else { (ind.last().1 + 1) as u8 };
        (lv, ind.push((indent, lv)))
    } else {
        let rest = pop_deeper(ind, indent);
        let lv = indent_to_level(indent as nat);
        (lv, rest.push((indent, lv)))
    }
}

proof fn lemma_find_indent(ind: Seq<(usize, u8)>, indent: usize, k: int)
    requires
        0 <= k <= ind.len(),
    ensures
        k <= find_indent(ind, indent, k) <= ind.len(),
        find_indent(ind, indent, k) < ind.len() ==> ind[find_indent(ind, indent, k)].0 == indent,
    decreases ind.len() - k,
{
    if k < ind.len() && ind[k].0 != indent {
        lemma_find_indent(ind, indent, k + 1);
    }
}

fn resolve_list_level(ind: &mut Vec<(usize, u8)>, indent: usize) -> (r: u8)
    ensures
        (r, final(ind)@) == resolve_level(old(ind)@, indent),
{
    let ghost ind0 = ind@;
    let mut p: usize = 0;
    while p < ind.len() && ind[p].0 != indent
        invariant
            p <= ind@.len(),
            ind@ == ind0,
            find_indent(ind0, indent, p as int) == find_indent(ind0, indent, 0),
        decreases ind@.len() - p,
    {
        p += 1;
    }
    proof {
        lemma_find_indent(ind0, indent, 0);
    }
    if p < ind.len() {
        let level = ind[p].1;
        ind.truncate(p + 1);
        assert(ind@ =~= ind0.subrange(0, p + 1));
        return level;
    }
    if ind.len() > 0 {
        let (ci, cl) = ind[ind.len() - 1];
        if indent > ci {
            let lv: u8 = if cl >= 5 { 6 } else { cl + 1 };
            ind.push((indent, lv));
            return lv;
        }
    }
    while ind.len() > 0 && ind[ind.len() - 1].0 > indent
        invariant
            pop_deeper(ind@, indent) == pop_deeper(ind0, indent),
        decreases ind@.len(),
    {
        ind.pop();
    }
    let lv = indent_to_level_exec(indent);
    ind.push((indent, lv));
    lv
}

// ---------------------------------------------------------------------------
// Fenced code blocks
// ---------------------------------------------------------------------------

/// Language of a fence line: the first word after the backticks.
pub open spec fn fence_lang(first: Seq<char>) -> Option<Seq<char>> {
    let f1 = trim_start(first);
    let b = run_ticks(f1, 0);
    let w0 = skip_ws(f1, b);
    let w1 = run_non_ws(f1, w0);
    if w1 > w0 {
        Some(f1.subrange(w0, w1))
    } else {
        None
    }
}

pub open spec fn run_ticks(t: Seq<char>, i: int) -> int
    decreases t.len() - i,
{
    if 0 <= i < t.len() && t[i] == '`' {
        run_ticks(t, i + 1)
    } else {
        i
    }
}

pub open spec fn run_non_ws(t: Seq<char>, i: int) -> int
    decreases t.len() - i,
{
    if 0 <= i < t.len() && !is_ws(t[i]) {
        run_non_ws(t, i + 1)
    } else {
        i
    }
}

/// A closing fence: exactly three backticks once trimmed.
pub open spec fn is_closing_fence(l: Seq<char>) -> bool {
    trim(l) == seq!['`', '`', '`']
}

/// Code lines from `i` up to the closing fence, joined by `\n` (an empty
/// accumulated text gets no separator); gives the text and the index after
/// the closing fence (or the end).
pub open spec fn code_from(ls: Seq<Seq<char>>, i: int, acc: Seq<char>) -> (Seq<char>, int)
    decreases ls.len() - i,
{
    if i < 0 || i >= ls.len() {
        (acc, ls.len() as int)
    } else if is_closing_fence(ls[i]) {
        (acc, i + 1)
    } else {
        code_from(ls, i + 1, if acc.len() == 0 { ls[i] } else { acc + seq!['\n'] + ls[i] })
    }
}

/// Leading and trailing `\n` removed.
pub open spec fn trim_newlines(t: Seq<char>) -> Seq<char>
    decreases t.len(),
{
    if t.len() > 0 && t[0] == '\n' {
        trim_newlines(t.drop_first())
    } else if t.len() > 0 && t.last() == '\n' {
        trim_newlines(t.drop_last())
    } else {
        t
    }
}

fn trim_newlines_exec(t: &[char]) -> (r: Vec<char>)
    ensures
        r@ == trim_newlines(t@),
{
    let mut lo: usize = 0;
    let mut hi: usize = t.len();
    assert(t@.subrange(0, t@.len() as int) =~= t@);
    while lo < hi && t[lo] == '\n'
        invariant
            lo <= hi <= t@.len(),
            hi == t@.len(),
            trim_newlines(t@.subrange(lo as int, hi as int)) == trim_newlines(t@),
        decreases hi - lo,
    {
        assert(t@.subrange(lo as int, hi as int).drop_first() =~= t@.subrange(lo + 1, hi as int));
        lo += 1;
    }
    assert(t@.subrange(0, t@.len() as int) =~= t@);
    while lo < hi && t[hi - 1] == '\n'
        invariant
            lo <= hi <= t@.len(),
            lo < hi ==> t@[lo as int] != '\n',
            trim_newlines(t@.subrange(lo as int, hi as int)) == trim_newlines(t@),
        decreases hi - lo,
    {
        assert(t@.subrange(lo as int, hi as int).drop_last() =~= t@.subrange(lo as int, hi - 1));
        hi -= 1;
    }
    slice_of(t, lo, hi)
}

/// (language, content, index after the block) of the code block at `start`.
pub open spec fn code_block_spec(ls: Seq<Seq<char>>, start: int) -> (Option<Seq<char>>, Seq<char>, int) {
    let (acc, next) = code_from(ls, start + 1, Seq::empty());
    (fence_lang(ls[start]), trim_newlines(acc), next)
}

fn fence_lang_exec(first: &[char]) -> (r: Option<Vec<char>>)
    ensures
        match fence_lang(first@) {
            Some(l) => r matches Some(v) && v@ == l,
            None => r is None,
        },
{
    let f1 = trim_start_chars(first);
    let mut b: usize = 0;
    while b < f1.len() && f1[b] == '`'
        invariant
            b <= f1@.len(),
            run_ticks(f1@, b as int) == run_ticks(f1@, 0),
        decreases f1@.len() - b,
    {
        b += 1;
    }
    let w0 = skip_ws_exec(&f1, b);
    let mut w1 = w0;
    while w1 < f1.len() && !crate::text::is_whitespace(f1[w1])
        invariant
            w0 <= w1 <= f1@.len(),
            run_non_ws(f1@, w1 as int) == run_non_ws(f1@, w0 as int),
        decreases f1@.len() - w1,
    {
        w1 += 1;
    }
    if w1 > w0 {
        Some(slice_of(&f1, w0, w1))
    } else {
        None
    }
}

fn is_closing_fence_exec(l: &[char]) -> (r: bool)
    ensures
        r == is_closing_fence(l@),
{
    let fence = ['`', '`', '`'];
    assert(fence@ =~= seq!['`', '`', '`']);
    crate::text::chars_eq(&trim_chars(l), &fence)
}

fn parse_code_block(ls: &Vec<Vec<char>>, start: usize) -> (r: (Option<Vec<char>>, Vec<char>, usize))
    requires
        start < ls@.len(),
    ensures
        ({
            let (lang, content, next) = code_block_spec(lines_view(ls@), start as int);
            &&& match lang {
                Some(l) => r.0 matches Some(v) && v@ == l,
                None => r.0 is None,
            }
            &&& r.1@ == content
            &&& r.2 == next
            &&& start < next <= ls@.len()
        }),
{
    let ghost lv = lines_view(ls@);
    let n = ls.len();
    assert(lv.len() == ls@.len());
    assert(lv[start as int] == ls@[start as int]@);
    let lang = fence_lang_exec(&ls[start]);
    let mut acc: Vec<char> = Vec::new();
    let mut i = start + 1;
    loop
        invariant
            start < i <= ls@.len(),
            lv == lines_view(ls@),
            lv.len() == ls@.len(),
            match fence_lang(lv[start as int]) {
                Some(l) => lang matches Some(v) && v@ == l,
                None => lang is None,
            },
            code_from(lv, i as int, acc@) == code_from(lv, start + 1, Seq::empty()),
        decreases ls@.len() - i,
    {
        if i >= ls.len() {
            return (lang, trim_newlines_exec(&acc), ls.len());
        }
        assert(ls@[i as int]@ == lv[i as int]);
        if is_closing_fence_exec(&ls[i]) {
            return (lang, trim_newlines_exec(&acc), i + 1);
        }
        let ghost a0 = acc@;
        if acc.len() > 0 {
            acc.push('\n');
        }
        let mut k: usize = 0;
        let line = &ls[i];
        while k < line.len()
            invariant
                k <= line@.len(),
                acc@ == (if a0.len() == 0 { a0 } else { a0 + seq!['\n'] }) + line@.take(k as int),
            decreases line@.len() - k,
        {
            acc.push(line[k]);
            k += 1;
            assert(acc@ =~= (if a0.len() == 0 { a0 } else { a0 + seq!['\n'] }) + line@.take(k as int));
        }
        assert(line@.take(line@.len() as int) =~= line@);
        assert(acc@ =~= (if a0.len() == 0 { lv[i as int] } else { a0 + seq!['\n'] + lv[i as int] }));
        i += 1;
    }
}


// ---------------------------------------------------------------------------
// Table captions around a table
// ---------------------------------------------------------------------------

/// Start of the trailing run of `Empty` blocks.
pub open spec fn empty_tail_start(bs: Seq<SBlock>) -> int
    decreases bs.len(),
{
    if bs.len() > 0 && bs.last() is Empty {
        empty_tail_start(bs.drop_last())
    } else {
        bs.len() as int
    }
}

pub proof fn lemma_empty_tail_start(bs: Seq<SBlock>)
    ensures
        0 <= empty_tail_start(bs) <= bs.len(),
    decreases bs.len(),
{
    if bs.len() > 0 && bs.last() is Empty {
        lemma_empty_tail_start(bs.drop_last());
    }
}

pub type Caption = (Seq<char>, Option<Seq<char>>);

/// A caption paragraph before a table (empty blocks in between are
/// skipped): when found, it is removed together with those empty blocks.
pub open spec fn leading_caption(bs: Seq<SBlock>) -> (Seq<SBlock>, Option<Caption>) {
    let k = empty_tail_start(bs);
    let cap = if 0 < k <= bs.len() {
        match bs[k - 1] {
            SBlock::Paragraph(inl) => caption_marker_spec(flat_seq(inl)),
            _ => None,
        }
    } else {
        None
    };
    if cap is Some {
        (bs.subrange(0, k - 1), cap)
    } else {
        (bs, None)
    }
}

/// First line at or after `i` that is not blank.
pub open spec fn skip_blank_lines(ls: Seq<Seq<char>>, i: int) -> int
    decreases ls.len() - i,
{
    if 0 <= i < ls.len() && trim(ls[i]).len() == 0 {
        skip_blank_lines(ls, i + 1)
    } else {
        i
    }
}

/// A caption line after a table (blank lines in between are skipped), and
/// the index after it; `(None, start)` when there is none.
pub open spec fn trailing_caption(ls: Seq<Seq<char>>, start: int) -> (Option<Caption>, int) {
    let j = skip_blank_lines(ls, start);
    if 0 <= j < ls.len() {
        match caption_marker_spec(trim(ls[j])) {
            Some(c) => (Some(c), j + 1),
            None => (None, start),
        }
    } else {
        (None, start)
    }
}

pub open spec fn caption_view(c: Option<(Vec<char>, Option<Vec<char>>)>) -> Option<Caption> {
    match c {
        Some((t, l)) => Some((t@, match l { Some(v) => Some(v@), None => None })),
        None => None,
    }
}

fn leading_table_caption(blocks: &mut Vec<Block>) -> (r: Option<(Vec<char>, Option<Vec<char>>)>)
    ensures
        leading_caption(blocks_view(old(blocks)@)) == (blocks_view(final(blocks)@), caption_view(r)),
{
    let ghost bv = blocks_view(blocks@);
    let mut k = blocks.len();
    assert(bv.subrange(0, k as int) =~= bv);
    while k > 0 && matches!(blocks[k - 1], Block::Empty)
        invariant
            k <= blocks@.len(),
            bv == blocks_view(blocks@),
            empty_tail_start(bv.subrange(0, k as int)) == empty_tail_start(bv),
        decreases k,
    {
        assert(bv.subrange(0, k as int).drop_last() =~= bv.subrange(0, k - 1));
        k -= 1;
    }
    assert(bv.subrange(0, blocks@.len() as int) =~= bv) by {
    }
    proof {
        if k > 0 {
            assert(!(bv.subrange(0, k as int).last() is Empty));
        }
    }
    assert(empty_tail_start(bv) == k as int) by {
        assert(bv.subrange(0, blocks@.len() as int) =~= bv);
    }
    if k == 0 {
        return None;
    }
    let cap = match &blocks[k - 1] {
        Block::Paragraph(inl) => {
            let flat = flatten(inl.as_slice());
            let fc = chars_of(flat.as_str());
            caption_marker(&fc)
        },
        _ => None,
    };
    match cap {
        Some(c) => {
            blocks.truncate(k - 1);
            assert(blocks_view(blocks@) =~= bv.subrange(0, k - 1));
            Some(c)
        },
        None => None,
    }
}

fn skip_blank_lines_exec(ls: &Vec<Vec<char>>, i: usize) -> (r: usize)
    requires
        i <= ls@.len(),
    ensures
        r == skip_blank_lines(lines_view(ls@), i as int),
        i <= r <= ls@.len(),
{
    let ghost lv = lines_view(ls@);
    let mut j = i;
    while j < ls.len() && trim_chars(&ls[j]).len() == 0
        invariant
            i <= j <= ls@.len(),
            lv == lines_view(ls@),
            skip_blank_lines(lv, j as int) == skip_blank_lines(lv, i as int),
        decreases ls@.len() - j,
    {
        assert(ls@[j as int]@ == lv[j as int]);
        j += 1;
    }
    proof {
        if j < ls@.len() {
            assert(ls@[j as int]@ == lv[j as int]);
        }
    }
    j
}

fn trailing_table_caption(ls: &Vec<Vec<char>>, start: usize) -> (r: (Option<(Vec<char>, Option<Vec<char>>)>, usize))
    requires
        start <= ls@.len(),
    ensures
        trailing_caption(lines_view(ls@), start as int) == (caption_view(r.0), r.1 as int),
        start <= r.1 <= ls@.len(),
{
    let j = skip_blank_lines_exec(ls, start);
    if j < ls.len() {
        assert(ls@[j as int]@ == lines_view(ls@)[j as int]);
        let t = trim_chars(&ls[j]);
        match caption_marker(&t) {
            Some(c) => (Some(c), j + 1),
            None => (None, start),
        }
    } else {
        (None, start)
    }
}

// ---------------------------------------------------------------------------
// The line dispatcher
// ---------------------------------------------------------------------------

/// Parser state: next line, indentation stack of the current list, blocks
/// so far, and whether no step so far would have panicked.
pub struct PState {
    pub i: int,
    pub ind: Seq<(usize, u8)>,
    pub bs: Seq<SBlock>,
}

/// Number of leading `#` (at most 6).
pub open spec fn hashes(t: Seq<char>, k: int) -> int
    decreases 6 - k,
{
    if 0 <= k < 6 && k < t.len() && t[k] == '#' {
        hashes(t, k + 1)
    } else {
        k
    }
}

pub open spec fn table_text_prefix() -> Seq<char> {
    seq!['T', 'a', 'b', 'l', 'e', ':', ' ']
}

/// A heading line: `#` marks, numbering stripped, an optional label
/// attribute moved into a `Label` block before the heading.
pub open spec fn heading_step(line: Seq<char>, s: PState) -> PState {
    let lv = hashes(line, 0);
    let body = clean_spec(trim(line.subrange(lv, line.len() as int)));
    let (text, lab) = strip_label_attr_spec(body);
    let bs1 = match lab {
        Some(id) => s.bs.push(SBlock::Label(id)),
        None => s.bs,
    };
    PState { i: s.i + 1, ind: Seq::empty(), bs: bs1.push(SBlock::Heading { level: lv as u8, text }) }
}

/// A fenced code block starting at line `s.i`.
pub open spec fn code_step(ls: Seq<Seq<char>>, s: PState) -> PState {
    let (lang, content, next) = code_block_spec(ls, s.i);
    PState { i: next, ind: Seq::empty(), bs: s.bs.push(SBlock::CodeBlock { lang, content }) }
}

/// A table starting at line `s.i`, with a caption before or after it; a
/// table of fewer than two rows stays text.
pub open spec fn table_step(ls: Seq<Seq<char>>, line: Seq<char>, s: PState) -> PState {
    let (bs1, lead) = leading_caption(s.bs);
    let (parsed, ni) = parse_table_spec(ls, s.i);
    match parsed {
        Some(rows) => {
            let (trail, fi) = trailing_caption(ls, ni);
            let cap = if lead is Some { lead } else { trail };
            let bs2 = match cap {
                Some((_, Some(id))) => bs1.push(SBlock::Label(id)),
                _ => bs1,
            };
            let caption = match cap {
                Some((c, _)) => Some(c),
                None => None,
            };
            PState { i: fi, ind: Seq::empty(), bs: bs2.push(SBlock::Table { rows, caption }) }
        },
        None => {
            let bs2 = match lead {
                Some((c, _)) => bs1.push(SBlock::Paragraph(parse_spec(table_text_prefix() + c))),
                None => bs1,
            };
            PState { i: s.i + 1, ind: Seq::empty(), bs: bs2.push(SBlock::Paragraph(parse_spec(line))) }
        },
    }
}

/// A list item, a blank line (which keeps the list's indentation stack) or
/// a paragraph.
pub open spec fn text_step(raw: Seq<char>, line: Seq<char>, s: PState) -> PState {
    match list_item_spec(raw) {
        Some((ordered, indent, content)) => {
            let (level, ind2) = resolve_level(s.ind, indent as usize);
            PState {
                i: s.i + 1,
                ind: ind2,
                bs: s.bs.push(SBlock::List { ordered, level, content: parse_spec(content) }),
            }
        },
        None => if line.len() == 0 {
            PState { i: s.i + 1, ind: s.ind, bs: s.bs.push(SBlock::Empty) }
        } else {
            PState { i: s.i + 1, ind: Seq::empty(), bs: s.bs.push(SBlock::Paragraph(parse_spec(line))) }
        },
    }
}

/// One dispatch step on line `s.i`.
#[verifier::opaque]
pub open spec fn step(ls: Seq<Seq<char>>, s: PState) -> PState {
    let raw = ls[s.i];
    let line = trim(raw);
    match marker_spec(line) {
        Some(k) => PState { i: s.i + 1, ind: Seq::empty(), bs: s.bs.push(SBlock::Marker(k)) },
        None => if line.len() > 0 && line[0] == '#' {
            heading_step(line, s)
        } else if has_at(line, 0, seq!['`', '`', '`']) {
            code_step(ls, s)
        } else if is_table_line_spec(line) {
            table_step(ls, line, s)
        } else {
            text_step(raw, line, s)
        }
    }
}

/// Runs the dispatcher from state `s` to the end of the lines.
pub open spec fn run_lines(ls: Seq<Seq<char>>, s: PState) -> PState
    decreases ls.len() - s.i,
{
    if s.i < 0 || s.i >= ls.len() {
        s
    } else {
        let n = step(ls, s);
        if s.i < n.i <= ls.len() {
            run_lines(ls, n)
        } else {
            n
        }
    }
}

pub open spec fn initial_state() -> PState {
    PState { i: 0, ind: Seq::empty(), bs: Seq::empty() }
}

/// The blocks of a Markdown text.
pub open spec fn parse_blocks_spec(content: Seq<char>) -> Seq<SBlock> {
    run_lines(normalized_lines(content), initial_state()).bs
}

fn hashes_exec(t: &[char]) -> (r: usize)
    ensures
        r == hashes(t@, 0),
        r <= 6,
        r <= t@.len(),
{
    let mut k: usize = 0;
    while k < 6 && k < t.len() && t[k] == '#'
        invariant
            k <= 6,
            k <= t@.len(),
            hashes(t@, k as int) == hashes(t@, 0),
        decreases 6 - k,
    {
        k += 1;
    }
    k
}

fn push_block(blocks: &mut Vec<Block>, b: Block)
    ensures
        blocks_view(final(blocks)@) == blocks_view(old(blocks)@).push(block_view(b)),
{
    let ghost b0 = blocks@;
    blocks.push(b);
    assert(blocks_view(blocks@) =~= blocks_view(b0).push(block_view(b)));
}

fn text_paragraph(t: &Vec<char>) -> (b: Block)
    ensures
        block_view(b) == SBlock::Paragraph(parse_spec(t@)),
{
    Block::Paragraph(parse_vec(t))
}

fn string_opt(v: Option<Vec<char>>) -> (r: Option<String>)
    ensures
        opt_view(r) == match v { Some(x) => Some(x@), None => None },
{
    match v {
        Some(x) => Some(string_from_chars(&x)),
        None => None,
    }
}

pub open spec fn cur_state(i: usize, ind: Seq<(usize, u8)>, blocks: Seq<Block>) -> PState {
    PState { i: i as int, ind, bs: blocks_view(blocks) }
}

fn heading_exec(line: &Vec<char>, i: usize, ind: &mut Vec<(usize, u8)>, blocks: &mut Vec<Block>) -> (r: usize)
    requires
        line@.len() > 0,
        i < usize::MAX,
    ensures
        heading_step(line@, cur_state(i, old(ind)@, old(blocks)@)) == cur_state(r, final(ind)@, final(blocks)@),
{
    ind.clear();
    let lv_n = hashes_exec(line);
    let rest = slice_of(line, lv_n, line.len());
    let body = clean_chars(&trim_chars(&rest));
    let (text, lab) = strip_label_attr(&body);
    match lab {
        Some(id) => push_block(blocks, Block::Label(string_from_chars(&id))),
        None => {},
    }
    push_block(blocks, Block::Heading { level: lv_n as u8, text: string_from_chars(&text) });
    assert(ind@ =~= Seq::<(usize, u8)>::empty());
    i + 1
}

fn code_exec(ls: &Vec<Vec<char>>, i: usize, ind: &mut Vec<(usize, u8)>, blocks: &mut Vec<Block>) -> (r: usize)
    requires
        i < ls@.len(),
    ensures
        code_step(lines_view(ls@), cur_state(i, old(ind)@, old(blocks)@)) == cur_state(r, final(ind)@, final(blocks)@),
        i < r <= ls@.len(),
{
    ind.clear();
    let (lang, content, next) = parse_code_block(ls, i);
    push_block(blocks, Block::CodeBlock { lang: string_opt(lang), content: string_from_chars(&content) });
    assert(ind@ =~= Seq::<(usize, u8)>::empty());
    next
}

fn prefixed_caption(c: &Vec<char>) -> (t: Vec<char>)
    ensures
        t@ == table_text_prefix() + c@,
{
    let mut t: Vec<char> = Vec::new();
    t.push('T');
    t.push('a');
    t.push('b');
    t.push('l');
    t.push('e');
    t.push(':');
    t.push(' ');
    assert(t@ =~= table_text_prefix());
    let mut k: usize = 0;
    while k < c.len()
        invariant
            k <= c@.len(),
            t@ == table_text_prefix() + c@.take(k as int),
        decreases c@.len() - k,
    {
        t.push(c[k]);
        k += 1;
        assert(t@ =~= table_text_prefix() + c@.take(k as int));
    }
    assert(c@.take(c@.len() as int) =~= c@);
    t
}

fn table_exec(ls: &Vec<Vec<char>>, line: &Vec<char>, i: usize, ind: &mut Vec<(usize, u8)>, blocks: &mut Vec<Block>) -> (r: usize)
    requires
        i < ls@.len(),
    ensures
        table_step(lines_view(ls@), line@, cur_state(i, old(ind)@, old(blocks)@)) == cur_state(r, final(ind)@, final(blocks)@),
        i < r <= ls@.len(),
{
    let n = ls.len();
    ind.clear();
    assert(ind@ =~= Seq::<(usize, u8)>::empty());
    let lead = leading_table_caption(blocks);
    let (parsed, ni) = parse_table_lines(ls, i);
    match parsed {
        Some(rows) => {
            let (trail, fi) = trailing_table_caption(ls, ni);
            let cap = if lead.is_some() { lead } else { trail };
            let caption = match cap {
                Some((c, l)) => {
                    match l {
                        Some(id) => push_block(blocks, Block::Label(string_from_chars(&id))),
                        None => {},
                    }
                    Some(string_from_chars(&c))
                },
                None => None,
            };
            push_block(blocks, Block::Table { rows, caption });
            fi
        },
        None => {
            match lead {
                Some((c, _)) => {
                    let t = prefixed_caption(&c);
                    push_block(blocks, text_paragraph(&t));
                },
                None => {},
            }
            push_block(blocks, text_paragraph(line));
            i + 1
        },
    }
}

fn text_exec(raw: &Vec<char>, line: &Vec<char>, i: usize, ind: &mut Vec<(usize, u8)>, blocks: &mut Vec<Block>) -> (r: usize)
    requires
        i < usize::MAX,
    ensures
        text_step(raw@, line@, cur_state(i, old(ind)@, old(blocks)@)) == cur_state(r, final(ind)@, final(blocks)@),
{
    match list_item(raw) {
        Some((ordered, indent, content)) => {
            let level = resolve_list_level(ind, indent);
            push_block(blocks, Block::List { ordered, level, content: parse_vec(&content) });
        },
        None => {
            if line.len() == 0 {
                push_block(blocks, Block::Empty);
            } else {
                ind.clear();
                push_block(blocks, text_paragraph(line));
                assert(ind@ =~= Seq::<(usize, u8)>::empty());
            }
        },
    }
    i + 1
}

/// One dispatch step (see [`step`]).
fn step_exec(ls: &Vec<Vec<char>>, i: usize, ind: &mut Vec<(usize, u8)>, blocks: &mut Vec<Block>) -> (r: usize)
    requires
        i < ls@.len(),
    ensures
        step(lines_view(ls@), cur_state(i, old(ind)@, old(blocks)@)) == cur_state(r, final(ind)@, final(blocks)@),
        i < r <= ls@.len(),
{
    reveal(step);
    let n = ls.len();
    let ghost lv = lines_view(ls@);
    assert(ls@[i as int]@ == lv[i as int]);
    let raw = &ls[i];
    let line = trim_chars(raw);
    if let Some(k) = detect_chars(&line) {
        ind.clear();
        push_block(blocks, Block::Marker(k));
        assert(ind@ =~= Seq::<(usize, u8)>::empty());
        return i + 1;
    }
    if line.len() > 0 && line[0] == '#' {
        return heading_exec(&line, i, ind, blocks);
    }
    let fence = ['`', '`', '`'];
    assert(fence@ =~= seq!['`', '`', '`']);
    if at(&line, 0, &fence) {
        return code_exec(ls, i, ind, blocks);
    }
    if is_table_line_chars(&line) {
        return table_exec(ls, &line, i, ind, blocks);
    }
    text_exec(raw, &line, i, ind, blocks)
}

/// Parses Markdown into blocks.
pub fn parse_chars(content: &[char]) -> (r: Vec<Block>)
    ensures
        blocks_view(r@) == parse_blocks_spec(content@),
{
    let ls = normalize_lines_except_code(content);
    let ghost lv = lines_view(ls@);
    let mut blocks: Vec<Block> = Vec::new();
    let mut ind: Vec<(usize, u8)> = Vec::new();
    let mut i: usize = 0;
    assert(blocks_view(blocks@) =~= Seq::<SBlock>::empty());
    assert(ind@ =~= Seq::<(usize, u8)>::empty());
    while i < ls.len()
        invariant
            i <= ls@.len(),
            lv == lines_view(ls@),
            lv.len() == ls@.len(),
            run_lines(lv, cur_state(i, ind@, blocks@)) == run_lines(lv, initial_state()),
        decreases ls@.len() - i,
    {
        let ni = step_exec(&ls, i, &mut ind, &mut blocks);
        i = ni;
    }
    blocks
}

/// Parses a whole Markdown text into blocks (quotes normalised outside code
/// fences, numbering stripped from headings, inline formatting split).
pub fn parse(content: &str) -> (r: Vec<Block>)
    ensures
        blocks_view(r@) == parse_blocks_spec(content@),
{
    let t = chars_of(content);
    parse_chars(&t)
}

/// Joins the inlines back into plain text (debugging aid).
pub fn render_text(inlines: &[Inline]) -> (s: String)
    ensures
        s@ == flat_seq(inlines_view(inlines@)),
{
    flatten(inlines)
}

// ---------------------------------------------------------------------------
// Laws
// ---------------------------------------------------------------------------

/// Every `Label` block is immediately followed by a heading or a table.
pub open spec fn labels_lead_targets(bs: Seq<SBlock>) -> bool {
    forall|k: int| 0 <= k < bs.len() && (#[trigger] bs[k]) is Label ==> k + 1 < bs.len() && (bs[k + 1] is Heading
        || bs[k + 1] is Table)
}

proof fn lemma_push_plain(bs: Seq<SBlock>, x: SBlock)
    requires
        labels_lead_targets(bs),
        !(x is Label),
    ensures
        labels_lead_targets(bs.push(x)),
{
    let b2 = bs.push(x);
    assert forall|k: int| 0 <= k < b2.len() && (#[trigger] b2[k]) is Label implies k + 1 < b2.len() && (b2[k + 1] is Heading
        || b2[k + 1] is Table) by {
        assert(k < bs.len());
        assert(bs[k] is Label);
    }
}

proof fn lemma_push_labelled(bs: Seq<SBlock>, id: Seq<char>, x: SBlock)
    requires
        labels_lead_targets(bs),
        x is Heading || x is Table,
    ensures
        labels_lead_targets(bs.push(SBlock::Label(id)).push(x)),
{
    let b2 = bs.push(SBlock::Label(id)).push(x);
    assert forall|k: int| 0 <= k < b2.len() && (#[trigger] b2[k]) is Label implies k + 1 < b2.len() && (b2[k + 1] is Heading
        || b2[k + 1] is Table) by {
        if k < bs.len() {
            assert(bs[k] is Label);
        }
    }
}

proof fn lemma_leading_caption_keeps(bs: Seq<SBlock>)
    requires
        labels_lead_targets(bs),
    ensures
        labels_lead_targets(leading_caption(bs).0),
{
    lemma_empty_tail_start(bs);
    let k = empty_tail_start(bs);
    if leading_caption(bs).1 is Some {
        let t = bs.subrange(0, k - 1);
        assert(bs[k - 1] is Paragraph);
        assert forall|j: int| 0 <= j < t.len() && (#[trigger] t[j]) is Label implies j + 1 < t.len() && (t[j + 1] is Heading
            || t[j + 1] is Table) by {
            assert(bs[j] is Label);
            if j + 1 == k - 1 {
                assert(bs[j + 1] is Paragraph);
            }
        }
    }
}

proof fn lemma_heading_step_keeps(line: Seq<char>, s: PState)
    requires
        labels_lead_targets(s.bs),
    ensures
        labels_lead_targets(heading_step(line, s).bs),
{
    let lv = hashes(line, 0);
    let body = clean_spec(trim(line.subrange(lv, line.len() as int)));
    let (text, lab) = strip_label_attr_spec(body);
    match lab {
        Some(id) => lemma_push_labelled(s.bs, id, SBlock::Heading { level: lv as u8, text }),
        None => lemma_push_plain(s.bs, SBlock::Heading { level: lv as u8, text }),
    }
}

proof fn lemma_table_step_keeps(ls: Seq<Seq<char>>, line: Seq<char>, s: PState)
    requires
        labels_lead_targets(s.bs),
    ensures
        labels_lead_targets(table_step(ls, line, s).bs),
{
    let (bs1, lead) = leading_caption(s.bs);
    lemma_leading_caption_keeps(s.bs);
    let (parsed, ni) = parse_table_spec(ls, s.i);
    match parsed {
        Some(rows) => {
            let (trail, fi) = trailing_caption(ls, ni);
            let cap = if lead is Some { lead } else { trail };
            let caption = match cap {
                Some((c, _)) => Some(c),
                None => None,
            };
            let tb = SBlock::Table { rows, caption };
            match cap {
                Some((_, Some(id))) => lemma_push_labelled(bs1, id, tb),
                _ => lemma_push_plain(bs1, tb),
            }
        },
        None => {
            let p = SBlock::Paragraph(parse_spec(line));
            match lead {
                Some((c, _)) => {
                    let q = SBlock::Paragraph(parse_spec(table_text_prefix() + c));
                    lemma_push_plain(bs1, q);
                    lemma_push_plain(bs1.push(q), p);
                },
                None => lemma_push_plain(bs1, p),
            }
        },
    }
}

proof fn lemma_text_step_keeps(raw: Seq<char>, line: Seq<char>, s: PState)
    requires
        labels_lead_targets(s.bs),
    ensures
        labels_lead_targets(text_step(raw, line, s).bs),
{
    match list_item_spec(raw) {
        Some((ordered, indent, content)) => {
            let (level, ind2) = resolve_level(s.ind, indent as usize);
            lemma_push_plain(s.bs, SBlock::List { ordered, level, content: parse_spec(content) });
        },
        None => if line.len() == 0 {
            lemma_push_plain(s.bs, SBlock::Empty);
        } else {
            lemma_push_plain(s.bs, SBlock::Paragraph(parse_spec(line)));
        },
    }
}

proof fn lemma_step_keeps(ls: Seq<Seq<char>>, s: PState)
    requires
        labels_lead_targets(s.bs),
    ensures
        labels_lead_targets(step(ls, s).bs),
{
    reveal(step);
    let raw = ls[s.i];
    let line = trim(raw);
    match marker_spec(line) {
        Some(k) => lemma_push_plain(s.bs, SBlock::Marker(k)),
        None => if line.len() > 0 && line[0] == '#' {
            lemma_heading_step_keeps(line, s);
        } else if has_at(line, 0, seq!['`', '`', '`']) {
            let (lang, content, next) = code_block_spec(ls, s.i);
            lemma_push_plain(s.bs, SBlock::CodeBlock { lang, content });
        } else if is_table_line_spec(line) {
            lemma_table_step_keeps(ls, line, s);
        } else {
            lemma_text_step_keeps(raw, line, s);
        },
    }
}

proof fn lemma_run_keeps(ls: Seq<Seq<char>>, s: PState)
    requires
        labels_lead_targets(s.bs),
    ensures
        labels_lead_targets(run_lines(ls, s).bs),
    decreases ls.len() - s.i,
{
    if 0 <= s.i < ls.len() {
        lemma_step_keeps(ls, s);
        let n = step(ls, s);
        if s.i < n.i <= ls.len() {
            lemma_run_keeps(ls, n);
        }
    }
}

/// In a parsed document every `Label` block comes right before the heading
/// or table it names.
pub proof fn lemma_labels_lead_targets(content: Seq<char>)
    ensures
        labels_lead_targets(parse_blocks_spec(content)),
{
    lemma_run_keeps(normalized_lines(content), initial_state());
}

/// So the cross-reference check never finds a label of a parsed document
/// detached from its heading or table.
pub proof fn lemma_parsed_labels_attached(content: Seq<char>)
    ensures
        forall|k: int| 0 <= k < parse_blocks_spec(content).len() && (#[trigger] parse_blocks_spec(content)[k]) is Label
            ==> attached(parse_blocks_spec(content), k),
{
    lemma_labels_lead_targets(content);
    let bs = parse_blocks_spec(content);
    assert forall|k: int| 0 <= k < bs.len() && (#[trigger] bs[k]) is Label implies attached(bs, k) by {
        assert(bs[k + 1] is Heading || bs[k + 1] is Table);
    }
}


// ---------------------------------------------------------------------------
// Well-formed output
// ---------------------------------------------------------------------------

/// Heading and list levels lie in 1..=6 and a table has a row.
pub open spec fn block_well_formed(b: SBlock) -> bool {
    match b {
        SBlock::Heading { level, .. } => 1 <= level <= 6,
        SBlock::List { level, .. } => 1 <= level <= 6,
        SBlock::Table { rows, .. } => rows.len() > 0,
        _ => true,
    }
}

pub open spec fn blocks_well_formed(bs: Seq<SBlock>) -> bool {
    forall|k: int| 0 <= k < bs.len() ==> block_well_formed(#[trigger] bs[k])
}

spec fn levels_ok(ind: Seq<(usize, u8)>) -> bool {
    forall|k: int| 0 <= k < ind.len() ==> 1 <= (#[trigger] ind[k]).1 <= 6
}

spec fn state_well_formed(s: PState) -> bool {
    blocks_well_formed(s.bs) && levels_ok(s.ind)
}

proof fn lemma_hashes(t: Seq<char>, k: int)
    requires
        0 <= k <= 6,
    ensures
        k <= hashes(t, k) <= 6,
    decreases 6 - k,
{
    if 0 <= k < 6 && k < t.len() && t[k] == '#' {
        lemma_hashes(t, k + 1);
    }
}

proof fn lemma_pop_deeper(ind: Seq<(usize, u8)>, indent: usize)
    requires
        levels_ok(ind),
    ensures
        levels_ok(pop_deeper(ind, indent)),
    decreases ind.len(),
{
    if ind.len() > 0 && ind.last().0 > indent {
        assert(levels_ok(ind.drop_last())) by {
            assert forall|k: int| 0 <= k < ind.drop_last().len() implies 1 <= (#[trigger] ind.drop_last()[k]).1 <= 6 by {
                assert(ind.drop_last()[k] == ind[k]);
            }
        }
        lemma_pop_deeper(ind.drop_last(), indent);
    }
}

proof fn lemma_resolve_level_ok(ind: Seq<(usize, u8)>, indent: usize)
    requires
        levels_ok(ind),
    ensures
        1 <= resolve_level(ind, indent).0 <= 6,
        levels_ok(resolve_level(ind, indent).1),
{
    lemma_find_indent(ind, indent, 0);
    let p = find_indent(ind, indent, 0);
    if p < ind.len() {
        let r = ind.subrange(0, p + 1);
        assert forall|k: int| 0 <= k < r.len() implies 1 <= (#[trigger] r[k]).1 <= 6 by {
            assert(r[k] == ind[k]);
        }
    } else if ind.len() > 0 && indent > ind.last().0 {
        assert(1 <= ind[ind.len() - 1].1 <= 6);
    } else {
        lemma_pop_deeper(ind, indent);
    }
}

proof fn lemma_push_well_formed(bs: Seq<SBlock>, b: SBlock)
    requires
        blocks_well_formed(bs),
        block_well_formed(b),
    ensures
        blocks_well_formed(bs.push(b)),
{
    assert forall|k: int| 0 <= k < bs.push(b).len() implies block_well_formed(#[trigger] bs.push(b)[k]) by {
        if k < bs.len() {
            assert(bs.push(b)[k] == bs[k]);
        }
    }
}

proof fn lemma_step_well_formed(ls: Seq<Seq<char>>, s: PState)
    requires
        0 <= s.i < ls.len(),
        state_well_formed(s),
    ensures
        state_well_formed(step(ls, s)),
{
    reveal(step);
    let raw = ls[s.i];
    let line = trim(raw);
    let n = step(ls, s);
    match marker_spec(line) {
        Some(k) => lemma_push_well_formed(s.bs, SBlock::Marker(k)),
        None => if line.len() > 0 && line[0] == '#' {
            lemma_hashes(line, 0);
            lemma_hashes(line, 1);
            let lv = hashes(line, 0);
            assert(lv >= 1);
            let body = clean_spec(trim(line.subrange(lv, line.len() as int)));
            let (text, lab) = strip_label_attr_spec(body);
            let bs1 = match lab {
                Some(id) => s.bs.push(SBlock::Label(id)),
                None => s.bs,
            };
            match lab {
                Some(id) => lemma_push_well_formed(s.bs, SBlock::Label(id)),
                None => {},
            }
            lemma_push_well_formed(bs1, SBlock::Heading { level: lv as u8, text });
        } else if has_at(line, 0, seq!['`', '`', '`']) {
            let (lang, content, next) = code_block_spec(ls, s.i);
            lemma_push_well_formed(s.bs, SBlock::CodeBlock { lang, content });
        } else if is_table_line_spec(line) {
            let (bs1, lead) = leading_caption(s.bs);
            assert(blocks_well_formed(bs1)) by {
                if lead is Some {
                    let k = empty_tail_start(s.bs);
                    assert forall|m: int| 0 <= m < bs1.len() implies block_well_formed(#[trigger] bs1[m]) by {
                        assert(bs1[m] == s.bs[m]);
                    }
                }
            }
            let (parsed, ni) = parse_table_spec(ls, s.i);
            match parsed {
                Some(rows) => {
                    let (trail, fi) = trailing_caption(ls, ni);
                    let cap = if lead is Some { lead } else { trail };
                    let caption = match cap {
                        Some((c, _)) => Some(c),
                        None => None,
                    };
                    let bs2 = match cap {
                        Some((_, Some(id))) => bs1.push(SBlock::Label(id)),
                        _ => bs1,
                    };
                    match cap {
                        Some((_, Some(id))) => lemma_push_well_formed(bs1, SBlock::Label(id)),
                        _ => {},
                    }
                    lemma_push_well_formed(bs2, SBlock::Table { rows, caption });
                },
                None => {
                    let p = SBlock::Paragraph(parse_spec(line));
                    match lead {
                        Some((c, _)) => {
                            let q = SBlock::Paragraph(parse_spec(table_text_prefix() + c));
                            lemma_push_well_formed(bs1, q);
                            lemma_push_well_formed(bs1.push(q), p);
                        },
                        None => lemma_push_well_formed(bs1, p),
                    }
                },
            }
        } else {
            match list_item_spec(raw) {
                Some((ordered, indent, content)) => {
                    lemma_resolve_level_ok(s.ind, indent as usize);
                    let (level, ind2) = resolve_level(s.ind, indent as usize);
                    lemma_push_well_formed(s.bs, SBlock::List { ordered, level, content: parse_spec(content) });
                },
                None => if line.len() == 0 {
                    lemma_push_well_formed(s.bs, SBlock::Empty);
                } else {
                    lemma_push_well_formed(s.bs, SBlock::Paragraph(parse_spec(line)));
                },
            }
        },
    }
}

proof fn lemma_run_well_formed(ls: Seq<Seq<char>>, s: PState)
    requires
        state_well_formed(s),
    ensures
        blocks_well_formed(run_lines(ls, s).bs),
    decreases ls.len() - s.i,
{
    if 0 <= s.i < ls.len() {
        lemma_step_well_formed(ls, s);
        let n = step(ls, s);
        if s.i < n.i <= ls.len() {
            lemma_run_well_formed(ls, n);
        }
    }
}

/// A parsed document is well formed: every heading and list item has a
/// level in 1..=6 and every table has at least one row.
pub proof fn lemma_parsed_blocks_well_formed(content: Seq<char>)
    ensures
        blocks_well_formed(parse_blocks_spec(content)),
{
    lemma_run_well_formed(normalized_lines(content), initial_state());
}


// ---------------------------------------------------------------------------
// List levels
// ---------------------------------------------------------------------------

proof fn lemma_find_indent_first(ind: Seq<(usize, u8)>, indent: usize, k: int, p: int)
    requires
        0 <= k <= p < ind.len(),
        ind[p].0 == indent,
        forall|q: int| 0 <= q < p ==> (#[trigger] ind[q]).0 != indent,
    ensures
        find_indent(ind, indent, k) == p,
    decreases p - k,
{
    if k < p {
        lemma_find_indent_first(ind, indent, k + 1, p);
    }
}

/// An indentation already on the list's stack gives back the level stored
/// with it (its first occurrence), and the deeper entries after it are
/// dropped.
pub proof fn lemma_known_indent_keeps_level(ind: Seq<(usize, u8)>, indent: usize, p: int)
    requires
        0 <= p < ind.len(),
        ind[p].0 == indent,
        forall|q: int| 0 <= q < p ==> (#[trigger] ind[q]).0 != indent,
    ensures
        resolve_level(ind, indent).0 == ind[p].1,
        resolve_level(ind, indent).1 == ind.subrange(0, p + 1),
{
    lemma_find_indent_first(ind, indent, 0, p);
}

/// Every entry of the stack at indentation 0 has level 1.
pub open spec fn top_level_is_one(ind: Seq<(usize, u8)>) -> bool {
    forall|k: int| 0 <= k < ind.len() && (#[trigger] ind[k]).0 == 0 ==> ind[k].1 == 1
}

proof fn lemma_pop_deeper_prefix(ind: Seq<(usize, u8)>, indent: usize)
    ensures
        pop_deeper(ind, indent).len() <= ind.len(),
        forall|k: int| 0 <= k < pop_deeper(ind, indent).len() ==> #[trigger] pop_deeper(ind, indent)[k] == ind[k],
    decreases ind.len(),
{
    if ind.len() > 0 && ind.last().0 > indent {
        lemma_pop_deeper_prefix(ind.drop_last(), indent);
    }
}

/// A list item at indentation 0 is a top-level item: on a stack whose
/// entries at indentation 0 have level 1 (as every stack the parser builds
/// from empty has, see the second half), it gets level 1, however deep the
/// items before it went; and the stack after it keeps that property.
pub proof fn lemma_top_level_item(ind: Seq<(usize, u8)>, indent: usize)
    requires
        top_level_is_one(ind),
    ensures
        indent == 0 ==> resolve_level(ind, indent).0 == 1,
        top_level_is_one(resolve_level(ind, indent).1),
{
    lemma_find_indent(ind, indent, 0);
    let p = find_indent(ind, indent, 0);
    let r = resolve_level(ind, indent);
    if p < ind.len() {
        assert forall|k: int| 0 <= k < r.1.len() && (#[trigger] r.1[k]).0 == 0 implies r.1[k].1 == 1 by {
            assert(r.1[k] == ind[k]);
        }
    } else if ind.len() > 0 && indent > ind.last().0 {
        assert forall|k: int| 0 <= k < r.1.len() && (#[trigger] r.1[k]).0 == 0 implies r.1[k].1 == 1 by {
            if k < ind.len() {
                assert(r.1[k] == ind[k]);
            }
        }
    } else {
        lemma_pop_deeper_prefix(ind, indent);
        let rest = pop_deeper(ind, indent);
        assert forall|k: int| 0 <= k < r.1.len() && (#[trigger] r.1[k]).0 == 0 implies r.1[k].1 == 1 by {
            if k < rest.len() {
                assert(r.1[k] == rest[k]);
                assert(rest[k] == ind[k]);
            }
        }
    }
}


/// Every step of the parser keeps the stack's indentation-0 entries at
/// level 1 (starting from the empty stack, so every stack the parser uses
/// has the property that [`lemma_top_level_item`] asks for).
pub proof fn lemma_step_keeps_top_level(ls: Seq<Seq<char>>, s: PState)
    requires
        0 <= s.i < ls.len(),
        top_level_is_one(s.ind),
    ensures
        top_level_is_one(step(ls, s).ind),
{
    reveal(step);
    let raw = ls[s.i];
    let line = trim(raw);
    if marker_spec(line) is None && !(line.len() > 0 && line[0] == '#')
        && !has_at(line, 0, seq!['`', '`', '`']) && !is_table_line_spec(line) {
        match list_item_spec(raw) {
            Some((ordered, indent, content)) => {
                lemma_top_level_item(s.ind, indent as usize);
            },
            None => {},
        }
    }
}

} // verus!
