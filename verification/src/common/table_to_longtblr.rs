//! Tables as `longtblr` environments (package `tabularray`): column
//! alignment and widths come from the column analysis, cells are rendered
//! from their inline Markdown.
use vstd::prelude::*;
use crate::common::ast::{
    Block, Inline, SInline, inline_view, inlines_view, lemma_inlines_view_push, strings_view,
    table_view,
};
use crate::common::escape::{Escaper, escape_cell_spec, escaped, push_escaped};
use crate::common::inline::parse;
use crate::common::inline::parse_spec;
use crate::common::table_layout::{
    ColumnAlignment, ColumnLayout, ColumnWidth, alignment_letter, analysis, analyze_table,
    lemma_analysis_bounds, num_columns, table_chars,
};
use crate::text::{decimal, join_with, push_char, push_decimal, push_joined, push_str, string_views};

verus! {

// ---------------------------------------------------------------------------
// Cells
// ---------------------------------------------------------------------------

/// LaTeX of one inline inside a cell: formatting kept, links and images by
/// their text, footnotes inline in full-width parentheses.
pub open spec fn cell_inline(i: SInline) -> Seq<char>
    decreases i, 0nat,
{
    match i {
        SInline::Text(t) => escape_cell_spec(t),
        SInline::Bold(c) => "\\textbf{"@ + cell_inlines(c) + "}"@,
        SInline::Italic(c) => "\\textit{"@ + cell_inlines(c) + "}"@,
        SInline::Code(t) => "\\texttt{"@ + escape_cell_spec(t) + "}"@,
        SInline::Link { text, url } => escape_cell_spec(text),
        SInline::Image { alt, url, label } => escape_cell_spec(alt),
        SInline::CrossRef(id) => "\\ref{"@ + id + "}"@,
        SInline::Citation(keys) => "\\cite{"@ + join_with(keys, ","@) + "}"@,
        SInline::Footnote(t) => "（"@ + escape_cell_spec(t) + "）"@,
    }
}

pub open spec fn cell_inlines(s: Seq<SInline>) -> Seq<char>
    decreases s, s.len(),
{
    if s.len() == 0 {
        Seq::empty()
    } else {
        cell_inlines(s.drop_last()) + cell_inline(s.last())
    }
}

/// A cell's LaTeX: its text parsed as inline Markdown.
pub open spec fn cell_tex(c: Seq<char>) -> Seq<char> {
    cell_inlines(parse_spec(c))
}

fn push_cell_inlines(out: &mut String, inlines: &[Inline])
    ensures
        final(out)@ == old(out)@ + cell_inlines(inlines_view(inlines@)),
    decreases inlines@,
{
    let mut i: usize = 0;
    while i < inlines.len()
        invariant
            i <= inlines@.len(),
            out@ == old(out)@ + cell_inlines(inlines_view(inlines@.take(i as int))),
        decreases inlines@.len() - i,
    {
        let ghost before = out@;
        match &inlines[i] {
            Inline::Text(t) => push_escaped(out, Escaper::Latex, t.as_str()),
            Inline::Bold(c) => {
                assert(decreases_to!(inlines@ => c@));
                push_str(out, "\\textbf{");
                push_cell_inlines(out, c.as_slice());
                push_str(out, "}");
            },
            Inline::Italic(c) => {
                assert(decreases_to!(inlines@ => c@));
                push_str(out, "\\textit{");
                push_cell_inlines(out, c.as_slice());
                push_str(out, "}");
            },
            Inline::Code(t) => {
                push_str(out, "\\texttt{");
                push_escaped(out, Escaper::Latex, t.as_str());
                push_str(out, "}");
            },
            Inline::Link { text, .. } => push_escaped(out, Escaper::Latex, text.as_str()),
            Inline::Image { alt, .. } => push_escaped(out, Escaper::Latex, alt.as_str()),
            Inline::CrossRef(id) => {
                push_str(out, "\\ref{");
                push_str(out, id.as_str());
                push_str(out, "}");
            },
            Inline::Citation(keys) => {
                push_str(out, "\\cite{");
                push_joined(out, keys.as_slice(), ",");
                push_str(out, "}");
                assert(string_views(keys@) =~= strings_view(keys@));
            },
            Inline::Footnote(t) => {
                push_str(out, "（");
                push_escaped(out, Escaper::Latex, t.as_str());
                push_str(out, "）");
            },
        }
        proof {
            let p = inlines@.take(i + 1);
            assert(p =~= inlines@.take(i as int).push(inlines@[i as int]));
            lemma_inlines_view_push(inlines@.take(i as int), inlines@[i as int]);
            assert(inlines_view(inlines@.take(i as int)).push(inline_view(inlines@[i as int])).drop_last()
                =~= inlines_view(inlines@.take(i as int)));
            assert(cell_inlines(inlines_view(p)) =~= cell_inlines(inlines_view(inlines@.take(i as int)))
                + cell_inline(inline_view(inlines@[i as int])));
            assert(escape_cell_spec(inlines@[i as int]->Text_0@) == escaped(Escaper::Latex, inlines@[i as int]->Text_0@));
        }
        i += 1;
        assert(out@ =~= old(out)@ + cell_inlines(inlines_view(inlines@.take(i as int))));
    }
    assert(inlines@.take(inlines@.len() as int) =~= inlines@);
}

fn cell_to_latex(cell: &str) -> (s: String)
    ensures
        s@ == cell_tex(cell@),
{
    let mut s = String::new();
    let inl = parse(cell);
    push_cell_inlines(&mut s, inl.as_slice());
    assert(s@ =~= cell_tex(cell@));
    s
}

/// A row: cells separated by ` & ` and ended by `\\`; header cells in the
/// bold (hei) face.
pub open spec fn row_tex(cells: Seq<Seq<char>>, header: bool) -> Seq<char> {
    join_with(
        Seq::new(cells.len(), |k: int| if header { "\\heiti "@ + cell_tex(cells[k]) } else { cell_tex(cells[k]) }),
        " & "@,
    ) + " \\\\"@
}

fn process_row(cells: &Vec<String>, is_header: bool) -> (s: String)
    ensures
        s@ == row_tex(strings_view(cells@), is_header),
{
    let ghost cv = strings_view(cells@);
    let ghost rendered_spec = Seq::new(cv.len(), |k: int| if is_header { "\\heiti "@ + cell_tex(cv[k]) } else { cell_tex(cv[k]) });
    let mut rendered: Vec<String> = Vec::new();
    let mut k: usize = 0;
    while k < cells.len()
        invariant
            k <= cells@.len(),
            cv == strings_view(cells@),
            rendered_spec == Seq::new(cv.len(), |k: int| if is_header { "\\heiti "@ + cell_tex(cv[k]) } else { cell_tex(cv[k]) }),
            rendered@.len() == k,
            forall|j: int| 0 <= j < k ==> #[trigger] rendered@[j]@ == rendered_spec[j],
        decreases cells@.len() - k,
    {
        let content = cell_to_latex(cells[k].as_str());
        if is_header {
            let mut h = String::new();
            push_str(&mut h, "\\heiti ");
            push_str(&mut h, content.as_str());
            rendered.push(h);
        } else {
            rendered.push(content);
        }
        k += 1;
    }
    assert(string_views(rendered@) =~= rendered_spec);
    let mut s = String::new();
    push_joined(&mut s, rendered.as_slice(), " & ");
    push_str(&mut s, " \\\\");
    assert(s@ =~= row_tex(cv, is_header));
    s
}

// ---------------------------------------------------------------------------
// Column specification and analysis comment
// ---------------------------------------------------------------------------

/// A weight in tenths with one decimal, such as `1.5`.
pub open spec fn tenths(k: nat) -> Seq<char> {
    decimal(k / 10) + "."@ + decimal(k % 10)
}

pub open spec fn col_spec(c: ColumnLayout) -> Seq<char> {
    let a = seq![alignment_letter(c.alignment)];
    match c.width {
        ColumnWidth::FixedEm(em) => "Q["@ + a + ",wd="@ + decimal(em as nat) + "em]"@,
        ColumnWidth::Relative(k) => if k == 10 {
            "X["@ + a + "]"@
        } else {
            "X["@ + tenths(k as nat) + ","@ + a + "]"@
        },
    }
}

pub open spec fn colspec(cols: Seq<ColumnLayout>) -> Seq<char> {
    join_with(cols.map_values(|c: ColumnLayout| col_spec(c)), " "@)
}

/// `total / count` rounded to the nearest integer, ties to even.
pub open spec fn round_half_even(total: nat, count: nat) -> nat {
    if count == 0 {
        0
    } else {
        let q = total / count;
        let r = total % count;
        if 2 * r > count || (2 * r == count && q % 2 == 1) { q + 1 } else { q }
    }
}

pub open spec fn yes_no(b: bool) -> Seq<char> {
    if b { "是"@ } else { "否"@ }
}

pub open spec fn debug_widths(i: nat, c: ColumnLayout) -> Seq<char> {
    "%% 列"@ + decimal(i + 1) + ": 平均宽度="@ + tenths(round_half_even(c.total_width as nat, c.count as nat))
        + ", 最大宽度="@ + tenths(c.max_width as nat)
}

pub open spec fn debug_flags(c: ColumnLayout) -> Seq<char> {
    ", 数字列="@ + yes_no(c.is_numeric) + ", 有标点="@ + yes_no(c.has_punctuation) + " → 对齐="@
        + (if c.alignment == ColumnAlignment::Center { "居中"@ } else { "靠左"@ })
}

pub open spec fn debug_tail(c: ColumnLayout) -> Seq<char> {
    let extra = match c.width {
        ColumnWidth::FixedEm(em) => ", 窄数字列 → 固定列宽="@ + decimal(em as nat) + "em"@,
        ColumnWidth::Relative(_) => Seq::empty(),
    };
    extra + "\n"@
}

/// The analysis of column `i` as a LaTeX comment line.
pub open spec fn debug_line(i: nat, c: ColumnLayout) -> Seq<char> {
    debug_widths(i, c) + debug_flags(c) + debug_tail(c)
}

pub open spec fn debug_lines(cols: Seq<ColumnLayout>) -> Seq<char>
    decreases cols.len(),
{
    if cols.len() == 0 {
        Seq::empty()
    } else {
        debug_lines(cols.drop_last()) + debug_line((cols.len() - 1) as nat, cols.last())
    }
}

/// Options in square brackets after `\begin{longtblr}`.
pub open spec fn outer_options(caption: Option<Seq<char>>, label: Option<Seq<char>>) -> Seq<char> {
    let c = match caption {
        Some(t) => "caption={"@ + t + "}"@,
        None => Seq::empty(),
    };
    match label {
        Some(l) => c + (if caption is Some { ", "@ } else { Seq::empty() }) + "label={"@ + l + "}"@,
        None => c,
    }
}

pub open spec fn longtblr_begin(cols: Seq<ColumnLayout>, opts: Seq<char>) -> Seq<char> {
    "% 智能表格分析结果:\n"@ + debug_lines(cols) + "\n\\begin{longtblr}"@ + (if opts.len() > 0 {
        "["@ + opts + "]"@
    } else {
        Seq::empty()
    }) + "{\n  colspec = {"@ + colspec(cols)
        + "},\n  rowhead = 1,\n  hlines,\n  vlines,\n  row{1} = {c, font=\\heiti},\n}"@
}

/// The lines of the environment: its opening, the header row, the body
/// rows, its end.
pub open spec fn longtblr_lines(rows: Seq<Seq<Seq<char>>>, caption: Option<Seq<char>>, label: Option<Seq<char>>) -> Seq<Seq<char>> {
    seq![longtblr_begin(analysis(rows), outer_options(caption, label)), row_tex(rows[0], true)]
        + Seq::new((rows.len() - 1) as nat, |k: int| row_tex(rows[k + 1], false))
        + seq!["\\end{longtblr}"@]
}

/// A table as a `longtblr` environment; nothing for a table without rows
/// or without header cells.
pub open spec fn longtblr_spec(rows: Seq<Seq<Seq<char>>>, caption: Option<Seq<char>>, label: Option<Seq<char>>) -> Seq<char> {
    if rows.len() == 0 || analysis(rows).len() == 0 {
        Seq::empty()
    } else {
        join_with(longtblr_lines(rows, caption, label), "\n"@)
    }
}

fn push_tenths(s: &mut String, k: usize)
    ensures
        final(s)@ == old(s)@ + tenths(k as nat),
{
    push_decimal(s, k / 10);
    push_str(s, ".");
    push_decimal(s, k % 10);
}

fn push_col_spec(s: &mut String, c: &ColumnLayout)
    ensures
        final(s)@ == old(s)@ + col_spec(*c),
{
    let a = c.alignment.latex();
    match c.width {
        ColumnWidth::FixedEm(em) => {
            push_str(s, "Q[");
            push_char(s, a);
            push_str(s, ",wd=");
            push_decimal(s, em as usize);
            push_str(s, "em]");
        },
        ColumnWidth::Relative(k) => {
            if k == 10 {
                push_str(s, "X[");
                push_char(s, a);
                push_str(s, "]");
            } else {
                push_str(s, "X[");
                push_tenths(s, k as usize);
                push_str(s, ",");
                push_char(s, a);
                push_str(s, "]");
            }
        },
    }
}

fn push_colspec(s: &mut String, cols: &Vec<ColumnLayout>)
    ensures
        final(s)@ == old(s)@ + colspec(cols@),
{
    let ghost specs = cols@.map_values(|c: ColumnLayout| col_spec(c));
    let mut k: usize = 0;
    assert(specs.take(0) =~= Seq::<Seq<char>>::empty());
    assert(old(s)@ + join_with(specs.take(0), " "@) =~= old(s)@);
    while k < cols.len()
        invariant
            k <= cols@.len(),
            specs == cols@.map_values(|c: ColumnLayout| col_spec(c)),
            s@ == old(s)@ + join_with(specs.take(k as int), " "@),
        decreases cols@.len() - k,
    {
        if k > 0 {
            push_str(s, " ");
        }
        push_col_spec(s, &cols[k]);
        proof {
            let cur = specs.take(k + 1);
            assert(cur.drop_last() =~= specs.take(k as int));
            assert(cur.last() == col_spec(cols@[k as int]));
        }
        k += 1;
        assert(s@ =~= old(s)@ + join_with(specs.take(k as int), " "@));
    }
    assert(specs.take(cols@.len() as int) =~= specs);
}

fn push_yes_no(s: &mut String, b: bool)
    ensures
        final(s)@ == old(s)@ + yes_no(b),
{
    if b {
        push_str(s, "是");
    } else {
        push_str(s, "否");
    }
}

fn avg_tenths(total: u128, count: u128) -> (r: u128)
    requires
        count <= usize::MAX,
        total <= 18 * usize::MAX,
    ensures
        r == round_half_even(total as nat, count as nat),
{
    if count == 0 {
        0
    } else {
        let q = total / count;
        let r = total % count;
        if 2 * r > count || (2 * r == count && q % 2 == 1) {
            q + 1
        } else {
            q
        }
    }
}

fn push_debug_widths(s: &mut String, i: usize, c: &ColumnLayout)
    requires
        i < usize::MAX,
        c.count <= usize::MAX,
        c.total_width <= 18 * usize::MAX,
    ensures
        final(s)@ == old(s)@ + debug_widths(i as nat, *c),
{
    let ghost s0 = s@;
    push_str(s, "%% 列");
    push_decimal(s, i + 1);
    push_str(s, ": 平均宽度=");
    let avg = avg_tenths(c.total_width, c.count);
    push_u128_tenths(s, avg);
    push_str(s, ", 最大宽度=");
    push_u128_tenths(s, c.max_width);
    assert(s@ =~= s0 + debug_widths(i as nat, *c));
}

fn push_debug_flags(s: &mut String, c: &ColumnLayout)
    ensures
        final(s)@ == old(s)@ + debug_flags(*c),
{
    let ghost s0 = s@;
    push_str(s, ", 数字列=");
    push_yes_no(s, c.is_numeric);
    push_str(s, ", 有标点=");
    push_yes_no(s, c.has_punctuation);
    push_str(s, " → 对齐=");
    if matches!(c.alignment, ColumnAlignment::Center) {
        push_str(s, "居中");
    } else {
        push_str(s, "靠左");
    }
    assert(s@ =~= s0 + debug_flags(*c));
}

fn push_debug_tail(s: &mut String, c: &ColumnLayout)
    ensures
        final(s)@ == old(s)@ + debug_tail(*c),
{
    let ghost s0 = s@;
    match c.width {
        ColumnWidth::FixedEm(em) => {
            push_str(s, ", 窄数字列 → 固定列宽=");
            push_decimal(s, em as usize);
            push_str(s, "em");
        },
        ColumnWidth::Relative(_) => {},
    }
    push_str(s, "\n");
    assert(s@ =~= s0 + debug_tail(*c));
}

fn push_debug_line(s: &mut String, i: usize, c: &ColumnLayout)
    requires
        i < usize::MAX,
        c.count <= usize::MAX,
        c.total_width <= 18 * usize::MAX,
    ensures
        final(s)@ == old(s)@ + debug_line(i as nat, *c),
{
    let ghost s0 = s@;
    push_debug_widths(s, i, c);
    push_debug_flags(s, c);
    push_debug_tail(s, c);
    assert(s@ =~= s0 + debug_line(i as nat, *c));
}

/// Appends the decimal notation of `n`.
fn push_decimal_u128(s: &mut String, n: u128)
    ensures
        final(s)@ == old(s)@ + decimal(n as nat),
    decreases n,
{
    let ghost s0 = s@;
    let d = (n % 10) as usize;
    if n >= 10 {
        push_decimal_u128(s, n / 10);
    }
    push_char(s, crate::text::digit_exec(d));
    assert(s@ =~= s0 + decimal(n as nat));
}

fn push_u128_tenths(s: &mut String, k: u128)
    ensures
        final(s)@ == old(s)@ + tenths(k as nat),
{
    push_decimal_u128(s, k / 10);
    push_str(s, ".");
    push_decimal_u128(s, k % 10);
}

pub open spec fn str_opt(o: Option<&str>) -> Option<Seq<char>> {
    match o {
        Some(t) => Some(t@),
        None => None,
    }
}

fn push_outer_options(s: &mut String, caption: Option<&str>, label: Option<&str>)
    ensures
        final(s)@ == old(s)@ + outer_options(str_opt(caption), str_opt(label)),
{
    let ghost s0 = s@;
    let mut has_caption = false;
    match caption {
        Some(c) => {
            push_str(s, "caption={");
            push_str(s, c);
            push_str(s, "}");
            has_caption = true;
        },
        None => {},
    }
    let ghost s1 = s@;
    match label {
        Some(l) => {
            if has_caption {
                push_str(s, ", ");
            }
            push_str(s, "label={");
            push_str(s, l);
            push_str(s, "}");
        },
        None => {},
    }
    assert(s@ =~= s0 + outer_options(str_opt(caption), str_opt(label)));
}

fn longtblr_begin_exec(cols: &Vec<ColumnLayout>, caption: Option<&str>, label: Option<&str>) -> (s: String)
    requires
        forall|j: int| 0 <= j < cols@.len() ==> #[trigger] cols@[j].count <= usize::MAX
            && cols@[j].total_width <= 18 * usize::MAX,
    ensures
        s@ == longtblr_begin(cols@, outer_options(str_opt(caption), str_opt(label))),
{
    let mut s = String::new();
    push_str(&mut s, "% 智能表格分析结果:\n");
    let ghost s0 = s@;
    let n = cols.len();
    let mut i: usize = 0;
    assert(cols@.take(0) =~= Seq::<ColumnLayout>::empty());
    while i < n
        invariant
            i <= cols@.len(),
            n == cols@.len(),
            forall|j: int| 0 <= j < cols@.len() ==> #[trigger] cols@[j].count <= usize::MAX
                && cols@[j].total_width <= 18 * usize::MAX,
            s@ == s0 + debug_lines(cols@.take(i as int)),
        decreases cols@.len() - i,
    {
        push_debug_line(&mut s, i, &cols[i]);
        assert(cols@.take(i + 1).drop_last() =~= cols@.take(i as int));
        i += 1;
        assert(s@ =~= s0 + debug_lines(cols@.take(i as int)));
    }
    assert(cols@.take(cols@.len() as int) =~= cols@);
    let ghost s1 = s@;
    push_str(&mut s, "\n\\begin{longtblr}");
    let mut opts = String::new();
    push_outer_options(&mut opts, caption, label);
    assert(opts@ =~= outer_options(str_opt(caption), str_opt(label)));
    if opts.as_str().unicode_len() > 0 {
        push_str(&mut s, "[");
        push_str(&mut s, opts.as_str());
        push_str(&mut s, "]");
    }
    push_str(&mut s, "{\n  colspec = {");
    push_colspec(&mut s, cols);
    push_str(&mut s, "},\n  rowhead = 1,\n  hlines,\n  vlines,\n  row{1} = {c, font=\\heiti},\n}");
    assert(s@ =~= longtblr_begin(cols@, outer_options(str_opt(caption), str_opt(label))));
    s
}

/// A table (first row the header) as a `longtblr` environment, with an
/// optional caption and cross-reference label.
#[verifier::rlimit(40)]
pub fn emit_longtblr(rows: &[Vec<String>], caption: Option<&str>, label: Option<&str>) -> (s: String)
    requires
        table_chars(table_view(rows@)) <= usize::MAX,
    ensures
        s@ == longtblr_spec(table_view(rows@), str_opt(caption), str_opt(label)),
{
    let ghost tv = table_view(rows@);
    if rows.len() == 0 {
        return String::new();
    }
    let columns = analyze_table(rows);
    if columns.len() == 0 {
        return String::new();
    }
    proof {
        assert forall|j: int| 0 <= j < columns@.len() implies #[trigger] columns@[j].count <= usize::MAX
            && columns@[j].total_width <= 18 * usize::MAX by {
            lemma_analysis_bounds(tv, j);
        }
    }
    assert(columns@.len() == num_columns(tv));
    assert(num_columns(tv) == rows@[0]@.len());
    let begin = longtblr_begin_exec(&columns, caption, label);
    let mut lines: Vec<String> = Vec::new();
    lines.push(begin);
    lines.push(process_row(&rows[0], true));
    let mut k: usize = 1;
    while k < rows.len()
        invariant
            1 <= k <= rows@.len(),
            tv == table_view(rows@),
            lines@.len() == k + 1,
            lines@[0]@ == longtblr_begin(analysis(tv), outer_options(str_opt(caption), str_opt(label))),
            lines@[1]@ == row_tex(tv[0], true),
            forall|j: int| 1 <= j < k ==> #[trigger] lines@[j + 1]@ == row_tex(tv[j], false),
        decreases rows@.len() - k,
    {
        lines.push(process_row(&rows[k], false));
        k += 1;
    }
    lines.push(String::from_str("\\end{longtblr}"));
    let ghost want = longtblr_lines(tv, str_opt(caption), str_opt(label));
    assert(string_views(lines@) =~= want) by {
        assert forall|j: int| 0 <= j < want.len() implies #[trigger] string_views(lines@)[j] == want[j] by {
            if 2 <= j < want.len() - 1 {
                assert(lines@[(j - 1) + 1]@ == row_tex(tv[j - 1], false));
            }
        }
    }
    let mut out = String::new();
    push_joined(&mut out, lines.as_slice(), "\n");
    assert(out@ =~= longtblr_spec(tv, str_opt(caption), str_opt(label)));
    out
}

/// A table block as a `longtblr` environment; the given caption takes the
/// place of the block's own. Other blocks give nothing.
pub fn table_block_to_longtblr(block: &Block, caption: Option<&str>) -> (s: String)
    requires
        block matches Block::Table { rows, .. } ==> table_chars(table_view(rows@)) <= usize::MAX,
    ensures
        s@ == match block {
            Block::Table { rows, caption: own } => longtblr_spec(
                table_view(rows@),
                match caption { Some(c) => Some(c@), None => match own { Some(o) => Some(o@), None => None } },
                None,
            ),
            _ => Seq::empty(),
        },
{
    match block {
        Block::Table { rows, caption: own } => {
            let cap: Option<&str> = match caption {
                Some(c) => Some(c),
                None => match own {
                    Some(o) => Some(o.as_str()),
                    None => None,
                },
            };
            emit_longtblr(rows.as_slice(), cap, None)
        },
        _ => String::new(),
    }
}

} // verus!
