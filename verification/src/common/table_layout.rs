//! Column analysis and width allocation shared by the table emitters.
//!
//! Display widths are counted in tenths of a character cell: an ASCII
//! character is 10, any other character 18. Relative column widths are
//! weights in tenths between 8 and 40, computed on integers with the column
//! weights in fixed point (units of 10^-12 of a tenth).
use vstd::prelude::*;
use crate::charclass::{regex_is_match, regex_matches};
use crate::common::ast::{strings_view, table_view};
use crate::text::{chars_of, is_ws, is_whitespace, string_from_chars, trim, trim_chars};

verus! {

/// A narrow sequence-number column is this many ems wide.
pub const NARROW_NUMERIC_WIDTH_EM: u8 = 2;

#[derive(Debug, Clone, Copy, PartialEq, Eq, Structural)]
pub enum ColumnAlignment {
    Left,
    Center,
}

impl ColumnAlignment {
    /// The `tabularray` alignment letter.
    pub fn latex(self) -> (c: char)
        ensures
            c == alignment_letter(self),
    {
        match self {
            ColumnAlignment::Left => 'l',
            ColumnAlignment::Center => 'c',
        }
    }
}

pub open spec fn alignment_letter(a: ColumnAlignment) -> char {
    match a {
        ColumnAlignment::Left => 'l',
        ColumnAlignment::Center => 'c',
    }
}

#[derive(Debug, Clone, Copy, PartialEq, Eq, Structural)]
pub enum ColumnWidth {
    /// Flexible width: an `X` column weight in tenths (8..=40).
    Relative(u8),
    /// Fixed width in ems.
    FixedEm(u8),
}

/// Layout of one column. Widths are in tenths of a character cell; the
/// average width is `total_width / count` (0 for a column of empty cells).
#[derive(Debug, Clone, Copy, PartialEq, Eq, Structural)]
pub struct ColumnLayout {
    pub alignment: ColumnAlignment,
    pub width: ColumnWidth,
    pub total_width: u128,
    pub max_width: u128,
    pub count: u128,
    pub is_numeric: bool,
    pub has_punctuation: bool,
}

// ---------------------------------------------------------------------------
// Cell measures
// ---------------------------------------------------------------------------

pub open spec fn char_width(c: char) -> nat {
    if (c as u32) < 0x80 { 10 } else { 18 }
}

/// Display width of a text in tenths.
pub open spec fn display_width(s: Seq<char>) -> nat
    decreases s.len(),
{
    if s.len() == 0 {
        0
    } else {
        display_width(s.drop_last()) + char_width(s.last())
    }
}

pub proof fn lemma_display_width_bound(s: Seq<char>)
    ensures
        display_width(s) <= 18 * s.len(),
    decreases s.len(),
{
    if s.len() > 0 {
        lemma_display_width_bound(s.drop_last());
    }
}

/// Display width of a text in tenths of a character cell.
pub fn calc_display_width(s: &str) -> (w: u128)
    ensures
        w == display_width(s@),
{
    display_width_exec(&chars_of(s))
}

fn display_width_exec(s: &Vec<char>) -> (w: u128)
    ensures
        w == display_width(s@),
{
    let mut w: u128 = 0;
    let mut i: usize = 0;
    while i < s.len()
        invariant
            i <= s@.len(),
            w == display_width(s@.take(i as int)),
            w <= 18 * i,
        decreases s@.len() - i,
    {
        assert(s@.take(i + 1).drop_last() =~= s@.take(i as int));
        if (s[i] as u32) < 0x80 {
            w = w + 10;
        } else {
            w = w + 18;
        }
        i += 1;
    }
    assert(s@.take(s@.len() as int) =~= s@);
    w
}

/// The text without whitespace and backslashes.
pub open spec fn cleaned(s: Seq<char>) -> Seq<char>
    decreases s.len(),
{
    if s.len() == 0 {
        Seq::empty()
    } else {
        cleaned(s.drop_last()) + if is_ws(s.last()) || s.last() == '\\' { Seq::empty() } else { seq![s.last()] }
    }
}

/// A number, a percentage, an amount with a Chinese magnitude, a date, a
/// time, or a number with thousands separators.
pub open spec fn is_numeric_content(s: Seq<char>) -> bool {
    let t = cleaned(s);
    s.len() > 0 && (
        regex_is_match("^-?\\d+\\.?\\d*$"@, t)
        || regex_is_match("^-?\\d+\\.?\\d*%$"@, t)
        || regex_is_match("^-?\\d+\\.?\\d*[万亿千百]+$"@, t)
        || regex_is_match("^\\d+[/-]\\d+[/-]?\\d*$"@, t)
        || regex_is_match("^\\d+:\\d+:?\\d*$"@, t)
        || regex_is_match("^[\\d,]+.?\\d*$"@, t)
    )
}

fn cleaned_exec(s: &Vec<char>) -> (r: Vec<char>)
    ensures
        r@ == cleaned(s@),
{
    let mut r: Vec<char> = Vec::new();
    let mut i: usize = 0;
    while i < s.len()
        invariant
            i <= s@.len(),
            r@ == cleaned(s@.take(i as int)),
        decreases s@.len() - i,
    {
        assert(s@.take(i + 1).drop_last() =~= s@.take(i as int));
        if !is_whitespace(s[i]) && s[i] != '\\' {
            r.push(s[i]);
        }
        i += 1;
        assert(r@ =~= cleaned(s@.take(i as int)));
    }
    assert(s@.take(s@.len() as int) =~= s@);
    r
}

fn is_numeric_exec(s: &Vec<char>) -> (r: bool)
    ensures
        r == is_numeric_content(s@),
{
    if s.len() == 0 {
        return false;
    }
    let t = string_from_chars(&cleaned_exec(s));
    regex_matches("^-?\\d+\\.?\\d*$", t.as_str())
        || regex_matches("^-?\\d+\\.?\\d*%$", t.as_str())
        || regex_matches("^-?\\d+\\.?\\d*[万亿千百]+$", t.as_str())
        || regex_matches("^\\d+[/-]\\d+[/-]?\\d*$", t.as_str())
        || regex_matches("^\\d+:\\d+:?\\d*$", t.as_str())
        || regex_matches("^[\\d,]+.?\\d*$", t.as_str())
}

pub open spec fn is_long_punct(c: char) -> bool {
    c == '。' || c == '；' || c == '：' || c == '.' || c == ';'
}

pub open spec fn is_short_punct(c: char) -> bool {
    c == '，' || c == '、' || c == ','
}

/// Sentence punctuation: a full stop, semicolon or colon anywhere, or a
/// comma in a text wider than eight cells.
pub open spec fn has_sentence_punctuation(s: Seq<char>) -> bool {
    (exists|i: int| 0 <= i < s.len() && is_long_punct(#[trigger] s[i]))
        || ((exists|i: int| 0 <= i < s.len() && is_short_punct(#[trigger] s[i])) && display_width(s) > 80)
}

fn punctuation_exec(s: &Vec<char>) -> (r: bool)
    ensures
        r == has_sentence_punctuation(s@),
{
    let mut long = false;
    let mut short = false;
    let mut i: usize = 0;
    while i < s.len()
        invariant
            i <= s@.len(),
            long == (exists|k: int| 0 <= k < i && is_long_punct(#[trigger] s@[k])),
            short == (exists|k: int| 0 <= k < i && is_short_punct(#[trigger] s@[k])),
        decreases s@.len() - i,
    {
        let c = s[i];
        if c == '。' || c == '；' || c == '：' || c == '.' || c == ';' {
            long = true;
        }
        if c == '，' || c == '、' || c == ',' {
            short = true;
        }
        i += 1;
    }
    long || (short && display_width_exec(s) > 80)
}

/// At most two ASCII digits, surrounding whitespace aside.
pub open spec fn is_short_digits(s: Seq<char>) -> bool {
    let t = trim(s);
    0 < t.len() <= 2 && forall|i: int| 0 <= i < t.len() ==> '0' <= #[trigger] t[i] <= '9'
}

fn short_digits_exec(s: &Vec<char>) -> (r: bool)
    ensures
        r == is_short_digits(s@),
{
    let t = trim_chars(s);
    if t.len() == 0 || t.len() > 2 {
        return false;
    }
    let mut i: usize = 0;
    while i < t.len()
        invariant
            i <= t@.len(),
            t@ == trim(s@),
            0 < t@.len() <= 2,
            forall|k: int| 0 <= k < i ==> '0' <= #[trigger] t@[k] <= '9',
        decreases t@.len() - i,
    {
        if !('0' <= t[i] && t[i] <= '9') {
            assert(!('0' <= t@[i as int] <= '9'));
            return false;
        }
        i += 1;
    }
    true
}

// ---------------------------------------------------------------------------
// Column statistics
// ---------------------------------------------------------------------------

pub struct Stats {
    pub total: nat,
    pub count: nat,
    pub max: nat,
    pub numeric: nat,
    pub long: bool,
    pub punct: bool,
    pub all_short: bool,
}

/// Statistics over the body cells of a column; empty cells are skipped.
pub open spec fn stats(cells: Seq<Seq<char>>) -> Stats
    decreases cells.len(),
{
    if cells.len() == 0 {
        Stats { total: 0, count: 0, max: 0, numeric: 0, long: false, punct: false, all_short: true }
    } else {
        let s = stats(cells.drop_last());
        let c = cells.last();
        if c.len() == 0 {
            s
        } else {
            let w = display_width(c);
            Stats {
                total: s.total + w,
                count: s.count + 1,
                max: if w > s.max { w } else { s.max },
                numeric: s.numeric + if is_numeric_content(c) { 1nat } else { 0nat },
                long: s.long || w > 200,
                punct: s.punct || has_sentence_punctuation(c),
                all_short: s.all_short && is_short_digits(c),
            }
        }
    }
}

pub open spec fn chars_total(cells: Seq<Seq<char>>) -> nat
    decreases cells.len(),
{
    if cells.len() == 0 {
        0
    } else {
        chars_total(cells.drop_last()) + cells.last().len()
    }
}

pub proof fn lemma_stats_bounds(cells: Seq<Seq<char>>)
    ensures
        stats(cells).total <= 18 * chars_total(cells),
        stats(cells).max <= stats(cells).total,
        stats(cells).numeric <= stats(cells).count,
        stats(cells).count <= cells.len(),
    decreases cells.len(),
{
    if cells.len() > 0 {
        lemma_stats_bounds(cells.drop_last());
        lemma_display_width_bound(cells.last());
    }
}

pub open spec fn is_numeric_column(s: Stats) -> bool {
    s.count > 0 && 5 * s.numeric >= 4 * s.count
}

pub open spec fn alignment_of(s: Stats) -> ColumnAlignment {
    if is_numeric_column(s) {
        ColumnAlignment::Center
    } else if s.punct || s.long {
        ColumnAlignment::Left
    } else if s.total <= 200 * s.count {
        ColumnAlignment::Center
    } else {
        ColumnAlignment::Left
    }
}

/// Weight of a column as a fraction `(numerator, denominator)` in tenths:
/// the largest of the widest cell, 1.2 times the average width, and 2 cells.
pub open spec fn weight(s: Stats) -> (nat, nat) {
    if s.count > 0 && 6 * s.total > 5 * s.count * s.max && 6 * s.total > 100 * s.count {
        (6 * s.total, 5 * s.count)
    } else if s.max > 20 {
        (s.max, 1)
    } else {
        (20, 1)
    }
}

struct ExecStats {
    total: u128,
    count: u128,
    max: u128,
    numeric: u128,
    long: bool,
    punct: bool,
    all_short: bool,
}

spec fn exec_stats_view(e: ExecStats) -> Stats {
    Stats {
        total: e.total as nat,
        count: e.count as nat,
        max: e.max as nat,
        numeric: e.numeric as nat,
        long: e.long,
        punct: e.punct,
        all_short: e.all_short,
    }
}

pub open spec fn cells_view(v: Seq<Vec<char>>) -> Seq<Seq<char>> {
    v.map_values(|x: Vec<char>| x@)
}

fn analyze_column(cells: &Vec<Vec<char>>) -> (r: ExecStats)
    requires
        chars_total(cells_view(cells@)) <= usize::MAX,
    ensures
        exec_stats_view(r) == stats(cells_view(cells@)),
{
    let ghost cv = cells_view(cells@);
    let mut st = ExecStats { total: 0, count: 0, max: 0, numeric: 0, long: false, punct: false, all_short: true };
    let mut i: usize = 0;
    assert(cv.take(0) =~= Seq::<Seq<char>>::empty());
    while i < cells.len()
        invariant
            i <= cells@.len(),
            cv == cells_view(cells@),
            chars_total(cv) <= usize::MAX,
            exec_stats_view(st) == stats(cv.take(i as int)),
            chars_total(cv.take(i as int)) <= chars_total(cv),
        decreases cells@.len() - i,
    {
        proof {
            assert(cv.take(i + 1).drop_last() =~= cv.take(i as int));
            assert(cv.take(i + 1).last() == cells@[i as int]@);
            lemma_stats_bounds(cv.take(i + 1));
            lemma_chars_total_prefix(cv, i + 1);
        }
        let c = &cells[i];
        if c.len() > 0 {
            let w = display_width_exec(c);
            proof {
                lemma_stats_bounds(cv.take(i as int));
                lemma_display_width_bound(c@);
            }
            st.total = st.total + w;
            st.count = st.count + 1;
            if w > st.max {
                st.max = w;
            }
            if is_numeric_exec(c) {
                st.numeric = st.numeric + 1;
            }
            st.long = st.long || w > 200;
            st.punct = st.punct || punctuation_exec(c);
            st.all_short = st.all_short && short_digits_exec(c);
        }
        i += 1;
    }
    assert(cv.take(cells@.len() as int) =~= cv);
    st
}

pub proof fn lemma_chars_total_prefix(cv: Seq<Seq<char>>, k: int)
    requires
        0 <= k <= cv.len(),
    ensures
        chars_total(cv.take(k)) <= chars_total(cv),
    decreases cv.len() - k,
{
    if k < cv.len() {
        lemma_chars_total_prefix(cv, k + 1);
        assert(cv.take(k + 1).drop_last() =~= cv.take(k));
    } else {
        assert(cv.take(k) =~= cv);
    }
}

// ---------------------------------------------------------------------------
// Width ratios
// ---------------------------------------------------------------------------

/// Weights are compared in fixed point: units of 10^-12 of a tenth of a
/// character cell.
pub const WEIGHT_SCALE: u128 = 1_000_000_000_000;

/// A weight fraction in fixed point, rounded down.
pub open spec fn fixed_weight(w: (nat, nat)) -> nat {
    if w.1 == 0 { 0 } else { w.0 * (WEIGHT_SCALE as nat) / w.1 }
}

/// Sum of the fixed-point weights of columns `0..k`.
pub open spec fn fixed_sum(ws: Seq<(nat, nat)>, k: int) -> nat
    decreases k,
{
    if k <= 0 || k > ws.len() { 0 } else { fixed_sum(ws, k - 1) + fixed_weight(ws[k - 1]) }
}

/// Sum of the weight numerators of columns `0..k`.
pub open spec fn num_sum(ws: Seq<(nat, nat)>, k: int) -> nat
    decreases k,
{
    if k <= 0 || k > ws.len() { 0 } else { num_sum(ws, k - 1) + ws[k - 1].0 }
}

/// Weight in tenths of column `i` among `n` columns: `n * w_i / Σ w`,
/// clamped to `0.8..=4.0` and rounded half up to tenths, the weights taken in
/// fixed point.
pub open spec fn ratio_of(ws: Seq<(nat, nat)>, i: int) -> nat {
    let t = fixed_sum(ws, ws.len() as int);
    let k = if t == 0 { 10 } else { (20 * ws.len() * fixed_weight(ws[i]) + t) / (2 * t) };
    if k < 8 { 8 } else if k > 40 { 40 } else { k }
}

// ---------------------------------------------------------------------------
// Table analysis
// ---------------------------------------------------------------------------

/// Body cells of column `j` (rows after the header that reach column `j`).
pub open spec fn column_cells(rows: Seq<Seq<Seq<char>>>, j: int) -> Seq<Seq<char>>
    decreases rows.len(),
{
    if rows.len() <= 1 {
        Seq::empty()
    } else {
        let r = rows.last();
        column_cells(rows.drop_last(), j) + if j < r.len() { seq![r[j]] } else { Seq::empty() }
    }
}

pub open spec fn num_columns(rows: Seq<Seq<Seq<char>>>) -> nat {
    if rows.len() == 0 { 0 } else { rows[0].len() }
}

pub open spec fn column_stats(rows: Seq<Seq<Seq<char>>>) -> Seq<Stats> {
    Seq::new(num_columns(rows), |j: int| stats(column_cells(rows, j)))
}

pub open spec fn weights(rows: Seq<Seq<Seq<char>>>) -> Seq<(nat, nat)> {
    column_stats(rows).map_values(|s: Stats| weight(s))
}

pub open spec fn layout_spec(rows: Seq<Seq<Seq<char>>>, j: int) -> ColumnLayout {
    let s = column_stats(rows)[j];
    ColumnLayout {
        alignment: alignment_of(s),
        width: if s.count > 0 && s.all_short {
            ColumnWidth::FixedEm(NARROW_NUMERIC_WIDTH_EM)
        } else {
            ColumnWidth::Relative(ratio_of(weights(rows), j) as u8)
        },
        total_width: s.total as u128,
        max_width: s.max as u128,
        count: s.count as u128,
        is_numeric: is_numeric_column(s),
        has_punctuation: s.punct,
    }
}

/// Total number of characters in a table.
pub open spec fn table_chars(rows: Seq<Seq<Seq<char>>>) -> nat
    decreases rows.len(),
{
    if rows.len() == 0 {
        0
    } else {
        table_chars(rows.drop_last()) + chars_total(rows.last())
    }
}

/// The layout of every column, as many as the header has cells.
pub open spec fn analysis(rows: Seq<Seq<Seq<char>>>) -> Seq<ColumnLayout> {
    Seq::new(num_columns(rows), |j: int| layout_spec(rows, j))
}

// ---------------------------------------------------------------------------
// Executable analysis
// ---------------------------------------------------------------------------

pub open spec fn weights_view(ws: Seq<(u128, u128)>) -> Seq<(nat, nat)> {
    ws.map_values(|w: (u128, u128)| (w.0 as nat, w.1 as nat))
}

proof fn lemma_num_sum_prefix(a: Seq<(nat, nat)>, b: Seq<(nat, nat)>, m: int)
    requires
        0 <= m <= b.len() <= a.len(),
        forall|i: int| 0 <= i < b.len() ==> a[i] == b[i],
    ensures
        num_sum(a, m) == num_sum(b, m),
    decreases m,
{
    if m > 0 {
        lemma_num_sum_prefix(a, b, m - 1);
    }
}

proof fn lemma_num_sum_mono(ws: Seq<(nat, nat)>, j: int, n: int)
    requires
        0 <= j <= n <= ws.len(),
    ensures
        num_sum(ws, j) <= num_sum(ws, n),
    decreases n - j,
{
    if j < n {
        lemma_num_sum_mono(ws, j, n - 1);
    }
}

proof fn lemma_fixed_sum_bound(ws: Seq<(nat, nat)>, j: int)
    requires
        0 <= j <= ws.len(),
        forall|k: int| 0 <= k < ws.len() ==> #[trigger] ws[k].1 >= 1,
    ensures
        fixed_sum(ws, j) <= num_sum(ws, j) * (WEIGHT_SCALE as nat),
    decreases j,
{
    if j > 0 {
        lemma_fixed_sum_bound(ws, j - 1);
        let w = ws[j - 1];
        let sc = WEIGHT_SCALE as nat;
        assert(w.1 >= 1);
        assert(fixed_weight(w) <= w.0 * sc) by (nonlinear_arith)
            requires
                w.1 >= 1,
                fixed_weight(w) == w.0 * sc / w.1,
        {
        }
        let a = num_sum(ws, j - 1);
        assert(num_sum(ws, j) == a + w.0);
        assert((a + w.0) * sc == a * sc + w.0 * sc) by (nonlinear_arith);
    }
}

/// Past the limit `82 t / (20 n)` the rounded ratio is at least 41.
proof fn lemma_above_limit(f: nat, t: nat, n: nat)
    requires
        n >= 1,
        t > 0,
        f > (82 * t) / (20 * n),
    ensures
        (20 * n * f + t) / (2 * t) >= 41,
{
    let q = (82 * t) / (20 * n);
    assert(82 * t < 20 * n * (q + 1)) by (nonlinear_arith)
        requires
            n >= 1,
            q == (82 * t) / (20 * n),
    {
    }
    assert(20 * n * (q + 1) <= 20 * n * f) by (nonlinear_arith)
        requires
            f >= q + 1,
    {
    }
    assert((20 * n * f + t) / (2 * t) >= 41) by (nonlinear_arith)
        requires
            t > 0,
            20 * n * f + t >= 82 * t,
    {
    }
}

/// Within the limit the product stays below `82 t`.
proof fn lemma_within_limit(f: nat, t: nat, n: nat)
    requires
        n >= 1,
        f <= (82 * t) / (20 * n),
    ensures
        20 * n * f <= 82 * t,
{
    let q = (82 * t) / (20 * n);
    assert(20 * n * q <= 82 * t) by (nonlinear_arith)
        requires
            n >= 1,
            q == (82 * t) / (20 * n),
    {
    }
    assert(20 * n * f <= 20 * n * q) by (nonlinear_arith)
        requires
            f <= q,
    {
    }
}

/// The ratio of every column (see [`ratio_of`]).
fn ratios_exec(ws: &Vec<(u128, u128)>) -> (r: Vec<u8>)
    requires
        ws@.len() <= usize::MAX,
        forall|k: int| 0 <= k < ws@.len() ==> #[trigger] ws@[k].1 >= 1,
        num_sum(weights_view(ws@), ws@.len() as int) <= 146 * (usize::MAX as nat),
    ensures
        r@.len() == ws@.len(),
        forall|i: int| 0 <= i < ws@.len() ==> #[trigger] r@[i] as nat == ratio_of(weights_view(ws@), i),
{
    let ghost wv = weights_view(ws@);
    let ghost sc = WEIGHT_SCALE as nat;
    let n = ws.len();
    assert forall|k: int| 0 <= k < wv.len() implies #[trigger] wv[k].1 >= 1 by {
        assert(ws@[k].1 >= 1);
    }
    let mut fw: Vec<u128> = Vec::new();
    let mut t: u128 = 0;
    let mut j: usize = 0;
    while j < n
        invariant
            j <= n,
            n == ws@.len(),
            wv == weights_view(ws@),
            sc == WEIGHT_SCALE as nat,
            forall|k: int| 0 <= k < wv.len() ==> #[trigger] wv[k].1 >= 1,
            num_sum(wv, n as int) <= 146 * (usize::MAX as nat),
            fw@.len() == j,
            forall|k: int| 0 <= k < j ==> #[trigger] fw@[k] as nat == fixed_weight(wv[k]),
            t as nat == fixed_sum(wv, j as int),
        decreases n - j,
    {
        proof {
            lemma_num_sum_mono(wv, j + 1, n as int);
            lemma_fixed_sum_bound(wv, j + 1);
            assert(num_sum(wv, j + 1) == num_sum(wv, j as int) + wv[j as int].0);
            assert(fixed_sum(wv, j + 1) == fixed_sum(wv, j as int) + fixed_weight(wv[j as int]));
            assert(num_sum(wv, j + 1) * sc <= 146 * (usize::MAX as nat) * sc) by (nonlinear_arith)
                requires
                    num_sum(wv, j + 1) <= 146 * (usize::MAX as nat),
            {
            }
            assert(wv[j as int].0 * sc <= num_sum(wv, j + 1) * sc) by (nonlinear_arith)
                requires
                    wv[j as int].0 <= num_sum(wv, j + 1),
            {
            }
        }
        let a: u128 = ws[j].0 * WEIGHT_SCALE;
        let f: u128 = a / ws[j].1;
        assert(f as nat == fixed_weight(wv[j as int]));
        t = t + f;
        fw.push(f);
        j += 1;
    }
    proof {
        lemma_fixed_sum_bound(wv, n as int);
        assert(t as nat <= 146 * (usize::MAX as nat) * sc) by (nonlinear_arith)
            requires
                t as nat <= num_sum(wv, n as int) * sc,
                num_sum(wv, n as int) <= 146 * (usize::MAX as nat),
        {
        }
    }
    let mut out: Vec<u8> = Vec::new();
    let mut i: usize = 0;
    while i < n
        invariant
            i <= n,
            n == ws@.len(),
            wv == weights_view(ws@),
            sc == WEIGHT_SCALE as nat,
            fw@.len() == n,
            forall|k: int| 0 <= k < n ==> #[trigger] fw@[k] as nat == fixed_weight(wv[k]),
            t as nat == fixed_sum(wv, n as int),
            t as nat <= 146 * (usize::MAX as nat) * sc,
            out@.len() == i,
            forall|k: int| 0 <= k < i ==> #[trigger] out@[k] as nat == ratio_of(wv, k),
        decreases n - i,
    {
        let f = fw[i];
        let k: u128 = if t == 0 {
            10
        } else {
            let nn: u128 = n as u128;
            let lim: u128 = (82 * t) / (20 * nn);
            if f > lim {
                proof {
                    lemma_above_limit(f as nat, t as nat, nn as nat);
                }
                41
            } else {
                proof {
                    lemma_within_limit(f as nat, t as nat, nn as nat);
                }
                (20 * nn * f + t) / (2 * t)
            }
        };
        let c: u8 = if k < 8 { 8 } else if k > 40 { 40 } else { k as u8 };
        assert(c as nat == ratio_of(wv, i as int));
        out.push(c);
        i += 1;
    }
    out
}

fn weight_exec(s: &ExecStats) -> (w: (u128, u128))
    requires
        s.total <= 18 * usize::MAX,
        s.count <= usize::MAX,
        s.max <= s.total,
    ensures
        (w.0 as nat, w.1 as nat) == weight(exec_stats_view(*s)),
        w.1 >= 1,
        w.0 >= 20,
{
    let avg_wins = if s.count > 0 && 6 * s.total > 100 * s.count {
        match (5 * s.count).checked_mul(s.max) {
            Some(p) => 6 * s.total > p,
            None => false,
        }
    } else {
        false
    };
    if avg_wins {
        (6 * s.total, 5 * s.count)
    } else if s.max > 20 {
        (s.max, 1)
    } else {
        (20, 1)
    }
}

pub proof fn lemma_cell_le_row(row: Seq<Seq<char>>, j: int)
    requires
        0 <= j < row.len(),
    ensures
        row[j].len() <= chars_total(row),
    decreases row.len(),
{
    if j < row.len() - 1 {
        lemma_cell_le_row(row.drop_last(), j);
    }
}

pub proof fn lemma_column_chars(rows: Seq<Seq<Seq<char>>>, j: int)
    requires
        0 <= j,
    ensures
        chars_total(column_cells(rows, j)) <= table_chars(rows),
    decreases rows.len(),
{
    if rows.len() > 1 {
        lemma_column_chars(rows.drop_last(), j);
        let r = rows.last();
        let a = column_cells(rows.drop_last(), j);
        if 0 <= j < r.len() {
            lemma_cell_le_row(r, j);
            assert(column_cells(rows, j) == a + seq![r[j]]);
            assert((a + seq![r[j]]).drop_last() =~= a);
            assert((a + seq![r[j]]).last() == r[j]);
            assert(chars_total(a + seq![r[j]]) == chars_total(a) + r[j].len());
        } else {
            assert(a + Seq::<Seq<char>>::empty() =~= a);
        }
    } else if rows.len() == 1 {
        assert(column_cells(rows, j) =~= Seq::<Seq<char>>::empty());
    }
}

/// Characters of a row's cells `0..k` (cells past the row's end count 0).
pub open spec fn row_part(r: Seq<Seq<char>>, k: int) -> nat
    decreases k,
{
    if k <= 0 { 0 } else { row_part(r, k - 1) + if k - 1 < r.len() { r[k - 1].len() } else { 0 } }
}

/// Characters of the body cells of columns `0..k`.
pub open spec fn col_chars(rows: Seq<Seq<Seq<char>>>, k: int) -> nat
    decreases k,
{
    if k <= 0 { 0 } else { col_chars(rows, k - 1) + chars_total(column_cells(rows, k - 1)) }
}

proof fn lemma_row_part(r: Seq<Seq<char>>, k: int)
    requires
        k >= 0,
    ensures
        row_part(r, k) <= chars_total(r),
        k <= r.len() ==> row_part(r, k) == chars_total(r.take(k)),
    decreases k,
{
    if k == 0 {
        assert(r.take(0) =~= Seq::<Seq<char>>::empty());
    } else {
        lemma_row_part(r, k - 1);
        if k <= r.len() {
            assert(r.take(k).drop_last() =~= r.take(k - 1));
            assert(r.take(k).last() == r[k - 1]);
            lemma_chars_total_prefix(r, k);
        } else if k - 1 == r.len() {
            assert(r.take(k - 1) =~= r);
        }
    }
}

proof fn lemma_column_step(rows: Seq<Seq<Seq<char>>>, j: int)
    requires
        rows.len() > 1,
        j >= 0,
    ensures
        chars_total(column_cells(rows, j)) == chars_total(column_cells(rows.drop_last(), j))
            + if j < rows.last().len() { rows.last()[j].len() } else { 0 },
{
    let r = rows.last();
    let a = column_cells(rows.drop_last(), j);
    if j < r.len() {
        assert((a + seq![r[j]]).drop_last() =~= a);
        assert((a + seq![r[j]]).last() == r[j]);
    } else {
        assert(a + Seq::<Seq<char>>::empty() =~= a);
    }
}

proof fn lemma_col_chars_step(rows: Seq<Seq<Seq<char>>>, k: int)
    requires
        rows.len() > 1,
        k >= 0,
    ensures
        col_chars(rows, k) == col_chars(rows.drop_last(), k) + row_part(rows.last(), k),
    decreases k,
{
    if k > 0 {
        lemma_col_chars_step(rows, k - 1);
        lemma_column_step(rows, k - 1);
    }
}

proof fn lemma_col_chars_small(rows: Seq<Seq<Seq<char>>>, k: int)
    requires
        rows.len() <= 1,
        k >= 0,
    ensures
        col_chars(rows, k) == 0,
    decreases k,
{
    if k > 0 {
        lemma_col_chars_small(rows, k - 1);
        assert(column_cells(rows, k - 1) =~= Seq::<Seq<char>>::empty());
    }
}

/// The body cells of the columns hold no more characters than the table.
pub proof fn lemma_col_chars(rows: Seq<Seq<Seq<char>>>, k: int)
    requires
        k >= 0,
    ensures
        col_chars(rows, k) <= table_chars(rows),
    decreases rows.len(),
{
    if rows.len() <= 1 {
        lemma_col_chars_small(rows, k);
    } else {
        lemma_col_chars(rows.drop_last(), k);
        lemma_col_chars_step(rows, k);
        lemma_row_part(rows.last(), k);
    }
}

fn column_exec(rows: &[Vec<String>], j: usize) -> (r: Vec<Vec<char>>)
    requires
        rows@.len() > 0,
    ensures
        cells_view(r@) == column_cells(table_view(rows@), j as int),
{
    let ghost tv = table_view(rows@);
    let mut col: Vec<Vec<char>> = Vec::new();
    let mut k: usize = 1;
    assert(tv.take(1).len() == 1);
    assert(cells_view(col@) =~= column_cells(tv.take(1), j as int));
    while k < rows.len()
        invariant
            1 <= k <= rows@.len(),
            tv == table_view(rows@),
            cells_view(col@) == column_cells(tv.take(k as int), j as int),
        decreases rows@.len() - k,
    {
        assert(tv.take(k + 1).drop_last() =~= tv.take(k as int));
        assert(tv.take(k + 1).last() == tv[k as int]);
        assert(tv[k as int] == strings_view(rows@[k as int]@));
        let ghost before = cells_view(col@);
        if j < rows[k].len() {
            col.push(chars_of(rows[k][j].as_str()));
            assert(cells_view(col@) =~= before + seq![tv[k as int][j as int]]);
        } else {
            assert(cells_view(col@) =~= before + Seq::<Seq<char>>::empty());
        }
        k += 1;
    }
    assert(tv.take(rows@.len() as int) =~= tv);
    col
}

/// Column layouts of a table whose first row is the header; there are as
/// many columns as header cells, and body cells beyond them are ignored.
pub fn analyze_table(rows: &[Vec<String>]) -> (r: Vec<ColumnLayout>)
    requires
        table_chars(table_view(rows@)) <= usize::MAX,
    ensures
        r@ == analysis(table_view(rows@)),
{
    let ghost tv = table_view(rows@);
    if rows.len() == 0 {
        assert(analysis(tv) =~= Seq::<ColumnLayout>::empty());
        return Vec::new();
    }
    let num_cols = rows[0].len();
    assert(num_columns(tv) == num_cols);
    if num_cols == 0 {
        assert(analysis(tv) =~= Seq::<ColumnLayout>::empty());
        return Vec::new();
    }
    let mut all: Vec<ExecStats> = Vec::new();
    let mut ws: Vec<(u128, u128)> = Vec::new();
    let mut j: usize = 0;
    while j < num_cols
        invariant
            j <= num_cols,
            num_cols == num_columns(tv),
            rows@.len() > 0,
            tv == table_view(rows@),
            table_chars(tv) <= usize::MAX,
            all@.len() == j,
            ws@.len() == j,
            forall|k: int| 0 <= k < j ==> #[trigger] exec_stats_view(all@[k]) == column_stats(tv)[k],
            forall|k: int| 0 <= k < j ==> #[trigger] all@[k].count <= usize::MAX && all@[k].numeric <= all@[k].count,
            forall|k: int| 0 <= k < j ==> (ws@[k].0 as nat, ws@[k].1 as nat) == weight(column_stats(tv)[k])
                && #[trigger] ws@[k].1 >= 1 && ws@[k].0 >= 20,
            num_sum(weights_view(ws@), j as int) <= 108 * col_chars(tv, j as int) + 20 * j,
        decreases num_cols - j,
    {
        let col = column_exec(rows, j);
        let ncells = col.len();
        proof {
            lemma_column_chars(tv, j as int);
            lemma_stats_bounds(cells_view(col@));
        }
        let st = analyze_column(&col);
        let w = weight_exec(&st);
        let ghost before = weights_view(ws@);
        all.push(st);
        ws.push(w);
        proof {
            let wv = weights_view(ws@);
            assert(wv.take(j as int) =~= before);
            lemma_num_sum_prefix(wv, before, j as int);
            assert(wv[j as int].0 == w.0);
            assert(num_sum(wv, j + 1) == num_sum(wv, j as int) + wv[j as int].0);
            assert(num_sum(wv, j + 1) == num_sum(before, j as int) + w.0);
            let sv = stats(cells_view(col@));
            assert(exec_stats_view(st) == sv);
            assert(sv.total <= 18 * chars_total(column_cells(tv, j as int)));
            assert((w.0 as nat, w.1 as nat) == weight(sv));
            assert(w.0 <= 108 * chars_total(column_cells(tv, j as int)) + 20);
            assert(col_chars(tv, j + 1) == col_chars(tv, j as int) + chars_total(column_cells(tv, j as int)));
        }
        j += 1;
    }
    proof {
        lemma_col_chars(tv, num_cols as int);
        assert(num_sum(weights_view(ws@), num_cols as int) <= 146 * (usize::MAX as nat));
    }
    assert(weights_view(ws@) =~= weights(tv)) by {
        assert forall|k: int| 0 <= k < num_cols implies #[trigger] weights_view(ws@)[k] == weights(tv)[k] by {
            assert(ws@[k].1 >= 1);
        }
    }
    let ratios = ratios_exec(&ws);
    let mut out: Vec<ColumnLayout> = Vec::new();
    let mut j: usize = 0;
    while j < num_cols
        invariant
            j <= num_cols,
            num_cols == num_columns(tv),
            all@.len() == num_cols,
            ws@.len() == num_cols,
            weights_view(ws@) == weights(tv),
            forall|k: int| 0 <= k < num_cols ==> #[trigger] exec_stats_view(all@[k]) == column_stats(tv)[k],
            forall|k: int| 0 <= k < num_cols ==> #[trigger] all@[k].count <= usize::MAX && all@[k].numeric <= all@[k].count,
            ratios@.len() == num_cols,
            forall|i: int| 0 <= i < num_cols ==> #[trigger] ratios@[i] as nat == ratio_of(weights(tv), i),
            out@.len() == j,
            forall|k: int| 0 <= k < j ==> #[trigger] out@[k] == layout_spec(tv, k),
        decreases num_cols - j,
    {
        let st = &all[j];
        let ghost sv = column_stats(tv)[j as int];
        assert(exec_stats_view(*st) == sv);
        assert(st.count <= usize::MAX && st.numeric <= st.count);
        let numeric = st.count > 0 && 5 * st.numeric >= 4 * st.count;
        let alignment = if numeric {
            ColumnAlignment::Center
        } else if st.punct || st.long {
            ColumnAlignment::Left
        } else if st.total <= 200 * st.count {
            ColumnAlignment::Center
        } else {
            ColumnAlignment::Left
        };
        let width = if st.count > 0 && st.all_short {
            ColumnWidth::FixedEm(NARROW_NUMERIC_WIDTH_EM)
        } else {
            ColumnWidth::Relative(ratios[j])
        };
        out.push(ColumnLayout {
            alignment,
            width,
            total_width: st.total,
            max_width: st.max,
            count: st.count,
            is_numeric: numeric,
            has_punctuation: st.punct,
        });
        j += 1;
    }
    assert(out@ =~= analysis(tv));
    out
}

pub proof fn lemma_column_len(rows: Seq<Seq<Seq<char>>>, j: int)
    ensures
        column_cells(rows, j).len() <= rows.len(),
    decreases rows.len(),
{
    if rows.len() > 1 {
        lemma_column_len(rows.drop_last(), j);
    }
}

/// The numbers in a layout stay within the bounds that the table's size
/// gives them.
pub proof fn lemma_analysis_bounds(rows: Seq<Seq<Seq<char>>>, j: int)
    requires
        0 <= j < num_columns(rows),
        table_chars(rows) <= usize::MAX,
        rows.len() <= usize::MAX,
    ensures
        analysis(rows)[j].count <= usize::MAX,
        analysis(rows)[j].total_width <= 18 * usize::MAX,
        analysis(rows)[j].max_width <= analysis(rows)[j].total_width,
{
    let cells = column_cells(rows, j);
    lemma_column_len(rows, j);
    lemma_column_chars(rows, j);
    lemma_stats_bounds(cells);
}

/// Every flexible column gets a weight between 0.8 and 4.0, and every fixed
/// column is two ems wide.
pub proof fn lemma_widths_in_range(rows: Seq<Seq<Seq<char>>>, j: int)
    requires
        0 <= j < num_columns(rows),
    ensures
        match analysis(rows)[j].width {
            ColumnWidth::Relative(k) => 8 <= k <= 40,
            ColumnWidth::FixedEm(em) => em == 2,
        },
{
    let ws = weights(rows);
    let r = ratio_of(ws, j);
    assert(8 <= r <= 40);
}

pub proof fn lemma_column_cells_skip_header(rows: Seq<Seq<Seq<char>>>, h: Seq<Seq<char>>, j: int)
    requires
        rows.len() > 0,
    ensures
        column_cells(rows.update(0, h), j) == column_cells(rows, j),
    decreases rows.len(),
{
    if rows.len() > 1 {
        lemma_column_cells_skip_header(rows.drop_last(), h, j);
        assert(rows.update(0, h).drop_last() =~= rows.drop_last().update(0, h));
        assert(rows.update(0, h).last() == rows.last());
    }
}

/// The header row does not take part in the analysis: a header of the same
/// width with other text gives the same layout.
pub proof fn lemma_header_does_not_matter(rows: Seq<Seq<Seq<char>>>, h: Seq<Seq<char>>)
    requires
        rows.len() > 0,
        h.len() == rows[0].len(),
    ensures
        analysis(rows.update(0, h)) == analysis(rows),
{
    let r2 = rows.update(0, h);
    assert(num_columns(r2) == num_columns(rows));
    assert forall|j: int| 0 <= j < num_columns(rows) implies #[trigger] column_stats(r2)[j] == column_stats(rows)[j] by {
        lemma_column_cells_skip_header(rows, h, j);
    }
    assert(column_stats(r2) =~= column_stats(rows));
    assert(weights(r2) =~= weights(rows));
    assert(analysis(r2) =~= analysis(rows));
}

/// A body row of empty cells changes nothing: empty cells are skipped.
pub proof fn lemma_empty_row_ignored(rows: Seq<Seq<Seq<char>>>, n: nat)
    requires
        rows.len() > 0,
    ensures
        analysis(rows.push(Seq::new(n, |i: int| Seq::<char>::empty()))) == analysis(rows),
{
    let e = Seq::new(n, |i: int| Seq::<char>::empty());
    let r2 = rows.push(e);
    assert(r2.drop_last() =~= rows);
    assert(num_columns(r2) == num_columns(rows));
    assert forall|j: int| 0 <= j < num_columns(rows) implies #[trigger] column_stats(r2)[j] == column_stats(rows)[j] by {
        let c = column_cells(rows, j);
        if j < n {
            assert(column_cells(r2, j) == c + seq![e[j]]);
            assert((c + seq![e[j]]).drop_last() =~= c);
            assert(stats(c + seq![e[j]]) == stats(c));
        } else {
            assert(column_cells(r2, j) =~= c);
        }
    }
    assert(column_stats(r2) =~= column_stats(rows));
    assert(weights(r2) =~= weights(rows));
    assert(analysis(r2) =~= analysis(rows));
}

// ---------------------------------------------------------------------------
// DOCX grid
// ---------------------------------------------------------------------------

/// Width of a fixed column in twips; relative columns have none here.
pub open spec fn fixed_twips(c: ColumnLayout, em: nat) -> nat {
    match c.width {
        ColumnWidth::FixedEm(e) => e as nat * em,
        ColumnWidth::Relative(_) => 0,
    }
}

pub open spec fn weight_of(c: ColumnLayout) -> nat {
    match c.width {
        ColumnWidth::Relative(w) => w as nat,
        ColumnWidth::FixedEm(_) => 0,
    }
}

pub open spec fn sum_fixed(cs: Seq<ColumnLayout>, em: nat) -> nat
    decreases cs.len(),
{
    if cs.len() == 0 { 0 } else { sum_fixed(cs.drop_last(), em) + fixed_twips(cs.last(), em) }
}

pub open spec fn sum_weights(cs: Seq<ColumnLayout>) -> nat
    decreases cs.len(),
{
    if cs.len() == 0 { 0 } else { sum_weights(cs.drop_last()) + weight_of(cs.last()) }
}

/// The last relative column among the first `k`, or -1.
pub open spec fn last_relative(cs: Seq<ColumnLayout>, k: int) -> int
    decreases k,
{
    if k <= 0 {
        -1
    } else if cs[k - 1].width is Relative {
        k - 1
    } else {
        last_relative(cs, k - 1)
    }
}

/// A relative column's share of `remaining`, rounded half up.
pub open spec fn share(remaining: nat, w: nat, total: nat) -> nat {
    if total == 0 { 0 } else { (2 * remaining * w + total) / (2 * total) }
}

/// The width left to relative columns.
pub open spec fn remaining_twips(cs: Seq<ColumnLayout>, total_width: nat, em: nat) -> nat {
    if total_width >= sum_fixed(cs, em) { (total_width - sum_fixed(cs, em)) as nat } else { 0 }
}

/// Shares of the relative columns among the first `k`, the last one left
/// out.
pub open spec fn allocated(cs: Seq<ColumnLayout>, k: int, remaining: nat) -> nat
    decreases k,
{
    if k <= 0 {
        0
    } else {
        let last = last_relative(cs, cs.len() as int);
        allocated(cs, k - 1, remaining) + if cs[k - 1].width is Relative && k - 1 != last {
            share(remaining, weight_of(cs[k - 1]), sum_weights(cs))
        } else {
            0
        }
    }
}

/// Column `i` of the grid: fixed columns take their width first; relative
/// columns share what is left by weight, the last one taking the rest so
/// that the grid fills the width.
pub open spec fn grid_width(cs: Seq<ColumnLayout>, i: int, total_width: nat, em: nat) -> nat {
    let remaining = remaining_twips(cs, total_width, em);
    if sum_weights(cs) == 0 {
        fixed_twips(cs[i], em)
    } else {
        match cs[i].width {
            ColumnWidth::FixedEm(_) => fixed_twips(cs[i], em),
            ColumnWidth::Relative(w) => if i == last_relative(cs, cs.len() as int) {
                (remaining - allocated(cs, cs.len() as int, remaining)) as nat
            } else {
                share(remaining, w as nat, sum_weights(cs))
            },
        }
    }
}

/// The rounded shares fit in what is left (they can exceed it when many
/// columns round up).
pub open spec fn grid_fits(cs: Seq<ColumnLayout>, total_width: nat, em: nat) -> bool {
    &&& sum_fixed(cs, em) <= usize::MAX
    &&& (sum_weights(cs) > 0 ==> allocated(cs, cs.len() as int, remaining_twips(cs, total_width, em))
        <= remaining_twips(cs, total_width, em))
}

proof fn lemma_sums_prefix(cs: Seq<ColumnLayout>, k: int, em: nat)
    requires
        0 <= k < cs.len(),
    ensures
        sum_fixed(cs.take(k + 1), em) == sum_fixed(cs.take(k), em) + fixed_twips(cs[k], em),
        sum_weights(cs.take(k + 1)) == sum_weights(cs.take(k)) + weight_of(cs[k]),
        sum_fixed(cs.take(k), em) <= sum_fixed(cs, em),
{
    assert(cs.take(k + 1).drop_last() =~= cs.take(k));
    lemma_sum_fixed_mono(cs, k, em);
}

proof fn lemma_sum_fixed_mono(cs: Seq<ColumnLayout>, k: int, em: nat)
    requires
        0 <= k <= cs.len(),
    ensures
        sum_fixed(cs.take(k), em) <= sum_fixed(cs, em),
    decreases cs.len() - k,
{
    if k < cs.len() {
        lemma_sum_fixed_mono(cs, k + 1, em);
        assert(cs.take(k + 1).drop_last() =~= cs.take(k));
    } else {
        assert(cs.take(k) =~= cs);
    }
}

proof fn lemma_last_relative(cs: Seq<ColumnLayout>, k: int)
    requires
        0 <= k <= cs.len(),
    ensures
        -1 <= last_relative(cs, k) < k,
        last_relative(cs, k) >= 0 ==> cs[last_relative(cs, k)].width is Relative,
        forall|j: int| last_relative(cs, k) < j < k ==> !(#[trigger] cs[j].width is Relative),
    decreases k,
{
    if k > 0 && !(cs[k - 1].width is Relative) {
        lemma_last_relative(cs, k - 1);
    }
}

proof fn lemma_allocated_bound(cs: Seq<ColumnLayout>, k: int, j: int, remaining: nat)
    requires
        0 <= j <= k <= cs.len(),
    ensures
        allocated(cs, j, remaining) <= allocated(cs, k, remaining),
    decreases k - j,
{
    if j < k {
        lemma_allocated_bound(cs, k - 1, j, remaining);
    }
}

fn share_exec(remaining: u128, w: u8, weights: u128) -> (r: u128)
    requires
        remaining <= usize::MAX,
        0 < weights <= 255 * (usize::MAX as u128),
    ensures
        r == share(remaining as nat, w as nat, weights as nat),
{
    let a: u128 = 2 * remaining;
    assert(a * (w as u128) <= 2 * 255 * (usize::MAX as u128)) by (nonlinear_arith)
        requires
            a <= 2 * (usize::MAX as u128),
            w <= 255,
    {
    }
    let b: u128 = a * (w as u128);
    (b + weights) / (2 * weights)
}

/// Fixed column widths for a DOCX table (see [`grid_width`]).
pub fn to_docx_grid(columns: &[ColumnLayout], total_width_twips: usize, em_width_twips: usize) -> (r: Vec<usize>)
    requires
        grid_fits(columns@, total_width_twips as nat, em_width_twips as nat),
    ensures
        r@.len() == columns@.len(),
        forall|i: int| 0 <= i < columns@.len() ==> #[trigger] r@[i] == grid_width(columns@, i, total_width_twips as nat, em_width_twips as nat),
{
    let ghost cs = columns@;
    let ghost em = em_width_twips as nat;
    if columns.len() == 0 {
        return Vec::new();
    }
    // Sums and the last relative column.
    let mut fixed_total: u128 = 0;
    let mut weights: u128 = 0;
    let mut last: usize = 0;
    let mut has_relative = false;
    let mut i: usize = 0;
    while i < columns.len()
        invariant
            i <= cs.len(),
            cs == columns@,
            em == em_width_twips as nat,
            sum_fixed(cs, em) <= usize::MAX,
            fixed_total == sum_fixed(cs.take(i as int), em),
            weights == sum_weights(cs.take(i as int)),
            weights <= 255 * i,
            weights > 0 ==> has_relative,
            has_relative ==> last < i && last_relative(cs, i as int) == last,
            !has_relative ==> last_relative(cs, i as int) == -1,
        decreases cs.len() - i,
    {
        proof {
            lemma_sums_prefix(cs, i as int, em);
            lemma_sum_fixed_mono(cs, i as int + 1, em);
            assert(cs.take(i + 1).drop_last() =~= cs.take(i as int));
        }
        match columns[i].width {
            ColumnWidth::FixedEm(e) => {
                assert(fixed_twips(cs[i as int], em) == e as nat * em);
                assert((e as u128) * (em_width_twips as u128) <= usize::MAX);
                fixed_total = fixed_total + (e as u128) * (em_width_twips as u128);
            },
            ColumnWidth::Relative(w) => {
                weights = weights + w as u128;
                last = i;
                has_relative = true;
            },
        }
        i += 1;
    }
    assert(cs.take(cs.len() as int) =~= cs);
    let remaining: u128 = if (total_width_twips as u128) >= fixed_total {
        (total_width_twips as u128) - fixed_total
    } else {
        0
    };
    let ghost rem = remaining as nat;
    let ghost lastr = last_relative(cs, cs.len() as int);
    proof {
        lemma_last_relative(cs, cs.len() as int);
    }
    let mut r: Vec<usize> = Vec::new();
    let mut allocated_so_far: u128 = 0;
    let mut k: usize = 0;
    while k < columns.len()
        invariant
            k <= cs.len(),
            cs == columns@,
            em == em_width_twips as nat,
            grid_fits(cs, total_width_twips as nat, em),
            fixed_total == sum_fixed(cs, em),
            weights == sum_weights(cs),
            weights <= 255 * cs.len(),
            rem == remaining_twips(cs, total_width_twips as nat, em),
            rem == remaining as nat,
            remaining <= usize::MAX,
            lastr == last_relative(cs, cs.len() as int),
            has_relative ==> last as int == lastr,
            !has_relative ==> lastr == -1,
            weights > 0 ==> has_relative,
            allocated_so_far == allocated(cs, k as int, rem),
            r@.len() == k,
            forall|j: int| 0 <= j < k ==> #[trigger] r@[j] == grid_width(cs, j, total_width_twips as nat, em),
        decreases cs.len() - k,
    {
        proof {
            lemma_allocated_bound(cs, cs.len() as int, k as int + 1, rem);
            lemma_sum_fixed_mono(cs, k as int + 1, em);
            lemma_sums_prefix(cs, k as int, em);
        }
        let width: usize = match columns[k].width {
            ColumnWidth::FixedEm(e) => {
                proof {
                    assert(fixed_twips(cs[k as int], em) <= sum_fixed(cs.take(k as int + 1), em));
                }
                ((e as u128) * (em_width_twips as u128)) as usize
            },
            ColumnWidth::Relative(w) => {
                if weights == 0 {
                    0
                } else if k == last {
                    proof {
                        assert(allocated(cs, k as int, rem) <= allocated(cs, cs.len() as int, rem)) by {
                            lemma_allocated_bound(cs, cs.len() as int, k as int, rem);
                        }
                        lemma_allocated_tail(cs, k as int, rem);
                    }
                    (remaining - allocated_so_far) as usize
                } else {
                    assert(weights <= 255 * (usize::MAX as u128)) by (nonlinear_arith)
                        requires
                            weights <= 255 * cs.len(),
                            cs.len() <= usize::MAX,
                    {
                    }
                    let sh = share_exec(remaining, w, weights);
                    proof {
                        assert(sh <= allocated(cs, k as int + 1, rem));
                    }
                    sh as usize
                }
            },
        };
        proof {
            if weights > 0 && columns[k as int].width is Relative && k as int != lastr {
                assert(allocated(cs, k as int + 1, rem) == allocated(cs, k as int, rem) + share(rem, weight_of(cs[k as int]), weights as nat));
            }
        }
        if weights > 0 && k != last {
            match columns[k].width {
                ColumnWidth::Relative(w) => {
                    assert(weights <= 255 * (usize::MAX as u128)) by (nonlinear_arith)
                        requires
                            weights <= 255 * cs.len(),
                            cs.len() <= usize::MAX,
                    {
                    }
                    allocated_so_far = allocated_so_far + share_exec(remaining, w, weights);
                },
                _ => {},
            }
        }
        r.push(width);
        k += 1;
    }
    r
}

/// After the last relative column no relative share is added.
proof fn lemma_allocated_tail(cs: Seq<ColumnLayout>, k: int, remaining: nat)
    requires
        0 <= k < cs.len(),
        k == last_relative(cs, cs.len() as int),
    ensures
        allocated(cs, cs.len() as int, remaining) == allocated(cs, k, remaining),
{
    lemma_last_relative(cs, cs.len() as int);
    lemma_allocated_const(cs, k, cs.len() as int, remaining);
}

proof fn lemma_allocated_const(cs: Seq<ColumnLayout>, k: int, m: int, remaining: nat)
    requires
        0 <= k < m <= cs.len(),
        k == last_relative(cs, cs.len() as int),
        forall|j: int| k < j < cs.len() ==> !(#[trigger] cs[j].width is Relative),
    ensures
        allocated(cs, m, remaining) == allocated(cs, k, remaining),
    decreases m - k,
{
    if m - 1 > k {
        lemma_allocated_const(cs, k, m - 1, remaining);
        assert(!(cs[m - 1].width is Relative));
    }
}

/// Sum of the first `k` grid widths.
pub open spec fn grid_sum(cs: Seq<ColumnLayout>, k: int, total_width: nat, em: nat) -> nat
    decreases k,
{
    if k <= 0 { 0 } else { grid_sum(cs, k - 1, total_width, em) + grid_width(cs, k - 1, total_width, em) }
}

proof fn lemma_grid_sum_parts(cs: Seq<ColumnLayout>, k: int, total_width: nat, em: nat)
    requires
        0 <= k <= cs.len(),
        sum_weights(cs) > 0,
        k <= last_relative(cs, cs.len() as int),
    ensures
        grid_sum(cs, k, total_width, em) == sum_fixed(cs.take(k), em) + allocated(cs, k, remaining_twips(cs, total_width, em)),
    decreases k,
{
    if k > 0 {
        lemma_grid_sum_parts(cs, k - 1, total_width, em);
        assert(cs.take(k).drop_last() =~= cs.take(k - 1));
    }
}

proof fn lemma_grid_sum_tail(cs: Seq<ColumnLayout>, k: int, total_width: nat, em: nat)
    requires
        0 <= last_relative(cs, cs.len() as int) < k <= cs.len(),
        sum_weights(cs) > 0,
        grid_fits(cs, total_width, em),
    ensures
        grid_sum(cs, k, total_width, em) == sum_fixed(cs.take(k), em) + remaining_twips(cs, total_width, em),
    decreases k,
{
    let last = last_relative(cs, cs.len() as int);
    let rem = remaining_twips(cs, total_width, em);
    lemma_last_relative(cs, cs.len() as int);
    assert(cs.take(k).drop_last() =~= cs.take(k - 1));
    if k - 1 == last {
        lemma_grid_sum_parts(cs, k - 1, total_width, em);
        lemma_allocated_tail(cs, last, rem);
        assert(fixed_twips(cs[last], em) == 0);
    } else {
        lemma_grid_sum_tail(cs, k - 1, total_width, em);
        assert(!(cs[k - 1].width is Relative));
    }
}

/// The grid of a table with relative columns is exactly as wide as the
/// available width, once the fixed columns fit in it.
pub proof fn lemma_grid_fills_width(cs: Seq<ColumnLayout>, total_width: nat, em: nat)
    requires
        grid_fits(cs, total_width, em),
        sum_weights(cs) > 0,
        sum_fixed(cs, em) <= total_width,
    ensures
        grid_sum(cs, cs.len() as int, total_width, em) == total_width,
{
    lemma_weights_relative(cs);
    lemma_last_relative(cs, cs.len() as int);
    lemma_grid_sum_tail(cs, cs.len() as int, total_width, em);
    assert(cs.take(cs.len() as int) =~= cs);
}

/// Positive total weight means some column is relative.
proof fn lemma_weights_relative(cs: Seq<ColumnLayout>)
    requires
        sum_weights(cs) > 0,
    ensures
        last_relative(cs, cs.len() as int) >= 0,
    decreases cs.len(),
{
    if cs.len() > 0 && !(cs.last().width is Relative) {
        assert(cs.drop_last().len() == cs.len() - 1);
        lemma_weights_relative(cs.drop_last());
        lemma_last_relative_prefix(cs, cs.len() - 1);
    }
}

proof fn lemma_last_relative_prefix(cs: Seq<ColumnLayout>, k: int)
    requires
        0 <= k <= cs.len(),
    ensures
        last_relative(cs.take(k), k) == last_relative(cs, k),
    decreases k,
{
    if k > 0 {
        lemma_last_relative_prefix(cs, k - 1);
        assert(cs.take(k)[k - 1] == cs[k - 1]);
        lemma_last_relative_take(cs, k, k - 1);
    }
}

proof fn lemma_last_relative_take(cs: Seq<ColumnLayout>, k: int, m: int)
    requires
        0 <= m <= k <= cs.len(),
    ensures
        last_relative(cs.take(k), m) == last_relative(cs, m),
    decreases m,
{
    if m > 0 {
        assert(cs.take(k)[m - 1] == cs[m - 1]);
        lemma_last_relative_take(cs, k, m - 1);
    }
}

} // verus!
