//! GFM pipe tables: `| a | b |` rows with a `|---|---|` separator row.
use vstd::prelude::*;
use crate::common::ast::strings_view;
use crate::text::{
    chars_eq, chars_of, contains_char, find_char, find_char_exec, lemma_find_char, slice_of,
    string_from_chars, trim, trim_chars,
};

verus! {

/// `str::split` by a character: the pieces between separators (at least one).
pub open spec fn split(t: Seq<char>, c: char) -> Seq<Seq<char>>
    decreases t.len(),
{
    let k = find_char(t, 0, c);
    proof {
        lemma_find_char(t, 0, c);
    }
    if k >= t.len() {
        seq![t]
    } else {
        seq![t.subrange(0, k)] + split(t.subrange(k + 1, t.len() as int), c)
    }
}

/// Executable [`split`].
pub fn split_chars(t: &[char], c: char) -> (r: Vec<Vec<char>>)
    ensures
        r@.len() == split(t@, c).len(),
        forall|k: int| 0 <= k < r@.len() ==> #[trigger] r@[k]@ == split(t@, c)[k],
{
    let mut out: Vec<Vec<char>> = Vec::new();
    let mut rest: Vec<char> = slice_of(t, 0, t.len());
    assert(rest@ =~= t@);
    loop
        invariant
            split(t@, c) == out@.map_values(|l: Vec<char>| l@) + split(rest@, c),
        decreases rest@.len(),
    {
        let k = find_char_exec(&rest, 0, c);
        proof {
            lemma_find_char(rest@, 0, c);
        }
        let ghost before = out@.map_values(|l: Vec<char>| l@);
        if k >= rest.len() {
            let ghost r0 = rest@;
            out.push(rest);
            assert(out@.map_values(|l: Vec<char>| l@) =~= before.push(r0));
            assert(split(t@, c) =~= out@.map_values(|l: Vec<char>| l@));
            return out;
        } else {
            let piece = slice_of(&rest, 0, k);
            let next = slice_of(&rest, k + 1, rest.len());
            out.push(piece);
            assert(out@.map_values(|l: Vec<char>| l@) =~= before.push(rest@.subrange(0, k as int)));
            assert(split(t@, c) =~= out@.map_values(|l: Vec<char>| l@) + split(next@, c));
            rest = next;
        }
    }
}

/// A table line: contains `|` and, trimmed, starts and ends with `|`.
pub open spec fn is_table_line_spec(l: Seq<char>) -> bool {
    let t = trim(l);
    l.contains('|') && t.len() > 0 && t[0] == '|' && t.last() == '|'
}

pub fn is_table_line_chars(l: &[char]) -> (r: bool)
    ensures
        r == is_table_line_spec(l@),
{
    let t = trim_chars(l);
    contains_char(l, '|') && t.len() > 0 && t[0] == '|' && t[t.len() - 1] == '|'
}

/// Whether a line looks like a table row (`|...|`).
pub fn is_table_line(line: &str) -> (r: bool)
    ensures
        r == is_table_line_spec(line@),
{
    let l = chars_of(line);
    is_table_line_chars(&l)
}

/// One cell of a separator row: non-empty after trimming, only `-`, `:` and spaces.
pub open spec fn is_separator_cell(p: Seq<char>) -> bool {
    let q = trim(p);
    q.len() > 0 && forall|k: int| 0 <= k < q.len() ==> (q[k] == '-' || q[k] == ':' || q[k] == ' ')
}

/// A separator row: trimmed, `|...|` (two bars at least) whose inner cells
/// are all separator cells.
pub open spec fn is_table_separator_spec(l: Seq<char>) -> bool {
    let t = trim(l);
    t.len() >= 2 && t[0] == '|' && t.last() == '|' && {
        let cells = split(t.subrange(1, t.len() - 1), '|');
        forall|k: int| 0 <= k < cells.len() ==> is_separator_cell(#[trigger] cells[k])
    }
}

fn is_separator_cell_exec(p: &[char]) -> (r: bool)
    ensures
        r == is_separator_cell(p@),
{
    let q = trim_chars(p);
    if q.len() == 0 {
        return false;
    }
    let mut i: usize = 0;
    while i < q.len()
        invariant
            i <= q@.len(),
            q@ == trim(p@),
            q@.len() > 0,
            forall|k: int| 0 <= k < i ==> (q@[k] == '-' || q@[k] == ':' || q@[k] == ' '),
        decreases q@.len() - i,
    {
        let c = q[i];
        if !(c == '-' || c == ':' || c == ' ') {
            assert(!(q@[i as int] == '-' || q@[i as int] == ':' || q@[i as int] == ' '));
            return false;
        }
        i += 1;
    }
    true
}

pub fn is_table_separator_chars(l: &[char]) -> (r: bool)
    ensures
        r == is_table_separator_spec(l@),
{
    let t = trim_chars(l);
    if !(t.len() >= 2 && t[0] == '|' && t[t.len() - 1] == '|') {
        return false;
    }
    let inner = slice_of(&t, 1, t.len() - 1);
    let cells = split_chars(&inner, '|');
    let mut i: usize = 0;
    while i < cells.len()
        invariant
            i <= cells@.len(),
            t@ == trim(l@),
            t@.len() > 1 && t@[0] == '|' && t@.last() == '|',
            inner@ == t@.subrange(1, t@.len() - 1),
            cells@.len() == split(inner@, '|').len(),
            forall|k: int| 0 <= k < cells@.len() ==> #[trigger] cells@[k]@ == split(inner@, '|')[k],
            forall|k: int| 0 <= k < i ==> is_separator_cell(#[trigger] split(inner@, '|')[k]),
        decreases cells@.len() - i,
    {
        if !is_separator_cell_exec(&cells[i]) {
            assert(!is_separator_cell(split(inner@, '|')[i as int]));
            return false;
        }
        i += 1;
    }
    true
}

/// Whether a line is a table separator row (`|---|:--:|`); a lone `|` is
/// not one.
pub fn is_table_separator(line: &str) -> (r: bool)
    ensures
        r == is_table_separator_spec(line@),
{
    let l = chars_of(line);
    is_table_separator_chars(&l)
}

/// Collects the (trimmed) table lines from `i` on: a single empty line inside
/// the table is allowed when another table line follows it. Gives the lines
/// and the index where collection stopped.
pub open spec fn collect_from(lines: Seq<Seq<char>>, i: int, acc: Seq<Seq<char>>) -> (Seq<Seq<char>>, int)
    decreases lines.len() - i,
{
    if i < 0 || i >= lines.len() {
        (acc, i)
    } else {
        let line = trim(lines[i]);
        if is_table_line_spec(line) {
            collect_from(lines, i + 1, acc.push(line))
        } else if line.len() == 0 && acc.len() > 0 {
            if i + 1 < lines.len() && is_table_line_spec(trim(lines[i + 1])) {
                collect_from(lines, i + 1, acc)
            } else {
                (acc, i + 1)
            }
        } else {
            (acc, i)
        }
    }
}

/// Cells of a collected row: outer `|` removed, split at `|`, each cell trimmed.
pub open spec fn row_cells(l: Seq<char>) -> Seq<Seq<char>> {
    let a = if l.len() > 0 && l[0] == '|' { l.drop_first() } else { l };
    let b = if a.len() > 0 && a.last() == '|' { a.drop_last() } else { a };
    split(b, '|').map_values(|p: Seq<char>| trim(p))
}

/// The rows of the collected lines, separator rows left out.
pub open spec fn table_rows(tl: Seq<Seq<char>>) -> Seq<Seq<Seq<char>>>
    decreases tl.len(),
{
    if tl.len() == 0 {
        Seq::empty()
    } else if is_table_separator_spec(tl.last()) {
        table_rows(tl.drop_last())
    } else {
        table_rows(tl.drop_last()).push(row_cells(tl.last()))
    }
}

/// The table starting at `start` and the index after it, or `(None, start)`
/// when there are fewer than two table lines, no separator row, or no rows.
pub open spec fn parse_table_spec(lines: Seq<Seq<char>>, start: int) -> (Option<Seq<Seq<Seq<char>>>>, int) {
    let (tl, i) = collect_from(lines, start, Seq::empty());
    if tl.len() < 2 {
        (None, start)
    } else {
        let rows = table_rows(tl);
        if !(exists|k: int| 0 <= k < tl.len() && is_table_separator_spec(#[trigger] tl[k])) || rows.len() == 0 {
            (None, start)
        } else {
            (Some(rows), i)
        }
    }
}

pub open spec fn rows_view(r: Seq<Vec<String>>) -> Seq<Seq<Seq<char>>> {
    r.map_values(|row: Vec<String>| strings_view(row@))
}

pub proof fn lemma_collect_bounds(lines: Seq<Seq<char>>, i: int, acc: Seq<Seq<char>>)
    requires
        0 <= i <= lines.len(),
    ensures
        i <= collect_from(lines, i, acc).1 <= lines.len(),
    decreases lines.len() - i,
{
    if i < lines.len() {
        let line = trim(lines[i]);
        if is_table_line_spec(line) {
            lemma_collect_bounds(lines, i + 1, acc.push(line));
        } else if line.len() == 0 && acc.len() > 0 {
            if i + 1 < lines.len() && is_table_line_spec(trim(lines[i + 1])) {
                lemma_collect_bounds(lines, i + 1, acc);
            }
        }
    }
}

fn row_cells_exec(l: &[char]) -> (r: Vec<String>)
    ensures
        strings_view(r@) == row_cells(l@),
{
    let a = if l.len() > 0 && l[0] == '|' {
        slice_of(l, 1, l.len())
    } else {
        slice_of(l, 0, l.len())
    };
    assert(a@ =~= (if l@.len() > 0 && l@[0] == '|' { l@.drop_first() } else { l@ }));
    let b = if a.len() > 0 && a[a.len() - 1] == '|' {
        slice_of(&a, 0, a.len() - 1)
    } else {
        slice_of(&a, 0, a.len())
    };
    assert(b@ =~= (if a@.len() > 0 && a@.last() == '|' { a@.drop_last() } else { a@ }));
    let parts = split_chars(&b, '|');
    let ghost sp = split(b@, '|');
    let mut cells: Vec<String> = Vec::new();
    let mut i: usize = 0;
    while i < parts.len()
        invariant
            i <= parts@.len(),
            parts@.len() == sp.len(),
            forall|k: int| 0 <= k < parts@.len() ==> #[trigger] parts@[k]@ == sp[k],
            strings_view(cells@) == sp.take(i as int).map_values(|p: Seq<char>| trim(p)),
        decreases parts@.len() - i,
    {
        let c = trim_chars(&parts[i]);
        let ghost before = strings_view(cells@);
        let cs = string_from_chars(&c);
        cells.push(cs);
        assert(strings_view(cells@) =~= before.push(trim(sp[i as int])));
        assert(sp.take(i + 1).map_values(|p: Seq<char>| trim(p)) =~= sp.take(i as int).map_values(|p: Seq<char>| trim(p)).push(trim(sp[i as int])));
        i += 1;
    }
    assert(sp.take(sp.len() as int) =~= sp);
    cells
}

/// Executable [`collect_from`] from `start` with nothing collected yet.
fn collect_exec(lines: &Vec<Vec<char>>, start: usize) -> (r: (Vec<Vec<char>>, usize))
    requires
        start <= lines@.len(),
    ensures
        collect_from(lines@.map_values(|l: Vec<char>| l@), start as int, Seq::empty()) == (r.0@.map_values(|l: Vec<char>| l@), r.1 as int),
        start <= r.1 <= lines@.len(),
        r.0@.len() <= r.1 - start,
{
    let ghost ls = lines@.map_values(|l: Vec<char>| l@);
    let mut tl: Vec<Vec<char>> = Vec::new();
    let mut i = start;
    assert(tl@.map_values(|l: Vec<char>| l@) =~= Seq::<Seq<char>>::empty());
    loop
        invariant
            start <= i <= lines@.len(),
            tl@.len() <= i - start,
            ls == lines@.map_values(|l: Vec<char>| l@),
            collect_from(ls, i as int, tl@.map_values(|l: Vec<char>| l@)) == collect_from(ls, start as int, Seq::empty()),
        decreases lines@.len() - i,
    {
        if i >= lines.len() {
            return (tl, i);
        }
        let line = trim_chars(&lines[i]);
        assert(line@ == trim(ls[i as int]));
        if is_table_line_chars(&line) {
            let ghost before = tl@.map_values(|l: Vec<char>| l@);
            tl.push(line);
            assert(tl@.map_values(|l: Vec<char>| l@) =~= before.push(trim(ls[i as int])));
            i += 1;
        } else if line.len() == 0 && tl.len() > 0 {
            if i + 1 < lines.len() && is_table_line_chars(&trim_chars(&lines[i + 1])) {
                i += 1;
            } else {
                return (tl, i + 1);
            }
        } else {
            return (tl, i);
        }
    }
}

/// Executable [`parse_table_spec`] on character lines.
pub fn parse_table_lines(lines: &Vec<Vec<char>>, start: usize) -> (r: (Option<Vec<Vec<String>>>, usize))
    requires
        start <= lines@.len(),
    ensures
        ({
            let (o, i) = parse_table_spec(lines@.map_values(|l: Vec<char>| l@), start as int);
            &&& r.1 == i
            &&& match r.0 {
                Some(rows) => o == Some(rows_view(rows@)),
                None => o is None,
            }
        }),
        start <= r.1 <= lines@.len(),
        r.0 is Some ==> r.1 > start,
{
    let ghost ls = lines@.map_values(|l: Vec<char>| l@);
    let (tl, i) = collect_exec(lines, start);
    let ghost tlv = tl@.map_values(|l: Vec<char>| l@);
    if tl.len() < 2 {
        return (None, start);
    }
    let mut rows: Vec<Vec<String>> = Vec::new();
    let mut found = false;
    let mut k: usize = 0;
    while k < tl.len()
        invariant
            k <= tl@.len(),
            tlv == tl@.map_values(|l: Vec<char>| l@),
            found == (exists|j: int| 0 <= j < k && is_table_separator_spec(#[trigger] tlv[j])),
            rows_view(rows@) == table_rows(tlv.take(k as int)),
        decreases tl@.len() - k,
    {
        assert(tlv[k as int] == tl@[k as int]@);
        let sep = is_table_separator_chars(&tl[k]);
        let ghost rv = rows_view(rows@);
        assert(tlv.take(k + 1).drop_last() =~= tlv.take(k as int));
        if sep {
            found = true;
        } else {
            rows.push(row_cells_exec(&tl[k]));
            assert(rows_view(rows@) =~= rv.push(row_cells(tlv[k as int])));
        }
        k += 1;
    }
    assert(tlv.take(tlv.len() as int) =~= tlv);
    if !found || rows.len() == 0 {
        return (None, start);
    }
    (Some(rows), i)
}

/// Character lines of string lines.
pub fn lines_to_chars(lines: &[String]) -> (r: Vec<Vec<char>>)
    ensures
        r@.map_values(|l: Vec<char>| l@) == strings_view(lines@),
{
    let mut r: Vec<Vec<char>> = Vec::new();
    let mut i: usize = 0;
    while i < lines.len()
        invariant
            i <= lines@.len(),
            r@.map_values(|l: Vec<char>| l@) == strings_view(lines@).take(i as int),
        decreases lines@.len() - i,
    {
        let ghost before = r@.map_values(|l: Vec<char>| l@);
        let c = chars_of(lines[i].as_str());
        r.push(c);
        assert(r@.map_values(|l: Vec<char>| l@) =~= before.push(lines@[i as int]@));
        i += 1;
        assert(r@.map_values(|l: Vec<char>| l@) =~= strings_view(lines@).take(i as int));
    }
    assert(strings_view(lines@).take(lines@.len() as int) =~= strings_view(lines@));
    r
}

/// Tries to parse a table block starting at `lines[start_index]`.
///
/// Gives `(Some(rows), next_index)` with the outer `|` stripped, cells
/// trimmed and separator rows dropped (`rows[0]` is the header), or
/// `(None, start_index)` when the lines do not form a table.
pub fn parse_table(lines: &[String], start_index: usize) -> (r: (Option<Vec<Vec<String>>>, usize))
    ensures
        ({
            let (o, i) = parse_table_spec(strings_view(lines@), start_index as int);
            &&& r.1 == i
            &&& match r.0 {
                Some(rows) => o == Some(rows_view(rows@)),
                None => o is None,
            }
        }),
{
    if start_index > lines.len() {
        return (None, start_index);
    }
    let ls = lines_to_chars(lines);
    parse_table_lines(&ls, start_index)
}


} // verus!
