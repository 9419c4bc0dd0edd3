//! Anchors and table captions: `{#id}` after a heading or caption, and the
//! caption markers `Table: ...`, `表：...`, `: ...`, `表1：...`, `Table 1: ...`.
use vstd::prelude::*;
use crate::charclass::{digit, is_ascii_alpha, is_digit};
use crate::common::heading::{
    Class, apply_rule, dotted_tail, in_class, lemma_dotted_tail, lemma_number_tail, lemma_run,
    number_tail, rule_end, run,
};
use crate::common::inline::{is_label_char, label_run};
use crate::text::{
    at, has_at, is_whitespace, is_ws, lemma_skip_ws_back_bounds, lemma_skip_ws_bounds,
    skip_ws, skip_ws_back, skip_ws_back_exec, skip_ws_exec, slice_of, trim, trim_chars, trim_end,
};

verus! {

// ---------------------------------------------------------------------------
// `{#id}` anchors at the end of a text
// ---------------------------------------------------------------------------

/// Start of the maximal run of anchor-id characters ending at `j`.
pub open spec fn label_run_back(t: Seq<char>, j: int) -> int
    decreases j,
{
    if 0 < j <= t.len() && is_label_char(t[j - 1]) {
        label_run_back(t, j - 1)
    } else {
        j
    }
}

pub proof fn lemma_label_run_back(t: Seq<char>, j: int)
    requires
        0 <= j <= t.len(),
    ensures
        0 <= label_run_back(t, j) <= j,
        forall|k: int| label_run_back(t, j) <= k < j ==> is_label_char(t[k]),
    decreases j,
{
    if 0 < j && is_label_char(t[j - 1]) {
        lemma_label_run_back(t, j - 1);
    }
}

/// Position of the `{` of a `\s*\{#([A-Za-z][\w:.-]*)\}\s*$` anchor ending
/// the text, or -1.
pub open spec fn label_attr_open(t: Seq<char>) -> int {
    let e = skip_ws_back(t, t.len() as int);
    if e >= 1 && t[e - 1] == '}' {
        let s = label_run_back(t, e - 1);
        if s >= 2 && s < e - 1 && t[s - 1] == '#' && t[s - 2] == '{' && is_ascii_alpha(t[s]) {
            s - 2
        } else {
            -1
        }
    } else {
        -1
    }
}

/// Splits off a trailing `{#id}` anchor: (text before it with trailing
/// whitespace removed, anchor id).
pub open spec fn strip_label_attr_spec(t: Seq<char>) -> (Seq<char>, Option<Seq<char>>) {
    let b = label_attr_open(t);
    if b >= 0 {
        let e = skip_ws_back(t, t.len() as int);
        (trim_end(t.subrange(0, b)), Some(t.subrange(b + 2, e - 1)))
    } else {
        (t, None)
    }
}

fn label_char_exec(c: char) -> (r: bool)
    ensures
        r == is_label_char(c),
{
    c == ':' || c == '.' || c == '-' || crate::charclass::word(c)
}

fn label_run_back_exec(t: &[char], j: usize) -> (r: usize)
    requires
        j <= t@.len(),
    ensures
        r == label_run_back(t@, j as int),
        r <= j,
{
    let mut k = j;
    while k > 0 && label_char_exec(t[k - 1])
        invariant
            k <= j <= t@.len(),
            label_run_back(t@, k as int) == label_run_back(t@, j as int),
        decreases k,
    {
        k -= 1;
    }
    k
}

/// Executable [`strip_label_attr_spec`].
pub fn strip_label_attr(t: &[char]) -> (r: (Vec<char>, Option<Vec<char>>))
    ensures
        strip_label_attr_spec(t@).0 == r.0@,
        match strip_label_attr_spec(t@).1 {
            Some(id) => r.1 matches Some(v) && v@ == id,
            None => r.1 is None,
        },
{
    let e = skip_ws_back_exec(t, t.len());
    if e >= 1 && t[e - 1] == '}' {
        let s = label_run_back_exec(t, e - 1);
        if s >= 2 && s < e - 1 && t[s - 1] == '#' && t[s - 2] == '{' && (('A' <= t[s] && t[s]
            <= 'Z') || ('a' <= t[s] && t[s] <= 'z')) {
            let before = slice_of(t, 0, s - 2);
            let text = crate::text::trim_end_chars(&before);
            let id = slice_of(t, s, e - 1);
            return (text, Some(id));
        }
    }
    (slice_of(t, 0, t.len()), None)
}

// ---------------------------------------------------------------------------
// Old numbers at the start of a caption
// ---------------------------------------------------------------------------

/// `(?:[.\-]\d+)*` from `j`.
pub open spec fn dash_digits_tail(t: Seq<char>, j: int) -> int
    decreases t.len() - j,
{
    if 0 <= j < t.len() && (t[j] == '.' || t[j] == '-') {
        let k = run(t, j + 1, Class::Digit);
        proof {
            lemma_run(t, j + 1, Class::Digit);
        }
        if k > j + 1 {
            dash_digits_tail(t, k)
        } else {
            j
        }
    } else {
        j
    }
}

pub proof fn lemma_dash_digits_tail(t: Seq<char>, j: int)
    requires
        0 <= j <= t.len(),
    ensures
        j <= dash_digits_tail(t, j) <= t.len(),
    decreases t.len() - j,
{
    if j < t.len() && (t[j] == '.' || t[j] == '-') {
        lemma_run(t, j + 1, Class::Digit);
        let k = run(t, j + 1, Class::Digit);
        if k > j + 1 {
            lemma_dash_digits_tail(t, k);
        }
    }
}

/// `^(?:\d+(?:\.\d+)*|[A-Za-z][.\-]\d+(?:[.\-]\d+)*)[.．、]?\s+([^\d\s])`:
/// position of the kept character, or -1.
pub open spec fn leading_num_end(t: Seq<char>) -> int {
    let b = if t.len() >= 1 && is_digit(t[0]) {
        number_tail(t, run(t, 0, Class::Digit))
    } else if t.len() >= 3 && is_ascii_alpha(t[0]) && (t[1] == '.' || t[1] == '-') && is_digit(
        t[2],
    ) {
        dash_digits_tail(t, run(t, 2, Class::Digit))
    } else {
        -1
    };
    if b >= 0 {
        let o = if 0 <= b < t.len() && in_class(Class::SepDotIdeo, t[b]) {
            b + 1
        } else {
            b
        };
        let w = skip_ws(t, o);
        if w > o && w < t.len() && !is_digit(t[w]) && !is_ws(t[w]) {
            w
        } else {
            -1
        }
    } else {
        -1
    }
}

/// Removes a leading old number (`附录E`, `4.6`, `E.1`, `3`) from a caption
/// and trims it.
pub open spec fn strip_caption_number_spec(c: Seq<char>) -> Seq<char> {
    let c1 = apply_rule(0, c);
    let m = leading_num_end(c1);
    let c2 = if m >= 0 {
        c1.subrange(m, c1.len() as int)
    } else {
        c1
    };
    trim(c2)
}

fn run_digits(t: &[char], i: usize) -> (r: usize)
    requires
        i <= t@.len(),
    ensures
        r == run(t@, i as int, Class::Digit),
        i <= r <= t@.len(),
{
    let mut k = i;
    while k < t.len() && digit(t[k])
        invariant
            i <= k <= t@.len(),
            run(t@, k as int, Class::Digit) == run(t@, i as int, Class::Digit),
        decreases t@.len() - k,
    {
        k += 1;
    }
    k
}

fn number_tail_digits(t: &[char], j: usize) -> (r: usize)
    requires
        j <= t@.len(),
    ensures
        r == number_tail(t@, j as int),
        j <= r <= t@.len(),
{
    let n = t.len();
    let mut k = j;
    loop
        invariant
            n == t@.len(),
            j <= k <= t@.len(),
            number_tail(t@, k as int) == number_tail(t@, j as int),
        decreases t@.len() - k,
    {
        if k < n && t[k] == '.' {
            let e = run_digits(t, k + 1);
            if e > k + 1 {
                k = e;
            } else {
                return k;
            }
        } else {
            return k;
        }
    }
}

fn dash_digits_tail_exec(t: &[char], j: usize) -> (r: usize)
    requires
        j <= t@.len(),
    ensures
        r == dash_digits_tail(t@, j as int),
        j <= r <= t@.len(),
{
    let n = t.len();
    let mut k = j;
    loop
        invariant
            n == t@.len(),
            j <= k <= t@.len(),
            dash_digits_tail(t@, k as int) == dash_digits_tail(t@, j as int),
        decreases t@.len() - k,
    {
        if k < n && (t[k] == '.' || t[k] == '-') {
            let e = run_digits(t, k + 1);
            if e > k + 1 {
                k = e;
            } else {
                return k;
            }
        } else {
            return k;
        }
    }
}

fn leading_num_end_exec(t: &[char]) -> (r: Option<usize>)
    ensures
        r matches Some(m) ==> leading_num_end(t@) == m && m <= t@.len(),
        r is None ==> leading_num_end(t@) < 0,
{
    let n = t.len();
    let b: usize;
    if n >= 1 && digit(t[0]) {
        let d = run_digits(t, 0);
        b = number_tail_digits(t, d);
    } else if n >= 3 && (('A' <= t[0] && t[0] <= 'Z') || ('a' <= t[0] && t[0] <= 'z')) && (t[1]
        == '.' || t[1] == '-') && digit(t[2]) {
        let d = run_digits(t, 2);
        b = dash_digits_tail_exec(t, d);
    } else {
        return None;
    }
    let o = if b < n && (t[b] == '.' || t[b] == '．' || t[b] == '、') {
        b + 1
    } else {
        b
    };
    let w = skip_ws_exec(t, o);
    if w > o && w < n && !digit(t[w]) && !is_whitespace(t[w]) {
        Some(w)
    } else {
        None
    }
}

/// Executable [`strip_caption_number_spec`].
pub fn strip_caption_number(c: &[char]) -> (r: Vec<char>)
    ensures
        r@ == strip_caption_number_spec(c@),
{
    let c1 = match crate::common::heading::rule_end_exec(0, c) {
        Some(e) => slice_of(c, e, c.len()),
        None => slice_of(c, 0, c.len()),
    };
    assert(c1@ == apply_rule(0, c@));
    match leading_num_end_exec(&c1) {
        Some(m) => {
            let c2 = slice_of(&c1, m, c1.len());
            trim_chars(&c2)
        },
        None => trim_chars(&c1),
    }
}

// ---------------------------------------------------------------------------
// Caption markers
// ---------------------------------------------------------------------------

/// Length of the caption keyword `表` / `table` (ASCII case-insensitive) at
/// the start, or -1.
pub open spec fn caption_keyword(t: Seq<char>) -> int {
    if t.len() >= 1 && t[0] == '表' {
        1
    } else if t.len() >= 5 && crate::common::heading::lower(t[0]) == 't'
        && crate::common::heading::lower(t[1]) == 'a' && crate::common::heading::lower(t[2]) == 'b'
        && crate::common::heading::lower(t[3]) == 'l' && crate::common::heading::lower(t[4]) == 'e' {
        5
    } else {
        -1
    }
}

/// For a trimmed line, the start of the caption text after a numbered
/// keyword (`^(?i:表|table)\s*(?:[A-Za-z]?\d+|[A-Za-z][.\-]\d+)(?:[.\-][A-Za-z0-9]+)*\s*(?:[:：]\s*|\s+)(.+)$`),
/// or -1.
pub open spec fn numbered_caption_start(t: Seq<char>) -> int {
    let k = caption_keyword(t);
    if k < 0 {
        -1
    } else {
        let a = skip_ws(t, k);
        let b = if 0 <= a && a + 1 < t.len() && is_ascii_alpha(t[a]) && is_digit(t[a + 1]) {
            run(t, a + 1, Class::Digit)
        } else if 0 <= a < t.len() && is_digit(t[a]) {
            run(t, a, Class::Digit)
        } else if 0 <= a && a + 2 < t.len() && is_ascii_alpha(t[a]) && (t[a + 1] == '.' || t[a + 1]
            == '-') && is_digit(t[a + 2]) {
            run(t, a + 2, Class::Digit)
        } else {
            -1
        };
        if b < 0 {
            -1
        } else {
            let g = dotted_tail(t, b);
            let q = skip_ws(t, g);
            if 0 <= q && q + 1 < t.len() && (t[q] == ':' || t[q] == '：') && skip_ws(t, q + 1)
                < t.len() {
                skip_ws(t, q + 1)
            } else if q > g && q < t.len() {
                q
            } else {
                -1
            }
        }
    }
}

/// Length of the plain caption prefix (`Table:`, `table:`, `TABLE:`, `表:`,
/// `表：`, `:`), or -1.
pub open spec fn caption_prefix(t: Seq<char>) -> int {
    if has_at(t, 0, seq!['T', 'a', 'b', 'l', 'e', ':']) || has_at(t, 0, seq!['t', 'a', 'b', 'l', 'e', ':'])
        || has_at(t, 0, seq!['T', 'A', 'B', 'L', 'E', ':']) {
        6
    } else if has_at(t, 0, seq!['表', ':']) || has_at(t, 0, seq!['表', '：']) {
        2
    } else if has_at(t, 0, seq![':']) {
        1
    } else {
        -1
    }
}

/// The table caption marked by a line: (caption, anchor) with old numbers
/// removed, or None.
pub open spec fn caption_marker_spec(line: Seq<char>) -> Option<(Seq<char>, Option<Seq<char>>)> {
    let t = trim(line);
    let n = numbered_caption_start(t);
    let numbered = if n >= 0 {
        strip_caption_number_spec(trim(t.subrange(n, t.len() as int)))
    } else {
        Seq::empty()
    };
    if n >= 0 && numbered.len() > 0 {
        Some(strip_label_attr_spec(numbered))
    } else {
        let p = caption_prefix(t);
        if p < 0 {
            None
        } else {
            let c = strip_caption_number_spec(trim(t.subrange(p, t.len() as int)));
            if c.len() == 0 {
                None
            } else {
                Some(strip_label_attr_spec(c))
            }
        }
    }
}

fn lower_exec(c: char) -> (r: char)
    ensures
        r == crate::common::heading::lower(c),
{
    if 'A' <= c && c <= 'Z' {
        ((c as u8) + 32) as char
    } else {
        c
    }
}

fn ascii_alpha(c: char) -> (r: bool)
    ensures
        r == is_ascii_alpha(c),
{
    ('A' <= c && c <= 'Z') || ('a' <= c && c <= 'z')
}

fn numbered_caption_start_exec(t: &[char]) -> (r: Option<usize>)
    ensures
        r matches Some(s) ==> numbered_caption_start(t@) == s && s <= t@.len(),
        r is None ==> numbered_caption_start(t@) < 0,
{
    let n = t.len();
    let k: usize = if n >= 1 && t[0] == '表' {
        1
    } else if n >= 5 && lower_exec(t[0]) == 't' && lower_exec(t[1]) == 'a' && lower_exec(t[2])
        == 'b' && lower_exec(t[3]) == 'l' && lower_exec(t[4]) == 'e' {
        5
    } else {
        return None;
    };
    let a = skip_ws_exec(t, k);
    let b: usize;
    if a < n && n - a > 1 && ascii_alpha(t[a]) && digit(t[a + 1]) {
        b = run_digits(t, a + 1);
    } else if a < n && digit(t[a]) {
        b = run_digits(t, a);
    } else if a < n && n - a > 2 && ascii_alpha(t[a]) && (t[a + 1] == '.' || t[a + 1] == '-') && digit(
        t[a + 2],
    ) {
        b = run_digits(t, a + 2);
    } else {
        return None;
    }
    let g = crate::common::heading::dotted_tail_exec(t, b);
    let q = skip_ws_exec(t, g);
    if q < n && n - q > 1 && (t[q] == ':' || t[q] == '：') {
        let c = skip_ws_exec(t, q + 1);
        if c < n {
            return Some(c);
        }
    }
    if q > g && q < n {
        Some(q)
    } else {
        None
    }
}

fn caption_prefix_exec(t: &[char]) -> (r: Option<usize>)
    ensures
        r matches Some(p) ==> caption_prefix(t@) == p && p <= t@.len(),
        r is None ==> caption_prefix(t@) < 0,
{
    let p1 = ['T', 'a', 'b', 'l', 'e', ':'];
    let p2 = ['t', 'a', 'b', 'l', 'e', ':'];
    let p3 = ['T', 'A', 'B', 'L', 'E', ':'];
    let p4 = ['表', ':'];
    let p5 = ['表', '：'];
    let p6 = [':'];
    assert(p1@ =~= seq!['T', 'a', 'b', 'l', 'e', ':']);
    assert(p2@ =~= seq!['t', 'a', 'b', 'l', 'e', ':']);
    assert(p3@ =~= seq!['T', 'A', 'B', 'L', 'E', ':']);
    assert(p4@ =~= seq!['表', ':']);
    assert(p5@ =~= seq!['表', '：']);
    assert(p6@ =~= seq![':']);
    if at(t, 0, &p1) || at(t, 0, &p2) || at(t, 0, &p3) {
        Some(6)
    } else if at(t, 0, &p4) || at(t, 0, &p5) {
        Some(2)
    } else if at(t, 0, &p6) {
        Some(1)
    } else {
        None
    }
}

/// Executable [`caption_marker_spec`].
pub fn caption_marker(line: &[char]) -> (r: Option<(Vec<char>, Option<Vec<char>>)>)
    ensures
        match caption_marker_spec(line@) {
            Some((c, l)) => r matches Some((rc, rl)) && rc@ == c && match l {
                Some(id) => rl matches Some(v) && v@ == id,
                None => rl is None,
            },
            None => r is None,
        },
{
    let t = trim_chars(line);
    if let Some(n) = numbered_caption_start_exec(&t) {
        let rest = trim_chars(&slice_of(&t, n, t.len()));
        let c = strip_caption_number(&rest);
        if c.len() > 0 {
            return Some(strip_label_attr(&c));
        }
    }
    match caption_prefix_exec(&t) {
        Some(p) => {
            let rest = trim_chars(&slice_of(&t, p, t.len()));
            let c = strip_caption_number(&rest);
            if c.len() == 0 {
                None
            } else {
                Some(strip_label_attr(&c))
            }
        },
        None => None,
    }
}

} // verus!
