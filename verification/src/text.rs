//! Character-level text utilities shared by the parser and the emitters.
//!
//! Text is handled as sequences of Unicode scalar values (`Seq<char>`); the
//! executable helpers work on `Vec<char>` / `&[char]` and on `String`.
use vstd::prelude::*;
use vstd::string::*;

verus! {

// ---------------------------------------------------------------------------
// Conversions between `str`/`String` and character vectors
// ---------------------------------------------------------------------------

/// The characters of a string slice, in order.
pub fn chars_of(s: &str) -> (v: Vec<char>)
    ensures
        v@ == s@,
{
    let mut v: Vec<char> = Vec::new();
    for c in it: s.chars()
        invariant
            v@ == it.seq().take(it.index() as int),
    {
        v.push(c);
    }
    v
}

/// `String::push`: appends one character; the string's characters are the
/// old ones followed by `c`, as std documents.
#[verifier::external_body]
pub(crate) fn push_char(s: &mut String, c: char)
    ensures
        final(s)@ == old(s)@.push(c),
{
    s.push(c);
}

/// Appends characters to a string.
pub fn push_chars(s: &mut String, v: &[char])
    ensures
        final(s)@ == old(s)@ + v@,
{
    let mut i: usize = 0;
    while i < v.len()
        invariant
            i <= v@.len(),
            s@ == old(s)@ + v@.take(i as int),
        decreases v@.len() - i,
    {
        push_char(s, v[i]);
        i += 1;
        assert(v@.take(i as int) =~= v@.take((i - 1) as int).push(v@[i - 1]));
    }
    assert(v@.take(v@.len() as int) =~= v@);
}

/// Appends a string slice to a string.
pub fn push_str(s: &mut String, t: &str)
    ensures
        final(s)@ == old(s)@ + t@,
{
    s.append(t);
}

/// A string holding exactly the given characters.
pub fn string_from_chars(v: &[char]) -> (s: String)
    ensures
        s@ == v@,
{
    let mut s = String::new();
    push_chars(&mut s, v);
    s
}

/// Copy of `t[lo..hi]`.
pub fn slice_of(t: &[char], lo: usize, hi: usize) -> (r: Vec<char>)
    requires
        lo <= hi <= t@.len(),
    ensures
        r@ == t@.subrange(lo as int, hi as int),
{
    let mut r: Vec<char> = Vec::new();
    let mut i = lo;
    while i < hi
        invariant
            lo <= i <= hi <= t@.len(),
            r@ == t@.subrange(lo as int, i as int),
        decreases hi - i,
    {
        r.push(t[i]);
        i += 1;
        assert(r@ =~= t@.subrange(lo as int, i as int));
    }
    r
}

/// `t[lo..hi]` as a `String`.
pub fn sub_string(t: &[char], lo: usize, hi: usize) -> (s: String)
    requires
        lo <= hi <= t@.len(),
    ensures
        s@ == t@.subrange(lo as int, hi as int),
{
    let v = slice_of(t, lo, hi);
    string_from_chars(&v)
}

/// Whether two character slices are equal.
pub fn chars_eq(a: &[char], b: &[char]) -> (r: bool)
    ensures
        r == (a@ == b@),
{
    if a.len() != b.len() {
        return false;
    }
    let mut i: usize = 0;
    while i < a.len()
        invariant
            a@.len() == b@.len(),
            i <= a@.len(),
            forall|k: int| 0 <= k < i ==> a@[k] == b@[k],
        decreases a@.len() - i,
    {
        if a[i] != b[i] {
            return false;
        }
        i += 1;
    }
    assert(a@ =~= b@);
    true
}

/// Whether `t` holds `lit` at position `i`.
pub open spec fn has_at(t: Seq<char>, i: int, lit: Seq<char>) -> bool {
    0 <= i && i + lit.len() <= t.len() && t.subrange(i, i + lit.len()) == lit
}

/// Whether `t` holds `lit` at position `i`.
pub fn at(t: &[char], i: usize, lit: &[char]) -> (r: bool)
    ensures
        r == has_at(t@, i as int, lit@),
{
    if i > t.len() || lit.len() > t.len() - i {
        return false;
    }
    let mut k: usize = 0;
    while k < lit.len()
        invariant
            i + lit@.len() <= t@.len(),
            t@.len() <= usize::MAX,
            k <= lit@.len(),
            forall|j: int| 0 <= j < k ==> t@[i + j] == lit@[j],
        decreases lit@.len() - k,
    {
        if t[i + k] != lit[k] {
            assert(t@.subrange(i as int, i + lit@.len())[k as int] != lit@[k as int]);
            return false;
        }
        k += 1;
    }
    assert(t@.subrange(i as int, i + lit@.len()) =~= lit@);
    true
}

/// Whether the character occurs in `t`.
pub fn contains_char(t: &[char], c: char) -> (r: bool)
    ensures
        r == t@.contains(c),
{
    let mut i: usize = 0;
    while i < t.len()
        invariant
            i <= t@.len(),
            forall|k: int| 0 <= k < i ==> t@[k] != c,
        decreases t@.len() - i,
    {
        if t[i] == c {
            assert(t@[i as int] == c);
            return true;
        }
        i += 1;
    }
    false
}

// ---------------------------------------------------------------------------
// Whitespace and trimming
// ---------------------------------------------------------------------------

/// Unicode `White_Space` property (what `char::is_whitespace` and the regex
/// class `\s` test).
pub open spec fn is_ws(c: char) -> bool {
    ||| ('\u{9}' <= c && c <= '\u{d}')
    ||| c == ' '
    ||| c == '\u{85}'
    ||| c == '\u{a0}'
    ||| c == '\u{1680}'
    ||| ('\u{2000}' <= c && c <= '\u{200a}')
    ||| c == '\u{2028}'
    ||| c == '\u{2029}'
    ||| c == '\u{202f}'
    ||| c == '\u{205f}'
    ||| c == '\u{3000}'
}

/// Executable [`is_ws`].
pub fn is_whitespace(c: char) -> (r: bool)
    ensures
        r == is_ws(c),
{
    ('\u{9}' <= c && c <= '\u{d}') || c == ' ' || c == '\u{85}' || c == '\u{a0}' || c
        == '\u{1680}' || ('\u{2000}' <= c && c <= '\u{200a}') || c == '\u{2028}' || c
        == '\u{2029}' || c == '\u{202f}' || c == '\u{205f}' || c == '\u{3000}'
}

/// First index at or after `i` that does not hold whitespace.
pub open spec fn skip_ws(t: Seq<char>, i: int) -> int
    decreases t.len() - i,
{
    if 0 <= i < t.len() && is_ws(t[i]) {
        skip_ws(t, i + 1)
    } else {
        i
    }
}

/// Smallest `k <= j` such that `t[k..j]` is all whitespace.
pub open spec fn skip_ws_back(t: Seq<char>, j: int) -> int
    decreases j,
{
    if 0 < j <= t.len() && is_ws(t[j - 1]) {
        skip_ws_back(t, j - 1)
    } else {
        j
    }
}

pub open spec fn trim_start(t: Seq<char>) -> Seq<char> {
    t.subrange(skip_ws(t, 0), t.len() as int)
}

pub open spec fn trim_end(t: Seq<char>) -> Seq<char> {
    t.subrange(0, skip_ws_back(t, t.len() as int))
}

/// `str::trim`: leading and trailing whitespace removed.
pub open spec fn trim(t: Seq<char>) -> Seq<char> {
    trim_end(trim_start(t))
}

pub proof fn lemma_skip_ws_bounds(t: Seq<char>, i: int)
    requires
        0 <= i <= t.len(),
    ensures
        i <= skip_ws(t, i) <= t.len(),
        forall|k: int| i <= k < skip_ws(t, i) ==> is_ws(t[k]),
        skip_ws(t, i) < t.len() ==> !is_ws(t[skip_ws(t, i)]),
    decreases t.len() - i,
{
    if i < t.len() && is_ws(t[i]) {
        lemma_skip_ws_bounds(t, i + 1);
    }
}

pub proof fn lemma_skip_ws_back_bounds(t: Seq<char>, j: int)
    requires
        0 <= j <= t.len(),
    ensures
        0 <= skip_ws_back(t, j) <= j,
        forall|k: int| skip_ws_back(t, j) <= k < j ==> is_ws(t[k]),
        skip_ws_back(t, j) > 0 ==> !is_ws(t[skip_ws_back(t, j) - 1]),
    decreases j,
{
    if 0 < j && is_ws(t[j - 1]) {
        lemma_skip_ws_back_bounds(t, j - 1);
    }
}

/// Executable [`skip_ws`].
pub fn skip_ws_exec(t: &[char], i: usize) -> (r: usize)
    requires
        i <= t@.len(),
    ensures
        r == skip_ws(t@, i as int),
        i <= r <= t@.len(),
{
    let mut k = i;
    while k < t.len() && is_whitespace(t[k])
        invariant
            i <= k <= t@.len(),
            skip_ws(t@, k as int) == skip_ws(t@, i as int),
        decreases t@.len() - k,
    {
        k += 1;
    }
    k
}

/// Executable [`skip_ws_back`].
pub fn skip_ws_back_exec(t: &[char], j: usize) -> (r: usize)
    requires
        j <= t@.len(),
    ensures
        r == skip_ws_back(t@, j as int),
        r <= j,
{
    let mut k = j;
    while k > 0 && is_whitespace(t[k - 1])
        invariant
            k <= j <= t@.len(),
            skip_ws_back(t@, k as int) == skip_ws_back(t@, j as int),
        decreases k,
    {
        k -= 1;
    }
    k
}

/// `str::trim` on characters.
pub fn trim_chars(t: &[char]) -> (r: Vec<char>)
    ensures
        r@ == trim(t@),
{
    let lo = skip_ws_exec(t, 0);
    let s = slice_of(t, lo, t.len());
    let hi = skip_ws_back_exec(&s, s.len());
    slice_of(&s, 0, hi)
}

/// `str::trim_start` on characters.
pub fn trim_start_chars(t: &[char]) -> (r: Vec<char>)
    ensures
        r@ == trim_start(t@),
{
    let lo = skip_ws_exec(t, 0);
    slice_of(t, lo, t.len())
}

/// `str::trim_end` on characters.
pub fn trim_end_chars(t: &[char]) -> (r: Vec<char>)
    ensures
        r@ == trim_end(t@),
{
    let hi = skip_ws_back_exec(t, t.len());
    slice_of(t, 0, hi)
}

/// Whether the text is empty after trimming.
pub open spec fn is_blank(t: Seq<char>) -> bool {
    skip_ws(t, 0) == t.len()
}

pub fn is_blank_exec(t: &[char]) -> (r: bool)
    ensures
        r == is_blank(t@),
{
    skip_ws_exec(t, 0) == t.len()
}

pub proof fn lemma_blank_iff_trim_empty(t: Seq<char>)
    ensures
        is_blank(t) <==> trim(t).len() == 0,
{
    lemma_skip_ws_bounds(t, 0);
    let s = trim_start(t);
    lemma_skip_ws_back_bounds(s, s.len() as int);
    if !is_blank(t) {
        assert(s.len() > 0);
        assert(!is_ws(s[0]));
        if skip_ws_back(s, s.len() as int) == 0 {
            assert(is_ws(s[0]));
        }
    }
}

// ---------------------------------------------------------------------------
// Scanning for a character
// ---------------------------------------------------------------------------

/// First index at or after `i` holding `c`, or `t.len()` when there is none.
pub open spec fn find_char(t: Seq<char>, i: int, c: char) -> int
    decreases t.len() - i,
{
    if i < 0 || i >= t.len() {
        t.len() as int
    } else if t[i] == c {
        i
    } else {
        find_char(t, i + 1, c)
    }
}

pub proof fn lemma_find_char(t: Seq<char>, i: int, c: char)
    requires
        0 <= i <= t.len(),
    ensures
        i <= find_char(t, i, c) <= t.len(),
        forall|k: int| i <= k < find_char(t, i, c) ==> t[k] != c,
        find_char(t, i, c) < t.len() ==> t[find_char(t, i, c)] == c,
    decreases t.len() - i,
{
    if i < t.len() && t[i] != c {
        lemma_find_char(t, i + 1, c);
    }
}

/// Executable [`find_char`].
pub fn find_char_exec(t: &[char], i: usize, c: char) -> (r: usize)
    requires
        i <= t@.len(),
    ensures
        r == find_char(t@, i as int, c),
        i <= r <= t@.len(),
{
    let mut k = i;
    while k < t.len() && t[k] != c
        invariant
            i <= k <= t@.len(),
            find_char(t@, k as int, c) == find_char(t@, i as int, c),
        decreases t@.len() - k,
    {
        k += 1;
    }
    k
}

// ---------------------------------------------------------------------------
// Lines
// ---------------------------------------------------------------------------

/// A line without its terminating `\n` loses one trailing `\r` as well.
pub open spec fn strip_cr(l: Seq<char>) -> Seq<char> {
    if l.len() > 0 && l.last() == '\r' {
        l.drop_last()
    } else {
        l
    }
}

/// `str::lines`: split at `\n` (a `\r` right before it goes too); a final
/// line terminator does not start an extra empty line.
pub open spec fn lines(t: Seq<char>) -> Seq<Seq<char>>
    decreases t.len(),
{
    if t.len() == 0 {
        Seq::empty()
    } else {
        let k = find_char(t, 0, '\n');
        proof {
            lemma_find_char(t, 0, '\n');
        }
        if k >= t.len() {
            seq![t]
        } else {
            seq![strip_cr(t.subrange(0, k))] + lines(t.subrange(k + 1, t.len() as int))
        }
    }
}

/// Executable [`lines`].
pub fn lines_of(t: &[char]) -> (r: Vec<Vec<char>>)
    ensures
        r@.len() == lines(t@).len(),
        forall|k: int| 0 <= k < r@.len() ==> #[trigger] r@[k]@ == lines(t@)[k],
{
    let mut out: Vec<Vec<char>> = Vec::new();
    let mut start: usize = 0;
    assert(t@.subrange(0, t@.len() as int) =~= t@);
    assert(out@.map_values(|l: Vec<char>| l@) =~= Seq::<Seq<char>>::empty());
    while start < t.len()
        invariant
            start <= t@.len(),
            lines(t@) == out@.map_values(|l: Vec<char>| l@) + lines(t@.subrange(start as int, t@.len() as int)),
        decreases t@.len() - start,
    {
        let ghost rest = t@.subrange(start as int, t@.len() as int);
        let k = find_char_exec(t, start, '\n');
        proof {
            lemma_find_char(t@, start as int, '\n');
            lemma_find_char(rest, 0, '\n');
            assert forall|j: int| 0 <= j < rest.len() implies rest[j] == t@[start + j] by {}
            lemma_find_char_shift(t@, start as int, '\n');
        }
        if k >= t.len() {
            let line = slice_of(t, start, t.len());
            let ghost before = out@.map_values(|l: Vec<char>| l@);
            out.push(line);
            assert(out@.map_values(|l: Vec<char>| l@) =~= before.push(rest));
            assert(lines(t@.subrange(t@.len() as int, t@.len() as int)) =~= Seq::<Seq<char>>::empty());
            start = t.len();
            assert(lines(t@) =~= out@.map_values(|l: Vec<char>| l@) + lines(t@.subrange(start as int, t@.len() as int)));
        } else {
            let mut hi = k;
            if hi > start && t[hi - 1] == '\r' {
                hi = hi - 1;
            }
            let line = slice_of(t, start, hi);
            let ghost before = out@.map_values(|l: Vec<char>| l@);
            out.push(line);
            proof {
                let piece = rest.subrange(0, (k - start) as int);
                assert(piece =~= t@.subrange(start as int, k as int));
                assert(strip_cr(piece) =~= line@);
                assert(rest.subrange((k - start) + 1, rest.len() as int) =~= t@.subrange(k + 1, t@.len() as int));
                assert(out@.map_values(|l: Vec<char>| l@) =~= before.push(line@));
            }
            start = k + 1;
            assert(lines(t@) =~= out@.map_values(|l: Vec<char>| l@) + lines(t@.subrange(start as int, t@.len() as int)));
        }
    }
    assert(lines(t@.subrange(start as int, t@.len() as int)) =~= Seq::<Seq<char>>::empty());
    assert(lines(t@) =~= out@.map_values(|l: Vec<char>| l@));
    out
}

/// Searching a suffix finds the same occurrence, shifted.
pub proof fn lemma_find_char_shift(t: Seq<char>, s: int, c: char)
    requires
        0 <= s <= t.len(),
    ensures
        find_char(t.subrange(s, t.len() as int), 0, c) == find_char(t, s, c) - s,
{
    let r = t.subrange(s, t.len() as int);
    lemma_find_char(t, s, c);
    lemma_find_char(r, 0, c);
    let a = find_char(t, s, c);
    let b = find_char(r, 0, c);
    if b + s < a {
        assert(r[b] == t[s + b]);
    } else if b + s > a {
        assert(r[a - s] == t[a]);
    }
}

// ---------------------------------------------------------------------------
// Decimal numbers
// ---------------------------------------------------------------------------

pub open spec fn digit_char(d: nat) -> char {
    if d == 0 { '0' }
    else if d == 1 { '1' }
    else if d == 2 { '2' }
    else if d == 3 { '3' }
    else if d == 4 { '4' }
    else if d == 5 { '5' }
    else if d == 6 { '6' }
    else if d == 7 { '7' }
    else if d == 8 { '8' }
    else { '9' }
}

/// Decimal notation of a natural number (what `to_string` gives).
pub open spec fn decimal(n: nat) -> Seq<char>
    decreases n,
{
    if n < 10 {
        seq![digit_char(n)]
    } else {
        decimal(n / 10).push(digit_char(n % 10))
    }
}

pub(crate) fn digit_exec(d: usize) -> (c: char)
    requires
        d < 10,
    ensures
        c == digit_char(d as nat),
{
    if d == 0 { '0' }
    else if d == 1 { '1' }
    else if d == 2 { '2' }
    else if d == 3 { '3' }
    else if d == 4 { '4' }
    else if d == 5 { '5' }
    else if d == 6 { '6' }
    else if d == 7 { '7' }
    else if d == 8 { '8' }
    else { '9' }
}

/// Decimal characters of `n`.
pub fn decimal_chars(n: usize) -> (r: Vec<char>)
    ensures
        r@ == decimal(n as nat),
    decreases n,
{
    if n < 10 {
        let mut v: Vec<char> = Vec::new();
        v.push(digit_exec(n));
        assert(v@ =~= decimal(n as nat));
        v
    } else {
        let mut v = decimal_chars(n / 10);
        v.push(digit_exec(n % 10));
        v
    }
}

/// Decimal notation of `n` as a `String`.
pub fn decimal_string(n: usize) -> (s: String)
    ensures
        s@ == decimal(n as nat),
{
    let v = decimal_chars(n);
    string_from_chars(&v)
}

/// Appends the decimal notation of `n`.
pub fn push_decimal(s: &mut String, n: usize)
    ensures
        final(s)@ == old(s)@ + decimal(n as nat),
{
    let v = decimal_chars(n);
    push_chars(s, &v);
}

// ---------------------------------------------------------------------------
// Joining lines
// ---------------------------------------------------------------------------

/// The lines joined with `\n` between them.
pub open spec fn join_lines(ls: Seq<Seq<char>>) -> Seq<char>
    decreases ls.len(),
{
    if ls.len() == 0 {
        Seq::empty()
    } else if ls.len() == 1 {
        ls[0]
    } else {
        join_lines(ls.drop_last()) + seq!['\n'] + ls.last()
    }
}

/// Executable [`join_lines`] over the lines `lo..hi`.
pub fn join_range(ls: &Vec<Vec<char>>, lo: usize, hi: usize) -> (s: String)
    requires
        lo <= hi <= ls@.len(),
    ensures
        s@ == join_lines(ls@.subrange(lo as int, hi as int).map_values(|l: Vec<char>| l@)),
{
    let mut s = String::new();
    let mut k = lo;
    assert(ls@.subrange(lo as int, lo as int).map_values(|l: Vec<char>| l@) =~= Seq::<Seq<char>>::empty());
    while k < hi
        invariant
            lo <= k <= hi <= ls@.len(),
            s@ == join_lines(ls@.subrange(lo as int, k as int).map_values(|l: Vec<char>| l@)),
        decreases hi - k,
    {
        let ghost prev = ls@.subrange(lo as int, k as int).map_values(|l: Vec<char>| l@);
        if k > lo {
            push_char(&mut s, '\n');
        }
        push_chars(&mut s, ls[k].as_slice());
        k += 1;
        proof {
            let cur = ls@.subrange(lo as int, k as int).map_values(|l: Vec<char>| l@);
            assert(cur.drop_last() =~= prev);
            assert(cur.last() == ls@[k - 1]@);
            if k - 1 == lo {
                assert(cur.len() == 1);
                assert(s@ =~= cur[0]);
            } else {
                assert(s@ =~= join_lines(prev) + seq!['\n'] + cur.last());
            }
        }
    }
    s
}

/// The pieces joined with `sep` between them.
pub open spec fn join_with(ls: Seq<Seq<char>>, sep: Seq<char>) -> Seq<char>
    decreases ls.len(),
{
    if ls.len() == 0 {
        Seq::empty()
    } else if ls.len() == 1 {
        ls[0]
    } else {
        join_with(ls.drop_last(), sep) + sep + ls.last()
    }
}

pub open spec fn string_views(v: Seq<String>) -> Seq<Seq<char>> {
    v.map_values(|x: String| x@)
}

/// Appends the strings joined with `sep`.
pub fn push_joined(out: &mut String, parts: &[String], sep: &str)
    ensures
        final(out)@ == old(out)@ + join_with(string_views(parts@), sep@),
{
    let ghost pv = string_views(parts@);
    let mut k: usize = 0;
    assert(pv.take(0) =~= Seq::<Seq<char>>::empty());
    assert(old(out)@ + join_with(pv.take(0), sep@) =~= old(out)@);
    while k < parts.len()
        invariant
            k <= parts@.len(),
            pv == string_views(parts@),
            out@ == old(out)@ + join_with(pv.take(k as int), sep@),
        decreases parts@.len() - k,
    {
        let ghost prev = out@;
        if k > 0 {
            push_str(out, sep);
        }
        push_str(out, parts[k].as_str());
        proof {
            let cur = pv.take(k + 1);
            assert(cur.drop_last() =~= pv.take(k as int));
            assert(cur.last() == parts@[k as int]@);
            if k == 0 {
                assert(cur.len() == 1);
            }
        }
        k += 1;
        assert(out@ =~= old(out)@ + join_with(pv.take(k as int), sep@));
    }
    assert(pv.take(parts@.len() as int) =~= pv);
}

// ---------------------------------------------------------------------------
// Substring replacement
// ---------------------------------------------------------------------------

/// `str::replace` with a non-empty pattern: occurrences taken from the left,
/// without overlap.
pub open spec fn replace_spec(h: Seq<char>, p: Seq<char>, r: Seq<char>) -> Seq<char>
    decreases h.len(),
{
    if p.len() == 0 || h.len() < p.len() {
        h
    } else if has_at(h, 0, p) {
        r + replace_spec(h.subrange(p.len() as int, h.len() as int), p, r)
    } else {
        seq![h[0]] + replace_spec(h.drop_first(), p, r)
    }
}

/// Replaces every occurrence of `pat` (non-empty) by `rep`.
pub fn replace_all_lit(hay: &str, pat: &str, rep: &str) -> (s: String)
    requires
        pat@.len() > 0,
    ensures
        s@ == replace_spec(hay@, pat@, rep@),
{
    let h = chars_of(hay);
    let p = chars_of(pat);
    let mut out = String::new();
    let mut i: usize = 0;
    assert(h@.subrange(0, h@.len() as int) =~= h@);
    while i < h.len()
        invariant
            i <= h@.len(),
            h@ == hay@,
            p@ == pat@,
            p@.len() > 0,
            out@ + replace_spec(h@.subrange(i as int, h@.len() as int), p@, rep@) == replace_spec(hay@, pat@, rep@),
        decreases h@.len() - i,
    {
        let ghost rest = h@.subrange(i as int, h@.len() as int);
        if h.len() - i >= p.len() && at(&h, i, &p) {
            assert(rest.subrange(0, p@.len() as int) =~= h@.subrange(i as int, i + p@.len()));
            assert(has_at(rest, 0, p@));
            assert(rest.subrange(p@.len() as int, rest.len() as int) =~= h@.subrange(i + p@.len(), h@.len() as int));
            let ghost o = out@;
            push_str(&mut out, rep);
            assert(out@ + replace_spec(h@.subrange(i + p@.len(), h@.len() as int), p@, rep@)
                =~= o + replace_spec(rest, p@, rep@));
            i = i + p.len();
        } else {
            let ghost o = out@;
            push_char(&mut out, h[i]);
            proof {
                assert(rest.drop_first() =~= h@.subrange(i + 1, h@.len() as int));
                if rest.len() >= p@.len() {
                    assert(rest.subrange(0, p@.len() as int) =~= h@.subrange(i as int, i + p@.len()));
                    assert(!has_at(rest, 0, p@));
                    assert(out@ + replace_spec(h@.subrange(i + 1, h@.len() as int), p@, rep@)
                        =~= o + replace_spec(rest, p@, rep@));
                } else {
                    assert(replace_spec(rest, p@, rep@) == rest);
                    assert(replace_spec(h@.subrange(i + 1, h@.len() as int), p@, rep@) == h@.subrange(i + 1, h@.len() as int));
                    assert(out@ + replace_spec(h@.subrange(i + 1, h@.len() as int), p@, rep@)
                        =~= o + replace_spec(rest, p@, rep@));
                }
            }
            i = i + 1;
        }
    }
    assert(replace_spec(h@.subrange(h@.len() as int, h@.len() as int), p@, rep@) =~= Seq::<char>::empty());
    assert(out@ =~= replace_spec(hay@, pat@, rep@));
    out
}

// ---------------------------------------------------------------------------
// Unsigned numbers
// ---------------------------------------------------------------------------

/// Value of a run of ASCII digits.
pub open spec fn digits_value(d: Seq<char>) -> nat
    decreases d.len(),
{
    if d.len() == 0 {
        0
    } else {
        digits_value(d.drop_last()) * 10 + ((d.last() as u32) - 48) as nat
    }
}

pub open spec fn all_ascii_digits(d: Seq<char>) -> bool {
    forall|i: int| 0 <= i < d.len() ==> '0' <= #[trigger] d[i] <= '9'
}

/// `u32::from_str`: an optional `+`, then one or more ASCII digits, the
/// value at most `u32::MAX`.
pub open spec fn parse_u32_spec(t: Seq<char>) -> Option<u32> {
    let d = if t.len() > 0 && t[0] == '+' { t.drop_first() } else { t };
    if d.len() > 0 && all_ascii_digits(d) && digits_value(d) <= u32::MAX {
        Some(digits_value(d) as u32)
    } else {
        None
    }
}

/// Parses a decimal `u32` as `str::parse::<u32>` does.
pub fn parse_u32(t: &[char]) -> (r: Option<u32>)
    ensures
        r == parse_u32_spec(t@),
{
    let start: usize = if t.len() > 0 && t[0] == '+' { 1 } else { 0 };
    let ghost d = if t@.len() > 0 && t@[0] == '+' { t@.drop_first() } else { t@ };
    assert(d =~= t@.subrange(start as int, t@.len() as int));
    if start >= t.len() {
        return None;
    }
    let mut v: u64 = 0;
    let mut i: usize = start;
    while i < t.len()
        invariant
            start <= i <= t@.len(),
            d == t@.subrange(start as int, t@.len() as int),
            d == (if t@.len() > 0 && t@[0] == '+' { t@.drop_first() } else { t@ }),
            all_ascii_digits(t@.subrange(start as int, i as int)),
            v == digits_value(t@.subrange(start as int, i as int)),
            v <= u32::MAX,
        decreases t@.len() - i,
    {
        let c = t[i];
        let ghost pre = t@.subrange(start as int, i as int);
        assert(t@.subrange(start as int, i + 1).drop_last() =~= pre);
        if !('0' <= c && c <= '9') {
            assert(d[(i - start) as int] == c);
            assert(!('0' <= d[(i - start) as int] <= '9'));
            assert(!all_ascii_digits(d));
            return None;
        }
        let nv = v * 10 + ((c as u32) - 48) as u64;
        assert(t@.subrange(start as int, i + 1).last() == c);
        assert(digits_value(t@.subrange(start as int, i + 1)) == nv);
        if nv > 4294967295 {
            proof {
                lemma_digits_value_grows(d, (i + 1 - start) as int);
                assert(d.take((i + 1 - start) as int) =~= t@.subrange(start as int, i + 1));
            }
            return None;
        }
        v = nv;
        i += 1;
    }
    assert(t@.subrange(start as int, t@.len() as int) == d);
    Some(v as u32)
}

/// A prefix of a digit run is worth no more than the whole run.
pub proof fn lemma_digits_value_grows(d: Seq<char>, k: int)
    requires
        0 <= k <= d.len(),
    ensures
        digits_value(d.take(k)) <= digits_value(d) || !all_ascii_digits(d),
    decreases d.len() - k,
{
    if k < d.len() {
        lemma_digits_value_grows(d, k + 1);
        assert(d.take(k + 1).drop_last() =~= d.take(k));
        if all_ascii_digits(d) {
            assert('0' <= d[k] <= '9');
        }
    } else {
        assert(d.take(k) =~= d);
    }
}

proof fn lemma_digit_char_value(d: nat)
    requires
        d < 10,
    ensures
        '0' <= digit_char(d) <= '9',
        ((digit_char(d) as u32) - 48) as nat == d,
{
}

/// Decimal notation is made of ASCII digits and reads back as the number.
pub proof fn lemma_decimal_digits(n: nat)
    ensures
        decimal(n).len() > 0,
        all_ascii_digits(decimal(n)),
        digits_value(decimal(n)) == n,
    decreases n,
{
    if n < 10 {
        lemma_digit_char_value(n);
        assert(decimal(n).drop_last() =~= Seq::<char>::empty());
        assert(decimal(n).last() == digit_char(n));
        assert(digits_value(decimal(n)) == digits_value(Seq::<char>::empty()) * 10 + ((digit_char(n) as u32) - 48) as nat);
    } else {
        lemma_decimal_digits(n / 10);
        lemma_digit_char_value(n % 10);
        let d = decimal(n);
        assert(d.drop_last() =~= decimal(n / 10));
        assert(d.last() == digit_char(n % 10));
        assert((n / 10) * 10 + n % 10 == n) by (nonlinear_arith);
        assert(digits_value(d) == digits_value(decimal(n / 10)) * 10 + ((digit_char(n % 10) as u32) - 48) as nat);
        assert(digits_value(d) == (n / 10) * 10 + n % 10);
        assert forall|i: int| 0 <= i < d.len() implies '0' <= #[trigger] d[i] <= '9' by {
            if i < d.len() - 1 {
                assert(d[i] == decimal(n / 10)[i]);
            }
        }
    }
}

/// Printing a `u32` in decimal and parsing it back gives the number.
pub proof fn lemma_parse_decimal_roundtrip(n: u32)
    ensures
        parse_u32_spec(decimal(n as nat)) == Some(n),
{
    lemma_decimal_digits(n as nat);
    let d = decimal(n as nat);
    assert('0' <= d[0] <= '9');
}

} // verus!
