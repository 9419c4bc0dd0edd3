//! Quote normalisation: straight quotes become Chinese curly quotes.
use vstd::prelude::*;
use crate::text::{chars_of, push_char};

verus! {

/// Existing curly quotes are first flattened to straight ones.
pub open spec fn straighten(c: char) -> char {
    if c == '\u{201c}' || c == '\u{201d}' {
        '"'
    } else if c == '\u{2018}' || c == '\u{2019}' {
        '\''
    } else {
        c
    }
}

/// Result for `t[i..]` given whether a double / single quote is open:
/// every `"` alternates between `“` and `”`, every `'` between `‘` and `’`,
/// over the whole text (the pairing is not reset at line ends).
pub open spec fn convert_from(t: Seq<char>, i: int, in_double: bool, in_single: bool) -> Seq<char>
    decreases t.len() - i,
{
    if i < 0 || i >= t.len() {
        Seq::empty()
    } else {
        let c = straighten(t[i]);
        if c == '"' {
            seq![if in_double { '\u{201d}' } else { '\u{201c}' }] + convert_from(t, i + 1, !in_double, in_single)
        } else if c == '\'' {
            seq![if in_single { '\u{2019}' } else { '\u{2018}' }] + convert_from(t, i + 1, in_double, !in_single)
        } else {
            seq![c] + convert_from(t, i + 1, in_double, in_single)
        }
    }
}

pub open spec fn convert_quotes_spec(t: Seq<char>) -> Seq<char> {
    convert_from(t, 0, false, false)
}

/// Characters version of [`convert_quotes`].
pub fn convert_quotes_chars(t: &[char]) -> (r: Vec<char>)
    ensures
        r@ == convert_quotes_spec(t@),
{
    let mut out: Vec<char> = Vec::new();
    let mut d = false;
    let mut s = false;
    let mut i: usize = 0;
    while i < t.len()
        invariant
            i <= t@.len(),
            out@ + convert_from(t@, i as int, d, s) == convert_quotes_spec(t@),
        decreases t@.len() - i,
    {
        let ghost before = out@;
        let c0 = t[i];
        let c = if c0 == '\u{201c}' || c0 == '\u{201d}' {
            '"'
        } else if c0 == '\u{2018}' || c0 == '\u{2019}' {
            '\''
        } else {
            c0
        };
        if c == '"' {
            out.push(if d { '\u{201d}' } else { '\u{201c}' });
            d = !d;
        } else if c == '\'' {
            out.push(if s { '\u{2019}' } else { '\u{2018}' });
            s = !s;
        } else {
            out.push(c);
        }
        i += 1;
        assert(out@ + convert_from(t@, i as int, d, s) =~= before + convert_from(t@, (i - 1) as int, if c == '"' { !d } else { d }, if c == '\'' { !s } else { s }));
    }
    assert(out@ + convert_from(t@, i as int, d, s) =~= out@);
    out
}

/// Normalises ASCII and Chinese double / single quotes to Chinese curly
/// quotes: existing curly quotes are flattened first, then quotes alternate
/// opening / closing from left to right over the whole text.
pub fn convert_quotes(text: &str) -> (r: String)
    ensures
        r@ == convert_quotes_spec(text@),
{
    let t = chars_of(text);
    let v = convert_quotes_chars(&t);
    crate::text::string_from_chars(&v)
}

/// Double quotes only, with the pairing reset at every line break.
pub open spec fn per_line_from(t: Seq<char>, i: int, in_quote: bool) -> Seq<char>
    decreases t.len() - i,
{
    if i < 0 || i >= t.len() {
        Seq::empty()
    } else if t[i] == '"' {
        seq![if in_quote { '\u{201d}' } else { '\u{201c}' }] + per_line_from(t, i + 1, !in_quote)
    } else {
        seq![t[i]] + per_line_from(t, i + 1, in_quote && t[i] != '\n')
    }
}

/// Double-quote normalisation that resets the pairing at each line break.
pub fn normalize_quotes_per_line(text: &str) -> (r: String)
    ensures
        r@ == per_line_from(text@, 0, false),
{
    let t = chars_of(text);
    let mut out = String::new();
    let mut q = false;
    let mut i: usize = 0;
    while i < t.len()
        invariant
            i <= t@.len(),
            t@ == text@,
            out@ + per_line_from(t@, i as int, q) == per_line_from(t@, 0, false),
        decreases t@.len() - i,
    {
        let ghost before = out@;
        let ghost q0 = q;
        let c = t[i];
        if c == '"' {
            push_char(&mut out, if q { '\u{201d}' } else { '\u{201c}' });
            q = !q;
        } else {
            push_char(&mut out, c);
            if c == '\n' {
                q = false;
            }
        }
        i += 1;
        assert(out@ + per_line_from(t@, i as int, q) =~= before + per_line_from(t@, (i - 1) as int, q0));
    }
    assert(out@ + per_line_from(t@, i as int, q) =~= out@);
    out
}

/// No straight quote survives the conversion, and the text keeps its
/// length: each character maps to exactly one character.
pub proof fn lemma_no_straight_quotes(t: Seq<char>, i: int, d: bool, s: bool)
    requires
        0 <= i <= t.len(),
    ensures
        convert_from(t, i, d, s).len() == t.len() - i,
        forall|k: int| 0 <= k < convert_from(t, i, d, s).len() ==> #[trigger] convert_from(t, i, d, s)[k] != '"'
            && convert_from(t, i, d, s)[k] != '\'',
    decreases t.len() - i,
{
    if i < t.len() {
        let c = straighten(t[i]);
        if c == '"' {
            lemma_no_straight_quotes(t, i + 1, !d, s);
        } else if c == '\'' {
            lemma_no_straight_quotes(t, i + 1, d, !s);
        } else {
            lemma_no_straight_quotes(t, i + 1, d, s);
        }
        let r = convert_from(t, i, d, s);
        assert forall|k: int| 0 <= k < r.len() implies #[trigger] r[k] != '"' && r[k] != '\'' by {
            if k > 0 {
                if c == '"' {
                    assert(r[k] == convert_from(t, i + 1, !d, s)[k - 1]);
                } else if c == '\'' {
                    assert(r[k] == convert_from(t, i + 1, d, !s)[k - 1]);
                } else {
                    assert(r[k] == convert_from(t, i + 1, d, s)[k - 1]);
                }
            }
        }
    }
}

/// The normalised text holds no straight quote and is as long as the input.
pub proof fn lemma_quotes_normalized(t: Seq<char>)
    ensures
        convert_quotes_spec(t).len() == t.len(),
        forall|k: int| 0 <= k < t.len() ==> #[trigger] convert_quotes_spec(t)[k] != '"'
            && convert_quotes_spec(t)[k] != '\'',
{
    lemma_no_straight_quotes(t, 0, false, false);
}


/// A single quote, straight or curly.
pub open spec fn is_single_quote(c: char) -> bool {
    c == '\'' || c == '\u{2018}' || c == '\u{2019}'
}

/// A double quote, straight or curly.
pub open spec fn is_double_quote(c: char) -> bool {
    c == '"' || c == '\u{201c}' || c == '\u{201d}'
}

/// Number of single quotes in `t[i..k]`.
pub open spec fn singles_between(t: Seq<char>, i: int, k: int) -> nat
    decreases k - i,
{
    if i < 0 || i >= k {
        0
    } else {
        (if is_single_quote(t[i]) { 1nat } else { 0nat }) + singles_between(t, i + 1, k)
    }
}

/// Number of double quotes in `t[i..k]`.
pub open spec fn doubles_between(t: Seq<char>, i: int, k: int) -> nat
    decreases k - i,
{
    if i < 0 || i >= k {
        0
    } else {
        (if is_double_quote(t[i]) { 1nat } else { 0nat }) + doubles_between(t, i + 1, k)
    }
}

proof fn lemma_quote_parity(t: Seq<char>, i: int, k: int, d: bool, s: bool)
    requires
        0 <= i <= k < t.len(),
    ensures
        is_single_quote(t[k]) ==> convert_from(t, i, d, s)[k - i]
            == (if s != (singles_between(t, i, k) % 2 == 1) { '\u{2019}' } else { '\u{2018}' }),
        is_double_quote(t[k]) ==> convert_from(t, i, d, s)[k - i]
            == (if d != (doubles_between(t, i, k) % 2 == 1) { '\u{201d}' } else { '\u{201c}' }),
    decreases k - i,
{
    lemma_no_straight_quotes(t, i, d, s);
    let c = straighten(t[i]);
    if i < k {
        let d2 = if c == '"' { !d } else { d };
        let s2 = if c == '\'' { !s } else { s };
        lemma_quote_parity(t, i + 1, k, d2, s2);
        lemma_no_straight_quotes(t, i + 1, d2, s2);
        assert(convert_from(t, i, d, s)[k - i] == convert_from(t, i + 1, d2, s2)[k - i - 1]);
        assert(singles_between(t, i, k) == (if is_single_quote(t[i]) { 1nat } else { 0nat }) + singles_between(t, i + 1, k));
        assert(doubles_between(t, i, k) == (if is_double_quote(t[i]) { 1nat } else { 0nat }) + doubles_between(t, i + 1, k));
    }
}

/// Single quotes alternate on their own: the single quote at `k` opens (`‘`)
/// when an even number of single quotes comes before it and closes (`’`)
/// otherwise, whatever double quotes stand around it.
pub proof fn lemma_single_quotes_alternate(t: Seq<char>, k: int)
    requires
        0 <= k < t.len(),
        is_single_quote(t[k]),
    ensures
        convert_quotes_spec(t)[k] == (if singles_between(t, 0, k) % 2 == 0 { '\u{2018}' } else { '\u{2019}' }),
{
    lemma_quote_parity(t, 0, k, false, false);
}

/// Double quotes alternate on their own: the double quote at `k` opens (`“`)
/// when an even number of double quotes comes before it and closes (`”`)
/// otherwise, whatever single quotes stand around it.
pub proof fn lemma_double_quotes_alternate(t: Seq<char>, k: int)
    requires
        0 <= k < t.len(),
        is_double_quote(t[k]),
    ensures
        convert_quotes_spec(t)[k] == (if doubles_between(t, 0, k) % 2 == 0 { '\u{201c}' } else { '\u{201d}' }),
{
    lemma_quote_parity(t, 0, k, false, false);
}

} // verus!
