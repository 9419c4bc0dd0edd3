//! LaTeX escaping of plain text and URLs.
use vstd::prelude::*;
use crate::text::{chars_of, push_char, push_str};

verus! {

/// LaTeX replacement of one character of running text.
pub open spec fn latex_char(c: char) -> Seq<char> {
    if c == '\\' { "\\textbackslash{}"@ }
    else if c == '&' { "\\&"@ }
    else if c == '%' { "\\%"@ }
    else if c == '$' { "\\$"@ }
    else if c == '#' { "\\#"@ }
    else if c == '_' { "\\_"@ }
    else if c == '{' { "\\{"@ }
    else if c == '}' { "\\}"@ }
    else if c == '~' { "\\textasciitilde{}"@ }
    else if c == '^' { "\\textasciicircum{}"@ }
    else { seq![c] }
}

/// LaTeX replacement of one character of a URL in `\href` / `\includegraphics`.
pub open spec fn url_char(c: char) -> Seq<char> {
    if c == '\\' { "\\textbackslash{}"@ }
    else if c == '%' { "\\%"@ }
    else if c == '#' { "\\#"@ }
    else if c == '{' { "\\{"@ }
    else if c == '}' { "\\}"@ }
    else { seq![c] }
}

/// Which of the two escapers.
pub enum Escaper {
    Latex,
    Url,
}

pub open spec fn escape_char(e: Escaper, c: char) -> Seq<char> {
    match e {
        Escaper::Latex => latex_char(c),
        Escaper::Url => url_char(c),
    }
}

/// Character-wise escaping of `t`.
pub open spec fn escaped(e: Escaper, t: Seq<char>) -> Seq<char>
    decreases t.len(),
{
    if t.len() == 0 {
        Seq::empty()
    } else {
        escaped(e, t.drop_last()) + escape_char(e, t.last())
    }
}

pub open spec fn escape_latex_spec(t: Seq<char>) -> Seq<char> {
    escaped(Escaper::Latex, t)
}

pub open spec fn escape_url_spec(t: Seq<char>) -> Seq<char> {
    escaped(Escaper::Url, t)
}

/// Table cells are escaped as running text.
pub open spec fn escape_cell_spec(t: Seq<char>) -> Seq<char> {
    escaped(Escaper::Latex, t)
}

fn push_escaped_char(out: &mut String, e: &Escaper, c: char)
    ensures
        final(out)@ == old(out)@ + escape_char(*e, c),
{
    let ghost o = out@;
    match e {
        Escaper::Latex => {
            if c == '\\' { push_str(out, "\\textbackslash{}") }
            else if c == '&' { push_str(out, "\\&") }
            else if c == '%' { push_str(out, "\\%") }
            else if c == '$' { push_str(out, "\\$") }
            else if c == '#' { push_str(out, "\\#") }
            else if c == '_' { push_str(out, "\\_") }
            else if c == '{' { push_str(out, "\\{") }
            else if c == '}' { push_str(out, "\\}") }
            else if c == '~' { push_str(out, "\\textasciitilde{}") }
            else if c == '^' { push_str(out, "\\textasciicircum{}") }
            else { push_char(out, c); assert(out@ =~= o + seq![c]); }
        },
        Escaper::Url => {
            if c == '\\' { push_str(out, "\\textbackslash{}") }
            else if c == '%' { push_str(out, "\\%") }
            else if c == '#' { push_str(out, "\\#") }
            else if c == '{' { push_str(out, "\\{") }
            else if c == '}' { push_str(out, "\\}") }
            else { push_char(out, c); assert(out@ =~= o + seq![c]); }
        },
    }
}

/// Appends the escaped form of `s`.
pub fn push_escaped(out: &mut String, e: Escaper, s: &str)
    ensures
        final(out)@ == old(out)@ + escaped(e, s@),
{
    let t = chars_of(s);
    let mut i: usize = 0;
    while i < t.len()
        invariant
            i <= t@.len(),
            t@ == s@,
            out@ == old(out)@ + escaped(e, t@.take(i as int)),
        decreases t@.len() - i,
    {
        push_escaped_char(out, &e, t[i]);
        assert(t@.take(i + 1).drop_last() =~= t@.take(i as int));
        i += 1;
        assert(out@ =~= old(out)@ + escaped(e, t@.take(i as int)));
    }
    assert(t@.take(t@.len() as int) =~= t@);
}

/// Escapes the ten LaTeX special characters of running text (character by
/// character, so that the backslash replacement is not escaped again).
pub fn escape_latex(s: &str) -> (r: String)
    ensures
        r@ == escape_latex_spec(s@),
{
    let mut r = String::new();
    push_escaped(&mut r, Escaper::Latex, s);
    assert(r@ =~= escape_latex_spec(s@));
    r
}

/// Escapes the characters of a URL that LaTeX would otherwise interpret.
pub fn escape_href_url(s: &str) -> (r: String)
    ensures
        r@ == escape_url_spec(s@),
{
    let mut r = String::new();
    push_escaped(&mut r, Escaper::Url, s);
    assert(r@ =~= escape_url_spec(s@));
    r
}

/// Escapes the text of a table cell.
pub fn escape_cell(s: &str) -> (r: String)
    ensures
        r@ == escape_cell_spec(s@),
{
    let mut r = String::new();
    push_escaped(&mut r, Escaper::Latex, s);
    assert(r@ =~= escape_cell_spec(s@));
    r
}

/// Escaping works character by character: the escape of a concatenation is
/// the concatenation of the escapes.
pub proof fn lemma_escaped_concat(e: Escaper, a: Seq<char>, b: Seq<char>)
    ensures
        escaped(e, a + b) == escaped(e, a) + escaped(e, b),
    decreases b.len(),
{
    if b.len() == 0 {
        assert(a + b =~= a);
        assert(escaped(e, a) + escaped(e, b) =~= escaped(e, a));
    } else {
        lemma_escaped_concat(e, a, b.drop_last());
        assert((a + b).drop_last() =~= a + b.drop_last());
        assert((a + b).last() == b.last());
        assert(escaped(e, a + b) =~= escaped(e, a) + escaped(e, b));
    }
}

/// Text without special characters comes out of the LaTeX escaper as it is.
pub proof fn lemma_plain_text_unescaped(t: Seq<char>)
    requires
        forall|i: int| 0 <= i < t.len() ==> !(#[trigger] t[i] == '\\' || t[i] == '&' || t[i] == '%' || t[i] == '$'
            || t[i] == '#' || t[i] == '_' || t[i] == '{' || t[i] == '}' || t[i] == '~' || t[i] == '^'),
    ensures
        escape_latex_spec(t) == t,
    decreases t.len(),
{
    if t.len() > 0 {
        lemma_plain_text_unescaped(t.drop_last());
        assert(!(t[t.len() - 1] == '\\'));
        assert(t.drop_last().push(t.last()) =~= t);
        assert(escape_latex_spec(t) =~= t);
    }
}

} // verus!
