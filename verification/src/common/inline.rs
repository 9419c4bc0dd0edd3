//! Inline formatting: splitting one line of text into a sequence of [`Inline`]s.
//!
//! Recognised constructs: `**bold**`, `*italic*`, `` `code` ``, `[text](url)`,
//! `![alt](path)` (optionally followed by a `{#id}` anchor), `{@id}` cross
//! references, Pandoc citations `[@a; @b]` and inline footnotes
//! `[^id]:(note)` / `[^id]：（note）`.
//!
//! Footnotes are cut out first (their content is kept verbatim and cannot be
//! wrapped in emphasis); the remaining text is scanned left to right, and at
//! each position the constructs are tried in the order code, link/image,
//! bold, italic, cross reference, citation. The leftmost construct wins and
//! the text inside emphasis is parsed again recursively.
use vstd::prelude::*;
use crate::charclass::{is_ascii_alpha, is_word, word};
use crate::common::ast::{
    Inline, SInline, inline_view, inlines_view, lemma_inlines_view_push, strings_view,
};
use crate::text::{
    find_char, find_char_exec, is_ws, is_whitespace, lemma_find_char, lemma_skip_ws_bounds,
    push_char, push_chars, push_str, skip_ws, skip_ws_exec, slice_of, sub_string, chars_of,
};

verus! {

// ---------------------------------------------------------------------------
// Character classes and runs
// ---------------------------------------------------------------------------

/// `t[i] == c` (false out of range).
pub open spec fn char_is(t: Seq<char>, i: int, c: char) -> bool {
    0 <= i < t.len() && t[i] == c
}

pub fn char_is_exec(t: &[char], i: usize, c: char) -> (r: bool)
    ensures
        r == char_is(t@, i as int, c),
{
    i < t.len() && t[i] == c
}

/// Characters allowed after the first letter of an anchor id: `[\w:.-]`.
pub open spec fn is_label_char(c: char) -> bool {
    is_word(c) || c == ':' || c == '.' || c == '-'
}

/// Characters of a citation key: `[^\s@;,\[\]{}\\]`.
pub open spec fn is_key_char(c: char) -> bool {
    !is_ws(c) && c != '@' && c != ';' && c != ',' && c != '[' && c != ']' && c != '{' && c
        != '}' && c != '\\'
}

/// End of the run of anchor-id characters starting at `i`.
pub open spec fn label_run(t: Seq<char>, i: int) -> int
    decreases t.len() - i,
{
    if 0 <= i < t.len() && is_label_char(t[i]) {
        label_run(t, i + 1)
    } else {
        i
    }
}

/// End of the run of citation-key characters starting at `i`.
pub open spec fn key_run(t: Seq<char>, i: int) -> int
    decreases t.len() - i,
{
    if 0 <= i < t.len() && is_key_char(t[i]) {
        key_run(t, i + 1)
    } else {
        i
    }
}

pub proof fn lemma_label_run(t: Seq<char>, i: int)
    requires
        0 <= i <= t.len(),
    ensures
        i <= label_run(t, i) <= t.len(),
    decreases t.len() - i,
{
    if i < t.len() && is_label_char(t[i]) {
        lemma_label_run(t, i + 1);
    }
}

pub proof fn lemma_key_run(t: Seq<char>, i: int)
    requires
        0 <= i <= t.len(),
    ensures
        i <= key_run(t, i) <= t.len(),
    decreases t.len() - i,
{
    if i < t.len() && is_key_char(t[i]) {
        lemma_key_run(t, i + 1);
    }
}

fn label_char_exec(c: char) -> (r: bool)
    ensures
        r == is_label_char(c),
{
    c == ':' || c == '.' || c == '-' || word(c)
}

fn key_char_exec(c: char) -> (r: bool)
    ensures
        r == is_key_char(c),
{
    !is_whitespace(c) && c != '@' && c != ';' && c != ',' && c != '[' && c != ']' && c != '{'
        && c != '}' && c != '\\'
}

fn label_run_exec(t: &[char], i: usize) -> (r: usize)
    requires
        i <= t@.len(),
    ensures
        r == label_run(t@, i as int),
        i <= r <= t@.len(),
{
    let mut k = i;
    while k < t.len() && label_char_exec(t[k])
        invariant
            i <= k <= t@.len(),
            label_run(t@, k as int) == label_run(t@, i as int),
        decreases t@.len() - k,
    {
        k += 1;
    }
    k
}

fn key_run_exec(t: &[char], i: usize) -> (r: usize)
    requires
        i <= t@.len(),
    ensures
        r == key_run(t@, i as int),
        i <= r <= t@.len(),
{
    let mut k = i;
    while k < t.len() && key_char_exec(t[k])
        invariant
            i <= k <= t@.len(),
            key_run(t@, k as int) == key_run(t@, i as int),
        decreases t@.len() - k,
    {
        k += 1;
    }
    k
}

// ---------------------------------------------------------------------------
// Matchers: each gives the end of the construct starting at `p`, or -1
// ---------------------------------------------------------------------------

/// `` `[^`]+` ``
pub open spec fn code_at(t: Seq<char>, p: int) -> int {
    if char_is(t, p, '`') {
        let q = find_char(t, p + 1, '`');
        if q < t.len() && q > p + 1 {
            q + 1
        } else {
            -1
        }
    } else {
        -1
    }
}

/// Position of the `[` of a link or image starting at `p`.
pub open spec fn link_open(t: Seq<char>, p: int) -> int {
    if char_is(t, p, '!') {
        p + 1
    } else {
        p
    }
}

/// Position of the `]` closing the text of a link or image starting at `p`.
pub open spec fn link_close(t: Seq<char>, p: int) -> int {
    find_char(t, link_open(t, p) + 1, ']')
}

/// `!?\[[^\]]*\]\([^)]+\)`
pub open spec fn link_at(t: Seq<char>, p: int) -> int {
    let b = link_open(t, p);
    if char_is(t, b, '[') {
        let c = link_close(t, p);
        if char_is(t, c + 1, '(') {
            let d = find_char(t, c + 2, ')');
            if d < t.len() && d > c + 2 {
                d + 1
            } else {
                -1
            }
        } else {
            -1
        }
    } else {
        -1
    }
}

/// `\*\*[^*]+\*\*`
pub open spec fn bold_at(t: Seq<char>, p: int) -> int {
    if char_is(t, p, '*') && char_is(t, p + 1, '*') {
        let q = find_char(t, p + 2, '*');
        if q > p + 2 && char_is(t, q + 1, '*') {
            q + 2
        } else {
            -1
        }
    } else {
        -1
    }
}

/// `\*[^*]+\*`
pub open spec fn italic_at(t: Seq<char>, p: int) -> int {
    if char_is(t, p, '*') {
        let q = find_char(t, p + 1, '*');
        if q < t.len() && q > p + 1 {
            q + 1
        } else {
            -1
        }
    } else {
        -1
    }
}

/// `\{@[A-Za-z][\w:.-]*\}`
pub open spec fn crossref_at(t: Seq<char>, p: int) -> int {
    if char_is(t, p, '{') && char_is(t, p + 1, '@') && p + 2 < t.len() && is_ascii_alpha(
        t[p + 2],
    ) {
        let e = label_run(t, p + 3);
        if char_is(t, e, '}') {
            e + 1
        } else {
            -1
        }
    } else {
        -1
    }
}

/// The further keys of a citation: repeated `\s*;\s*@KEY` groups starting at
/// `i`; gives the position after the last complete group.
pub open spec fn cite_tail(t: Seq<char>, i: int) -> int
    decreases t.len() - i,
{
    if i < 0 || i > t.len() {
        i
    } else {
        let w1 = skip_ws(t, i);
        proof {
            lemma_skip_ws_bounds(t, i);
        }
        if char_is(t, w1, ';') {
            let w2 = skip_ws(t, w1 + 1);
            proof {
                lemma_skip_ws_bounds(t, w1 + 1);
            }
            if char_is(t, w2, '@') {
                let k = key_run(t, w2 + 1);
                proof {
                    lemma_key_run(t, w2 + 1);
                }
                if k > w2 + 1 {
                    cite_tail(t, k)
                } else {
                    i
                }
            } else {
                i
            }
        } else {
            i
        }
    }
}

/// Keys of the groups matched by [`cite_tail`].
pub open spec fn tail_keys(t: Seq<char>, i: int) -> Seq<Seq<char>>
    decreases t.len() - i,
{
    if i < 0 || i > t.len() {
        Seq::empty()
    } else {
        let w1 = skip_ws(t, i);
        proof {
            lemma_skip_ws_bounds(t, i);
        }
        if char_is(t, w1, ';') {
            let w2 = skip_ws(t, w1 + 1);
            proof {
                lemma_skip_ws_bounds(t, w1 + 1);
            }
            if char_is(t, w2, '@') {
                let k = key_run(t, w2 + 1);
                proof {
                    lemma_key_run(t, w2 + 1);
                }
                if k > w2 + 1 {
                    seq![t.subrange(w2 + 1, k)] + tail_keys(t, k)
                } else {
                    Seq::empty()
                }
            } else {
                Seq::empty()
            }
        } else {
            Seq::empty()
        }
    }
}

/// `\[(?:@KEY)(?:\s*;\s*@KEY)*\]` where KEY is `[^\s@;,\[\]{}\\]+`.
pub open spec fn cite_at(t: Seq<char>, p: int) -> int {
    if char_is(t, p, '[') && char_is(t, p + 1, '@') {
        let e1 = key_run(t, p + 2);
        if e1 > p + 2 {
            let e = cite_tail(t, e1);
            if char_is(t, e, ']') {
                e + 1
            } else {
                -1
            }
        } else {
            -1
        }
    } else {
        -1
    }
}

/// Keys of the citation starting at `p`.
pub open spec fn cite_keys(t: Seq<char>, p: int) -> Seq<Seq<char>> {
    let e1 = key_run(t, p + 2);
    seq![t.subrange(p + 2, e1)] + tail_keys(t, e1)
}

/// End of the inline construct starting at `p` (-1 when none starts there).
pub open spec fn inline_end(t: Seq<char>, p: int) -> int {
    if code_at(t, p) >= 0 {
        code_at(t, p)
    } else if link_at(t, p) >= 0 {
        link_at(t, p)
    } else if bold_at(t, p) >= 0 {
        bold_at(t, p)
    } else if italic_at(t, p) >= 0 {
        italic_at(t, p)
    } else if crossref_at(t, p) >= 0 {
        crossref_at(t, p)
    } else {
        cite_at(t, p)
    }
}

/// Which construct starts at `p`: 0 code, 1 link/image, 2 bold, 3 italic,
/// 4 cross reference, 5 citation.
pub open spec fn inline_kind(t: Seq<char>, p: int) -> int {
    if code_at(t, p) >= 0 {
        0
    } else if link_at(t, p) >= 0 {
        1
    } else if bold_at(t, p) >= 0 {
        2
    } else if italic_at(t, p) >= 0 {
        3
    } else if crossref_at(t, p) >= 0 {
        4
    } else {
        5
    }
}

/// Leftmost position at or after `pos` where a construct starts (`t.len()` if none).
pub open spec fn next_inline(t: Seq<char>, pos: int) -> int
    decreases t.len() - pos,
{
    if pos < 0 || pos >= t.len() {
        t.len() as int
    } else if inline_end(t, pos) >= 0 {
        pos
    } else {
        next_inline(t, pos + 1)
    }
}

/// `\{#([A-Za-z][\w:.-]*)\}` right at `e`: end of the anchor, or -1.
pub open spec fn label_attr_end(t: Seq<char>, e: int) -> int {
    if char_is(t, e, '{') && char_is(t, e + 1, '#') && e + 2 < t.len() && is_ascii_alpha(t[e + 2]) {
        let r = label_run(t, e + 3);
        if char_is(t, r, '}') {
            r + 1
        } else {
            -1
        }
    } else {
        -1
    }
}

/// Where scanning resumes after the construct `t[s..e]` of the given kind: an
/// image also swallows an anchor right behind it.
pub open spec fn resume_at(t: Seq<char>, s: int, e: int, kind: int) -> int {
    if kind == 1 && char_is(t, s, '!') && label_attr_end(t, e) >= 0 {
        label_attr_end(t, e)
    } else {
        e
    }
}

/// `[^id]:(note)` / `[^id]：（note）` at `p`: end of the footnote, or -1.
pub open spec fn footnote_at(t: Seq<char>, p: int) -> int {
    if char_is(t, p, '[') && char_is(t, p + 1, '^') {
        let c = find_char(t, p + 2, ']');
        if c > p + 2 && c < t.len() && (char_is(t, c + 1, ':') || char_is(t, c + 1, '：')) {
            if char_is(t, c + 2, '(') {
                let d = find_char(t, c + 3, ')');
                if d < t.len() {
                    d + 1
                } else {
                    -1
                }
            } else if char_is(t, c + 2, '（') {
                let d = find_char(t, c + 3, '）');
                if d < t.len() {
                    d + 1
                } else {
                    -1
                }
            } else {
                -1
            }
        } else {
            -1
        }
    } else {
        -1
    }
}

/// Text of the footnote `t[p..e]`.
pub open spec fn footnote_text(t: Seq<char>, p: int, e: int) -> Seq<char> {
    t.subrange(find_char(t, p + 2, ']') + 3, e - 1)
}

/// Leftmost footnote start at or after `pos` (`t.len()` if none).
pub open spec fn next_footnote(t: Seq<char>, pos: int) -> int
    decreases t.len() - pos,
{
    if pos < 0 || pos >= t.len() {
        t.len() as int
    } else if footnote_at(t, pos) >= 0 {
        pos
    } else {
        next_footnote(t, pos + 1)
    }
}

// ---------------------------------------------------------------------------
// Bounds of the matchers
// ---------------------------------------------------------------------------

pub proof fn lemma_cite_tail(t: Seq<char>, i: int)
    requires
        0 <= i <= t.len(),
    ensures
        i <= cite_tail(t, i) <= t.len(),
    decreases t.len() - i,
{
    lemma_skip_ws_bounds(t, i);
    let w1 = skip_ws(t, i);
    if char_is(t, w1, ';') {
        lemma_skip_ws_bounds(t, w1 + 1);
        let w2 = skip_ws(t, w1 + 1);
        if char_is(t, w2, '@') {
            lemma_key_run(t, w2 + 1);
            let k = key_run(t, w2 + 1);
            if k > w2 + 1 {
                lemma_cite_tail(t, k);
            }
        }
    }
}

pub proof fn lemma_inline_end(t: Seq<char>, p: int)
    requires
        0 <= p < t.len(),
    ensures
        inline_end(t, p) >= 0 ==> p < inline_end(t, p) <= t.len(),
        inline_end(t, p) >= 0 ==> 0 <= inline_kind(t, p) <= 5,
        inline_end(t, p) < 0 ==> inline_end(t, p) == -1,
{
    lemma_find_char(t, p + 1, '`');
    if char_is(t, link_open(t, p), '[') {
        lemma_find_char(t, link_open(t, p) + 1, ']');
        let c = link_close(t, p);
        if char_is(t, c + 1, '(') {
            lemma_find_char(t, c + 2, ')');
        }
    }
    if p + 2 <= t.len() {
        lemma_find_char(t, p + 2, '*');
    }
    lemma_find_char(t, p + 1, '*');
    if p + 3 <= t.len() {
        lemma_label_run(t, p + 3);
    }
    if p + 2 <= t.len() {
        lemma_key_run(t, p + 2);
        let e1 = key_run(t, p + 2);
        lemma_cite_tail(t, e1);
    }
}

pub proof fn lemma_next_inline(t: Seq<char>, pos: int)
    requires
        0 <= pos <= t.len(),
    ensures
        pos <= next_inline(t, pos) <= t.len(),
        next_inline(t, pos) < t.len() ==> inline_end(t, next_inline(t, pos)) >= 0,
    decreases t.len() - pos,
{
    if pos < t.len() && inline_end(t, pos) < 0 {
        lemma_next_inline(t, pos + 1);
    }
}

pub proof fn lemma_label_attr_end(t: Seq<char>, e: int)
    requires
        0 <= e <= t.len(),
    ensures
        label_attr_end(t, e) >= 0 ==> e < label_attr_end(t, e) <= t.len(),
{
    if e + 3 <= t.len() {
        lemma_label_run(t, e + 3);
    }
}

pub proof fn lemma_footnote_at(t: Seq<char>, p: int)
    requires
        0 <= p < t.len(),
    ensures
        footnote_at(t, p) >= 0 ==> p < footnote_at(t, p) <= t.len(),
        footnote_at(t, p) >= 0 ==> find_char(t, p + 2, ']') + 3 <= footnote_at(t, p) - 1,
{
    if p + 2 <= t.len() {
        lemma_find_char(t, p + 2, ']');
        let c = find_char(t, p + 2, ']');
        if c + 3 <= t.len() {
            lemma_find_char(t, c + 3, ')');
            lemma_find_char(t, c + 3, '）');
        }
    }
}

pub proof fn lemma_next_footnote(t: Seq<char>, pos: int)
    requires
        0 <= pos <= t.len(),
    ensures
        pos <= next_footnote(t, pos) <= t.len(),
        next_footnote(t, pos) < t.len() ==> footnote_at(t, next_footnote(t, pos)) >= 0,
    decreases t.len() - pos,
{
    if pos < t.len() && footnote_at(t, pos) < 0 {
        lemma_next_footnote(t, pos + 1);
    }
}

// ---------------------------------------------------------------------------
// The grammar
// ---------------------------------------------------------------------------

/// The inline sequence of `t` (footnotes cut out first, the rest scanned by
/// [`inline_from`]).
pub open spec fn parse_spec(t: Seq<char>) -> Seq<SInline>
    decreases t.len(), 2int, 0int,
{
    footnotes_from(t, 0)
}

/// The inlines of `t[last..]`: text up to the next footnote goes through the
/// inline scanner, the footnote itself becomes [`SInline::Footnote`].
pub open spec fn footnotes_from(t: Seq<char>, last: int) -> Seq<SInline>
    decreases t.len(), 1int, t.len() - last,
{
    if last < 0 || last > t.len() {
        Seq::empty()
    } else {
        let p = next_footnote(t, last);
        proof {
            lemma_next_footnote(t, last);
        }
        if p >= t.len() {
            inline_from(t.subrange(last, t.len() as int), 0)
        } else {
            let e = footnote_at(t, p);
            proof {
                lemma_footnote_at(t, p);
            }
            inline_from(t.subrange(last, p), 0) + seq![SInline::Footnote(footnote_text(t, p, e))]
                + footnotes_from(t, e)
        }
    }
}

/// The inline sequence of `u[pos..]` (no footnotes there).
pub open spec fn inline_from(u: Seq<char>, pos: int) -> Seq<SInline>
    decreases u.len(), 0int, u.len() - pos,
{
    if pos < 0 || pos >= u.len() {
        Seq::empty()
    } else {
        let p = next_inline(u, pos);
        proof {
            lemma_next_inline(u, pos);
        }
        if p >= u.len() {
            seq![SInline::Text(u.subrange(pos, u.len() as int))]
        } else {
            let e = inline_end(u, p);
            let k = inline_kind(u, p);
            let after = resume_at(u, p, e, k);
            proof {
                lemma_inline_end(u, p);
                lemma_label_attr_end(u, e);
            }
            let pre = if p > pos {
                seq![SInline::Text(u.subrange(pos, p))]
            } else {
                Seq::empty()
            };
            pre + seq![token(u, p, e, k)] + inline_from(u, after)
        }
    }
}

/// The inline for the construct `u[s..e]` of the given kind.
pub open spec fn token(u: Seq<char>, s: int, e: int, kind: int) -> SInline
    decreases u.len(), 0int, 0int,
{
    if kind == 0 {
        SInline::Code(u.subrange(s + 1, e - 1))
    } else if kind == 1 {
        let c = link_close(u, s);
        if char_is(u, s, '!') {
            let la = label_attr_end(u, e);
            SInline::Image {
                alt: u.subrange(s + 2, c),
                url: u.subrange(c + 2, e - 1),
                label: if la >= 0 {
                    Some(u.subrange(e + 2, la - 1))
                } else {
                    None
                },
            }
        } else {
            SInline::Link { text: u.subrange(s + 1, c), url: u.subrange(c + 2, e - 1) }
        }
    } else if kind == 2 {
        if 0 <= s && s + 2 <= e - 2 && e <= u.len() {
            SInline::Bold(parse_spec(u.subrange(s + 2, e - 2)))
        } else {
            SInline::Bold(Seq::empty())
        }
    } else if kind == 3 {
        if 0 <= s && s + 1 <= e - 1 && e <= u.len() {
            SInline::Italic(parse_spec(u.subrange(s + 1, e - 1)))
        } else {
            SInline::Italic(Seq::empty())
        }
    } else if kind == 4 {
        SInline::CrossRef(u.subrange(s + 2, e - 1))
    } else {
        SInline::Citation(cite_keys(u, s))
    }
}

// ---------------------------------------------------------------------------
// Executable matchers
// ---------------------------------------------------------------------------

fn code_at_exec(t: &[char], p: usize) -> (r: Option<usize>)
    requires
        p < t@.len(),
    ensures
        r matches Some(e) ==> code_at(t@, p as int) == e,
        r is None ==> code_at(t@, p as int) < 0,
{
    if t[p] == '`' {
        let q = find_char_exec(t, p + 1, '`');
        if q < t.len() && q > p + 1 {
            Some(q + 1)
        } else {
            None
        }
    } else {
        None
    }
}

fn link_at_exec(t: &[char], p: usize) -> (r: Option<usize>)
    requires
        p < t@.len(),
    ensures
        r matches Some(e) ==> link_at(t@, p as int) == e,
        r is None ==> link_at(t@, p as int) < 0,
{
    let b = if t[p] == '!' {
        p + 1
    } else {
        p
    };
    if char_is_exec(t, b, '[') {
        let c = find_char_exec(t, b + 1, ']');
        if c < t.len() && char_is_exec(t, c + 1, '(') {
            let d = find_char_exec(t, c + 2, ')');
            if d < t.len() && d > c + 2 {
                Some(d + 1)
            } else {
                None
            }
        } else {
            None
        }
    } else {
        None
    }
}

fn bold_at_exec(t: &[char], p: usize) -> (r: Option<usize>)
    requires
        p < t@.len(),
    ensures
        r matches Some(e) ==> bold_at(t@, p as int) == e,
        r is None ==> bold_at(t@, p as int) < 0,
{
    if t[p] == '*' && char_is_exec(t, p + 1, '*') {
        let q = find_char_exec(t, p + 2, '*');
        if q > p + 2 && q < t.len() && char_is_exec(t, q + 1, '*') {
            Some(q + 2)
        } else {
            None
        }
    } else {
        None
    }
}

fn italic_at_exec(t: &[char], p: usize) -> (r: Option<usize>)
    requires
        p < t@.len(),
    ensures
        r matches Some(e) ==> italic_at(t@, p as int) == e,
        r is None ==> italic_at(t@, p as int) < 0,
{
    if t[p] == '*' {
        let q = find_char_exec(t, p + 1, '*');
        if q < t.len() && q > p + 1 {
            Some(q + 1)
        } else {
            None
        }
    } else {
        None
    }
}

fn ascii_alpha_exec(c: char) -> (r: bool)
    ensures
        r == is_ascii_alpha(c),
{
    ('A' <= c && c <= 'Z') || ('a' <= c && c <= 'z')
}

fn crossref_at_exec(t: &[char], p: usize) -> (r: Option<usize>)
    requires
        p < t@.len(),
    ensures
        r matches Some(e) ==> crossref_at(t@, p as int) == e,
        r is None ==> crossref_at(t@, p as int) < 0,
{
    if t[p] == '{' && char_is_exec(t, p + 1, '@') && p + 2 < t.len() && ascii_alpha_exec(
        t[p + 2],
    ) {
        let e = label_run_exec(t, p + 3);
        if char_is_exec(t, e, '}') {
            Some(e + 1)
        } else {
            None
        }
    } else {
        None
    }
}

/// One `\s*;\s*@KEY` group at `i`: the key's bounds when it matches.
fn cite_group_exec(t: &[char], i: usize) -> (r: Option<(usize, usize)>)
    requires
        i <= t@.len(),
    ensures
        ({
            let w1 = skip_ws(t@, i as int);
            let w2 = skip_ws(t@, w1 + 1);
            let k = key_run(t@, w2 + 1);
            let ok = char_is(t@, w1, ';') && char_is(t@, w2, '@') && k > w2 + 1;
            &&& (r is Some) == ok
            &&& r matches Some((a, b)) ==> a == w2 + 1 && b == k && i < b <= t@.len()
        }),
{
    let n = t.len();
    let w1 = skip_ws_exec(t, i);
    if char_is_exec(t, w1, ';') {
        let w2 = skip_ws_exec(t, w1 + 1);
        if char_is_exec(t, w2, '@') {
            let k = key_run_exec(t, w2 + 1);
            if k > w2 + 1 {
                return Some((w2 + 1, k));
            }
        }
    }
    None
}

fn cite_tail_exec(t: &[char], i: usize) -> (r: usize)
    requires
        i <= t@.len(),
    ensures
        r == cite_tail(t@, i as int),
{
    let mut k = i;
    loop
        invariant
            i <= k <= t@.len(),
            cite_tail(t@, k as int) == cite_tail(t@, i as int),
        decreases t@.len() - k,
    {
        match cite_group_exec(t, k) {
            Some((_a, b)) => {
                k = b;
            },
            None => {
                return k;
            },
        }
    }
}

fn cite_at_exec(t: &[char], p: usize) -> (r: Option<usize>)
    requires
        p < t@.len(),
    ensures
        r matches Some(e) ==> cite_at(t@, p as int) == e,
        r is None ==> cite_at(t@, p as int) < 0,
{
    if t[p] == '[' && char_is_exec(t, p + 1, '@') {
        let e1 = key_run_exec(t, p + 2);
        if e1 > p + 2 {
            let e = cite_tail_exec(t, e1);
            if char_is_exec(t, e, ']') {
                return Some(e + 1);
            }
        }
    }
    None
}

/// End and kind of the construct at `p` (see [`inline_end`], [`inline_kind`]).
fn inline_at_exec(t: &[char], p: usize) -> (r: Option<(usize, u8)>)
    requires
        p < t@.len(),
    ensures
        r matches Some((e, k)) ==> inline_end(t@, p as int) == e && inline_kind(t@, p as int)
            == k,
        r is None ==> inline_end(t@, p as int) < 0,
{
    if let Some(e) = code_at_exec(t, p) {
        return Some((e, 0));
    }
    if let Some(e) = link_at_exec(t, p) {
        return Some((e, 1));
    }
    if let Some(e) = bold_at_exec(t, p) {
        return Some((e, 2));
    }
    if let Some(e) = italic_at_exec(t, p) {
        return Some((e, 3));
    }
    if let Some(e) = crossref_at_exec(t, p) {
        return Some((e, 4));
    }
    if let Some(e) = cite_at_exec(t, p) {
        return Some((e, 5));
    }
    None
}

fn next_inline_exec(t: &[char], pos: usize) -> (r: usize)
    requires
        pos <= t@.len(),
    ensures
        r == next_inline(t@, pos as int),
{
    let mut p = pos;
    while p < t.len() && inline_at_exec(t, p).is_none()
        invariant
            pos <= p <= t@.len(),
            next_inline(t@, p as int) == next_inline(t@, pos as int),
        decreases t@.len() - p,
    {
        p += 1;
    }
    p
}

fn label_attr_end_exec(t: &[char], e: usize) -> (r: Option<usize>)
    requires
        e <= t@.len(),
    ensures
        r matches Some(x) ==> label_attr_end(t@, e as int) == x,
        r is None ==> label_attr_end(t@, e as int) < 0,
{
    let n = t.len();
    if e < n && t[e] == '{' && char_is_exec(t, e + 1, '#') && e + 2 < t.len()
        && ascii_alpha_exec(t[e + 2]) {
        let r = label_run_exec(t, e + 3);
        if char_is_exec(t, r, '}') {
            return Some(r + 1);
        }
    }
    None
}

fn footnote_at_exec(t: &[char], p: usize) -> (r: Option<usize>)
    requires
        p < t@.len(),
    ensures
        r matches Some(e) ==> footnote_at(t@, p as int) == e,
        r is None ==> footnote_at(t@, p as int) < 0,
{
    if t[p] == '[' && char_is_exec(t, p + 1, '^') {
        let c = find_char_exec(t, p + 2, ']');
        if c > p + 2 && c < t.len() && (char_is_exec(t, c + 1, ':') || char_is_exec(
            t,
            c + 1,
            '：',
        )) {
            if char_is_exec(t, c + 2, '(') {
                let d = find_char_exec(t, c + 3, ')');
                if d < t.len() {
                    return Some(d + 1);
                }
            } else if char_is_exec(t, c + 2, '（') {
                let d = find_char_exec(t, c + 3, '）');
                if d < t.len() {
                    return Some(d + 1);
                }
            }
        }
    }
    None
}

fn next_footnote_exec(t: &[char], pos: usize) -> (r: usize)
    requires
        pos <= t@.len(),
    ensures
        r == next_footnote(t@, pos as int),
{
    let mut p = pos;
    while p < t.len() && footnote_at_exec(t, p).is_none()
        invariant
            pos <= p <= t@.len(),
            next_footnote(t@, p as int) == next_footnote(t@, pos as int),
        decreases t@.len() - p,
    {
        p += 1;
    }
    p
}

// ---------------------------------------------------------------------------
// Executable parser
// ---------------------------------------------------------------------------

/// Keys of the citation at `s` (see [`cite_keys`]).
fn cite_keys_exec(t: &[char], s: usize) -> (r: Vec<String>)
    requires
        s + 2 <= t@.len(),
    ensures
        strings_view(r@) == cite_keys(t@, s as int),
{
    let n = t.len();
    let e1 = key_run_exec(t, s + 2);
    let mut keys: Vec<String> = Vec::new();
    keys.push(sub_string(t, s + 2, e1));
    let mut k = e1;
    assert(strings_view(keys@) =~= seq![t@.subrange(s + 2, e1 as int)]);
    loop
        invariant
            s + 2 <= e1 <= k <= t@.len(),
            strings_view(keys@) + tail_keys(t@, k as int) == cite_keys(t@, s as int),
        decreases t@.len() - k,
    {
        match cite_group_exec(t, k) {
            Some((a, b)) => {
                let ghost before = strings_view(keys@);
                keys.push(sub_string(t, a, b));
                assert(strings_view(keys@) =~= before.push(t@.subrange(a as int, b as int)));
                assert(tail_keys(t@, k as int) =~= seq![t@.subrange(a as int, b as int)]
                    + tail_keys(t@, b as int));
                k = b;
            },
            None => {
                assert(tail_keys(t@, k as int) =~= Seq::<Seq<char>>::empty());
                assert(strings_view(keys@) + Seq::<Seq<char>>::empty() =~= strings_view(keys@));
                return keys;
            },
        }
    }
}

/// Builds the inline for the construct `u[s..e]` and the position to resume at.
fn token_exec(u: &Vec<char>, s: usize, e: usize, kind: u8) -> (r: (Inline, usize))
    requires
        s < u@.len(),
        inline_end(u@, s as int) == e,
        inline_kind(u@, s as int) == kind,
        e >= 0,
    ensures
        inline_view(r.0) == token(u@, s as int, e as int, kind as int),
        r.1 == resume_at(u@, s as int, e as int, kind as int),
        s < r.1 <= u@.len(),
    decreases u@.len(), 0int,
{
    proof {
        lemma_inline_end(u@, s as int);
        lemma_label_attr_end(u@, e as int);
    }
    if kind == 0 {
        (Inline::Code(sub_string(u, s + 1, e - 1)), e)
    } else if kind == 1 {
        let b = if u[s] == '!' {
            s + 1
        } else {
            s
        };
        proof {
            lemma_find_char(u@, b + 1, ']');
            lemma_find_char(u@, link_close(u@, s as int) + 2, ')');
        }
        let c = find_char_exec(u, b + 1, ']');
        if u[s] == '!' {
            let la = label_attr_end_exec(u, e);
            let label = match la {
                Some(x) => Some(sub_string(u, e + 2, x - 1)),
                None => None,
            };
            let after = match la {
                Some(x) => x,
                None => e,
            };
            (
                Inline::Image {
                    alt: sub_string(u, s + 2, c),
                    url: sub_string(u, c + 2, e - 1),
                    label,
                },
                after,
            )
        } else {
            (Inline::Link { text: sub_string(u, s + 1, c), url: sub_string(u, c + 2, e - 1) }, e)
        }
    } else if kind == 2 {
        proof {
            lemma_find_char(u@, s + 2, '*');
        }
        let inner = slice_of(u, s + 2, e - 2);
        (Inline::Bold(parse_chars(&inner)), e)
    } else if kind == 3 {
        proof {
            lemma_find_char(u@, s + 1, '*');
        }
        let inner = slice_of(u, s + 1, e - 1);
        (Inline::Italic(parse_chars(&inner)), e)
    } else if kind == 4 {
        proof {
            lemma_label_run(u@, s + 3);
        }
        (Inline::CrossRef(sub_string(u, s + 2, e - 1)), e)
    } else {
        (Inline::Citation(cite_keys_exec(u, s)), e)
    }
}

/// Inline scanner over text without footnotes (see [`inline_from`]).
fn parse_inline_chars(u: &Vec<char>) -> (r: Vec<Inline>)
    ensures
        inlines_view(r@) == inline_from(u@, 0),
    decreases u@.len(), 1int,
{
    let mut out: Vec<Inline> = Vec::new();
    let mut pos: usize = 0;
    while pos < u.len()
        invariant
            pos <= u@.len(),
            inlines_view(out@) + inline_from(u@, pos as int) == inline_from(u@, 0),
        decreases u@.len() - pos,
    {
        let p = next_inline_exec(u, pos);
        proof {
            lemma_next_inline(u@, pos as int);
        }
        let ghost out0 = out@;
        if p >= u.len() {
            let txt = Inline::Text(sub_string(u, pos, u.len()));
            out.push(txt);
            proof {
                lemma_inlines_view_push(out0, txt);
                assert(inline_from(u@, u@.len() as int) =~= Seq::<SInline>::empty());
                assert(inlines_view(out@) + inline_from(u@, u@.len() as int) =~= inlines_view(
                    out0,
                ) + inline_from(u@, pos as int));
            }
            pos = u.len();
        } else {
            let ghost pre: Seq<SInline> = if p > pos {
                seq![SInline::Text(u@.subrange(pos as int, p as int))]
            } else {
                Seq::empty()
            };
            if p > pos {
                let txt = Inline::Text(sub_string(u, pos, p));
                out.push(txt);
                proof {
                    lemma_inlines_view_push(out0, txt);
                }
            }
            assert(inlines_view(out@) =~= inlines_view(out0) + pre);
            let ghost out1 = out@;
            let m = inline_at_exec(u, p);
            proof {
                lemma_inline_end(u@, p as int);
            }
            let (e, k) = match m {
                Some(x) => x,
                None => (0, 0),
            };
            let (tok, after) = token_exec(u, p, e, k);
            out.push(tok);
            proof {
                lemma_inlines_view_push(out1, tok);
                assert(inlines_view(out@) + inline_from(u@, after as int) =~= inlines_view(out0)
                    + inline_from(u@, pos as int));
            }
            pos = after;
        }
    }
    assert(inline_from(u@, pos as int) =~= Seq::<SInline>::empty());
    assert(inlines_view(out@) + Seq::<SInline>::empty() =~= inlines_view(out@));
    out
}

/// The inline sequence of `t` (see [`parse_spec`]).
fn parse_chars(t: &Vec<char>) -> (r: Vec<Inline>)
    ensures
        inlines_view(r@) == parse_spec(t@),
    decreases t@.len(), 2int,
{
    let mut out: Vec<Inline> = Vec::new();
    let mut last: usize = 0;
    assert(inlines_view(out@) + footnotes_from(t@, 0) =~= footnotes_from(t@, 0));
    loop
        invariant
            last <= t@.len(),
            inlines_view(out@) + footnotes_from(t@, last as int) == parse_spec(t@),
        decreases t@.len() - last,
    {
        let p = next_footnote_exec(t, last);
        proof {
            lemma_next_footnote(t@, last as int);
        }
        let ghost out0 = out@;
        if p >= t.len() {
            let seg = slice_of(t, last, t.len());
            let rest = parse_inline_chars(&seg);
            crate::common::ast::append_inlines(&mut out, rest);
            return out;
        } else {
            let seg = slice_of(t, last, p);
            let rest = parse_inline_chars(&seg);
            crate::common::ast::append_inlines(&mut out, rest);
            let ghost out1 = out@;
            proof {
                lemma_footnote_at(t@, p as int);
            }
            let e = match footnote_at_exec(t, p) {
                Some(e) => e,
                None => p + 1,
            };
            proof {
                lemma_find_char(t@, p + 2, ']');
            }
            let c = find_char_exec(t, p + 2, ']');
            let note = Inline::Footnote(sub_string(t, c + 3, e - 1));
            out.push(note);
            proof {
                lemma_inlines_view_push(out1, note);
                assert(inlines_view(out@) + footnotes_from(t@, e as int) =~= inlines_view(out0)
                    + footnotes_from(t@, last as int));
            }
            last = e;
        }
    }
}

/// Splits one line of (quote-normalised) text into inlines; the empty string
/// gives no inlines.
pub fn parse(text: &str) -> (r: Vec<Inline>)
    ensures
        inlines_view(r@) == parse_spec(text@),
{
    let t = chars_of(text);
    parse_chars(&t)
}

/// Inline parse of a character vector.
pub fn parse_vec(t: &Vec<char>) -> (r: Vec<Inline>)
    ensures
        inlines_view(r@) == parse_spec(t@),
{
    parse_chars(t)
}

// ---------------------------------------------------------------------------
// Flattening back to text
// ---------------------------------------------------------------------------

/// `@k1; @k2; ...`
pub open spec fn joined_keys(ks: Seq<Seq<char>>) -> Seq<char>
    decreases ks.len(),
{
    if ks.len() == 0 {
        Seq::empty()
    } else if ks.len() == 1 {
        seq!['@'] + ks[0]
    } else {
        joined_keys(ks.drop_last()) + seq![';', ' ', '@'] + ks.last()
    }
}

/// Plain text of one inline: markers dropped, links and images by their text,
/// cross references by their id, citations in their source form, footnotes
/// in full-width parentheses.
pub open spec fn flat_inline(i: SInline) -> Seq<char>
    decreases i, 0nat,
{
    match i {
        SInline::Text(t) => t,
        SInline::Bold(c) => flat_seq(c),
        SInline::Italic(c) => flat_seq(c),
        SInline::Code(t) => t,
        SInline::Link { text, url } => text,
        SInline::Image { alt, url, label } => alt,
        SInline::CrossRef(id) => id,
        SInline::Citation(keys) => seq!['['] + joined_keys(keys) + seq![']'],
        SInline::Footnote(t) => seq!['（'] + t + seq!['）'],
    }
}

/// Plain text of an inline sequence.
pub open spec fn flat_seq(s: Seq<SInline>) -> Seq<char>
    decreases s, s.len(),
{
    if s.len() == 0 {
        Seq::empty()
    } else {
        flat_seq(s.drop_last()) + flat_inline(s.last())
    }
}

pub fn push_keys(out: &mut String, keys: &Vec<String>)
    ensures
        final(out)@ == old(out)@ + joined_keys(strings_view(keys@)),
{
    let ghost ks = strings_view(keys@);
    let mut i: usize = 0;
    while i < keys.len()
        invariant
            i <= keys@.len(),
            ks == strings_view(keys@),
            out@ == old(out)@ + joined_keys(ks.take(i as int)),
        decreases keys@.len() - i,
    {
        let ghost before = out@;
        if i == 0 {
            push_char(out, '@');
        } else {
            push_char(out, ';');
            push_char(out, ' ');
            push_char(out, '@');
        }
        push_str(out, keys[i].as_str());
        proof {
            let t1 = ks.take(i + 1);
            assert(t1.drop_last() =~= ks.take(i as int));
            assert(t1.last() == keys@[i as int]@);
        }
        i += 1;
        assert(out@ =~= old(out)@ + joined_keys(ks.take(i as int)));
    }
    assert(ks.take(keys@.len() as int) =~= ks);
}

/// Appends the plain text of the inlines (see [`flat_seq`]).
pub fn push_flat(out: &mut String, inlines: &[Inline])
    ensures
        final(out)@ == old(out)@ + flat_seq(inlines_view(inlines@)),
    decreases inlines@,
{
    let mut i: usize = 0;
    while i < inlines.len()
        invariant
            i <= inlines@.len(),
            out@ == old(out)@ + flat_seq(inlines_view(inlines@.take(i as int))),
        decreases inlines@.len() - i,
    {
        let ghost before = out@;
        match &inlines[i] {
            Inline::Text(t) => push_str(out, t.as_str()),
            Inline::Bold(c) => {
                assert(decreases_to!(inlines@ => c@));
                push_flat(out, c.as_slice());
            },
            Inline::Italic(c) => {
                assert(decreases_to!(inlines@ => c@));
                push_flat(out, c.as_slice());
            },
            Inline::Code(t) => push_str(out, t.as_str()),
            Inline::Link { text, .. } => push_str(out, text.as_str()),
            Inline::Image { alt, .. } => push_str(out, alt.as_str()),
            Inline::CrossRef(id) => push_str(out, id.as_str()),
            Inline::Citation(keys) => {
                push_char(out, '[');
                push_keys(out, keys);
                push_char(out, ']');
            },
            Inline::Footnote(t) => {
                push_char(out, '（');
                push_str(out, t.as_str());
                push_char(out, '）');
            },
        }
        proof {
            let p = inlines@.take(i + 1);
            assert(p =~= inlines@.take(i as int).push(inlines@[i as int]));
            lemma_inlines_view_push(inlines@.take(i as int), inlines@[i as int]);
            assert(inlines_view(inlines@.take(i as int)).push(inline_view(inlines@[i as int])).drop_last()
                =~= inlines_view(inlines@.take(i as int)));
            assert(flat_seq(inlines_view(p)) =~= flat_seq(inlines_view(inlines@.take(i as int)))
                + flat_inline(inline_view(inlines@[i as int])));
        }
        i += 1;
        assert(out@ =~= old(out)@ + flat_seq(inlines_view(inlines@.take(i as int))));
    }
    assert(inlines@.take(inlines@.len() as int) =~= inlines@);
}

/// Joins an inline sequence back into plain text (used where formatting is
/// not needed).
pub fn flatten(inlines: &[Inline]) -> (s: String)
    ensures
        s@ == flat_seq(inlines_view(inlines@)),
{
    let mut s = String::new();
    push_flat(&mut s, inlines);
    assert(s@ =~= flat_seq(inlines_view(inlines@)));
    s
}

/// The plain text of one inline (see [`flat_inline`]).
pub fn inline_text(i: &Inline) -> (s: String)
    ensures
        s@ == flat_inline(inline_view(*i)),
{
    let mut s = String::new();
    match i {
        Inline::Text(t) => push_str(&mut s, t.as_str()),
        Inline::Bold(c) => push_flat(&mut s, c.as_slice()),
        Inline::Italic(c) => push_flat(&mut s, c.as_slice()),
        Inline::Code(t) => push_str(&mut s, t.as_str()),
        Inline::Link { text, .. } => push_str(&mut s, text.as_str()),
        Inline::Image { alt, .. } => push_str(&mut s, alt.as_str()),
        Inline::CrossRef(id) => push_str(&mut s, id.as_str()),
        Inline::Citation(keys) => {
            push_char(&mut s, '[');
            push_keys(&mut s, keys);
            push_char(&mut s, ']');
        },
        Inline::Footnote(t) => {
            push_char(&mut s, '（');
            push_str(&mut s, t.as_str());
            push_char(&mut s, '）');
        },
    }
    s
}


// ---------------------------------------------------------------------------
// Round trip of plain text
// ---------------------------------------------------------------------------

/// Text without any character that opens inline markup: no backquote,
/// asterisk, bracket, brace or exclamation mark.
pub open spec fn plain_text(t: Seq<char>) -> bool {
    forall|i: int| 0 <= i < t.len() ==> !(#[trigger] t[i] == '`' || t[i] == '*' || t[i] == '['
        || t[i] == '{' || t[i] == '!')
}

proof fn lemma_plain_no_footnote(t: Seq<char>, pos: int)
    requires
        plain_text(t),
        0 <= pos,
    ensures
        next_footnote(t, pos) == t.len(),
    decreases t.len() - pos,
{
    if pos < t.len() {
        assert(!char_is(t, pos, '['));
        assert(footnote_at(t, pos) < 0);
        lemma_plain_no_footnote(t, pos + 1);
    }
}

proof fn lemma_plain_no_inline(t: Seq<char>, pos: int)
    requires
        plain_text(t),
        0 <= pos,
    ensures
        next_inline(t, pos) == t.len(),
    decreases t.len() - pos,
{
    if pos < t.len() {
        assert(!char_is(t, pos, '`') && !char_is(t, pos, '*') && !char_is(t, pos, '[')
            && !char_is(t, pos, '{') && !char_is(t, pos, '!'));
        assert(inline_end(t, pos) < 0);
        lemma_plain_no_inline(t, pos + 1);
    }
}

/// Plain text parses to a single text inline (none for the empty text), so
/// flattening what the parser gives returns the text.
pub proof fn lemma_plain_text_round_trip(t: Seq<char>)
    requires
        plain_text(t),
    ensures
        t.len() > 0 ==> parse_spec(t) == seq![SInline::Text(t)],
        flat_seq(parse_spec(t)) == t,
{
    lemma_plain_no_footnote(t, 0);
    assert(t.subrange(0, t.len() as int) =~= t);
    assert(parse_spec(t) == footnotes_from(t, 0));
    assert(footnotes_from(t, 0) == inline_from(t.subrange(0, t.len() as int), 0));
    assert(footnotes_from(t, 0) == inline_from(t, 0));
    if t.len() > 0 {
        lemma_plain_no_inline(t, 0);
        assert(inline_from(t, 0) == seq![SInline::Text(t.subrange(0, t.len() as int))]);
        assert(parse_spec(t) == seq![SInline::Text(t)]);
        let one = seq![SInline::Text(t)];
        assert(one.drop_last() =~= Seq::<SInline>::empty());
        assert(one.last() == SInline::Text(t));
        assert(flat_seq(Seq::<SInline>::empty()) == Seq::<char>::empty());
        assert(flat_seq(one) == flat_seq(one.drop_last()) + flat_inline(one.last()));
        assert(flat_seq(one) =~= t);
    } else {
        assert(inline_from(t, 0) == Seq::<SInline>::empty());
        assert(flat_seq(Seq::<SInline>::empty()) == Seq::<char>::empty());
        assert(t =~= Seq::<char>::empty());
    }
}


// ---------------------------------------------------------------------------
// Round trip of text with citations
// ---------------------------------------------------------------------------

/// A citation key: one or more key characters.
pub open spec fn valid_key(k: Seq<char>) -> bool {
    k.len() > 0 && forall|i: int| 0 <= i < k.len() ==> is_key_char(#[trigger] k[i])
}

/// One or more valid keys.
pub open spec fn valid_keys(ks: Seq<Seq<char>>) -> bool {
    ks.len() > 0 && forall|i: int| 0 <= i < ks.len() ==> valid_key(#[trigger] ks[i])
}

/// `; @k` for each key, in order.
pub open spec fn more_keys_src(ks: Seq<Seq<char>>) -> Seq<char>
    decreases ks.len(),
{
    if ks.len() == 0 {
        Seq::empty()
    } else {
        seq![';', ' ', '@'] + ks[0] + more_keys_src(ks.drop_first())
    }
}

/// A citation written in its canonical form `[@k1; @k2; ...]`.
pub open spec fn cite_src(ks: Seq<Seq<char>>) -> Seq<char> {
    seq!['['] + joined_keys(ks) + seq![']']
}

proof fn lemma_more_keys_push(x: Seq<Seq<char>>, k: Seq<char>)
    ensures
        more_keys_src(x.push(k)) == more_keys_src(x) + seq![';', ' ', '@'] + k,
    decreases x.len(),
{
    if x.len() == 0 {
        assert(x.push(k).drop_first() =~= Seq::<Seq<char>>::empty());
        assert(x.push(k)[0] == k);
        assert(more_keys_src(Seq::<Seq<char>>::empty()) == Seq::<char>::empty());
        assert(more_keys_src(x.push(k)) == seq![';', ' ', '@'] + k + more_keys_src(Seq::<Seq<char>>::empty()));
        assert(x =~= Seq::<Seq<char>>::empty());
        assert(more_keys_src(x.push(k)) =~= more_keys_src(x) + seq![';', ' ', '@'] + k);
    } else {
        lemma_more_keys_push(x.drop_first(), k);
        assert(x.push(k).drop_first() =~= x.drop_first().push(k));
        assert(x.push(k)[0] == x[0]);
        assert(more_keys_src(x.push(k)) =~= more_keys_src(x) + seq![';', ' ', '@'] + k);
    }
}

proof fn lemma_joined_front(ks: Seq<Seq<char>>)
    requires
        ks.len() > 0,
    ensures
        joined_keys(ks) == seq!['@'] + ks[0] + more_keys_src(ks.drop_first()),
    decreases ks.len(),
{
    if ks.len() == 1 {
        assert(ks.drop_first() =~= Seq::<Seq<char>>::empty());
        assert(joined_keys(ks) =~= seq!['@'] + ks[0] + more_keys_src(ks.drop_first()));
    } else {
        let d = ks.drop_last();
        lemma_joined_front(d);
        assert(d[0] == ks[0]);
        assert(ks.drop_first() =~= d.drop_first().push(ks.last()));
        lemma_more_keys_push(d.drop_first(), ks.last());
        assert(joined_keys(ks) =~= seq!['@'] + ks[0] + more_keys_src(ks.drop_first()));
    }
}

/// A run of key characters followed by a character that ends keys.
proof fn lemma_key_run_exact(t: Seq<char>, i: int, k: Seq<char>)
    requires
        0 <= i,
        i + k.len() <= t.len(),
        t.subrange(i, i + k.len()) == k,
        forall|j: int| 0 <= j < k.len() ==> is_key_char(#[trigger] k[j]),
        i + k.len() == t.len() || !is_key_char(t[i + k.len()]),
    ensures
        key_run(t, i) == i + k.len(),
    decreases k.len(),
{
    if k.len() > 0 {
        assert(t[i] == k[0]);
        assert(t.subrange(i + 1, i + k.len()) =~= k.drop_first());
        lemma_key_run_exact(t, i + 1, k.drop_first());
    }
}


proof fn lemma_cite_tail_exact(t: Seq<char>, i: int, ks: Seq<Seq<char>>)
    requires
        0 <= i,
        forall|j: int| 0 <= j < ks.len() ==> valid_key(#[trigger] ks[j]),
        i + more_keys_src(ks).len() < t.len(),
        t.subrange(i, i + more_keys_src(ks).len()) == more_keys_src(ks),
        t[i + more_keys_src(ks).len()] == ']',
    ensures
        cite_tail(t, i) == i + more_keys_src(ks).len(),
        tail_keys(t, i) == ks,
    decreases ks.len(),
{
    let m = more_keys_src(ks);
    assert(!is_ws(']') && !is_ws(';') && !is_ws('@') && is_ws(' '));
    if ks.len() == 0 {
        assert(m.len() == 0);
        assert(skip_ws(t, i) == i);
    } else {
        let k0 = ks[0];
        let rest = ks.drop_first();
        let mr = more_keys_src(rest);
        assert(m == seq![';', ' ', '@'] + k0 + mr);
        assert(t[i] == m[0] && m[0] == ';');
        assert(t[i + 1] == m[1] && m[1] == ' ');
        assert(t[i + 2] == m[2] && m[2] == '@');
        assert(skip_ws(t, i) == i);
        assert(skip_ws(t, i + 2) == i + 2);
        assert(skip_ws(t, i + 1) == i + 2);
        let e = i + 3 + k0.len();
        assert(t.subrange(i + 3, e) =~= k0) by {
            assert forall|j: int| 0 <= j < k0.len() implies t.subrange(i + 3, e)[j] == k0[j] by {
                assert(t[i + 3 + j] == m[3 + j]);
            }
        }
        assert(valid_key(ks[0]));
        if rest.len() > 0 {
            assert(t[e] == m[3 + k0.len() as int]);
            assert(mr[0] == ';');
            assert(m[3 + k0.len() as int] == mr[0]);
        } else {
            assert(mr.len() == 0);
        }
        assert(!is_key_char(t[e]));
        lemma_key_run_exact(t, i + 3, k0);
        assert forall|j: int| 0 <= j < rest.len() implies valid_key(#[trigger] rest[j]) by {
            assert(rest[j] == ks[j + 1]);
        }
        assert(t.subrange(e, e + mr.len()) =~= mr) by {
            assert forall|j: int| 0 <= j < mr.len() implies t.subrange(e, e + mr.len())[j] == mr[j] by {
                assert(t[e + j] == m[3 + k0.len() as int + j]);
            }
        }
        lemma_cite_tail_exact(t, e, rest);
        assert(tail_keys(t, i) == seq![t.subrange(i + 3, e)] + tail_keys(t, e));
        assert(ks =~= seq![k0] + rest);
    }
}

/// A canonical citation at `p` is matched by the citation pattern, with its
/// keys.
proof fn lemma_cite_at_exact(t: Seq<char>, p: int, ks: Seq<Seq<char>>)
    requires
        0 <= p,
        valid_keys(ks),
        p + cite_src(ks).len() <= t.len(),
        t.subrange(p, p + cite_src(ks).len()) == cite_src(ks),
    ensures
        cite_at(t, p) == p + cite_src(ks).len(),
        cite_keys(t, p) == ks,
{
    let c = cite_src(ks);
    lemma_joined_front(ks);
    let k0 = ks[0];
    let rest = ks.drop_first();
    let mr = more_keys_src(rest);
    assert(c =~= seq!['[', '@'] + k0 + mr + seq![']']);
    assert(t[p] == c[0] && t[p + 1] == c[1]);
    let e1 = p + 2 + k0.len();
    assert(t.subrange(p + 2, e1) =~= k0) by {
        assert forall|j: int| 0 <= j < k0.len() implies t.subrange(p + 2, e1)[j] == k0[j] by {
            assert(t[p + 2 + j] == c[2 + j]);
        }
    }
    assert(valid_key(ks[0]));
    assert(t[e1] == c[2 + k0.len() as int]);
    if rest.len() > 0 {
        assert(mr[0] == ';');
    }
    assert(!is_key_char(t[e1]));
    lemma_key_run_exact(t, p + 2, k0);
    assert forall|j: int| 0 <= j < rest.len() implies valid_key(#[trigger] rest[j]) by {
        assert(rest[j] == ks[j + 1]);
    }
    assert(t.subrange(e1, e1 + mr.len()) =~= mr) by {
        assert forall|j: int| 0 <= j < mr.len() implies t.subrange(e1, e1 + mr.len())[j] == mr[j] by {
            assert(t[e1 + j] == c[2 + k0.len() as int + j]);
        }
    }
    assert(t[e1 + mr.len() as int] == c[c.len() as int - 1]);
    lemma_cite_tail_exact(t, e1, rest);
    assert(ks =~= seq![k0] + rest);
}


proof fn lemma_joined_no_brackets(ks: Seq<Seq<char>>)
    requires
        forall|j: int| 0 <= j < ks.len() ==> valid_key(#[trigger] ks[j]),
    ensures
        forall|i: int| 0 <= i < joined_keys(ks).len() ==> #[trigger] joined_keys(ks)[i] != '['
            && joined_keys(ks)[i] != ']',
    decreases ks.len(),
{
    if ks.len() == 1 {
        assert(valid_key(ks[0]));
        assert(joined_keys(ks) == seq!['@'] + ks[0]);
        assert forall|i: int| 0 <= i < joined_keys(ks).len() implies #[trigger] joined_keys(ks)[i] != '['
            && joined_keys(ks)[i] != ']' by {
            if i > 0 {
                assert(joined_keys(ks)[i] == ks[0][i - 1]);
                assert(is_key_char(ks[0][i - 1]));
            }
        }
    } else if ks.len() > 1 {
        let d = ks.drop_last();
        assert forall|j: int| 0 <= j < d.len() implies valid_key(#[trigger] d[j]) by {
            assert(d[j] == ks[j]);
        }
        lemma_joined_no_brackets(d);
        let k = ks.last();
        assert(valid_key(ks[ks.len() - 1]));
        let a = joined_keys(d);
        assert(joined_keys(ks) == a + seq![';', ' ', '@'] + k);
        assert forall|i: int| 0 <= i < joined_keys(ks).len() implies #[trigger] joined_keys(ks)[i] != '['
            && joined_keys(ks)[i] != ']' by {
            if i < a.len() {
                assert(joined_keys(ks)[i] == a[i]);
            } else if i >= a.len() + 3 {
                assert(joined_keys(ks)[i] == k[i - a.len() - 3]);
                assert(is_key_char(k[i - a.len() - 3]));
            }
        }
    }
}

proof fn lemma_find_char_at(t: Seq<char>, i: int, j: int, c: char)
    requires
        0 <= i <= j < t.len(),
        t[j] == c,
        forall|q: int| i <= q < j ==> t[q] != c,
    ensures
        find_char(t, i, c) == j,
    decreases j - i,
{
    if i < j {
        lemma_find_char_at(t, i + 1, j, c);
    }
}

/// At the start of a canonical citation that no `(` follows, the scanner
/// finds the citation and nothing else.
proof fn lemma_cite_start(t: Seq<char>, p: int, ks: Seq<Seq<char>>)
    requires
        0 <= p,
        valid_keys(ks),
        p + cite_src(ks).len() <= t.len(),
        t.subrange(p, p + cite_src(ks).len()) == cite_src(ks),
        !char_is(t, p + cite_src(ks).len(), '('),
    ensures
        inline_end(t, p) == p + cite_src(ks).len(),
        inline_kind(t, p) == 5,
        token(t, p, p + cite_src(ks).len(), 5) == SInline::Citation(ks),
        footnote_at(t, p) < 0,
        forall|q: int| p < q < p + cite_src(ks).len() ==> #[trigger] t[q] != '[',
{
    let c = cite_src(ks);
    let e = p + c.len();
    lemma_cite_at_exact(t, p, ks);
    lemma_joined_front(ks);
    lemma_joined_no_brackets(ks);
    let jk = joined_keys(ks);
    assert(c == seq!['['] + jk + seq![']']);
    assert(t[p] == '[');
    assert(t[p + 1] == c[1] && c[1] == '@');
    assert(t[e - 1] == ']');
    assert forall|q: int| p + 1 <= q < e - 1 implies t[q] != ']' by {
        assert(t[q] == c[q - p]);
        assert(c[q - p] == jk[q - p - 1]);
    }
    assert forall|q: int| p < q < e implies #[trigger] t[q] != '[' by {
        assert(t[q] == c[q - p]);
        if q < e - 1 {
            assert(c[q - p] == jk[q - p - 1]);
        }
    }
    lemma_find_char_at(t, p + 1, e - 1, ']');
    assert(link_close(t, p) == e - 1);
    assert(link_at(t, p) < 0);
    assert(code_at(t, p) < 0 && bold_at(t, p) < 0 && italic_at(t, p) < 0 && crossref_at(t, p) < 0);
}


/// Plain runs and canonical citations: `a0 [@..] a1 [@..] ... tail`.
pub open spec fn cited_text(segs: Seq<(Seq<char>, Seq<Seq<char>>)>, tail: Seq<char>) -> Seq<char>
    decreases segs.len(),
{
    if segs.len() == 0 {
        tail
    } else {
        segs[0].0 + cite_src(segs[0].1) + cited_text(segs.drop_first(), tail)
    }
}

/// The runs are plain text, each citation has valid keys, and no `(`
/// directly follows a citation.
pub open spec fn cited_ok(segs: Seq<(Seq<char>, Seq<Seq<char>>)>, tail: Seq<char>) -> bool
    decreases segs.len(),
{
    if segs.len() == 0 {
        plain_text(tail)
    } else {
        let after = cited_text(segs.drop_first(), tail);
        &&& plain_text(segs[0].0)
        &&& valid_keys(segs[0].1)
        &&& !(after.len() > 0 && after[0] == '(')
        &&& cited_ok(segs.drop_first(), tail)
    }
}

proof fn lemma_flat_concat(x: Seq<SInline>, y: Seq<SInline>)
    ensures
        flat_seq(x + y) == flat_seq(x) + flat_seq(y),
    decreases y.len(),
{
    if y.len() == 0 {
        assert(x + y =~= x);
        assert(flat_seq(y) == Seq::<char>::empty());
        assert(flat_seq(x) + flat_seq(y) =~= flat_seq(x));
    } else {
        lemma_flat_concat(x, y.drop_last());
        assert((x + y).drop_last() =~= x + y.drop_last());
        assert((x + y).last() == y.last());
        assert(flat_seq(x + y) =~= flat_seq(x) + flat_seq(y));
    }
}

proof fn lemma_next_inline_skip(t: Seq<char>, pos: int, q: int)
    requires
        0 <= pos <= q <= t.len(),
        forall|r: int| pos <= r < q ==> inline_end(t, r) < 0,
    ensures
        next_inline(t, pos) == next_inline(t, q),
    decreases q - pos,
{
    if pos < q {
        lemma_next_inline_skip(t, pos + 1, q);
    }
}

proof fn lemma_next_footnote_skip(t: Seq<char>, pos: int, q: int)
    requires
        0 <= pos <= q <= t.len(),
        forall|r: int| pos <= r < q ==> footnote_at(t, r) < 0,
    ensures
        next_footnote(t, pos) == next_footnote(t, q),
    decreases q - pos,
{
    if pos < q {
        lemma_next_footnote_skip(t, pos + 1, q);
    }
}

proof fn lemma_plain_range(t: Seq<char>, pos: int, q: int, a: Seq<char>)
    requires
        0 <= pos <= q <= t.len(),
        q - pos == a.len(),
        t.subrange(pos, q) == a,
        plain_text(a),
    ensures
        forall|r: int| pos <= r < q ==> inline_end(t, r) < 0 && footnote_at(t, r) < 0,
{
    assert forall|r: int| pos <= r < q implies inline_end(t, r) < 0 && footnote_at(t, r) < 0 by {
        assert(t[r] == a[r - pos]);
        let c = a[r - pos];
        assert(!(c == '`' || c == '*' || c == '[' || c == '{' || c == '!'));
    }
}

proof fn lemma_cited_from(t: Seq<char>, pos: int, segs: Seq<(Seq<char>, Seq<Seq<char>>)>, tail: Seq<char>)
    requires
        0 <= pos <= t.len(),
        t.subrange(pos, t.len() as int) == cited_text(segs, tail),
        cited_ok(segs, tail),
    ensures
        flat_seq(inline_from(t, pos)) == t.subrange(pos, t.len() as int),
        next_footnote(t, pos) == t.len(),
    decreases segs.len(),
{
    let n = t.len() as int;
    if segs.len() == 0 {
        lemma_plain_range(t, pos, n, tail);
        lemma_next_footnote_skip(t, pos, n);
        if pos < n {
            lemma_next_inline_skip(t, pos, n);
            let one = seq![SInline::Text(t.subrange(pos, n))];
            assert(inline_from(t, pos) == one);
            assert(one.drop_last() =~= Seq::<SInline>::empty());
            assert(flat_seq(Seq::<SInline>::empty()) == Seq::<char>::empty());
            assert(flat_seq(one) == flat_seq(one.drop_last()) + flat_inline(one.last()));
            assert(flat_seq(one) =~= t.subrange(pos, n));
        } else {
            assert(t.subrange(pos, n) =~= Seq::<char>::empty());
        }
    } else {
        let a = segs[0].0;
        let ks = segs[0].1;
        let c = cite_src(ks);
        let after = cited_text(segs.drop_first(), tail);
        let p = pos + a.len();
        let e = p + c.len();
        let w = t.subrange(pos, n);
        assert(cited_text(segs, tail) == a + c + after);
        assert(w == a + c + after);
        assert(w.len() == a.len() + c.len() + after.len());
        assert(t.subrange(pos, p) =~= a) by {
            assert forall|i: int| 0 <= i < a.len() implies t.subrange(pos, p)[i] == a[i] by {
                assert(t[pos + i] == w[i]);
                assert(w[i] == (a + c + after)[i]);
            }
        }
        assert(t.subrange(p, e) =~= c) by {
            assert forall|i: int| 0 <= i < c.len() implies t.subrange(p, e)[i] == c[i] by {
                assert(t[p + i] == w[a.len() + i]);
                assert(w[a.len() + i] == (a + c + after)[a.len() + i]);
            }
        }
        assert(t.subrange(e, n) =~= after) by {
            assert forall|i: int| 0 <= i < after.len() implies t.subrange(e, n)[i] == after[i] by {
                assert(t[e + i] == w[a.len() + c.len() + i]);
                assert(w[a.len() + c.len() + i] == (a + c + after)[a.len() + c.len() + i]);
            }
        }
        if e < n {
            assert(t[e] == after[0]);
        }
        lemma_cite_start(t, p, ks);
        lemma_plain_range(t, pos, p, a);
        lemma_next_inline_skip(t, pos, p);
        assert(next_inline(t, p) == p);
        lemma_cited_from(t, e, segs.drop_first(), tail);
        let pre = if p > pos { seq![SInline::Text(t.subrange(pos, p))] } else { Seq::empty() };
        assert(resume_at(t, p, e, 5) == e);
        assert(inline_from(t, pos) == pre + seq![SInline::Citation(ks)] + inline_from(t, e));
        lemma_flat_concat(pre + seq![SInline::Citation(ks)], inline_from(t, e));
        lemma_flat_concat(pre, seq![SInline::Citation(ks)]);
        assert(flat_seq(Seq::<SInline>::empty()) == Seq::<char>::empty());
        assert(flat_seq(seq![SInline::Citation(ks)]) =~= c) by {
            let one = seq![SInline::Citation(ks)];
            assert(one.drop_last() =~= Seq::<SInline>::empty());
            assert(flat_seq(one) == flat_seq(one.drop_last()) + flat_inline(one.last()));
        }
        if p > pos {
            assert(flat_seq(pre) =~= a) by {
                assert(pre.drop_last() =~= Seq::<SInline>::empty());
                assert(flat_seq(pre) == flat_seq(pre.drop_last()) + flat_inline(pre.last()));
            }
        } else {
            assert(a =~= Seq::<char>::empty());
            assert(flat_seq(pre) =~= a);
        }
        assert(flat_seq(inline_from(t, pos)) =~= a + c + after);
        assert forall|r: int| pos <= r < e implies footnote_at(t, r) < 0 by {
            if r > p {
                assert(t[r] != '[');
            }
        }
        lemma_next_footnote_skip(t, pos, e);
    }
}

/// Parsing text made of plain runs and canonical citations `[@k1; @k2]`
/// (none followed directly by `(`), then flattening what the parser gives,
/// returns the text.
pub proof fn lemma_cited_text_round_trip(segs: Seq<(Seq<char>, Seq<Seq<char>>)>, tail: Seq<char>)
    requires
        cited_ok(segs, tail),
    ensures
        flat_seq(parse_spec(cited_text(segs, tail))) == cited_text(segs, tail),
{
    let t = cited_text(segs, tail);
    assert(t.subrange(0, t.len() as int) =~= t);
    lemma_cited_from(t, 0, segs, tail);
    assert(parse_spec(t) == footnotes_from(t, 0));
    assert(footnotes_from(t, 0) == inline_from(t.subrange(0, t.len() as int), 0));
}

} // verus!
