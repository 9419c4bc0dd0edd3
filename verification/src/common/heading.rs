//! Removing old numbering from headings ("一、", "（一）", "1.1", "①", "附录A" ...).
//!
//! Fourteen prefix rules are applied in order, each one at most once to the
//! result of the previous one; the text is trimmed at the end.
use vstd::prelude::*;
use crate::charclass::{digit, is_ascii_alnum, is_ascii_alpha, is_digit};
use crate::text::{
    chars_of, is_ws, lemma_skip_ws_bounds, skip_ws, skip_ws_exec, slice_of, string_from_chars,
    trim, trim_chars,
};

verus! {

/// Character classes used by the heading rules.
pub enum Class {
    /// `[A-Za-z0-9]`
    AsciiAlnum,
    /// `\d`
    Digit,
    /// `[一二三四五六七八九十百零]`
    CnNum,
    /// `[一二三四五六七八九十百零\d]`
    CnNumOrDigit,
    /// `[、.．:：]`
    SepColon,
    /// `[、.．]`
    SepDot,
    /// `[、,.．]`
    SepComma,
    /// `[.．、]`
    SepDotIdeo,
    /// `[.\-]`
    DotDash,
    /// `[.．]`
    Dot,
    /// `[章节条部分]`
    Chapter,
    /// `[（(]`
    OpenParen,
    /// `[）)]`
    CloseParen,
    /// `[)）.．]`
    LetterClose,
    /// circled numbers `①`..`⑳`, `㉑`..`㉟`, `㊱`..`㊿`
    Circled,
    /// `⑴`..`⒇`
    ParenNum,
    /// `Ⅰ`..`Ⅹ`
    Roman,
}

pub open spec fn is_cn_num(c: char) -> bool {
    c == '一' || c == '二' || c == '三' || c == '四' || c == '五' || c == '六' || c == '七' || c
        == '八' || c == '九' || c == '十' || c == '百' || c == '零'
}

pub open spec fn in_class(cls: Class, c: char) -> bool {
    match cls {
        Class::AsciiAlnum => is_ascii_alnum(c),
        Class::Digit => is_digit(c),
        Class::CnNum => is_cn_num(c),
        Class::CnNumOrDigit => is_cn_num(c) || is_digit(c),
        Class::SepColon => c == '、' || c == '.' || c == '．' || c == ':' || c == '：',
        Class::SepDot => c == '、' || c == '.' || c == '．',
        Class::SepComma => c == '、' || c == ',' || c == '.' || c == '．',
        Class::SepDotIdeo => c == '.' || c == '．' || c == '、',
        Class::DotDash => c == '.' || c == '-',
        Class::Dot => c == '.' || c == '．',
        Class::Chapter => c == '章' || c == '节' || c == '条' || c == '部' || c == '分',
        Class::OpenParen => c == '（' || c == '(',
        Class::CloseParen => c == '）' || c == ')',
        Class::LetterClose => c == ')' || c == '）' || c == '.' || c == '．',
        Class::Circled => ('\u{2460}' <= c && c <= '\u{2473}') || ('\u{3251}' <= c && c
            <= '\u{325f}') || ('\u{32b1}' <= c && c <= '\u{32bf}'),
        Class::ParenNum => '\u{2474}' <= c && c <= '\u{2487}',
        Class::Roman => '\u{2160}' <= c && c <= '\u{2169}',
    }
}

fn cn_num_exec(c: char) -> (r: bool)
    ensures
        r == is_cn_num(c),
{
    c == '一' || c == '二' || c == '三' || c == '四' || c == '五' || c == '六' || c == '七' || c
        == '八' || c == '九' || c == '十' || c == '百' || c == '零'
}

fn class_has(cls: &Class, c: char) -> (r: bool)
    ensures
        r == in_class(*cls, c),
{
    match cls {
        Class::AsciiAlnum => ('0' <= c && c <= '9') || ('A' <= c && c <= 'Z') || ('a' <= c && c
            <= 'z'),
        Class::Digit => digit(c),
        Class::CnNum => cn_num_exec(c),
        Class::CnNumOrDigit => cn_num_exec(c) || digit(c),
        Class::SepColon => c == '、' || c == '.' || c == '．' || c == ':' || c == '：',
        Class::SepDot => c == '、' || c == '.' || c == '．',
        Class::SepComma => c == '、' || c == ',' || c == '.' || c == '．',
        Class::SepDotIdeo => c == '.' || c == '．' || c == '、',
        Class::DotDash => c == '.' || c == '-',
        Class::Dot => c == '.' || c == '．',
        Class::Chapter => c == '章' || c == '节' || c == '条' || c == '部' || c == '分',
        Class::OpenParen => c == '（' || c == '(',
        Class::CloseParen => c == '）' || c == ')',
        Class::LetterClose => c == ')' || c == '）' || c == '.' || c == '．',
        Class::Circled => ('\u{2460}' <= c && c <= '\u{2473}') || ('\u{3251}' <= c && c
            <= '\u{325f}') || ('\u{32b1}' <= c && c <= '\u{32bf}'),
        Class::ParenNum => '\u{2474}' <= c && c <= '\u{2487}',
        Class::Roman => '\u{2160}' <= c && c <= '\u{2169}',
    }
}

/// `t[i]` is in the class.
pub open spec fn is_in(t: Seq<char>, i: int, cls: Class) -> bool {
    0 <= i < t.len() && in_class(cls, t[i])
}

fn is_in_exec(t: &[char], i: usize, cls: Class) -> (r: bool)
    ensures
        r == is_in(t@, i as int, cls),
{
    i < t.len() && class_has(&cls, t[i])
}

/// End of the (greedy) run of class characters starting at `i`.
pub open spec fn run(t: Seq<char>, i: int, cls: Class) -> int
    decreases t.len() - i,
{
    if 0 <= i < t.len() && in_class(cls, t[i]) {
        run(t, i + 1, cls)
    } else {
        i
    }
}

pub proof fn lemma_run(t: Seq<char>, i: int, cls: Class)
    requires
        0 <= i <= t.len(),
    ensures
        i <= run(t, i, cls) <= t.len(),
    decreases t.len() - i,
{
    if i < t.len() && in_class(cls, t[i]) {
        lemma_run(t, i + 1, cls);
    }
}

fn run_exec(t: &[char], i: usize, cls: Class) -> (r: usize)
    requires
        i <= t@.len(),
    ensures
        r == run(t@, i as int, cls),
        i <= r <= t@.len(),
{
    let mut k = i;
    while k < t.len() && class_has(&cls, t[k])
        invariant
            i <= k <= t@.len(),
            run(t@, k as int, cls) == run(t@, i as int, cls),
        decreases t@.len() - k,
    {
        k += 1;
    }
    k
}

/// Optional single class character at `i` (`[...]?`).
pub open spec fn opt(t: Seq<char>, i: int, cls: Class) -> int {
    if is_in(t, i, cls) {
        i + 1
    } else {
        i
    }
}

/// `\s*[class]?\s*` from `i`.
pub open spec fn sep_tail(t: Seq<char>, i: int, cls: Class) -> int {
    skip_ws(t, opt(t, skip_ws(t, i), cls))
}

fn sep_tail_exec(t: &[char], i: usize, cls: Class) -> (r: usize)
    requires
        i <= t@.len(),
    ensures
        r == sep_tail(t@, i as int, cls),
        i <= r <= t@.len(),
{
    let n = t.len();
    let a = skip_ws_exec(t, i);
    let b = if is_in_exec(t, a, cls) {
        a + 1
    } else {
        a
    };
    skip_ws_exec(t, b)
}

/// `(?:[.\-][A-Za-z0-9]+)*` from `j`.
pub open spec fn dotted_tail(t: Seq<char>, j: int) -> int
    decreases t.len() - j,
{
    if 0 <= j && is_in(t, j, Class::DotDash) {
        let k = run(t, j + 1, Class::AsciiAlnum);
        proof {
            lemma_run(t, j + 1, Class::AsciiAlnum);
        }
        if k > j + 1 {
            dotted_tail(t, k)
        } else {
            j
        }
    } else {
        j
    }
}

/// `(?:\.\d+)*` from `j`.
pub open spec fn number_tail(t: Seq<char>, j: int) -> int
    decreases t.len() - j,
{
    if 0 <= j && 0 <= j < t.len() && t[j] == '.' {
        let k = run(t, j + 1, Class::Digit);
        proof {
            lemma_run(t, j + 1, Class::Digit);
        }
        if k > j + 1 {
            number_tail(t, k)
        } else {
            j
        }
    } else {
        j
    }
}

pub proof fn lemma_dotted_tail(t: Seq<char>, j: int)
    requires
        0 <= j <= t.len(),
    ensures
        j <= dotted_tail(t, j) <= t.len(),
    decreases t.len() - j,
{
    if is_in(t, j, Class::DotDash) {
        lemma_run(t, j + 1, Class::AsciiAlnum);
        let k = run(t, j + 1, Class::AsciiAlnum);
        if k > j + 1 {
            lemma_dotted_tail(t, k);
        }
    }
}

pub proof fn lemma_number_tail(t: Seq<char>, j: int)
    requires
        0 <= j <= t.len(),
    ensures
        j <= number_tail(t, j) <= t.len(),
    decreases t.len() - j,
{
    if j < t.len() && t[j] == '.' {
        lemma_run(t, j + 1, Class::Digit);
        let k = run(t, j + 1, Class::Digit);
        if k > j + 1 {
            lemma_number_tail(t, k);
        }
    }
}

pub fn dotted_tail_exec(t: &[char], j: usize) -> (r: usize)
    requires
        j <= t@.len(),
    ensures
        r == dotted_tail(t@, j as int),
        j <= r <= t@.len(),
{
    let n = t.len();
    let mut k = j;
    loop
        invariant
            n == t@.len(),
            j <= k <= t@.len(),
            dotted_tail(t@, k as int) == dotted_tail(t@, j as int),
        decreases t@.len() - k,
    {
        if is_in_exec(t, k, Class::DotDash) {
            let e = run_exec(t, k + 1, Class::AsciiAlnum);
            if e > k + 1 {
                k = e;
            } else {
                return k;
            }
        } else {
            return k;
        }
    }
}

fn number_tail_exec(t: &[char], j: usize) -> (r: usize)
    requires
        j <= t@.len(),
    ensures
        r == number_tail(t@, j as int),
        j <= r <= t@.len(),
{
    let mut k = j;
    loop
        invariant
            j <= k <= t@.len(),
            number_tail(t@, k as int) == number_tail(t@, j as int),
        decreases t@.len() - k,
    {
        if k < t.len() && t[k] == '.' {
            let e = run_exec(t, k + 1, Class::Digit);
            if e > k + 1 {
                k = e;
            } else {
                return k;
            }
        } else {
            return k;
        }
    }
}

/// ASCII letter case folding.
pub open spec fn lower(c: char) -> char {
    if 'A' <= c && c <= 'Z' {
        ((c as u32) + 32) as char
    } else {
        c
    }
}

fn lower_exec(c: char) -> (r: char)
    ensures
        r == lower(c),
{
    if 'A' <= c && c <= 'Z' {
        ((c as u8) + 32) as char
    } else {
        c
    }
}

/// `(?i:appendix)` at 0.
pub open spec fn appendix_word(t: Seq<char>) -> bool {
    t.len() >= 8 && lower(t[0]) == 'a' && lower(t[1]) == 'p' && lower(t[2]) == 'p' && lower(t[3])
        == 'e' && lower(t[4]) == 'n' && lower(t[5]) == 'd' && lower(t[6]) == 'i' && lower(t[7])
        == 'x'
}

fn appendix_word_exec(t: &[char]) -> (r: bool)
    ensures
        r == appendix_word(t@),
{
    t.len() >= 8 && lower_exec(t[0]) == 'a' && lower_exec(t[1]) == 'p' && lower_exec(t[2]) == 'p'
        && lower_exec(t[3]) == 'e' && lower_exec(t[4]) == 'n' && lower_exec(t[5]) == 'd'
        && lower_exec(t[6]) == 'i' && lower_exec(t[7]) == 'x'
}

/// `\s*[A-Za-z0-9]+(?:[.\-][A-Za-z0-9]+)*\s*[、.．:：]?\s*` from `i`, or -1.
pub open spec fn appendix_rest(t: Seq<char>, i: int) -> int {
    let a = skip_ws(t, i);
    let b = run(t, a, Class::AsciiAlnum);
    if b > a {
        sep_tail(t, dotted_tail(t, b), Class::SepColon)
    } else {
        -1
    }
}

/// End of the match of heading rule `k` (0..=13) at the start of `t`, or -1.
pub open spec fn rule_end(k: int, t: Seq<char>) -> int {
    if k == 0 {
        // ^附录\s*[A-Za-z0-9]+(?:[.\-][A-Za-z0-9]+)*\s*[、.．:：]?\s*
        if t.len() >= 2 && t[0] == '附' && t[1] == '录' {
            appendix_rest(t, 2)
        } else {
            -1
        }
    } else if k == 1 {
        // ^(?i:appendix)\s*[A-Za-z0-9]+(?:[.\-][A-Za-z0-9]+)*\s*[、.．:：]?\s*
        if appendix_word(t) {
            appendix_rest(t, 8)
        } else {
            -1
        }
    } else if k == 2 {
        // ^第[一二三四五六七八九十百零\d]+[章节条部分]\s*[、.．]?\s*
        if t.len() >= 1 && t[0] == '第' {
            let j = run(t, 1, Class::CnNumOrDigit);
            if j > 1 && is_in(t, j, Class::Chapter) {
                sep_tail(t, j + 1, Class::SepDot)
            } else {
                -1
            }
        } else {
            -1
        }
    } else if k == 3 {
        // ^[（(][一二三四五六七八九十百零]+[）)]\s*[、.．]?\s*
        if is_in(t, 0, Class::OpenParen) {
            let j = run(t, 1, Class::CnNum);
            if j > 1 && is_in(t, j, Class::CloseParen) {
                sep_tail(t, j + 1, Class::SepDot)
            } else {
                -1
            }
        } else {
            -1
        }
    } else if k == 4 {
        // ^[一二三四五六七八九十百零]+[、,.．]\s*
        let j = run(t, 0, Class::CnNum);
        if j > 0 && is_in(t, j, Class::SepComma) {
            skip_ws(t, j + 1)
        } else {
            -1
        }
    } else if k == 5 {
        // ^[（(]\d+[）)]\s*[、.．]?\s*
        if is_in(t, 0, Class::OpenParen) {
            let j = run(t, 1, Class::Digit);
            if j > 1 && is_in(t, j, Class::CloseParen) {
                sep_tail(t, j + 1, Class::SepDot)
            } else {
                -1
            }
        } else {
            -1
        }
    } else if k == 6 {
        // ^\(\d+\)\s*[、.．]?\s*
        if t.len() >= 1 && t[0] == '(' {
            let j = run(t, 1, Class::Digit);
            if j > 1 && 0 <= j < t.len() && t[j] == ')' {
                sep_tail(t, j + 1, Class::SepDot)
            } else {
                -1
            }
        } else {
            -1
        }
    } else if k == 7 {
        // ^\d+(?:\.\d+)+[.．]?\s*
        let j = run(t, 0, Class::Digit);
        if j > 0 && 0 <= j < t.len() && t[j] == '.' && run(t, j + 1, Class::Digit) > j + 1 {
            skip_ws(t, opt(t, number_tail(t, j), Class::Dot))
        } else {
            -1
        }
    } else if k == 8 {
        // ^\d+[.．、]\s+
        let j = run(t, 0, Class::Digit);
        if j > 0 && is_in(t, j, Class::SepDotIdeo) && skip_ws(t, j + 1) > j + 1 {
            skip_ws(t, j + 1)
        } else {
            -1
        }
    } else if k == 9 {
        // ^\d+\s+
        let j = run(t, 0, Class::Digit);
        if j > 0 && skip_ws(t, j) > j {
            skip_ws(t, j)
        } else {
            -1
        }
    } else if k == 10 {
        // ^[①..㊿]\s*[.．、]?\s*
        if is_in(t, 0, Class::Circled) {
            sep_tail(t, 1, Class::SepDotIdeo)
        } else {
            -1
        }
    } else if k == 11 {
        // ^[⑴..⒇]\s*[.．、]?\s*
        if is_in(t, 0, Class::ParenNum) {
            sep_tail(t, 1, Class::SepDotIdeo)
        } else {
            -1
        }
    } else if k == 12 {
        // ^[ⅠⅡⅢⅣⅤⅥⅦⅧⅨⅩ]\s*[.．、]?\s*
        if is_in(t, 0, Class::Roman) {
            sep_tail(t, 1, Class::SepDotIdeo)
        } else {
            -1
        }
    } else {
        // ^[A-Za-z][)）.．]\s*
        if t.len() >= 2 && is_ascii_alpha(t[0]) && in_class(Class::LetterClose, t[1]) {
            skip_ws(t, 2)
        } else {
            -1
        }
    }
}

/// Rule `k` applied once: its match at the start is removed.
pub open spec fn apply_rule(k: int, t: Seq<char>) -> Seq<char> {
    let e = rule_end(k, t);
    if e >= 0 {
        t.subrange(e, t.len() as int)
    } else {
        t
    }
}

/// Rules `k`, `k + 1`, ..., 13 applied in turn.
pub open spec fn apply_rules_from(k: int, t: Seq<char>) -> Seq<char>
    decreases 14 - k,
{
    if k >= 14 {
        t
    } else {
        apply_rules_from(k + 1, apply_rule(k, t))
    }
}

/// The heading text without its old numbering, trimmed.
pub open spec fn clean_spec(t: Seq<char>) -> Seq<char> {
    trim(apply_rules_from(0, t))
}

fn appendix_rest_exec(t: &[char], i: usize) -> (r: Option<usize>)
    requires
        i <= t@.len(),
    ensures
        r matches Some(e) ==> appendix_rest(t@, i as int) == e && e <= t@.len(),
        r is None ==> appendix_rest(t@, i as int) < 0,
{
    let a = skip_ws_exec(t, i);
    let b = run_exec(t, a, Class::AsciiAlnum);
    if b > a {
        let d = dotted_tail_exec(t, b);
        Some(sep_tail_exec(t, d, Class::SepColon))
    } else {
        None
    }
}

pub fn rule_end_exec(k: usize, t: &[char]) -> (r: Option<usize>)
    requires
        k < 14,
    ensures
        r matches Some(e) ==> rule_end(k as int, t@) == e && e <= t@.len(),
        r is None ==> rule_end(k as int, t@) < 0,
{
    let n = t.len();
    proof {
        lemma_skip_ws_bounds(t@, 0);
    }
    if k == 0 {
        if n >= 2 && t[0] == '附' && t[1] == '录' {
            appendix_rest_exec(t, 2)
        } else {
            None
        }
    } else if k == 1 {
        if appendix_word_exec(t) {
            appendix_rest_exec(t, 8)
        } else {
            None
        }
    } else if k == 2 {
        if n >= 1 && t[0] == '第' {
            let j = run_exec(t, 1, Class::CnNumOrDigit);
            if j > 1 && is_in_exec(t, j, Class::Chapter) {
                Some(sep_tail_exec(t, j + 1, Class::SepDot))
            } else {
                None
            }
        } else {
            None
        }
    } else if k == 3 {
        if is_in_exec(t, 0, Class::OpenParen) {
            let j = run_exec(t, 1, Class::CnNum);
            if j > 1 && is_in_exec(t, j, Class::CloseParen) {
                Some(sep_tail_exec(t, j + 1, Class::SepDot))
            } else {
                None
            }
        } else {
            None
        }
    } else if k == 4 {
        let j = run_exec(t, 0, Class::CnNum);
        if j > 0 && is_in_exec(t, j, Class::SepComma) {
            Some(skip_ws_exec(t, j + 1))
        } else {
            None
        }
    } else if k == 5 {
        if is_in_exec(t, 0, Class::OpenParen) {
            let j = run_exec(t, 1, Class::Digit);
            if j > 1 && is_in_exec(t, j, Class::CloseParen) {
                Some(sep_tail_exec(t, j + 1, Class::SepDot))
            } else {
                None
            }
        } else {
            None
        }
    } else if k == 6 {
        if n >= 1 && t[0] == '(' {
            let j = run_exec(t, 1, Class::Digit);
            if j > 1 && j < n && t[j] == ')' {
                Some(sep_tail_exec(t, j + 1, Class::SepDot))
            } else {
                None
            }
        } else {
            None
        }
    } else if k == 7 {
        let j = run_exec(t, 0, Class::Digit);
        if j > 0 && j < n && t[j] == '.' && run_exec(t, j + 1, Class::Digit) > j + 1 {
            let d = number_tail_exec(t, j);
            let o = if is_in_exec(t, d, Class::Dot) {
                d + 1
            } else {
                d
            };
            Some(skip_ws_exec(t, o))
        } else {
            None
        }
    } else if k == 8 {
        let j = run_exec(t, 0, Class::Digit);
        if j > 0 && is_in_exec(t, j, Class::SepDotIdeo) {
            let w = skip_ws_exec(t, j + 1);
            if w > j + 1 {
                Some(w)
            } else {
                None
            }
        } else {
            None
        }
    } else if k == 9 {
        let j = run_exec(t, 0, Class::Digit);
        if j > 0 {
            let w = skip_ws_exec(t, j);
            if w > j {
                Some(w)
            } else {
                None
            }
        } else {
            None
        }
    } else if k == 10 {
        if is_in_exec(t, 0, Class::Circled) {
            Some(sep_tail_exec(t, 1, Class::SepDotIdeo))
        } else {
            None
        }
    } else if k == 11 {
        if is_in_exec(t, 0, Class::ParenNum) {
            Some(sep_tail_exec(t, 1, Class::SepDotIdeo))
        } else {
            None
        }
    } else if k == 12 {
        if is_in_exec(t, 0, Class::Roman) {
            Some(sep_tail_exec(t, 1, Class::SepDotIdeo))
        } else {
            None
        }
    } else {
        if n >= 2 && (('A' <= t[0] && t[0] <= 'Z') || ('a' <= t[0] && t[0] <= 'z')) && class_has(
            &Class::LetterClose,
            t[1],
        ) {
            Some(skip_ws_exec(t, 2))
        } else {
            None
        }
    }
}

/// Removes old heading numbering (`一、`, `（一）`, `1.`, `1.1.1`, circled
/// numbers, `附录A`, ...) and trims the result.
pub fn clean_chars(t: &[char]) -> (r: Vec<char>)
    ensures
        r@ == clean_spec(t@),
{
    let mut cur: Vec<char> = slice_of(t, 0, t.len());
    assert(cur@ =~= t@);
    let mut k: usize = 0;
    while k < 14
        invariant
            k <= 14,
            apply_rules_from(k as int, cur@) == apply_rules_from(0, t@),
        decreases 14 - k,
    {
        match rule_end_exec(k, &cur) {
            Some(e) => {
                cur = slice_of(&cur, e, cur.len());
            },
            None => {},
        }
        k += 1;
    }
    trim_chars(&cur)
}

/// Removes old heading numbering and trims (see [`clean_chars`]).
pub fn clean(text: &str) -> (s: String)
    ensures
        s@ == clean_spec(text@),
{
    let t = chars_of(text);
    let r = clean_chars(&t);
    string_from_chars(&r)
}


// ---------------------------------------------------------------------------
// Numbered headings
// ---------------------------------------------------------------------------

proof fn lemma_run_exact(x: Seq<char>, a: int, b: int, cls: Class)
    requires
        0 <= a <= b <= x.len(),
        forall|i: int| a <= i < b ==> in_class(cls, #[trigger] x[i]),
        b < x.len() ==> !in_class(cls, x[b]),
    ensures
        run(x, a, cls) == b,
    decreases b - a,
{
    if a < b {
        lemma_run_exact(x, a + 1, b, cls);
    }
}

proof fn lemma_skip_ws_exact(x: Seq<char>, a: int, b: int)
    requires
        0 <= a <= b <= x.len(),
        forall|i: int| a <= i < b ==> is_ws(#[trigger] x[i]),
        b < x.len() ==> !is_ws(x[b]),
    ensures
        skip_ws(x, a) == b,
    decreases b - a,
{
    if a < b {
        lemma_skip_ws_exact(x, a + 1, b);
    }
}

/// A title that carries no numbering of its own at the start: it does not
/// begin with whitespace, a digit, a circled or parenthesised number, a
/// Roman numeral, or a letter followed by `)`, `）`, `.` or `．`.
pub open spec fn plain_title(t: Seq<char>) -> bool {
    t.len() > 0 ==> {
        &&& !is_ws(t[0])
        &&& !is_digit(t[0])
        &&& !in_class(Class::Circled, t[0])
        &&& !in_class(Class::ParenNum, t[0])
        &&& !in_class(Class::Roman, t[0])
        &&& !(t.len() >= 2 && is_ascii_alpha(t[0]) && in_class(Class::LetterClose, t[1]))
    }
}

/// `1. 引言`, `12、引言`, `3． 引言`: a heading made of decimal digits, one
/// of `.`, `．`, `、`, at least one whitespace character and a title loses
/// the number, the separator and the whitespace. (The separator and the
/// first whitespace character are not digits; for ASCII ones that is
/// proved, for the others it is what Unicode says of `\d`.)
pub proof fn lemma_numbered_heading_stripped(d: Seq<char>, sep: char, ws: Seq<char>, t: Seq<char>)
    requires
        d.len() > 0,
        forall|i: int| 0 <= i < d.len() ==> '0' <= #[trigger] d[i] <= '9',
        sep == '.' || sep == '．' || sep == '、',
        !is_digit(sep),
        ws.len() > 0,
        forall|i: int| 0 <= i < ws.len() ==> is_ws(#[trigger] ws[i]),
        !is_digit(ws[0]),
        plain_title(t),
    ensures
        clean_spec(d + seq![sep] + ws + t) == trim(t),
{
    let x = d + seq![sep] + ws + t;
    let j = d.len() as int;
    let e = j + 1 + ws.len();
    assert forall|i: int| 0 <= i < j implies in_class(Class::Digit, #[trigger] x[i]) by {
        assert(x[i] == d[i]);
    }
    assert(x[j] == sep);
    lemma_run_exact(x, 0, j, Class::Digit);
    assert(x[0] == d[0]);
    assert(!is_cn_num(x[0]));
    lemma_run_exact(x, 0, 0, Class::CnNum);
    assert(rule_end(0, x) < 0);
    assert(lower(x[0]) == x[0]);
    assert(rule_end(1, x) < 0);
    assert(rule_end(2, x) < 0);
    assert(rule_end(3, x) < 0);
    assert(rule_end(4, x) < 0);
    assert(rule_end(5, x) < 0);
    assert(rule_end(6, x) < 0);
    assert(x[j + 1] == ws[0]);
    lemma_run_exact(x, j + 1, j + 1, Class::Digit);
    assert(rule_end(7, x) < 0);
    assert forall|i: int| j + 1 <= i < e implies is_ws(#[trigger] x[i]) by {
        assert(x[i] == ws[i - j - 1]);
    }
    if e < x.len() {
        assert(x[e] == t[0]);
    }
    lemma_skip_ws_exact(x, j + 1, e);
    assert(rule_end(8, x) == e);
    assert(x.subrange(e, x.len() as int) =~= t);
    assert(apply_rule(8, x) == t);
    if t.len() > 0 {
        lemma_run_exact(t, 0, 0, Class::Digit);
    } else {
        lemma_run_exact(t, 0, 0, Class::Digit);
    }
    assert(rule_end(9, t) < 0);
    assert(rule_end(10, t) < 0);
    assert(rule_end(11, t) < 0);
    assert(rule_end(12, t) < 0);
    assert(rule_end(13, t) < 0);
    assert(apply_rules_from(14, t) == t);
    assert(apply_rules_from(13, t) == t);
    assert(apply_rules_from(12, t) == t);
    assert(apply_rules_from(11, t) == t);
    assert(apply_rules_from(10, t) == t);
    assert(apply_rules_from(9, t) == t);
    assert(apply_rules_from(8, x) == t);
    assert(apply_rules_from(7, x) == t);
    assert(apply_rules_from(6, x) == t);
    assert(apply_rules_from(5, x) == t);
    assert(apply_rules_from(4, x) == t);
    assert(apply_rules_from(3, x) == t);
    assert(apply_rules_from(2, x) == t);
    assert(apply_rules_from(1, x) == t);
    assert(apply_rules_from(0, x) == t);
}

} // verus!
