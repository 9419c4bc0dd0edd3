//! Numbering schemes: Chinese numerals, Roman numerals, letter sequences, list prefixes.
use vstd::prelude::*;
use crate::text::{decimal, push_char, push_decimal};

verus! {

/// `一` .. `九` for 1..=9.
pub open spec fn cn_digit(d: nat) -> char {
    if d == 1 { '一' }
    else if d == 2 { '二' }
    else if d == 3 { '三' }
    else if d == 4 { '四' }
    else if d == 5 { '五' }
    else if d == 6 { '六' }
    else if d == 7 { '七' }
    else if d == 8 { '八' }
    else { '九' }
}

/// Chinese numeral of 0..=10 (`""`, `一`, ..., `十`).
pub open spec fn cn_small(n: nat) -> Seq<char> {
    if n == 0 { Seq::empty() }
    else if n == 10 { seq!['十'] }
    else { seq![cn_digit(n)] }
}

/// Chinese numeral for 1..=99 (`一`, `十一`, `二十一`); numbers outside
/// that range (0, and 100 or more) fall back to decimal digits.
pub open spec fn chinese_numeral(n: nat) -> Seq<char> {
    if n == 0 || n >= 100 {
        decimal(n)
    } else if n <= 10 {
        cn_small(n)
    } else if n < 20 {
        seq!['十'] + cn_small((n - 10) as nat)
    } else if n < 100 {
        if n % 10 == 0 {
            cn_small(n / 10) + seq!['十']
        } else {
            cn_small(n / 10) + seq!['十'] + cn_small(n % 10)
        }
    } else {
        decimal(n)
    }
}

fn cn_digit_exec(d: usize) -> (c: char)
    requires
        1 <= d <= 9,
    ensures
        c == cn_digit(d as nat),
{
    if d == 1 { '一' }
    else if d == 2 { '二' }
    else if d == 3 { '三' }
    else if d == 4 { '四' }
    else if d == 5 { '五' }
    else if d == 6 { '六' }
    else if d == 7 { '七' }
    else if d == 8 { '八' }
    else { '九' }
}

fn push_cn_small(s: &mut String, n: usize)
    requires
        n <= 10,
    ensures
        final(s)@ == old(s)@ + cn_small(n as nat),
{
    if n == 0 {
        assert(old(s)@ + cn_small(0) =~= old(s)@);
    } else if n == 10 {
        push_char(s, '十');
    } else {
        push_char(s, cn_digit_exec(n));
    }
}

/// 1..=99 as a Chinese numeral (`一` / `十一` / `二十一`); other numbers stay decimal.
pub fn number_to_chinese(num: usize) -> (s: String)
    ensures
        s@ == chinese_numeral(num as nat),
{
    let mut s = String::new();
    if num == 0 || num >= 100 {
        push_decimal(&mut s, num);
    } else if num <= 10 {
        push_cn_small(&mut s, num);
    } else if num < 20 {
        push_char(&mut s, '十');
        push_cn_small(&mut s, num - 10);
    } else if num < 100 {
        push_cn_small(&mut s, num / 10);
        push_char(&mut s, '十');
        if num % 10 != 0 {
            push_cn_small(&mut s, num % 10);
        }
    }
    s
}

/// Values of the Roman numeral table, largest first.
pub open spec fn roman_value(i: int) -> nat {
    if i == 0 { 1000 }
    else if i == 1 { 900 }
    else if i == 2 { 500 }
    else if i == 3 { 400 }
    else if i == 4 { 100 }
    else if i == 5 { 90 }
    else if i == 6 { 50 }
    else if i == 7 { 40 }
    else if i == 8 { 10 }
    else if i == 9 { 9 }
    else if i == 10 { 5 }
    else if i == 11 { 4 }
    else { 1 }
}

/// Symbols of the Roman numeral table.
pub open spec fn roman_symbol(i: int) -> Seq<char> {
    if i == 0 { seq!['M'] }
    else if i == 1 { seq!['C', 'M'] }
    else if i == 2 { seq!['D'] }
    else if i == 3 { seq!['C', 'D'] }
    else if i == 4 { seq!['C'] }
    else if i == 5 { seq!['X', 'C'] }
    else if i == 6 { seq!['L'] }
    else if i == 7 { seq!['X', 'L'] }
    else if i == 8 { seq!['X'] }
    else if i == 9 { seq!['I', 'X'] }
    else if i == 10 { seq!['V'] }
    else if i == 11 { seq!['I', 'V'] }
    else { seq!['I'] }
}

/// Greedy Roman numeral of `n` using table entries from `i` on.
pub open spec fn roman_from(n: nat, i: int) -> Seq<char>
    decreases 13 - i, n,
{
    if i < 0 || i >= 13 {
        Seq::empty()
    } else if n >= roman_value(i) {
        roman_symbol(i) + roman_from((n - roman_value(i)) as nat, i)
    } else {
        roman_from(n, i + 1)
    }
}

/// Upper-case Roman numeral (`I`, `IV`, `MMXXIV`); 0 gives the empty string.
pub open spec fn roman(n: nat) -> Seq<char> {
    roman_from(n, 0)
}

fn roman_value_exec(i: usize) -> (v: usize)
    requires
        i < 13,
    ensures
        v == roman_value(i as int),
{
    if i == 0 { 1000 }
    else if i == 1 { 900 }
    else if i == 2 { 500 }
    else if i == 3 { 400 }
    else if i == 4 { 100 }
    else if i == 5 { 90 }
    else if i == 6 { 50 }
    else if i == 7 { 40 }
    else if i == 8 { 10 }
    else if i == 9 { 9 }
    else if i == 10 { 5 }
    else if i == 11 { 4 }
    else { 1 }
}

fn push_roman_symbol(s: &mut String, i: usize)
    requires
        i < 13,
    ensures
        final(s)@ == old(s)@ + roman_symbol(i as int),
{
    let ghost s0 = s@;
    if i == 0 { push_char(s, 'M'); }
    else if i == 1 { push_char(s, 'C'); push_char(s, 'M'); }
    else if i == 2 { push_char(s, 'D'); }
    else if i == 3 { push_char(s, 'C'); push_char(s, 'D'); }
    else if i == 4 { push_char(s, 'C'); }
    else if i == 5 { push_char(s, 'X'); push_char(s, 'C'); }
    else if i == 6 { push_char(s, 'L'); }
    else if i == 7 { push_char(s, 'X'); push_char(s, 'L'); }
    else if i == 8 { push_char(s, 'X'); }
    else if i == 9 { push_char(s, 'I'); push_char(s, 'X'); }
    else if i == 10 { push_char(s, 'V'); }
    else if i == 11 { push_char(s, 'I'); push_char(s, 'V'); }
    else { push_char(s, 'I'); }
    assert(s@ =~= s0 + roman_symbol(i as int));
}

/// Appends the Roman numeral of `num`.
pub fn push_roman(s: &mut String, num: usize)
    ensures
        final(s)@ == old(s)@ + roman(num as nat),
{
    let mut n = num;
    let mut i: usize = 0;
    while i < 13
        invariant
            i <= 13,
            old(s)@ + roman(num as nat) == s@ + roman_from(n as nat, i as int),
        decreases 13 - i, n,
    {
        let v = roman_value_exec(i);
        if n >= v {
            let ghost before = s@;
            push_roman_symbol(s, i);
            n = n - v;
            assert(before + roman_from((n + v) as nat, i as int) =~= s@ + roman_from(n as nat, i as int));
        } else {
            i += 1;
        }
    }
    assert(s@ + roman_from(n as nat, 13) =~= s@);
}

/// Arabic number to upper-case Roman numeral (`I` / `II` / `IX` / ...).
pub fn int_to_roman(num: usize) -> (s: String)
    ensures
        s@ == roman(num as nat),
{
    let mut s = String::new();
    push_roman(&mut s, num);
    assert(s@ =~= roman(num as nat));
    s
}

/// The capital letter with offset `k` from `A`.
pub open spec fn letter(k: nat) -> char {
    ((65 + k) as u32) as char
}

/// Spreadsheet-style column name: 1 → `A`, 26 → `Z`, 27 → `AA`; 0 → empty.
pub open spec fn column_letters(n: nat) -> Seq<char>
    decreases n,
{
    if n == 0 {
        Seq::empty()
    } else {
        column_letters(((n - 1) / 26) as nat).push(letter(((n - 1) % 26) as nat))
    }
}

fn letter_exec(k: usize) -> (c: char)
    requires
        k < 26,
    ensures
        c == letter(k as nat),
{
    ((65 + k) as u8) as char
}

/// Appends the spreadsheet-style column name of `num`.
pub fn push_column_letters(s: &mut String, num: usize)
    ensures
        final(s)@ == old(s)@ + column_letters(num as nat),
    decreases num,
{
    if num == 0 {
        assert(old(s)@ + column_letters(0) =~= old(s)@);
    } else {
        push_column_letters(s, (num - 1) / 26);
        push_char(s, letter_exec((num - 1) % 26));
        assert(s@ =~= old(s)@ + column_letters(num as nat));
    }
}

/// 1..=26 → `A`..`Z`; 27 → `AA`, and so on (spreadsheet column names).
pub fn number_to_uppercase_letter(num: usize) -> (s: String)
    ensures
        s@ == column_letters(num as nat),
{
    let mut s = String::new();
    push_column_letters(&mut s, num);
    assert(s@ =~= column_letters(num as nat));
    s
}

/// Circled numbers `①`..`⑳`.
pub open spec fn circled_table() -> Seq<char> {
    seq!['①', '②', '③', '④', '⑤', '⑥', '⑦', '⑧', '⑨', '⑩', '⑪', '⑫', '⑬', '⑭', '⑮', '⑯', '⑰', '⑱', '⑲', '⑳']
}

/// Parenthesized numbers `⑴`..`⒇`.
pub open spec fn parenthesized_table() -> Seq<char> {
    seq!['⑴', '⑵', '⑶', '⑷', '⑸', '⑹', '⑺', '⑻', '⑼', '⑽', '⑾', '⑿', '⒀', '⒁', '⒂', '⒃', '⒄', '⒅', '⒆', '⒇']
}

pub open spec fn circled(k: nat) -> char {
    circled_table()[k as int]
}

pub open spec fn parenthesized(k: nat) -> char {
    parenthesized_table()[k as int]
}

pub fn circled_exec(k: usize) -> (c: char)
    requires
        k < 20,
    ensures
        c == circled(k as nat),
{
    let t: [char; 20] = ['①', '②', '③', '④', '⑤', '⑥', '⑦', '⑧', '⑨', '⑩', '⑪', '⑫', '⑬', '⑭', '⑮', '⑯', '⑰', '⑱', '⑲', '⑳'];
    assert(t@ =~= circled_table());
    t[k]
}

pub fn parenthesized_exec(k: usize) -> (c: char)
    requires
        k < 20,
    ensures
        c == parenthesized(k as nat),
{
    let t: [char; 20] = ['⑴', '⑵', '⑶', '⑷', '⑸', '⑹', '⑺', '⑻', '⑼', '⑽', '⑾', '⑿', '⒀', '⒁', '⒂', '⒃', '⒄', '⒅', '⒆', '⒇'];
    assert(t@ =~= parenthesized_table());
    t[k]
}

/// The lower-case letter with offset `k` from `a`.
pub open spec fn small_letter(k: nat) -> char {
    ((97 + k) as u32) as char
}

pub open spec fn paren_decimal(n: nat) -> Seq<char> {
    seq!['('] + decimal(n) + seq![')']
}

/// Official-document list prefix for `level` (1..=6) and the 1-based `count`
/// within that level: `①` → `⑴` → `a.` → `I.` → `(A)` → `1)`; other levels give
/// the empty string.
pub open spec fn official_list_prefix(level: u8, count: nat) -> Seq<char> {
    if level == 1 {
        if 1 <= count <= 20 { seq![circled((count - 1) as nat)] } else { paren_decimal(count) }
    } else if level == 2 {
        if 1 <= count <= 20 { seq![parenthesized((count - 1) as nat)] } else { paren_decimal(count) }
    } else if level == 3 {
        seq![small_letter(((count - 1) % 26) as nat), '.']
    } else if level == 4 {
        roman(count).push('.')
    } else if level == 5 {
        seq!['('] + column_letters(count) + seq![')']
    } else if level == 6 {
        decimal(count).push(')')
    } else {
        Seq::empty()
    }
}

fn push_paren_decimal(s: &mut String, n: usize)
    ensures
        final(s)@ == old(s)@ + paren_decimal(n as nat),
{
    let ghost s0 = s@;
    push_char(s, '(');
    push_decimal(s, n);
    push_char(s, ')');
    assert(s@ =~= s0 + paren_decimal(n as nat));
}

/// Appends the official-document list prefix (see [`official_list_prefix`]).
pub fn push_official_list_prefix(s: &mut String, level: u8, count: usize)
    requires
        1 <= level <= 3 ==> count >= 1,
    ensures
        final(s)@ == old(s)@ + official_list_prefix(level, count as nat),
{
    let ghost s0 = s@;
    if level == 1 {
        if 1 <= count && count <= 20 {
            push_char(s, circled_exec(count - 1));
        } else {
            push_paren_decimal(s, count);
        }
    } else if level == 2 {
        if 1 <= count && count <= 20 {
            push_char(s, parenthesized_exec(count - 1));
        } else {
            push_paren_decimal(s, count);
        }
    } else if level == 3 {
        push_char(s, ((97 + ((count - 1) % 26)) as u8) as char);
        push_char(s, '.');
    } else if level == 4 {
        push_roman(s, count);
        push_char(s, '.');
    } else if level == 5 {
        push_char(s, '(');
        push_column_letters(s, count);
        push_char(s, ')');
    } else if level == 6 {
        push_decimal(s, count);
        push_char(s, ')');
    }
    assert(s@ =~= s0 + official_list_prefix(level, count as nat));
}

/// Official-document list prefix for `level` and 1-based `count`
/// (`①②③` → `⑴⑵⑶` → `a.b.c.` → `I.II.III.` → `(A)(B)` → `1)2)`).
pub fn list_prefix(level: u8, count: usize) -> (s: String)
    requires
        1 <= level <= 3 ==> count >= 1,
    ensures
        s@ == official_list_prefix(level, count as nat),
{
    let mut s = String::new();
    push_official_list_prefix(&mut s, level, count);
    assert(s@ =~= official_list_prefix(level, count as nat));
    s
}

} // verus!
