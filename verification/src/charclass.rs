//! Character classes of the Markdown grammar.
//!
//! Classes whose non-ASCII members come from Unicode tables (`\d`, `\w`) are
//! decided for non-ASCII characters by the `regex` crate, which owns those
//! tables; the ASCII members are spelled out.
use vstd::prelude::*;
use crate::text::push_char;

verus! {

/// Name for the answer of `regex::Regex::is_match` when the regex compiled
/// from `pattern` is run on `haystack` (false when the pattern does not compile).
pub uninterp spec fn regex_is_match(pattern: Seq<char>, haystack: Seq<char>) -> bool;

/// Compiles `pattern` with `regex::Regex::new` and runs `Regex::is_match` on
/// `haystack`. The contract only ties the answer to the name above; nothing
/// about regex semantics is claimed.
#[verifier::external_body]
pub(crate) fn regex_matches(pattern: &str, haystack: &str) -> (r: bool)
    ensures
        r == regex_is_match(pattern@, haystack@),
{
    match regex::Regex::new(pattern) {
        Ok(re) => re.is_match(haystack),
        Err(_) => false,
    }
}

/// ASCII characters are those below U+0080.
pub open spec fn is_ascii_char(c: char) -> bool {
    (c as u32) < 0x80
}

pub open spec fn is_ascii_digit(c: char) -> bool {
    '0' <= c && c <= '9'
}

pub open spec fn is_ascii_alpha(c: char) -> bool {
    ('A' <= c && c <= 'Z') || ('a' <= c && c <= 'z')
}

pub open spec fn is_ascii_alnum(c: char) -> bool {
    is_ascii_digit(c) || is_ascii_alpha(c)
}

/// The regex class `\d` (Unicode decimal digits).
pub open spec fn is_digit(c: char) -> bool {
    if is_ascii_char(c) {
        is_ascii_digit(c)
    } else {
        regex_is_match("^\\d$"@, seq![c])
    }
}

/// The regex class `\w` (Unicode word characters).
pub open spec fn is_word(c: char) -> bool {
    if is_ascii_char(c) {
        is_ascii_alnum(c) || c == '_'
    } else {
        regex_is_match("^\\w$"@, seq![c])
    }
}

fn single(c: char) -> (s: String)
    ensures
        s@ == seq![c],
{
    let mut s = String::new();
    push_char(&mut s, c);
    assert(s@ =~= seq![c]);
    s
}

/// Executable [`is_digit`].
pub fn digit(c: char) -> (r: bool)
    ensures
        r == is_digit(c),
{
    if (c as u32) < 0x80 {
        '0' <= c && c <= '9'
    } else {
        let s = single(c);
        regex_matches("^\\d$", s.as_str())
    }
}

/// Executable [`is_word`].
pub fn word(c: char) -> (r: bool)
    ensures
        r == is_word(c),
{
    if (c as u32) < 0x80 {
        ('0' <= c && c <= '9') || ('A' <= c && c <= 'Z') || ('a' <= c && c <= 'z') || c == '_'
    } else {
        let s = single(c);
        regex_matches("^\\w$", s.as_str())
    }
}

/// Name for `regex::Regex::captures`: the groups of the leftmost match of
/// `pattern` in `haystack` (`None` for a group that took no part), or `None`
/// when nothing matches or the pattern does not compile.
pub uninterp spec fn regex_captures_of(pattern: Seq<char>, haystack: Seq<char>) -> Option<Seq<Option<Seq<char>>>>;

/// Name for `regex::Regex::replace_all`: `haystack` with every match of
/// `pattern` replaced by `replacement` (with `${n}` group references
/// expanded), or `None` when the pattern does not compile.
pub uninterp spec fn regex_replace_all_of(pattern: Seq<char>, haystack: Seq<char>, replacement: Seq<char>) -> Option<Seq<char>>;

pub open spec fn opt_strings(v: Seq<Option<String>>) -> Seq<Option<Seq<char>>> {
    v.map_values(|o: Option<String>| match o { Some(s) => Some(s@), None => None })
}

/// Compiles `pattern` with `regex::Regex::new` and runs `Regex::captures`,
/// copying out each group. Only the name above is claimed.
#[verifier::external_body]
pub(crate) fn regex_captures(pattern: &str, haystack: &str) -> (r: Option<Vec<Option<String>>>)
    ensures
        match r {
            Some(v) => regex_captures_of(pattern@, haystack@) == Some(opt_strings(v@)),
            None => regex_captures_of(pattern@, haystack@) is None,
        },
{
    match regex::Regex::new(pattern) {
        Ok(re) => re.captures(haystack).map(|c| c.iter().map(|m| m.map(|m| m.as_str().to_string())).collect()),
        Err(_) => None,
    }
}

/// Compiles `pattern` with `regex::Regex::new` and runs `Regex::replace_all`
/// with the replacement string. Only the name above is claimed.
#[verifier::external_body]
pub(crate) fn regex_replace_all(pattern: &str, haystack: &str, replacement: &str) -> (r: Option<String>)
    ensures
        match r {
            Some(s) => regex_replace_all_of(pattern@, haystack@, replacement@) == Some(s@),
            None => regex_replace_all_of(pattern@, haystack@, replacement@) is None,
        },
{
    match regex::Regex::new(pattern) {
        Ok(re) => Some(re.replace_all(haystack, replacement).into_owned()),
        Err(_) => None,
    }
}

} // verus!
