//! Section markers: a line that is an HTML comment holding a bracketed
//! section name, such as `<!-- [摘要] -->`.
use vstd::prelude::*;
use crate::common::ast::MarkerKind;
use crate::text::{at, chars_eq, chars_of, has_at, slice_of, trim, trim_chars};

verus! {

/// The section named by `inner` (the comment text without `<!--`/`-->`, trimmed).
pub open spec fn marker_name(inner: Seq<char>) -> Option<MarkerKind> {
    if inner == seq!['[', '摘', '要', ']'] {
        Some(MarkerKind::Abstract)
    } else if inner == seq!['[', '附', '录', ']'] {
        Some(MarkerKind::Appendix)
    } else if inner == seq!['[', '版', '本', '变', '更', '记', '录', ']'] {
        Some(MarkerKind::Changelog)
    } else if inner == seq!['[', '正', '文', ']'] {
        Some(MarkerKind::Body)
    } else if inner == seq!['[', '参', '考', '文', '献', ']'] {
        Some(MarkerKind::Reference)
    } else {
        None
    }
}

/// The marker of a (trimmed) line: `<!--`, then the bracketed name with any
/// whitespace around it, then `-->`.
pub open spec fn marker_spec(line: Seq<char>) -> Option<MarkerKind> {
    if line.len() >= 7 && has_at(line, 0, seq!['<', '!', '-', '-']) && has_at(
        line,
        line.len() - 3,
        seq!['-', '-', '>'],
    ) {
        marker_name(trim(line.subrange(4, line.len() - 3)))
    } else {
        None
    }
}

pub fn detect_chars(line: &[char]) -> (r: Option<MarkerKind>)
    ensures
        r == marker_spec(line@),
{
    let open = ['<', '!', '-', '-'];
    let close = ['-', '-', '>'];
    assert(open@ =~= seq!['<', '!', '-', '-']);
    assert(close@ =~= seq!['-', '-', '>']);
    if !(line.len() >= 7 && at(line, 0, &open) && at(line, line.len() - 3, &close)) {
        return None;
    }
    let inner = trim_chars(&slice_of(line, 4, line.len() - 3));
    let n1 = ['[', '摘', '要', ']'];
    let n2 = ['[', '附', '录', ']'];
    let n3 = ['[', '版', '本', '变', '更', '记', '录', ']'];
    let n4 = ['[', '正', '文', ']'];
    let n5 = ['[', '参', '考', '文', '献', ']'];
    assert(n1@ =~= seq!['[', '摘', '要', ']']);
    assert(n2@ =~= seq!['[', '附', '录', ']']);
    assert(n3@ =~= seq!['[', '版', '本', '变', '更', '记', '录', ']']);
    assert(n4@ =~= seq!['[', '正', '文', ']']);
    assert(n5@ =~= seq!['[', '参', '考', '文', '献', ']']);
    if chars_eq(&inner, &n1) {
        Some(MarkerKind::Abstract)
    } else if chars_eq(&inner, &n2) {
        Some(MarkerKind::Appendix)
    } else if chars_eq(&inner, &n3) {
        Some(MarkerKind::Changelog)
    } else if chars_eq(&inner, &n4) {
        Some(MarkerKind::Body)
    } else if chars_eq(&inner, &n5) {
        Some(MarkerKind::Reference)
    } else {
        None
    }
}

/// Section marker of a trimmed line, if it is one.
pub fn detect(line: &str) -> (r: Option<MarkerKind>)
    ensures
        r == marker_spec(line@),
{
    let l = chars_of(line);
    detect_chars(&l)
}

} // verus!
