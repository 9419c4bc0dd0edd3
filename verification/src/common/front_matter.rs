//! Front matter: simple `key: value` lines between two `---` lines at the
//! top of a Markdown document, holding the cover fields of a report.
use vstd::prelude::*;
use crate::text::{
    chars_eq, chars_of, join_lines, join_range, lines, lines_of, slice_of, string_from_chars, trim,
    trim_chars,
};

verus! {

/// Shared metadata from the front matter.
#[derive(Debug, Clone, PartialEq, Eq)]
pub struct Metadata {
    pub security: Option<String>,
    pub security_years: Option<String>,
    pub doc_type: Option<String>,
    pub doc_number: Option<String>,
    pub version: Option<String>,
    pub institution: Option<String>,
    pub date: Option<String>,
    pub title: Option<String>,
    pub bibliography: Option<String>,
}

impl Default for Metadata {
    fn default() -> (m: Self)
        ensures
            meta_view(m) == empty_meta(),
    {
        Metadata {
            security: None,
            security_years: None,
            doc_type: None,
            doc_number: None,
            version: None,
            institution: None,
            date: None,
            title: None,
            bibliography: None,
        }
    }
}

/// The fields of [`Metadata`] as a sequence, in declaration order.
pub type SMeta = Seq<Option<Seq<char>>>;

pub open spec fn ostr(o: Option<String>) -> Option<Seq<char>> {
    match o {
        Some(s) => Some(s@),
        None => None,
    }
}

pub open spec fn meta_view(m: Metadata) -> SMeta {
    seq![
        ostr(m.security),
        ostr(m.security_years),
        ostr(m.doc_type),
        ostr(m.doc_number),
        ostr(m.version),
        ostr(m.institution),
        ostr(m.date),
        ostr(m.title),
        ostr(m.bibliography),
    ]
}

pub open spec fn empty_meta() -> SMeta {
    Seq::new(9, |i: int| None::<Seq<char>>)
}

/// Index of the field a key names, or `9` for an unknown key (the
/// security period has no key of its own).
pub open spec fn meta_key(k: Seq<char>) -> int {
    if k == seq!['密', '级'] || k == seq!['s', 'e', 'c', 'u', 'r', 'i', 't', 'y'] {
        0
    } else if k == seq!['文', '件', '类', '型'] || k == seq!['类', '型'] || k == seq!['d', 'o', 'c', 't', 'y', 'p', 'e'] {
        2
    } else if k == seq!['文', '件', '编', '号'] || k == seq!['编', '号'] || k == seq!['n', 'u', 'm', 'b', 'e', 'r'] {
        3
    } else if k == seq!['文', '件', '版', '本', '号'] || k == seq!['版', '本'] || k == seq!['v', 'e', 'r', 's', 'i', 'o', 'n'] {
        4
    } else if k == seq!['撰', '写', '单', '位'] || k == seq!['单', '位'] || k == seq![
        'i', 'n', 's', 't', 'i', 't', 'u', 't', 'i', 'o', 'n',
    ] {
        5
    } else if k == seq!['撰', '写', '时', '间'] || k == seq!['时', '间'] || k == seq!['日', '期'] || k == seq![
        'd', 'a', 't', 'e',
    ] {
        6
    } else if k == seq!['文', '件', '名', '称'] || k == seq!['标', '题'] || k == seq!['t', 'i', 't', 'l', 'e'] {
        7
    } else if k == seq!['b', 'i', 'b', 'l', 'i', 'o', 'g', 'r', 'a', 'p', 'h', 'y'] {
        8
    } else {
        9
    }
}

/// First index at or after `i` of `:` or `：`.
pub open spec fn colon_at(t: Seq<char>, i: int) -> int
    decreases t.len() - i,
{
    if i < 0 || i >= t.len() {
        t.len() as int
    } else if t[i] == ':' || t[i] == '：' {
        i
    } else {
        colon_at(t, i + 1)
    }
}

pub open spec fn is_fence_line(line: Seq<char>) -> bool {
    trim(line) == seq!['-', '-', '-']
}

/// What one `key: value` line does to the metadata: a known key with a
/// non-empty value sets its field; anything else changes nothing.
pub open spec fn apply_line(m: SMeta, line: Seq<char>) -> SMeta {
    let t = trim(line);
    let p = colon_at(t, 0);
    if p < t.len() {
        let value = trim(t.subrange(p + 1, t.len() as int));
        let f = meta_key(trim(t.subrange(0, p)));
        if value.len() > 0 && f < 9 {
            m.update(f, Some(value))
        } else {
            m
        }
    } else {
        m
    }
}

/// Reads lines from `j` up to the closing `---`: the metadata and the
/// number of lines taken (closing line included), or `None` when the block
/// is never closed.
pub open spec fn scan(ls: Seq<Seq<char>>, j: int, m: SMeta) -> Option<(SMeta, int)>
    decreases ls.len() - j,
{
    if j < 0 || j >= ls.len() {
        None
    } else if is_fence_line(ls[j]) {
        Some((m, j + 1))
    } else {
        scan(ls, j + 1, apply_line(m, ls[j]))
    }
}

/// A line without its leading byte order marks.
pub open spec fn strip_bom(t: Seq<char>) -> Seq<char>
    decreases t.len(),
{
    if t.len() > 0 && t[0] == '\u{feff}' {
        strip_bom(t.drop_first())
    } else {
        t
    }
}

/// Metadata and body of a document: the front matter is read and removed
/// when the first line (byte order marks aside) is `---` and a later line
/// closes it; otherwise the document comes back whole.
pub open spec fn front_matter_spec(content: Seq<char>) -> (SMeta, Seq<char>) {
    let ls = lines(content);
    if ls.len() == 0 || !is_fence_line(strip_bom(ls[0])) {
        (empty_meta(), content)
    } else {
        match scan(ls, 1, empty_meta()) {
            None => (empty_meta(), content),
            Some((m, consumed)) => (m, join_lines(ls.subrange(consumed, ls.len() as int))),
        }
    }
}

fn colon_exec(t: &[char]) -> (r: usize)
    ensures
        r == colon_at(t@, 0),
        r <= t@.len(),
{
    let mut i: usize = 0;
    while i < t.len() && t[i] != ':' && t[i] != '：'
        invariant
            i <= t@.len(),
            colon_at(t@, i as int) == colon_at(t@, 0),
        decreases t@.len() - i,
    {
        i += 1;
    }
    i
}

fn is_key(k: &[char], lit: &[char]) -> (r: bool)
    ensures
        r == (k@ == lit@),
{
    chars_eq(k, lit)
}

fn meta_key_exec(k: &[char]) -> (r: usize)
    ensures
        r == meta_key(k@),
{
    let security = ['密', '级'];
    let security_en = ['s', 'e', 'c', 'u', 'r', 'i', 't', 'y'];
    let doc_type1 = ['文', '件', '类', '型'];
    let doc_type2 = ['类', '型'];
    let doc_type_en = ['d', 'o', 'c', 't', 'y', 'p', 'e'];
    let number1 = ['文', '件', '编', '号'];
    let number2 = ['编', '号'];
    let number_en = ['n', 'u', 'm', 'b', 'e', 'r'];
    let version1 = ['文', '件', '版', '本', '号'];
    let version2 = ['版', '本'];
    let version_en = ['v', 'e', 'r', 's', 'i', 'o', 'n'];
    let inst1 = ['撰', '写', '单', '位'];
    let inst2 = ['单', '位'];
    let inst_en = ['i', 'n', 's', 't', 'i', 't', 'u', 't', 'i', 'o', 'n'];
    let date1 = ['撰', '写', '时', '间'];
    let date2 = ['时', '间'];
    let date3 = ['日', '期'];
    let date_en = ['d', 'a', 't', 'e'];
    let title1 = ['文', '件', '名', '称'];
    let title2 = ['标', '题'];
    let title_en = ['t', 'i', 't', 'l', 'e'];
    let bib = ['b', 'i', 'b', 'l', 'i', 'o', 'g', 'r', 'a', 'p', 'h', 'y'];
    assert(security@ =~= seq!['密', '级']);
    assert(security_en@ =~= seq!['s', 'e', 'c', 'u', 'r', 'i', 't', 'y']);
    assert(doc_type1@ =~= seq!['文', '件', '类', '型']);
    assert(doc_type2@ =~= seq!['类', '型']);
    assert(doc_type_en@ =~= seq!['d', 'o', 'c', 't', 'y', 'p', 'e']);
    assert(number1@ =~= seq!['文', '件', '编', '号']);
    assert(number2@ =~= seq!['编', '号']);
    assert(number_en@ =~= seq!['n', 'u', 'm', 'b', 'e', 'r']);
    assert(version1@ =~= seq!['文', '件', '版', '本', '号']);
    assert(version2@ =~= seq!['版', '本']);
    assert(version_en@ =~= seq!['v', 'e', 'r', 's', 'i', 'o', 'n']);
    assert(inst1@ =~= seq!['撰', '写', '单', '位']);
    assert(inst2@ =~= seq!['单', '位']);
    assert(inst_en@ =~= seq!['i', 'n', 's', 't', 'i', 't', 'u', 't', 'i', 'o', 'n']);
    assert(date1@ =~= seq!['撰', '写', '时', '间']);
    assert(date2@ =~= seq!['时', '间']);
    assert(date3@ =~= seq!['日', '期']);
    assert(date_en@ =~= seq!['d', 'a', 't', 'e']);
    assert(title1@ =~= seq!['文', '件', '名', '称']);
    assert(title2@ =~= seq!['标', '题']);
    assert(title_en@ =~= seq!['t', 'i', 't', 'l', 'e']);
    assert(bib@ =~= seq!['b', 'i', 'b', 'l', 'i', 'o', 'g', 'r', 'a', 'p', 'h', 'y']);
    if is_key(k, &security) || is_key(k, &security_en) {
        0
    } else if is_key(k, &doc_type1) || is_key(k, &doc_type2) || is_key(k, &doc_type_en) {
        2
    } else if is_key(k, &number1) || is_key(k, &number2) || is_key(k, &number_en) {
        3
    } else if is_key(k, &version1) || is_key(k, &version2) || is_key(k, &version_en) {
        4
    } else if is_key(k, &inst1) || is_key(k, &inst2) || is_key(k, &inst_en) {
        5
    } else if is_key(k, &date1) || is_key(k, &date2) || is_key(k, &date3) || is_key(k, &date_en) {
        6
    } else if is_key(k, &title1) || is_key(k, &title2) || is_key(k, &title_en) {
        7
    } else if is_key(k, &bib) {
        8
    } else {
        9
    }
}

fn set_field(m: &mut Metadata, f: usize, v: String)
    requires
        f < 9,
    ensures
        meta_view(*final(m)) == meta_view(*old(m)).update(f as int, Some(v@)),
{
    let ghost before = meta_view(*m);
    if f == 0 {
        m.security = Some(v);
    } else if f == 1 {
        m.security_years = Some(v);
    } else if f == 2 {
        m.doc_type = Some(v);
    } else if f == 3 {
        m.doc_number = Some(v);
    } else if f == 4 {
        m.version = Some(v);
    } else if f == 5 {
        m.institution = Some(v);
    } else if f == 6 {
        m.date = Some(v);
    } else if f == 7 {
        m.title = Some(v);
    } else {
        m.bibliography = Some(v);
    }
    assert(meta_view(*m) =~= before.update(f as int, Some(v@)));
}

fn apply_line_exec(m: &mut Metadata, line: &[char])
    ensures
        meta_view(*final(m)) == apply_line(meta_view(*old(m)), line@),
{
    let t = trim_chars(line);
    let p = colon_exec(&t);
    if p < t.len() {
        let value = trim_chars(&slice_of(&t, p + 1, t.len()));
        let f = meta_key_exec(&trim_chars(&slice_of(&t, 0, p)));
        if value.len() > 0 && f < 9 {
            set_field(m, f, string_from_chars(&value));
        }
    }
}

fn is_fence_exec(line: &[char]) -> (r: bool)
    ensures
        r == is_fence_line(line@),
{
    let t = trim_chars(line);
    let fence = ['-', '-', '-'];
    assert(fence@ =~= seq!['-', '-', '-']);
    chars_eq(&t, &fence)
}

fn strip_bom_exec(t: &[char]) -> (r: Vec<char>)
    ensures
        r@ == strip_bom(t@),
{
    let mut i: usize = 0;
    assert(t@.subrange(0, t@.len() as int) =~= t@);
    while i < t.len() && t[i] == '\u{feff}'
        invariant
            i <= t@.len(),
            strip_bom(t@.subrange(i as int, t@.len() as int)) == strip_bom(t@),
        decreases t@.len() - i,
    {
        assert(t@.subrange(i as int, t@.len() as int).drop_first() =~= t@.subrange(i + 1, t@.len() as int));
        i += 1;
    }
    slice_of(t, i, t.len())
}

/// Parses and removes the front matter at the top of a document; an
/// unclosed front matter leaves the document as it is.
pub fn parse(content: &str) -> (r: (Metadata, String))
    ensures
        (meta_view(r.0), r.1@) == front_matter_spec(content@),
{
    let text = chars_of(content);
    let ls = lines_of(&text);
    let ghost lv = lines(content@);
    assert(ls@.map_values(|l: Vec<char>| l@) =~= lv);
    if ls.len() == 0 || !is_fence_exec(&strip_bom_exec(&ls[0])) {
        return (Metadata::default(), content.to_owned());
    }
    assert(ls@[0]@ == lv[0]);
    let mut meta = Metadata::default();
    assert(meta_view(meta) == empty_meta());
    let mut j: usize = 1;
    while j < ls.len()
        invariant
            1 <= j <= ls@.len(),
            lv == ls@.map_values(|l: Vec<char>| l@),
            lv == lines(content@),
            lv.len() > 0,
            is_fence_line(strip_bom(lv[0])),
            scan(lv, j as int, meta_view(meta)) == scan(lv, 1, empty_meta()),
        decreases ls@.len() - j,
    {
        assert(ls@[j as int]@ == lv[j as int]);
        if is_fence_exec(&ls[j]) {
            let body = join_range(&ls, j + 1, ls.len());
            assert(ls@.subrange(j + 1, ls@.len() as int).map_values(|l: Vec<char>| l@)
                =~= lv.subrange(j + 1, lv.len() as int));
            return (meta, body);
        }
        apply_line_exec(&mut meta, &ls[j]);
        j += 1;
    }
    (Metadata::default(), content.to_owned())
}

/// A document whose first line is not `---` comes back whole, with empty
/// metadata.
pub proof fn lemma_no_front_matter(content: Seq<char>)
    requires
        lines(content).len() == 0 || !is_fence_line(strip_bom(lines(content)[0])),
    ensures
        front_matter_spec(content) == (empty_meta(), content),
{
}

/// An unclosed front matter is left untouched: the document comes back
/// whole, with empty metadata.
pub proof fn lemma_unclosed_front_matter(content: Seq<char>)
    requires
        scan(lines(content), 1, empty_meta()) is None,
    ensures
        front_matter_spec(content) == (empty_meta(), content),
{
}

} // verus!
