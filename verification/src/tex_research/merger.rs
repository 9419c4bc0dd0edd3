//! Research-report document assembly: the document title, the cover fields
//! and the template around the emitted body.
use vstd::prelude::*;
use crate::charclass::{
    opt_strings, regex_captures, regex_captures_of, regex_is_match, regex_matches, regex_replace_all,
    regex_replace_all_of,
};
use crate::common::escape::{escape_latex, escape_latex_spec};
use crate::common::front_matter::{Metadata, ostr};
use crate::common::heading::{clean, clean_spec};
use crate::text::{
    chars_of, lines, lines_of, parse_u32, parse_u32_spec, push_decimal, push_str, replace_all_lit,
    replace_spec, string_from_chars, trim, trim_chars, decimal,
};

verus! {

/// The research pipeline; it keeps no state of its own.
pub struct Merger {
    _placeholder: (),
}

impl Merger {
    pub fn new() -> (m: Self) {
        Merger { _placeholder: () }
    }
}

// ---------------------------------------------------------------------------
// Title
// ---------------------------------------------------------------------------

pub open spec fn title_pattern() -> Seq<char> {
    "^#\\s+(.+?)(?:\\s*\\{[^}]*\\})?\\s*$"@
}

/// The document title: the first level-1 heading whose text, numbering and
/// an attribute block removed, is not empty. A match without its group ends
/// the search.
pub open spec fn title_from_lines(ls: Seq<Seq<char>>, i: int) -> Option<Seq<char>>
    decreases ls.len() - i,
{
    if i < 0 || i >= ls.len() {
        None
    } else {
        match regex_captures_of(title_pattern(), ls[i]) {
            Some(groups) => if groups.len() > 1 && groups[1] is Some {
                let t = clean_spec(trim(groups[1]->Some_0));
                if t.len() > 0 { Some(t) } else { title_from_lines(ls, i + 1) }
            } else {
                None
            },
            None => title_from_lines(ls, i + 1),
        }
    }
}

pub fn extract_title_from_content(content: &str) -> (r: Option<String>)
    ensures
        match r {
            Some(t) => title_from_lines(lines(content@), 0) == Some(t@),
            None => title_from_lines(lines(content@), 0) is None,
        },
{
    let t = chars_of(content);
    let ls = lines_of(&t);
    let ghost lv = lines(content@);
    assert(ls@.map_values(|l: Vec<char>| l@) =~= lv);
    let mut i: usize = 0;
    while i < ls.len()
        invariant
            i <= ls@.len(),
            lv == ls@.map_values(|l: Vec<char>| l@),
            lv == lines(content@),
            title_from_lines(lv, i as int) == title_from_lines(lv, 0),
        decreases ls@.len() - i,
    {
        let line = string_from_chars(&ls[i]);
        assert(line@ == lv[i as int]);
        match regex_captures("^#\\s+(.+?)(?:\\s*\\{[^}]*\\})?\\s*$", line.as_str()) {
            Some(groups) => {
                assert(opt_strings(groups@).len() == groups@.len());
                if groups.len() > 1 && groups[1].is_some() {
                    let g = groups[1].as_ref().unwrap();
                    assert(opt_strings(groups@)[1] == Some(g@));
                    let title = clean(string_from_chars(&trim_chars(&chars_of(g.as_str()))).as_str());
                    if chars_of(title.as_str()).len() > 0 {
                        return Some(title);
                    }
                } else {
                    proof {
                        if groups@.len() > 1 {
                            assert(opt_strings(groups@)[1] is None);
                        }
                    }
                    return None;
                }
            },
            None => {},
        }
        i += 1;
    }
    None
}

pub open spec fn h1_pattern() -> Seq<char> {
    "^#\\s+.+\\s*$"@
}

/// Lines kept after the first level-1 heading is dropped, joined by `\n`;
/// no newline is written while the text is still empty, so blank lines at
/// the start disappear.
pub open spec fn without_first_h1(ls: Seq<Seq<char>>) -> (Seq<char>, bool)
    decreases ls.len(),
{
    if ls.len() == 0 {
        (Seq::empty(), false)
    } else {
        let (acc, found) = without_first_h1(ls.drop_last());
        let line = ls.last();
        if !found && regex_is_match(h1_pattern(), line) {
            (acc, true)
        } else {
            ((if acc.len() > 0 { acc + "\n"@ } else { acc }) + line, found)
        }
    }
}

pub fn remove_first_h1(content: &str) -> (r: String)
    ensures
        r@ == without_first_h1(lines(content@)).0,
{
    let t = chars_of(content);
    let ls = lines_of(&t);
    let ghost lv = lines(content@);
    assert(ls@.map_values(|l: Vec<char>| l@) =~= lv);
    let mut result = String::new();
    let mut found = false;
    let mut i: usize = 0;
    assert(lv.take(0) =~= Seq::<Seq<char>>::empty());
    while i < ls.len()
        invariant
            i <= ls@.len(),
            lv == ls@.map_values(|l: Vec<char>| l@),
            lv == lines(content@),
            (result@, found) == without_first_h1(lv.take(i as int)),
        decreases ls@.len() - i,
    {
        let line = string_from_chars(&ls[i]);
        assert(lv.take(i + 1).drop_last() =~= lv.take(i as int));
        assert(lv.take(i + 1).last() == line@);
        if !found && regex_matches("^#\\s+.+\\s*$", line.as_str()) {
            found = true;
        } else {
            if chars_of(result.as_str()).len() > 0 {
                push_str(&mut result, "\n");
            }
            push_str(&mut result, line.as_str());
        }
        i += 1;
    }
    assert(lv.take(ls@.len() as int) =~= lv);
    result
}

// ---------------------------------------------------------------------------
// Reading the Markdown
// ---------------------------------------------------------------------------

/// The text without the byte order marks at its start.
pub open spec fn strip_boms(t: Seq<char>) -> Seq<char>
    decreases t.len(),
{
    if t.len() > 0 && t[0] == '\u{feff}' {
        strip_boms(t.drop_first())
    } else {
        t
    }
}

/// Only the byte order marks at the start go: what remains does not start
/// with one and is the rest of the text, unchanged.
pub proof fn lemma_strip_boms(t: Seq<char>)
    ensures
        strip_boms(t).len() == 0 || strip_boms(t)[0] != '\u{feff}',
        exists|k: int| 0 <= k <= t.len() && strip_boms(t) == t.subrange(k, t.len() as int),
    decreases t.len(),
{
    if t.len() > 0 && t[0] == '\u{feff}' {
        lemma_strip_boms(t.drop_first());
        let k = choose|k: int| 0 <= k <= t.drop_first().len() && strip_boms(t.drop_first()) == t.drop_first().subrange(k, t.drop_first().len() as int);
        assert(t.drop_first().subrange(k, t.drop_first().len() as int) =~= t.subrange(k + 1, t.len() as int));
    } else {
        assert(t.subrange(0, t.len() as int) =~= t);
    }
}

/// Removes the byte order marks at the start of a file's text.
pub fn strip_utf8_bom(content: &str) -> (r: String)
    ensures
        r@ == strip_boms(content@),
{
    let t = chars_of(content);
    let mut a: usize = 0;
    assert(t@.subrange(0, t@.len() as int) =~= t@);
    while a < t.len() && t[a] == '\u{feff}'
        invariant
            a <= t@.len(),
            strip_boms(t@.subrange(a as int, t@.len() as int)) == strip_boms(t@),
        decreases t@.len() - a,
    {
        assert(t@.subrange(a as int, t@.len() as int).drop_first() =~= t@.subrange(a + 1, t@.len() as int));
        a += 1;
    }
    string_from_chars(&crate::text::slice_of(&t, a, t.len()))
}

pub open spec fn title_of(t: Seq<char>) -> Option<Seq<char>> {
    title_from_lines(lines(t), 0)
}

/// One file: its text without the first level-1 heading, and its title.
pub open spec fn read_markdown_spec(c: Seq<char>) -> (Seq<char>, Option<Seq<char>>) {
    let t = strip_boms(c);
    (without_first_h1(lines(t)).0, title_of(t))
}

/// The text of a single-file report and its title.
pub fn read_markdown_content(content: &str) -> (r: (String, Option<String>))
    ensures
        (r.0@, match r.1 { Some(t) => Some(t@), None => None }) == read_markdown_spec(content@),
{
    let c = strip_utf8_bom(content);
    let title = extract_title_from_content(c.as_str());
    let body = remove_first_h1(c.as_str());
    (body, title)
}

/// Files of a directory, in name order: each loses its leading byte order
/// marks and is followed by a blank line; the first file with a title gives
/// the document title and loses that heading.
pub open spec fn merge_titled_spec(cs: Seq<Seq<char>>) -> (Seq<char>, Option<Seq<char>>)
    decreases cs.len(),
{
    if cs.len() == 0 {
        (Seq::empty(), None)
    } else {
        let (m, t) = merge_titled_spec(cs.drop_last());
        let c = strip_boms(cs.last());
        if t is None && title_of(c) is Some {
            (m + without_first_h1(lines(c)).0 + "\n\n"@, title_of(c))
        } else {
            (m + c + "\n\n"@, t)
        }
    }
}

pub open spec fn string_views(v: Seq<String>) -> Seq<Seq<char>> {
    v.map_values(|s: String| s@)
}

/// Merges the files of a directory report (given in name order).
pub fn merge_markdown_contents(contents: &[String]) -> (r: (String, Option<String>))
    ensures
        (r.0@, match r.1 { Some(t) => Some(t@), None => None }) == merge_titled_spec(string_views(contents@)),
{
    let ghost cv = string_views(contents@);
    let mut merged = String::new();
    let mut title: Option<String> = None;
    let mut i: usize = 0;
    assert(cv.take(0) =~= Seq::<Seq<char>>::empty());
    while i < contents.len()
        invariant
            i <= contents@.len(),
            cv == string_views(contents@),
            (merged@, match title { Some(t) => Some(t@), None => None }) == merge_titled_spec(cv.take(i as int)),
        decreases contents@.len() - i,
    {
        proof {
            assert(cv.take(i + 1).drop_last() =~= cv.take(i as int));
            assert(cv.take(i + 1).last() == contents@[i as int]@);
        }
        let c = strip_utf8_bom(contents[i].as_str());
        let mut done = false;
        if title.is_none() {
            let t = extract_title_from_content(c.as_str());
            if t.is_some() {
                title = t;
                push_str(&mut merged, remove_first_h1(c.as_str()).as_str());
                push_str(&mut merged, "\n\n");
                done = true;
            }
        }
        if !done {
            push_str(&mut merged, c.as_str());
            push_str(&mut merged, "\n\n");
        }
        i += 1;
    }
    assert(cv.take(contents@.len() as int) =~= cv);
    (merged, title)
}

// ---------------------------------------------------------------------------
// Cover date
// ---------------------------------------------------------------------------

pub open spec fn date_pattern() -> Seq<char> {
    "^(\\d{4})\\s*[-/.年]\\s*(\\d{1,2})\\s*月?$"@
}

/// A year and month (`2026-07`, `2026/7`, `2026.07`, `2026年7月`) becomes
/// `2026 年 7 月`; a month that is not ASCII digits counts as 0; other text
/// stays as it is, trimmed.
pub open spec fn normalize_date_spec(raw: Seq<char>) -> Seq<char> {
    let t = trim(raw);
    match regex_captures_of(date_pattern(), t) {
        Some(g) => if g.len() > 2 && g[1] is Some && g[2] is Some {
            let month: u32 = match parse_u32_spec(g[2]->Some_0) { Some(m) => m, None => 0 };
            g[1]->Some_0 + " 年 "@ + decimal(month as nat) + " 月"@
        } else {
            t
        },
        None => t,
    }
}

pub fn normalize_cover_date(raw: &str) -> (r: String)
    ensures
        r@ == normalize_date_spec(raw@),
{
    let t = string_from_chars(&trim_chars(&chars_of(raw)));
    match regex_captures("^(\\d{4})\\s*[-/.年]\\s*(\\d{1,2})\\s*月?$", t.as_str()) {
        Some(g) => {
            if g.len() > 2 && g[1].is_some() && g[2].is_some() {
                let year = g[1].as_ref().unwrap();
                let m = g[2].as_ref().unwrap();
                assert(opt_strings(g@)[1] == Some(year@));
                assert(opt_strings(g@)[2] == Some(m@));
                let month: u32 = match parse_u32(&chars_of(m.as_str())) {
                    Some(v) => v,
                    None => 0,
                };
                let mut s = String::new();
                push_str(&mut s, year.as_str());
                push_str(&mut s, " 年 ");
                push_decimal(&mut s, month as usize);
                push_str(&mut s, " 月");
                s
            } else {
                proof {
                    let gv = opt_strings(g@);
                    if g@.len() > 2 {
                        assert(gv[1] == match g@[1] { Some(x) => Some(x@), None => None::<Seq<char>> });
                        assert(gv[2] == match g@[2] { Some(x) => Some(x@), None => None::<Seq<char>> });
                    }
                }
                t
            }
        },
        None => t,
    }
}

// ---------------------------------------------------------------------------
// Template
// ---------------------------------------------------------------------------

pub open spec fn title_block_pattern() -> Seq<char> {
    "(?s)\\$if\\(title\\)\\$(.*?)\\$else\\$(.*?)\\$endif\\$"@
}

pub open spec fn bib_block_pattern() -> Seq<char> {
    "(?s)\\$if\\(bibliography\\)\\$(.*?)\\$endif\\$"@
}

/// A regex replacement, or the text unchanged when the pattern does not compile.
pub open spec fn replaced(pattern: Seq<char>, t: Seq<char>, rep: Seq<char>) -> Seq<char> {
    match regex_replace_all_of(pattern, t, rep) {
        Some(r) => r,
        None => t,
    }
}

pub open spec fn field(v: Option<Seq<char>>, default: Seq<char>) -> Seq<char> {
    match v {
        Some(x) => escape_latex_spec(x),
        None => default,
    }
}

/// The template with its conditional blocks resolved and its variables
/// filled in, in this order: `$body$`, `$title$`, `$security$`,
/// `$securityyears$`, `$doctype$`, `$docnumber$`, `$docversion$`,
/// `$institution$`, `$submitdate$`. Cover fields are escaped and have
/// defaults; the date is normalized to year and month.
pub open spec fn render_template_spec(
    template: Seq<char>,
    body: Seq<char>,
    title: Option<Seq<char>>,
    cover: Seq<Option<Seq<char>>>,
    has_citations: bool,
) -> Seq<char> {
    let escaped_title = match title { Some(t) => Some(escape_latex_spec(t)), None => None };
    let r1 = replaced(title_block_pattern(), template, if title is Some { "${1}"@ } else { "${2}"@ });
    let r2 = replaced(bib_block_pattern(), r1, if has_citations { "${1}"@ } else { ""@ });
    let date = match cover[6] {
        Some(d) => escape_latex_spec(normalize_date_spec(d)),
        None => "\\the\\year 年 \\the\\month 月"@,
    };
    let r3 = replace_spec(r2, "$body$"@, body);
    let r4 = replace_spec(r3, "$title$"@, match escaped_title { Some(t) => t, None => ""@ });
    let r5 = replace_spec(r4, "$security$"@, field(cover[0], "公开"@));
    let r6 = replace_spec(r5, "$securityyears$"@, field(cover[1], ""@));
    let r7 = replace_spec(r6, "$doctype$"@, field(cover[2], "研究报告"@));
    let r8 = replace_spec(r7, "$docnumber$"@, field(cover[3], ""@));
    let r9 = replace_spec(r8, "$docversion$"@, field(cover[4], "V1.0"@));
    let r10 = replace_spec(r9, "$institution$"@, field(cover[5], "某某单位"@));
    replace_spec(r10, "$submitdate$"@, date)
}

fn replace_regex_or_keep(pattern: &str, t: String, rep: &str) -> (r: String)
    ensures
        r@ == replaced(pattern@, t@, rep@),
{
    match regex_replace_all(pattern, t.as_str(), rep) {
        Some(s) => s,
        None => t,
    }
}

fn field_exec(v: &Option<String>, default: &str) -> (r: String)
    ensures
        r@ == field(ostr(*v), default@),
{
    match v {
        Some(x) => escape_latex(x.as_str()),
        None => default.to_owned(),
    }
}

/// Renders the research template around the body.
pub fn render_template(template: &str, body: &str, title: Option<&str>, cover: &Metadata, has_citations: bool) -> (r: String)
    ensures
        r@ == render_template_spec(
            template@,
            body@,
            match title { Some(t) => Some(t@), None => None },
            crate::common::front_matter::meta_view(*cover),
            has_citations,
        ),
{
    let ghost cv = crate::common::front_matter::meta_view(*cover);
    proof {
        reveal_strlit("$body$");
        reveal_strlit("$title$");
        reveal_strlit("$security$");
        reveal_strlit("$securityyears$");
        reveal_strlit("$doctype$");
        reveal_strlit("$docnumber$");
        reveal_strlit("$docversion$");
        reveal_strlit("$institution$");
        reveal_strlit("$submitdate$");
    }
    let escaped_title: Option<String> = match title {
        Some(t) => Some(escape_latex(t)),
        None => None,
    };
    let rendered = template.to_owned();
    let rendered = replace_regex_or_keep(
        "(?s)\\$if\\(title\\)\\$(.*?)\\$else\\$(.*?)\\$endif\\$",
        rendered,
        if title.is_some() { "${1}" } else { "${2}" },
    );
    let rendered = replace_regex_or_keep(
        "(?s)\\$if\\(bibliography\\)\\$(.*?)\\$endif\\$",
        rendered,
        if has_citations { "${1}" } else { "" },
    );
    let date: String = match &cover.date {
        Some(d) => {
            let n = normalize_cover_date(d.as_str());
            escape_latex(n.as_str())
        },
        None => "\\the\\year 年 \\the\\month 月".to_owned(),
    };
    let rendered = replace_all_lit(rendered.as_str(), "$body$", body);
    let t: &str = match &escaped_title {
        Some(x) => x.as_str(),
        None => "",
    };
    let rendered = replace_all_lit(rendered.as_str(), "$title$", t);
    let rendered = replace_all_lit(rendered.as_str(), "$security$", field_exec(&cover.security, "公开").as_str());
    let rendered = replace_all_lit(rendered.as_str(), "$securityyears$", field_exec(&cover.security_years, "").as_str());
    let rendered = replace_all_lit(rendered.as_str(), "$doctype$", field_exec(&cover.doc_type, "研究报告").as_str());
    let rendered = replace_all_lit(rendered.as_str(), "$docnumber$", field_exec(&cover.doc_number, "").as_str());
    let rendered = replace_all_lit(rendered.as_str(), "$docversion$", field_exec(&cover.version, "V1.0").as_str());
    let rendered = replace_all_lit(rendered.as_str(), "$institution$", field_exec(&cover.institution, "某某单位").as_str());
    let rendered = replace_all_lit(rendered.as_str(), "$submitdate$", date.as_str());
    rendered
}

// ---------------------------------------------------------------------------
// Bibliography setup
// ---------------------------------------------------------------------------

/// `\nocite{*}` always goes; without citations, the `biblatex` setup
/// (package, resource, bibliography name, printing) goes too.
pub open spec fn configure_biblatex_spec(content: Seq<char>, enabled: bool) -> Seq<char> {
    let r = replaced("\\\\nocite\\{\\*\\}"@, content, ""@);
    if enabled {
        r
    } else {
        let a = replaced("\\\\usepackage\\[[^\\]]*?\\]\\{biblatex\\}\\s*\\n?"@, r, ""@);
        let b = replaced("\\\\usepackage\\{biblatex\\}\\s*\\n?"@, a, ""@);
        let c = replaced("\\\\addbibresource\\{[^}]*\\}[ \\t]*%?.*\\n?"@, b, ""@);
        let d = replaced("\\\\renewcommand\\{\\\\bibname\\}\\{[^}]*\\}\\s*\\n?"@, c, ""@);
        replaced("\\\\printbibliography\\s*\\n?"@, d, ""@)
    }
}

pub fn configure_biblatex(content: &str, enabled: bool) -> (r: String)
    ensures
        r@ == configure_biblatex_spec(content@, enabled),
{
    let r = replace_regex_or_keep("\\\\nocite\\{\\*\\}", content.to_owned(), "");
    if enabled {
        return r;
    }
    let r = replace_regex_or_keep("\\\\usepackage\\[[^\\]]*?\\]\\{biblatex\\}\\s*\\n?", r, "");
    let r = replace_regex_or_keep("\\\\usepackage\\{biblatex\\}\\s*\\n?", r, "");
    let r = replace_regex_or_keep("\\\\addbibresource\\{[^}]*\\}[ \\t]*%?.*\\n?", r, "");
    let r = replace_regex_or_keep("\\\\renewcommand\\{\\\\bibname\\}\\{[^}]*\\}\\s*\\n?", r, "");
    replace_regex_or_keep("\\\\printbibliography\\s*\\n?", r, "")
}

} // verus!
