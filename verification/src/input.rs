//! Input handling: what an input path is, how directory inputs are merged,
//! and where the output goes by default.
use vstd::prelude::*;
use crate::charclass::{regex_is_match, regex_matches};
use crate::paths::{
    eq_ignore_ascii_case, eq_ignore_case, extension_is, file_name_of, file_stem_of, has_extension,
    join_paths, opt_string, path_file_name, path_file_stem, path_join,
};
use crate::strset::{lemma_str_lt_irreflexive, lemma_str_lt_transitive, str_less, str_lt};
use crate::text::{
    chars_of, join_lines, join_range, lines, lines_of, push_str, string_from_chars, string_views,
    slice_of,
};

verus! {

#[derive(Debug, Clone, Copy, PartialEq, Eq, Structural)]
pub enum InputKind {
    File,
    Directory,
}

/// Why an input path was refused.
#[derive(Debug, Clone, Copy, PartialEq, Eq, Structural)]
pub enum InputError {
    /// Nothing exists at the path.
    NotFound,
    /// Neither a directory nor a `.md` file.
    NotMarkdown,
}

/// The kind of an input from what the file system says of it: a directory,
/// or a file with the extension `md` in any ASCII case.
pub open spec fn classify_spec(path: Seq<char>, exists: bool, is_dir: bool, is_file: bool) -> Result<InputKind, InputError> {
    if !exists {
        Err(InputError::NotFound)
    } else if is_dir {
        Ok(InputKind::Directory)
    } else if is_file && has_extension(path, "md"@) {
        Ok(InputKind::File)
    } else {
        Err(InputError::NotMarkdown)
    }
}

/// Checks an input path given what the file system reports about it.
pub fn classify(path: &str, exists: bool, is_dir: bool, is_file: bool) -> (r: Result<InputKind, InputError>)
    ensures
        r == classify_spec(path@, exists, is_dir, is_file),
{
    if !exists {
        return Err(InputError::NotFound);
    }
    if is_dir {
        return Ok(InputKind::Directory);
    }
    if is_file && extension_is(path, "md") {
        return Ok(InputKind::File);
    }
    Err(InputError::NotMarkdown)
}

/// A Markdown file of a directory input, judged by its name.
pub fn is_markdown_name(path: &str) -> (r: bool)
    ensures
        r == has_extension(path@, "md"@),
{
    extension_is(path, "md")
}

/// The text of a file without one leading byte order mark.
pub open spec fn strip_one_bom(t: Seq<char>) -> Seq<char> {
    if t.len() > 0 && t[0] == '\u{feff}' { t.drop_first() } else { t }
}

/// Removes one leading byte order mark.
pub fn strip_bom(content: &str) -> (r: String)
    ensures
        r@ == strip_one_bom(content@),
{
    let t = chars_of(content);
    if t.len() > 0 && t[0] == '\u{feff}' {
        string_from_chars(&slice_of(&t, 1, t.len()))
    } else {
        content.to_owned()
    }
}

/// Files of a directory input, already in name order: each loses its byte
/// order mark and is followed by a blank line.
pub open spec fn merged_spec(contents: Seq<Seq<char>>) -> Seq<char>
    decreases contents.len(),
{
    if contents.len() == 0 {
        Seq::empty()
    } else {
        merged_spec(contents.drop_last()) + strip_one_bom(contents.last()) + "\n\n"@
    }
}

/// Merges the files of a directory input (given in name order).
pub fn merge_contents(contents: &[String]) -> (r: String)
    ensures
        r@ == merged_spec(string_views(contents@)),
{
    let ghost cv = string_views(contents@);
    let mut out = String::new();
    let mut i: usize = 0;
    assert(cv.take(0) =~= Seq::<Seq<char>>::empty());
    while i < contents.len()
        invariant
            i <= contents@.len(),
            cv == string_views(contents@),
            out@ == merged_spec(cv.take(i as int)),
        decreases contents@.len() - i,
    {
        let c = strip_bom(contents[i].as_str());
        push_str(&mut out, c.as_str());
        push_str(&mut out, "\n\n");
        assert(cv.take(i + 1).drop_last() =~= cv.take(i as int));
        i += 1;
        assert(out@ =~= merged_spec(cv.take(i as int)));
    }
    assert(cv.take(contents@.len() as int) =~= cv);
    out
}

/// A line that is a horizontal rule: three or more dashes, whitespace aside.
pub open spec fn is_rule_line(line: Seq<char>) -> bool {
    regex_is_match("^\\s*-{3,}\\s*$"@, line)
}

pub open spec fn kept_lines(ls: Seq<Seq<char>>) -> Seq<Seq<char>>
    decreases ls.len(),
{
    if ls.len() == 0 {
        Seq::empty()
    } else {
        kept_lines(ls.drop_last()) + if is_rule_line(ls.last()) { Seq::empty() } else { seq![ls.last()] }
    }
}

/// The text without its horizontal-rule lines (table separator rows start
/// with `|` and stay).
pub open spec fn strip_rules_spec(content: Seq<char>) -> Seq<char> {
    join_lines(kept_lines(lines(content)))
}

/// Removes the lines that are horizontal rules.
pub fn strip_horizontal_rules(content: &str) -> (r: String)
    ensures
        r@ == strip_rules_spec(content@),
{
    let t = chars_of(content);
    let ls = lines_of(&t);
    let ghost lv = lines(content@);
    assert(ls@.map_values(|l: Vec<char>| l@) =~= lv);
    let mut kept: Vec<Vec<char>> = Vec::new();
    let mut i: usize = 0;
    assert(lv.take(0) =~= Seq::<Seq<char>>::empty());
    assert(kept@.map_values(|l: Vec<char>| l@) =~= kept_lines(lv.take(0)));
    while i < ls.len()
        invariant
            i <= ls@.len(),
            lv == ls@.map_values(|l: Vec<char>| l@),
            kept@.map_values(|l: Vec<char>| l@) == kept_lines(lv.take(i as int)),
        decreases ls@.len() - i,
    {
        let line = string_from_chars(&ls[i]);
        let ghost before = kept@.map_values(|l: Vec<char>| l@);
        assert(lv.take(i + 1).drop_last() =~= lv.take(i as int));
        assert(lv.take(i + 1).last() == ls@[i as int]@);
        if !regex_matches("^\\s*-{3,}\\s*$", line.as_str()) {
            kept.push(slice_of(&ls[i], 0, ls[i].len()));
            assert(ls@[i as int]@.subrange(0, ls@[i as int]@.len() as int) =~= ls@[i as int]@);
            assert(kept@.map_values(|l: Vec<char>| l@) =~= before + seq![ls@[i as int]@]);
        } else {
            assert(kept@.map_values(|l: Vec<char>| l@) =~= before + Seq::<Seq<char>>::empty());
        }
        i += 1;
    }
    assert(lv.take(ls@.len() as int) =~= lv);
    let r = join_range(&kept, 0, kept.len());
    assert(kept@.subrange(0, kept@.len() as int) =~= kept@);
    r
}

/// Name that the outputs take: the directory's name or the file's stem
/// (when that is missing or empty, the name of the canonical path, if any).
pub open spec fn base_name_spec(input: Seq<char>, kind: InputKind, canonical: Option<Seq<char>>) -> Seq<char> {
    let raw = match kind {
        InputKind::Directory => path_file_name(input),
        InputKind::File => path_file_stem(input),
    };
    match raw {
        Some(n) => if n.len() > 0 {
            n
        } else {
            match canonical {
                Some(c) => if c.len() > 0 { c } else { "output"@ },
                None => "output"@,
            }
        },
        None => match canonical {
            Some(c) => if c.len() > 0 { c } else { "output"@ },
            None => "output"@,
        },
    }
}

/// The output name of an input; `canonical` is the file name of the
/// canonical form of the input path, used when the path itself has none
/// (such as `.`).
pub fn base_name(input: &str, kind: InputKind, canonical: Option<&str>) -> (r: String)
    ensures
        r@ == base_name_spec(input@, kind, match canonical { Some(c) => Some(c@), None => None }),
{
    let raw = match kind {
        InputKind::Directory => file_name_of(input),
        InputKind::File => file_stem_of(input),
    };
    match raw {
        Some(n) => {
            if chars_of(n.as_str()).len() > 0 {
                return n;
            }
        },
        None => {},
    }
    match canonical {
        Some(c) => {
            if chars_of(c).len() > 0 {
                c.to_owned()
            } else {
                "output".to_owned()
            }
        },
        None => "output".to_owned(),
    }
}

/// Directory that gathers the side files of a format: TeX output goes into
/// a directory of its own (`-tex` added for a directory input, so that it
/// does not clash with the input); self-contained formats get none.
pub open spec fn bundle_dir_spec(name: Seq<char>, kind: InputKind, ext: Seq<char>) -> Option<Seq<char>> {
    if !eq_ignore_ascii_case(ext, "tex"@) {
        None
    } else {
        match kind {
            InputKind::Directory => Some(name + "-tex"@),
            InputKind::File => Some(name),
        }
    }
}

pub fn bundle_dir_name(name: &str, kind: InputKind, ext: &str) -> (r: Option<String>)
    ensures
        opt_string(r) == bundle_dir_spec(name@, kind, ext@),
{
    if !eq_ignore_case(ext, "tex") {
        return None;
    }
    match kind {
        InputKind::Directory => {
            let mut d = name.to_owned();
            push_str(&mut d, "-tex");
            Some(d)
        },
        InputKind::File => Some(name.to_owned()),
    }
}

/// Default output path for an output name: `name.ext`, inside the bundle
/// directory when the format has one.
pub open spec fn default_output_spec(name: Seq<char>, kind: InputKind, ext: Seq<char>) -> Seq<char> {
    let file = name + "."@ + ext;
    match bundle_dir_spec(name, kind, ext) {
        Some(dir) => path_join(dir, file),
        None => file,
    }
}

pub fn default_output_for(name: &str, kind: InputKind, ext: &str) -> (r: String)
    ensures
        r@ == default_output_spec(name@, kind, ext@),
{
    let mut file = name.to_owned();
    push_str(&mut file, ".");
    push_str(&mut file, ext);
    match bundle_dir_name(name, kind, ext) {
        Some(dir) => join_paths(dir.as_str(), file.as_str()),
        None => file,
    }
}

/// Sorted by name (code point order), stable.
pub open spec fn sorted_names(s: Seq<Seq<char>>) -> bool {
    forall|i: int, j: int| 0 <= i < j < s.len() ==> !str_lt(#[trigger] s[j], #[trigger] s[i])
}

/// Orders file names ascending (stable), as a directory input is merged.
pub fn sort_file_names(names: &[String]) -> (r: Vec<String>)
    ensures
        sorted_names(string_views(r@)),
        string_views(r@).to_multiset() == string_views(names@).to_multiset(),
{
    broadcast use vstd::seq_lib::group_to_multiset_ensures;
    let ghost nv = string_views(names@);
    let mut out: Vec<String> = Vec::new();
    let mut i: usize = 0;
    assert(nv.take(0) =~= Seq::<Seq<char>>::empty());
    assert(string_views(out@) =~= Seq::<Seq<char>>::empty());
    while i < names.len()
        invariant
            i <= names@.len(),
            nv == string_views(names@),
            sorted_names(string_views(out@)),
            string_views(out@).to_multiset() == nv.take(i as int).to_multiset(),
        decreases names@.len() - i,
    {
        let x = names[i].clone();
        let xc = chars_of(x.as_str());
        let ghost ov = string_views(out@);
        let mut p: usize = 0;
        while p < out.len() && !str_less(&xc, &chars_of(out[p].as_str()))
            invariant
                p <= out@.len(),
                ov == string_views(out@),
                xc@ == x@,
                forall|k: int| 0 <= k < p ==> !str_lt(x@, #[trigger] ov[k]),
            decreases out@.len() - p,
        {
            p += 1;
        }
        let ghost xv = x@;
        out.insert(p, x);
        proof {
            let nw = string_views(out@);
            assert(nw =~= ov.insert(p as int, xv));
            assert(nv.take(i + 1) =~= nv.take(i as int).push(xv));
            vstd::seq_lib::to_multiset_insert(ov, p as int, xv);
            vstd::seq_lib::to_multiset_build(nv.take(i as int), xv);
            assert forall|a: int, b: int| 0 <= a < b < nw.len() implies !str_lt(#[trigger] nw[b], #[trigger] nw[a]) by {
                if b < p {
                } else if b == p {
                    assert(nw[a] == ov[a]);
                } else if a == p {
                    let ob = ov[b - 1];
                    if str_lt(ob, xv) {
                        assert(str_lt(xv, ov[p as int]));
                        lemma_str_lt_transitive(ob, xv, ov[p as int]);
                        if b - 1 > p {
                            assert(!str_lt(ov[b - 1], ov[p as int]));
                        } else {
                            lemma_str_lt_irreflexive(ob);
                        }
                    }
                } else if a < p {
                    assert(nw[a] == ov[a]);
                    assert(nw[b] == ov[b - 1]);
                    if a != b - 1 {
                        assert(!str_lt(ov[b - 1], ov[a]));
                    }
                } else {
                    assert(nw[a] == ov[a - 1]);
                    assert(nw[b] == ov[b - 1]);
                }
            }
        }
        i += 1;
    }
    assert(nv.take(names@.len() as int) =~= nv);
    out
}

/// DOCX output is a single file named after the input, never in a
/// directory of its own.
pub proof fn lemma_docx_output_is_bare(name: Seq<char>, kind: InputKind)
    ensures
        default_output_spec(name, kind, "docx"@) == name + "."@ + "docx"@,
{
    reveal_strlit("docx");
    reveal_strlit("tex");
    assert(!eq_ignore_ascii_case("docx"@, "tex"@));
}

/// TeX output goes into a directory named after the input (with `-tex`
/// for a directory input).
pub proof fn lemma_tex_output_is_bundled(name: Seq<char>, kind: InputKind)
    ensures
        default_output_spec(name, kind, "tex"@) == path_join(
            match kind { InputKind::Directory => name + "-tex"@, InputKind::File => name },
            name + "."@ + "tex"@,
        ),
{
    reveal_strlit("tex");
    assert(eq_ignore_ascii_case("tex"@, "tex"@));
}

} // verus!
