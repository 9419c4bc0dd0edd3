//! Decisions around compiling generated TeX to PDF: whether a document
//! needs a BibTeX pass, whether a bundled runtime's digest file is well
//! formed, how a bundle path is passed on Windows, and which side files a
//! run leaves behind.

use vstd::prelude::*;
use crate::text::{at, chars_of, has_at, push_char, push_str, string_from_chars, trim, trim_chars};

verus! {

/// `w` occurs somewhere in `t`.
pub open spec fn contains_text(t: Seq<char>, w: Seq<char>) -> bool {
    exists|i: int| has_at(t, i, w)
}

pub fn contains_chars(t: &[char], w: &[char]) -> (r: bool)
    ensures
        r == contains_text(t@, w@),
{
    if w.len() > t.len() {
        proof {
            assert forall|i: int| !has_at(t@, i, w@) by {}
        }
        return false;
    }
    let last = t.len() - w.len();
    let mut i: usize = 0;
    while i < last
        invariant
            last == t@.len() - w@.len(),
            i <= last,
            forall|j: int| 0 <= j < i ==> !has_at(t@, j, w@),
        decreases last - i,
    {
        if at(t, i, w) {
            return true;
        }
        i += 1;
    }
    if at(t, last, w) {
        return true;
    }
    proof {
        assert forall|j: int| !has_at(t@, j, w@) by {
            if 0 <= j && j + w@.len() <= t@.len() {
                assert(j <= last);
            }
        }
    }
    false
}

/// A generated document that uses `\bibliography{...}` needs a BibTeX pass.
pub open spec fn uses_bibliography_spec(content: Seq<char>) -> bool {
    contains_text(content, "\\bibliography{"@)
}

pub fn uses_bibliography(content: &str) -> (r: bool)
    ensures
        r == uses_bibliography_spec(content@),
{
    contains_chars(&chars_of(content), &chars_of("\\bibliography{"))
}

pub open spec fn is_ascii_hex(c: char) -> bool {
    ('0' <= c <= '9') || ('a' <= c <= 'f') || ('A' <= c <= 'F')
}

/// The digest file of a bundled runtime: 64 hexadecimal digits, surrounding
/// whitespace aside.
pub open spec fn valid_digest_spec(text: Seq<char>) -> bool {
    let d = trim(text);
    d.len() == 64 && forall|i: int| 0 <= i < d.len() ==> is_ascii_hex(#[trigger] d[i])
}

pub fn valid_digest(text: &str) -> (r: bool)
    ensures
        r == valid_digest_spec(text@),
{
    let d = trim_chars(&chars_of(text));
    if d.len() != 64 {
        return false;
    }
    let mut i: usize = 0;
    while i < d.len()
        invariant
            i <= d@.len(),
            d@ == trim(text@),
            d@.len() == 64,
            forall|j: int| 0 <= j < i ==> is_ascii_hex(#[trigger] d@[j]),
        decreases d@.len() - i,
    {
        let c = d[i];
        if !(('0' <= c && c <= '9') || ('a' <= c && c <= 'f') || ('A' <= c && c <= 'F')) {
            assert(!is_ascii_hex(d@[i as int]));
            return false;
        }
        i += 1;
    }
    true
}

/// A bundle directory given to Tectonic on Windows: a `file:///` URL with
/// forward slashes, so that a drive prefix is not read as a URL scheme.
pub open spec fn windows_bundle_url_spec(bundle: Seq<char>) -> Seq<char> {
    "file:///"@ + bundle.map_values(|c: char| if c == '\\' { '/' } else { c })
}

pub fn windows_bundle_url(bundle: &str) -> (s: String)
    ensures
        s@ == windows_bundle_url_spec(bundle@),
{
    let b = chars_of(bundle);
    let mut s = String::new();
    push_str(&mut s, "file:///");
    let ghost s0 = s@;
    let mut i: usize = 0;
    while i < b.len()
        invariant
            i <= b@.len(),
            s@ == s0 + b@.take(i as int).map_values(|c: char| if c == '\\' { '/' } else { c }),
        decreases b@.len() - i,
    {
        let c = if b[i] == '\\' { '/' } else { b[i] };
        push_char(&mut s, c);
        assert(b@.take(i + 1).map_values(|c: char| if c == '\\' { '/' } else { c })
            =~= b@.take(i as int).map_values(|c: char| if c == '\\' { '/' } else { c }).push(c));
        i += 1;
    }
    assert(b@.take(b@.len() as int) =~= b@);
    s
}

/// The side files that a TeX run leaves next to the document, by extension.
pub fn generated_extensions() -> (r: Vec<&'static str>)
    ensures
        r@.len() == 12,
        r@[0]@ == "aux"@ && r@[1]@ == "bbl"@ && r@[2]@ == "bcf"@ && r@[3]@ == "blg"@,
        r@[4]@ == "fdb_latexmk"@ && r@[5]@ == "fls"@ && r@[6]@ == "log"@ && r@[7]@ == "out"@,
        r@[8]@ == "run.xml"@ && r@[9]@ == "synctex.gz"@ && r@[10]@ == "toc"@ && r@[11]@ == "xdv"@,
{
    let mut r: Vec<&'static str> = Vec::new();
    r.push("aux");
    r.push("bbl");
    r.push("bcf");
    r.push("blg");
    r.push("fdb_latexmk");
    r.push("fls");
    r.push("log");
    r.push("out");
    r.push("run.xml");
    r.push("synctex.gz");
    r.push("toc");
    r.push("xdv");
    r
}

} // verus!
