//! File paths as strings. The components of a path come from
//! `std::path::Path`; what the library decides about paths (default output
//! names, output directories, extensions) is verified on top of them.
use vstd::prelude::*;

verus! {

pub open spec fn opt_string(o: Option<String>) -> Option<Seq<char>> {
    match o {
        Some(s) => Some(s@),
        None => None,
    }
}

/// Name for `Path::parent` of a path given as text.
pub uninterp spec fn path_parent(p: Seq<char>) -> Option<Seq<char>>;

/// Name for `Path::file_name`.
pub uninterp spec fn path_file_name(p: Seq<char>) -> Option<Seq<char>>;

/// Name for `Path::file_stem`.
pub uninterp spec fn path_file_stem(p: Seq<char>) -> Option<Seq<char>>;

/// Name for `Path::extension`.
pub uninterp spec fn path_extension(p: Seq<char>) -> Option<Seq<char>>;

/// Name for `Path::join`.
pub uninterp spec fn path_join(base: Seq<char>, rel: Seq<char>) -> Seq<char>;

/// Name for `Path::with_extension`.
pub uninterp spec fn path_with_extension(p: Seq<char>, ext: Seq<char>) -> Seq<char>;

/// Name for `Path::is_absolute`.
pub uninterp spec fn path_is_absolute(p: Seq<char>) -> bool;

/// `std::path::Path::parent` on a UTF-8 path: the path without its last
/// component, if it has one. Only the name above is claimed.
#[verifier::external_body]
pub(crate) fn parent_of(p: &str) -> (r: Option<String>)
    ensures
        opt_string(r) == path_parent(p@),
{
    std::path::Path::new(p).parent().map(|q| q.to_string_lossy().into_owned())
}

/// `std::path::Path::file_name`: the last component, if it is a name.
#[verifier::external_body]
pub(crate) fn file_name_of(p: &str) -> (r: Option<String>)
    ensures
        opt_string(r) == path_file_name(p@),
{
    std::path::Path::new(p).file_name().map(|q| q.to_string_lossy().into_owned())
}

/// `std::path::Path::file_stem`: the file name without its extension.
#[verifier::external_body]
pub(crate) fn file_stem_of(p: &str) -> (r: Option<String>)
    ensures
        opt_string(r) == path_file_stem(p@),
{
    std::path::Path::new(p).file_stem().map(|q| q.to_string_lossy().into_owned())
}

/// `std::path::Path::extension`: the text after the last dot of the file name.
#[verifier::external_body]
pub(crate) fn extension_of(p: &str) -> (r: Option<String>)
    ensures
        opt_string(r) == path_extension(p@),
{
    std::path::Path::new(p).extension().map(|q| q.to_string_lossy().into_owned())
}

/// `std::path::Path::join`.
#[verifier::external_body]
pub(crate) fn join_paths(base: &str, rel: &str) -> (r: String)
    ensures
        r@ == path_join(base@, rel@),
{
    std::path::Path::new(base).join(rel).to_string_lossy().into_owned()
}

/// An extension without a path separator (`/`, or `\\` as on Windows):
/// `PathBuf::set_extension` panics on one that holds a separator.
pub open spec fn no_separator(ext: Seq<char>) -> bool {
    !ext.contains('/') && !ext.contains('\\')
}

/// `std::path::Path::with_extension`, which goes through
/// `PathBuf::set_extension`; that panics when the extension holds a path
/// separator, so such extensions are left out.
#[verifier::external_body]
pub(crate) fn with_extension(p: &str, ext: &str) -> (r: String)
    requires
        no_separator(ext@),
    ensures
        r@ == path_with_extension(p@, ext@),
{
    std::path::Path::new(p).with_extension(ext).to_string_lossy().into_owned()
}

/// `std::path::Path::is_absolute`: whether the path is absolute on this
/// platform. Only the name above is claimed.
#[verifier::external_body]
pub(crate) fn is_absolute(p: &str) -> (r: bool)
    ensures
        r == path_is_absolute(p@),
{
    std::path::Path::new(p).is_absolute()
}

/// ASCII letters folded to lower case.
pub open spec fn fold_ascii(c: char) -> char {
    if 'A' <= c <= 'Z' { ((c as u32) + 32) as char } else { c }
}

/// `str::eq_ignore_ascii_case`.
pub open spec fn eq_ignore_ascii_case(a: Seq<char>, b: Seq<char>) -> bool {
    a.len() == b.len() && forall|i: int| 0 <= i < a.len() ==> fold_ascii(#[trigger] a[i]) == fold_ascii(b[i])
}

pub fn eq_ignore_case(a: &str, b: &str) -> (r: bool)
    ensures
        r == eq_ignore_ascii_case(a@, b@),
{
    let x = crate::text::chars_of(a);
    let y = crate::text::chars_of(b);
    if x.len() != y.len() {
        return false;
    }
    let mut i: usize = 0;
    while i < x.len()
        invariant
            i <= x@.len(),
            x@ == a@,
            y@ == b@,
            x@.len() == y@.len(),
            forall|k: int| 0 <= k < i ==> fold_ascii(#[trigger] x@[k]) == fold_ascii(y@[k]),
        decreases x@.len() - i,
    {
        let c = x[i];
        let d = y[i];
        let fc = if 'A' <= c && c <= 'Z' { (((c as u32) + 32) as u8) as char } else { c };
        let fd = if 'A' <= d && d <= 'Z' { (((d as u32) + 32) as u8) as char } else { d };
        if fc != fd {
            assert(fold_ascii(x@[i as int]) != fold_ascii(y@[i as int]));
            return false;
        }
        i += 1;
    }
    true
}

/// The path has the given extension, ignoring ASCII case.
pub open spec fn has_extension(p: Seq<char>, ext: Seq<char>) -> bool {
    match path_extension(p) {
        Some(e) => eq_ignore_ascii_case(e, ext),
        None => false,
    }
}

pub fn extension_is(p: &str, ext: &str) -> (r: bool)
    ensures
        r == has_extension(p@, ext@),
{
    match extension_of(p) {
        Some(e) => eq_ignore_case(e.as_str(), ext),
        None => false,
    }
}

/// Where LaTeX writes its files for `path`: its directory, or `.` for a bare
/// file name.
pub open spec fn output_dir_spec(path: Seq<char>) -> Seq<char> {
    match path_parent(path) {
        Some(q) => if q.len() > 0 { q } else { "."@ },
        None => "."@,
    }
}

/// The directory of a path, `.` when it has none.
pub fn output_dir(path: &str) -> (r: String)
    ensures
        r@ == output_dir_spec(path@),
{
    match parent_of(path) {
        Some(q) => {
            if crate::text::chars_of(q.as_str()).len() > 0 {
                q
            } else {
                ".".to_owned()
            }
        },
        None => ".".to_owned(),
    }
}

/// The path of a LaTeX side file of `stem` with extension `ext`
/// (`ext` may itself hold a dot, as in `synctex.gz`).
pub open spec fn generated_path_spec(dir: Seq<char>, stem: Seq<char>, ext: Seq<char>) -> Seq<char> {
    if ext.contains('.') {
        path_join(dir, stem + "."@ + ext)
    } else {
        path_with_extension(path_join(dir, stem), ext)
    }
}

pub fn generated_path(dir: &str, stem: &str, ext: &str) -> (r: String)
    requires
        !ext@.contains('.') ==> no_separator(ext@),
    ensures
        r@ == generated_path_spec(dir@, stem@, ext@),
{
    let e = crate::text::chars_of(ext);
    if crate::text::contains_char(&e, '.') {
        let mut f = String::new();
        crate::text::push_str(&mut f, stem);
        crate::text::push_str(&mut f, ".");
        crate::text::push_str(&mut f, ext);
        join_paths(dir, f.as_str())
    } else {
        let j = join_paths(dir, stem);
        with_extension(j.as_str(), ext)
    }
}

/// A PDF file, judged by its extension.
pub fn is_pdf(path: &str) -> (r: bool)
    ensures
        r == has_extension(path@, "pdf"@),
{
    extension_is(path, "pdf")
}

/// The path with extension `ext`, unless it has it already (ignoring ASCII
/// case).
pub open spec fn ensure_extension_spec(p: Seq<char>, ext: Seq<char>) -> Seq<char> {
    if has_extension(p, ext) { p } else { path_with_extension(p, ext) }
}

/// Gives the path the extension `extension` unless it has it already.
pub fn ensure_extension(path: &mut String, extension: &str)
    requires
        !has_extension(old(path)@, extension@) ==> no_separator(extension@),
    ensures
        final(path)@ == ensure_extension_spec(old(path)@, extension@),
{
    if !extension_is(path.as_str(), extension) {
        let p = with_extension(path.as_str(), extension);
        *path = p;
    }
}

/// A path typed into a field: the text trimmed, or nothing when it is blank.
pub open spec fn non_empty_path_spec(value: Seq<char>) -> Option<Seq<char>> {
    let t = crate::text::trim(value);
    if t.len() == 0 { None } else { Some(t) }
}

pub fn non_empty_path(value: &str) -> (r: Option<String>)
    ensures
        opt_string(r) == non_empty_path_spec(value@),
{
    let t = crate::text::trim_chars(&crate::text::chars_of(value));
    if t.len() == 0 {
        None
    } else {
        Some(crate::text::string_from_chars(&t))
    }
}

/// A URL fetched over HTTP(S) rather than a local file.
pub open spec fn is_remote_spec(url: Seq<char>) -> bool {
    crate::text::has_at(url, 0, "http://"@) || crate::text::has_at(url, 0, "https://"@)
}

pub fn is_remote(url: &str) -> (r: bool)
    ensures
        r == is_remote_spec(url@),
{
    let u = crate::text::chars_of(url);
    let http = crate::text::chars_of("http://");
    let https = crate::text::chars_of("https://");
    crate::text::at(&u, 0, &http) || crate::text::at(&u, 0, &https)
}

pub open spec fn is_angle(c: char) -> bool {
    c == '<' || c == '>'
}

/// The first position at or after `i` that is not `<` or `>`.
pub open spec fn skip_angles(t: Seq<char>, i: int) -> int
    decreases t.len() - i,
{
    if i < 0 || i >= t.len() {
        i
    } else if is_angle(t[i]) {
        skip_angles(t, i + 1)
    } else {
        i
    }
}

/// The end of `t[..j]` without its trailing `<` and `>`, not before `lo`.
pub open spec fn skip_angles_back(t: Seq<char>, lo: int, j: int) -> int
    decreases j - lo,
{
    if j <= lo {
        j
    } else if is_angle(t[j - 1]) {
        skip_angles_back(t, lo, j - 1)
    } else {
        j
    }
}

/// The text without the `<` and `>` at either end.
pub open spec fn strip_angles(t: Seq<char>) -> Seq<char> {
    let a = skip_angles(t, 0);
    t.subrange(a, skip_angles_back(t, a, t.len() as int))
}

proof fn lemma_skip_angles(t: Seq<char>, i: int)
    requires
        0 <= i <= t.len(),
    ensures
        i <= skip_angles(t, i) <= t.len(),
    decreases t.len() - i,
{
    if i < t.len() && is_angle(t[i]) {
        lemma_skip_angles(t, i + 1);
    }
}

proof fn lemma_skip_angles_back(t: Seq<char>, lo: int, j: int)
    requires
        0 <= lo <= j <= t.len(),
    ensures
        lo <= skip_angles_back(t, lo, j) <= j,
    decreases j - lo,
{
    if j > lo && is_angle(t[j - 1]) {
        lemma_skip_angles_back(t, lo, j - 1);
    }
}

/// Where an image URL points: trimmed, `<` and `>` stripped at the ends,
/// taken as is when absolute and below `base_dir` otherwise.
pub open spec fn resolve_path_spec(url: Seq<char>, base_dir: Seq<char>) -> Seq<char> {
    let c = strip_angles(crate::text::trim(url));
    if path_is_absolute(c) { c } else { path_join(base_dir, c) }
}

pub fn resolve_path(url: &str, base_dir: &str) -> (r: String)
    ensures
        r@ == resolve_path_spec(url@, base_dir@),
{
    let t = crate::text::trim_chars(&crate::text::chars_of(url));
    let mut a: usize = 0;
    proof {
        lemma_skip_angles(t@, 0);
    }
    while a < t.len() && (t[a] == '<' || t[a] == '>')
        invariant
            a <= t@.len(),
            skip_angles(t@, a as int) == skip_angles(t@, 0),
        decreases t@.len() - a,
    {
        a += 1;
    }
    let mut b: usize = t.len();
    proof {
        lemma_skip_angles_back(t@, a as int, t@.len() as int);
    }
    while b > a && (t[b - 1] == '<' || t[b - 1] == '>')
        invariant
            a <= b <= t@.len(),
            a == skip_angles(t@, 0),
            skip_angles_back(t@, a as int, b as int) == skip_angles_back(t@, a as int, t@.len() as int),
        decreases b - a,
    {
        b -= 1;
    }
    let c = crate::text::string_from_chars(&crate::text::slice_of(&t, a, b));
    assert(c@ =~= strip_angles(crate::text::trim(url@)));
    if is_absolute(c.as_str()) {
        c
    } else {
        join_paths(base_dir, c.as_str())
    }
}

} // verus!
