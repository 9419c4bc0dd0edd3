//! Bibliography citations: which keys a document cites, and whether a
//! BibTeX file provides them. Reading the file is left to the caller.
use vstd::prelude::*;
use crate::common::ast::{
    Block, Inline, SBlock, SInline, block_view, blocks_view, inline_view, inlines_view,
    lemma_inlines_view_len, lemma_inlines_view_push, strings_view, table_view,
};
use crate::common::inline::{parse, parse_spec};
use crate::strset::{insert_sorted, strictly_sorted, views};
use crate::text::{chars_of, join_with, push_joined, push_str, string_from_chars, string_views};

verus! {

/// Keys cited by one inline, formatting looked into.
pub open spec fn inline_keys(i: SInline) -> Seq<Seq<char>>
    decreases i, 0nat,
{
    match i {
        SInline::Citation(ks) => ks,
        SInline::Bold(c) => seq_keys(c),
        SInline::Italic(c) => seq_keys(c),
        _ => Seq::empty(),
    }
}

pub open spec fn seq_keys(s: Seq<SInline>) -> Seq<Seq<char>>
    decreases s, s.len(),
{
    if s.len() == 0 {
        Seq::empty()
    } else {
        seq_keys(s.drop_last()) + inline_keys(s.last())
    }
}

pub open spec fn cells_keys(cells: Seq<Seq<char>>) -> Seq<Seq<char>>
    decreases cells.len(),
{
    if cells.len() == 0 {
        Seq::empty()
    } else {
        cells_keys(cells.drop_last()) + seq_keys(parse_spec(cells.last()))
    }
}

pub open spec fn rows_keys(rows: Seq<Seq<Seq<char>>>) -> Seq<Seq<char>>
    decreases rows.len(),
{
    if rows.len() == 0 {
        Seq::empty()
    } else {
        rows_keys(rows.drop_last()) + cells_keys(rows.last())
    }
}

/// Keys cited by a block: in paragraphs, list items and table cells.
pub open spec fn block_keys(b: SBlock) -> Seq<Seq<char>> {
    match b {
        SBlock::Paragraph(inl) => seq_keys(inl),
        SBlock::List { content, .. } => seq_keys(content),
        SBlock::Table { rows, .. } => rows_keys(rows),
        _ => Seq::empty(),
    }
}

pub open spec fn document_keys(bs: Seq<SBlock>) -> Seq<Seq<char>>
    decreases bs.len(),
{
    if bs.len() == 0 {
        Seq::empty()
    } else {
        document_keys(bs.drop_last()) + block_keys(bs.last())
    }
}

/// `v` holds the old keys and those of `extra`.
pub open spec fn grows_by(v: Seq<Seq<char>>, old: Seq<Seq<char>>, extra: Seq<Seq<char>>) -> bool {
    forall|k: Seq<char>| v.contains(k) <==> (old.contains(k) || extra.contains(k))
}

proof fn lemma_concat_contains(a: Seq<Seq<char>>, b: Seq<Seq<char>>, k: Seq<char>)
    ensures
        (a + b).contains(k) <==> (a.contains(k) || b.contains(k)),
{
    if (a + b).contains(k) {
        let i = choose|i: int| 0 <= i < (a + b).len() && (a + b)[i] == k;
        if i < a.len() {
            assert(a[i] == k);
        } else {
            assert(b[i - a.len()] == k);
        }
    }
    if a.contains(k) {
        let i = choose|i: int| 0 <= i < a.len() && a[i] == k;
        assert((a + b)[i] == k);
    }
    if b.contains(k) {
        let i = choose|i: int| 0 <= i < b.len() && b[i] == k;
        assert((a + b)[a.len() + i] == k);
    }
}

fn add_keys(keys: &mut Vec<Vec<char>>, ks: &Vec<String>)
    requires
        strictly_sorted(views(old(keys)@)),
    ensures
        strictly_sorted(views(final(keys)@)),
        grows_by(views(final(keys)@), views(old(keys)@), strings_view(ks@)),
{
    let ghost k0 = views(keys@);
    let ghost kv = strings_view(ks@);
    let mut i: usize = 0;
    while i < ks.len()
        invariant
            i <= ks@.len(),
            kv == strings_view(ks@),
            strictly_sorted(views(keys@)),
            grows_by(views(keys@), k0, kv.take(i as int)),
        decreases ks@.len() - i,
    {
        insert_sorted(keys, chars_of(ks[i].as_str()));
        proof {
            assert(kv.take(i + 1) =~= kv.take(i as int) + seq![kv[i as int]]);
            assert forall|k: Seq<char>| views(keys@).contains(k) <==> (k0.contains(k) || kv.take(i + 1).contains(k)) by {
                lemma_concat_contains(kv.take(i as int), seq![kv[i as int]], k);
                if seq![kv[i as int]].contains(k) {
                    assert(seq![kv[i as int]][0] == kv[i as int]);
                }
            }
        }
        i += 1;
    }
    assert(kv.take(ks@.len() as int) =~= kv);
}

fn add_inline_keys(keys: &mut Vec<Vec<char>>, inlines: &[Inline])
    requires
        strictly_sorted(views(old(keys)@)),
    ensures
        strictly_sorted(views(final(keys)@)),
        grows_by(views(final(keys)@), views(old(keys)@), seq_keys(inlines_view(inlines@))),
    decreases inlines@,
{
    let ghost k0 = views(keys@);
    let mut i: usize = 0;
    assert(inlines_view(inlines@.take(0)) =~= Seq::<SInline>::empty());
    while i < inlines.len()
        invariant
            i <= inlines@.len(),
            strictly_sorted(views(keys@)),
            grows_by(views(keys@), k0, seq_keys(inlines_view(inlines@.take(i as int)))),
        decreases inlines@.len() - i,
    {
        let ghost before = views(keys@);
        match &inlines[i] {
            Inline::Citation(ks) => add_keys(keys, ks),
            Inline::Bold(c) => {
                assert(decreases_to!(inlines@ => c@));
                add_inline_keys(keys, c.as_slice());
            },
            Inline::Italic(c) => {
                assert(decreases_to!(inlines@ => c@));
                add_inline_keys(keys, c.as_slice());
            },
            _ => {},
        }
        proof {
            let p = inlines@.take(i + 1);
            assert(p =~= inlines@.take(i as int).push(inlines@[i as int]));
            lemma_inlines_view_push(inlines@.take(i as int), inlines@[i as int]);
            assert(inlines_view(inlines@.take(i as int)).push(inline_view(inlines@[i as int])).drop_last()
                =~= inlines_view(inlines@.take(i as int)));
            let prev = seq_keys(inlines_view(inlines@.take(i as int)));
            let here = inline_keys(inline_view(inlines@[i as int]));
            assert(seq_keys(inlines_view(p)) == prev + here);
            assert forall|k: Seq<char>| views(keys@).contains(k) <==> (k0.contains(k) || (prev + here).contains(k)) by {
                lemma_concat_contains(prev, here, k);
            }
        }
        i += 1;
    }
    assert(inlines@.take(inlines@.len() as int) =~= inlines@);
}

fn add_table_keys(keys: &mut Vec<Vec<char>>, rows: &Vec<Vec<String>>)
    requires
        strictly_sorted(views(old(keys)@)),
    ensures
        strictly_sorted(views(final(keys)@)),
        grows_by(views(final(keys)@), views(old(keys)@), rows_keys(table_view(rows@))),
{
    let ghost k0 = views(keys@);
    let ghost tv = table_view(rows@);
    let mut r: usize = 0;
    assert(tv.take(0) =~= Seq::<Seq<Seq<char>>>::empty());
    while r < rows.len()
        invariant
            r <= rows@.len(),
            tv == table_view(rows@),
            strictly_sorted(views(keys@)),
            grows_by(views(keys@), k0, rows_keys(tv.take(r as int))),
        decreases rows@.len() - r,
    {
        let row = &rows[r];
        let ghost rv = tv[r as int];
        assert(rv == strings_view(row@));
        let ghost k1 = views(keys@);
        let mut c: usize = 0;
        assert(rv.take(0) =~= Seq::<Seq<char>>::empty());
        while c < row.len()
            invariant
                c <= row@.len(),
                rv == strings_view(row@),
                strictly_sorted(views(keys@)),
                grows_by(views(keys@), k1, cells_keys(rv.take(c as int))),
            decreases row@.len() - c,
        {
            let parsed = parse(row[c].as_str());
            let ghost k2 = views(keys@);
            add_inline_keys(keys, parsed.as_slice());
            proof {
                assert(rv.take(c + 1).drop_last() =~= rv.take(c as int));
                let prev = cells_keys(rv.take(c as int));
                let here = seq_keys(parse_spec(rv[c as int]));
                assert forall|k: Seq<char>| views(keys@).contains(k) <==> (k1.contains(k) || (prev + here).contains(k)) by {
                    lemma_concat_contains(prev, here, k);
                }
            }
            c += 1;
        }
        proof {
            assert(rv.take(row@.len() as int) =~= rv);
            assert(tv.take(r + 1).drop_last() =~= tv.take(r as int));
            let prev = rows_keys(tv.take(r as int));
            let here = cells_keys(rv);
            assert forall|k: Seq<char>| views(keys@).contains(k) <==> (k0.contains(k) || (prev + here).contains(k)) by {
                lemma_concat_contains(prev, here, k);
            }
        }
        r += 1;
    }
    assert(tv.take(rows@.len() as int) =~= tv);
}

/// The keys a document cites, sorted and without repetition.
pub fn cited_keys(blocks: &[Block]) -> (r: Vec<String>)
    ensures
        strictly_sorted(string_views(r@)),
        forall|k: Seq<char>| string_views(r@).contains(k) <==> document_keys(blocks_view(blocks@)).contains(k),
{
    let ghost bv = blocks_view(blocks@);
    let mut keys: Vec<Vec<char>> = Vec::new();
    let mut i: usize = 0;
    assert(bv.take(0) =~= Seq::<SBlock>::empty());
    assert(views(keys@) =~= Seq::<Seq<char>>::empty());
    while i < blocks.len()
        invariant
            i <= blocks@.len(),
            bv == blocks_view(blocks@),
            strictly_sorted(views(keys@)),
            forall|k: Seq<char>| views(keys@).contains(k) <==> document_keys(bv.take(i as int)).contains(k),
        decreases blocks@.len() - i,
    {
        let ghost k0 = views(keys@);
        assert(bv[i as int] == block_view(blocks@[i as int]));
        match &blocks[i] {
            Block::Paragraph(inl) => add_inline_keys(&mut keys, inl.as_slice()),
            Block::List { content, .. } => add_inline_keys(&mut keys, content.as_slice()),
            Block::Table { rows, .. } => add_table_keys(&mut keys, rows),
            _ => {},
        }
        proof {
            assert(bv.take(i + 1).drop_last() =~= bv.take(i as int));
            let prev = document_keys(bv.take(i as int));
            let here = block_keys(bv[i as int]);
            assert forall|k: Seq<char>| views(keys@).contains(k) <==> (prev + here).contains(k) by {
                lemma_concat_contains(prev, here, k);
            }
        }
        i += 1;
    }
    assert(bv.take(blocks@.len() as int) =~= bv);
    let mut out: Vec<String> = Vec::new();
    let mut j: usize = 0;
    while j < keys.len()
        invariant
            j <= keys@.len(),
            out@.len() == j,
            forall|t: int| 0 <= t < j ==> #[trigger] out@[t]@ == keys@[t]@,
        decreases keys@.len() - j,
    {
        out.push(string_from_chars(&keys[j]));
        j += 1;
    }
    assert(string_views(out@) =~= views(keys@));
    out
}

/// Name for what `biblatex::Bibliography::parse` makes of a BibTeX text:
/// the entry keys in order, or the parse error's message.
pub uninterp spec fn bib_parse(content: Seq<char>) -> Result<Seq<Seq<char>>, Seq<char>>;

/// Parses BibTeX with `biblatex::Bibliography::parse` and lists the entry
/// keys (`Bibliography::keys`); a parse error becomes its message. Only the
/// name above is claimed.
#[verifier::external_body]
fn bibliography_keys(content: &str) -> (r: Result<Vec<String>, String>)
    ensures
        match r {
            Ok(v) => bib_parse(content@) == Ok::<Seq<Seq<char>>, Seq<char>>(string_views(v@)),
            Err(e) => bib_parse(content@) == Err::<Seq<Seq<char>>, Seq<char>>(e@),
        },
{
    match biblatex::Bibliography::parse(content) {
        Ok(b) => Ok(b.keys().map(|k| k.to_string()).collect()),
        Err(e) => Err(format!("{}", e)),
    }
}

/// Why a bibliography does not serve a document.
#[derive(Debug, Clone, PartialEq, Eq)]
pub enum BibError {
    /// The BibTeX text does not parse; the parser's message.
    Malformed(String),
    /// Cited keys that the file lacks, in citation order.
    MissingKeys(Vec<String>),
}

/// Cited keys that `available` lacks, in order.
pub open spec fn missing_spec(cited: Seq<Seq<char>>, available: Seq<Seq<char>>) -> Seq<Seq<char>>
    decreases cited.len(),
{
    if cited.len() == 0 {
        Seq::empty()
    } else {
        missing_spec(cited.drop_last(), available) + if available.contains(cited.last()) {
            Seq::empty()
        } else {
            seq![cited.last()]
        }
    }
}

fn contains_key(v: &Vec<String>, k: &String) -> (r: bool)
    ensures
        r == string_views(v@).contains(k@),
{
    let kc = chars_of(k.as_str());
    let mut i: usize = 0;
    while i < v.len()
        invariant
            i <= v@.len(),
            kc@ == k@,
            forall|t: int| 0 <= t < i ==> v@[t]@ != k@,
        decreases v@.len() - i,
    {
        if crate::text::chars_eq(&chars_of(v[i].as_str()), &kc) {
            assert(string_views(v@)[i as int] == k@);
            return true;
        }
        i += 1;
    }
    assert(!string_views(v@).contains(k@)) by {
        if string_views(v@).contains(k@) {
            let t = choose|t: int| 0 <= t < v@.len() && string_views(v@)[t] == k@;
            assert(v@[t]@ == k@);
        }
    }
    false
}

/// The cited keys missing from `available`, in order.
pub fn missing_keys(cited: &Vec<String>, available: &Vec<String>) -> (r: Vec<String>)
    ensures
        string_views(r@) == missing_spec(string_views(cited@), string_views(available@)),
{
    let ghost cv = string_views(cited@);
    let ghost av = string_views(available@);
    let mut out: Vec<String> = Vec::new();
    let mut i: usize = 0;
    assert(cv.take(0) =~= Seq::<Seq<char>>::empty());
    assert(string_views(out@) =~= Seq::<Seq<char>>::empty());
    while i < cited.len()
        invariant
            i <= cited@.len(),
            cv == string_views(cited@),
            av == string_views(available@),
            string_views(out@) == missing_spec(cv.take(i as int), av),
        decreases cited@.len() - i,
    {
        let ghost before = string_views(out@);
        assert(cv.take(i + 1).drop_last() =~= cv.take(i as int));
        if !contains_key(available, &cited[i]) {
            out.push(cited[i].clone());
            assert(string_views(out@) =~= before + seq![cv[i as int]]);
        } else {
            assert(string_views(out@) =~= before + Seq::<Seq<char>>::empty());
        }
        i += 1;
    }
    assert(cv.take(cited@.len() as int) =~= cv);
    out
}

/// Checks a BibTeX text against the cited keys: it must parse and hold
/// every key.
pub open spec fn check_spec(cited: Seq<Seq<char>>, content: Seq<char>) -> Result<(), (bool, Seq<Seq<char>>, Seq<char>)> {
    match bib_parse(content) {
        Err(msg) => Err((true, Seq::empty(), msg)),
        Ok(keys) => {
            let m = missing_spec(cited, keys);
            if m.len() == 0 { Ok(()) } else { Err((false, m, Seq::empty())) }
        },
    }
}

pub fn check_bibliography(cited: &Vec<String>, content: &str) -> (r: Result<(), BibError>)
    ensures
        match r {
            Ok(()) => check_spec(string_views(cited@), content@) is Ok,
            Err(BibError::Malformed(msg)) => check_spec(string_views(cited@), content@)
                == Err::<(), (bool, Seq<Seq<char>>, Seq<char>)>((true, Seq::empty(), msg@)),
            Err(BibError::MissingKeys(m)) => check_spec(string_views(cited@), content@)
                == Err::<(), (bool, Seq<Seq<char>>, Seq<char>)>((false, string_views(m@), Seq::empty())),
        },
{
    match bibliography_keys(content) {
        Err(msg) => Err(BibError::Malformed(msg)),
        Ok(keys) => {
            let m = missing_keys(cited, &keys);
            if m.len() == 0 {
                Ok(())
            } else {
                Err(BibError::MissingKeys(m))
            }
        },
    }
}

/// `Bib 文件缺少引用键: ` and the keys separated by `, `.
pub fn missing_keys_message(missing: &Vec<String>) -> (s: String)
    ensures
        s@ == "Bib 文件缺少引用键: "@ + join_with(string_views(missing@), ", "@),
{
    let mut s = String::new();
    push_str(&mut s, "Bib 文件缺少引用键: ");
    push_joined(&mut s, missing.as_slice(), ", ");
    s
}

/// Outcome of a successful citation check.
#[derive(Debug, Clone, PartialEq, Eq)]
pub struct Validated {
    pub has_citations: bool,
    pub source: Option<String>,
}

/// Without a declared bibliography, a document may not cite anything.
pub fn without_bibliography(cited: &Vec<String>) -> (r: Option<Validated>)
    ensures
        r is Some <==> cited@.len() == 0,
        r matches Some(v) ==> !v.has_citations && v.source is None,
{
    if cited.len() == 0 {
        Some(Validated { has_citations: false, source: None })
    } else {
        None
    }
}

} // verus!
