use vstd::prelude::*;

verus! {

#[derive(Debug, PartialEq, Eq)]
pub enum Inline {
    Text(String),
    Bold(Vec<Inline>),
    Italic(Vec<Inline>),
    Code(String),
    Link { text: String, url: String },
    Image { alt: String, url: String, label: Option<String> },
    CrossRef(String),
    Citation(Vec<String>),
    Footnote(String),
}

#[derive(Debug, Clone, Copy, PartialEq, Eq)]
pub enum MarkerKind {
    /// Abstract section: `<!-- [摘要] -->`
    Abstract,
    /// Appendix section: `<!-- [附录] -->`
    Appendix,
    /// Revision history section: `<!-- [版本变更记录] -->`
    Changelog,
    /// Body section (chapter numbering restarts): `<!-- [正文] -->`
    Body,
    /// References section: `<!-- [参考文献] -->`
    Reference,
}

/// Block-level element of a document.
#[derive(Debug)]
pub enum Block {
    /// Heading of `level` (number of `#`, 1..=6) with its old numbering removed.
    Heading { level: u8, text: String },
    /// Paragraph.
    Paragraph(Vec<Inline>),
    /// One list line; `level` (1..=6) comes from the indentation.
    List { ordered: bool, level: u8, content: Vec<Inline> },
    /// Table; `rows[0]` is the header, the separator row is dropped.
    Table { rows: Vec<Vec<String>>, caption: Option<String> },
    /// Section switch from a `<!-- [...] -->` comment.
    Marker(MarkerKind),
    /// Cross-reference anchor for the heading or table that follows.
    Label(String),
    /// Fenced code block.
    CodeBlock { lang: Option<String>, content: String },
    /// Empty line.
    Empty,
}

pub enum SBlock {
    Heading { level: u8, text: Seq<char> },
    Paragraph(Seq<SInline>),
    List { ordered: bool, level: u8, content: Seq<SInline> },
    Table { rows: Seq<Seq<Seq<char>>>, caption: Option<Seq<char>> },
    Marker(MarkerKind),
    Label(Seq<char>),
    CodeBlock { lang: Option<Seq<char>>, content: Seq<char> },
    Empty,
}

pub open spec fn table_view(rows: Seq<Vec<String>>) -> Seq<Seq<Seq<char>>> {
    rows.map_values(|row: Vec<String>| strings_view(row@))
}

pub open spec fn block_view(b: Block) -> SBlock {
    match b {
        Block::Heading { level, text } => SBlock::Heading { level, text: text@ },
        Block::Paragraph(v) => SBlock::Paragraph(inlines_view(v@)),
        Block::List { ordered, level, content } => SBlock::List { ordered, level, content: inlines_view(content@) },
        Block::Table { rows, caption } => SBlock::Table { rows: table_view(rows@), caption: opt_view(caption) },
        Block::Marker(k) => SBlock::Marker(k),
        Block::Label(s) => SBlock::Label(s@),
        Block::CodeBlock { lang, content } => SBlock::CodeBlock { lang: opt_view(lang), content: content@ },
        Block::Empty => SBlock::Empty,
    }
}

pub open spec fn blocks_view(s: Seq<Block>) -> Seq<SBlock> {
    s.map_values(|b: Block| block_view(b))
}

pub enum SInline {
    Text(Seq<char>),
    Bold(Seq<SInline>),
    Italic(Seq<SInline>),
    Code(Seq<char>),
    Link { text: Seq<char>, url: Seq<char> },
    Image { alt: Seq<char>, url: Seq<char>, label: Option<Seq<char>> },
    CrossRef(Seq<char>),
    Citation(Seq<Seq<char>>),
    Footnote(Seq<char>),
}

pub open spec fn strings_view(v: Seq<String>) -> Seq<Seq<char>> {
    Seq::new(v.len(), |k: int| v[k]@)
}

pub open spec fn opt_view(o: Option<String>) -> Option<Seq<char>> {
    match o {
        Some(s) => Some(s@),
        None => None,
    }
}

pub open spec fn inline_view(i: Inline) -> SInline
    decreases i, 0nat,
{
    match i {
        Inline::Text(s) => SInline::Text(s@),
        Inline::Bold(v) => SInline::Bold(inlines_view(v@)),
        Inline::Italic(v) => SInline::Italic(inlines_view(v@)),
        Inline::Code(s) => SInline::Code(s@),
        Inline::Link { text, url } => SInline::Link { text: text@, url: url@ },
        Inline::Image { alt, url, label } => SInline::Image { alt: alt@, url: url@, label: opt_view(label) },
        Inline::CrossRef(s) => SInline::CrossRef(s@),
        Inline::Citation(v) => SInline::Citation(strings_view(v@)),
        Inline::Footnote(s) => SInline::Footnote(s@),
    }
}

pub open spec fn inlines_view(s: Seq<Inline>) -> Seq<SInline>
    decreases s, s.len(),
{
    if s.len() == 0 {
        Seq::empty()
    } else {
        inlines_view(s.drop_last()).push(inline_view(s.last()))
    }
}

pub proof fn lemma_inlines_view_push(s: Seq<Inline>, x: Inline)
    ensures
        inlines_view(s.push(x)) == inlines_view(s).push(inline_view(x)),
{
    assert(s.push(x).drop_last() =~= s);
}

pub proof fn lemma_inlines_view_len(s: Seq<Inline>)
    ensures
        inlines_view(s).len() == s.len(),
        forall|k: int| 0 <= k < s.len() ==> #[trigger] inlines_view(s)[k] == inline_view(s[k]),
    decreases s.len(),
{
    if s.len() > 0 {
        lemma_inlines_view_len(s.drop_last());
    }
}

pub proof fn lemma_inlines_view_concat(a: Seq<Inline>, b: Seq<Inline>)
    ensures
        inlines_view(a + b) == inlines_view(a) + inlines_view(b),
    decreases b.len(),
{
    if b.len() == 0 {
        assert(a + b =~= a);
        assert(inlines_view(a) + inlines_view(b) =~= inlines_view(a));
    } else {
        lemma_inlines_view_concat(a, b.drop_last());
        assert((a + b).drop_last() =~= a + b.drop_last());
        assert((a + b).last() == b.last());
        assert(inlines_view(a) + inlines_view(b) =~= (inlines_view(a) + inlines_view(b.drop_last())).push(inline_view(b.last())));
    }
}

/// Appends all inlines of `b` to `a`.
pub fn append_inlines(a: &mut Vec<Inline>, b: Vec<Inline>)
    ensures
        inlines_view(final(a)@) == inlines_view(old(a)@) + inlines_view(b@),
{
    let mut b = b;
    let ghost a0 = a@;
    let ghost b0 = b@;
    a.append(&mut b);
    proof {
        lemma_inlines_view_concat(a0, b0);
    }
}

/// A copy of the strings.
pub fn clone_strings(v: &Vec<String>) -> (r: Vec<String>)
    ensures
        strings_view(r@) == strings_view(v@),
{
    let mut r: Vec<String> = Vec::new();
    let mut i: usize = 0;
    while i < v.len()
        invariant
            i <= v@.len(),
            r@.len() == i,
            forall|k: int| 0 <= k < i ==> #[trigger] r@[k]@ == v@[k]@,
        decreases v@.len() - i,
    {
        r.push(v[i].clone());
        i += 1;
    }
    assert(strings_view(r@) =~= strings_view(v@));
    r
}

pub fn clone_opt(o: &Option<String>) -> (r: Option<String>)
    ensures
        opt_view(r) == opt_view(*o),
{
    match o {
        Some(s) => Some(s.clone()),
        None => None,
    }
}

/// A copy of the inlines.
pub fn clone_inlines(v: &[Inline]) -> (r: Vec<Inline>)
    ensures
        inlines_view(r@) == inlines_view(v@),
    decreases v@,
{
    let mut r: Vec<Inline> = Vec::new();
    let mut i: usize = 0;
    while i < v.len()
        invariant
            i <= v@.len(),
            inlines_view(r@) == inlines_view(v@.take(i as int)),
        decreases v@.len() - i,
    {
        let x = match &v[i] {
            Inline::Text(t) => Inline::Text(t.clone()),
            Inline::Bold(c) => {
                assert(decreases_to!(v@ => c@));
                Inline::Bold(clone_inlines(c.as_slice()))
            },
            Inline::Italic(c) => {
                assert(decreases_to!(v@ => c@));
                Inline::Italic(clone_inlines(c.as_slice()))
            },
            Inline::Code(t) => Inline::Code(t.clone()),
            Inline::Link { text, url } => Inline::Link { text: text.clone(), url: url.clone() },
            Inline::Image { alt, url, label } => Inline::Image { alt: alt.clone(), url: url.clone(), label: clone_opt(label) },
            Inline::CrossRef(t) => Inline::CrossRef(t.clone()),
            Inline::Citation(keys) => Inline::Citation(clone_strings(keys)),
            Inline::Footnote(t) => Inline::Footnote(t.clone()),
        };
        assert(inline_view(x) == inline_view(v@[i as int]));
        proof {
            lemma_inlines_view_push(r@, x);
            assert(v@.take(i + 1).drop_last() =~= v@.take(i as int));
        }
        r.push(x);
        i += 1;
    }
    assert(v@.take(v@.len() as int) =~= v@);
    r
}

/// A copy of the table rows.
pub fn clone_rows(rows: &Vec<Vec<String>>) -> (r: Vec<Vec<String>>)
    ensures
        table_view(r@) == table_view(rows@),
{
    let mut r: Vec<Vec<String>> = Vec::new();
    let mut i: usize = 0;
    while i < rows.len()
        invariant
            i <= rows@.len(),
            r@.len() == i,
            forall|k: int| 0 <= k < i ==> strings_view(#[trigger] r@[k]@) == strings_view(rows@[k]@),
        decreases rows@.len() - i,
    {
        r.push(clone_strings(&rows[i]));
        i += 1;
    }
    assert(table_view(r@) =~= table_view(rows@));
    r
}

/// A copy of the block.
pub fn clone_block(b: &Block) -> (r: Block)
    ensures
        block_view(r) == block_view(*b),
{
    match b {
        Block::Heading { level, text } => Block::Heading { level: *level, text: text.clone() },
        Block::Paragraph(v) => Block::Paragraph(clone_inlines(v.as_slice())),
        Block::List { ordered, level, content } => Block::List {
            ordered: *ordered,
            level: *level,
            content: clone_inlines(content.as_slice()),
        },
        Block::Table { rows, caption } => Block::Table { rows: clone_rows(rows), caption: clone_opt(caption) },
        Block::Marker(k) => Block::Marker(*k),
        Block::Label(s) => Block::Label(s.clone()),
        Block::CodeBlock { lang, content } => Block::CodeBlock { lang: clone_opt(lang), content: content.clone() },
        Block::Empty => Block::Empty,
    }
}

} // verus!
