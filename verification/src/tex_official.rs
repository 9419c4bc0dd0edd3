//! Official-document LaTeX emitter (document class `official`).
//!
//! Level-1 headings are centred in the title face; level 2 is numbered
//! `一、`, level 3 `（一）`, level 4 `1.`, level 5 `(1)`. List prefixes cycle
//! `①` → `⑴` → `a.` → `I.` → `(A)` → `1)`. Tables are plain `tabular`s with
//! all rules. Section markers and code blocks are not part of this style.
use vstd::prelude::*;
use crate::common::ast::{
    Block, Inline, SBlock, SInline, block_view, blocks_view, inlines_view, strings_view, table_view,
};
use crate::common::escape::{Escaper, escape_latex_spec, push_escaped};
use crate::common::inline::{parse, parse_spec};
use crate::common::numbering::{chinese_numeral, number_to_chinese, official_list_prefix, push_official_list_prefix};
use crate::tex_research_emitter::{figure_tex, render_seq, sole_image};
pub use crate::tex_research_emitter::render_inlines;
use crate::text::{chars_of, decimal, is_blank, join_with, push_decimal, push_joined, push_str, string_views};

pub use crate::common::escape::escape_latex;

verus! {

/// List counters shared by the list-prefix rules.
pub struct LState {
    pub l1: nat,
    pub l2: nat,
    pub l3: nat,
    pub l4: nat,
    pub l5: nat,
    pub l6: nat,
    pub in_list: bool,
    pub list_level: u8,
}

/// Abstract state of the official emitter.
pub struct OState {
    pub out: Seq<char>,
    pub h2: nat,
    pub h3: nat,
    pub h4: nat,
    pub h5: nat,
    pub list: LState,
}

pub open spec fn empty_list_state() -> LState {
    LState { l1: 0, l2: 0, l3: 0, l4: 0, l5: 0, l6: 0, in_list: false, list_level: 0 }
}

pub open spec fn initial_ostate() -> OState {
    OState { out: Seq::empty(), h2: 0, h3: 0, h4: 0, h5: 0, list: empty_list_state() }
}

/// Counters after a list item of `level`: deeper levels restart whenever
/// the list goes back up or starts anew.
pub open spec fn list_step(s: LState, level: u8) -> LState {
    if level == 1 {
        let a = if !s.in_list || s.list_level > 1 { LState { l2: 0, l3: 0, l4: 0, l5: 0, l6: 0, ..s } } else { s };
        let b = if !s.in_list { LState { l1: 0, ..a } } else { a };
        LState { l1: b.l1 + 1, ..b }
    } else if level == 2 {
        let a = if !s.in_list || s.list_level != 2 {
            let x = if s.list_level > 2 { LState { l3: 0, l4: 0, l5: 0, l6: 0, ..s } } else { s };
            if !s.in_list || s.list_level < 2 { LState { l2: 0, l3: 0, l4: 0, l5: 0, l6: 0, ..x } } else { x }
        } else {
            s
        };
        LState { l2: a.l2 + 1, ..a }
    } else if level == 3 {
        let a = if !s.in_list || s.list_level < 3 { LState { l3: 0, l4: 0, l5: 0, l6: 0, ..s } } else { s };
        LState { l3: a.l3 + 1, ..a }
    } else if level == 4 {
        let a = if !s.in_list || s.list_level < 4 { LState { l4: 0, l5: 0, l6: 0, ..s } } else { s };
        LState { l4: a.l4 + 1, ..a }
    } else if level == 5 {
        let a = if !s.in_list || s.list_level < 5 { LState { l5: 0, l6: 0, ..s } } else { s };
        LState { l5: a.l5 + 1, ..a }
    } else if level == 6 {
        let a = if !s.in_list || s.list_level < 6 { LState { l6: 0, ..s } } else { s };
        LState { l6: a.l6 + 1, ..a }
    } else {
        s
    }
}

/// The counter of `level`.
pub open spec fn level_count(s: LState, level: u8) -> nat {
    if level == 1 {
        s.l1
    } else if level == 2 {
        s.l2
    } else if level == 3 {
        s.l3
    } else if level == 4 {
        s.l4
    } else if level == 5 {
        s.l5
    } else {
        s.l6
    }
}

pub open spec fn official_heading(s: OState, level: u8, text: Seq<char>) -> OState {
    let t = escape_latex_spec(text);
    if level == 1 {
        OState {
            out: s.out + "\\begin{center}{\\xbsong\\zihao{2}"@ + t + "}\\end{center}\n\n"@,
            h2: 0,
            h3: 0,
            h4: 0,
            h5: 0,
            ..s
        }
    } else if level == 2 {
        let n = s.h2 + 1;
        OState { out: s.out + "{\\hei "@ + chinese_numeral(n) + "、"@ + t + "}\\par\n\n"@, h2: n, h3: 0, h4: 0, h5: 0, ..s }
    } else if level == 3 {
        let n = s.h3 + 1;
        OState { out: s.out + "{\\kai （"@ + chinese_numeral(n) + "）"@ + t + "}\\par\n\n"@, h3: n, h4: 0, h5: 0, ..s }
    } else if level == 4 {
        let n = s.h4 + 1;
        OState { out: s.out + decimal(n) + "."@ + t + "\\par\n\n"@, h4: n, h5: 0, ..s }
    } else if level == 5 {
        let n = s.h5 + 1;
        OState { out: s.out + "\\textbf{("@ + decimal(n) + ")"@ + t + "}\\par\n\n"@, h5: n, ..s }
    } else {
        s
    }
}

/// A paragraph: a lone image becomes a figure (so that its anchor takes
/// effect), blank text is dropped.
pub open spec fn official_paragraph(s: OState, inl: Seq<SInline>) -> OState {
    match sole_image(inl) {
        Some((alt, url, label)) => OState { out: s.out + figure_tex(alt, url, label) + "\n\n"@, ..s },
        None => {
            let body = render_seq(inl);
            if is_blank(body) { s } else { OState { out: s.out + body + "\\par\n\n"@, ..s } }
        },
    }
}

pub open spec fn official_list_item(s: OState, level: u8, content: Seq<SInline>) -> OState {
    let l = list_step(s.list, level);
    let prefix = official_list_prefix(level, level_count(l, level));
    OState {
        out: s.out + prefix + render_seq(content) + "\\par\n\n"@,
        list: LState { in_list: true, list_level: level, ..l },
        ..s
    }
}

/// Widest row of a table.
pub open spec fn max_cols(rows: Seq<Seq<Seq<char>>>) -> nat
    decreases rows.len(),
{
    if rows.len() == 0 {
        0
    } else {
        let m = max_cols(rows.drop_last());
        if rows.last().len() > m { rows.last().len() } else { m }
    }
}

/// A cell of row `r`, column `i` (empty past the end of the row).
pub open spec fn official_cell(row: Seq<Seq<char>>, i: int, header: bool) -> Seq<char> {
    let raw = if i < row.len() { row[i] } else { Seq::empty() };
    let body = render_seq(parse_spec(raw));
    if header { "\\textbf{"@ + body + "}"@ } else { body }
}

pub open spec fn official_row(row: Seq<Seq<char>>, n: nat, header: bool) -> Seq<char> {
    join_with(Seq::new(n, |i: int| official_cell(row, i, header)), " & "@) + " \\\\\n\\hline\n"@
}

pub open spec fn official_rows(rows: Seq<Seq<Seq<char>>>, n: nat) -> Seq<char>
    decreases rows.len(),
{
    if rows.len() == 0 {
        Seq::empty()
    } else {
        official_rows(rows.drop_last(), n) + official_row(rows.last(), n, rows.len() == 1)
    }
}

pub open spec fn repeat_col(n: nat) -> Seq<char>
    decreases n,
{
    if n == 0 { Seq::empty() } else { repeat_col((n - 1) as nat) + "|l"@ }
}

pub open spec fn official_table(rows: Seq<Seq<Seq<char>>>) -> Seq<char> {
    let n = max_cols(rows);
    if rows.len() == 0 || n == 0 {
        Seq::empty()
    } else {
        "\\begin{center}\n"@ + "\\begin{tabular}{"@ + repeat_col(n) + "|"@ + "}\n\\hline\n"@
            + official_rows(rows, n) + "\\end{tabular}\n\\end{center}\n\n"@
    }
}

pub open spec fn official_block(s: OState, b: SBlock) -> OState {
    match b {
        SBlock::Heading { level, text } => official_heading(OState { list: empty_list_state(), ..s }, level, text),
        SBlock::Paragraph(inl) => official_paragraph(OState { list: empty_list_state(), ..s }, inl),
        SBlock::List { ordered, level, content } => official_list_item(s, level, content),
        SBlock::Table { rows, caption } => OState {
            out: s.out + official_table(rows),
            list: empty_list_state(),
            ..s
        },
        _ => s,
    }
}

pub open spec fn official_blocks(s: OState, bs: Seq<SBlock>) -> OState
    decreases bs.len(),
{
    if bs.len() == 0 {
        s
    } else {
        official_block(official_blocks(s, bs.drop_last()), bs.last())
    }
}

/// Every counter is at most `m`.
pub open spec fn obounded(s: OState, m: nat) -> bool {
    &&& s.h2 <= m
    &&& s.h3 <= m
    &&& s.h4 <= m
    &&& s.h5 <= m
    &&& s.list.l1 <= m
    &&& s.list.l2 <= m
    &&& s.list.l3 <= m
    &&& s.list.l4 <= m
    &&& s.list.l5 <= m
    &&& s.list.l6 <= m
}

/// The complete document around a body.
pub open spec fn wrap_document_spec(body: Seq<char>) -> Seq<char> {
    "\\documentclass{official}\n\n"@ + "\\begin{document}\n\n"@ + body
        + (if body.len() > 0 && body.last() == '\n' { Seq::empty() } else { "\n"@ })
        + "\n\\end{document}\n"@
}

/// Official-document LaTeX emitter; see the module documentation.
pub struct TexEmitter {
    out: String,
    h2: usize,
    h3: usize,
    h4: usize,
    h5: usize,
    l1: usize,
    l2: usize,
    l3: usize,
    l4: usize,
    l5: usize,
    l6: usize,
    in_list: bool,
    list_level: u8,
}

impl View for TexEmitter {
    type V = OState;

    closed spec fn view(&self) -> OState {
        OState {
            out: self.out@,
            h2: self.h2 as nat,
            h3: self.h3 as nat,
            h4: self.h4 as nat,
            h5: self.h5 as nat,
            list: LState {
                l1: self.l1 as nat,
                l2: self.l2 as nat,
                l3: self.l3 as nat,
                l4: self.l4 as nat,
                l5: self.l5 as nat,
                l6: self.l6 as nat,
                in_list: self.in_list,
                list_level: self.list_level,
            },
        }
    }
}

fn cell_exec(row: &Vec<String>, i: usize, header: bool) -> (c: String)
    ensures
        c@ == official_cell(strings_view(row@), i as int, header),
{
    let raw: &str = if i < row.len() { row[i].as_str() } else { "" };
    let ghost rv = if i < row@.len() { row@[i as int]@ } else { Seq::<char>::empty() };
    assert(raw@ == rv) by {
        reveal_strlit("");
    }
    let body = render_inlines(parse(raw).as_slice());
    if header {
        let mut c = String::new();
        push_str(&mut c, "\\textbf{");
        push_str(&mut c, body.as_str());
        push_str(&mut c, "}");
        assert(c@ =~= official_cell(strings_view(row@), i as int, header));
        c
    } else {
        body
    }
}

fn row_exec(row: &Vec<String>, n: usize, header: bool) -> (r: String)
    ensures
        r@ == official_row(strings_view(row@), n as nat, header),
{
    let ghost want = Seq::new(n as nat, |i: int| official_cell(strings_view(row@), i, header));
    let mut cells: Vec<String> = Vec::new();
    let mut i: usize = 0;
    while i < n
        invariant
            i <= n,
            want == Seq::new(n as nat, |i: int| official_cell(strings_view(row@), i, header)),
            cells@.len() == i,
            forall|k: int| 0 <= k < i ==> #[trigger] cells@[k]@ == want[k],
        decreases n - i,
    {
        cells.push(cell_exec(row, i, header));
        i += 1;
    }
    assert(string_views(cells@) =~= want);
    let mut r = String::new();
    push_joined(&mut r, cells.as_slice(), " & ");
    push_str(&mut r, " \\\\\n\\hline\n");
    assert(r@ =~= official_row(strings_view(row@), n as nat, header));
    r
}

fn table_exec(out: &mut String, rows: &Vec<Vec<String>>)
    ensures
        final(out)@ == old(out)@ + official_table(table_view(rows@)),
{
    let ghost tv = table_view(rows@);
    if rows.len() == 0 {
        assert(old(out)@ + official_table(tv) =~= old(out)@);
        return;
    }
    let mut n: usize = 0;
    let mut k: usize = 0;
    while k < rows.len()
        invariant
            k <= rows@.len(),
            tv == table_view(rows@),
            n == max_cols(tv.take(k as int)),
        decreases rows@.len() - k,
    {
        assert(tv.take(k + 1).drop_last() =~= tv.take(k as int));
        assert(tv[k as int].len() == rows@[k as int]@.len());
        if rows[k].len() > n {
            n = rows[k].len();
        }
        k += 1;
    }
    assert(tv.take(rows@.len() as int) =~= tv);
    if n == 0 {
        assert(old(out)@ + official_table(tv) =~= old(out)@);
        return;
    }
    let ghost o = out@;
    push_str(out, "\\begin{center}\n");
    push_str(out, "\\begin{tabular}{");
    let ghost o2 = out@;
    let mut j: usize = 0;
    while j < n
        invariant
            j <= n,
            out@ == o2 + repeat_col(j as nat),
        decreases n - j,
    {
        push_str(out, "|l");
        j += 1;
    }
    push_str(out, "|");
    push_str(out, "}\n\\hline\n");
    let ghost o3 = out@;
    let mut r: usize = 0;
    assert(tv.take(0) =~= Seq::<Seq<Seq<char>>>::empty());
    while r < rows.len()
        invariant
            r <= rows@.len(),
            tv == table_view(rows@),
            out@ == o3 + official_rows(tv.take(r as int), n as nat),
        decreases rows@.len() - r,
    {
        let line = row_exec(&rows[r], n, r == 0);
        push_str(out, line.as_str());
        assert(tv.take(r + 1).drop_last() =~= tv.take(r as int));
        assert(tv[r as int] == strings_view(rows@[r as int]@));
        r += 1;
        assert(out@ =~= o3 + official_rows(tv.take(r as int), n as nat));
    }
    push_str(out, "\\end{tabular}\n\\end{center}\n\n");
    assert(out@ =~= o + official_table(tv));
}

impl TexEmitter {
    pub fn new() -> (e: Self)
        ensures
            e@ == initial_ostate(),
    {
        TexEmitter {
            out: String::new(),
            h2: 0,
            h3: 0,
            h4: 0,
            h5: 0,
            l1: 0,
            l2: 0,
            l3: 0,
            l4: 0,
            l5: 0,
            l6: 0,
            in_list: false,
            list_level: 0,
        }
    }

    /// The body written so far.
    pub fn into_body(self) -> (s: String)
        ensures
            s@ == self@.out,
    {
        self.out
    }

    fn reset_list(&mut self)
        ensures
            final(self)@ == (OState { list: empty_list_state(), ..old(self)@ }),
    {
        self.in_list = false;
        self.list_level = 0;
        self.l1 = 0;
        self.l2 = 0;
        self.l3 = 0;
        self.l4 = 0;
        self.l5 = 0;
        self.l6 = 0;
    }

    fn emit_heading(&mut self, level: u8, text: &str)
        requires
            obounded(old(self)@, (usize::MAX - 1) as nat),
        ensures
            final(self)@ == official_heading(old(self)@, level, text@),
    {
        let ghost o = self.out@;
        let escaped = escape_latex(text);
        if level == 1 {
            self.h2 = 0;
            self.h3 = 0;
            self.h4 = 0;
            self.h5 = 0;
            push_str(&mut self.out, "\\begin{center}{\\xbsong\\zihao{2}");
            push_str(&mut self.out, escaped.as_str());
            push_str(&mut self.out, "}\\end{center}\n\n");
        } else if level == 2 {
            self.h2 = self.h2 + 1;
            self.h3 = 0;
            self.h4 = 0;
            self.h5 = 0;
            let num = number_to_chinese(self.h2);
            push_str(&mut self.out, "{\\hei ");
            push_str(&mut self.out, num.as_str());
            push_str(&mut self.out, "、");
            push_str(&mut self.out, escaped.as_str());
            push_str(&mut self.out, "}\\par\n\n");
        } else if level == 3 {
            self.h3 = self.h3 + 1;
            self.h4 = 0;
            self.h5 = 0;
            let num = number_to_chinese(self.h3);
            push_str(&mut self.out, "{\\kai （");
            push_str(&mut self.out, num.as_str());
            push_str(&mut self.out, "）");
            push_str(&mut self.out, escaped.as_str());
            push_str(&mut self.out, "}\\par\n\n");
        } else if level == 4 {
            self.h4 = self.h4 + 1;
            self.h5 = 0;
            push_decimal(&mut self.out, self.h4);
            push_str(&mut self.out, ".");
            push_str(&mut self.out, escaped.as_str());
            push_str(&mut self.out, "\\par\n\n");
        } else if level == 5 {
            self.h5 = self.h5 + 1;
            push_str(&mut self.out, "\\textbf{(");
            push_decimal(&mut self.out, self.h5);
            push_str(&mut self.out, ")");
            push_str(&mut self.out, escaped.as_str());
            push_str(&mut self.out, "}\\par\n\n");
        }
        assert(self.out@ =~= official_heading(old(self)@, level, text@).out);
    }

    fn emit_paragraph(&mut self, inlines: &[Inline])
        ensures
            final(self)@ == official_paragraph(old(self)@, inlines_view(inlines@)),
    {
        let ghost o = self.out@;
        match crate::tex_research_emitter::sole_image_index(inlines) {
            Some(i) => {
                match &inlines[i] {
                    Inline::Image { alt, url, label } => {
                        let f = crate::tex_research_emitter::figure_string(alt, url, label);
                        push_str(&mut self.out, f.as_str());
                        push_str(&mut self.out, "\n\n");
                        assert(self.out@ =~= o + f@ + "\n\n"@);
                    },
                    _ => {},
                }
            },
            None => {
                let body = render_inlines(inlines);
                if crate::text::is_blank_exec(&chars_of(body.as_str())) {
                    return;
                }
                push_str(&mut self.out, body.as_str());
                push_str(&mut self.out, "\\par\n\n");
                assert(self.out@ =~= o + body@ + "\\par\n\n"@);
            },
        }
    }

    fn list_counters(&mut self, level: u8)
        requires
            obounded(old(self)@, (usize::MAX - 1) as nat),
        ensures
            final(self)@ == (OState { list: list_step(old(self)@.list, level), ..old(self)@ }),
    {
        if level == 1 {
            if !self.in_list || self.list_level > 1 {
                self.l2 = 0;
                self.l3 = 0;
                self.l4 = 0;
                self.l5 = 0;
                self.l6 = 0;
            }
            if !self.in_list {
                self.l1 = 0;
            }
            self.l1 = self.l1 + 1;
        } else if level == 2 {
            if !self.in_list || self.list_level != 2 {
                if self.list_level > 2 {
                    self.l3 = 0;
                    self.l4 = 0;
                    self.l5 = 0;
                    self.l6 = 0;
                }
                if !self.in_list || self.list_level < 2 {
                    self.l2 = 0;
                    self.l3 = 0;
                    self.l4 = 0;
                    self.l5 = 0;
                    self.l6 = 0;
                }
            }
            self.l2 = self.l2 + 1;
        } else if level == 3 {
            if !self.in_list || self.list_level < 3 {
                self.l3 = 0;
                self.l4 = 0;
                self.l5 = 0;
                self.l6 = 0;
            }
            self.l3 = self.l3 + 1;
        } else if level == 4 {
            if !self.in_list || self.list_level < 4 {
                self.l4 = 0;
                self.l5 = 0;
                self.l6 = 0;
            }
            self.l4 = self.l4 + 1;
        } else if level == 5 {
            if !self.in_list || self.list_level < 5 {
                self.l5 = 0;
                self.l6 = 0;
            }
            self.l5 = self.l5 + 1;
        } else if level == 6 {
            if !self.in_list || self.list_level < 6 {
                self.l6 = 0;
            }
            self.l6 = self.l6 + 1;
        }
    }

    fn emit_list_item(&mut self, level: u8, content: &[Inline])
        requires
            obounded(old(self)@, (usize::MAX - 1) as nat),
        ensures
            final(self)@ == official_list_item(old(self)@, level, inlines_view(content@)),
    {
        let ghost o = self.out@;
        self.list_counters(level);
        let count = if level == 1 {
            self.l1
        } else if level == 2 {
            self.l2
        } else if level == 3 {
            self.l3
        } else if level == 4 {
            self.l4
        } else if level == 5 {
            self.l5
        } else {
            self.l6
        };
        assert(count == level_count(self@.list, level));
        assert(1 <= level <= 3 ==> count >= 1);
        push_official_list_prefix(&mut self.out, level, count);
        let body = render_inlines(content);
        push_str(&mut self.out, body.as_str());
        push_str(&mut self.out, "\\par\n\n");
        self.in_list = true;
        self.list_level = level;
        assert(self.out@ =~= o + official_list_prefix(level, count as nat) + body@ + "\\par\n\n"@);
    }

    /// Emits one block.
    #[verifier::rlimit(30)]
    pub fn emit_block(&mut self, block: &Block)
        requires
            obounded(old(self)@, (usize::MAX - 1) as nat),
        ensures
            final(self)@ == official_block(old(self)@, block_view(*block)),
    {
        match block {
            Block::Heading { level, text } => {
                self.reset_list();
                self.emit_heading(*level, text.as_str());
            },
            Block::Paragraph(inlines) => {
                self.reset_list();
                self.emit_paragraph(inlines.as_slice());
            },
            Block::List { level, content, .. } => {
                self.emit_list_item(*level, content.as_slice());
            },
            Block::Table { rows, .. } => {
                self.reset_list();
                table_exec(&mut self.out, rows);
            },
            _ => {},
        }
    }
}

pub proof fn lemma_official_bounded(s: OState, b: SBlock, m: nat)
    requires
        obounded(s, m),
    ensures
        obounded(official_block(s, b), m + 1),
{
    match b {
        SBlock::List { ordered, level, content } => {
            assert(obounded(OState { list: list_step(s.list, level), ..s }, m + 1));
        },
        _ => {},
    }
}

impl TexEmitter {
    /// Emits the blocks in order.
    pub fn emit_all(&mut self, blocks: &[Block])
        requires
            blocks@.len() < usize::MAX,
            obounded(old(self)@, (usize::MAX - 1 - blocks@.len()) as nat),
        ensures
            final(self)@ == official_blocks(old(self)@, blocks_view(blocks@)),
    {
        let ghost s0 = self@;
        let ghost bv = blocks_view(blocks@);
        let mut i: usize = 0;
        assert(bv.take(0) =~= Seq::<SBlock>::empty());
        while i < blocks.len()
            invariant
                i <= blocks@.len(),
                blocks@.len() < usize::MAX,
                bv == blocks_view(blocks@),
                obounded(self@, (usize::MAX - 1 - blocks@.len() + i) as nat),
                self@ == official_blocks(s0, bv.take(i as int)),
            decreases blocks@.len() - i,
        {
            proof {
                lemma_official_bounded(self@, bv[i as int], (usize::MAX - 1 - blocks@.len() + i) as nat);
            }
            self.emit_block(&blocks[i]);
            assert(bv.take(i + 1).drop_last() =~= bv.take(i as int));
            i += 1;
        }
        assert(bv.take(blocks@.len() as int) =~= bv);
    }
}

/// The complete `official` document around a body.
pub fn wrap_document(body: &str) -> (s: String)
    ensures
        s@ == wrap_document_spec(body@),
{
    let mut s = String::new();
    push_str(&mut s, "\\documentclass{official}\n\n");
    push_str(&mut s, "\\begin{document}\n\n");
    push_str(&mut s, body);
    let b = chars_of(body);
    if !(b.len() > 0 && b[b.len() - 1] == '\n') {
        push_str(&mut s, "\n");
    }
    push_str(&mut s, "\n\\end{document}\n");
    assert(s@ =~= wrap_document_spec(body@));
    s
}


/// A level-2 heading restarts the numbering below it: the level-3, level-4
/// and level-5 counters go back to zero, so the first level-3 heading that
/// follows is numbered `（一）`, whatever came before.
pub proof fn lemma_subheadings_restart(s: OState, t1: Seq<char>, t2: Seq<char>)
    ensures
        ({
            let s1 = official_heading(s, 2, t1);
            let s2 = official_heading(s1, 3, t2);
            &&& s1.h2 == s.h2 + 1
            &&& s1.h3 == 0 && s1.h4 == 0 && s1.h5 == 0
            &&& s2.h3 == 1
            &&& s2.out == s1.out + "{\\kai （"@ + seq!['一'] + "）"@ + escape_latex_spec(t2) + "}\\par\n\n"@
        }),
{
    assert(chinese_numeral(1) == seq!['一']);
}

} // verus!
