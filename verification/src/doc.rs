//! Documents as a flat list of blocks (text paragraphs, headings, code and
//! images) plus the section starts that the chapter picker offers, and the
//! conversions of plain text and markdown into blocks.

use vstd::prelude::*;
use crate::chars::{
    chars_of, is_space, is_space_char, lowercase, same_chars, string_of, to_lowercase, trim,
    trim_chars,
};
use crate::pdf::{line_pieces, nonblank, nonblank_lines, split_lines};
use crate::text::{is_invisible, is_invisible_char, sanitize_chars, sanitized};

verus! {

/// A table: its header cells and its rows of cells.
#[derive(Debug, Clone, PartialEq, Eq)]
pub struct TableBlock {
    pub headers: Vec<String>,
    pub rows: Vec<Vec<String>>,
}

/// The mathematical content of a [`TableBlock`].
pub struct TableModel {
    pub headers: Seq<Seq<char>>,
    pub rows: Seq<Seq<Seq<char>>>,
}

impl DeepView for TableBlock {
    type V = TableModel;

    open spec fn deep_view(&self) -> TableModel {
        TableModel { headers: self.headers.deep_view(), rows: self.rows.deep_view() }
    }
}

/// One unit of document structure.
#[derive(Debug, PartialEq, Eq)]
pub enum Block {
    Text(String),
    Heading(u8, String),
    Code(String),
    Image(String),
    Table(TableBlock),
}

/// The mathematical content of a [`Block`].
pub enum BlockModel {
    Text(Seq<char>),
    Heading(u8, Seq<char>),
    Code(Seq<char>),
    Image(Seq<char>),
    Table(TableModel),
}

impl DeepView for Block {
    type V = BlockModel;

    open spec fn deep_view(&self) -> BlockModel {
        match self {
            Block::Text(s) => BlockModel::Text(s@),
            Block::Heading(l, s) => BlockModel::Heading(*l, s@),
            Block::Code(s) => BlockModel::Code(s@),
            Block::Image(s) => BlockModel::Image(s@),
            Block::Table(t) => BlockModel::Table(t.deep_view()),
        }
    }
}

/// A copy of a list of strings.
pub fn copy_strings(v: &[String]) -> (r: Vec<String>)
    ensures
        r.deep_view() == v.deep_view(),
{
    let mut r: Vec<String> = Vec::new();
    let mut i: usize = 0;
    while i < v.len()
        invariant
            i <= v@.len(),
            r.deep_view() == v.deep_view().take(i as int),
        decreases v@.len() - i,
    {
        let ghost before = r.deep_view();
        let c = v[i].clone();
        r.push(c);
        assert(r.deep_view() =~= before.push(v@[i as int]@));
        assert(v.deep_view().take(i + 1) =~= v.deep_view().take(i as int).push(v@[i as int]@));
        i += 1;
    }
    assert(v.deep_view().take(v@.len() as int) =~= v.deep_view());
    r
}

/// A copy of a table.
pub fn copy_table(t: &TableBlock) -> (r: TableBlock)
    ensures
        r.deep_view() == t.deep_view(),
{
    let headers = copy_strings(t.headers.as_slice());
    let mut rows: Vec<Vec<String>> = Vec::new();
    let mut i: usize = 0;
    while i < t.rows.len()
        invariant
            i <= t.rows@.len(),
            rows.deep_view() == t.rows.deep_view().take(i as int),
        decreases t.rows@.len() - i,
    {
        let ghost before = rows.deep_view();
        let row = copy_strings(t.rows[i].as_slice());
        rows.push(row);
        assert(rows.deep_view() =~= before.push(t.rows@[i as int].deep_view()));
        assert(t.rows.deep_view().take(i + 1) =~= t.rows.deep_view().take(i as int).push(
            t.rows@[i as int].deep_view(),
        ));
        i += 1;
    }
    assert(t.rows.deep_view().take(t.rows@.len() as int) =~= t.rows.deep_view());
    TableBlock { headers, rows }
}

/// Where a section (a heading) starts: its title, its level and the index of
/// its block.
#[derive(Debug, Clone, PartialEq, Eq)]
pub struct SectionStart {
    pub title: String,
    pub level: u8,
    pub block_index: usize,
}

/// The mathematical content of a [`SectionStart`].
pub struct SectionModel {
    pub title: Seq<char>,
    pub level: u8,
    pub block_index: int,
}

impl DeepView for SectionStart {
    type V = SectionModel;

    open spec fn deep_view(&self) -> SectionModel {
        SectionModel { title: self.title@, level: self.level, block_index: self.block_index as int }
    }
}

/// A parsed document.
#[derive(Debug, PartialEq, Eq)]
pub struct Document {
    pub blocks: Vec<Block>,
    pub sections: Vec<SectionStart>,
}

/// The headings of `bs`, in order, each with its position.
pub open spec fn sections_of(bs: Seq<BlockModel>) -> Seq<SectionModel>
    decreases bs.len(),
{
    if bs.len() == 0 {
        Seq::empty()
    } else {
        let before = sections_of(bs.drop_last());
        match bs.last() {
            BlockModel::Heading(level, title) => before.push(
                SectionModel { title, level, block_index: bs.len() - 1 },
            ),
            _ => before,
        }
    }
}

/// The sections of a document are exactly its heading blocks, in order: each
/// section names a heading block with that level and title, the positions
/// increase, and every heading block has its section.
pub proof fn law_sections_are_the_headings(bs: Seq<BlockModel>)
    ensures
        forall|k: int|
            0 <= k < sections_of(bs).len() ==> 0 <= #[trigger] sections_of(bs)[k].block_index
                < bs.len() && bs[sections_of(bs)[k].block_index] == BlockModel::Heading(
                sections_of(bs)[k].level,
                sections_of(bs)[k].title,
            ),
        forall|k1: int, k2: int|
            0 <= k1 < k2 < sections_of(bs).len() ==> #[trigger] sections_of(bs)[k1].block_index
                < #[trigger] sections_of(bs)[k2].block_index,
        forall|i: int|
            0 <= i < bs.len() && (#[trigger] bs[i] is Heading) ==> exists|k: int|
                0 <= k < sections_of(bs).len() && #[trigger] sections_of(bs)[k].block_index == i,
    decreases bs.len(),
{
    if bs.len() > 0 {
        let pre = bs.drop_last();
        law_sections_are_the_headings(pre);
        let before = sections_of(pre);
        let all = sections_of(bs);
        assert forall|k: int| 0 <= k < before.len() implies all[k] == before[k] by {}
        assert forall|k: int| 0 <= k < before.len() implies before[k].block_index < pre.len() by {}
        assert forall|i: int| 0 <= i < bs.len() && (#[trigger] bs[i] is Heading) implies exists|k: int|
            0 <= k < all.len() && #[trigger] all[k].block_index == i by {
            if i < pre.len() {
                assert(pre[i] == bs[i]);
                let k = choose|k: int| 0 <= k < before.len() && #[trigger] before[k].block_index == i;
                assert(all[k].block_index == i);
            } else {
                assert(all[all.len() - 1].block_index == i);
            }
        }
    }
}

/// One section start per heading block, in block order.
pub fn sections_from_blocks(blocks: &[Block]) -> (r: Vec<SectionStart>)
    ensures
        r.deep_view() == sections_of(blocks.deep_view()),
{
    let mut r: Vec<SectionStart> = Vec::new();
    let mut i: usize = 0;
    while i < blocks.len()
        invariant
            i <= blocks@.len(),
            r.deep_view() == sections_of(blocks.deep_view().take(i as int)),
        decreases blocks@.len() - i,
    {
        let ghost before = r.deep_view();
        proof {
            assert(blocks.deep_view().take(i + 1).drop_last() =~= blocks.deep_view().take(
                i as int,
            ));
        }
        match &blocks[i] {
            Block::Heading(level, title) => {
                r.push(SectionStart { title: title.clone(), level: *level, block_index: i });
                assert(r.deep_view() =~= before.push(
                    SectionModel { title: title@, level: *level, block_index: i as int },
                ));
            },
            _ => {
                assert(r.deep_view() =~= before);
            },
        }
        i += 1;
    }
    assert(blocks.deep_view().take(blocks@.len() as int) =~= blocks.deep_view());
    r
}

impl Document {
    /// A document whose sections are its heading blocks.
    pub fn from_blocks(blocks: Vec<Block>) -> (d: Document)
        ensures
            d.blocks@ == blocks@,
            d.sections.deep_view() == sections_of(blocks.deep_view()),
    {
        let sections = sections_from_blocks(blocks.as_slice());
        Document { blocks, sections }
    }
}

// ---------------------------------------------------------------------------
// Plain text

/// Scanning state of the split on blank lines: finished pieces, the piece
/// being read, and whether a single newline is pending.
pub open spec fn split_step(
    st: (Seq<Seq<char>>, Seq<char>, bool),
    c: char,
) -> (Seq<Seq<char>>, Seq<char>, bool) {
    let (done, cur, pending) = st;
    if c == '\n' {
        if pending {
            (done.push(cur), Seq::empty(), false)
        } else {
            (done, cur, true)
        }
    } else if pending {
        (done, cur.push('\n').push(c), false)
    } else {
        (done, cur.push(c), false)
    }
}

/// The scanning state after reading all of `s`.
pub open spec fn split_scan(s: Seq<char>) -> (Seq<Seq<char>>, Seq<char>, bool)
    decreases s.len(),
{
    if s.len() == 0 {
        (Seq::empty(), Seq::empty(), false)
    } else {
        split_step(split_scan(s.drop_last()), s.last())
    }
}

/// The pieces of `s` between occurrences of `"\n\n"`, matched left to right
/// without overlap (what `str::split("\n\n")` yields).
pub open spec fn blank_line_pieces(s: Seq<char>) -> Seq<Seq<char>> {
    let (done, cur, pending) = split_scan(s);
    done.push(if pending { cur.push('\n') } else { cur })
}

/// A piece with its line breaks turned into spaces, trimmed.
pub open spec fn paragraph_text(piece: Seq<char>) -> Seq<char> {
    trim(piece.map_values(|c: char| if c == '\n' { ' ' } else { c }))
}

/// The cells of a line of a fixed-width table: the runs of text separated by
/// two or more whitespace characters or by a tab; a single space inside a
/// cell is kept as one space. Scanning state: finished cells, the cell being
/// read, and the width of the gap just read (counted up to 2).
pub open spec fn cell_scan(line: Seq<char>) -> (Seq<Seq<char>>, Seq<char>, nat)
    decreases line.len(),
{
    if line.len() == 0 {
        (Seq::empty(), Seq::empty(), 0)
    } else {
        let (cells, cur, gap) = cell_scan(line.drop_last());
        let c = line.last();
        if is_space(c) {
            (cells, cur, if c == '\t' || gap >= 1 { 2 } else { 1 })
        } else if cur.len() == 0 {
            (cells, seq![c], 0)
        } else if gap >= 2 {
            (cells.push(cur), seq![c], 0)
        } else if gap == 1 {
            (cells, cur.push(' ').push(c), 0)
        } else {
            (cells, cur.push(c), 0)
        }
    }
}

/// The cells of a line (see [`cell_scan`]).
pub open spec fn cells_of(line: Seq<char>) -> Seq<Seq<char>> {
    let (cells, cur, _) = cell_scan(line);
    if cur.len() > 0 {
        cells.push(cur)
    } else {
        cells
    }
}

/// The lines of a piece that hold something, trimmed.
pub open spec fn table_lines(piece: Seq<char>) -> Seq<Seq<char>> {
    nonblank(line_pieces(piece))
}

/// Whether a piece of text is a fixed-width table: at least two non-blank
/// lines, each splitting into the same number (at least two) of cells.
pub open spec fn is_table_piece(piece: Seq<char>) -> bool {
    let ls = table_lines(piece);
    &&& ls.len() >= 2
    &&& cells_of(ls[0]).len() >= 2
    &&& forall|i: int| 0 <= i < ls.len() ==> #[trigger] cells_of(ls[i]).len() == cells_of(ls[0]).len()
}

/// The table of a fixed-width table piece: the first line's cells head it,
/// each further line is a row.
pub open spec fn piece_table(piece: Seq<char>) -> TableModel {
    let ls = table_lines(piece);
    TableModel {
        headers: cells_of(ls[0]),
        rows: Seq::new((ls.len() - 1) as nat, |i: int| cells_of(ls[i + 1])),
    }
}

/// One block per piece: a table for a fixed-width table, otherwise a text
/// block when its cleaned paragraph text is not empty.
pub open spec fn text_blocks(pieces: Seq<Seq<char>>) -> Seq<BlockModel>
    decreases pieces.len(),
{
    if pieces.len() == 0 {
        Seq::empty()
    } else {
        let before = text_blocks(pieces.drop_last());
        let p = pieces.last();
        let t = paragraph_text(sanitized(p));
        if is_table_piece(p) {
            before.push(BlockModel::Table(piece_table(p)))
        } else if t.len() > 0 {
            before.push(BlockModel::Text(t))
        } else {
            before
        }
    }
}

/// Whether every table among `bs` is rectangular: at least two columns, and
/// each row with as many cells as the header row.
pub open spec fn tables_are_rectangular(bs: Seq<BlockModel>) -> bool {
    forall|i: int|
        0 <= i < bs.len() ==> match #[trigger] bs[i] {
            BlockModel::Table(t) => t.headers.len() >= 2 && forall|r: int|
                0 <= r < t.rows.len() ==> (#[trigger] t.rows[r]).len() == t.headers.len(),
            _ => true,
        }
}

proof fn lemma_text_blocks_rectangular(pieces: Seq<Seq<char>>)
    ensures
        tables_are_rectangular(text_blocks(pieces)),
    decreases pieces.len(),
{
    if pieces.len() > 0 {
        let p = pieces.last();
        lemma_text_blocks_rectangular(pieces.drop_last());
        if is_table_piece(p) {
            let t = piece_table(p);
            let ls = table_lines(p);
            assert forall|r: int| 0 <= r < t.rows.len() implies (#[trigger] t.rows[r]).len()
                == t.headers.len() by {
                assert(cells_of(ls[r + 1]).len() == cells_of(ls[0]).len());
            }
        }
    }
}

/// A table found in plain text is rectangular: it has at least two columns,
/// and every row has exactly as many cells as the header row.
pub proof fn law_plain_text_tables_are_rectangular(src: Seq<char>)
    ensures
        tables_are_rectangular(plain_text_blocks(src)),
{
    lemma_text_blocks_rectangular(blank_line_pieces(visible(src)));
}

/// `s` without the invisible characters that cleaning removes.
pub open spec fn visible(s: Seq<char>) -> Seq<char> {
    s.filter(|c: char| !is_invisible(c))
}

/// The blocks of a plain-text document.
pub open spec fn plain_text_blocks(src: Seq<char>) -> Seq<BlockModel> {
    text_blocks(blank_line_pieces(visible(src)))
}

fn paragraph_chars(piece: &[char]) -> (r: Vec<char>)
    ensures
        r@ == paragraph_text(piece@),
{
    let mut flat: Vec<char> = Vec::new();
    let mut i: usize = 0;
    while i < piece.len()
        invariant
            i <= piece@.len(),
            flat@ == piece@.take(i as int).map_values(
                |c: char| if c == '\n' { ' ' } else { c },
            ),
        decreases piece@.len() - i,
    {
        let c = piece[i];
        flat.push(if c == '\n' { ' ' } else { c });
        i += 1;
        assert(flat@ =~= piece@.take(i as int).map_values(
            |c: char| if c == '\n' { ' ' } else { c },
        ));
    }
    assert(piece@.take(piece@.len() as int) =~= piece@);
    trim_chars(flat.as_slice())
}

/// The cells of a line (see [`cells_of`]).
fn line_cells(line: &[char]) -> (r: Vec<String>)
    ensures
        r.deep_view() == cells_of(line@),
{
    let mut cells: Vec<String> = Vec::new();
    let mut cur: Vec<char> = Vec::new();
    let mut gap: u8 = 0;
    let mut i: usize = 0;
    assert(cells.deep_view() =~= Seq::<Seq<char>>::empty());
    while i < line.len()
        invariant
            i <= line@.len(),
            gap <= 2,
            cell_scan(line@.take(i as int)) == (cells.deep_view(), cur@, gap as nat),
        decreases line@.len() - i,
    {
        proof {
            assert(line@.take(i + 1).drop_last() =~= line@.take(i as int));
        }
        let c = line[i];
        if is_space_char(c) {
            gap = if c == '\t' || gap >= 1 {
                2
            } else {
                1
            };
        } else if cur.len() == 0 {
            cur.push(c);
            assert(cur@ =~= seq![c]);
            gap = 0;
        } else if gap >= 2 {
            let ghost before = cells.deep_view();
            let ghost cv = cur@;
            cells.push(string_of(cur.as_slice()));
            assert(cells.deep_view() =~= before.push(cv));
            cur = Vec::new();
            cur.push(c);
            assert(cur@ =~= seq![c]);
            gap = 0;
        } else if gap == 1 {
            cur.push(' ');
            cur.push(c);
            gap = 0;
        } else {
            cur.push(c);
        }
        i += 1;
    }
    assert(line@.take(line@.len() as int) =~= line@);
    if cur.len() > 0 {
        let ghost before = cells.deep_view();
        let ghost cv = cur@;
        cells.push(string_of(cur.as_slice()));
        assert(cells.deep_view() =~= before.push(cv));
    }
    cells
}

/// The table of a piece when it is a fixed-width table (see
/// [`is_table_piece`] and [`piece_table`]).
fn table_of_piece(piece: &[char]) -> (r: Option<TableBlock>)
    ensures
        match r {
            Some(t) => is_table_piece(piece@) && t.deep_view() == piece_table(piece@),
            None => !is_table_piece(piece@),
        },
{
    let all = split_lines(piece);
    let lines = nonblank_lines(all.as_slice());
    let ghost ls = table_lines(piece@);
    assert(lines.deep_view() == ls);
    if lines.len() < 2 {
        return None;
    }
    assert(lines@[0]@ == ls[0]) by {
        assert(lines.deep_view()[0] == lines@[0].deep_view());
    }
    let headers = line_cells(lines[0].as_slice());
    if headers.len() < 2 {
        return None;
    }
    let mut rows: Vec<Vec<String>> = Vec::new();
    let mut i: usize = 1;
    while i < lines.len()
        invariant
            1 <= i <= lines@.len(),
            ls == table_lines(piece@),
            lines.deep_view() == ls,
            ls.len() >= 2,
            headers.deep_view() == cells_of(ls[0]),
            headers@.len() >= 2,
            forall|k: int| 0 <= k < i ==> #[trigger] cells_of(ls[k]).len() == cells_of(ls[0]).len(),
            rows.deep_view() == Seq::new((i - 1) as nat, |k: int| cells_of(ls[k + 1])),
        decreases lines@.len() - i,
    {
        assert(lines@[i as int]@ == ls[i as int]) by {
            assert(lines.deep_view()[i as int] == lines@[i as int].deep_view());
        }
        let row = line_cells(lines[i].as_slice());
        assert(row.deep_view().len() == row@.len());
        assert(headers.deep_view().len() == headers@.len());
        if row.len() != headers.len() {
            assert(cells_of(ls[i as int]).len() != cells_of(ls[0]).len());
            assert(!is_table_piece(piece@)) by {
                assert(lines.deep_view().len() == lines@.len());
                assert(0 <= i < ls.len());
            }
            return None;
        }
        let ghost before = rows.deep_view();
        let ghost rv = row.deep_view();
        rows.push(row);
        assert(rv == cells_of(ls[i as int]));
        assert(rows.deep_view() =~= before.push(rv));
        assert(before.push(rv) =~= Seq::new(i as nat, |k: int| cells_of(ls[k + 1])));
        i += 1;
    }
    Some(TableBlock { headers, rows })
}

/// Appends the block of a finished piece: its table, or its text if it has
/// any.
fn push_paragraph(blocks: &mut Vec<Block>, piece: &[char])
    ensures
        final(blocks).deep_view() == ({
            let t = paragraph_text(sanitized(piece@));
            if is_table_piece(piece@) {
                old(blocks).deep_view().push(BlockModel::Table(piece_table(piece@)))
            } else if t.len() > 0 {
                old(blocks).deep_view().push(BlockModel::Text(t))
            } else {
                old(blocks).deep_view()
            }
        }),
{
    if let Some(table) = table_of_piece(piece) {
        let ghost before = blocks.deep_view();
        let ghost tv = table.deep_view();
        blocks.push(Block::Table(table));
        assert(blocks.deep_view() =~= before.push(BlockModel::Table(tv)));
        return;
    }
    let cleaned = sanitize_chars(piece);
    let t = paragraph_chars(cleaned.as_slice());
    if t.len() > 0 {
        let ghost before = blocks.deep_view();
        blocks.push(Block::Text(string_of(t.as_slice())));
        assert(blocks.deep_view() =~= before.push(BlockModel::Text(t@)));
    }
}

/// `s` without its invisible characters (see [`visible`]).
fn visible_chars(s: &[char]) -> (r: Vec<char>)
    ensures
        r@ == visible(s@),
{
    let mut r: Vec<char> = Vec::new();
    let mut i: usize = 0;
    while i < s.len()
        invariant
            i <= s@.len(),
            r@ == visible(s@.take(i as int)),
        decreases s@.len() - i,
    {
        proof {
            assert(s@.take(i + 1).drop_last() =~= s@.take(i as int));
            reveal_with_fuel(Seq::filter, 1);
        }
        if !is_invisible_char(s[i]) {
            r.push(s[i]);
        }
        i += 1;
    }
    assert(s@.take(s@.len() as int) =~= s@);
    r
}

/// Splits plain text on blank lines into pieces: a piece laid out as a
/// fixed-width table becomes a table block, any other piece a cleaned
/// paragraph `Block::Text` (see [`plain_text_blocks`]).
pub fn blocks_from_plain_text(src: &str) -> (r: Vec<Block>)
    ensures
        r.deep_view() == plain_text_blocks(src@),
{
    let raw = chars_of(src);
    let s = visible_chars(raw.as_slice());
    let mut blocks: Vec<Block> = Vec::new();
    let mut cur: Vec<char> = Vec::new();
    let mut pending = false;
    let mut i: usize = 0;
    while i < s.len()
        invariant
            i <= s@.len(),
            ({
                let (done, c, p) = split_scan(s@.take(i as int));
                &&& blocks.deep_view() == text_blocks(done)
                &&& cur@ == c
                &&& pending == p
            }),
        decreases s@.len() - i,
    {
        let c = s[i];
        proof {
            assert(s@.take(i + 1).drop_last() =~= s@.take(i as int));
            assert(s@.take(i + 1).last() == c);
        }
        let ghost (done, _, _) = split_scan(s@.take(i as int));
        if c == '\n' {
            if pending {
                push_paragraph(&mut blocks, cur.as_slice());
                proof {
                    assert(done.push(cur@).drop_last() =~= done);
                }
                cur = Vec::new();
                pending = false;
            } else {
                pending = true;
            }
        } else {
            if pending {
                cur.push('\n');
                pending = false;
            }
            cur.push(c);
        }
        i += 1;
    }
    proof {
        assert(s@.take(s@.len() as int) =~= s@);
    }
    let ghost (done, _, _) = split_scan(s@);
    if pending {
        cur.push('\n');
    }
    push_paragraph(&mut blocks, cur.as_slice());
    proof {
        assert(done.push(cur@).drop_last() =~= done);
    }
    blocks
}

// ---------------------------------------------------------------------------
// File formats

/// How a document file is read.
#[derive(Copy, Clone, Debug, PartialEq, Eq, Structural)]
pub enum DocFormat {
    Markdown,
    Docx,
    Pdf,
    /// Anything else is read as plain text.
    PlainText,
}

/// The format for a (lowercased) file extension.
pub open spec fn format_named(ext: Seq<char>) -> DocFormat {
    if ext == seq!['m', 'd'] || ext == seq!['m', 'a', 'r', 'k', 'd', 'o', 'w', 'n'] || ext
        == seq!['m', 'd', 'x'] {
        DocFormat::Markdown
    } else if ext == seq!['d', 'o', 'c', 'x'] {
        DocFormat::Docx
    } else if ext == seq!['p', 'd', 'f'] {
        DocFormat::Pdf
    } else {
        DocFormat::PlainText
    }
}

/// The format of a file with this extension, case ignored: `md`,
/// `markdown` and `mdx` are markdown, `docx` and `pdf` are themselves, and
/// every other extension (or none) is plain text.
pub fn format_for_extension(ext: &str) -> (r: DocFormat)
    ensures
        r == format_named(lowercase(ext@)),
{
    let lower = to_lowercase(ext);
    let l = chars_of(lower.as_str());
    let md = ['m', 'd'];
    let markdown = ['m', 'a', 'r', 'k', 'd', 'o', 'w', 'n'];
    let mdx = ['m', 'd', 'x'];
    let docx = ['d', 'o', 'c', 'x'];
    let pdf = ['p', 'd', 'f'];
    assert(md@ =~= seq!['m', 'd']);
    assert(markdown@ =~= seq!['m', 'a', 'r', 'k', 'd', 'o', 'w', 'n']);
    assert(mdx@ =~= seq!['m', 'd', 'x']);
    assert(docx@ =~= seq!['d', 'o', 'c', 'x']);
    assert(pdf@ =~= seq!['p', 'd', 'f']);
    if same_chars(l.as_slice(), &md) || same_chars(l.as_slice(), &markdown) || same_chars(
        l.as_slice(),
        &mdx,
    ) {
        DocFormat::Markdown
    } else if same_chars(l.as_slice(), &docx) {
        DocFormat::Docx
    } else if same_chars(l.as_slice(), &pdf) {
        DocFormat::Pdf
    } else {
        DocFormat::PlainText
    }
}

} // verus!

pub use crate::docx::{parse_docx, parse_docx_xml, parse_heading_style};
pub use crate::markdown::parse_markdown;
