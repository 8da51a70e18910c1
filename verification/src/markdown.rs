//! Markdown documents: the parser of `pulldown-cmark` turns the source into a
//! stream of events, and a small state machine turns the events into blocks.

use pulldown_cmark::Event::{Code, End, HardBreak, SoftBreak, Start, Text};
use pulldown_cmark::Tag::{CodeBlock, Heading, Image, Table};
use pulldown_cmark::{Options, Parser, TagEnd};
use crate::markdown::MdEvent as M;
use vstd::prelude::*;
use crate::chars::{chars_of, string_of, trim, trim_chars};
use crate::doc::{Block, BlockModel, TableBlock, TableModel};
use crate::text::{sanitize_chars, sanitized};

verus! {

/// The markdown events that the block builder tells apart, with their
/// payloads as plain values.
#[derive(Debug, PartialEq, Eq)]
pub enum MdEvent {
    /// A heading opens, with its level (1 to 6).
    HeadingStart(u8),
    HeadingEnd,
    CodeBlockStart,
    CodeBlockEnd,
    /// An image opens, with its destination URL.
    ImageStart(String),
    ImageEnd,
    Text(String),
    /// Inline code.
    Code(String),
    /// A soft line break (a newline inside a paragraph).
    SoftBreak,
    /// A hard line break.
    HardBreak,
    /// The end of a paragraph.
    ParagraphEnd,
    /// The end of a list item.
    ItemEnd,
    /// A table opens.
    TableStart,
    /// The header row of a table ends.
    TableHeadEnd,
    /// A body row of a table ends.
    TableRowEnd,
    /// A table cell ends.
    TableCellEnd,
    /// A table ends.
    TableEnd,
    /// Any other event.
    Other,
}

/// The mathematical content of an [`MdEvent`].
pub enum MdEventModel {
    HeadingStart(u8),
    HeadingEnd,
    CodeBlockStart,
    CodeBlockEnd,
    ImageStart(Seq<char>),
    ImageEnd,
    Text(Seq<char>),
    Code(Seq<char>),
    SoftBreak,
    HardBreak,
    ParagraphEnd,
    ItemEnd,
    TableStart,
    TableHeadEnd,
    TableRowEnd,
    TableCellEnd,
    TableEnd,
    Other,
}

impl DeepView for MdEvent {
    type V = MdEventModel;

    open spec fn deep_view(&self) -> MdEventModel {
        match self {
            MdEvent::HeadingStart(l) => MdEventModel::HeadingStart(*l),
            MdEvent::HeadingEnd => MdEventModel::HeadingEnd,
            MdEvent::CodeBlockStart => MdEventModel::CodeBlockStart,
            MdEvent::CodeBlockEnd => MdEventModel::CodeBlockEnd,
            MdEvent::ImageStart(u) => MdEventModel::ImageStart(u@),
            MdEvent::ImageEnd => MdEventModel::ImageEnd,
            MdEvent::Text(t) => MdEventModel::Text(t@),
            MdEvent::Code(t) => MdEventModel::Code(t@),
            MdEvent::SoftBreak => MdEventModel::SoftBreak,
            MdEvent::HardBreak => MdEventModel::HardBreak,
            MdEvent::ParagraphEnd => MdEventModel::ParagraphEnd,
            MdEvent::ItemEnd => MdEventModel::ItemEnd,
            MdEvent::TableStart => MdEventModel::TableStart,
            MdEvent::TableHeadEnd => MdEventModel::TableHeadEnd,
            MdEvent::TableRowEnd => MdEventModel::TableRowEnd,
            MdEvent::TableCellEnd => MdEventModel::TableCellEnd,
            MdEvent::TableEnd => MdEventModel::TableEnd,
            MdEvent::Other => MdEventModel::Other,
        }
    }
}

/// The event stream that `pulldown-cmark` produces for a source, with
/// strikethrough and tables enabled, as [`MdEventModel`] values.
pub uninterp spec fn markdown_events_of(src: Seq<char>) -> Seq<MdEventModel>;

/// `pulldown_cmark::TagEnd`, carried into [`md_end`].
#[verifier::external_type_specification]
#[verifier::external_body]
pub struct ExTagEnd(pulldown_cmark::TagEnd);

/// The conversion of a closing tag of `pulldown-cmark` into an [`MdEvent`],
/// one variant to one variant; the closing tags that have no variant of their
/// own become [`MdEvent::Other`]. Used only by [`markdown_events`].
#[verifier::external_body]
fn md_end(e: TagEnd) -> MdEvent {
    match e {
        TagEnd::Heading(_) => M::HeadingEnd,
        TagEnd::CodeBlock => M::CodeBlockEnd,
        TagEnd::Image => M::ImageEnd,
        TagEnd::Paragraph => M::ParagraphEnd,
        TagEnd::Item => M::ItemEnd,
        TagEnd::TableHead => M::TableHeadEnd,
        TagEnd::TableRow => M::TableRowEnd,
        TagEnd::TableCell => M::TableCellEnd,
        TagEnd::Table => M::TableEnd,
        _ => M::Other,
    }
}

/// `pulldown_cmark::Parser::new_ext` with strikethrough and tables, each event
/// converted to an [`MdEvent`]: the stream is named [`markdown_events_of`] of
/// the source; the CommonMark grammar itself is not restated.
#[verifier::external_body]
pub(crate) fn markdown_events(src: &str) -> (evs: Vec<MdEvent>)
    ensures
        evs.deep_view() == markdown_events_of(src@),
{
    Parser::new_ext(src, Options::ENABLE_STRIKETHROUGH | Options::ENABLE_TABLES).map(|ev| match ev {
        Start(Heading { level, .. }) => M::HeadingStart(level as u8),
        Start(CodeBlock(_)) => M::CodeBlockStart,
        Start(Image { dest_url, .. }) => M::ImageStart(dest_url.into_string()),
        Start(Table(_)) => M::TableStart,
        End(e) => md_end(e),
        Text(t) => M::Text(t.into_string()),
        Code(t) => M::Code(t.into_string()),
        SoftBreak => M::SoftBreak,
        HardBreak => M::HardBreak,
        _ => M::Other,
    }).collect()
}

/// The state of the block builder.
pub struct MdState {
    pub blocks: Seq<BlockModel>,
    /// Paragraph or heading text read so far.
    pub buf: Seq<char>,
    /// The level of the heading being read, if any.
    pub heading: Option<u8>,
    pub in_code: bool,
    pub in_image: bool,
    pub code_buf: Seq<char>,
    /// Inside a table.
    pub in_table: bool,
    /// The text of the table cell being read.
    pub cell: Seq<char>,
    /// The cells of the table row being read.
    pub row: Seq<Seq<char>>,
    /// The header cells of the table being read.
    pub headers: Seq<Seq<char>>,
    /// The body rows of the table being read.
    pub rows: Seq<Seq<Seq<char>>>,
}

/// The builder before the first event.
pub open spec fn md_start() -> MdState {
    MdState {
        blocks: Seq::empty(),
        buf: Seq::empty(),
        heading: None,
        in_code: false,
        in_image: false,
        code_buf: Seq::empty(),
        in_table: false,
        cell: Seq::empty(),
        row: Seq::empty(),
        headers: Seq::empty(),
        rows: Seq::empty(),
    }
}

/// The blocks after appending the cleaned paragraph text of `buf`, if any.
pub open spec fn with_paragraph(blocks: Seq<BlockModel>, buf: Seq<char>) -> Seq<BlockModel> {
    let cleaned = sanitized(trim(buf));
    if cleaned.len() > 0 {
        blocks.push(BlockModel::Text(cleaned))
    } else {
        blocks
    }
}

/// Ends the paragraph being read: its cleaned text becomes a block and the
/// buffer empties.
pub open spec fn md_flush(st: MdState) -> MdState {
    MdState { blocks: with_paragraph(st.blocks, st.buf), buf: Seq::empty(), ..st }
}

/// The builder after one more event. The end of a paragraph and the end of
/// a list item both turn the text read so far into a block; a soft and a hard
/// line break both read as a space (as a newline inside code, as nothing
/// inside an image's alt text).
pub open spec fn md_step(st: MdState, ev: MdEventModel) -> MdState {
    match ev {
        MdEventModel::HeadingStart(level) => MdState { heading: Some(level), ..md_flush(st) },
        MdEventModel::HeadingEnd => match st.heading {
            Some(level) => {
                let cleaned = sanitized(trim(st.buf));
                MdState {
                    blocks: if cleaned.len() > 0 {
                        st.blocks.push(BlockModel::Heading(level, cleaned))
                    } else {
                        st.blocks
                    },
                    buf: Seq::empty(),
                    heading: None,
                    ..st
                }
            },
            None => st,
        },
        MdEventModel::CodeBlockStart => MdState {
            in_code: true,
            code_buf: Seq::empty(),
            ..md_flush(st)
        },
        MdEventModel::CodeBlockEnd => {
            let code = trim(st.code_buf);
            MdState {
                blocks: if code.len() > 0 {
                    st.blocks.push(BlockModel::Code(code))
                } else {
                    st.blocks
                },
                in_code: false,
                code_buf: Seq::empty(),
                ..st
            }
        },
        MdEventModel::ImageStart(url) => {
            let f = md_flush(st);
            MdState { blocks: f.blocks.push(BlockModel::Image(url)), in_image: true, ..f }
        },
        MdEventModel::ImageEnd => MdState { in_image: false, ..st },
        MdEventModel::Text(t) => if st.in_code {
            MdState { code_buf: st.code_buf + t, ..st }
        } else if st.in_image {
            st
        } else if st.in_table {
            MdState { cell: st.cell + t, ..st }
        } else {
            MdState { buf: st.buf + t, ..st }
        },
        MdEventModel::Code(t) => if st.in_image {
            st
        } else if st.in_table {
            MdState { cell: st.cell + t, ..st }
        } else {
            MdState { buf: st.buf + t, ..st }
        },
        MdEventModel::SoftBreak | MdEventModel::HardBreak => if st.in_code {
            MdState { code_buf: st.code_buf.push('\n'), ..st }
        } else if st.in_image {
            st
        } else if st.in_table {
            MdState { cell: st.cell.push(' '), ..st }
        } else {
            MdState { buf: st.buf.push(' '), ..st }
        },
        MdEventModel::ParagraphEnd | MdEventModel::ItemEnd => md_flush(st),
        MdEventModel::TableStart => MdState {
            in_table: true,
            cell: Seq::empty(),
            row: Seq::empty(),
            headers: Seq::empty(),
            rows: Seq::empty(),
            ..md_flush(st)
        },
        MdEventModel::TableCellEnd => MdState {
            row: st.row.push(sanitized(trim(st.cell))),
            cell: Seq::empty(),
            ..st
        },
        MdEventModel::TableHeadEnd => MdState { headers: st.row, row: Seq::empty(), ..st },
        MdEventModel::TableRowEnd => MdState {
            rows: st.rows.push(st.row),
            row: Seq::empty(),
            ..st
        },
        MdEventModel::TableEnd => MdState {
            blocks: st.blocks.push(BlockModel::Table(TableModel { headers: st.headers, rows: st.rows })),
            in_table: false,
            cell: Seq::empty(),
            row: Seq::empty(),
            headers: Seq::empty(),
            rows: Seq::empty(),
            ..st
        },
        MdEventModel::Other => st,
    }
}

/// The builder after all of `evs`.
pub open spec fn md_run(evs: Seq<MdEventModel>) -> MdState
    decreases evs.len(),
{
    if evs.len() == 0 {
        md_start()
    } else {
        md_step(md_run(evs.drop_last()), evs.last())
    }
}

/// The blocks built from an event stream: the state after the last event,
/// with the pending paragraph flushed.
pub open spec fn md_blocks(evs: Seq<MdEventModel>) -> Seq<BlockModel> {
    md_flush(md_run(evs)).blocks
}

/// Blocks keep source order around an image: the blocks of a stream that
/// goes on with an image's start are the blocks the stream gives up to that
/// point (the text read before the image included, as its own paragraph),
/// followed by the image.
pub proof fn law_image_follows_the_text_before_it(evs: Seq<MdEventModel>, url: Seq<char>)
    ensures
        md_blocks(evs.push(MdEventModel::ImageStart(url))) == md_blocks(evs).push(
            BlockModel::Image(url),
        ),
        md_run(evs.push(MdEventModel::ImageStart(url))).buf.len() == 0,
{
    let longer = evs.push(MdEventModel::ImageStart(url));
    assert(longer.drop_last() =~= evs);
    assert(trim(Seq::<char>::empty()) =~= Seq::<char>::empty());
    assert(sanitized(Seq::<char>::empty()) =~= Seq::<char>::empty());
}

/// The blocks of a markdown source.
pub open spec fn markdown_blocks(src: Seq<char>) -> Seq<BlockModel> {
    md_blocks(markdown_events_of(src))
}

/// Appends the cleaned text of `buf` as a paragraph, if it has any, and
/// empties `buf`.
pub fn flush_paragraph(blocks: &mut Vec<Block>, buf: &mut Vec<char>)
    ensures
        final(blocks).deep_view() == with_paragraph(old(blocks).deep_view(), old(buf)@),
        final(buf)@ == Seq::<char>::empty(),
{
    let trimmed = trim_chars(buf.as_slice());
    let cleaned = sanitize_chars(trimmed.as_slice());
    if cleaned.len() > 0 {
        let ghost before = blocks.deep_view();
        blocks.push(Block::Text(string_of(cleaned.as_slice())));
        assert(blocks.deep_view() =~= before.push(BlockModel::Text(cleaned@)));
    }
    buf.clear();
}

fn append_chars(buf: &mut Vec<char>, s: &String)
    ensures
        final(buf)@ == old(buf)@ + s@,
{
    let mut cs = chars_of(s.as_str());
    buf.append(&mut cs);
}

/// The blocks that an event stream describes (see [`md_blocks`]).
pub fn blocks_from_markdown_events(events: &[MdEvent]) -> (r: Vec<Block>)
    ensures
        r.deep_view() == md_blocks(events.deep_view()),
{
    let mut blocks: Vec<Block> = Vec::new();
    let mut buf: Vec<char> = Vec::new();
    let mut heading: Option<u8> = None;
    let mut in_code = false;
    let mut in_image = false;
    let mut code_buf: Vec<char> = Vec::new();
    let mut in_table = false;
    let mut cell: Vec<char> = Vec::new();
    let mut row: Vec<String> = Vec::new();
    let mut headers: Vec<String> = Vec::new();
    let mut rows: Vec<Vec<String>> = Vec::new();
    let mut i: usize = 0;
    assert(events.deep_view().take(0) =~= Seq::<MdEventModel>::empty());
    assert(blocks.deep_view() =~= Seq::<BlockModel>::empty());
    assert(row.deep_view() =~= Seq::<Seq<char>>::empty());
    assert(headers.deep_view() =~= Seq::<Seq<char>>::empty());
    assert(rows.deep_view() =~= Seq::<Seq<Seq<char>>>::empty());
    while i < events.len()
        invariant
            i <= events@.len(),
            md_run(events.deep_view().take(i as int)) == (MdState {
                blocks: blocks.deep_view(),
                buf: buf@,
                heading,
                in_code,
                in_image,
                code_buf: code_buf@,
                in_table,
                cell: cell@,
                row: row.deep_view(),
                headers: headers.deep_view(),
                rows: rows.deep_view(),
            }),
        decreases events@.len() - i,
    {
        proof {
            assert(events.deep_view().take(i + 1).drop_last() =~= events.deep_view().take(
                i as int,
            ));
        }
        match &events[i] {
            MdEvent::HeadingStart(level) => {
                flush_paragraph(&mut blocks, &mut buf);
                heading = Some(*level);
            },
            MdEvent::HeadingEnd => {
                if let Some(level) = heading {
                    let trimmed = trim_chars(buf.as_slice());
                    let cleaned = sanitize_chars(trimmed.as_slice());
                    if cleaned.len() > 0 {
                        let ghost before = blocks.deep_view();
                        blocks.push(Block::Heading(level, string_of(cleaned.as_slice())));
                        assert(blocks.deep_view() =~= before.push(
                            BlockModel::Heading(level, cleaned@),
                        ));
                    }
                    buf.clear();
                    heading = None;
                }
            },
            MdEvent::CodeBlockStart => {
                flush_paragraph(&mut blocks, &mut buf);
                in_code = true;
                code_buf.clear();
            },
            MdEvent::CodeBlockEnd => {
                in_code = false;
                let code = trim_chars(code_buf.as_slice());
                if code.len() > 0 {
                    let ghost before = blocks.deep_view();
                    blocks.push(Block::Code(string_of(code.as_slice())));
                    assert(blocks.deep_view() =~= before.push(BlockModel::Code(code@)));
                }
                code_buf.clear();
            },
            MdEvent::ImageStart(url) => {
                flush_paragraph(&mut blocks, &mut buf);
                let ghost before = blocks.deep_view();
                blocks.push(Block::Image(url.clone()));
                assert(blocks.deep_view() =~= before.push(BlockModel::Image(url@)));
                in_image = true;
            },
            MdEvent::ImageEnd => {
                in_image = false;
            },
            MdEvent::Text(t) => {
                if in_code {
                    append_chars(&mut code_buf, t);
                } else if in_image {
                } else if in_table {
                    append_chars(&mut cell, t);
                } else {
                    append_chars(&mut buf, t);
                }
            },
            MdEvent::Code(t) => {
                if in_image {
                } else if in_table {
                    append_chars(&mut cell, t);
                } else {
                    append_chars(&mut buf, t);
                }
            },
            MdEvent::SoftBreak | MdEvent::HardBreak => {
                if in_code {
                    code_buf.push('\n');
                } else if in_image {
                } else if in_table {
                    cell.push(' ');
                } else {
                    buf.push(' ');
                }
            },
            MdEvent::ParagraphEnd | MdEvent::ItemEnd => {
                flush_paragraph(&mut blocks, &mut buf);
            },
            MdEvent::TableStart => {
                flush_paragraph(&mut blocks, &mut buf);
                in_table = true;
                cell = Vec::new();
                row = Vec::new();
                headers = Vec::new();
                rows = Vec::new();
                assert(row.deep_view() =~= Seq::<Seq<char>>::empty());
                assert(headers.deep_view() =~= Seq::<Seq<char>>::empty());
                assert(rows.deep_view() =~= Seq::<Seq<Seq<char>>>::empty());
            },
            MdEvent::TableCellEnd => {
                let trimmed = trim_chars(cell.as_slice());
                let cleaned = sanitize_chars(trimmed.as_slice());
                let ghost before = row.deep_view();
                row.push(string_of(cleaned.as_slice()));
                assert(row.deep_view() =~= before.push(cleaned@));
                cell = Vec::new();
            },
            MdEvent::TableHeadEnd => {
                headers = row;
                row = Vec::new();
                assert(row.deep_view() =~= Seq::<Seq<char>>::empty());
            },
            MdEvent::TableRowEnd => {
                let ghost before = rows.deep_view();
                let ghost r = row.deep_view();
                rows.push(row);
                assert(rows.deep_view() =~= before.push(r));
                row = Vec::new();
                assert(row.deep_view() =~= Seq::<Seq<char>>::empty());
            },
            MdEvent::TableEnd => {
                let ghost before = blocks.deep_view();
                let ghost hv = headers.deep_view();
                let ghost rv = rows.deep_view();
                blocks.push(Block::Table(TableBlock { headers, rows }));
                assert(blocks.deep_view() =~= before.push(
                    BlockModel::Table(TableModel { headers: hv, rows: rv }),
                ));
                in_table = false;
                cell = Vec::new();
                row = Vec::new();
                headers = Vec::new();
                rows = Vec::new();
                assert(row.deep_view() =~= Seq::<Seq<char>>::empty());
                assert(headers.deep_view() =~= Seq::<Seq<char>>::empty());
                assert(rows.deep_view() =~= Seq::<Seq<Seq<char>>>::empty());
            },
            MdEvent::Other => {},
        }
        i += 1;
    }
    proof {
        assert(events.deep_view().take(events@.len() as int) =~= events.deep_view());
    }
    flush_paragraph(&mut blocks, &mut buf);
    blocks
}

/// Parses a markdown source into blocks: headings (with their level),
/// cleaned paragraph and list-item text, trimmed code blocks and image URLs;
/// the alt text of an image is not read.
pub fn parse_markdown(src: &str) -> (r: Vec<Block>)
    ensures
        r.deep_view() == markdown_blocks(src@),
{
    let events = markdown_events(src);
    blocks_from_markdown_events(events.as_slice())
}

} // verus!
