//! The reader as the browser front end drives it: a document's chunks and
//! chapters, a cursor, and play/pause, behind small queries.

use vstd::prelude::*;
use crate::doc::{
    blocks_from_plain_text, copy_table, plain_text_blocks, sections_from_blocks, sections_of, Block,
    BlockModel, SectionModel, SectionStart, TableBlock,
};
use crate::docx::{docx_document_part, docx_xml_blocks, parse_docx, DocxError};
use crate::markdown::{markdown_blocks, parse_markdown};
use crate::preset::{preset_named, preset_wpm, Preset};
use crate::reader::{
    chapter_targets, chunks_of, clamped_index, target_chunk, ChapterTarget, ChapterTargetModel,
    ChunkKind, Reader,
};

verus! {

/// A reader with its chapters, as the browser uses it.
pub struct WebReader {
    pub inner: Reader,
    pub chapters: Vec<ChapterTarget>,
}

/// The chapters of `blocks` for the sections `secs`.
pub open spec fn chapters_for(bs: Seq<BlockModel>, secs: Seq<SectionModel>) -> Seq<
    ChapterTargetModel,
> {
    Seq::new(
        secs.len(),
        |k: int|
            ChapterTargetModel {
                title: secs[k].title,
                level: secs[k].level,
                chunk_index: target_chunk(bs, secs[k].block_index),
            },
    )
}

/// Whether `r` reads the blocks `bs` with the sections `secs`, from the
/// chunk `last_index` (kept within the chunks) or the first, paused.
pub open spec fn reads(
    r: WebReader,
    bs: Seq<BlockModel>,
    secs: Seq<SectionModel>,
    last_index: Option<usize>,
) -> bool {
    &&& r.inner.chunks.deep_view() == chunks_of(bs)
    &&& r.chapters.deep_view() == chapters_for(bs, secs)
    &&& r.inner.index == match last_index {
        Some(i) => clamped_index(i, chunks_of(bs).len()),
        None => 0,
    }
    &&& !r.inner.playing
}

/// The name of a chunk kind.
pub open spec fn kind_name(k: ChunkKind) -> Seq<char> {
    match k {
        ChunkKind::Word => seq!['w', 'o', 'r', 'd'],
        ChunkKind::Heading => seq!['h', 'e', 'a', 'd', 'i', 'n', 'g'],
        ChunkKind::Code => seq!['c', 'o', 'd', 'e'],
        ChunkKind::Paragraph => seq!['p', 'a', 'r', 'a', 'g', 'r', 'a', 'p', 'h'],
        ChunkKind::Image => seq!['i', 'm', 'a', 'g', 'e'],
        ChunkKind::Table => seq!['t', 'a', 'b', 'l', 'e'],
    }
}

impl WebReader {
    /// A reader over `blocks` with the given sections.
    pub fn from_blocks_with_sections(
        blocks: Vec<Block>,
        sections: Vec<SectionStart>,
        last_index: Option<usize>,
    ) -> (r: WebReader)
        ensures
            reads(r, blocks.deep_view(), sections.deep_view(), last_index),
    {
        let chapters = chapter_targets(blocks.as_slice(), sections.as_slice());
        let ghost bs = blocks.deep_view();
        let mut inner = Reader::from_blocks(blocks);
        if let Some(idx) = last_index {
            inner.jump_to(idx);
        }
        assert(chapters.deep_view() =~= chapters_for(bs, sections.deep_view()));
        WebReader { inner, chapters }
    }

    /// A reader over `blocks`, its sections being its headings.
    pub fn from_blocks(blocks: Vec<Block>, last_index: Option<usize>) -> (r: WebReader)
        ensures
            reads(r, blocks.deep_view(), sections_of(blocks.deep_view()), last_index),
    {
        let sections = sections_from_blocks(blocks.as_slice());
        Self::from_blocks_with_sections(blocks, sections, last_index)
    }

    /// A reader over a markdown document.
    pub fn new(markdown: &str, last_index: Option<usize>) -> (r: WebReader)
        ensures
            reads(
                r,
                markdown_blocks(markdown@),
                sections_of(markdown_blocks(markdown@)),
                last_index,
            ),
    {
        let blocks = parse_markdown(markdown);
        Self::from_blocks(blocks, last_index)
    }

    /// A reader over plain text (no markdown syntax), without chapters.
    pub fn from_text(text: &str, last_index: Option<usize>) -> (r: WebReader)
        ensures
            reads(r, plain_text_blocks(text@), Seq::empty(), last_index),
    {
        let blocks = blocks_from_plain_text(text);
        let none: Vec<SectionStart> = Vec::new();
        assert(none.deep_view() =~= Seq::<SectionModel>::empty());
        Self::from_blocks_with_sections(blocks, none, last_index)
    }

    /// A reader over plain text with section starts computed elsewhere.
    pub fn from_text_with_sections(
        text: &str,
        sections: Vec<SectionStart>,
        last_index: Option<usize>,
    ) -> (r: WebReader)
        ensures
            reads(r, plain_text_blocks(text@), sections.deep_view(), last_index),
    {
        let blocks = blocks_from_plain_text(text);
        Self::from_blocks_with_sections(blocks, sections, last_index)
    }

    /// A reader over the bytes of a `.docx` file.
    pub fn from_docx(bytes: &[u8], last_index: Option<usize>) -> (r: Result<WebReader, DocxError>)
        ensures
            match docx_document_part(bytes@) {
                Ok(xml) => r matches Ok(w) && reads(
                    w,
                    docx_xml_blocks(xml),
                    sections_of(docx_xml_blocks(xml)),
                    last_index,
                ),
                Err(e) => r matches Err(x) && x == e,
            },
    {
        match parse_docx(bytes) {
            Ok(blocks) => Ok(Self::from_blocks(blocks, last_index)),
            Err(e) => Err(e),
        }
    }

    /// One chunk forward (not past the last).
    pub fn advance(&mut self)
        ensures
            final(self).chapters == old(self).chapters,
            final(self).inner.chunks == old(self).inner.chunks,
            final(self).inner.playing == old(self).inner.playing,
            final(self).inner.index == crate::reader::advanced_index(
                old(self).inner.index,
                old(self).inner.chunks@.len(),
                1,
            ),
    {
        self.inner.advance(1);
    }

    /// One chunk back (not before the first).
    pub fn retreat(&mut self)
        ensures
            final(self).chapters == old(self).chapters,
            final(self).inner.chunks == old(self).inner.chunks,
            final(self).inner.playing == old(self).inner.playing,
            final(self).inner.index == crate::reader::retreated_index(old(self).inner.index, 1),
    {
        self.inner.retreat(1);
    }

    /// Moves the cursor to chunk `i` if there is such a chunk; otherwise
    /// nothing changes.
    pub fn set_index(&mut self, i: usize)
        ensures
            final(self).chapters == old(self).chapters,
            final(self).inner.chunks == old(self).inner.chunks,
            final(self).inner.playing == old(self).inner.playing,
            final(self).inner.index == if i < old(self).inner.chunks@.len() {
                i
            } else {
                old(self).inner.index
            },
    {
        if i < self.inner.chunks.len() {
            self.inner.index = i;
        }
    }

    /// The cursor's position.
    pub fn index(&self) -> (r: usize)
        ensures
            r == self.inner.index,
    {
        self.inner.index
    }

    /// How many chunks there are.
    pub fn total(&self) -> (r: usize)
        ensures
            r == self.inner.chunks@.len(),
    {
        self.inner.chunks.len()
    }

    /// The chapters, for the front end to list.
    pub fn chapters(&self) -> (r: &Vec<ChapterTarget>)
        ensures
            r == &self.chapters,
    {
        &self.chapters
    }

    /// Whether there is nothing after the cursor.
    pub fn at_end(&self) -> (r: bool)
        ensures
            r == self.inner.spec_at_end(),
    {
        self.inner.at_end()
    }

    /// The text of the chunk under the cursor (empty when there is none).
    pub fn text(&self) -> (r: String)
        ensures
            r@ == if self.inner.index < self.inner.chunks@.len() {
                self.inner.chunks@[self.inner.index as int].text@
            } else {
                Seq::empty()
            },
    {
        match self.inner.current() {
            Some(c) => c.text.clone(),
            None => String::new(),
        }
    }

    /// The highlighted grapheme of the chunk under the cursor (0 when there
    /// is none).
    pub fn orp(&self) -> (r: usize)
        ensures
            r == if self.inner.index < self.inner.chunks@.len() {
                self.inner.chunks@[self.inner.index as int].orp
            } else {
                0
            },
    {
        match self.inner.current() {
            Some(c) => c.orp,
            None => 0,
        }
    }

    /// The kind of the chunk under the cursor, by name (`word` when there is
    /// none).
    pub fn kind(&self) -> (r: String)
        ensures
            r@ == if self.inner.index < self.inner.chunks@.len() {
                kind_name(self.inner.chunks@[self.inner.index as int].kind)
            } else {
                kind_name(ChunkKind::Word)
            },
    {
        let k = match self.inner.current() {
            Some(c) => c.kind,
            None => ChunkKind::Word,
        };
        let name: &str = match k {
            ChunkKind::Word => {
                proof {
                    reveal_strlit("word");
                }
                "word"
            },
            ChunkKind::Heading => {
                proof {
                    reveal_strlit("heading");
                }
                "heading"
            },
            ChunkKind::Code => {
                proof {
                    reveal_strlit("code");
                }
                "code"
            },
            ChunkKind::Paragraph => {
                proof {
                    reveal_strlit("paragraph");
                }
                "paragraph"
            },
            ChunkKind::Image => {
                proof {
                    reveal_strlit("image");
                }
                "image"
            },
            ChunkKind::Table => {
                proof {
                    reveal_strlit("table");
                }
                "table"
            },
        };
        name.to_owned()
    }

    /// The full URL of the image under the cursor, if it is an image.
    pub fn image_url(&self) -> (r: Option<String>)
        ensures
            match r {
                Some(u) => self.inner.index < self.inner.chunks@.len()
                    && self.inner.chunks@[self.inner.index as int].image_url == Some(u),
                None => !(self.inner.index < self.inner.chunks@.len()
                    && self.inner.chunks@[self.inner.index as int].image_url is Some),
            },
    {
        match self.inner.current() {
            Some(c) => match &c.image_url {
                Some(u) => Some(u.clone()),
                None => None,
            },
            None => None,
        }
    }

    /// The table under the cursor, if it is a table.
    pub fn table_data(&self) -> (r: Option<TableBlock>)
        ensures
            match r {
                Some(t) => self.inner.index < self.inner.chunks@.len() && (
                self.inner.chunks@[self.inner.index as int].table matches Some(x)
                    && x.deep_view() == t.deep_view()),
                None => !(self.inner.index < self.inner.chunks@.len()
                    && self.inner.chunks@[self.inner.index as int].table is Some),
            },
    {
        match self.inner.current() {
            Some(c) => match &c.table {
                Some(t) => Some(copy_table(t)),
                None => None,
            },
            None => None,
        }
    }

    /// The default speed of the preset named `preset` (of the standard
    /// preset for any other name).
    pub fn preset_default_wpm(preset: &str) -> (r: u32)
        ensures
            r == match preset_named(preset@) {
                Some(p) => preset_wpm(p),
                None => preset_wpm(Preset::Standard),
            },
    {
        let p = match Preset::from_label(preset) {
            Ok(p) => p,
            Err(_) => Preset::Standard,
        };
        p.default_wpm()
    }

    /// Whether the reader is playing.
    pub fn is_playing(&self) -> (r: bool)
        ensures
            r == self.inner.playing,
    {
        self.inner.playing
    }

    /// Starts or stops playing.
    pub fn set_playing(&mut self, playing: bool)
        ensures
            final(self).inner.playing == playing,
            final(self).inner.index == old(self).inner.index,
            final(self).inner.chunks == old(self).inner.chunks,
            final(self).chapters == old(self).chapters,
    {
        self.inner.playing = playing;
    }

    /// Play/pause; playing again from a paused end starts over from the first
    /// chunk. Nothing happens without chunks.
    pub fn toggle_play(&mut self)
        ensures
            final(self).inner.chunks == old(self).inner.chunks,
            final(self).chapters == old(self).chapters,
            old(self).inner.chunks@.len() == 0 ==> final(self).inner.playing == old(
                self,
            ).inner.playing && final(self).inner.index == old(self).inner.index,
            old(self).inner.chunks@.len() > 0 ==> final(self).inner.playing == !old(
                self,
            ).inner.playing && final(self).inner.index == if old(self).inner.spec_at_end()
                && !old(self).inner.playing {
                0
            } else {
                old(self).inner.index
            },
    {
        if self.inner.chunks.len() == 0 {
            return;
        }
        if self.inner.at_end() && !self.inner.playing {
            self.inner.index = 0;
        }
        self.inner.playing = !self.inner.playing;
    }
}

} // verus!
