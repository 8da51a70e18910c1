//! The decisions of the interactive reader: what each action does to the
//! reading state, and what outside work (saving, listing files, opening a
//! file, asking the terminal) the caller has to do afterwards.

use vstd::prelude::*;
use crate::doc::{Block, BlockModel, Document};
use crate::input::{Action, Mode};
use crate::picker::{
    matching_chapters, matching_entries, all_positions, row_above, row_below, ChapterPicker,
    FilePicker, PickerEntry, PickerEntryModel,
};
use crate::chars::{chars_of, lowercase, starts_with_chars, string_of};
use crate::preset::{next_preset, preset_wpm, Preset};
use crate::reader::{
    advanced_index, chapter_targets, clamped_index, retreated_index, ChapterTarget,
    ChapterTargetModel, ChunkModel, Reader,
};
use crate::theme::{next_choice, ThemeChoice};

verus! {

/// The slowest and fastest speeds the arrow keys reach, and their step.
pub open spec fn min_wpm() -> u32 {
    50
}

pub open spec fn max_wpm() -> u32 {
    1500
}

/// The work left to the caller after an action.
#[derive(Debug, PartialEq, Eq)]
pub enum Effect {
    Nothing,
    /// Save the reading position, then stop.
    Quit,
    /// The current chunk's timer starts over.
    RestartTimer,
    /// List the picker's directory and hand the entries to `show_files`.
    ListFiles,
    /// Reopen the n-th most recent file.
    OpenRecent(usize),
    /// The preset changed, and the speed with it.
    PresetChanged(Preset, u32),
    /// The chapter picker was asked for, but the document has no chapters.
    NoChapters,
    /// The theme choice changed; the theme in effect must be resolved again.
    ThemeCycled(ThemeChoice),
    /// Open (or enter) the picker's entry at this position.
    OpenEntry(usize),
    /// The cursor jumped to the chapter with this title; its timer starts over.
    ChapterJumped(String),
}

/// The mathematical content of an [`Effect`].
pub enum EffectModel {
    Nothing,
    Quit,
    RestartTimer,
    ListFiles,
    OpenRecent(usize),
    PresetChanged(Preset, u32),
    NoChapters,
    ThemeCycled(ThemeChoice),
    OpenEntry(usize),
    ChapterJumped(Seq<char>),
}

impl DeepView for Effect {
    type V = EffectModel;

    open spec fn deep_view(&self) -> EffectModel {
        match self {
            Effect::Nothing => EffectModel::Nothing,
            Effect::Quit => EffectModel::Quit,
            Effect::RestartTimer => EffectModel::RestartTimer,
            Effect::ListFiles => EffectModel::ListFiles,
            Effect::OpenRecent(i) => EffectModel::OpenRecent(*i),
            Effect::PresetChanged(p, w) => EffectModel::PresetChanged(*p, *w),
            Effect::NoChapters => EffectModel::NoChapters,
            Effect::ThemeCycled(c) => EffectModel::ThemeCycled(*c),
            Effect::OpenEntry(i) => EffectModel::OpenEntry(*i),
            Effect::ChapterJumped(t) => EffectModel::ChapterJumped(t@),
        }
    }
}

/// The state of an interactive reading session.
pub struct Session {
    pub should_quit: bool,
    pub mode: Mode,
    pub reader: Reader,
    pub wpm: u32,
    pub preset: Preset,
    pub theme_choice: ThemeChoice,
    pub chapters: Vec<ChapterTarget>,
    pub chapter_picker: ChapterPicker,
    pub picker: FilePicker,
}

/// The mathematical content of a [`Session`].
#[verifier::ext_equal]
pub struct SessionView {
    pub should_quit: bool,
    pub mode: Mode,
    pub chunks: Seq<ChunkModel>,
    pub index: usize,
    pub playing: bool,
    pub wpm: u32,
    pub preset: Preset,
    pub theme_choice: ThemeChoice,
    pub chapters: Seq<ChapterTargetModel>,
    pub chapter_query: Seq<char>,
    pub chapter_rows: Seq<usize>,
    pub chapter_row: usize,
    pub file_query: Seq<char>,
    pub entries: Seq<PickerEntryModel>,
    pub file_rows: Seq<usize>,
    pub file_row: usize,
}

impl View for Session {
    type V = SessionView;

    open spec fn view(&self) -> SessionView {
        SessionView {
            should_quit: self.should_quit,
            mode: self.mode,
            chunks: self.reader.chunks.deep_view(),
            index: self.reader.index,
            playing: self.reader.playing,
            wpm: self.wpm,
            preset: self.preset,
            theme_choice: self.theme_choice,
            chapters: self.chapters.deep_view(),
            chapter_query: self.chapter_picker.query@,
            chapter_rows: self.chapter_picker.filtered@,
            chapter_row: self.chapter_picker.selected,
            file_query: self.picker.query@,
            entries: self.picker.entries.deep_view(),
            file_rows: self.picker.filtered@,
            file_row: self.picker.selected,
        }
    }
}

/// Nothing after the cursor.
pub open spec fn view_at_end(v: SessionView) -> bool {
    v.chunks.len() == 0 || v.index + 1 >= v.chunks.len()
}

/// The query after a backspace.
pub open spec fn without_last(q: Seq<char>) -> Seq<char> {
    if q.len() > 0 {
        q.drop_last()
    } else {
        q
    }
}

/// The chapter position that the chapter picker highlights, if any.
pub open spec fn picked_chapter(v: SessionView) -> Option<int> {
    if v.chapter_row < v.chapter_rows.len() && v.chapter_rows[v.chapter_row as int]
        < v.chapters.len() {
        Some(v.chapter_rows[v.chapter_row as int] as int)
    } else {
        None
    }
}

/// The entry position that the file picker highlights, if any.
pub open spec fn picked_entry(v: SessionView) -> Option<usize> {
    if v.file_row < v.file_rows.len() && v.file_rows[v.file_row as int] < v.entries.len() {
        Some(v.file_rows[v.file_row as int])
    } else {
        None
    }
}

/// What an action does to a session, and the work it leaves to the caller.
pub open spec fn session_step(v: SessionView, a: Action) -> (SessionView, EffectModel) {
    match a {
        Action::Quit => (SessionView { should_quit: true, ..v }, EffectModel::Quit),
        Action::TogglePlay => if v.chunks.len() == 0 {
            (v, EffectModel::Nothing)
        } else {
            (
                SessionView {
                    index: if view_at_end(v) && !v.playing {
                        0
                    } else {
                        v.index
                    },
                    playing: !v.playing,
                    ..v
                },
                EffectModel::RestartTimer,
            )
        },
        Action::NextWord => (
            SessionView { index: advanced_index(v.index, v.chunks.len(), 1), ..v },
            EffectModel::RestartTimer,
        ),
        Action::PrevWord => (
            SessionView { index: retreated_index(v.index, 1), ..v },
            EffectModel::RestartTimer,
        ),
        Action::WpmUp => (
            SessionView {
                wpm: if v.wpm + 25 <= max_wpm() {
                    (v.wpm + 25) as u32
                } else {
                    max_wpm()
                },
                ..v
            },
            EffectModel::Nothing,
        ),
        Action::WpmDown => (
            SessionView {
                wpm: if v.wpm >= min_wpm() + 25 {
                    (v.wpm - 25) as u32
                } else {
                    min_wpm()
                },
                ..v
            },
            EffectModel::Nothing,
        ),
        Action::OpenPicker => (SessionView { playing: false, ..v }, EffectModel::ListFiles),
        Action::ClosePicker => (SessionView { mode: Mode::Reading, ..v }, EffectModel::Nothing),
        Action::OpenRecent(i) => (v, EffectModel::OpenRecent(i)),
        Action::CyclePreset => (
            SessionView {
                preset: next_preset(v.preset),
                wpm: preset_wpm(next_preset(v.preset)),
                ..v
            },
            EffectModel::PresetChanged(next_preset(v.preset), preset_wpm(next_preset(v.preset))),
        ),
        Action::OpenChapterPicker => if v.chapters.len() == 0 {
            (SessionView { playing: false, ..v }, EffectModel::NoChapters)
        } else {
            (
                SessionView {
                    playing: false,
                    chapter_query: Seq::empty(),
                    chapter_rows: all_positions(v.chapters.len()),
                    chapter_row: 0,
                    mode: Mode::ChapterPicker,
                    ..v
                },
                EffectModel::Nothing,
            )
        },
        Action::CloseChapterPicker => (
            SessionView { mode: Mode::Reading, ..v },
            EffectModel::Nothing,
        ),
        Action::ToggleHelp => (
            SessionView {
                mode: if v.mode == Mode::Help {
                    Mode::Reading
                } else {
                    Mode::Help
                },
                ..v
            },
            EffectModel::Nothing,
        ),
        Action::CycleTheme => (
            SessionView { theme_choice: next_choice(v.theme_choice), ..v },
            EffectModel::ThemeCycled(next_choice(v.theme_choice)),
        ),
        Action::PickerInput(c) => (
            SessionView {
                file_query: v.file_query.push(c),
                file_rows: matching_entries(v.entries, lowercase(v.file_query.push(c))),
                file_row: 0,
                ..v
            },
            EffectModel::Nothing,
        ),
        Action::PickerBackspace => (
            SessionView {
                file_query: without_last(v.file_query),
                file_rows: matching_entries(v.entries, lowercase(without_last(v.file_query))),
                file_row: 0,
                ..v
            },
            EffectModel::Nothing,
        ),
        Action::PickerUp => (
            SessionView { file_row: row_above(v.file_row), ..v },
            EffectModel::Nothing,
        ),
        Action::PickerDown => (
            SessionView { file_row: row_below(v.file_row, v.file_rows.len()), ..v },
            EffectModel::Nothing,
        ),
        Action::PickerConfirm => match picked_entry(v) {
            Some(i) => (v, EffectModel::OpenEntry(i)),
            None => (v, EffectModel::Nothing),
        },
        Action::ChapterInput(c) => (
            SessionView {
                chapter_query: v.chapter_query.push(c),
                chapter_rows: matching_chapters(v.chapters, lowercase(v.chapter_query.push(c))),
                chapter_row: 0,
                ..v
            },
            EffectModel::Nothing,
        ),
        Action::ChapterBackspace => (
            SessionView {
                chapter_query: without_last(v.chapter_query),
                chapter_rows: matching_chapters(
                    v.chapters,
                    lowercase(without_last(v.chapter_query)),
                ),
                chapter_row: 0,
                ..v
            },
            EffectModel::Nothing,
        ),
        Action::ChapterUp => (
            SessionView { chapter_row: row_above(v.chapter_row), ..v },
            EffectModel::Nothing,
        ),
        Action::ChapterDown => (
            SessionView { chapter_row: row_below(v.chapter_row, v.chapter_rows.len()), ..v },
            EffectModel::Nothing,
        ),
        Action::ChapterConfirm => match picked_chapter(v) {
            Some(k) => (
                SessionView {
                    index: clamped_index(v.chapters[k].chunk_index as usize, v.chunks.len()),
                    mode: Mode::Reading,
                    ..v
                },
                EffectModel::ChapterJumped(v.chapters[k].title),
            ),
            None => (v, EffectModel::Nothing),
        },
    }
}

impl Session {
    /// A session with no document, at 300 words per minute with the standard
    /// preset.
    pub fn new(theme_choice: ThemeChoice) -> (r: Session)
        ensures
            !r@.should_quit,
            r@.mode == Mode::Reading,
            r@.chunks.len() == 0,
            r@.index == 0,
            !r@.playing,
            r@.wpm == 300,
            r@.preset == Preset::Standard,
            r@.theme_choice == theme_choice,
            r@.chapters.len() == 0,
            r@.chapter_query.len() == 0,
            r@.chapter_rows.len() == 0,
            r@.chapter_row == 0,
            r@.file_query.len() == 0,
            r@.entries.len() == 0,
            r@.file_rows.len() == 0,
            r@.file_row == 0,
    {
        let r = Session {
            should_quit: false,
            mode: Mode::Reading,
            reader: Reader::empty(),
            wpm: 300,
            preset: Preset::Standard,
            theme_choice,
            chapters: Vec::new(),
            chapter_picker: ChapterPicker::new(),
            picker: FilePicker::new(),
        };
        assert(r.reader.chunks.deep_view() =~= Seq::<ChunkModel>::empty());
        assert(r.chapters.deep_view() =~= Seq::<ChapterTargetModel>::empty());
        assert(r.picker.entries.deep_view() =~= Seq::<PickerEntryModel>::empty());
        r
    }

    /// Carries out an action (see [`session_step`]).
    pub fn handle(&mut self, action: Action) -> (r: Effect)
        ensures
            (final(self)@, r.deep_view()) == session_step(old(self)@, action),
    {
        match action {
            Action::Quit => {
                self.should_quit = true;
                Effect::Quit
            },
            Action::TogglePlay => {
                if self.reader.chunks.len() == 0 {
                    return Effect::Nothing;
                }
                if self.reader.at_end() && !self.reader.playing {
                    self.reader.index = 0;
                }
                self.reader.playing = !self.reader.playing;
                Effect::RestartTimer
            },
            Action::NextWord => {
                self.reader.advance(1);
                Effect::RestartTimer
            },
            Action::PrevWord => {
                self.reader.retreat(1);
                Effect::RestartTimer
            },
            Action::WpmUp => {
                self.wpm = if self.wpm <= 1475 {
                    self.wpm + 25
                } else {
                    1500
                };
                Effect::Nothing
            },
            Action::WpmDown => {
                self.wpm = if self.wpm >= 75 {
                    self.wpm - 25
                } else {
                    50
                };
                Effect::Nothing
            },
            Action::OpenPicker => {
                self.reader.playing = false;
                Effect::ListFiles
            },
            Action::ClosePicker => {
                self.mode = Mode::Reading;
                Effect::Nothing
            },
            Action::OpenRecent(i) => Effect::OpenRecent(i),
            Action::CyclePreset => {
                self.preset = self.preset.cycle();
                self.wpm = self.preset.default_wpm();
                Effect::PresetChanged(self.preset, self.wpm)
            },
            Action::OpenChapterPicker => {
                self.reader.playing = false;
                if self.chapters.len() == 0 {
                    Effect::NoChapters
                } else {
                    self.chapter_picker.reset(self.chapters.len());
                    self.mode = Mode::ChapterPicker;
                    Effect::Nothing
                }
            },
            Action::CloseChapterPicker => {
                self.mode = Mode::Reading;
                Effect::Nothing
            },
            Action::ToggleHelp => {
                self.mode = match self.mode {
                    Mode::Help => Mode::Reading,
                    _ => Mode::Help,
                };
                Effect::Nothing
            },
            Action::CycleTheme => {
                self.theme_choice = self.theme_choice.cycle();
                Effect::ThemeCycled(self.theme_choice)
            },
            Action::PickerInput(c) => {
                self.picker.type_char(c);
                Effect::Nothing
            },
            Action::PickerBackspace => {
                self.picker.backspace();
                Effect::Nothing
            },
            Action::PickerUp => {
                self.picker.move_up();
                Effect::Nothing
            },
            Action::PickerDown => {
                self.picker.move_down();
                Effect::Nothing
            },
            Action::PickerConfirm => match self.picker.selected_path() {
                Some(i) => Effect::OpenEntry(i),
                None => Effect::Nothing,
            },
            Action::ChapterInput(c) => {
                self.chapter_picker.type_char(c, self.chapters.as_slice());
                Effect::Nothing
            },
            Action::ChapterBackspace => {
                self.chapter_picker.backspace(self.chapters.as_slice());
                Effect::Nothing
            },
            Action::ChapterUp => {
                self.chapter_picker.move_up();
                Effect::Nothing
            },
            Action::ChapterDown => {
                self.chapter_picker.move_down();
                Effect::Nothing
            },
            Action::ChapterConfirm => {
                let picked = self.chapter_picker.selected_target(self.chapters.as_slice());
                match picked {
                    Some(target) => {
                        let title = target.title.clone();
                        let at = target.chunk_index;
                        self.reader.jump_to(at);
                        self.mode = Mode::Reading;
                        Effect::ChapterJumped(title)
                    },
                    None => Effect::Nothing,
                }
            },
        }
    }
}

} // verus!

verus! {

/// What the timer does when it fires: while reading and playing, the cursor
/// moves on when the current chunk's time is up, and playback stops at the
/// last chunk. The flag says whether the timer starts over.
pub open spec fn tick_step(v: SessionView, due: bool) -> (SessionView, bool) {
    if v.mode != Mode::Reading || !v.playing || !due {
        (v, false)
    } else if view_at_end(v) {
        (SessionView { playing: false, ..v }, false)
    } else {
        (SessionView { index: advanced_index(v.index, v.chunks.len(), 1), ..v }, true)
    }
}

/// How many chapters at the front of the list start at or before chunk
/// `idx` (the scan stops at the first one that starts later).
pub open spec fn chapters_started(chs: Seq<ChapterTargetModel>, idx: usize) -> nat
    decreases chs.len(),
{
    if chs.len() == 0 || chs[0].chunk_index > idx {
        0
    } else {
        1 + chapters_started(chs.drop_first(), idx)
    }
}

/// The chapter the cursor is in: the last of the chapters counted by
/// [`chapters_started`].
pub open spec fn current_chapter_of(v: SessionView) -> Option<usize> {
    let k = chapters_started(v.chapters, v.index);
    if k == 0 {
        None
    } else {
        Some((k - 1) as usize)
    }
}

/// The position of the cursor within its chapter and the chapter's length in
/// chunks, both counted from 1 (at least 1), the position capped at the
/// length.
pub open spec fn chapter_progress_of(v: SessionView) -> Option<(usize, usize)> {
    let k = chapters_started(v.chapters, v.index);
    if k == 0 {
        None
    } else {
        let start = v.chapters[k - 1].chunk_index;
        let end = if k < v.chapters.len() {
            v.chapters[k as int].chunk_index
        } else {
            v.chunks.len() as int
        };
        let total = if end - start >= 1 {
            end - start
        } else {
            1
        };
        let pos = v.index - start + 1;
        Some(((if pos <= total { pos } else { total }) as usize, total as usize))
    }
}

proof fn lemma_chapters_started_exactly(chs: Seq<ChapterTargetModel>, idx: usize, n: int)
    requires
        0 <= n <= chs.len(),
        forall|j: int| 0 <= j < n ==> #[trigger] chs[j].chunk_index <= idx,
        n < chs.len() ==> chs[n].chunk_index > idx,
    ensures
        chapters_started(chs, idx) == n,
    decreases n,
{
    if n > 0 {
        let rest = chs.drop_first();
        assert forall|j: int| 0 <= j < n - 1 implies #[trigger] rest[j].chunk_index <= idx by {
            assert(rest[j] == chs[j + 1]);
        }
        if n < chs.len() {
            assert(rest[n - 1] == chs[n]);
        }
        lemma_chapters_started_exactly(rest, idx, n - 1);
    }
}

/// Progress within a chapter counts the chunks from the chapter's start to
/// the start of the next chapter (to the end of the document only for the
/// last chapter), at least one: when chapters `0..=k` start at or before the
/// cursor and chapter `k + 1` (if any) starts after it, the cursor is in
/// chapter `k`, at position `index - start + 1` (capped at the length).
pub proof fn law_chapter_progress_spans_to_next_chapter(v: SessionView, k: int)
    requires
        0 <= k < v.chapters.len(),
        forall|j: int| 0 <= j <= k ==> #[trigger] v.chapters[j].chunk_index <= v.index,
        k + 1 < v.chapters.len() ==> v.chapters[k + 1].chunk_index > v.index,
        0 <= v.chapters[k].chunk_index,
        k + 1 < v.chapters.len() ==> v.chapters[k + 1].chunk_index <= usize::MAX,
        v.chunks.len() <= usize::MAX,
    ensures
        ({
            let start = v.chapters[k].chunk_index;
            let end = if k + 1 < v.chapters.len() {
                v.chapters[k + 1].chunk_index
            } else {
                v.chunks.len() as int
            };
            let total = if end - start >= 1 {
                end - start
            } else {
                1
            };
            let pos = v.index - start + 1;
            &&& current_chapter_of(v) == Some(k as usize)
            &&& chapter_progress_of(v) matches Some((p, t)) && t == total && p == (if pos <= total {
                pos
            } else {
                total
            })
        }),
{
    lemma_chapters_started_exactly(v.chapters, v.index, k + 1);
}

/// Before the first chapter starts there is no chapter progress.
pub proof fn law_no_progress_before_first_chapter(v: SessionView)
    requires
        v.chapters.len() == 0 || v.chapters[0].chunk_index > v.index,
    ensures
        current_chapter_of(v) is None,
        chapter_progress_of(v) is None,
{
}

/// Whether a chunk is a word to show as context.
pub open spec fn is_context_word(c: ChunkModel) -> bool {
    c.kind == crate::reader::ChunkKind::Word || c.kind == crate::reader::ChunkKind::Heading
}

/// The text of the chunk at `i`, when there is one and it is a context word.
pub open spec fn context_word(cs: Seq<ChunkModel>, i: int) -> Option<Seq<char>> {
    if 0 <= i < cs.len() && is_context_word(cs[i]) {
        Some(cs[i].text)
    } else {
        None
    }
}

/// The characters of an optional borrowed text.
pub open spec fn text_of(t: Option<&str>) -> Option<Seq<char>> {
    match t {
        Some(s) => Some(s@),
        None => None,
    }
}

proof fn lemma_chapters_started(chs: Seq<ChapterTargetModel>, idx: usize, k: int)
    requires
        0 <= k <= chs.len(),
        forall|j: int| 0 <= j < k ==> chs[j].chunk_index <= idx,
    ensures
        chapters_started(chs, idx) == k + chapters_started(chs.skip(k), idx),
    decreases k,
{
    if k > 0 {
        assert(chs.skip(1) =~= chs.drop_first());
        lemma_chapters_started(chs.drop_first(), idx, k - 1);
        assert(chs.drop_first().skip(k - 1) =~= chs.skip(k));
    } else {
        assert(chs.skip(0) =~= chs);
    }
}

proof fn lemma_chapters_started_bound(chs: Seq<ChapterTargetModel>, idx: usize)
    ensures
        chapters_started(chs, idx) <= chs.len(),
    decreases chs.len(),
{
    if chs.len() > 0 {
        lemma_chapters_started_bound(chs.drop_first(), idx);
    }
}

/// What the image loader reports.
#[derive(Copy, Clone, Debug, PartialEq, Eq, Structural)]
pub enum ImageStatus {
    /// This many images are still loading.
    Loading(usize),
    /// All images are in; this many failed.
    Failed(usize),
}

/// The note shown in place of an image that is not displayed: it is still
/// loading, or loading it failed.
pub fn missing_image_note(still_loading: bool) -> (r: &'static str)
    ensures
        r@ == (if still_loading {
            "[loading image…] "@
        } else {
            "[image failed to load] "@
        }),
{
    if still_loading {
        "[loading image…] "
    } else {
        "[image failed to load] "
    }
}

/// The image status line: loading images first, then failures, else none.
pub fn image_status(pending: usize, failed: usize) -> (r: Option<ImageStatus>)
    ensures
        pending > 0 ==> r == Some(ImageStatus::Loading(pending)),
        pending == 0 && failed > 0 ==> r == Some(ImageStatus::Failed(failed)),
        pending == 0 && failed == 0 ==> r is None,
{
    if pending > 0 {
        Some(ImageStatus::Loading(pending))
    } else if failed > 0 {
        Some(ImageStatus::Failed(failed))
    } else {
        None
    }
}

/// The image sources of the blocks, each once, in the order of their first
/// appearance: the images a newly opened document starts loading.
pub open spec fn image_sources_of(bs: Seq<BlockModel>) -> Seq<Seq<char>>
    decreases bs.len(),
{
    if bs.len() == 0 {
        Seq::empty()
    } else {
        let r = image_sources_of(bs.drop_last());
        match bs.last() {
            BlockModel::Image(u) => if r.contains(u) {
                r
            } else {
                r.push(u)
            },
            _ => r,
        }
    }
}

/// Collects [`image_sources_of`] the blocks.
pub fn image_sources(blocks: &[Block]) -> (r: Vec<String>)
    ensures
        r.deep_view() == image_sources_of(blocks.deep_view()),
{
    let ghost bs = blocks.deep_view();
    let mut out: Vec<String> = Vec::new();
    let mut i: usize = 0;
    while i < blocks.len()
        invariant
            bs == blocks.deep_view(),
            i <= blocks.len(),
            out.deep_view() == image_sources_of(bs.take(i as int)),
        decreases blocks.len() - i,
    {
        proof {
            assert(bs.take(i + 1).drop_last() =~= bs.take(i as int));
            assert(bs.take(i + 1).last() == blocks[i as int].deep_view());
        }
        if let Block::Image(u) = &blocks[i] {
            let ghost seen = out.deep_view();
            let mut j: usize = 0;
            let mut found = false;
            while j < out.len()
                invariant
                    seen == out.deep_view(),
                    j <= out.len(),
                    found <==> exists|k: int| 0 <= k < j && seen[k] == u@,
                decreases out.len() - j,
            {
                proof {
                    assert(seen[j as int] == out@[j as int]@);
                }
                if out[j] == *u {
                    found = true;
                }
                j += 1;
            }
            proof {
                if seen.contains(u@) {
                    let k = choose|k: int| 0 <= k < seen.len() && seen[k] == u@;
                    assert(0 <= k < j && seen[k] == u@);
                }
            }
            if !found {
                out.push(u.clone());
                proof {
                    assert(out.deep_view() =~= seen.push(u@));
                }
            }
        }
        i += 1;
    }
    proof {
        assert(bs.take(i as int) =~= bs);
    }
    out
}

/// Whether an image source is a web address (`http://` or `https://`),
/// fetched over the network rather than read from disk.
pub open spec fn is_web_source(src: Seq<char>) -> bool {
    let http = seq!['h', 't', 't', 'p', ':', '/', '/'];
    let https = seq!['h', 't', 't', 'p', 's', ':', '/', '/'];
    (src.len() >= http.len() && src.take(http.len() as int) == http) || (src.len() >= https.len()
        && src.take(https.len() as int) == https)
}

/// Whether an image source is fetched from the web (see [`is_web_source`]).
pub fn is_web_image(src: &str) -> (r: bool)
    ensures
        r == is_web_source(src@),
{
    let cs = chars_of(src);
    let http = ['h', 't', 't', 'p', ':', '/', '/'];
    let https = ['h', 't', 't', 'p', 's', ':', '/', '/'];
    assert(http@ =~= seq!['h', 't', 't', 'p', ':', '/', '/']);
    assert(https@ =~= seq!['h', 't', 't', 'p', 's', ':', '/', '/']);
    starts_with_chars(cs.as_slice(), &http) || starts_with_chars(cs.as_slice(), &https)
}

impl Session {
    /// The timer fired: `due` is whether the current chunk's time is up. The
    /// result is whether the timer starts over (see [`tick_step`]).
    pub fn tick(&mut self, due: bool) -> (restart: bool)
        ensures
            (final(self)@, restart) == tick_step(old(self)@, due),
    {
        if self.mode != Mode::Reading || !self.reader.playing || !due {
            return false;
        }
        if self.reader.at_end() {
            self.reader.playing = false;
            false
        } else {
            self.reader.advance(1);
            true
        }
    }

    /// The listing asked for by [`Effect::ListFiles`] arrived: the picker shows
    /// it, filtered by its query.
    pub fn show_files(&mut self, entries: Vec<PickerEntry>)
        ensures
            final(self)@ == (SessionView {
                entries: entries.deep_view(),
                file_rows: matching_entries(entries.deep_view(), lowercase(old(self)@.file_query)),
                file_row: 0,
                mode: Mode::Picker,
                ..old(self)@
            }),
    {
        self.picker.set_entries(entries);
        self.mode = Mode::Picker;
    }

    /// The picker went into a directory: its query is cleared and the new
    /// listing shown.
    pub fn enter_directory(&mut self, entries: Vec<PickerEntry>)
        ensures
            final(self)@ == (SessionView {
                file_query: Seq::empty(),
                entries: entries.deep_view(),
                file_rows: matching_entries(entries.deep_view(), lowercase(Seq::empty())),
                file_row: 0,
                ..old(self)@
            }),
    {
        self.picker.query = String::new();
        self.picker.set_entries(entries);
    }

    /// A document was opened: its chunks and chapters replace the old ones,
    /// the chapter picker is reset, the cursor goes to `resume_at` (kept within
    /// the chunks) or to the start, paused, and the reader shows it.
    pub fn load_document(&mut self, doc: Document, resume_at: Option<usize>)
        ensures
            final(self)@.chunks == crate::reader::chunks_of(doc.blocks.deep_view()),
            final(self)@.chapters.len() == doc.sections@.len(),
            final(self).chapters@.len() == doc.sections@.len(),
            forall|k: int|
                0 <= k < doc.sections@.len() ==> #[trigger] final(self)@.chapters[k] == (
                ChapterTargetModel {
                    title: doc.sections@[k].title@,
                    level: doc.sections@[k].level,
                    chunk_index: crate::reader::target_chunk(
                        doc.blocks.deep_view(),
                        doc.sections@[k].block_index as int,
                    ),
                }),
            final(self)@.chapter_query.len() == 0,
            final(self)@.chapter_rows == all_positions(doc.sections@.len()),
            final(self)@.chapter_row == 0,
            final(self)@.index == match resume_at {
                Some(i) => clamped_index(i, final(self)@.chunks.len()),
                None => 0,
            },
            !final(self)@.playing,
            final(self)@.mode == Mode::Reading,
            final(self)@.should_quit == old(self)@.should_quit,
            final(self)@.wpm == old(self)@.wpm,
            final(self)@.preset == old(self)@.preset,
            final(self)@.theme_choice == old(self)@.theme_choice,
            final(self)@.file_query == old(self)@.file_query,
            final(self)@.entries == old(self)@.entries,
            final(self)@.file_rows == old(self)@.file_rows,
            final(self)@.file_row == old(self)@.file_row,
    {
        let chapters = chapter_targets(doc.blocks.as_slice(), doc.sections.as_slice());
        self.chapter_picker.reset(chapters.len());
        self.chapters = chapters;
        self.reader = Reader::from_blocks(doc.blocks);
        if let Some(i) = resume_at {
            self.reader.jump_to(i);
        }
        self.mode = Mode::Reading;
    }

    /// The position of the chapter the cursor is in (see
    /// [`current_chapter_of`]).
    pub fn current_chapter(&self) -> (r: Option<usize>)
        ensures
            r == current_chapter_of(self@),
            r matches Some(k) ==> k < self.chapters@.len(),
    {
        let idx = self.reader.index;
        let mut k: usize = 0;
        let ghost chs = self.chapters.deep_view();
        while k < self.chapters.len() && self.chapters[k].chunk_index <= idx
            invariant
                chs == self.chapters.deep_view(),
                k <= chs.len(),
                forall|j: int| 0 <= j < k ==> chs[j].chunk_index <= idx,
            decreases chs.len() - k,
        {
            k += 1;
        }
        proof {
            lemma_chapters_started(chs, idx, k as int);
            if k < chs.len() {
                assert(chs.skip(k as int)[0] == chs[k as int]);
            }
        }
        if k == 0 {
            None
        } else {
            Some(k - 1)
        }
    }

    /// The cursor's place within its chapter (see [`chapter_progress_of`]).
    pub fn chapter_progress(&self) -> (r: Option<(usize, usize)>)
        ensures
            r == chapter_progress_of(self@),
    {
        let idx = self.reader.index;
        let ghost chs = self.chapters.deep_view();
        let mut k: usize = 0;
        while k < self.chapters.len() && self.chapters[k].chunk_index <= idx
            invariant
                chs == self.chapters.deep_view(),
                k <= chs.len(),
                forall|j: int| 0 <= j < k ==> chs[j].chunk_index <= idx,
            decreases chs.len() - k,
        {
            k += 1;
        }
        proof {
            lemma_chapters_started(chs, idx, k as int);
            if k < chs.len() {
                assert(chs.skip(k as int)[0] == chs[k as int]);
            }
        }
        if k == 0 {
            return None;
        }
        let start = self.chapters[k - 1].chunk_index;
        let end = if k < self.chapters.len() {
            self.chapters[k].chunk_index
        } else {
            self.reader.chunks.len()
        };
        let total = if end > start {
            end - start
        } else {
            1
        };
        let offset = idx - start;
        let pos = if offset >= total {
            total
        } else {
            offset + 1
        };
        Some((pos, total))
    }

    /// The words just before and after the cursor, when those chunks are
    /// words or heading words (at the first chunk, the "previous" chunk is the
    /// current one).
    pub fn surrounding_words(&self) -> (r: (Option<&str>, Option<&str>))
        ensures
            text_of(r.0) == context_word(self@.chunks, if self@.index >= 1 {
                self@.index - 1
            } else {
                0
            }),
            text_of(r.1) == context_word(self@.chunks, self@.index + 1),
    {
        let idx = self.reader.index;
        let len = self.reader.chunks.len();
        let p = idx.saturating_sub(1);
        let prev = if p < len && (self.reader.chunks[p].kind == crate::reader::ChunkKind::Word
            || self.reader.chunks[p].kind == crate::reader::ChunkKind::Heading) {
            Some(self.reader.chunks[p].text.as_str())
        } else {
            None
        };
        let next = if idx < len && idx + 1 < len && (self.reader.chunks[idx + 1].kind
            == crate::reader::ChunkKind::Word || self.reader.chunks[idx + 1].kind
            == crate::reader::ChunkKind::Heading) {
            Some(self.reader.chunks[idx + 1].text.as_str())
        } else {
            None
        };
        (prev, next)
    }
}

proof fn lemma_image_sources_facts(bs: Seq<BlockModel>)
    ensures
        image_sources_of(bs).no_duplicates(),
        forall|k: int|
            0 <= k < image_sources_of(bs).len() ==> exists|i: int|
                0 <= i < bs.len() && #[trigger] bs[i] == BlockModel::Image(
                    #[trigger] image_sources_of(bs)[k],
                ),
        forall|i: int|
            0 <= i < bs.len() ==> (#[trigger] bs[i] matches BlockModel::Image(u)
                ==> image_sources_of(bs).contains(u)),
    decreases bs.len(),
{
    if bs.len() > 0 {
        let pre = bs.drop_last();
        lemma_image_sources_facts(pre);
        let r = image_sources_of(pre);
        let all = image_sources_of(bs);
        assert forall|k: int| 0 <= k < all.len() implies exists|i: int|
            0 <= i < bs.len() && #[trigger] bs[i] == BlockModel::Image(#[trigger] all[k]) by {
            if k < r.len() {
                assert(all[k] == r[k]);
                let i = choose|i: int| 0 <= i < pre.len() && #[trigger] pre[i] == BlockModel::Image(r[k]);
                assert(bs[i] == pre[i]);
            } else {
                assert(bs[bs.len() - 1] == BlockModel::Image(all[k]));
            }
        }
        assert forall|i: int| 0 <= i < bs.len() implies (#[trigger] bs[i] matches BlockModel::Image(u)
            ==> all.contains(u)) by {
            if let BlockModel::Image(u) = bs[i] {
                if i < pre.len() {
                    assert(pre[i] == bs[i]);
                    let k = choose|k: int| 0 <= k < r.len() && r[k] == u;
                    assert(all[k] == u);
                } else if !r.contains(u) {
                    assert(all[all.len() - 1] == u);
                } else {
                    let k = choose|k: int| 0 <= k < r.len() && r[k] == u;
                    assert(all[k] == u);
                }
            }
        }
    }
}

/// The images a document starts loading are its image sources, each once:
/// no source twice, every listed source is an image of the document, and
/// every image of the document is listed.
pub proof fn law_images_load_once_each(bs: Seq<BlockModel>)
    ensures
        image_sources_of(bs).no_duplicates(),
        forall|k: int|
            0 <= k < image_sources_of(bs).len() ==> exists|i: int|
                0 <= i < bs.len() && #[trigger] bs[i] == BlockModel::Image(
                    #[trigger] image_sources_of(bs)[k],
                ),
        forall|i: int|
            0 <= i < bs.len() ==> (#[trigger] bs[i] matches BlockModel::Image(u)
                ==> image_sources_of(bs).contains(u)),
{
    lemma_image_sources_facts(bs);
}

/// A position saved from a document is given back when the document is
/// opened again: resuming at a chunk of the document lands on that chunk,
/// and resuming anywhere lands on a chunk.
pub proof fn law_resume_returns_to_saved_position(i: usize, n: nat)
    requires
        n <= usize::MAX,
    ensures
        i < n ==> clamped_index(i, n) == i,
        n > 0 ==> clamped_index(i, n) < n,
{
}

// ---------------------------------------------------------------------------
// Laws of the session

/// The cursor is on a chunk, or at 0 when there are none.
pub open spec fn well_placed(v: SessionView) -> bool {
    if v.chunks.len() == 0 {
        v.index == 0
    } else {
        v.index < v.chunks.len()
    }
}

/// Every action and every timer tick keeps the cursor on a chunk (or at 0
/// when there are none).
pub proof fn law_cursor_stays_on_a_chunk(v: SessionView, a: Action, due: bool)
    requires
        well_placed(v),
        v.chunks.len() <= usize::MAX,
    ensures
        well_placed(session_step(v, a).0),
        well_placed(tick_step(v, due).0),
{
}

/// The speed keys keep the speed between 50 and 1500 words per minute, and
/// every action keeps a speed in that range in it.
pub proof fn law_speed_stays_in_range(v: SessionView, a: Action)
    requires
        min_wpm() <= v.wpm <= max_wpm(),
    ensures
        min_wpm() <= session_step(v, a).0.wpm <= max_wpm(),
{
}

/// Play/pause twice in the middle of a document leaves the session as it was.
pub proof fn law_toggle_play_twice(v: SessionView)
    requires
        v.chunks.len() > 0,
        !view_at_end(v),
    ensures
        session_step(session_step(v, Action::TogglePlay).0, Action::TogglePlay).0 == v,
{
    assert(session_step(session_step(v, Action::TogglePlay).0, Action::TogglePlay).0 =~= v);
}

/// Play at the end of a paused document starts again from the first chunk.
pub proof fn law_play_at_end_restarts(v: SessionView)
    requires
        v.chunks.len() > 0,
        view_at_end(v),
        !v.playing,
    ensures
        session_step(v, Action::TogglePlay).0.index == 0,
        session_step(v, Action::TogglePlay).0.playing,
{
}

/// Help opened and closed again returns to reading, and quitting is always
/// possible and always asks for the position to be saved.
pub proof fn law_help_and_quit(v: SessionView)
    requires
        v.mode == Mode::Reading,
    ensures
        session_step(session_step(v, Action::ToggleHelp).0, Action::ToggleHelp).0.mode
            == Mode::Reading,
        session_step(v, Action::Quit).0.should_quit,
        session_step(v, Action::Quit).1 == EffectModel::Quit,
{
}

/// Speed up then down (or down then up) away from the limits returns to the
/// same speed.
pub proof fn law_speed_steps_undo(v: SessionView)
    requires
        min_wpm() <= v.wpm,
        v.wpm + 25 <= max_wpm(),
    ensures
        session_step(session_step(v, Action::WpmUp).0, Action::WpmDown).0.wpm == v.wpm,
{
}

} // verus!

verus! {

/// The highlighted rows of both pickers are shown rows (or row 0 when a
/// picker shows nothing).
pub open spec fn rows_valid(v: SessionView) -> bool {
    &&& (v.chapter_row == 0 || v.chapter_row < v.chapter_rows.len())
    &&& (v.file_row == 0 || v.file_row < v.file_rows.len())
}

/// Every action keeps the pickers' highlighted rows on shown rows.
pub proof fn law_picker_rows_stay_valid(v: SessionView, a: Action)
    requires
        rows_valid(v),
        v.chapters.len() <= usize::MAX,
    ensures
        rows_valid(session_step(v, a).0),
{
}

} // verus!

verus! {

// ---------------------------------------------------------------------------
// Status messages

/// The decimal digit for `d` (below 10).
pub open spec fn digit_char(d: nat) -> char {
    ((48 + d) as u32) as char
}

/// The decimal numeral of `n`, without leading zeros.
pub open spec fn decimal_text(n: nat) -> Seq<char>
    decreases n,
{
    if n < 10 {
        seq![digit_char(n)]
    } else {
        decimal_text(n / 10).push(digit_char(n % 10))
    }
}

/// The status line an effect shows, if any: the new preset with its speed,
/// the new theme choice, the chapter jumped to, or that there are no
/// chapters.
pub open spec fn status_text(e: EffectModel) -> Option<Seq<char>> {
    match e {
        EffectModel::PresetChanged(p, wpm) => Some(
            seq!['p', 'r', 'e', 's', 'e', 't', ':', ' '] + crate::preset::preset_name(p) + seq![
                ' ',
                '(',
            ] + decimal_text(wpm as nat) + seq![' ', 'w', 'p', 'm', ')'],
        ),
        EffectModel::ThemeCycled(c) => Some(
            seq!['t', 'h', 'e', 'm', 'e', ':', ' '] + crate::theme::choice_name(c),
        ),
        EffectModel::ChapterJumped(title) => Some(
            seq!['c', 'h', 'a', 'p', 't', 'e', 'r', ':', ' '] + title,
        ),
        EffectModel::NoChapters => Some(
            seq!['n', 'o', ' ', 'c', 'h', 'a', 'p', 't', 'e', 'r', 's', ' ', 'f', 'o', 'u', 'n', 'd'],
        ),
        _ => None,
    }
}

/// Cycling the preset moves to the next preset at its default speed, leaves
/// the mode and the reading position as they were, and announces
/// "preset: NAME (WPM wpm)" for the new preset and speed.
pub proof fn law_cycle_preset_announces(v: SessionView)
    ensures
        ({
            let (w, e) = session_step(v, Action::CyclePreset);
            &&& w.preset == next_preset(v.preset)
            &&& w.wpm == preset_wpm(w.preset)
            &&& w.mode == v.mode
            &&& w.index == v.index
            &&& w.chunks == v.chunks
            &&& status_text(e) == Some(
                seq!['p', 'r', 'e', 's', 'e', 't', ':', ' '] + crate::preset::preset_name(w.preset)
                    + seq![' ', '('] + decimal_text(w.wpm as nat) + seq![' ', 'w', 'p', 'm', ')'],
            )
        }),
{
}

/// Appends the decimal numeral of `n`.
fn push_decimal(out: &mut Vec<char>, n: u32)
    ensures
        final(out)@ == old(out)@ + decimal_text(n as nat),
    decreases n,
{
    if n >= 10 {
        push_decimal(out, n / 10);
    }
    let d: u8 = (n % 10) as u8;
    let c = (48u8 + d) as char;
    assert(c == digit_char((n % 10) as nat));
    out.push(c);
    assert(out@ =~= old(out)@ + decimal_text(n as nat));
}

/// Appends the characters of a string.
fn push_str(out: &mut Vec<char>, s: &str)
    ensures
        final(out)@ == old(out)@ + s@,
{
    let mut cs = chars_of(s);
    out.append(&mut cs);
}

/// The status line of an effect (see [`status_text`]).
pub fn effect_status(e: &Effect) -> (r: Option<String>)
    ensures
        match r {
            Some(s) => status_text(e.deep_view()) == Some(s@),
            None => status_text(e.deep_view()) is None,
        },
{
    let mut out: Vec<char> = Vec::new();
    match e {
        Effect::PresetChanged(p, wpm) => {
            proof {
                reveal_strlit("preset: ");
                reveal_strlit(" (");
                reveal_strlit(" wpm)");
            }
            push_str(&mut out, "preset: ");
            push_str(&mut out, p.label());
            push_str(&mut out, " (");
            push_decimal(&mut out, *wpm);
            push_str(&mut out, " wpm)");
        },
        Effect::ThemeCycled(c) => {
            proof {
                reveal_strlit("theme: ");
            }
            push_str(&mut out, "theme: ");
            push_str(&mut out, c.label());
        },
        Effect::ChapterJumped(title) => {
            proof {
                reveal_strlit("chapter: ");
            }
            push_str(&mut out, "chapter: ");
            push_str(&mut out, title.as_str());
        },
        Effect::NoChapters => {
            proof {
                reveal_strlit("no chapters found");
            }
            push_str(&mut out, "no chapters found");
        },
        _ => {
            return None;
        },
    }
    assert(status_text(e.deep_view()) == Some(out@));
    Some(string_of(out.as_slice()))
}

} // verus!
