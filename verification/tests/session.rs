use speed_reader::doc::{Block, Document};
use speed_reader::input::{Action, Mode};
use speed_reader::picker::PickerEntry;
use speed_reader::preset::Preset;
use speed_reader::session::{
    effect_status, image_sources, image_status, is_web_image, Effect, ImageStatus, Session,
};
use speed_reader::theme::ThemeChoice;

fn sample_doc() -> Document {
    Document::from_blocks(vec![
        Block::Heading(1, "Intro".into()),
        Block::Text("alpha beta".into()),
        Block::Heading(2, "Details".into()),
        Block::Text("gamma delta epsilon".into()),
    ])
}

fn loaded() -> Session {
    let mut s = Session::new(ThemeChoice::Dark);
    s.load_document(sample_doc(), None);
    s
}

fn entry(name: &str, is_dir: bool) -> PickerEntry {
    PickerEntry { name: Some(name.to_string()), is_parent: false, is_dir }
}

#[test]
fn new_session_starts_paused_at_standard_speed() {
    let s = Session::new(ThemeChoice::System);
    assert!(!s.should_quit);
    assert_eq!(s.mode, Mode::Reading);
    assert_eq!(s.wpm, 300);
    assert_eq!(s.preset, Preset::Standard);
    assert!(s.reader.chunks.is_empty());
    assert!(!s.reader.playing);
}

#[test]
fn toggle_play_on_an_empty_session_does_nothing() {
    let mut s = Session::new(ThemeChoice::Dark);
    assert_eq!(s.handle(Action::TogglePlay), Effect::Nothing);
    assert!(!s.reader.playing);
}

#[test]
fn play_pause_and_restart_at_end() {
    let mut s = loaded();
    assert_eq!(s.handle(Action::TogglePlay), Effect::RestartTimer);
    assert!(s.reader.playing);
    assert_eq!(s.handle(Action::TogglePlay), Effect::RestartTimer);
    assert!(!s.reader.playing);
    let last = s.reader.chunks.len() - 1;
    s.reader.index = last;
    s.handle(Action::TogglePlay);
    assert_eq!(s.reader.index, 0);
    assert!(s.reader.playing);
}

#[test]
fn speed_keys_step_by_25_within_limits() {
    let mut s = loaded();
    s.handle(Action::WpmUp);
    assert_eq!(s.wpm, 325);
    s.handle(Action::WpmDown);
    s.handle(Action::WpmDown);
    assert_eq!(s.wpm, 275);
    s.wpm = 1490;
    s.handle(Action::WpmUp);
    assert_eq!(s.wpm, 1500);
    s.wpm = 60;
    s.handle(Action::WpmDown);
    assert_eq!(s.wpm, 50);
}

#[test]
fn word_steps_stay_inside_the_document() {
    let mut s = loaded();
    s.handle(Action::PrevWord);
    assert_eq!(s.reader.index, 0);
    for _ in 0..100 {
        s.handle(Action::NextWord);
    }
    assert_eq!(s.reader.index, s.reader.chunks.len() - 1);
}

#[test]
fn preset_cycle_sets_its_speed() {
    let mut s = loaded();
    assert_eq!(s.handle(Action::CyclePreset), Effect::PresetChanged(Preset::Technical, 240));
    assert_eq!(s.wpm, 240);
}

#[test]
fn preset_cycle_announces_preset_and_speed() {
    let mut s = loaded();
    let index = s.reader.index;
    let effect = s.handle(Action::CyclePreset);
    assert_eq!(effect_status(&effect), Some("preset: technical (240 wpm)".to_string()));
    assert_eq!(s.mode, Mode::Reading);
    assert_eq!(s.reader.index, index);
    let effect = s.handle(Action::CyclePreset);
    assert_eq!(effect_status(&effect), Some(format!("preset: {} ({} wpm)", s.preset.label(), s.wpm)));
}

#[test]
fn theme_cycle_reports_the_new_choice() {
    let mut s = loaded();
    assert_eq!(s.handle(Action::CycleTheme), Effect::ThemeCycled(ThemeChoice::Light));
    assert_eq!(s.theme_choice, ThemeChoice::Light);
}

#[test]
fn help_toggles_and_quit_asks_to_save() {
    let mut s = loaded();
    s.handle(Action::ToggleHelp);
    assert_eq!(s.mode, Mode::Help);
    s.handle(Action::ToggleHelp);
    assert_eq!(s.mode, Mode::Reading);
    assert_eq!(s.handle(Action::Quit), Effect::Quit);
    assert!(s.should_quit);
}

#[test]
fn chapter_picker_filters_and_jumps() {
    let mut s = loaded();
    s.reader.playing = true;
    assert_eq!(s.handle(Action::OpenChapterPicker), Effect::Nothing);
    assert!(!s.reader.playing);
    assert_eq!(s.mode, Mode::ChapterPicker);
    assert_eq!(s.chapter_picker.filtered, vec![0, 1]);
    s.handle(Action::ChapterInput('D'));
    s.handle(Action::ChapterInput('e'));
    assert_eq!(s.chapter_picker.filtered, vec![1]);
    s.handle(Action::ChapterBackspace);
    s.handle(Action::ChapterBackspace);
    assert_eq!(s.chapter_picker.filtered, vec![0, 1]);
    s.handle(Action::ChapterDown);
    assert_eq!(
        s.handle(Action::ChapterConfirm),
        Effect::ChapterJumped("Details".to_string())
    );
    assert_eq!(s.mode, Mode::Reading);
    assert_eq!(s.reader.index, s.chapters[1].chunk_index);
    assert_eq!(s.reader.chunks[s.reader.index + 1].text, "Details");
}

#[test]
fn chapter_picker_without_chapters_reports_it() {
    let mut s = Session::new(ThemeChoice::Dark);
    s.load_document(Document::from_blocks(vec![Block::Text("just words".into())]), None);
    assert_eq!(s.handle(Action::OpenChapterPicker), Effect::NoChapters);
    assert_eq!(s.mode, Mode::Reading);
}

#[test]
fn file_picker_round_trip() {
    let mut s = loaded();
    assert_eq!(s.handle(Action::OpenPicker), Effect::ListFiles);
    s.show_files(vec![
        PickerEntry { name: Some("docs".into()), is_parent: true, is_dir: true },
        entry("notes", true),
        entry("book.md", false),
        entry("paper.pdf", false),
    ]);
    assert_eq!(s.mode, Mode::Picker);
    s.handle(Action::PickerInput('P'));
    assert_eq!(s.picker.filtered, vec![0, 3]);
    s.handle(Action::PickerDown);
    assert_eq!(s.handle(Action::PickerConfirm), Effect::OpenEntry(3));
    s.handle(Action::PickerBackspace);
    assert_eq!(s.picker.filtered, vec![0, 1, 2, 3]);
    s.enter_directory(vec![entry("a.txt", false)]);
    assert!(s.picker.query.is_empty());
    assert_eq!(s.picker.filtered, vec![0]);
    s.handle(Action::ClosePicker);
    assert_eq!(s.mode, Mode::Reading);
}

#[test]
fn reopening_restores_a_clamped_position() {
    let mut s = Session::new(ThemeChoice::Dark);
    s.load_document(sample_doc(), Some(3));
    assert_eq!(s.reader.index, 3);
    s.load_document(sample_doc(), Some(999));
    assert_eq!(s.reader.index, s.reader.chunks.len() - 1);
}

#[test]
fn tick_advances_only_when_due_and_stops_at_the_end() {
    let mut s = loaded();
    assert!(!s.tick(true));
    s.handle(Action::TogglePlay);
    assert!(!s.tick(false));
    assert_eq!(s.reader.index, 0);
    assert!(s.tick(true));
    assert_eq!(s.reader.index, 1);
    s.reader.index = s.reader.chunks.len() - 1;
    assert!(!s.tick(true));
    assert!(!s.reader.playing);
}

#[test]
fn chapter_position_and_progress() {
    let mut s = loaded();
    assert_eq!(s.current_chapter(), Some(0));
    let details = s.chapters[1].chunk_index;
    s.reader.index = details + 1;
    assert_eq!(s.current_chapter(), Some(1));
    let total = s.reader.chunks.len() - details;
    assert_eq!(s.chapter_progress(), Some((2, total)));
}

#[test]
fn surrounding_words_are_words_only() {
    let mut s = loaded();
    s.reader.index = 3;
    let (prev, next) = s.surrounding_words();
    assert_eq!(prev, Some("alpha"));
    assert_eq!(next, None);
    s.reader.index = 2;
    let (prev, next) = s.surrounding_words();
    assert_eq!(prev, None);
    assert_eq!(next, Some("beta"));
}

#[test]
fn image_status_prefers_loading_over_failures() {
    assert_eq!(image_status(2, 1), Some(ImageStatus::Loading(2)));
    assert_eq!(image_status(0, 3), Some(ImageStatus::Failed(3)));
    assert_eq!(image_status(0, 0), None);
}

#[test]
fn image_sources_are_listed_once_in_order() {
    let blocks = vec![
        Block::Image("a.png".into()),
        Block::Text("x".into()),
        Block::Image("b.png".into()),
        Block::Image("a.png".into()),
    ];
    assert_eq!(image_sources(&blocks), vec!["a.png".to_string(), "b.png".to_string()]);
}

#[test]
fn web_images_are_told_apart_from_files() {
    assert!(is_web_image("https://example.com/a.png"));
    assert!(is_web_image("http://x/y.jpg"));
    assert!(!is_web_image("images/http://odd.png"));
    assert!(!is_web_image("HTTP://upper.png"));
    assert!(!is_web_image("/abs/path.png"));
}
