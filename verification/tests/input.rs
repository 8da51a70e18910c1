use speed_reader::input::{
    map_chapter_picker, map_help, map_key, map_picker, map_reading, Action, Key, KeyPress, Mode,
};

fn key(c: char) -> KeyPress {
    KeyPress { key: Key::Char(c), ctrl: false, alt: false }
}

fn ctrl(c: char) -> KeyPress {
    KeyPress { key: Key::Char(c), ctrl: true, alt: false }
}

fn special(k: Key) -> KeyPress {
    KeyPress { key: k, ctrl: false, alt: false }
}

#[test]
fn chapter_picker_ignores_alt_modified_chars() {
    let key = KeyPress { key: Key::Char('f'), ctrl: false, alt: true };
    assert!(map_chapter_picker(key).is_none());
}

#[test]
fn reading_keys() {
    assert_eq!(map_reading(key(' '), false), Some(Action::TogglePlay));
    assert_eq!(map_reading(key('q'), false), Some(Action::Quit));
    assert_eq!(map_reading(ctrl('c'), false), Some(Action::Quit));
    assert_eq!(map_reading(key('c'), false), Some(Action::OpenChapterPicker));
    assert_eq!(map_reading(special(Key::Esc), false), Some(Action::Quit));
    assert_eq!(map_reading(special(Key::Right), false), Some(Action::NextWord));
    assert_eq!(map_reading(key('l'), false), Some(Action::NextWord));
    assert_eq!(map_reading(key('h'), false), Some(Action::PrevWord));
    assert_eq!(map_reading(special(Key::Left), false), Some(Action::PrevWord));
    assert_eq!(map_reading(key('+'), false), Some(Action::WpmUp));
    assert_eq!(map_reading(key('='), false), Some(Action::WpmUp));
    assert_eq!(map_reading(special(Key::Up), false), Some(Action::WpmUp));
    assert_eq!(map_reading(key('-'), false), Some(Action::WpmDown));
    assert_eq!(map_reading(special(Key::Down), false), Some(Action::WpmDown));
    assert_eq!(map_reading(key('o'), false), Some(Action::OpenPicker));
    assert_eq!(map_reading(ctrl('o'), false), Some(Action::OpenPicker));
    assert_eq!(map_reading(key('t'), false), Some(Action::CycleTheme));
    assert_eq!(map_reading(key('p'), false), Some(Action::CyclePreset));
    assert_eq!(map_reading(key('?'), false), Some(Action::ToggleHelp));
    assert_eq!(map_reading(ctrl('q'), false), None);
    assert_eq!(map_reading(key('x'), false), None);
}

#[test]
fn digits_reopen_recent_files_only_on_the_home_screen() {
    assert_eq!(map_reading(key('1'), true), Some(Action::OpenRecent(0)));
    assert_eq!(map_reading(key('5'), true), Some(Action::OpenRecent(4)));
    assert_eq!(map_reading(key('6'), true), None);
    assert_eq!(map_reading(key('1'), false), None);
}

#[test]
fn picker_keys() {
    assert_eq!(map_picker(special(Key::Esc)), Some(Action::ClosePicker));
    assert_eq!(map_picker(special(Key::Enter)), Some(Action::PickerConfirm));
    assert_eq!(map_picker(special(Key::Backspace)), Some(Action::PickerBackspace));
    assert_eq!(map_picker(special(Key::Up)), Some(Action::PickerUp));
    assert_eq!(map_picker(special(Key::Down)), Some(Action::PickerDown));
    assert_eq!(map_picker(key('q')), Some(Action::PickerInput('q')));
    assert_eq!(map_picker(ctrl('c')), Some(Action::Quit));
    assert_eq!(map_picker(special(Key::Left)), None);
}

#[test]
fn chapter_picker_and_help_keys() {
    assert_eq!(map_chapter_picker(key('q')), Some(Action::ChapterInput('q')));
    assert_eq!(map_chapter_picker(ctrl('c')), Some(Action::Quit));
    assert_eq!(map_chapter_picker(ctrl('x')), None);
    assert_eq!(map_chapter_picker(special(Key::Enter)), Some(Action::ChapterConfirm));
    assert_eq!(map_help(key('?')), Some(Action::ToggleHelp));
    assert_eq!(map_help(key('q')), Some(Action::ToggleHelp));
    assert_eq!(map_help(special(Key::Esc)), Some(Action::ToggleHelp));
    assert_eq!(map_help(key(' ')), None);
}

#[test]
fn every_mode_has_a_way_out() {
    for mode in [Mode::Reading, Mode::Picker, Mode::ChapterPicker, Mode::Help] {
        assert_eq!(map_key(ctrl('c'), mode, false), Some(Action::Quit));
        assert!(map_key(special(Key::Esc), mode, false).is_some());
    }
    assert_eq!(map_key(special(Key::Esc), Mode::Picker, true), Some(Action::ClosePicker));
}
