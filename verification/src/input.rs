//! Keys to actions: what each key does in each mode of the interface.

use vstd::prelude::*;

verus! {

/// A key, as far as the reader tells keys apart.
#[derive(Copy, Clone, Debug, PartialEq, Eq, Structural)]
pub enum Key {
    Char(char),
    Esc,
    Enter,
    Backspace,
    Up,
    Down,
    Left,
    Right,
    /// Any other key.
    Other,
}

/// A key press with the modifiers that matter.
#[derive(Copy, Clone, Debug, PartialEq, Eq, Structural)]
pub struct KeyPress {
    pub key: Key,
    pub ctrl: bool,
    pub alt: bool,
}

/// What the interface is showing.
#[derive(Copy, Clone, Debug, PartialEq, Eq, Structural)]
pub enum Mode {
    Reading,
    Picker,
    ChapterPicker,
    Help,
}

/// Something the user asked for.
#[derive(Copy, Clone, Debug, PartialEq, Eq, Structural)]
pub enum Action {
    Quit,
    TogglePlay,
    NextWord,
    PrevWord,
    WpmUp,
    WpmDown,
    OpenPicker,
    ClosePicker,
    /// Reopen the n-th most recent file (from 0).
    OpenRecent(usize),
    CyclePreset,
    OpenChapterPicker,
    CloseChapterPicker,
    ToggleHelp,
    CycleTheme,
    PickerInput(char),
    PickerBackspace,
    PickerUp,
    PickerDown,
    PickerConfirm,
    ChapterInput(char),
    ChapterBackspace,
    ChapterUp,
    ChapterDown,
    ChapterConfirm,
}

/// The action of a key while reading. `home` is whether no document is open
/// (the home screen), where the digits 1 to 5 reopen recent files.
pub open spec fn reading_action(k: KeyPress, home: bool) -> Option<Action> {
    match k.key {
        Key::Char(c) => if c == 'c' && k.ctrl {
            Some(Action::Quit)
        } else if c == 'q' && !k.ctrl {
            Some(Action::Quit)
        } else if c == ' ' {
            Some(Action::TogglePlay)
        } else if c == 'l' && !k.ctrl {
            Some(Action::NextWord)
        } else if c == 'h' && !k.ctrl {
            Some(Action::PrevWord)
        } else if c == '+' || c == '=' {
            Some(Action::WpmUp)
        } else if c == '-' {
            Some(Action::WpmDown)
        } else if c == 'o' {
            Some(Action::OpenPicker)
        } else if c == 'c' {
            Some(Action::OpenChapterPicker)
        } else if c == 't' && !k.ctrl {
            Some(Action::CycleTheme)
        } else if c == 'p' && !k.ctrl {
            Some(Action::CyclePreset)
        } else if c == '?' {
            Some(Action::ToggleHelp)
        } else if home && !k.ctrl && '1' <= c && c <= '5' {
            Some(Action::OpenRecent((c as int - '1' as int) as usize))
        } else {
            None
        },
        Key::Esc => Some(Action::Quit),
        Key::Right => Some(Action::NextWord),
        Key::Left => Some(Action::PrevWord),
        Key::Up => Some(Action::WpmUp),
        Key::Down => Some(Action::WpmDown),
        _ => None,
    }
}

/// The action of a key in the file picker.
pub open spec fn picker_action(k: KeyPress) -> Option<Action> {
    match k.key {
        Key::Esc => Some(Action::ClosePicker),
        Key::Up => Some(Action::PickerUp),
        Key::Down => Some(Action::PickerDown),
        Key::Enter => Some(Action::PickerConfirm),
        Key::Backspace => Some(Action::PickerBackspace),
        Key::Char(c) => if c == 'c' && k.ctrl {
            Some(Action::Quit)
        } else {
            Some(Action::PickerInput(c))
        },
        _ => None,
    }
}

/// The action of a key in the chapter picker; characters typed with Ctrl or
/// Alt are not part of the query.
pub open spec fn chapter_picker_action(k: KeyPress) -> Option<Action> {
    match k.key {
        Key::Esc => Some(Action::CloseChapterPicker),
        Key::Up => Some(Action::ChapterUp),
        Key::Down => Some(Action::ChapterDown),
        Key::Enter => Some(Action::ChapterConfirm),
        Key::Backspace => Some(Action::ChapterBackspace),
        Key::Char(c) => if c == 'c' && k.ctrl {
            Some(Action::Quit)
        } else if !k.ctrl && !k.alt {
            Some(Action::ChapterInput(c))
        } else {
            None
        },
        _ => None,
    }
}

/// The action of a key on the help screen.
pub open spec fn help_action(k: KeyPress) -> Option<Action> {
    match k.key {
        Key::Char(c) => if c == 'c' && k.ctrl {
            Some(Action::Quit)
        } else if c == 'q' || c == '?' {
            Some(Action::ToggleHelp)
        } else {
            None
        },
        Key::Esc => Some(Action::ToggleHelp),
        _ => None,
    }
}

/// The action of a key in a mode.
pub open spec fn key_action(mode: Mode, k: KeyPress, home: bool) -> Option<Action> {
    match mode {
        Mode::Reading => reading_action(k, home),
        Mode::Picker => picker_action(k),
        Mode::ChapterPicker => chapter_picker_action(k),
        Mode::Help => help_action(k),
    }
}

/// The action of a key while reading (see [`reading_action`]).
pub fn map_reading(k: KeyPress, home: bool) -> (r: Option<Action>)
    ensures
        r == reading_action(k, home),
{
    match k.key {
        Key::Char(c) => {
            if c == 'c' && k.ctrl {
                Some(Action::Quit)
            } else if c == 'q' && !k.ctrl {
                Some(Action::Quit)
            } else if c == ' ' {
                Some(Action::TogglePlay)
            } else if c == 'l' && !k.ctrl {
                Some(Action::NextWord)
            } else if c == 'h' && !k.ctrl {
                Some(Action::PrevWord)
            } else if c == '+' || c == '=' {
                Some(Action::WpmUp)
            } else if c == '-' {
                Some(Action::WpmDown)
            } else if c == 'o' {
                Some(Action::OpenPicker)
            } else if c == 'c' {
                Some(Action::OpenChapterPicker)
            } else if c == 't' && !k.ctrl {
                Some(Action::CycleTheme)
            } else if c == 'p' && !k.ctrl {
                Some(Action::CyclePreset)
            } else if c == '?' {
                Some(Action::ToggleHelp)
            } else if home && !k.ctrl && '1' <= c && c <= '5' {
                Some(Action::OpenRecent((c as u32 - '1' as u32) as usize))
            } else {
                None
            }
        },
        Key::Esc => Some(Action::Quit),
        Key::Right => Some(Action::NextWord),
        Key::Left => Some(Action::PrevWord),
        Key::Up => Some(Action::WpmUp),
        Key::Down => Some(Action::WpmDown),
        _ => None,
    }
}

/// The action of a key in the file picker (see [`picker_action`]).
pub fn map_picker(k: KeyPress) -> (r: Option<Action>)
    ensures
        r == picker_action(k),
{
    match k.key {
        Key::Esc => Some(Action::ClosePicker),
        Key::Up => Some(Action::PickerUp),
        Key::Down => Some(Action::PickerDown),
        Key::Enter => Some(Action::PickerConfirm),
        Key::Backspace => Some(Action::PickerBackspace),
        Key::Char(c) => {
            if c == 'c' && k.ctrl {
                Some(Action::Quit)
            } else {
                Some(Action::PickerInput(c))
            }
        },
        _ => None,
    }
}

/// The action of a key in the chapter picker (see [`chapter_picker_action`]).
pub fn map_chapter_picker(k: KeyPress) -> (r: Option<Action>)
    ensures
        r == chapter_picker_action(k),
{
    match k.key {
        Key::Esc => Some(Action::CloseChapterPicker),
        Key::Up => Some(Action::ChapterUp),
        Key::Down => Some(Action::ChapterDown),
        Key::Enter => Some(Action::ChapterConfirm),
        Key::Backspace => Some(Action::ChapterBackspace),
        Key::Char(c) => {
            if c == 'c' && k.ctrl {
                Some(Action::Quit)
            } else if !k.ctrl && !k.alt {
                Some(Action::ChapterInput(c))
            } else {
                None
            }
        },
        _ => None,
    }
}

/// The action of a key on the help screen (see [`help_action`]).
pub fn map_help(k: KeyPress) -> (r: Option<Action>)
    ensures
        r == help_action(k),
{
    match k.key {
        Key::Char(c) => {
            if c == 'c' && k.ctrl {
                Some(Action::Quit)
            } else if c == 'q' || c == '?' {
                Some(Action::ToggleHelp)
            } else {
                None
            }
        },
        Key::Esc => Some(Action::ToggleHelp),
        _ => None,
    }
}

/// The action of a key in the current mode (see [`key_action`]).
pub fn map_key(k: KeyPress, mode: Mode, home: bool) -> (r: Option<Action>)
    ensures
        r == key_action(mode, k, home),
{
    match mode {
        Mode::Reading => map_reading(k, home),
        Mode::Picker => map_picker(k),
        Mode::ChapterPicker => map_chapter_picker(k),
        Mode::Help => map_help(k),
    }
}

/// Ctrl+C quits from every mode, and Escape always leaves the current screen:
/// it quits while reading and otherwise returns towards reading.
pub proof fn law_every_mode_has_a_way_out(mode: Mode, home: bool, alt: bool)
    ensures
        key_action(mode, KeyPress { key: Key::Char('c'), ctrl: true, alt }, home) == Some(
            Action::Quit,
        ),
        key_action(mode, KeyPress { key: Key::Esc, ctrl: false, alt }, home) == Some(
            match mode {
                Mode::Reading => Action::Quit,
                Mode::Picker => Action::ClosePicker,
                Mode::ChapterPicker => Action::CloseChapterPicker,
                Mode::Help => Action::ToggleHelp,
            },
        ),
{
}

} // verus!
