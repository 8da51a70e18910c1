//! Colour themes: what the user picks and what is drawn.

use vstd::prelude::*;

verus! {

/// The theme setting: a fixed theme, or whatever the terminal's background
/// suggests.
#[derive(Copy, Clone, Debug, PartialEq, Eq, Structural)]
pub enum ThemeChoice {
    Dark,
    Light,
    System,
}

/// The theme in effect.
#[derive(Copy, Clone, Debug, PartialEq, Eq, Structural)]
pub enum Theme {
    Dark,
    Light,
}

/// The choice after `c` in the rotation dark, light, system.
pub open spec fn next_choice(c: ThemeChoice) -> ThemeChoice {
    match c {
        ThemeChoice::Dark => ThemeChoice::Light,
        ThemeChoice::Light => ThemeChoice::System,
        ThemeChoice::System => ThemeChoice::Dark,
    }
}

/// The name of a choice.
pub open spec fn choice_name(c: ThemeChoice) -> Seq<char> {
    match c {
        ThemeChoice::Dark => seq!['d', 'a', 'r', 'k'],
        ThemeChoice::Light => seq!['l', 'i', 'g', 'h', 't'],
        ThemeChoice::System => seq!['s', 'y', 's', 't', 'e', 'm'],
    }
}

/// The theme a choice stands for, given the theme the system suggests.
pub open spec fn resolved(c: ThemeChoice, system: Theme) -> Theme {
    match c {
        ThemeChoice::Dark => Theme::Dark,
        ThemeChoice::Light => Theme::Light,
        ThemeChoice::System => system,
    }
}

impl ThemeChoice {
    /// The next choice in the rotation.
    pub fn cycle(self) -> (r: Self)
        ensures
            r == next_choice(self),
    {
        match self {
            ThemeChoice::Dark => ThemeChoice::Light,
            ThemeChoice::Light => ThemeChoice::System,
            ThemeChoice::System => ThemeChoice::Dark,
        }
    }

    /// The choice's name.
    pub fn label(self) -> (r: &'static str)
        ensures
            r@ == choice_name(self),
    {
        match self {
            ThemeChoice::Dark => {
                proof {
                    reveal_strlit("dark");
                }
                "dark"
            },
            ThemeChoice::Light => {
                proof {
                    reveal_strlit("light");
                }
                "light"
            },
            ThemeChoice::System => {
                proof {
                    reveal_strlit("system");
                }
                "system"
            },
        }
    }
}

/// The theme to draw with: a fixed choice is taken as it is, and `System`
/// takes `system`, the theme that the terminal's background suggests (the
/// caller asks the terminal only for that choice).
pub fn resolve(choice: ThemeChoice, system: Theme) -> (r: Theme)
    ensures
        r == resolved(choice, system),
{
    match choice {
        ThemeChoice::Dark => Theme::Dark,
        ThemeChoice::Light => Theme::Light,
        ThemeChoice::System => system,
    }
}

/// Cycling through the choices comes back to the start after three steps,
/// and a fixed choice resolves to itself whatever the terminal suggests.
pub proof fn law_theme_cycle_and_resolution(c: ThemeChoice, s1: Theme, s2: Theme)
    ensures
        next_choice(next_choice(next_choice(c))) == c,
        next_choice(c) != c,
        c != ThemeChoice::System ==> resolved(c, s1) == resolved(c, s2),
{
}

} // verus!
