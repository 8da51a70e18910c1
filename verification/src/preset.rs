//! Reading presets: named pacing profiles with a default speed and per-kind
//! slow-downs.

use vstd::prelude::*;
use crate::chars::{chars_of, same_chars};
use crate::reader::ChunkKind;

verus! {

/// A pacing profile.
#[derive(Copy, Clone, Debug, PartialEq, Eq, Structural)]
pub enum Preset {
    Gentle,
    Standard,
    Technical,
    Study,
}

/// The name of a preset, as shown and as parsed.
pub open spec fn preset_name(p: Preset) -> Seq<char> {
    match p {
        Preset::Gentle => seq!['g', 'e', 'n', 't', 'l', 'e'],
        Preset::Standard => seq!['s', 't', 'a', 'n', 'd', 'a', 'r', 'd'],
        Preset::Technical => seq!['t', 'e', 'c', 'h', 'n', 'i', 'c', 'a', 'l'],
        Preset::Study => seq!['s', 't', 'u', 'd', 'y'],
    }
}

/// The preset that follows `p` in the rotation gentle, standard, technical,
/// study.
pub open spec fn next_preset(p: Preset) -> Preset {
    match p {
        Preset::Gentle => Preset::Standard,
        Preset::Standard => Preset::Technical,
        Preset::Technical => Preset::Study,
        Preset::Study => Preset::Gentle,
    }
}

/// The preset whose name is exactly `s`, if any.
pub open spec fn preset_named(s: Seq<char>) -> Option<Preset> {
    if s == preset_name(Preset::Gentle) {
        Some(Preset::Gentle)
    } else if s == preset_name(Preset::Standard) {
        Some(Preset::Standard)
    } else if s == preset_name(Preset::Technical) {
        Some(Preset::Technical)
    } else if s == preset_name(Preset::Study) {
        Some(Preset::Study)
    } else {
        None
    }
}

/// Words per minute a preset starts at.
pub open spec fn preset_wpm(p: Preset) -> u32 {
    match p {
        Preset::Gentle => 250,
        Preset::Standard => 300,
        Preset::Technical => 240,
        Preset::Study => 220,
    }
}

/// How much longer (in percent of the plain duration) a preset shows each
/// kind of chunk.
pub open spec fn preset_multiplier_percent(p: Preset, kind: ChunkKind) -> u32 {
    match p {
        Preset::Gentle => match kind {
            ChunkKind::Heading => 115,
            ChunkKind::Code | ChunkKind::Table => 115,
            ChunkKind::Paragraph => 125,
            _ => 108,
        },
        Preset::Standard => 100,
        Preset::Technical => match kind {
            ChunkKind::Heading => 110,
            ChunkKind::Code | ChunkKind::Table => 135,
            ChunkKind::Paragraph => 120,
            _ => 100,
        },
        Preset::Study => match kind {
            ChunkKind::Heading => 120,
            ChunkKind::Code | ChunkKind::Table => 125,
            ChunkKind::Paragraph => 135,
            _ => 112,
        },
    }
}

impl Preset {
    /// The next preset in the rotation.
    pub fn cycle(self) -> (r: Self)
        ensures
            r == next_preset(self),
    {
        match self {
            Preset::Gentle => Preset::Standard,
            Preset::Standard => Preset::Technical,
            Preset::Technical => Preset::Study,
            Preset::Study => Preset::Gentle,
        }
    }

    /// The preset's name.
    pub fn label(self) -> (r: &'static str)
        ensures
            r@ == preset_name(self),
    {
        match self {
            Preset::Gentle => {
                proof {
                    reveal_strlit("gentle");
                }
                "gentle"
            },
            Preset::Standard => {
                proof {
                    reveal_strlit("standard");
                }
                "standard"
            },
            Preset::Technical => {
                proof {
                    reveal_strlit("technical");
                }
                "technical"
            },
            Preset::Study => {
                proof {
                    reveal_strlit("study");
                }
                "study"
            },
        }
    }

    /// The speed the preset starts at, in words per minute.
    pub fn default_wpm(self) -> (r: u32)
        ensures
            r == preset_wpm(self),
    {
        match self {
            Preset::Gentle => 250,
            Preset::Standard => 300,
            Preset::Technical => 240,
            Preset::Study => 220,
        }
    }

    /// The preset's slow-down for a kind of chunk, in percent.
    pub fn chunk_multiplier_percent(self, kind: ChunkKind) -> (r: u32)
        ensures
            r == preset_multiplier_percent(self, kind),
    {
        match self {
            Preset::Gentle => match kind {
                ChunkKind::Heading => 115,
                ChunkKind::Code | ChunkKind::Table => 115,
                ChunkKind::Paragraph => 125,
                _ => 108,
            },
            Preset::Standard => 100,
            Preset::Technical => match kind {
                ChunkKind::Heading => 110,
                ChunkKind::Code | ChunkKind::Table => 135,
                ChunkKind::Paragraph => 120,
                _ => 100,
            },
            Preset::Study => match kind {
                ChunkKind::Heading => 120,
                ChunkKind::Code | ChunkKind::Table => 125,
                ChunkKind::Paragraph => 135,
                _ => 112,
            },
        }
    }

    /// The preset named exactly `s`; an error for any other string.
    pub fn from_label(s: &str) -> (r: Result<Preset, ()>)
        ensures
            match preset_named(s@) {
                Some(p) => r == Ok::<Preset, ()>(p),
                None => r is Err,
            },
    {
        let cs = chars_of(s);
        let gentle = ['g', 'e', 'n', 't', 'l', 'e'];
        let standard = ['s', 't', 'a', 'n', 'd', 'a', 'r', 'd'];
        let technical = ['t', 'e', 'c', 'h', 'n', 'i', 'c', 'a', 'l'];
        let study = ['s', 't', 'u', 'd', 'y'];
        assert(gentle@ =~= preset_name(Preset::Gentle));
        assert(standard@ =~= preset_name(Preset::Standard));
        assert(technical@ =~= preset_name(Preset::Technical));
        assert(study@ =~= preset_name(Preset::Study));
        if same_chars(cs.as_slice(), gentle.as_slice()) {
            Ok(Preset::Gentle)
        } else if same_chars(cs.as_slice(), standard.as_slice()) {
            Ok(Preset::Standard)
        } else if same_chars(cs.as_slice(), technical.as_slice()) {
            Ok(Preset::Technical)
        } else if same_chars(cs.as_slice(), study.as_slice()) {
            Ok(Preset::Study)
        } else {
            Err(())
        }
    }
}

impl std::str::FromStr for Preset {
    type Err = ();

    fn from_str(s: &str) -> (r: Result<Self, ()>)
        ensures
            match preset_named(s@) {
                Some(p) => r == Ok::<Preset, ()>(p),
                None => r is Err,
            },
    {
        Preset::from_label(s)
    }
}

/// Cycling through the presets comes back to the start after four steps.
pub proof fn law_preset_cycle_has_period_four(p: Preset)
    ensures
        next_preset(next_preset(next_preset(next_preset(p)))) == p,
        next_preset(p) != p,
{
}

/// A preset's name parses back to that preset, and different presets have
/// different names.
pub proof fn law_preset_label_round_trip(p: Preset, q: Preset)
    ensures
        preset_named(preset_name(p)) == Some(p),
        preset_name(p) == preset_name(q) ==> p == q,
{
    assert(preset_name(Preset::Gentle) != preset_name(Preset::Standard));
    assert(preset_name(Preset::Gentle) != preset_name(Preset::Technical));
    assert(preset_name(Preset::Gentle) != preset_name(Preset::Study));
    assert(preset_name(Preset::Standard) != preset_name(Preset::Technical));
    assert(preset_name(Preset::Standard)[1] != preset_name(Preset::Study)[2]
        || preset_name(Preset::Standard).len() != preset_name(Preset::Study).len());
    assert(preset_name(Preset::Technical) != preset_name(Preset::Study));
}

} // verus!
