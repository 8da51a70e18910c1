use speed_reader::preset::Preset;
use speed_reader::reader::ChunkKind;
use speed_reader::theme::{resolve, Theme, ThemeChoice};

#[test]
fn parse_known_presets() {
    assert_eq!("gentle".parse::<Preset>(), Ok(Preset::Gentle));
    assert_eq!("standard".parse::<Preset>(), Ok(Preset::Standard));
    assert_eq!("technical".parse::<Preset>(), Ok(Preset::Technical));
    assert_eq!("study".parse::<Preset>(), Ok(Preset::Study));
    assert!("unknown".parse::<Preset>().is_err());
}

#[test]
fn preset_labels_round_trip_and_cycle() {
    let mut p = Preset::Gentle;
    for _ in 0..4 {
        assert_eq!(p.label().parse::<Preset>(), Ok(p));
        p = p.cycle();
    }
    assert_eq!(p, Preset::Gentle);
    assert_eq!(Preset::Gentle.cycle(), Preset::Standard);
}

#[test]
fn preset_default_speeds_and_multipliers() {
    assert_eq!(Preset::Gentle.default_wpm(), 250);
    assert_eq!(Preset::Standard.default_wpm(), 300);
    assert_eq!(Preset::Technical.default_wpm(), 240);
    assert_eq!(Preset::Study.default_wpm(), 220);
    assert_eq!(Preset::Technical.chunk_multiplier_percent(ChunkKind::Code), 135);
    assert_eq!(Preset::Study.chunk_multiplier_percent(ChunkKind::Word), 112);
    assert_eq!(Preset::Standard.chunk_multiplier_percent(ChunkKind::Heading), 100);
}

#[test]
fn cycle_rotates_dark_light_system() {
    assert_eq!(ThemeChoice::Dark.cycle(), ThemeChoice::Light);
    assert_eq!(ThemeChoice::Light.cycle(), ThemeChoice::System);
    assert_eq!(ThemeChoice::System.cycle(), ThemeChoice::Dark);
}

#[test]
fn label_matches_variant() {
    assert_eq!(ThemeChoice::Dark.label(), "dark");
    assert_eq!(ThemeChoice::Light.label(), "light");
    assert_eq!(ThemeChoice::System.label(), "system");
}

#[test]
fn resolve_fixed_choices_bypass_detection() {
    assert_eq!(resolve(ThemeChoice::Dark, Theme::Light), Theme::Dark);
    assert_eq!(resolve(ThemeChoice::Light, Theme::Dark), Theme::Light);
}

#[test]
fn resolve_system_takes_the_detected_theme() {
    assert_eq!(resolve(ThemeChoice::System, Theme::Light), Theme::Light);
    assert_eq!(resolve(ThemeChoice::System, Theme::Dark), Theme::Dark);
}
