use speed_reader::doc::SectionStart;
use speed_reader::web::WebReader;

#[test]
fn markdown_reader_has_chapters_and_resumes() {
    let r = WebReader::new("# Title\n\nhello world\n\n## Next\n\nmore", Some(3));
    assert_eq!(r.index(), 3);
    assert_eq!(r.total(), 8);
    assert_eq!(r.chapters().len(), 2);
    assert_eq!(r.chapters()[1].title, "Next");
    assert_eq!(r.text(), "world");
    assert_eq!(r.kind(), "word");
    let far = WebReader::new("one two", Some(50));
    assert_eq!(far.index(), 1);
}

#[test]
fn cursor_moves_and_set_index_ignores_out_of_range() {
    let mut r = WebReader::from_text("a b c", None);
    assert!(r.chapters().is_empty());
    r.retreat();
    assert_eq!(r.index(), 0);
    r.advance();
    r.advance();
    r.advance();
    assert_eq!(r.index(), 2);
    assert!(r.at_end());
    r.set_index(1);
    assert_eq!(r.index(), 1);
    r.set_index(7);
    assert_eq!(r.index(), 1);
    assert_eq!(r.orp(), 0);
}

#[test]
fn play_toggles_and_restarts_from_the_end() {
    let mut r = WebReader::from_text("a b", Some(1));
    assert!(!r.is_playing());
    r.toggle_play();
    assert!(r.is_playing());
    assert_eq!(r.index(), 0);
    r.set_playing(false);
    assert!(!r.is_playing());
    let mut empty = WebReader::from_text("", None);
    empty.toggle_play();
    assert!(!empty.is_playing());
    assert_eq!(empty.text(), "");
    assert_eq!(empty.kind(), "word");
    assert_eq!(empty.image_url(), None);
}

#[test]
fn sections_given_with_plain_text_become_chapters() {
    let sections = vec![SectionStart { title: "Second".into(), level: 1, block_index: 1 }];
    let r = WebReader::from_text_with_sections("first\n\nsecond part", sections, None);
    assert_eq!(r.chapters().len(), 1);
    assert_eq!(r.chapters()[0].chunk_index, 1);
}

#[test]
fn images_report_their_url_and_kind() {
    let r = WebReader::new("![](pic.png)", None);
    assert_eq!(r.kind(), "image");
    assert_eq!(r.image_url(), Some("pic.png".to_string()));
}

#[test]
fn preset_default_speeds_by_name() {
    assert_eq!(WebReader::preset_default_wpm("study"), 220);
    assert_eq!(WebReader::preset_default_wpm("gentle"), 250);
    assert_eq!(WebReader::preset_default_wpm("nonsense"), 300);
}

#[test]
fn docx_bytes_that_are_not_a_zip_are_rejected() {
    assert!(WebReader::from_docx(b"not a zip", None).is_err());
}
