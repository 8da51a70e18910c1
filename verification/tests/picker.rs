use speed_reader::picker::{ChapterPicker, FilePicker, PickerEntry};
use speed_reader::reader::ChapterTarget;

fn chapter(title: &str, at: usize) -> ChapterTarget {
    ChapterTarget { title: title.to_string(), level: 1, chunk_index: at }
}

#[test]
fn chapter_picker_matches_case_insensitively() {
    let chapters = vec![chapter("Getting Started", 0), chapter("Advanced Use", 10), chapter("Appendix", 20)];
    let mut p = ChapterPicker::new();
    p.reset(chapters.len());
    assert_eq!(p.filtered, vec![0, 1, 2]);
    p.type_char('A', &chapters);
    assert_eq!(p.filtered, vec![0, 1, 2]);
    p.type_char('P', &chapters);
    assert_eq!(p.filtered, vec![2]);
    assert_eq!(p.selected_target(&chapters).unwrap().chunk_index, 20);
    p.backspace(&chapters);
    p.backspace(&chapters);
    assert_eq!(p.filtered, vec![0, 1, 2]);
}

#[test]
fn picker_rows_stop_at_the_ends() {
    let chapters = vec![chapter("one", 0), chapter("two", 5)];
    let mut p = ChapterPicker::new();
    p.reset(2);
    p.move_up();
    assert_eq!(p.selected, 0);
    p.move_down();
    p.move_down();
    assert_eq!(p.selected, 1);
    assert_eq!(p.selected_target(&chapters).unwrap().title, "two");
    p.query = "zzz".to_string();
    p.refilter(&chapters);
    assert!(p.filtered.is_empty());
    assert!(p.selected_target(&chapters).is_none());
}

#[test]
fn file_picker_keeps_the_parent_entry_visible() {
    let mut p = FilePicker::new();
    p.set_entries(vec![
        PickerEntry { name: Some("home".into()), is_parent: true, is_dir: true },
        PickerEntry { name: Some("Report.PDF".into()), is_parent: false, is_dir: false },
        PickerEntry { name: None, is_parent: false, is_dir: false },
    ]);
    assert_eq!(p.filtered, vec![0, 1, 2]);
    p.type_char('r');
    assert_eq!(p.filtered, vec![0, 1]);
    assert!(p.is_parent(0));
    assert!(!p.is_parent(1));
    assert!(!p.is_parent(7));
    p.move_down();
    assert_eq!(p.selected_path(), Some(1));
    p.type_char('x');
    assert_eq!(p.filtered, vec![0]);
    assert_eq!(p.selected, 0);
}

fn listed(name: &str, is_dir: bool) -> PickerEntry {
    PickerEntry { name: Some(name.to_string()), is_parent: false, is_dir }
}

#[test]
fn listing_puts_directories_first_then_names_and_hides_dotfiles() {
    let entries = vec![
        listed("zeta.md", false),
        listed(".hidden", true),
        listed("alpha", true),
        PickerEntry { name: None, is_parent: false, is_dir: false },
        listed("Beta.txt", false),
        listed("beta", true),
    ];
    assert_eq!(speed_reader::picker::listing_order(&entries), vec![2, 5, 4, 0]);
    assert!(speed_reader::picker::listing_order(&[]).is_empty());
}
