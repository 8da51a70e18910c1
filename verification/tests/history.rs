use speed_reader::history::{promote_recent_path, RecentFile};

fn list(items: &[&str]) -> Vec<String> {
    items.iter().map(|s| s.to_string()).collect()
}

#[test]
fn opened_file_moves_to_the_front() {
    let mut recent = list(&["a", "b", "c"]);
    promote_recent_path(&mut recent, "c".to_string());
    assert_eq!(recent, list(&["c", "a", "b"]));
    promote_recent_path(&mut recent, "d".to_string());
    assert_eq!(recent, list(&["d", "c", "a", "b"]));
}

#[test]
fn promoting_twice_is_promoting_once() {
    let mut recent = list(&["a", "b"]);
    promote_recent_path(&mut recent, "b".to_string());
    let once = recent.clone();
    promote_recent_path(&mut recent, "b".to_string());
    assert_eq!(recent, once);
}

#[test]
fn recent_list_keeps_twelve_entries() {
    let names: Vec<String> = (0..12).map(|i| format!("f{}", i)).collect();
    let mut recent = names.clone();
    promote_recent_path(&mut recent, "new".to_string());
    assert_eq!(recent.len(), 12);
    assert_eq!(recent[0], "new");
    assert_eq!(recent[11], "f10");
    assert!(!recent.contains(&"f11".to_string()));
}

#[test]
fn duplicates_of_the_key_are_removed() {
    let mut recent = list(&["x", "a", "x"]);
    promote_recent_path(&mut recent, "x".to_string());
    assert_eq!(recent, list(&["x", "a"]));
}

#[test]
fn recent_file_names_and_folders() {
    let f = RecentFile { path: "/home/reader/books/novel.md".to_string(), index: 42 };
    assert_eq!(f.file_name(), "novel.md");
    assert_eq!(f.parent_display(), "/home/reader/books");
    let root = RecentFile { path: "/".to_string(), index: 0 };
    assert_eq!(root.file_name(), "?");
    assert_eq!(root.parent_display(), "\u{2014}");
}
