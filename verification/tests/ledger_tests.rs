use media_offload::ledger::{
    ledger_of_lines, load_transferred_files, read_lines, render_lines, save_transferred_files,
    Ledger,
};

fn lines(items: &[&str]) -> Vec<String> {
    items.iter().map(|s| String::from(*s)).collect()
}

#[test]
fn new_ledger_is_empty() {
    let ledger = Ledger::new();
    assert_eq!(ledger.len(), 0);
    assert!(!ledger.contains("/dest/a.jpg"));
    assert!(ledger.paths().is_empty());
}

#[test]
fn insert_records_a_path_once() {
    let ledger = Ledger::new()
        .insert(String::from("/dest/a.jpg"))
        .insert(String::from("/dest/b.jpg"))
        .insert(String::from("/dest/a.jpg"));
    assert_eq!(ledger.len(), 2);
    assert!(ledger.contains("/dest/a.jpg"));
    assert!(ledger.contains("/dest/b.jpg"));
    assert!(!ledger.contains("/dest/c.jpg"));
    assert_eq!(ledger.paths(), lines(&["/dest/a.jpg", "/dest/b.jpg"]));
}

#[test]
fn read_lines_follows_line_feeds() {
    assert_eq!(read_lines("/d/a\n/d/b\n"), lines(&["/d/a", "/d/b"]));
    assert_eq!(read_lines("/d/a\n/d/b"), lines(&["/d/a", "/d/b"]));
    assert_eq!(read_lines(""), Vec::<String>::new());
    assert_eq!(read_lines("\n"), lines(&[""]));
    assert_eq!(read_lines("a\n\nb\n"), lines(&["a", "", "b"]));
}

#[test]
fn read_lines_drops_carriage_return_before_line_feed() {
    assert_eq!(read_lines("/d/a\r\n/d/b\r\n"), lines(&["/d/a", "/d/b"]));
    assert_eq!(read_lines("/d/a\r\r\n"), lines(&["/d/a\r"]));
    assert_eq!(read_lines("/d/a\r"), lines(&["/d/a\r"]));
    assert_eq!(read_lines("a\rb\n"), lines(&["a\rb"]));
}

#[test]
fn load_collapses_duplicate_lines() {
    let ledger = load_transferred_files("/d/a\n/d/b\n/d/a\n/d/a\n");
    assert_eq!(ledger.len(), 2);
    assert!(ledger.contains("/d/a"));
    assert!(ledger.contains("/d/b"));
    assert_eq!(ledger.paths(), lines(&["/d/a", "/d/b"]));
}

#[test]
fn load_of_empty_file_is_empty() {
    let ledger = load_transferred_files("");
    assert_eq!(ledger.len(), 0);
}

#[test]
fn load_takes_lines_as_they_stand() {
    let ledger = load_transferred_files("  odd line \n\n/d/a\n");
    assert_eq!(ledger.len(), 3);
    assert!(ledger.contains("  odd line "));
    assert!(ledger.contains(""));
    assert!(!ledger.contains("odd line"));
}

#[test]
fn ledger_of_lines_collapses_duplicates() {
    let ledger = ledger_of_lines(&lines(&["/d/a", "/d/b", "/d/a"]));
    assert_eq!(ledger.len(), 2);
    assert!(ledger.contains("/d/a"));
    assert!(ledger.contains("/d/b"));
    assert_eq!(ledger_of_lines(&Vec::new()).len(), 0);
}

#[test]
fn save_gives_each_path_as_a_line() {
    let ledger = Ledger::new().insert(String::from("/d/b")).insert(String::from("/d/a"));
    assert_eq!(save_transferred_files(&ledger), lines(&["/d/b", "/d/a"]));
    assert!(save_transferred_files(&Ledger::new()).is_empty());
}

#[test]
fn render_lines_ends_each_line() {
    assert_eq!(render_lines(&lines(&["/d/a", "/d/b"])), "/d/a\n/d/b\n");
    assert_eq!(render_lines(&Vec::new()), "");
    assert_eq!(render_lines(&lines(&[""])), "\n");
}

#[test]
fn appended_lines_are_read_back_behind_the_old() {
    let mut content = String::from("/d/a\n/d/b\n");
    let new_files = Ledger::new().insert(String::from("/d/c")).insert(String::from("/d/d"));
    content.push_str(&render_lines(&save_transferred_files(&new_files)));
    assert_eq!(content, "/d/a\n/d/b\n/d/c\n/d/d\n");
    assert_eq!(read_lines(&content), lines(&["/d/a", "/d/b", "/d/c", "/d/d"]));
}

#[test]
fn ledger_grows_when_lines_are_appended() {
    let mut content = String::from("/d/a\n/d/b\n");
    let before = load_transferred_files(&content);
    let new_files = Ledger::new().insert(String::from("/d/c"));
    content.push_str(&render_lines(&save_transferred_files(&new_files)));
    let after = load_transferred_files(&content);
    for path in before.paths() {
        assert!(after.contains(&path));
    }
    assert!(after.contains("/d/c"));
    assert_eq!(after.len(), 3);
}

#[test]
fn read_lines_handles_text_beyond_ascii() {
    assert_eq!(read_lines("/d/é.jpg\r\n/d/日本.jpg\n"), lines(&["/d/é.jpg", "/d/日本.jpg"]));
}

#[test]
fn large_ledger_is_loaded_and_consulted() {
    let mut content = String::new();
    for i in 0..2000u32 {
        content.push_str(&format!("/dest/IMG_{}.jpg\n", i));
    }
    let ledger = load_transferred_files(&content);
    assert_eq!(ledger.len(), 2000);
    assert!(ledger.contains("/dest/IMG_0.jpg"));
    assert!(ledger.contains("/dest/IMG_1999.jpg"));
    assert!(!ledger.contains("/dest/IMG_2000.jpg"));
}
