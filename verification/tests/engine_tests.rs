use media_offload::engine::{
    activity_entry, destination_path, finish_pass, log_action, progress_due, record_pass,
    transfer_files, SourceEntry, TransferPass,
};
use media_offload::ledger::{load_transferred_files, render_lines, save_transferred_files, Ledger};

fn entry(name: &str) -> SourceEntry {
    SourceEntry { name: String::from(name), path: format!("/src/{}", name) }
}

fn listing(names: &[&str]) -> Vec<SourceEntry> {
    names.iter().map(|n| entry(n)).collect()
}

fn jobs_of(pass: &TransferPass) -> Vec<(String, String)> {
    pass.jobs.iter().map(|j| (j.source.clone(), j.destination.clone())).collect()
}

fn pair(source: &str, destination: &str) -> (String, String) {
    (String::from(source), String::from(destination))
}

fn committed(ledger: &Ledger, pass: &TransferPass) -> Ledger {
    let mut content = render_lines(&ledger.paths());
    if let Some(record) = record_pass(pass, "now") {
        content.push_str(&render_lines(&record.ledger_lines));
    }
    load_transferred_files(&content)
}

#[test]
fn destination_path_joins_with_a_slash() {
    assert_eq!(destination_path("/dest", "a.jpg"), "/dest/a.jpg");
    assert_eq!(destination_path("", "a.jpg"), "/a.jpg");
    assert_eq!(destination_path("/dest/", "a.jpg"), "/dest//a.jpg");
}

#[test]
fn pass_copies_what_the_ledger_lacks() {
    let ledger = Ledger::new().insert(String::from("/dest/b.jpg"));
    let pass = transfer_files(&ledger, "/dest", &listing(&["a.jpg", "b.jpg", "c.mp4", "dir"]));
    assert_eq!(pass.count, 3);
    assert_eq!(
        jobs_of(&pass),
        vec![
            pair("/src/a.jpg", "/dest/a.jpg"),
            pair("/src/c.mp4", "/dest/c.mp4"),
            pair("/src/dir", "/dest/dir"),
        ]
    );
    assert_eq!(pass.new_files.len(), 3);
    assert!(pass.new_files.contains("/dest/a.jpg"));
    assert!(pass.new_files.contains("/dest/c.mp4"));
    assert!(pass.new_files.contains("/dest/dir"));
    assert!(!pass.new_files.contains("/dest/b.jpg"));
}

#[test]
fn second_pass_over_same_listing_copies_nothing() {
    let entries = listing(&["a.jpg", "b.jpg", "c.jpg"]);
    let ledger = Ledger::new();
    let first = transfer_files(&ledger, "/dest", &entries);
    assert_eq!(first.count, 3);
    let ledger = committed(&ledger, &first);
    let second = transfer_files(&ledger, "/dest", &entries);
    assert_eq!(second.count, 0);
    assert!(second.jobs.is_empty());
    assert_eq!(second.new_files.len(), 0);
    assert!(record_pass(&second, "now").is_none());
}

#[test]
fn ledger_does_not_shrink_over_passes() {
    let mut ledger = Ledger::new().insert(String::from("/dest/old.jpg"));
    let listings = [listing(&["a", "b"]), listing(&[]), listing(&["b", "c"]), listing(&["a"])];
    for entries in listings.iter() {
        let before = ledger.paths();
        let pass = transfer_files(&ledger, "/dest", entries);
        ledger = committed(&ledger, &pass);
        for path in before {
            assert!(ledger.contains(&path));
        }
    }
    assert_eq!(ledger.len(), 4);
}

#[test]
fn recorded_path_is_not_copied_again() {
    let ledger = Ledger::new().insert(String::from("/dest/a.jpg"));
    let pass = transfer_files(&ledger, "/dest", &listing(&["a.jpg"]));
    assert_eq!(pass.count, 0);
    assert!(pass.jobs.is_empty());
}

#[test]
fn same_name_from_another_source_is_a_duplicate() {
    let ledger = Ledger::new();
    let first = transfer_files(&ledger, "/dest", &listing(&["a.jpg"]));
    let ledger = committed(&ledger, &first);
    let other = vec![SourceEntry {
        name: String::from("a.jpg"),
        path: String::from("/other/session/a.jpg"),
    }];
    let second = transfer_files(&ledger, "/dest", &other);
    assert_eq!(second.count, 0);
    assert_eq!(ledger.len(), 1);
}

#[test]
fn same_name_within_a_listing_is_one_ledger_entry() {
    let entries = vec![
        SourceEntry { name: String::from("a.jpg"), path: String::from("/one/a.jpg") },
        SourceEntry { name: String::from("a.jpg"), path: String::from("/two/a.jpg") },
    ];
    let pass = transfer_files(&Ledger::new(), "/dest", &entries);
    assert_eq!(pass.new_files.len(), 1);
    assert_eq!(save_transferred_files(&pass.new_files), vec![String::from("/dest/a.jpg")]);
}

#[test]
fn empty_listing_copies_and_writes_nothing() {
    let ledger = Ledger::new().insert(String::from("/dest/a.jpg"));
    let pass = transfer_files(&ledger, "/dest", &Vec::new());
    assert_eq!(pass.count, 0);
    assert!(pass.jobs.is_empty());
    assert_eq!(pass.new_files.len(), 0);
    assert!(record_pass(&pass, "2024-01-01 10:00:00").is_none());
    assert!(finish_pass(&pass).is_none());
}

#[test]
fn pass_record_holds_new_lines_and_count() {
    let pass = transfer_files(&Ledger::new(), "/dest", &listing(&["a", "b"]));
    let record = record_pass(&pass, "2024-01-01 10:00:00 +02:00").unwrap();
    assert_eq!(record.ledger_lines, vec![String::from("/dest/a"), String::from("/dest/b")]);
    assert_eq!(record.log_line, "2024-01-01 10:00:00 +02:00 transferred files: 2");
}

#[test]
fn finished_pass_is_stamped() {
    let pass = transfer_files(&Ledger::new(), "/dest", &listing(&["a", "b", "c"]));
    let record = finish_pass(&pass).unwrap();
    assert_eq!(record.ledger_lines.len(), 3);
    assert!(record.log_line.ends_with(" transferred files: 3"));
    assert!(record.log_line.len() > " transferred files: 3".len());
}

#[test]
fn activity_entry_has_timestamp_and_count() {
    assert_eq!(activity_entry("T", 0), "T transferred files: 0");
    assert_eq!(activity_entry("2017-05-01 12:00:00", 120), "2017-05-01 12:00:00 transferred files: 120");
    assert_eq!(activity_entry("", 7), " transferred files: 7");
}

#[test]
fn log_action_ends_with_the_count() {
    let line = log_action(41);
    assert!(line.ends_with(" transferred files: 41"));
    assert!(line.len() > " transferred files: 41".len());
}

#[test]
fn progress_is_due_every_tenth_copy() {
    assert!(!progress_due(0));
    assert!(!progress_due(1));
    assert!(!progress_due(9));
    assert!(progress_due(10));
    assert!(!progress_due(11));
    assert!(progress_due(20));
    assert!(progress_due(1000));
}
