use compare_observer::file_entry::{CheckState, FileEntry};
use compare_observer::file_ops::{
    checked_paths, remove_entry, remove_paths, remove_unchecked, toggle_all, uncheck_paths,
    upsert_entry, upsert_watch_event,
};

fn entry(path: &str, status: &str, checked: bool) -> FileEntry {
    FileEntry {
        path: path.to_string(),
        status: status.to_string(),
        modified: "2024-01-01 00:00:00".to_string(),
        checked,
        content: None,
    }
}

fn paths(entries: &[FileEntry]) -> Vec<String> {
    entries.iter().map(|e| e.path.clone()).collect()
}

#[test]
fn new_entry_is_checked_without_baseline() {
    let e = FileEntry::new("a/b.txt", "Created");
    assert_eq!(e.path, "a/b.txt");
    assert_eq!(e.status, "Created");
    assert!(e.checked);
    assert!(e.content.is_none());
    // "YYYY-MM-DD HH:MM:SS"
    assert_eq!(e.modified.len(), 19);
    assert_eq!(&e.modified[4..5], "-");
    assert_eq!(&e.modified[13..14], ":");
}

#[test]
fn check_state_of_empty_table_is_unchecked() {
    assert_eq!(CheckState::from_entries(&[]), CheckState::Unchecked);
}

#[test]
fn check_state_all_none_some() {
    let all = vec![entry("a", "Modified", true), entry("b", "Modified", true)];
    let none = vec![entry("a", "Modified", false), entry("b", "Modified", false)];
    let some = vec![entry("a", "Modified", true), entry("b", "Modified", false)];
    assert_eq!(CheckState::from_entries(&all), CheckState::Checked);
    assert_eq!(CheckState::from_entries(&none), CheckState::Unchecked);
    assert_eq!(CheckState::from_entries(&some), CheckState::Indeterminate);
}

#[test]
fn upsert_adds_then_refreshes() {
    let mut t = Vec::new();
    upsert_entry(&mut t, "x.txt", "Created");
    assert_eq!(t.len(), 1);
    assert_eq!(t[0].status, "Created");
    t[0].checked = false;
    upsert_entry(&mut t, "x.txt", "Modified");
    assert_eq!(t.len(), 1);
    assert_eq!(t[0].status, "Modified");
    // refreshing keeps the checkbox as it was
    assert!(!t[0].checked);
    upsert_entry(&mut t, "y.txt", "Modified");
    assert_eq!(paths(&t), vec!["x.txt", "y.txt"]);
}

#[test]
fn upsert_refreshes_only_first_match() {
    let mut t = vec![entry("a", "Created", true), entry("a", "Created", true)];
    upsert_entry(&mut t, "a", "Deleted");
    assert_eq!(t[0].status, "Deleted");
    assert_eq!(t[1].status, "Created");
    assert_eq!(t[1].modified, "2024-01-01 00:00:00");
}

#[test]
fn watch_event_keeps_created_status() {
    let mut t = Vec::new();
    upsert_watch_event(&mut t, "n.rs", "Created", None);
    upsert_watch_event(&mut t, "n.rs", "Modified", Some("old".to_string()));
    assert_eq!(t.len(), 1);
    assert_eq!(t[0].status, "Created");
    assert!(t[0].content.is_none());
}

#[test]
fn watch_event_baseline_set_only_on_new_entries() {
    let mut t = Vec::new();
    upsert_watch_event(&mut t, "m.rs", "Modified", Some("first".to_string()));
    upsert_watch_event(&mut t, "m.rs", "Modified", Some("second".to_string()));
    assert_eq!(t.len(), 1);
    assert_eq!(t[0].content.as_deref(), Some("first"));
    assert_eq!(t[0].status, "Modified");
}

#[test]
fn remove_entry_removes_every_match_and_keeps_order() {
    let mut t = vec![
        entry("a", "Modified", true),
        entry("b", "Modified", true),
        entry("a", "Created", false),
        entry("c", "Modified", false),
    ];
    remove_entry(&mut t, "a");
    assert_eq!(paths(&t), vec!["b", "c"]);
    remove_entry(&mut t, "zzz");
    assert_eq!(paths(&t), vec!["b", "c"]);
}

#[test]
fn checked_paths_in_table_order() {
    let t = vec![
        entry("a", "Modified", true),
        entry("b", "Modified", false),
        entry("c", "Modified", true),
    ];
    assert_eq!(checked_paths(&t), vec!["a".to_string(), "c".to_string()]);
    assert!(checked_paths(&[]).is_empty());
}

#[test]
fn uncheck_then_checked_paths_excludes_them() {
    let mut t = vec![
        entry("a", "Modified", true),
        entry("b", "Modified", true),
        entry("c", "Modified", false),
    ];
    uncheck_paths(&mut t, &["a".to_string(), "c".to_string(), "q".to_string()]);
    assert!(!t[0].checked);
    assert!(t[1].checked);
    assert!(!t[2].checked);
    assert_eq!(checked_paths(&t), vec!["b".to_string()]);
    assert_eq!(t.len(), 3);
}

#[test]
fn remove_unchecked_returns_removed_paths() {
    let mut t = vec![
        entry("a", "Modified", false),
        entry("b", "Modified", true),
        entry("c", "Modified", false),
        entry("d", "Modified", true),
    ];
    let before_checked = checked_paths(&t);
    let removed = remove_unchecked(&mut t);
    assert_eq!(removed, vec!["a".to_string(), "c".to_string()]);
    assert_eq!(paths(&t), vec!["b", "d"]);
    assert_eq!(checked_paths(&t), before_checked);
    assert_eq!(CheckState::from_entries(&t), CheckState::Checked);
    assert_eq!(removed.len() + t.len(), 4);
}

#[test]
fn remove_paths_drops_assigned_files() {
    let mut t = vec![
        entry("a", "Modified", true),
        entry("b", "Modified", true),
        entry("c", "Modified", true),
    ];
    remove_paths(&mut t, &["c".to_string(), "a".to_string()]);
    assert_eq!(paths(&t), vec!["b"]);
}

#[test]
fn toggle_all_flips_header() {
    let mut t = vec![entry("a", "Modified", true), entry("b", "Modified", false)];
    toggle_all(&mut t);
    assert_eq!(CheckState::from_entries(&t), CheckState::Checked);
    toggle_all(&mut t);
    assert_eq!(CheckState::from_entries(&t), CheckState::Unchecked);
    toggle_all(&mut t);
    assert_eq!(CheckState::from_entries(&t), CheckState::Checked);
}

#[test]
fn table_operations_keep_paths_unique() {
    let mut t = Vec::new();
    for (p, s) in [("a", "Created"), ("b", "Modified"), ("a", "Modified"), ("c", "Created"), ("b", "Deleted")] {
        upsert_entry(&mut t, p, s);
        upsert_watch_event(&mut t, p, s, None);
    }
    let mut ps = paths(&t);
    assert_eq!(ps, vec!["a", "b", "c"]);
    ps.dedup();
    assert_eq!(ps.len(), 3);
    remove_entry(&mut t, "b");
    assert_eq!(paths(&t), vec!["a", "c"]);
}
