use dotl::errors::{BackupError, RestoreError};
use dotl::store::MemStore;
use dotl::task::{DueDate, Task};

fn task(description: &str, urgent: bool, due_date: Option<DueDate>) -> Task {
    Task { description: description.to_string(), urgent, due_date }
}

fn same_tasks(a: &[Task], b: &[Task]) -> bool {
    a.len() == b.len()
        && a.iter().zip(b.iter()).all(|(x, y)| {
            x.description == y.description && x.urgent == y.urgent && x.due_date == y.due_date
        })
}

#[test]
fn save_then_load_round_trip() {
    let mut store = MemStore::new();
    let tasks = vec![
        task("Buy milk", true, None),
        task("Pay rent", false, Some(DueDate { year: 2025, month: 3, day: 1, hour: 9, minute: 0 })),
    ];
    store.save(&tasks).expect("in-memory save succeeds");
    let back = store.load();
    assert!(same_tasks(&tasks, &back));
}

#[test]
fn load_on_missing_store_is_empty_every_time() {
    let store = MemStore::new();
    assert!(store.load().is_empty());
    assert!(store.load().is_empty());
    assert!(store.file.is_none(), "loading must not create the store file");
}

#[test]
fn load_on_corrupt_store_is_empty() {
    let store = MemStore { file: Some("{{ this is not a task list".to_string()), backups: Vec::new() };
    assert!(store.load().is_empty());
    let store2 = MemStore { file: Some("".to_string()), backups: Vec::new() };
    assert!(store2.load().is_empty());
}

#[test]
fn backup_without_store_file_fails_and_creates_nothing() {
    let mut store = MemStore::new();
    let r = store.backup("20250301090000");
    assert_eq!(r, Err(BackupError::SourceMissing));
    assert!(store.backups.is_empty());
    assert!(store.file.is_none());
}

#[test]
fn backup_name_embeds_timestamp() {
    let mut store = MemStore::new();
    store.save(&vec![task("a", false, None)]).unwrap();
    let name = store.backup("20250301090000").expect("backup of existing store succeeds");
    assert_eq!(name, "dotl_tasks_backup20250301090000.json");
}

#[test]
fn backup_then_mutate_then_restore_round_trip() {
    let mut store = MemStore::new();
    let original = vec![
        task("Buy milk", true, None),
        task("Pay rent", false, Some(DueDate { year: 2025, month: 3, day: 1, hour: 9, minute: 0 })),
    ];
    store.save(&original).unwrap();
    let name = store.backup("20250301090000").expect("backup succeeds");
    store.save(&vec![task("something else", false, None)]).unwrap();
    store.restore(&name).expect("restore from known backup succeeds");
    let back = store.load();
    assert!(same_tasks(&original, &back));
    assert_eq!(store.backups.len(), 1, "restore leaves the backup untouched");
    assert_eq!(store.backups[0].name, name);
}

#[test]
fn restore_from_unknown_backup_fails_and_changes_nothing() {
    let mut store = MemStore::new();
    store.save(&vec![task("keep me", false, None)]).unwrap();
    let r = store.restore("dotl_tasks_backup19990101000000.json");
    assert_eq!(r, Err(RestoreError::SourceMissing));
    let back = store.load();
    assert_eq!(back.len(), 1);
    assert_eq!(back[0].description, "keep me");
}

#[test]
fn restore_does_not_validate_backup_content() {
    let mut store = MemStore { file: Some("corrupt content".to_string()), backups: Vec::new() };
    let name = store.backup("20250301090000").expect("backup copies bytes, valid or not");
    store.save(&vec![task("fresh", false, None)]).unwrap();
    store.restore(&name).expect("restore copies bytes back");
    assert_eq!(store.file.as_deref(), Some("corrupt content"));
    assert!(store.load().is_empty(), "the next load tolerates the corrupt store");
}

#[test]
fn backup_last_writer_wins_on_equal_stamps() {
    let mut store = MemStore::new();
    store.save(&vec![task("first", false, None)]).unwrap();
    let name = store.backup("20250301090000").unwrap();
    store.save(&vec![task("second", false, None)]).unwrap();
    let name2 = store.backup("20250301090000").unwrap();
    assert_eq!(name, name2);
    store.save(&vec![task("third", false, None)]).unwrap();
    store.restore(&name).unwrap();
    let back = store.load();
    assert_eq!(back.len(), 1);
    assert_eq!(back[0].description, "second");
}

#[test]
fn load_accepts_a_compact_json_store() {
    let store = MemStore {
        file: Some("[{\"description\":\"x\",\"urgent\":false}]".to_string()),
        backups: Vec::new(),
    };
    let tasks = store.load();
    assert_eq!(tasks.len(), 1);
    assert_eq!(tasks[0].description, "x");
    assert!(!tasks[0].urgent);
    assert_eq!(tasks[0].due_date, None);
}
