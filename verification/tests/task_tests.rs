use dotl::locator::{backup_file_name, sibling_path};
use dotl::task::{display_line, due_display, due_text, export_fields, parse_due, remove_task};
use dotl::task::{DueDate, Task};

fn task(description: &str, urgent: bool, due_date: Option<DueDate>) -> Task {
    Task { description: description.to_string(), urgent, due_date }
}

fn due(year: u32, month: u32, day: u32, hour: u32, minute: u32) -> DueDate {
    DueDate { year, month, day, hour, minute }
}

#[test]
fn parse_due_accepts_exact_format() {
    assert_eq!(parse_due("2025-03-01 09:00"), Some(due(2025, 3, 1, 9, 0)));
    assert_eq!(parse_due("1999-12-31 23:59"), Some(due(1999, 12, 31, 23, 59)));
    assert_eq!(parse_due("2024-02-29 00:00"), Some(due(2024, 2, 29, 0, 0)));
    assert_eq!(parse_due("2000-02-29 12:30"), Some(due(2000, 2, 29, 12, 30)));
}

#[test]
fn parse_due_rejects_other_shapes_and_impossible_dates() {
    for bad in [
        "",
        "tomorrow",
        "2025-3-01 09:00",
        "2025-03-01T09:00",
        "2025-03-01 09:00:00",
        "2025-13-01 09:00",
        "2025-00-10 09:00",
        "2025-02-30 09:00",
        "2023-02-29 09:00",
        "1900-02-29 09:00",
        "2025-04-31 09:00",
        "2025-03-00 09:00",
        "2025-03-01 24:00",
        "2025-03-01 09:60",
    ] {
        assert_eq!(parse_due(bad), None, "input: {bad}");
    }
}

#[test]
fn due_renderings() {
    let d = due(2025, 3, 1, 9, 0);
    assert_eq!(due_text(&d), "2025-03-01 09:00");
    assert_eq!(due_display(&d), "2025-03-01 @ 09:00");
}

#[test]
fn remove_rejects_zero_and_past_end_without_mutating() {
    let mut tasks = vec![task("a", false, None), task("b", true, None), task("c", false, None)];
    assert!(remove_task(&mut tasks, 0).is_none());
    assert_eq!(tasks.len(), 3);
    assert!(remove_task(&mut tasks, 4).is_none());
    assert_eq!(tasks.len(), 3);
    assert_eq!(tasks[0].description, "a");
    assert_eq!(tasks[1].description, "b");
    assert_eq!(tasks[2].description, "c");
}

#[test]
fn remove_takes_the_one_based_index_and_shifts() {
    let mut tasks = vec![task("a", false, None), task("b", true, None), task("c", false, None)];
    let removed = remove_task(&mut tasks, 2).expect("index 2 of three is valid");
    assert_eq!(removed.description, "b");
    assert_eq!(tasks.len(), 2);
    assert_eq!(tasks[0].description, "a");
    assert_eq!(tasks[1].description, "c");
}

#[test]
fn list_line_for_added_urgent_task() {
    let t = task("Buy milk", true, None);
    assert_eq!(display_line(1, &t), "1: Buy milk [URGENT]");
}

#[test]
fn list_line_with_due_date() {
    let t = task("Call", false, Some(due(2025, 3, 1, 9, 0)));
    assert_eq!(display_line(2, &t), "2: Call  [Due: 2025-03-01 @ 09:00]");
}

#[test]
fn export_row_for_due_task() {
    let t = task("Pay rent", false, Some(due(2025, 3, 1, 9, 0)));
    let (d, u, w) = export_fields(&t);
    assert_eq!(d, "Pay rent");
    assert_eq!(u, "false");
    assert_eq!(w, "2025-03-01 09:00");
    assert_eq!(format!("{d},{u},{w}"), "Pay rent,false,2025-03-01 09:00");
}

#[test]
fn export_row_without_due_date_is_empty_text() {
    let t = task("Buy milk", true, None);
    let (d, u, w) = export_fields(&t);
    assert_eq!(d, "Buy milk");
    assert_eq!(u, "true");
    assert_eq!(w, "");
}

#[test]
fn backup_names_and_sibling_paths() {
    assert_eq!(backup_file_name("20250301090000"), "dotl_tasks_backup20250301090000.json");
    assert_eq!(
        sibling_path("/home/u/.config/dotl/dotl_tasks.json", "dotl_tasks_backup20250301090000.json"),
        "/home/u/.config/dotl/dotl_tasks_backup20250301090000.json"
    );
    assert_eq!(sibling_path("plain.json", "other.json"), "other.json");
}

#[test]
fn backup_target_sits_beside_the_store_under_a_stamped_name() {
    let target = dotl::locator::backup_target("/home/u/.config/dotl/dotl_tasks.json");
    let name = target.strip_prefix("/home/u/.config/dotl/").expect("same directory as the store");
    let stamp = name
        .strip_prefix("dotl_tasks_backup")
        .and_then(|rest| rest.strip_suffix(".json"))
        .expect("backup file name embeds a timestamp");
    assert!(stamp.len() >= 14);
}

#[test]
fn store_path_when_resolvable_ends_with_the_store_file_name() {
    match dotl::locator::get_task_file_path() {
        Ok(p) => assert!(p.ends_with("dotl_tasks.json")),
        Err(_) => {}
    }
}
