use dotl::codec::{decode_tasks, encode_tasks};
use dotl::errors::DecodeError;
use dotl::task::{DueDate, Task};

fn task(description: &str, urgent: bool, due_date: Option<DueDate>) -> Task {
    Task { description: description.to_string(), urgent, due_date }
}

fn due(year: u32, month: u32, day: u32, hour: u32, minute: u32) -> DueDate {
    DueDate { year, month, day, hour, minute }
}

#[test]
fn encode_empty_list() {
    let tasks: Vec<Task> = Vec::new();
    assert_eq!(encode_tasks(&tasks), "[]");
}

#[test]
fn encode_single_task_pretty_layout() {
    let tasks = vec![task("Buy milk", true, None)];
    let expected = "[\n  {\n    \"description\": \"Buy milk\",\n    \"urgent\": true,\n    \"due_date\": null\n  }\n]";
    assert_eq!(encode_tasks(&tasks), expected);
}

#[test]
fn encode_task_with_due_date() {
    let tasks = vec![task("Pay rent", false, Some(due(2025, 3, 1, 9, 0)))];
    let expected = "[\n  {\n    \"description\": \"Pay rent\",\n    \"urgent\": false,\n    \"due_date\": \"2025-03-01 09:00\"\n  }\n]";
    assert_eq!(encode_tasks(&tasks), expected);
}

#[test]
fn encode_escapes_special_characters() {
    let tasks = vec![task("say \"hi\"\\\n", false, None)];
    let expected = "[\n  {\n    \"description\": \"say \\\"hi\\\"\\\\\\n\",\n    \"urgent\": false,\n    \"due_date\": null\n  }\n]";
    assert_eq!(encode_tasks(&tasks), expected);
}

#[test]
fn round_trip_preserves_every_field() {
    let tasks = vec![
        task("Buy milk", true, None),
        task("say \"hi\" to C:\\temp\nline2\ttabbed", false, Some(due(2024, 2, 29, 23, 59))),
        task("unicode \u{00e9}\u{4e16}\u{754c} \u{1F600}", true, Some(due(1999, 12, 31, 0, 0))),
        task("control \u{0001} char", false, None),
        task("", false, None),
    ];
    let text = encode_tasks(&tasks);
    let back = decode_tasks(&text).expect("round trip must decode");
    assert_eq!(back.len(), tasks.len());
    for (a, b) in tasks.iter().zip(back.iter()) {
        assert_eq!(a.description, b.description);
        assert_eq!(a.urgent, b.urgent);
        assert_eq!(a.due_date, b.due_date);
    }
}

#[test]
fn decode_accepts_missing_due_date_field() {
    let text = "[\n  {\n    \"description\": \"old style\",\n    \"urgent\": false\n  }\n]";
    let ts = decode_tasks(text).expect("object without due_date must decode");
    assert_eq!(ts.len(), 1);
    assert_eq!(ts[0].description, "old style");
    assert!(!ts[0].urgent);
    assert_eq!(ts[0].due_date, None);
}

#[test]
fn decode_unicode_escape() {
    let text = "[\n  {\n    \"description\": \"\\u0041\\u00e9\",\n    \"urgent\": true,\n    \"due_date\": null\n  }\n]";
    let ts = decode_tasks(text).expect("two-hex-digit unicode escapes decode");
    assert_eq!(ts[0].description, "A\u{00e9}");
}

#[test]
fn decode_rejects_malformed_text() {
    for bad in [
        "",
        "not json at all",
        "[",
        "[] trailing",
        "{\"description\": \"x\"}",
        "[\n  {\n    \"description\": 5,\n    \"urgent\": true,\n    \"due_date\": null\n  }\n]",
        "[\n  {\n    \"description\": \"x\",\n    \"urgent\": \"yes\",\n    \"due_date\": null\n  }\n]",
        "[\n  {\n    \"description\": \"x\",\n    \"urgent\": true,\n    \"due_date\": \"tomorrow\"\n  }\n]",
        "[\n  {\n    \"description\": \"x\",\n    \"urgent\": true,\n    \"due_date\": \"2025-13-01 09:00\"\n  }\n]",
        "[\n  {\n    \"description\": \"\\ud800\",\n    \"urgent\": true,\n    \"due_date\": null\n  }\n]",
    ] {
        assert_eq!(decode_tasks(bad), Err(DecodeError::Malformed), "input: {bad}");
    }
}

#[test]
fn decode_due_date_string_becomes_value() {
    let text = "[\n  {\n    \"description\": \"x\",\n    \"urgent\": true,\n    \"due_date\": \"2025-03-01 09:00\"\n  }\n]";
    let ts = decode_tasks(text).expect("valid due date decodes");
    assert_eq!(ts[0].due_date, Some(due(2025, 3, 1, 9, 0)));
}

#[test]
fn encoded_document_is_valid_json_by_reference_parser() {
    let tasks = vec![
        task("say \"hi\" to C:\\temp\nline2", true, Some(due(2025, 3, 1, 9, 0))),
        task("control \u{0001} char \u{00e9}", false, None),
    ];
    let text = encode_tasks(&tasks);
    let v: serde_json::Value = serde_json::from_str(&text).expect("the encoder writes real JSON");
    let arr = v.as_array().expect("a store document is an array");
    assert_eq!(arr.len(), 2);
    assert_eq!(arr[0]["description"].as_str(), Some("say \"hi\" to C:\\temp\nline2"));
    assert_eq!(arr[0]["urgent"].as_bool(), Some(true));
    assert_eq!(arr[0]["due_date"].as_str(), Some("2025-03-01 09:00"));
    assert_eq!(arr[1]["description"].as_str(), Some("control \u{0001} char \u{00e9}"));
    assert_eq!(arr[1]["urgent"].as_bool(), Some(false));
    assert!(arr[1]["due_date"].is_null());
}

#[test]
fn decode_compact_json_without_due_date_field() {
    let ts = decode_tasks("[{\"description\":\"x\",\"urgent\":false}]")
        .expect("compact JSON with the due_date field absent decodes");
    assert_eq!(ts.len(), 1);
    assert_eq!(ts[0].description, "x");
    assert!(!ts[0].urgent);
    assert_eq!(ts[0].due_date, None);
}

#[test]
fn decode_tolerates_whitespace_between_tokens() {
    let compact =
        "[{\"description\":\"a\",\"urgent\":true,\"due_date\":\"2025-03-01 09:00\"},{\"description\":\"b\",\"urgent\":false,\"due_date\":null}]";
    let ts = decode_tasks(compact).expect("compact form decodes");
    assert_eq!(ts.len(), 2);
    assert_eq!(ts[0].due_date, Some(due(2025, 3, 1, 9, 0)));
    assert_eq!(ts[1].description, "b");

    let spread =
        "\n[\n\t{ \"description\" : \"a\" ,\n\t  \"urgent\" : true ,\n\t  \"due_date\" : null }\n]\n";
    let ts2 = decode_tasks(spread).expect("re-indented form decodes");
    assert_eq!(ts2.len(), 1);
    assert_eq!(ts2[0].description, "a");
    assert!(ts2[0].urgent);

    assert_eq!(decode_tasks("  [ ]  ").expect("a spaced empty array decodes").len(), 0);
}

#[test]
fn decode_accepts_trailing_newline_after_encoded_document() {
    let tasks = vec![task("Buy milk", true, None)];
    let mut text = encode_tasks(&tasks);
    text.push('\n');
    let back = decode_tasks(&text).expect("a trailing line break is insignificant");
    assert_eq!(back.len(), 1);
    assert_eq!(back[0].description, "Buy milk");
}
