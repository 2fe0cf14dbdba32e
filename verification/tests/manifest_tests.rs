//! Tests for the manifest format: line parsing, serialization, the
//! timestamp arithmetic, sorting, and the text helpers.

use dropbox_backup_to_external_disk_lib::{
    byte_pos_from_chars, entry_to_line, lines_of, manifest_to_string, parse_file_line,
    parse_manifest, println_to_ui_thread, println_to_ui_thread_with_thread_name, shorten_string,
    sort_list, sort_string_lines, LibError,
};
use dropbox_backup_to_external_disk_lib::compare::{correct_time_to_line, parse_correct_time_line, CorrectTimeEntry};
use dropbox_backup_to_external_disk_lib::timestamp::parse_timestamp;

#[test]
fn parses_a_three_field_line() {
    let e = parse_file_line("/Video/clip.mp4\t2007-01-08T19:31:44Z\t45889", 1).unwrap();
    assert_eq!(e.path, "/Video/clip.mp4");
    assert_eq!(e.modified, "2007-01-08T19:31:44Z");
    assert_eq!(e.size, 45889);
    assert!(e.content_hash.is_none());
}

#[test]
fn parses_a_four_field_line() {
    let e = parse_file_line("/a\t2024-01-01T00:00:00Z\t7\t0123abcd", 1).unwrap();
    assert_eq!(e.content_hash.as_deref(), Some("0123abcd"));
}

#[test]
fn rejects_wrong_field_count() {
    let r = parse_file_line("/only/a/path", 3);
    assert_eq!(r.unwrap_err(), LibError::MalformedFields { line_number: 3 });
}

#[test]
fn rejects_bad_timestamp() {
    let r = parse_file_line("/a\t2024-13-01T00:00:00Z\t7", 4);
    assert_eq!(r.unwrap_err(), LibError::InvalidTimestamp { line_number: 4 });
    let r = parse_file_line("/a\tnot-a-time\t7", 5);
    assert_eq!(r.unwrap_err(), LibError::InvalidTimestamp { line_number: 5 });
}

#[test]
fn rejects_bad_size() {
    let r = parse_file_line("/a\t2024-01-01T00:00:00Z\t007", 6);
    assert_eq!(r.unwrap_err(), LibError::InvalidSize { line_number: 6 });
    let r = parse_file_line("/a\t2024-01-01T00:00:00Z\t-1", 7);
    assert_eq!(r.unwrap_err(), LibError::InvalidSize { line_number: 7 });
}

#[test]
fn size_limits_are_nineteen_digits() {
    // the largest canonical count: nineteen digits
    let e = parse_file_line("/a\t2024-01-01T00:00:00Z\t9999999999999999999", 1).unwrap();
    assert_eq!(e.size, 9_999_999_999_999_999_999);
    // twenty digits are rejected
    let r = parse_file_line("/a\t2024-01-01T00:00:00Z\t10000000000000000000", 2);
    assert_eq!(r.unwrap_err(), LibError::InvalidSize { line_number: 2 });
    // zero is the one count allowed to start with a zero digit
    let e = parse_file_line("/a\t2024-01-01T00:00:00Z\t0", 3).unwrap();
    assert_eq!(e.size, 0);
}

#[test]
fn line_round_trips_through_entry() {
    let line = "/Folder/File.txt\t2020-02-29T12:00:00Z\t1048576\tffee0011";
    let e = parse_file_line(line, 1).unwrap();
    assert_eq!(entry_to_line(&e), line);
}

#[test]
fn manifest_round_trips_and_reports_first_error() {
    let text = "/a\t2024-01-01T00:00:00Z\t1\n/b\t2024-01-01T00:00:00Z\t2";
    let entries = parse_manifest(text).unwrap();
    assert_eq!(entries.len(), 2);
    assert_eq!(manifest_to_string(&entries), text);

    let broken = "/a\t2024-01-01T00:00:00Z\t1\n/b\tbad\t2\n/c\t2024-01-01T00:00:00Z\tx";
    let err = parse_manifest(broken).unwrap_err();
    assert_eq!(err, LibError::InvalidTimestamp { line_number: 2 });
}

#[test]
fn empty_text_is_an_empty_manifest() {
    assert_eq!(parse_manifest("").unwrap().len(), 0);
    let with_trailing_newline = parse_manifest("/a\t2024-01-01T00:00:00Z\t1\n").unwrap();
    assert_eq!(with_trailing_newline.len(), 1);
}

#[test]
fn timestamp_differences_are_real_seconds() {
    let t1 = parse_timestamp("2024-02-29T23:59:59Z").unwrap();
    let t2 = parse_timestamp("2024-03-01T00:00:01Z").unwrap();
    assert_eq!(t2 - t1, 2);
    // a non-leap year has no February 29th
    assert!(parse_timestamp("2023-02-29T00:00:00Z").is_none());
    // a leap year has one
    assert!(parse_timestamp("2024-02-29T00:00:00Z").is_some());
    // one regular year apart
    let a = parse_timestamp("2021-03-05T06:07:08Z").unwrap();
    let b = parse_timestamp("2022-03-05T06:07:08Z").unwrap();
    assert_eq!(b - a, 365 * 86400);
}

#[test]
fn correct_time_line_round_trips() {
    let e = CorrectTimeEntry {
        path: "/x/y.txt".to_string(),
        modified: "2024-01-01T00:00:02Z".to_string(),
    };
    let line = correct_time_to_line(&e);
    assert_eq!(line, "/x/y.txt\t2024-01-01T00:00:02Z");
    let back = parse_correct_time_line(&line, 1).unwrap();
    assert_eq!(back.path, e.path);
    assert_eq!(back.modified, e.modified);
    assert!(parse_correct_time_line("/x/y.txt", 9).is_err());
}

#[test]
fn sorting_is_case_insensitive_and_keeps_all_lines() {
    let text = "/b/B.txt\t2\n/A/a.txt\t1\n/a/C.txt\t3";
    let sorted = sort_string_lines(text);
    assert_eq!(sorted, "/A/a.txt\t1\n/a/C.txt\t3\n/b/B.txt\t2");
    let from_list = sort_list(vec![
        "zeta".to_string(),
        "Alpha".to_string(),
        "beta".to_string(),
    ]);
    assert_eq!(from_list, "Alpha\nbeta\nzeta");
}

#[test]
fn sorting_agrees_with_the_uncased_order() {
    // the verified case-insensitive order matches the ordering of the
    // uncased crate that historically sorted these manifests
    let mut sample = vec!["/b", "/A", "/aB", "/Ab", "/C", "/ab2", "/_x"];
    sample.sort_by(|a, b| {
        let ua: &uncased::UncasedStr = (*a).into();
        let ub: &uncased::UncasedStr = (*b).into();
        ua.cmp(ub)
    });
    let mine = sort_list(vec![
        "/b".to_string(),
        "/A".to_string(),
        "/aB".to_string(),
        "/Ab".to_string(),
        "/C".to_string(),
        "/ab2".to_string(),
        "/_x".to_string(),
    ]);
    let mine_lines: Vec<&str> = mine.split('\n').collect();
    for (a, b) in sample.iter().zip(mine_lines.iter()) {
        let ua: &uncased::UncasedStr = (*a).into();
        let ub: &uncased::UncasedStr = (*b).into();
        assert_eq!(ua.cmp(ub), std::cmp::Ordering::Equal);
    }
}

#[test]
fn lines_of_behaves_like_line_splitting() {
    let v = lines_of("a\n\nb\n");
    assert_eq!(v, vec!["a".to_string(), "".to_string(), "b".to_string()]);
    assert_eq!(lines_of("").len(), 0);
}

#[test]
fn shorten_string_keeps_short_text_and_shortens_long_text() {
    assert_eq!(shorten_string("short", 80), "short");
    // a limit below four is fine as long as the text fits it
    assert_eq!(shorten_string("ab", 2), "ab");
    let long = "0123456789012345678901234567890123456789";
    // max 10: keep 3 from each end around the ellipsis
    assert_eq!(shorten_string(long, 10), "012...789");
}

#[test]
fn byte_pos_counts_multibyte_characters() {
    let text = "a\u{00e9}b";
    assert_eq!(byte_pos_from_chars(text, 1), 1);
    assert_eq!(byte_pos_from_chars(text, 2), 3);
}

#[test]
fn ui_channel_delivers_the_text() {
    let (tx, rx) = std::sync::mpsc::channel::<String>();
    println_to_ui_thread(&tx, "one line".to_string());
    assert_eq!(rx.recv().unwrap(), "one line");
    let (tx2, rx2) = std::sync::mpsc::channel::<(String, String)>();
    println_to_ui_thread_with_thread_name(&tx2, "progress".to_string(), "R1");
    assert_eq!(rx2.recv().unwrap(), ("progress".to_string(), "R1".to_string()));
}

#[test]
fn error_messages_name_the_line() {
    let msg = LibError::InvalidSize { line_number: 3 }.message();
    assert_eq!(msg, "invalid size at line 3");
}
