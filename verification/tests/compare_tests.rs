//! Scenario tests for the sorted-merge comparator.

use dropbox_backup_to_external_disk_lib::compare::{classify_pair, PairAction};
use dropbox_backup_to_external_disk_lib::{compare_files, compare_folders, parse_file_line, FileEntry};

fn entry(line: &str) -> FileEntry {
    parse_file_line(line, 1).expect("test line must parse")
}

#[test]
fn source_only_entry_is_downloaded() {
    // source has one extra file: it goes to the download list, nothing to trash
    let source = vec![
        entry("/a.txt\t2024-01-01T00:00:00Z\t10"),
        entry("/b.txt\t2024-01-01T00:00:00Z\t20"),
    ];
    let destination = vec![entry("/a.txt\t2024-01-01T00:00:00Z\t10")];
    let outcome = compare_files(&source, &destination);
    assert_eq!(outcome.for_download.len(), 1);
    assert_eq!(outcome.for_download[0].path, "/b.txt");
    assert_eq!(outcome.for_download[0].size, 20);
    assert_eq!(outcome.for_trash.len(), 0);
    assert_eq!(outcome.for_correct_time.len(), 0);
    assert_eq!(outcome.for_hash_check.len(), 0);
}

#[test]
fn time_difference_outside_tolerance_is_downloaded() {
    // five seconds apart, no hash on the source side: download
    let source = vec![entry("/a.txt\t2024-01-01T00:00:05Z\t10")];
    let destination = vec![entry("/a.txt\t2024-01-01T00:00:00Z\t10")];
    let outcome = compare_files(&source, &destination);
    assert_eq!(outcome.for_download.len(), 1);
    assert_eq!(outcome.for_download[0].path, "/a.txt");
    assert_eq!(outcome.for_download[0].modified, "2024-01-01T00:00:05Z");
    assert_eq!(outcome.for_trash.len(), 0);
}

#[test]
fn tolerance_boundary_two_seconds_is_equal() {
    // exactly 2.000 seconds apart: treated as equal; the shared
    // date-hour-minute prefix sends it to the correct-time list only
    let source = vec![entry("/a.txt\t2024-01-01T00:00:02Z\t10")];
    let destination = vec![entry("/a.txt\t2024-01-01T00:00:00Z\t10")];
    let outcome = compare_files(&source, &destination);
    assert_eq!(outcome.for_download.len(), 0);
    assert_eq!(outcome.for_trash.len(), 0);
    assert_eq!(outcome.for_correct_time.len(), 1);
    assert_eq!(outcome.for_correct_time[0].path, "/a.txt");
    assert_eq!(outcome.for_correct_time[0].modified, "2024-01-01T00:00:02Z");
}

#[test]
fn tolerance_boundary_three_seconds_triggers_download() {
    let source = vec![entry("/a.txt\t2024-01-01T00:00:03Z\t10")];
    let destination = vec![entry("/a.txt\t2024-01-01T00:00:00Z\t10")];
    let outcome = compare_files(&source, &destination);
    assert_eq!(outcome.for_download.len(), 1);
    assert_eq!(outcome.for_trash.len(), 0);
    assert_eq!(outcome.for_correct_time.len(), 0);
}

#[test]
fn tolerance_applies_across_midnight() {
    // two seconds apart across a day boundary: equal, and the prefixes
    // differ, so no correction either
    let source = vec![entry("/a.txt\t2024-03-01T00:00:01Z\t10")];
    let destination = vec![entry("/a.txt\t2024-02-29T23:59:59Z\t10")];
    let outcome = compare_files(&source, &destination);
    assert_eq!(outcome.for_download.len(), 0);
    assert_eq!(outcome.for_trash.len(), 0);
    assert_eq!(outcome.for_correct_time.len(), 0);
    assert_eq!(outcome.for_hash_check.len(), 0);
}

#[test]
fn size_difference_wins_over_equal_times() {
    let source = vec![entry("/a.txt\t2024-01-01T00:00:00Z\t11")];
    let destination = vec![entry("/a.txt\t2024-01-01T00:00:00Z\t10")];
    let outcome = compare_files(&source, &destination);
    assert_eq!(outcome.for_download.len(), 1);
}

#[test]
fn case_insensitive_match_case_preserving_output() {
    // the paths match case-insensitively; sizes differ, so the source
    // entry is downloaded with its own casing kept
    let source = vec![entry("/Folder/File.txt\t2024-01-01T00:00:00Z\t11")];
    let destination = vec![entry("/folder/file.txt\t2024-01-01T00:00:00Z\t10")];
    let outcome = compare_files(&source, &destination);
    assert_eq!(outcome.for_download.len(), 1);
    assert_eq!(outcome.for_download[0].path, "/Folder/File.txt");
    assert_eq!(outcome.for_trash.len(), 0);
}

#[test]
fn destination_only_entry_is_trashed_with_its_casing() {
    let source = vec![entry("/b.txt\t2024-01-01T00:00:00Z\t1")];
    let destination = vec![
        entry("/A.txt\t2024-01-01T00:00:00Z\t2"),
        entry("/b.txt\t2024-01-01T00:00:00Z\t1"),
    ];
    let outcome = compare_files(&source, &destination);
    assert_eq!(outcome.for_download.len(), 0);
    assert_eq!(outcome.for_trash.len(), 1);
    assert_eq!(outcome.for_trash[0].path, "/A.txt");
}

#[test]
fn ambiguous_pair_with_hash_goes_to_hash_check() {
    // equal size, five seconds apart, source carries a content hash:
    // the pair is deferred to the hash check instead of downloading
    let source = vec![entry("/a.txt\t2024-01-01T00:00:05Z\t10\tdeadbeef")];
    let destination = vec![entry("/a.txt\t2024-01-01T00:00:00Z\t10")];
    let outcome = compare_files(&source, &destination);
    assert_eq!(outcome.for_download.len(), 0);
    assert_eq!(outcome.for_hash_check.len(), 1);
    assert_eq!(outcome.for_hash_check[0].source.path, "/a.txt");
    assert_eq!(outcome.for_hash_check[0].destination.path, "/a.txt");
}

#[test]
fn merge_join_consumes_everything_once() {
    // interleaved solo entries on both sides plus one equal pair
    let source = vec![
        entry("/a.txt\t2024-01-01T00:00:00Z\t1"),
        entry("/c.txt\t2024-01-01T00:00:00Z\t3"),
        entry("/e.txt\t2024-01-01T00:00:00Z\t5"),
    ];
    let destination = vec![
        entry("/b.txt\t2024-01-01T00:00:00Z\t2"),
        entry("/c.txt\t2024-01-01T00:00:00Z\t3"),
        entry("/d.txt\t2024-01-01T00:00:00Z\t4"),
    ];
    let outcome = compare_files(&source, &destination);
    let downloads: Vec<&str> = outcome.for_download.iter().map(|e| e.path.as_str()).collect();
    let trash: Vec<&str> = outcome.for_trash.iter().map(|e| e.path.as_str()).collect();
    assert_eq!(downloads, vec!["/a.txt", "/e.txt"]);
    assert_eq!(trash, vec!["/b.txt", "/d.txt"]);
    // totality: 2 downloads + 2 trash + 2 entries of the equal pair = 6
    assert_eq!(
        outcome.for_download.len() + outcome.for_trash.len() + 2,
        source.len() + destination.len()
    );
}

#[test]
fn identical_manifests_give_empty_outputs() {
    let lines = [
        "/a.txt\t2024-01-01T00:00:00Z\t1",
        "/b/x.bin\t2024-05-06T07:08:09Z\t12345",
    ];
    let m1: Vec<FileEntry> = lines.iter().map(|l| entry(l)).collect();
    let m2: Vec<FileEntry> = lines.iter().map(|l| entry(l)).collect();
    let outcome = compare_files(&m1, &m2);
    assert_eq!(outcome.for_download.len(), 0);
    assert_eq!(outcome.for_trash.len(), 0);
    assert_eq!(outcome.for_correct_time.len(), 0);
    assert_eq!(outcome.for_hash_check.len(), 0);
}

#[test]
fn output_keeps_ascending_order() {
    let source = vec![
        entry("/a.txt\t2024-01-01T00:00:00Z\t1"),
        entry("/B.txt\t2024-01-01T00:00:00Z\t2"),
        entry("/c.txt\t2024-01-01T00:00:00Z\t3"),
        entry("/D.txt\t2024-01-01T00:00:00Z\t4"),
    ];
    let destination: Vec<FileEntry> = Vec::new();
    let outcome = compare_files(&source, &destination);
    let downloads: Vec<&str> = outcome.for_download.iter().map(|e| e.path.as_str()).collect();
    assert_eq!(downloads, vec!["/a.txt", "/B.txt", "/c.txt", "/D.txt"]);
}

#[test]
fn applying_the_outputs_makes_the_next_run_empty() {
    // first run: the destination is missing everything
    let source = vec![
        entry("/a.txt\t2024-01-01T00:00:00Z\t1\taaaa"),
        entry("/b.txt\t2024-01-02T00:00:00Z\t2\tbbbb"),
    ];
    let destination: Vec<FileEntry> = Vec::new();
    let first = compare_files(&source, &destination);
    assert_eq!(first.for_download.len(), 2);

    // apply the downloads and take a fresh local listing: same paths,
    // times and sizes, no content hash on the local side
    let fresh: Vec<FileEntry> = first
        .for_download
        .iter()
        .map(|e| {
            FileEntry::new(e.path.clone(), e.modified.clone(), e.size, None)
                .expect("applied entry must be well formed")
        })
        .collect();
    let second = compare_files(&source, &fresh);
    assert_eq!(second.for_download.len(), 0);
    assert_eq!(second.for_trash.len(), 0);
    assert_eq!(second.for_correct_time.len(), 0);
    assert_eq!(second.for_hash_check.len(), 0);
}

#[test]
fn classify_pair_rules() {
    let s_plain = entry("/a\t2024-01-01T00:00:00Z\t5");
    let d_equal = entry("/a\t2024-01-01T00:00:00Z\t5");
    let d_other_size = entry("/a\t2024-01-01T00:00:00Z\t6");
    let d_far = entry("/a\t2024-01-01T01:00:00Z\t5");
    assert_eq!(classify_pair(&s_plain, &d_equal), PairAction::Nothing);
    assert_eq!(classify_pair(&s_plain, &d_other_size), PairAction::Download);
    assert_eq!(classify_pair(&s_plain, &d_far), PairAction::Download);
    let s_hashed = entry("/a\t2024-01-01T00:00:00Z\t5\tcafe");
    assert_eq!(classify_pair(&s_hashed, &d_far), PairAction::HashCheck);
}

#[test]
fn folder_compare_creates_and_trashes() {
    let source = vec![
        "/Alpha".to_string(),
        "/beta".to_string(),
        "/Gamma".to_string(),
    ];
    let destination = vec!["/beta".to_string(), "/delta".to_string()];
    let (for_create, for_trash) = compare_folders(&source, &destination);
    assert_eq!(for_create, vec!["/Alpha".to_string(), "/Gamma".to_string()]);
    assert_eq!(for_trash, vec!["/delta".to_string()]);
}

#[test]
fn folder_compare_matches_case_insensitively() {
    let source = vec!["/Docs".to_string()];
    let destination = vec!["/docs".to_string()];
    let (for_create, for_trash) = compare_folders(&source, &destination);
    assert_eq!(for_create.len(), 0);
    assert_eq!(for_trash.len(), 0);
}
