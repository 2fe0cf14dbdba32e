//! Tests for the move/rename reconciler and the drain helpers.

use dropbox_backup_to_external_disk_lib::{
    basename_of, compare_files_with_content_hash, move_local_files, parse_file_line,
    plan_moves_by_name, plan_renames_by_hash, plan_renames_on_disk, rename_local_files,
    trash_files, trash_folders, FileEntry, LibError,
};
use dropbox_backup_to_external_disk_lib::drain::remaining_entries;

fn entry(line: &str) -> FileEntry {
    parse_file_line(line, 1).expect("test line must parse")
}

#[test]
fn basename_takes_the_part_after_the_last_slash() {
    assert_eq!(basename_of("/old/x.bin"), "x.bin");
    assert_eq!(basename_of("x.bin"), "x.bin");
    assert_eq!(basename_of("/a/b/c/deep.txt"), "deep.txt");
}

#[test]
fn move_detection_by_name_empties_both_lists() {
    // the same file relocated: same basename, size and time
    let mut trash = vec![entry("/old/x.bin\t2024-01-01T00:00:00Z\t100")];
    let mut download = vec![entry("/new/x.bin\t2024-01-01T00:00:00Z\t100")];
    let present = vec![true];
    let renames = move_local_files(&mut trash, &mut download, &present);
    assert_eq!(renames.len(), 1);
    assert_eq!(renames[0].from_path, "/old/x.bin");
    assert_eq!(renames[0].to_path, "/new/x.bin");
    assert_eq!(trash.len(), 0);
    assert_eq!(download.len(), 0);
}

#[test]
fn different_basename_is_not_a_name_match() {
    let mut trash = vec![entry("/old/x.bin\t2024-01-01T00:00:00Z\t100")];
    let mut download = vec![entry("/new/y.bin\t2024-01-01T00:00:00Z\t100")];
    let present = vec![true];
    let renames = move_local_files(&mut trash, &mut download, &present);
    assert_eq!(renames.len(), 0);
    assert_eq!(trash.len(), 1);
    assert_eq!(download.len(), 1);
}

#[test]
fn absent_trash_file_is_skipped() {
    let mut trash = vec![entry("/old/x.bin\t2024-01-01T00:00:00Z\t100")];
    let mut download = vec![entry("/new/x.bin\t2024-01-01T00:00:00Z\t100")];
    let present = vec![false];
    let renames = move_local_files(&mut trash, &mut download, &present);
    assert_eq!(renames.len(), 0);
    assert_eq!(trash.len(), 1);
    assert_eq!(download.len(), 1);
}

#[test]
fn first_match_wins_and_no_candidate_is_taken_twice() {
    let mut trash = vec![
        entry("/a/f.txt\t2024-01-01T00:00:00Z\t5"),
        entry("/b/f.txt\t2024-01-01T00:00:00Z\t5"),
    ];
    let mut download = vec![
        entry("/c/f.txt\t2024-01-01T00:00:00Z\t5"),
        entry("/d/f.txt\t2024-01-01T00:00:00Z\t5"),
    ];
    let present = vec![true, true];
    let renames = move_local_files(&mut trash, &mut download, &present);
    assert_eq!(renames.len(), 2);
    assert_eq!(renames[0].from_path, "/a/f.txt");
    assert_eq!(renames[0].to_path, "/c/f.txt");
    assert_eq!(renames[1].from_path, "/b/f.txt");
    assert_eq!(renames[1].to_path, "/d/f.txt");
    assert_eq!(trash.len(), 0);
    assert_eq!(download.len(), 0);
}

#[test]
fn plan_only_leaves_the_lists_unchanged() {
    let trash = vec![entry("/old/x.bin\t2024-01-01T00:00:01Z\t100")];
    let download = vec![entry("/new/x.bin\t2024-01-01T00:00:00Z\t100")];
    let present = vec![true];
    let pairs = plan_moves_by_name(&trash, &download, &present);
    assert_eq!(pairs.len(), 1);
    assert_eq!(pairs[0].trash_index, 0);
    assert_eq!(pairs[0].download_index, 0);
}

#[test]
fn rename_by_hash_matches_on_equal_hashes() {
    let mut trash = vec![entry("/old/renamed.bin\t2024-01-01T00:00:00Z\t100")];
    let mut download = vec![entry("/new/other.bin\t2024-01-01T00:00:00Z\t100\tabc123")];
    let present = vec![true];
    let hashes = vec![Some("abc123".to_string())];
    let renames = rename_local_files(&mut trash, &mut download, &present, &hashes);
    assert_eq!(renames.len(), 1);
    assert_eq!(renames[0].from_path, "/old/renamed.bin");
    assert_eq!(renames[0].to_path, "/new/other.bin");
    assert_eq!(trash.len(), 0);
    assert_eq!(download.len(), 0);
}

#[test]
fn rename_by_hash_skips_different_hashes_and_missing_hashes() {
    let trash = vec![
        entry("/old/a.bin\t2024-01-01T00:00:00Z\t100"),
        entry("/old/b.bin\t2024-01-01T00:00:00Z\t100"),
    ];
    let download = vec![entry("/new/c.bin\t2024-01-01T00:00:00Z\t100\tabc123")];
    let present = vec![true, true];
    let hashes = vec![Some("ffffff".to_string()), None];
    let pairs = plan_renames_by_hash(&trash, &download, &present, &hashes);
    assert_eq!(pairs.len(), 0);
}

#[test]
fn pair_removal_removes_exactly_the_matched_entries() {
    let mut trash = vec![
        entry("/keep1.txt\t2024-01-01T00:00:00Z\t1"),
        entry("/old/m.txt\t2024-01-01T00:00:00Z\t9"),
        entry("/keep2.txt\t2024-01-01T00:00:00Z\t2"),
    ];
    let mut download = vec![
        entry("/dl1.txt\t2024-01-01T00:00:00Z\t3"),
        entry("/new/m.txt\t2024-01-01T00:00:00Z\t9"),
    ];
    let present = vec![true, true, true];
    let renames = move_local_files(&mut trash, &mut download, &present);
    assert_eq!(renames.len(), 1);
    let trash_paths: Vec<&str> = trash.iter().map(|e| e.path.as_str()).collect();
    let download_paths: Vec<&str> = download.iter().map(|e| e.path.as_str()).collect();
    assert_eq!(trash_paths, vec!["/keep1.txt", "/keep2.txt"]);
    assert_eq!(download_paths, vec!["/dl1.txt"]);
}

#[test]
fn hash_check_on_unreadable_file_reports_the_pair() {
    // equal size, times far apart, source hashed: the comparator needs
    // the local hash, and no file exists under this base path
    let source = vec![entry("/a.txt\t2024-01-01T01:00:00Z\t10\tcafe01")];
    let destination = vec![entry("/a.txt\t2024-01-01T00:00:00Z\t10")];
    let r = compare_files_with_content_hash(&source, &destination, "/nonexistent_backup_base");
    assert_eq!(r.unwrap_err(), LibError::HashUnavailable { entry_index: 0 });
}

#[test]
fn hash_check_without_ambiguous_pairs_needs_no_disk() {
    let source = vec![entry("/a.txt\t2024-01-01T00:00:00Z\t10\tcafe01")];
    let destination = vec![entry("/a.txt\t2024-01-01T00:00:00Z\t10")];
    let outcome =
        compare_files_with_content_hash(&source, &destination, "/nonexistent_backup_base")
            .unwrap();
    assert_eq!(outcome.for_download.len(), 0);
    assert_eq!(outcome.for_trash.len(), 0);
    assert_eq!(outcome.for_hash_check.len(), 0);
}

#[test]
fn disk_rename_plan_on_unreadable_file_reports_the_entry() {
    let trash = vec![entry("/old/a.bin\t2024-01-01T00:00:00Z\t100")];
    let download = vec![entry("/new/c.bin\t2024-01-01T00:00:00Z\t100\tabc123")];
    let present = vec![true];
    let plan = plan_renames_on_disk(&trash, &download, &present, "/nonexistent_backup_base");
    assert_eq!(plan.pairs.len(), 0);
    assert_eq!(plan.failure, Some(LibError::HashUnavailable { entry_index: 0 }));
}

#[test]
fn disk_rename_plan_without_candidates_is_empty() {
    // sizes differ: no candidate, so nothing is hashed and the plan is empty
    let trash = vec![entry("/old/a.bin\t2024-01-01T00:00:00Z\t100")];
    let download = vec![entry("/new/c.bin\t2024-01-01T00:00:00Z\t999\tabc123")];
    let present = vec![true];
    let plan = plan_renames_on_disk(&trash, &download, &present, "/nonexistent_backup_base");
    assert_eq!(plan.pairs.len(), 0);
    assert!(plan.failure.is_none());
}

#[test]
fn trash_drain_lists_present_files_and_remaining_suffix() {
    let trash = vec![
        entry("/a.txt\t2024-01-01T00:00:00Z\t1"),
        entry("/gone.txt\t2024-01-01T00:00:00Z\t2"),
        entry("/c.txt\t2024-01-01T00:00:00Z\t3"),
    ];
    let present = vec![true, false, true];
    let to_move = trash_files(&trash, &present);
    assert_eq!(to_move, vec!["/a.txt".to_string(), "/c.txt".to_string()]);
    let rest = remaining_entries(&trash, 2);
    assert_eq!(rest.len(), 1);
    assert_eq!(rest[0].path, "/c.txt");
}

#[test]
fn trash_folder_drain_lists_present_folders() {
    let folders = vec!["/a".to_string(), "/b".to_string()];
    let present = vec![false, true];
    assert_eq!(trash_folders(&folders, &present), vec!["/b".to_string()]);
}
