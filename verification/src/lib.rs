//! List-reconciliation engine for a one-way backup synchronizer.
//!
//! The library diffs two case-insensitively sorted manifests of
//! `path, modified-time, size[, content-hash]` tuples with a streaming
//! merge-join, classifies every path into an action (download, trash,
//! correct-timestamp, create-folder, trash-folder), and reconciles
//! moved or renamed files between the trash and download lists.
//! Reading, writing and renaming real files, and talking to the
//! remote storage, are the caller's business: the core works on
//! values and says in its contracts exactly what it returns.
//!
//! The properties the engine guarantees are stated as proof
//! functions beside the code they speak of:
//! [`compare::lemma_compare_totality`] (every entry is consumed
//! exactly once), [`compare::lemma_compare_ordering`] and
//! [`folders::lemma_compare_folders_ordering`] (sorted in, sorted
//! out), [`compare::lemma_compare_subsequences`] (outputs are input
//! entries unchanged), [`compare::lemma_compare_equivalent_inputs`]
//! (nothing to do on equivalent manifests),
//! [`compare::lemma_tolerance_boundary`] (the two-second boundary is
//! inclusive), [`compare::lemma_case_insensitive_match`] (matching
//! folds case, output keeps it),
//! [`reconcile::lemma_reconciler_pair_removal`] (a matched pair
//! leaves both lists), and [`manifest::lemma_manifest_round_trip`]
//! (writing a manifest and re-reading it is the identity).

pub mod compare;
pub mod config;
pub mod drain;
pub mod error;
pub mod folders;
pub mod hashing;
pub mod manifest;
pub mod order;
pub mod reconcile;
pub mod sort;
pub mod subseq;
pub mod text;
pub mod timestamp;
pub mod utils;

pub use compare::{
    compare_files, correct_time_to_line, parse_correct_time_line, CompareOutcome,
    CorrectTimeEntry, HashCheckPair, PairAction,
};
pub use config::DropboxApiConfig;
pub use drain::{trash_files, trash_folders};
pub use error::LibError;
pub use folders::compare_folders;
pub use hashing::{compare_files_with_content_hash, plan_renames_on_disk, DiskRenamePlan};
pub use manifest::{
    entry_to_line, lines_of, manifest_to_string, parse_file_line, parse_manifest, FileEntry,
};
pub use reconcile::{
    basename_of, move_local_files, plan_moves_by_name, plan_renames_by_hash, remove_matched_rows,
    rename_local_files, MatchPair, RenameAction,
};
pub use sort::{sort_list, sort_string_lines};
pub use utils::{
    byte_pos_from_chars, println_to_ui_thread, println_to_ui_thread_with_thread_name,
    shorten_string,
};
