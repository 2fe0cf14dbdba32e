//! Drain helpers for the executors.  An action manifest is worked off
//! one line at a time and persisted after every completed unit of
//! work, so that an interrupted run resumes from an accurate
//! checkpoint.  The functions here compute what to act on and what
//! remains, from the lists and from which files are still present on
//! disk; the filesystem work itself stays with the caller.

use vstd::prelude::*;

use crate::manifest::FileEntry;

verus! {

/// The paths of the entries still present on disk, in list order.
pub open spec fn present_paths(trash: Seq<FileEntry>, present: Seq<bool>, i: int) -> Seq<Seq<char>>
    decreases trash.len() - i,
{
    if i < 0 || i >= trash.len() {
        Seq::empty()
    } else if present[i] {
        seq![trash[i].path@] + present_paths(trash, present, i + 1)
    } else {
        present_paths(trash, present, i + 1)
    }
}

/// The paths to move into the trash quarantine: every entry of the
/// trash list whose file is still present on disk (`present`, aligned
/// with the list), in list order.  Entries of files already gone need
/// no move and are simply dropped with the rest when the list is
/// drained.
pub fn trash_files(trash: &Vec<FileEntry>, present: &Vec<bool>) -> (r: Vec<String>)
    requires
        present.len() == trash.len(),
    ensures
        r.deep_view() =~~= present_paths(trash@, present@, 0),
{
    let mut r: Vec<String> = Vec::new();
    let mut i: usize = 0;
    while i < trash.len()
        invariant
            0 <= i <= trash@.len(),
            present@.len() == trash@.len(),
            present_paths(trash@, present@, 0) =~~= r.deep_view() + present_paths(
                trash@,
                present@,
                i as int,
            ),
        decreases trash.len() - i,
    {
        if present[i] {
            r.push(trash[i].path.clone());
        }
        i = i + 1;
    }
    r
}

/// The folder paths still present on disk, in list order.
pub open spec fn present_folder_paths(
    folders: Seq<Seq<char>>,
    present: Seq<bool>,
    i: int,
) -> Seq<Seq<char>>
    decreases folders.len() - i,
{
    if i < 0 || i >= folders.len() {
        Seq::empty()
    } else if present[i] {
        seq![folders[i]] + present_folder_paths(folders, present, i + 1)
    } else {
        present_folder_paths(folders, present, i + 1)
    }
}

/// The folders to move into the trash quarantine: every path of the
/// trash-folder list that is still present on disk, in list order.
pub fn trash_folders(folders: &Vec<String>, present: &Vec<bool>) -> (r: Vec<String>)
    requires
        present.len() == folders.len(),
    ensures
        r.deep_view() =~~= present_folder_paths(folders.deep_view(), present@, 0),
{
    let mut r: Vec<String> = Vec::new();
    let mut i: usize = 0;
    while i < folders.len()
        invariant
            0 <= i <= folders@.len(),
            present@.len() == folders@.len(),
            folders@.len() == folders.deep_view().len(),
            present_folder_paths(folders.deep_view(), present@, 0) =~~= r.deep_view()
                + present_folder_paths(folders.deep_view(), present@, i as int),
        decreases folders.len() - i,
    {
        if present[i] {
            r.push(folders[i].clone());
            proof {
                assert(folders.deep_view()[i as int] == folders@[i as int]@);
            }
        }
        i = i + 1;
    }
    r
}

/// What remains of a list after its first `processed` entries have
/// been worked off and drained.
pub fn remaining_entries(list: &Vec<FileEntry>, processed: usize) -> (r: Vec<FileEntry>)
    requires
        processed <= list.len(),
    ensures
        r@ == list@.skip(processed as int),
{
    let mut r: Vec<FileEntry> = Vec::new();
    let mut i: usize = processed;
    while i < list.len()
        invariant
            processed <= i <= list@.len(),
            r@ =~~= list@.subrange(processed as int, i as int),
        decreases list.len() - i,
    {
        r.push(list[i].duplicate());
        i = i + 1;
    }
    proof {
        assert(list@.subrange(processed as int, list@.len() as int) =~= list@.skip(
            processed as int,
        ));
    }
    r
}

} // verus!
