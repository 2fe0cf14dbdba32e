//! Content hashes as ground truth.  Some files carry legitimately
//! different recorded modified times on the two sides yet have equal
//! content; metadata alone cannot decide them.  The comparator defers
//! such pairs to a content-hash comparison, and the reconciler's
//! second pass matches moved files by hash.  The hash of a file on
//! disk depends on what is on disk, so the functions here state what
//! holds of every outcome, and the exact decision logic lives in the
//! pure functions that take the hash values as arguments.

use vstd::prelude::*;

use crate::compare::{
    classify_pair, correct_matches, spec_compare, CompareOutcome, CorrectTimeEntry, PairAction,
};
use crate::error::LibError;
use crate::manifest::FileEntry;
use crate::order::lemma_ci_trichotomy;
use crate::reconcile::{hash_match_exec, MatchPair};
use crate::timestamp::{seconds_delta, seconds_delta_exec};

verus! {

/// The Dropbox content hash of the file at `path`, as lower-case hex,
/// or `None` when the file cannot be opened or read.
///
/// Relies on `DropboxContentHasher::hash_file` of the
/// dropbox-content-hasher crate, which returns the 32-byte digest
/// that the remote API records as `content_hash`, and on the
/// hex formatting of the digest: two digits per byte, 64 in all.
/// What the digest is depends on what is on disk, so nothing more is
/// promised of the value.
#[verifier::external_body]
fn content_hash_of_file(path: &str) -> (r: Option<String>)
    ensures
        r is Some ==> r->0@.len() == 64,
{
    match dropbox_content_hasher::DropboxContentHasher::hash_file(std::path::Path::new(path)) {
        Ok(digest) => Some(format!("{:x}", digest)),
        Err(_) => None,
    }
}

/// The base path and a root-relative path, concatenated.
pub fn join_base(base: &str, rel: &str) -> (r: String)
    ensures
        r@ == base@ + rel@,
{
    let mut s = base.to_owned();
    s.append(rel);
    s
}

/// Whether a freshly computed local hash differs from the hash an
/// entry records, in which case the entry must be transferred.
pub fn hash_differs(entry: &FileEntry, local: &String) -> (r: bool)
    ensures
        r == !(entry.content_hash is Some && entry.content_hash->0@ == local@),
{
    match &entry.content_hash {
        Some(recorded) => !(*recorded == *local),
        None => true,
    }
}

/// The comparator with every hash check decided: `decisions` holds
/// one boolean per hash-check pair, in pair order, `true` meaning the
/// hashes differed and the source entry is downloaded.  The outcome
/// is exactly `spec_compare` under `decisions`, with nothing left
/// pending.
pub fn compare_files_resolved(
    source: &Vec<FileEntry>,
    destination: &Vec<FileEntry>,
    decisions: &Vec<bool>,
) -> (r: CompareOutcome)
    ensures
        ({
            let s = spec_compare(source@, destination@, decisions@);
            &&& r.for_download@ == s.download
            &&& r.for_trash@ == s.trash
            &&& correct_matches(r.for_correct_time@, s.correct)
            &&& r.for_hash_check@.len() == 0
        }),
{
    let ghost keep = decisions@;
    let mut for_download: Vec<FileEntry> = Vec::new();
    let mut for_trash: Vec<FileEntry> = Vec::new();
    let mut for_correct_time: Vec<CorrectTimeEntry> = Vec::new();
    let ghost mut correct_acc: Seq<(FileEntry, FileEntry)> = Seq::empty();
    let mut i: usize = 0;
    let mut j: usize = 0;
    let mut k: usize = 0;
    let ghost whole = spec_compare(source@, destination@, keep);
    proof {
        assert(source@.skip(0) =~= source@);
        assert(destination@.skip(0) =~= destination@);
        assert(keep.skip(0) =~= keep);
    }
    while i < source.len() || j < destination.len()
        invariant
            0 <= i <= source.len(),
            0 <= j <= destination.len(),
            0 <= k <= keep.len(),
            keep == decisions@,
            whole == spec_compare(source@, destination@, keep),
            whole.download =~~= for_download@ + spec_compare(
                source@.skip(i as int),
                destination@.skip(j as int),
                keep.skip(k as int),
            ).download,
            whole.trash =~~= for_trash@ + spec_compare(
                source@.skip(i as int),
                destination@.skip(j as int),
                keep.skip(k as int),
            ).trash,
            whole.correct =~~= correct_acc + spec_compare(
                source@.skip(i as int),
                destination@.skip(j as int),
                keep.skip(k as int),
            ).correct,
            correct_matches(for_correct_time@, correct_acc),
        decreases source.len() - i + destination.len() - j,
    {
        let ghost s_rest = source@.skip(i as int);
        let ghost d_rest = destination@.skip(j as int);
        let ghost k_rest = keep.skip(k as int);
        proof {
            if i < source@.len() {
                assert(s_rest[0] == source@[i as int]);
                assert(s_rest.skip(1) =~= source@.skip(i as int + 1));
            }
            if j < destination@.len() {
                assert(d_rest[0] == destination@[j as int]);
                assert(d_rest.skip(1) =~= destination@.skip(j as int + 1));
            }
            if k < keep.len() {
                assert(k_rest[0] == keep[k as int]);
                assert(k_rest.skip(1) =~= keep.skip(k as int + 1));
            }
        }
        if i >= source.len() {
            proof {
                let r2 = spec_compare(s_rest, d_rest.skip(1), k_rest);
                assert(spec_compare(s_rest, d_rest, k_rest).trash =~~= seq![d_rest[0]] + r2.trash);
                assert(spec_compare(s_rest, d_rest, k_rest).download =~~= r2.download);
                assert(spec_compare(s_rest, d_rest, k_rest).correct =~~= r2.correct);
            }
            for_trash.push(destination[j].duplicate());
            j = j + 1;
        } else if j >= destination.len() {
            proof {
                let r2 = spec_compare(s_rest.skip(1), d_rest, k_rest);
                assert(spec_compare(s_rest, d_rest, k_rest).download =~~= seq![s_rest[0]]
                    + r2.download);
                assert(spec_compare(s_rest, d_rest, k_rest).trash =~~= r2.trash);
                assert(spec_compare(s_rest, d_rest, k_rest).correct =~~= r2.correct);
            }
            for_download.push(source[i].duplicate());
            i = i + 1;
        } else {
            let ord = crate::order::ci_compare(
                source[i].path.as_str(),
                destination[j].path.as_str(),
            );
            proof {
                lemma_ci_trichotomy(source@[i as int].path@, destination@[j as int].path@);
            }
            match ord {
                core::cmp::Ordering::Less => {
                    proof {
                        let r2 = spec_compare(s_rest.skip(1), d_rest, k_rest);
                        assert(spec_compare(s_rest, d_rest, k_rest).download =~~= seq![s_rest[0]]
                            + r2.download);
                        assert(spec_compare(s_rest, d_rest, k_rest).trash =~~= r2.trash);
                        assert(spec_compare(s_rest, d_rest, k_rest).correct =~~= r2.correct);
                    }
                    for_download.push(source[i].duplicate());
                    i = i + 1;
                },
                core::cmp::Ordering::Greater => {
                    proof {
                        let r2 = spec_compare(s_rest, d_rest.skip(1), k_rest);
                        assert(spec_compare(s_rest, d_rest, k_rest).trash =~~= seq![d_rest[0]]
                            + r2.trash);
                        assert(spec_compare(s_rest, d_rest, k_rest).download =~~= r2.download);
                        assert(spec_compare(s_rest, d_rest, k_rest).correct =~~= r2.correct);
                    }
                    for_trash.push(destination[j].duplicate());
                    j = j + 1;
                },
                core::cmp::Ordering::Equal => {
                    match classify_pair(&source[i], &destination[j]) {
                        PairAction::Download => {
                            for_download.push(source[i].duplicate());
                        },
                        PairAction::CorrectTime => {
                            for_correct_time.push(
                                CorrectTimeEntry {
                                    path: destination[j].path.clone(),
                                    modified: source[i].modified.clone(),
                                },
                            );
                            proof {
                                correct_acc = correct_acc.push(
                                    (source@[i as int], destination@[j as int]),
                                );
                            }
                        },
                        PairAction::HashCheck => {
                            let take = if k < decisions.len() {
                                let t = decisions[k];
                                k = k + 1;
                                t
                            } else {
                                false
                            };
                            if take {
                                for_download.push(source[i].duplicate());
                            }
                        },
                        PairAction::Nothing => {},
                    }
                    i = i + 1;
                    j = j + 1;
                },
            }
        }
    }
    proof {
        assert(source@.skip(source@.len() as int).len() == 0);
        assert(destination@.skip(destination@.len() as int).len() == 0);
        assert(for_download@ =~= whole.download);
        assert(for_trash@ =~= whole.trash);
        assert(correct_acc =~= whole.correct);
    }
    CompareOutcome {
        for_download,
        for_trash,
        for_correct_time,
        for_hash_check: Vec::new(),
    }
}

/// Compares two sorted file manifests and decides every
/// metadata-ambiguous pair by hashing the destination file on disk
/// under `base_path` and comparing against the source's recorded
/// content hash: the entry is downloaded exactly when the hashes
/// differ.  On success the outcome is `spec_compare` under the hash
/// decisions that the disk gave, with nothing left pending; when a
/// needed hash cannot be computed, the error names the position of
/// the failing pair in the hash-check list and nothing is decided.
pub fn compare_files_with_content_hash(
    source: &Vec<FileEntry>,
    destination: &Vec<FileEntry>,
    base_path: &str,
) -> (r: Result<CompareOutcome, LibError>)
    ensures
        r is Ok ==> exists|keep: Seq<bool>|
            #![trigger spec_compare(source@, destination@, keep)]
            {
                let s = spec_compare(source@, destination@, keep);
                &&& r->Ok_0.for_download@ == s.download
                &&& r->Ok_0.for_trash@ == s.trash
                &&& correct_matches(r->Ok_0.for_correct_time@, s.correct)
                &&& r->Ok_0.for_hash_check@.len() == 0
            },
        r is Err ==> (r->Err_0 matches LibError::HashUnavailable { entry_index: i } && i
            < spec_compare(source@, destination@, Seq::empty()).hash_pending.len()),
{
    let outcome = crate::compare::compare_files(source, destination);
    let mut decisions: Vec<bool> = Vec::new();
    let mut k: usize = 0;
    while k < outcome.for_hash_check.len()
        invariant
            0 <= k <= outcome.for_hash_check@.len(),
            decisions@.len() == k,
            outcome.for_hash_check@.len() == spec_compare(
                source@,
                destination@,
                Seq::empty(),
            ).hash_pending.len(),
        decreases outcome.for_hash_check.len() - k,
    {
        let full_path = join_base(base_path, outcome.for_hash_check[k].destination.path.as_str());
        match content_hash_of_file(full_path.as_str()) {
            Some(local) => {
                decisions.push(hash_differs(&outcome.for_hash_check[k].source, &local));
            },
            None => {
                proof {
                    assert(k < spec_compare(source@, destination@, Seq::empty()).hash_pending.len());
                }
                return Err(LibError::HashUnavailable { entry_index: k });
            },
        }
        k = k + 1;
    }
    let resolved = compare_files_resolved(source, destination, &decisions);
    proof {
        let s = spec_compare(source@, destination@, decisions@);
        assert(resolved.for_download@ == s.download);
    }
    Ok(resolved)
}

/// The outcome of planning the second pass against the disk: the
/// matched pairs found, and the failure that stopped the planning
/// early, if one did.
pub struct DiskRenamePlan {
    /// The matched pairs, in trash-list order.
    pub pairs: Vec<MatchPair>,
    /// Set when a needed local hash could not be computed.
    pub failure: Option<LibError>,
}

/// A pass-two candidate pair that metadata alone allows: same size,
/// modified times strictly within the tolerance, and a recorded
/// content hash on the download side to compare against.
pub open spec fn hash_candidate(t: FileEntry, d: FileEntry) -> bool {
    &&& t.size == d.size
    &&& seconds_delta(t.modified_seconds, d.modified_seconds) < 2
    &&& d.content_hash is Some
}

/// A failure of the disk plan names a position for which a local hash
/// was really needed: a still-present trash entry with at least one
/// metadata-compatible download candidate.  In particular, when no
/// present trash entry has a candidate, no hash is ever computed and
/// the planning cannot fail.
pub open spec fn failure_names_candidate(
    failure: Option<LibError>,
    trash: Seq<FileEntry>,
    download: Seq<FileEntry>,
    present: Seq<bool>,
) -> bool {
    failure matches Some(LibError::HashUnavailable { entry_index: i }) ==> i < trash.len()
        && present[i as int] && exists|j: int|
        0 <= j < download.len() && hash_candidate(trash[i as int], #[trigger] download[j])
}

/// Plans the reconciler's second pass against the disk: for every
/// still-present trash entry, its file under `base_path` is hashed
/// when the first size-and-time-compatible candidate appears, and the
/// first not-yet-taken candidate whose recorded hash equals that
/// local hash wins.  The hash of each trash entry is computed at most
/// once and only when a candidate asks for it.
///
/// What is on disk decides the matches, so the promise is what holds
/// of every outcome: each returned pair joins a present trash entry
/// with an unused, metadata-compatible candidate, trash positions
/// strictly increase, and no candidate is taken twice.  When a needed
/// hash cannot be computed, the failure names the still-present trash
/// position whose hash was needed — so planning never fails when no
/// present entry has a candidate — and planning stops, but the pairs
/// already found are still returned: the caller carries them out
/// before reporting the error, so a retry does not redo completed
/// work.  The exact first-match semantics, for given hash values, is
/// the pure `plan_renames_by_hash`.
pub fn plan_renames_on_disk(
    trash: &Vec<FileEntry>,
    download: &Vec<FileEntry>,
    present: &Vec<bool>,
    base_path: &str,
) -> (r: DiskRenamePlan)
    requires
        present.len() == trash.len(),
    ensures
        ({
            let pairs = r.pairs@;
            &&& forall|x: int|
                0 <= x < pairs.len() ==> (#[trigger] pairs[x]).trash_index < trash@.len()
                    && pairs[x].download_index < download@.len()
                    && present@[pairs[x].trash_index as int] && hash_candidate(
                    trash@[pairs[x].trash_index as int],
                    download@[pairs[x].download_index as int],
                )
            &&& forall|x1: int, x2: int|
                0 <= x1 < x2 < pairs.len() ==> (#[trigger] pairs[x1]).trash_index < (
                #[trigger] pairs[x2]).trash_index && pairs[x1].download_index
                    != pairs[x2].download_index
        }),
        r.failure matches Some(e) ==> e is HashUnavailable,
        failure_names_candidate(r.failure, trash@, download@, present@),
{
    let mut failure: Option<LibError> = None;
    let mut pairs: Vec<MatchPair> = Vec::new();
    let mut used: Vec<bool> = Vec::new();
    let mut w: usize = 0;
    while w < download.len()
        invariant
            0 <= w <= download.len(),
            used@.len() == w,
            forall|x: int| 0 <= x < w ==> used@[x] == false,
        decreases download.len() - w,
    {
        used.push(false);
        w = w + 1;
    }
    let mut t: usize = 0;
    while t < trash.len() && failure.is_none()
        invariant
            0 <= t <= trash.len(),
            present@.len() == trash@.len(),
            used@.len() == download@.len(),
            failure matches Some(e) ==> e is HashUnavailable,
            failure_names_candidate(failure, trash@, download@, present@),
            forall|x: int|
                0 <= x < pairs@.len() ==> (#[trigger] pairs@[x]).trash_index < t
                    && pairs@[x].download_index < download@.len()
                    && present@[pairs@[x].trash_index as int] && hash_candidate(
                    trash@[pairs@[x].trash_index as int],
                    download@[pairs@[x].download_index as int],
                ) && used@[pairs@[x].download_index as int],
            forall|x1: int, x2: int|
                0 <= x1 < x2 < pairs@.len() ==> (#[trigger] pairs@[x1]).trash_index < (
                #[trigger] pairs@[x2]).trash_index && pairs@[x1].download_index
                    != pairs@[x2].download_index,
        decreases trash.len() - t,
    {
        if present[t] {
            let mut local_hash: Option<String> = None;
            let mut have_hash: bool = false;
            let mut found: Option<usize> = None;
            let mut j: usize = 0;
            while j < download.len() && found.is_none() && failure.is_none()
                invariant
                    0 <= j <= download.len(),
                    0 <= t < trash@.len(),
                    present@.len() == trash@.len(),
                    used@.len() == download@.len(),
                    failure matches Some(e) ==> e is HashUnavailable,
                    failure_names_candidate(failure, trash@, download@, present@),
                    present@[t as int],
                    found matches Some(m) ==> m < download@.len() && !used@[m as int]
                        && hash_candidate(trash@[t as int], download@[m as int]),
                decreases download.len() - j,
            {
                let size_time_ok = trash[t].size == download[j].size && seconds_delta_exec(
                    trash[t].modified_seconds,
                    download[j].modified_seconds,
                ) < 2 && download[j].content_hash.is_some();
                if !used[j] && size_time_ok {
                    if !have_hash {
                        let full_path = join_base(base_path, trash[t].path.as_str());
                        match content_hash_of_file(full_path.as_str()) {
                            Some(h) => {
                                local_hash = Some(h);
                            },
                            None => {
                                proof {
                                    assert(hash_candidate(
                                        trash@[t as int],
                                        download@[j as int],
                                    ));
                                }
                                failure = Some(LibError::HashUnavailable { entry_index: t });
                            },
                        }
                        have_hash = true;
                    }
                    if failure.is_none() && hash_match_exec(&trash[t], &download[j], &local_hash) {
                        found = Some(j);
                    }
                }
                j = j + 1;
            }
            match found {
                Some(m) => {
                    let ghost pairs_old = pairs@;
                    pairs.push(MatchPair { trash_index: t, download_index: m });
                    used.set(m, true);
                    proof {
                        assert forall|x: int|
                            0 <= x < pairs@.len() implies (#[trigger] pairs@[x]).trash_index < t
                            + 1 && pairs@[x].download_index < download@.len()
                            && present@[pairs@[x].trash_index as int] && hash_candidate(
                            trash@[pairs@[x].trash_index as int],
                            download@[pairs@[x].download_index as int],
                        ) && used@[pairs@[x].download_index as int] by {
                            if x < pairs@.len() - 1 {
                                assert(pairs@[x] == pairs_old[x]);
                            }
                        }
                    }
                },
                None => {},
            }
        }
        t = t + 1;
    }
    DiskRenamePlan { pairs, failure }
}

} // verus!
