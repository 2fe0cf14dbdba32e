//! The sorted-merge comparator: a streaming merge-join over two
//! case-insensitively sorted file manifests with two monotone cursors.
//!
//! A source-only path goes to the download list, a destination-only
//! path to the trash list.  On a path match the metadata rule applies:
//! a size difference means download; a modified-time difference of
//! more than the two-second tolerance means download, unless both
//! sides can produce a content hash, in which case the pair is handed
//! out for a hash check; a difference within the tolerance whose
//! timestamps share their date-hour-minute prefix only corrects the
//! local timestamp; anything else is no action.
//!
//! Sortedness of the inputs is a documented caller obligation, not a
//! runtime-checked invariant: on misordered input the merge-join still
//! returns exactly what the specification function says, but that
//! outcome is not a meaningful diff.

use vstd::prelude::*;

use crate::manifest::{manifest_sorted, FileEntry};
use crate::order::{ci_lt, lemma_ci_trichotomy};
use crate::timestamp::{same_minute, same_minute_prefix, seconds_delta, seconds_delta_exec};

verus! {

/// What the metadata rule decides for one equal-path pair.
#[derive(Clone, Copy, Debug, PartialEq, Eq, Structural)]
pub enum PairAction {
    /// The entries differ: transfer the source entry.
    Download,
    /// Same content, slightly different recorded time: stamp the
    /// source time onto the destination file.
    CorrectTime,
    /// Metadata cannot decide: compare content hashes.
    HashCheck,
    /// The entries agree: no action.
    Nothing,
}

/// The metadata reconciliation rule for two entries with matching
/// paths.  The two-second tolerance is boundary inclusive: only a
/// strictly greater difference triggers an action.
pub open spec fn pair_action(s: FileEntry, d: FileEntry) -> PairAction {
    if s.size != d.size {
        PairAction::Download
    } else if seconds_delta(s.modified_seconds, d.modified_seconds) > 2 {
        if s.content_hash is Some {
            PairAction::HashCheck
        } else {
            PairAction::Download
        }
    } else if s.modified_seconds != d.modified_seconds && same_minute(s.modified@, d.modified@) {
        PairAction::CorrectTime
    } else {
        PairAction::Nothing
    }
}

/// Applies the metadata rule to one equal-path pair.
pub fn classify_pair(s: &FileEntry, d: &FileEntry) -> (r: PairAction)
    ensures
        r == pair_action(*s, *d),
{
    if s.size != d.size {
        PairAction::Download
    } else {
        let delta = seconds_delta_exec(s.modified_seconds, d.modified_seconds);
        if delta > 2 {
            if s.content_hash.is_some() {
                PairAction::HashCheck
            } else {
                PairAction::Download
            }
        } else if s.modified_seconds != d.modified_seconds && same_minute_prefix(
            s.modified.as_str(),
            d.modified.as_str(),
        ) {
            PairAction::CorrectTime
        } else {
            PairAction::Nothing
        }
    }
}

/// The outcome of the merge-join, as mathematical sequences.  The
/// `correct` and `hash_pending` lists hold the (source, destination)
/// pair that produced each item.  `pairs` counts the equal-path
/// meetings and `pair_downloads` those meetings that emitted a
/// download.
pub ghost struct SpecCompare {
    pub download: Seq<FileEntry>,
    pub trash: Seq<FileEntry>,
    pub correct: Seq<(FileEntry, FileEntry)>,
    pub hash_pending: Seq<(FileEntry, FileEntry)>,
    pub pairs: nat,
    pub pair_downloads: nat,
}

/// The merge-join itself.  `keep` decides, pair by pair in order, the
/// outcome of each hash check: `true` means the hashes differed and
/// the source entry is downloaded; a missing or `false` entry means no
/// action.  Comparing without hash results is `spec_compare` with an
/// empty `keep`.
pub open spec fn spec_compare(
    src: Seq<FileEntry>,
    dst: Seq<FileEntry>,
    keep: Seq<bool>,
) -> SpecCompare
    decreases src.len() + dst.len(),
{
    if src.len() == 0 && dst.len() == 0 {
        SpecCompare {
            download: Seq::empty(),
            trash: Seq::empty(),
            correct: Seq::empty(),
            hash_pending: Seq::empty(),
            pairs: 0,
            pair_downloads: 0,
        }
    } else if dst.len() == 0 || (src.len() > 0 && ci_lt(src[0].path@, dst[0].path@)) {
        let r = spec_compare(src.skip(1), dst, keep);
        SpecCompare {
            download: seq![src[0]] + r.download,
            trash: r.trash,
            correct: r.correct,
            hash_pending: r.hash_pending,
            pairs: r.pairs,
            pair_downloads: r.pair_downloads,
        }
    } else if src.len() == 0 || ci_lt(dst[0].path@, src[0].path@) {
        let r = spec_compare(src, dst.skip(1), keep);
        SpecCompare {
            download: r.download,
            trash: seq![dst[0]] + r.trash,
            correct: r.correct,
            hash_pending: r.hash_pending,
            pairs: r.pairs,
            pair_downloads: r.pair_downloads,
        }
    } else {
        match pair_action(src[0], dst[0]) {
            PairAction::Download => {
                let r = spec_compare(src.skip(1), dst.skip(1), keep);
                SpecCompare {
                    download: seq![src[0]] + r.download,
                    trash: r.trash,
                    correct: r.correct,
                    hash_pending: r.hash_pending,
                    pairs: r.pairs + 1,
                    pair_downloads: r.pair_downloads + 1,
                }
            },
            PairAction::CorrectTime => {
                let r = spec_compare(src.skip(1), dst.skip(1), keep);
                SpecCompare {
                    download: r.download,
                    trash: r.trash,
                    correct: seq![(src[0], dst[0])] + r.correct,
                    hash_pending: r.hash_pending,
                    pairs: r.pairs + 1,
                    pair_downloads: r.pair_downloads,
                }
            },
            PairAction::HashCheck => {
                let take = keep.len() > 0 && keep[0];
                let rest_keep = if keep.len() > 0 {
                    keep.skip(1)
                } else {
                    keep
                };
                let r = spec_compare(src.skip(1), dst.skip(1), rest_keep);
                SpecCompare {
                    download: if take {
                        seq![src[0]] + r.download
                    } else {
                        r.download
                    },
                    trash: r.trash,
                    correct: r.correct,
                    hash_pending: seq![(src[0], dst[0])] + r.hash_pending,
                    pairs: r.pairs + 1,
                    pair_downloads: if take {
                        r.pair_downloads + 1
                    } else {
                        r.pair_downloads
                    },
                }
            },
            PairAction::Nothing => {
                let r = spec_compare(src.skip(1), dst.skip(1), keep);
                SpecCompare {
                    download: r.download,
                    trash: r.trash,
                    correct: r.correct,
                    hash_pending: r.hash_pending,
                    pairs: r.pairs + 1,
                    pair_downloads: r.pair_downloads,
                }
            },
        }
    }
}

/// One line of the correct-time list: the destination path to stamp,
/// and the authoritative source timestamp to stamp onto it.
#[derive(Debug)]
pub struct CorrectTimeEntry {
    /// Path of the destination file whose timestamp is corrected.
    pub path: String,
    /// The source timestamp, `%Y-%m-%dT%H:%M:%SZ`.
    pub modified: String,
}

/// An equal-path pair whose metadata could not decide: the content
/// hashes have to be compared.
#[derive(Debug)]
pub struct HashCheckPair {
    /// The source entry; its `content_hash` is present.
    pub source: FileEntry,
    /// The destination entry, whose file on disk is hashed.
    pub destination: FileEntry,
}

/// The comparator's outcome: the three action manifests and the pairs
/// still awaiting a content-hash decision.
#[derive(Debug)]
pub struct CompareOutcome {
    /// Source entries with no destination counterpart or with
    /// differing metadata.
    pub for_download: Vec<FileEntry>,
    /// Destination entries with no source counterpart.
    pub for_trash: Vec<FileEntry>,
    /// Destination paths whose timestamp is stamped from the source.
    pub for_correct_time: Vec<CorrectTimeEntry>,
    /// Equal-path pairs deferred to a content-hash comparison.
    pub for_hash_check: Vec<HashCheckPair>,
}

/// The correct-time lines hold exactly the destination path and source
/// timestamp of the given pairs, in order.
pub open spec fn correct_matches(v: Seq<CorrectTimeEntry>, c: Seq<(FileEntry, FileEntry)>) -> bool {
    &&& v.len() == c.len()
    &&& forall|i: int|
        0 <= i < v.len() ==> (#[trigger] v[i]).path == c[i].1.path && v[i].modified == c[i].0.modified
}

/// The hash-check pairs hold exactly the given (source, destination)
/// pairs, in order.
pub open spec fn hash_checks_match(v: Seq<HashCheckPair>, c: Seq<(FileEntry, FileEntry)>) -> bool {
    &&& v.len() == c.len()
    &&& forall|i: int|
        0 <= i < v.len() ==> (#[trigger] v[i]).source == c[i].0 && v[i].destination == c[i].1
}

/// The exec outcome holds exactly the spec outcome, with hash checks
/// decided by `keep`.
pub open spec fn outcome_matches(
    r: CompareOutcome,
    src: Seq<FileEntry>,
    dst: Seq<FileEntry>,
    keep: Seq<bool>,
) -> bool {
    let s = spec_compare(src, dst, keep);
    &&& r.for_download@ == s.download
    &&& r.for_trash@ == s.trash
    &&& correct_matches(r.for_correct_time@, s.correct)
    &&& hash_checks_match(r.for_hash_check@, s.hash_pending)
}

/// Compares two sorted file manifests (source against destination) by
/// a single merge-join pass and returns the download, trash and
/// correct-time lists, plus the pairs that need a content-hash
/// decision.  No hash is consulted here: every undecidable pair is
/// handed back in `for_hash_check`.
///
/// Both inputs must be sorted in the case-insensitive path order for
/// the outcome to be a meaningful diff; sortedness is the caller's
/// obligation and is not checked.
pub fn compare_files(source: &Vec<FileEntry>, destination: &Vec<FileEntry>) -> (r: CompareOutcome)
    ensures
        outcome_matches(r, source@, destination@, Seq::empty()),
{
    let mut for_download: Vec<FileEntry> = Vec::new();
    let mut for_trash: Vec<FileEntry> = Vec::new();
    let mut for_correct_time: Vec<CorrectTimeEntry> = Vec::new();
    let mut for_hash_check: Vec<HashCheckPair> = Vec::new();
    let ghost mut correct_acc: Seq<(FileEntry, FileEntry)> = Seq::empty();
    let ghost mut hash_acc: Seq<(FileEntry, FileEntry)> = Seq::empty();
    let mut i: usize = 0;
    let mut j: usize = 0;
    let ghost whole = spec_compare(source@, destination@, Seq::empty());
    proof {
        assert(source@.skip(0) =~= source@);
        assert(destination@.skip(0) =~= destination@);
    }
    while i < source.len() || j < destination.len()
        invariant
            0 <= i <= source.len(),
            0 <= j <= destination.len(),
            whole == spec_compare(source@, destination@, Seq::empty()),
            whole.download =~~= for_download@ + spec_compare(
                source@.skip(i as int),
                destination@.skip(j as int),
                Seq::empty(),
            ).download,
            whole.trash =~~= for_trash@ + spec_compare(
                source@.skip(i as int),
                destination@.skip(j as int),
                Seq::empty(),
            ).trash,
            whole.correct =~~= correct_acc + spec_compare(
                source@.skip(i as int),
                destination@.skip(j as int),
                Seq::empty(),
            ).correct,
            whole.hash_pending =~~= hash_acc + spec_compare(
                source@.skip(i as int),
                destination@.skip(j as int),
                Seq::empty(),
            ).hash_pending,
            correct_matches(for_correct_time@, correct_acc),
            hash_checks_match(for_hash_check@, hash_acc),
        decreases source.len() - i + destination.len() - j,
    {
        let ghost s_rest = source@.skip(i as int);
        let ghost d_rest = destination@.skip(j as int);
        proof {
            if i < source@.len() {
                assert(s_rest[0] == source@[i as int]);
                assert(s_rest.skip(1) =~= source@.skip(i as int + 1));
            }
            if j < destination@.len() {
                assert(d_rest[0] == destination@[j as int]);
                assert(d_rest.skip(1) =~= destination@.skip(j as int + 1));
            }
        }
        if i >= source.len() {
            proof {
                let r2 = spec_compare(s_rest, d_rest.skip(1), Seq::empty());
                assert(spec_compare(s_rest, d_rest, Seq::empty()).trash =~~= seq![d_rest[0]]
                    + r2.trash);
                assert(spec_compare(s_rest, d_rest, Seq::empty()).download =~~= r2.download);
                assert(spec_compare(s_rest, d_rest, Seq::empty()).correct =~~= r2.correct);
                assert(spec_compare(s_rest, d_rest, Seq::empty()).hash_pending
                    =~~= r2.hash_pending);
            }
            for_trash.push(destination[j].duplicate());
            j = j + 1;
        } else if j >= destination.len() {
            proof {
                let r2 = spec_compare(s_rest.skip(1), d_rest, Seq::empty());
                assert(spec_compare(s_rest, d_rest, Seq::empty()).download =~~= seq![s_rest[0]]
                    + r2.download);
                assert(spec_compare(s_rest, d_rest, Seq::empty()).trash =~~= r2.trash);
                assert(spec_compare(s_rest, d_rest, Seq::empty()).correct =~~= r2.correct);
                assert(spec_compare(s_rest, d_rest, Seq::empty()).hash_pending
                    =~~= r2.hash_pending);
            }
            for_download.push(source[i].duplicate());
            i = i + 1;
        } else {
            let ord = crate::order::ci_compare(
                source[i].path.as_str(),
                destination[j].path.as_str(),
            );
            proof {
                lemma_ci_trichotomy(source@[i as int].path@, destination@[j as int].path@);
            }
            match ord {
                core::cmp::Ordering::Less => {
                    proof {
                        let r2 = spec_compare(s_rest.skip(1), d_rest, Seq::empty());
                        assert(spec_compare(s_rest, d_rest, Seq::empty()).download
                            =~~= seq![s_rest[0]] + r2.download);
                        assert(spec_compare(s_rest, d_rest, Seq::empty()).trash =~~= r2.trash);
                        assert(spec_compare(s_rest, d_rest, Seq::empty()).correct =~~= r2.correct);
                        assert(spec_compare(s_rest, d_rest, Seq::empty()).hash_pending
                            =~~= r2.hash_pending);
                    }
                    for_download.push(source[i].duplicate());
                    i = i + 1;
                },
                core::cmp::Ordering::Greater => {
                    proof {
                        let r2 = spec_compare(s_rest, d_rest.skip(1), Seq::empty());
                        assert(spec_compare(s_rest, d_rest, Seq::empty()).trash
                            =~~= seq![d_rest[0]] + r2.trash);
                        assert(spec_compare(s_rest, d_rest, Seq::empty()).download =~~= r2.download);
                        assert(spec_compare(s_rest, d_rest, Seq::empty()).correct =~~= r2.correct);
                        assert(spec_compare(s_rest, d_rest, Seq::empty()).hash_pending
                            =~~= r2.hash_pending);
                    }
                    for_trash.push(destination[j].duplicate());
                    j = j + 1;
                },
                core::cmp::Ordering::Equal => {
                    proof {
                        assert(s_rest.skip(1) =~= source@.skip(i as int + 1));
                        assert(d_rest.skip(1) =~= destination@.skip(j as int + 1));
                    }
                    match classify_pair(&source[i], &destination[j]) {
                        PairAction::Download => {
                            for_download.push(source[i].duplicate());
                        },
                        PairAction::CorrectTime => {
                            for_correct_time.push(
                                CorrectTimeEntry {
                                    path: destination[j].path.clone(),
                                    modified: source[i].modified.clone(),
                                },
                            );
                            proof {
                                correct_acc = correct_acc.push(
                                    (source@[i as int], destination@[j as int]),
                                );
                            }
                        },
                        PairAction::HashCheck => {
                            for_hash_check.push(
                                HashCheckPair {
                                    source: source[i].duplicate(),
                                    destination: destination[j].duplicate(),
                                },
                            );
                            proof {
                                hash_acc = hash_acc.push(
                                    (source@[i as int], destination@[j as int]),
                                );
                                assert(Seq::<bool>::empty().len() == 0);
                            }
                        },
                        PairAction::Nothing => {},
                    }
                    i = i + 1;
                    j = j + 1;
                },
            }
        }
    }
    proof {
        assert(source@.skip(source@.len() as int).len() == 0);
        assert(destination@.skip(destination@.len() as int).len() == 0);
        assert(for_download@ =~= whole.download);
        assert(for_trash@ =~= whole.trash);
        assert(correct_acc =~= whole.correct);
        assert(hash_acc =~= whole.hash_pending);
    }
    CompareOutcome { for_download, for_trash, for_correct_time, for_hash_check }
}

/// The line is a well-formed correct-time line: a non-empty path and
/// a valid timestamp, tab-separated, with no line break.
pub open spec fn valid_correct_time_line(l: Seq<char>) -> bool {
    let f = crate::text::spec_split(l, '\t');
    &&& crate::text::no_char(l, '\n')
    &&& f.len() == 2
    &&& f[0].len() > 0
    &&& crate::timestamp::valid_timestamp(f[1])
}

/// Serializes one correct-time line: `path<TAB>modified`.
pub fn correct_time_to_line(e: &CorrectTimeEntry) -> (r: String)
    ensures
        r@ =~~= e.path@ + seq!['\t'] + e.modified@,
{
    proof {
        reveal_strlit("\t");
    }
    let mut s = e.path.clone();
    s.append("\t");
    s.append(e.modified.as_str());
    s
}

/// Parses one correct-time line.
///
/// Returns the entry exactly when the line is well formed; the error
/// distinguishes a wrong shape from a bad timestamp.  `line_number`
/// is only reported back in the error.
pub fn parse_correct_time_line(line: &str, line_number: usize) -> (r: Result<
    CorrectTimeEntry,
    crate::error::LibError,
>)
    ensures
        r is Ok <==> valid_correct_time_line(line@),
        r is Ok ==> ({
            let f = crate::text::spec_split(line@, '\t');
            r->Ok_0.path@ == f[0] && r->Ok_0.modified@ == f[1]
        }),
        r is Err ==> r->Err_0 is MalformedFields || r->Err_0 is InvalidTimestamp,
{
    proof {
        crate::text::lemma_split_len(line@, '\t');
    }
    let fields = crate::text::split_by(line, '\t');
    if crate::manifest::contains_char(line, '\n') {
        return Err(crate::error::LibError::MalformedFields { line_number });
    }
    if fields.len() != 2 {
        return Err(crate::error::LibError::MalformedFields { line_number });
    }
    if fields[0].as_str().is_empty() {
        return Err(crate::error::LibError::MalformedFields { line_number });
    }
    match crate::timestamp::parse_timestamp(fields[1].as_str()) {
        Some(_) => {
            proof {
                assert(fields@[0]@ == crate::text::spec_split(line@, '\t')[0]);
                assert(fields@[1]@ == crate::text::spec_split(line@, '\t')[1]);
            }
            Ok(CorrectTimeEntry { path: fields[0].clone(), modified: fields[1].clone() })
        },
        None => Err(crate::error::LibError::InvalidTimestamp { line_number }),
    }
}

/// Merge-join totality: every entry of the two inputs is consumed
/// exactly once.  A solo source entry becomes one download line, a
/// solo destination entry one trash line, and every equal-path meeting
/// consumes one entry of each side; a meeting that also emits a
/// download line accounts for the one extra download.  So
/// `|download| + |trash| + 2 * pairs == N + M + pair_downloads`,
/// whatever the hash checks decide.
pub proof fn lemma_compare_totality(src: Seq<FileEntry>, dst: Seq<FileEntry>, keep: Seq<bool>)
    ensures
        ({
            let s = spec_compare(src, dst, keep);
            &&& s.download.len() + s.trash.len() + 2 * s.pairs == src.len() + dst.len()
                + s.pair_downloads
            &&& s.pair_downloads <= s.pairs
            &&& s.correct.len() + s.hash_pending.len() <= s.pairs
        }),
    decreases src.len() + dst.len(),
{
    if src.len() == 0 && dst.len() == 0 {
    } else if dst.len() == 0 || (src.len() > 0 && ci_lt(src[0].path@, dst[0].path@)) {
        lemma_compare_totality(src.skip(1), dst, keep);
    } else if src.len() == 0 || ci_lt(dst[0].path@, src[0].path@) {
        lemma_compare_totality(src, dst.skip(1), keep);
    } else {
        match pair_action(src[0], dst[0]) {
            PairAction::HashCheck => {
                let rest_keep = if keep.len() > 0 {
                    keep.skip(1)
                } else {
                    keep
                };
                lemma_compare_totality(src.skip(1), dst.skip(1), rest_keep);
            },
            _ => {
                lemma_compare_totality(src.skip(1), dst.skip(1), keep);
            },
        }
    }
}

/// The destination entry of each correct-time or hash-check pair.
pub open spec fn pair_destinations(c: Seq<(FileEntry, FileEntry)>) -> Seq<FileEntry> {
    c.map(|i: int, p: (FileEntry, FileEntry)| p.1)
}

/// Each output list is a subsequence of the input manifest it came
/// from: the download list of the source, the trash list of the
/// destination, and the destination side of the correct-time and
/// hash-check pairs of the destination.  In particular every output
/// entry is an input entry unchanged, with its original casing.
pub proof fn lemma_compare_subsequences(src: Seq<FileEntry>, dst: Seq<FileEntry>, keep: Seq<bool>)
    ensures
        ({
            let s = spec_compare(src, dst, keep);
            &&& crate::subseq::subseq_of(s.download, src)
            &&& crate::subseq::subseq_of(s.trash, dst)
            &&& crate::subseq::subseq_of(pair_destinations(s.correct), dst)
            &&& crate::subseq::subseq_of(pair_destinations(s.hash_pending), dst)
        }),
    decreases src.len() + dst.len(),
{
    let s = spec_compare(src, dst, keep);
    if src.len() == 0 && dst.len() == 0 {
    } else if dst.len() == 0 || (src.len() > 0 && ci_lt(src[0].path@, dst[0].path@)) {
        lemma_compare_subsequences(src.skip(1), dst, keep);
        let r = spec_compare(src.skip(1), dst, keep);
        assert(s.download == seq![src[0]] + r.download);
        assert(s.download[0] == src[0]);
        assert(s.download.skip(1) =~= r.download);
    } else if src.len() == 0 || ci_lt(dst[0].path@, src[0].path@) {
        lemma_compare_subsequences(src, dst.skip(1), keep);
        let r = spec_compare(src, dst.skip(1), keep);
        assert(s.trash[0] == dst[0]);
        assert(s.trash.skip(1) =~= r.trash);
    } else {
        let rest_keep = if keep.len() > 0 {
            keep.skip(1)
        } else {
            keep
        };
        match pair_action(src[0], dst[0]) {
            PairAction::Download => {
                lemma_compare_subsequences(src.skip(1), dst.skip(1), keep);
                let r = spec_compare(src.skip(1), dst.skip(1), keep);
                assert(s.download[0] == src[0]);
                assert(s.download.skip(1) =~= r.download);
            },
            PairAction::CorrectTime => {
                lemma_compare_subsequences(src.skip(1), dst.skip(1), keep);
                let r = spec_compare(src.skip(1), dst.skip(1), keep);
                assert(pair_destinations(s.correct)[0] == dst[0]);
                assert(pair_destinations(s.correct).skip(1) =~= pair_destinations(r.correct));
            },
            PairAction::HashCheck => {
                lemma_compare_subsequences(src.skip(1), dst.skip(1), rest_keep);
                let r = spec_compare(src.skip(1), dst.skip(1), rest_keep);
                let take = keep.len() > 0 && keep[0];
                if take {
                    assert(s.download[0] == src[0]);
                    assert(s.download.skip(1) =~= r.download);
                }
                assert(pair_destinations(s.hash_pending)[0] == dst[0]);
                assert(pair_destinations(s.hash_pending).skip(1) =~= pair_destinations(
                    r.hash_pending,
                ));
            },
            PairAction::Nothing => {
                lemma_compare_subsequences(src.skip(1), dst.skip(1), keep);
                let r = spec_compare(src.skip(1), dst.skip(1), keep);
            },
        }
    }
}

/// Ordering preservation: on sorted inputs every output list of the
/// merge-join is sorted in the same ascending case-insensitive path
/// order, whatever the hash checks decide.
pub proof fn lemma_compare_ordering(src: Seq<FileEntry>, dst: Seq<FileEntry>, keep: Seq<bool>)
    requires
        manifest_sorted(src),
        manifest_sorted(dst),
    ensures
        ({
            let s = spec_compare(src, dst, keep);
            &&& manifest_sorted(s.download)
            &&& manifest_sorted(s.trash)
            &&& manifest_sorted(pair_destinations(s.correct))
            &&& manifest_sorted(pair_destinations(s.hash_pending))
        }),
{
    let s = spec_compare(src, dst, keep);
    lemma_compare_subsequences(src, dst, keep);
    crate::subseq::lemma_subseq_sorted(s.download, src);
    crate::subseq::lemma_subseq_sorted(s.trash, dst);
    crate::subseq::lemma_subseq_sorted(pair_destinations(s.correct), dst);
    crate::subseq::lemma_subseq_sorted(pair_destinations(s.hash_pending), dst);
}

/// Comparing a manifest against an equivalent one gives no action:
/// when both sides list the same files (case-insensitively equal
/// paths, equal sizes, equal modified times), every list of the
/// outcome is empty.  This is the comparator's share of idempotence:
/// after the outputs of a run are applied and a fresh listing is
/// taken, the next run has nothing left to do.
pub proof fn lemma_compare_equivalent_inputs(
    src: Seq<FileEntry>,
    dst: Seq<FileEntry>,
    keep: Seq<bool>,
)
    requires
        src.len() == dst.len(),
        forall|i: int|
            0 <= i < src.len() ==> crate::order::ci_eq(
                (#[trigger] src[i]).path@,
                (#[trigger] dst[i]).path@,
            ) && src[i].size == dst[i].size && src[i].modified_seconds == dst[i].modified_seconds,
    ensures
        ({
            let s = spec_compare(src, dst, keep);
            &&& s.download.len() == 0
            &&& s.trash.len() == 0
            &&& s.correct.len() == 0
            &&& s.hash_pending.len() == 0
        }),
    decreases src.len(),
{
    if src.len() == 0 {
    } else {
        lemma_ci_trichotomy(src[0].path@, dst[0].path@);
        assert(pair_action(src[0], dst[0]) == PairAction::Nothing);
        assert forall|i: int|
            0 <= i < src.skip(1).len() implies crate::order::ci_eq(
            (#[trigger] src.skip(1)[i]).path@,
            (#[trigger] dst.skip(1)[i]).path@,
        ) && src.skip(1)[i].size == dst.skip(1)[i].size && src.skip(1)[i].modified_seconds
            == dst.skip(1)[i].modified_seconds by {
            assert(src.skip(1)[i] == src[i + 1]);
            assert(dst.skip(1)[i] == dst[i + 1]);
        }
        lemma_compare_equivalent_inputs(src.skip(1), dst.skip(1), keep);
    }
}

/// Case-insensitive match, case-preserving output: two entries whose
/// paths differ only in case are one logical file, never a download
/// plus a trash; and when the metadata rule does order a transfer,
/// the emitted entry is the source entry itself, original casing and
/// all.
pub proof fn lemma_case_insensitive_match(s: FileEntry, d: FileEntry, keep: Seq<bool>)
    requires
        crate::order::ci_eq(s.path@, d.path@),
    ensures
        ({
            let r = spec_compare(seq![s], seq![d], keep);
            &&& r.trash.len() == 0
            &&& r.download.len() <= 1
            &&& r.download.len() == 1 ==> r.download[0] == s
            &&& r.pairs == 1
        }),
{
    lemma_ci_trichotomy(s.path@, d.path@);
    let src = seq![s];
    let dst = seq![d];
    assert(src[0] == s);
    assert(dst[0] == d);
    assert(src.skip(1).len() == 0);
    assert(dst.skip(1).len() == 0);
    let k2 = if keep.len() > 0 {
        keep.skip(1)
    } else {
        keep
    };
    assert(spec_compare(src.skip(1), dst.skip(1), keep).download.len() == 0);
    assert(spec_compare(src.skip(1), dst.skip(1), keep).trash.len() == 0);
    assert(spec_compare(src.skip(1), dst.skip(1), keep).pairs == 0);
    assert(spec_compare(src.skip(1), dst.skip(1), k2).download.len() == 0);
    assert(spec_compare(src.skip(1), dst.skip(1), k2).trash.len() == 0);
    assert(spec_compare(src.skip(1), dst.skip(1), k2).pairs == 0);
}

/// Tolerance boundary: for an equal-path pair of equal size without a
/// content hash, the entry is downloaded exactly when the modified
/// times differ by strictly more than two seconds; a difference of
/// exactly two seconds is treated as equal.
pub proof fn lemma_tolerance_boundary(s: FileEntry, d: FileEntry)
    requires
        s.size == d.size,
        s.content_hash is None,
    ensures
        pair_action(s, d) == PairAction::Download <==> seconds_delta(
            s.modified_seconds,
            d.modified_seconds,
        ) > 2,
{
}

} // verus!
