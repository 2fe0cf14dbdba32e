//! The folder comparator: the same merge-join skeleton as the file
//! comparator, over plain sorted path lists without metadata.  A
//! source-only folder is created, a destination-only folder is
//! trashed, an equal pair needs no action.

use vstd::prelude::*;

use crate::order::{ci_le, ci_lt, lemma_ci_trichotomy};
use crate::subseq::subseq_of;

verus! {

/// A path list sorted in the case-insensitive order.
pub open spec fn paths_sorted(p: Seq<Seq<char>>) -> bool {
    forall|i: int, j: int| 0 <= i < j < p.len() ==> ci_le(p[i], p[j])
}

/// The outcome of the folder merge-join, as mathematical sequences.
/// `matched` counts the equal-path meetings.
pub ghost struct SpecFolderCompare {
    pub create: Seq<Seq<char>>,
    pub trash: Seq<Seq<char>>,
    pub matched: nat,
}

/// The folder merge-join.
pub open spec fn spec_compare_folders(src: Seq<Seq<char>>, dst: Seq<Seq<char>>) -> SpecFolderCompare
    decreases src.len() + dst.len(),
{
    if src.len() == 0 && dst.len() == 0 {
        SpecFolderCompare { create: Seq::empty(), trash: Seq::empty(), matched: 0 }
    } else if dst.len() == 0 || (src.len() > 0 && ci_lt(src[0], dst[0])) {
        let r = spec_compare_folders(src.skip(1), dst);
        SpecFolderCompare { create: seq![src[0]] + r.create, trash: r.trash, matched: r.matched }
    } else if src.len() == 0 || ci_lt(dst[0], src[0]) {
        let r = spec_compare_folders(src, dst.skip(1));
        SpecFolderCompare { create: r.create, trash: seq![dst[0]] + r.trash, matched: r.matched }
    } else {
        let r = spec_compare_folders(src.skip(1), dst.skip(1));
        SpecFolderCompare { create: r.create, trash: r.trash, matched: r.matched + 1 }
    }
}

/// Compares two sorted folder lists (source against destination) and
/// returns the create-folder list and the trash-folder list, in that
/// order.  Sortedness of the inputs is the caller's obligation and is
/// not checked.
pub fn compare_folders(source: &Vec<String>, destination: &Vec<String>) -> (r: (
    Vec<String>,
    Vec<String>,
))
    ensures
        r.0.deep_view() == spec_compare_folders(source.deep_view(), destination.deep_view()).create,
        r.1.deep_view() == spec_compare_folders(source.deep_view(), destination.deep_view()).trash,
{
    let mut for_create: Vec<String> = Vec::new();
    let mut for_trash: Vec<String> = Vec::new();
    let mut i: usize = 0;
    let mut j: usize = 0;
    let ghost src = source.deep_view();
    let ghost dst = destination.deep_view();
    let ghost whole = spec_compare_folders(src, dst);
    proof {
        assert(src.skip(0) =~= src);
        assert(dst.skip(0) =~= dst);
    }
    while i < source.len() || j < destination.len()
        invariant
            0 <= i <= source.len(),
            0 <= j <= destination.len(),
            src == source.deep_view(),
            dst == destination.deep_view(),
            source@.len() == src.len(),
            destination@.len() == dst.len(),
            whole == spec_compare_folders(src, dst),
            whole.create =~~= for_create.deep_view() + spec_compare_folders(
                src.skip(i as int),
                dst.skip(j as int),
            ).create,
            whole.trash =~~= for_trash.deep_view() + spec_compare_folders(
                src.skip(i as int),
                dst.skip(j as int),
            ).trash,
        decreases source.len() - i + destination.len() - j,
    {
        let ghost s_rest = src.skip(i as int);
        let ghost d_rest = dst.skip(j as int);
        proof {
            if i < src.len() {
                assert(s_rest[0] == src[i as int]);
                assert(s_rest.skip(1) =~= src.skip(i as int + 1));
                assert(source@[i as int]@ == src[i as int]);
            }
            if j < dst.len() {
                assert(d_rest[0] == dst[j as int]);
                assert(d_rest.skip(1) =~= dst.skip(j as int + 1));
                assert(destination@[j as int]@ == dst[j as int]);
            }
        }
        if i >= source.len() {
            proof {
                let r2 = spec_compare_folders(s_rest, d_rest.skip(1));
                assert(spec_compare_folders(s_rest, d_rest).trash =~~= seq![d_rest[0]] + r2.trash);
                assert(spec_compare_folders(s_rest, d_rest).create =~~= r2.create);
            }
            for_trash.push(destination[j].clone());
            j = j + 1;
        } else if j >= destination.len() {
            proof {
                let r2 = spec_compare_folders(s_rest.skip(1), d_rest);
                assert(spec_compare_folders(s_rest, d_rest).create =~~= seq![s_rest[0]]
                    + r2.create);
                assert(spec_compare_folders(s_rest, d_rest).trash =~~= r2.trash);
            }
            for_create.push(source[i].clone());
            i = i + 1;
        } else {
            let ord = crate::order::ci_compare(source[i].as_str(), destination[j].as_str());
            proof {
                lemma_ci_trichotomy(src[i as int], dst[j as int]);
            }
            match ord {
                core::cmp::Ordering::Less => {
                    proof {
                        let r2 = spec_compare_folders(s_rest.skip(1), d_rest);
                        assert(spec_compare_folders(s_rest, d_rest).create =~~= seq![s_rest[0]]
                            + r2.create);
                        assert(spec_compare_folders(s_rest, d_rest).trash =~~= r2.trash);
                    }
                    for_create.push(source[i].clone());
                    i = i + 1;
                },
                core::cmp::Ordering::Greater => {
                    proof {
                        let r2 = spec_compare_folders(s_rest, d_rest.skip(1));
                        assert(spec_compare_folders(s_rest, d_rest).trash =~~= seq![d_rest[0]]
                            + r2.trash);
                        assert(spec_compare_folders(s_rest, d_rest).create =~~= r2.create);
                    }
                    for_trash.push(destination[j].clone());
                    j = j + 1;
                },
                core::cmp::Ordering::Equal => {
                    proof {
                        assert(s_rest.skip(1) =~= src.skip(i as int + 1));
                        assert(d_rest.skip(1) =~= dst.skip(j as int + 1));
                    }
                    i = i + 1;
                    j = j + 1;
                },
            }
        }
    }
    proof {
        assert(src.skip(src.len() as int).len() == 0);
        assert(dst.skip(dst.len() as int).len() == 0);
        assert(for_create.deep_view() =~~= whole.create);
        assert(for_trash.deep_view() =~~= whole.trash);
    }
    (for_create, for_trash)
}

/// Folder merge-join totality: every path of the two inputs is
/// consumed exactly once; an equal-path meeting consumes one of each
/// side and emits nothing.
pub proof fn lemma_compare_folders_totality(src: Seq<Seq<char>>, dst: Seq<Seq<char>>)
    ensures
        ({
            let s = spec_compare_folders(src, dst);
            s.create.len() + s.trash.len() + 2 * s.matched == src.len() + dst.len()
        }),
    decreases src.len() + dst.len(),
{
    if src.len() == 0 && dst.len() == 0 {
    } else if dst.len() == 0 || (src.len() > 0 && ci_lt(src[0], dst[0])) {
        lemma_compare_folders_totality(src.skip(1), dst);
    } else if src.len() == 0 || ci_lt(dst[0], src[0]) {
        lemma_compare_folders_totality(src, dst.skip(1));
    } else {
        lemma_compare_folders_totality(src.skip(1), dst.skip(1));
    }
}

/// The create list is a subsequence of the source and the trash list
/// a subsequence of the destination: every output path is an input
/// path unchanged, with its original casing.
pub proof fn lemma_compare_folders_subsequences(src: Seq<Seq<char>>, dst: Seq<Seq<char>>)
    ensures
        subseq_of(spec_compare_folders(src, dst).create, src),
        subseq_of(spec_compare_folders(src, dst).trash, dst),
    decreases src.len() + dst.len(),
{
    let s = spec_compare_folders(src, dst);
    if src.len() == 0 && dst.len() == 0 {
    } else if dst.len() == 0 || (src.len() > 0 && ci_lt(src[0], dst[0])) {
        lemma_compare_folders_subsequences(src.skip(1), dst);
        let r = spec_compare_folders(src.skip(1), dst);
        assert(s.create[0] == src[0]);
        assert(s.create.skip(1) =~= r.create);
    } else if src.len() == 0 || ci_lt(dst[0], src[0]) {
        lemma_compare_folders_subsequences(src, dst.skip(1));
        let r = spec_compare_folders(src, dst.skip(1));
        assert(s.trash[0] == dst[0]);
        assert(s.trash.skip(1) =~= r.trash);
    } else {
        lemma_compare_folders_subsequences(src.skip(1), dst.skip(1));
    }
}

/// A lower bound on every path of `b` bounds every path of a
/// subsequence of `b` too.
proof fn lemma_paths_lower_bound(a: Seq<Seq<char>>, b: Seq<Seq<char>>, p: Seq<char>)
    requires
        subseq_of(a, b),
        forall|k: int| 0 <= k < b.len() ==> ci_le(p, #[trigger] b[k]),
    ensures
        forall|k: int| 0 <= k < a.len() ==> ci_le(p, #[trigger] a[k]),
    decreases b.len(),
{
    if a.len() == 0 {
    } else if a[0] == b[0] && subseq_of(a.skip(1), b.skip(1)) {
        assert(forall|k: int| 0 <= k < b.skip(1).len() ==> ci_le(p, #[trigger] b.skip(1)[k]));
        lemma_paths_lower_bound(a.skip(1), b.skip(1), p);
        assert forall|k: int| 0 <= k < a.len() implies ci_le(p, #[trigger] a[k]) by {
            if k > 0 {
                assert(a[k] == a.skip(1)[k - 1]);
            }
        }
    } else {
        assert(forall|k: int| 0 <= k < b.skip(1).len() ==> ci_le(p, #[trigger] b.skip(1)[k]));
        lemma_paths_lower_bound(a, b.skip(1), p);
    }
}

/// A subsequence of a sorted path list is sorted.
pub proof fn lemma_paths_subseq_sorted(a: Seq<Seq<char>>, b: Seq<Seq<char>>)
    requires
        subseq_of(a, b),
        paths_sorted(b),
    ensures
        paths_sorted(a),
    decreases b.len(),
{
    if a.len() == 0 {
    } else if a[0] == b[0] && subseq_of(a.skip(1), b.skip(1)) {
        assert(paths_sorted(b.skip(1))) by {
            assert forall|i: int, j: int|
                0 <= i < j < b.skip(1).len() implies ci_le(b.skip(1)[i], b.skip(1)[j]) by {
                assert(b.skip(1)[i] == b[i + 1]);
                assert(b.skip(1)[j] == b[j + 1]);
            }
        }
        lemma_paths_subseq_sorted(a.skip(1), b.skip(1));
        assert(forall|k: int| 0 <= k < b.skip(1).len() ==> ci_le(b[0], #[trigger] b.skip(1)[k]))
            by {
            assert forall|k: int|
                0 <= k < b.skip(1).len() implies ci_le(b[0], #[trigger] b.skip(1)[k]) by {
                assert(b.skip(1)[k] == b[k + 1]);
            }
        }
        lemma_paths_lower_bound(a.skip(1), b.skip(1), b[0]);
        assert forall|i: int, j: int| 0 <= i < j < a.len() implies ci_le(a[i], a[j]) by {
            if i == 0 {
                assert(a[j] == a.skip(1)[j - 1]);
            } else {
                assert(a[i] == a.skip(1)[i - 1]);
                assert(a[j] == a.skip(1)[j - 1]);
            }
        }
    } else {
        assert(paths_sorted(b.skip(1))) by {
            assert forall|i: int, j: int|
                0 <= i < j < b.skip(1).len() implies ci_le(b.skip(1)[i], b.skip(1)[j]) by {
                assert(b.skip(1)[i] == b[i + 1]);
                assert(b.skip(1)[j] == b[j + 1]);
            }
        }
        lemma_paths_subseq_sorted(a, b.skip(1));
    }
}

/// Comparing a folder list against an equivalent one gives no
/// action: when both sides list case-insensitively equal paths, both
/// output lists are empty.
pub proof fn lemma_compare_folders_equivalent_inputs(src: Seq<Seq<char>>, dst: Seq<Seq<char>>)
    requires
        src.len() == dst.len(),
        forall|i: int| 0 <= i < src.len() ==> crate::order::ci_eq(#[trigger] src[i], dst[i]),
    ensures
        spec_compare_folders(src, dst).create.len() == 0,
        spec_compare_folders(src, dst).trash.len() == 0,
    decreases src.len(),
{
    if src.len() == 0 {
    } else {
        lemma_ci_trichotomy(src[0], dst[0]);
        assert forall|i: int|
            0 <= i < src.skip(1).len() implies crate::order::ci_eq(
            #[trigger] src.skip(1)[i],
            dst.skip(1)[i],
        ) by {
            assert(src.skip(1)[i] == src[i + 1]);
            assert(dst.skip(1)[i] == dst[i + 1]);
        }
        lemma_compare_folders_equivalent_inputs(src.skip(1), dst.skip(1));
    }
}

/// Ordering preservation for folders: on sorted inputs both output
/// lists are sorted in the same ascending case-insensitive order.
pub proof fn lemma_compare_folders_ordering(src: Seq<Seq<char>>, dst: Seq<Seq<char>>)
    requires
        paths_sorted(src),
        paths_sorted(dst),
    ensures
        paths_sorted(spec_compare_folders(src, dst).create),
        paths_sorted(spec_compare_folders(src, dst).trash),
{
    lemma_compare_folders_subsequences(src, dst);
    lemma_paths_subseq_sorted(spec_compare_folders(src, dst).create, src);
    lemma_paths_subseq_sorted(spec_compare_folders(src, dst).trash, dst);
}

} // verus!
