//! Subsequences: the shape in which the comparator's outputs relate
//! to its inputs.  Every output list of the merge-join is a
//! subsequence of one input manifest, which is also why output lines
//! keep the original text of their entries unchanged.

use vstd::prelude::*;

use crate::manifest::{manifest_sorted, FileEntry};
use crate::order::ci_le;

verus! {

/// `a` is a subsequence of `b`: the items of `a` appear in `b`, in
/// order, not necessarily adjacent.
pub open spec fn subseq_of<T>(a: Seq<T>, b: Seq<T>) -> bool
    decreases b.len(),
{
    if a.len() == 0 {
        true
    } else if b.len() == 0 {
        false
    } else {
        (a[0] == b[0] && subseq_of(a.skip(1), b.skip(1))) || subseq_of(a, b.skip(1))
    }
}

/// A lower bound on every path of `b` bounds every path of a
/// subsequence of `b` too.
proof fn lemma_subseq_lower_bound(a: Seq<FileEntry>, b: Seq<FileEntry>, p: Seq<char>)
    requires
        subseq_of(a, b),
        forall|k: int| 0 <= k < b.len() ==> ci_le(p, (#[trigger] b[k]).path@),
    ensures
        forall|k: int| 0 <= k < a.len() ==> ci_le(p, (#[trigger] a[k]).path@),
    decreases b.len(),
{
    if a.len() == 0 {
    } else if a[0] == b[0] && subseq_of(a.skip(1), b.skip(1)) {
        assert(forall|k: int|
            0 <= k < b.skip(1).len() ==> ci_le(p, (#[trigger] b.skip(1)[k]).path@));
        lemma_subseq_lower_bound(a.skip(1), b.skip(1), p);
        assert forall|k: int| 0 <= k < a.len() implies ci_le(p, (#[trigger] a[k]).path@) by {
            if k > 0 {
                assert(a[k] == a.skip(1)[k - 1]);
            }
        }
    } else {
        assert(forall|k: int|
            0 <= k < b.skip(1).len() ==> ci_le(p, (#[trigger] b.skip(1)[k]).path@));
        lemma_subseq_lower_bound(a, b.skip(1), p);
    }
}

/// A subsequence of a sorted manifest is sorted: the merge-join's
/// output lists keep the ascending case-insensitive order of the
/// manifest they come from.
pub proof fn lemma_subseq_sorted(a: Seq<FileEntry>, b: Seq<FileEntry>)
    requires
        subseq_of(a, b),
        manifest_sorted(b),
    ensures
        manifest_sorted(a),
    decreases b.len(),
{
    if a.len() == 0 {
    } else if a[0] == b[0] && subseq_of(a.skip(1), b.skip(1)) {
        assert(manifest_sorted(b.skip(1))) by {
            assert forall|i: int, j: int|
                0 <= i < j < b.skip(1).len() implies ci_le(
                b.skip(1)[i].path@,
                b.skip(1)[j].path@,
            ) by {
                assert(b.skip(1)[i] == b[i + 1]);
                assert(b.skip(1)[j] == b[j + 1]);
            }
        }
        lemma_subseq_sorted(a.skip(1), b.skip(1));
        assert(forall|k: int|
            0 <= k < b.skip(1).len() ==> ci_le(b[0].path@, (#[trigger] b.skip(1)[k]).path@)) by {
            assert forall|k: int|
                0 <= k < b.skip(1).len() implies ci_le(
                b[0].path@,
                (#[trigger] b.skip(1)[k]).path@,
            ) by {
                assert(b.skip(1)[k] == b[k + 1]);
            }
        }
        lemma_subseq_lower_bound(a.skip(1), b.skip(1), b[0].path@);
        assert forall|i: int, j: int| 0 <= i < j < a.len() implies ci_le(
            a[i].path@,
            a[j].path@,
        ) by {
            if i == 0 {
                assert(a[j] == a.skip(1)[j - 1]);
            } else {
                assert(a[i] == a.skip(1)[i - 1]);
                assert(a[j] == a.skip(1)[j - 1]);
            }
        }
    } else {
        assert(manifest_sorted(b.skip(1))) by {
            assert forall|i: int, j: int|
                0 <= i < j < b.skip(1).len() implies ci_le(
                b.skip(1)[i].path@,
                b.skip(1)[j].path@,
            ) by {
                assert(b.skip(1)[i] == b[i + 1]);
                assert(b.skip(1)[j] == b[j + 1]);
            }
        }
        lemma_subseq_sorted(a, b.skip(1));
    }
}

} // verus!
