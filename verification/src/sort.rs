//! Sorting large manifests before the merge-join.  Sortedness is the
//! merge-join's correctness precondition, and the lists run to
//! hundreds of thousands of lines, so the sort is data-parallel; the
//! comparator it applies is the verified case-insensitive comparison.

use vstd::prelude::*;

use crate::folders::paths_sorted;
use crate::text::{join_with, spec_join};

verus! {

/// Sorts the strings in place in the case-insensitive order.
///
/// Relies on rayon's `par_sort_unstable_by`: it sorts the slice in
/// place by the given comparator function, which rayon requires to be
/// a total order.  The comparator here is the verified
/// case-insensitive comparison, and it is a total order up to
/// case-equality: `lemma_ci_trichotomy`, `lemma_ci_lt_transitive` and
/// `lemma_ci_le_transitive` state totality and transitivity.  The
/// result is a rearrangement of the input; among case-insensitively
/// equal strings the order is unspecified.
#[verifier::external_body]
fn par_sort_ci(list: &mut Vec<String>)
    ensures
        final(list).deep_view().to_multiset() == old(list).deep_view().to_multiset(),
        paths_sorted(final(list).deep_view()),
{
    rayon::slice::ParallelSliceMut::par_sort_unstable_by(
        list.as_mut_slice(),
        |a: &String, b: &String| crate::order::ci_compare(a.as_str(), b.as_str()),
    );
}

/// The text is some case-insensitively sorted rearrangement of the
/// given lines, joined with LF.
pub open spec fn is_sorted_joined(lines: Seq<Seq<char>>, r: Seq<char>) -> bool {
    exists|p: Seq<Seq<char>>|
        #![trigger spec_join(p, seq!['\n'])]
        {
            &&& p.to_multiset() == lines.to_multiset()
            &&& paths_sorted(p)
            &&& r == spec_join(p, seq!['\n'])
        }
}

/// Sorts a list of lines case-insensitively and joins them with LF.
/// Which order case-insensitively equal lines keep among themselves
/// is unspecified.
pub fn sort_list(list: Vec<String>) -> (r: String)
    ensures
        is_sorted_joined(list.deep_view(), r@),
{
    let ghost lines = list.deep_view();
    let mut sorted = list;
    par_sort_ci(&mut sorted);
    proof {
        reveal_strlit("\n");
        assert("\n"@ =~= seq!['\n']);
    }
    let r = join_with(&sorted, "\n");
    proof {
        let p = sorted.deep_view();
        assert(r@ == spec_join(p, seq!['\n']));
    }
    r
}

/// Splits a text into lines, sorts them case-insensitively, and joins
/// them back with LF.
pub fn sort_string_lines(text: &str) -> (r: String)
    ensures
        is_sorted_joined(crate::manifest::spec_lines(text@), r@),
{
    let lines = crate::manifest::lines_of(text);
    sort_list(lines)
}

} // verus!
