//! Case-insensitive, case-preserving ordering on paths.
//!
//! Manifests are sorted by comparing paths character by character after
//! folding ASCII upper-case letters to lower case; the stored text keeps
//! its original case.  This is the same order that comparing the
//! lower-case folds of the code points lexicographically produces.

use vstd::prelude::*;

verus! {

/// Case fold of one character: ASCII upper-case letters map to their
/// lower-case code point, every other character is unchanged.
pub open spec fn fold_char(c: char) -> int {
    if 'A' <= c && c <= 'Z' {
        c as int + 32
    } else {
        c as int
    }
}

/// Two character sequences are equal under the case-insensitive order.
pub open spec fn ci_eq(a: Seq<char>, b: Seq<char>) -> bool {
    a.len() == b.len() && forall|i: int| 0 <= i < a.len() ==> fold_char(a[i]) == fold_char(b[i])
}

/// `a` comes strictly before `b` under the case-insensitive order:
/// lexicographic comparison of the folded code points, with a proper
/// prefix ordered first.
pub open spec fn ci_lt(a: Seq<char>, b: Seq<char>) -> bool
    decreases a.len(),
{
    if b.len() == 0 {
        false
    } else if a.len() == 0 {
        true
    } else if fold_char(a[0]) < fold_char(b[0]) {
        true
    } else if fold_char(a[0]) > fold_char(b[0]) {
        false
    } else {
        ci_lt(a.skip(1), b.skip(1))
    }
}

/// `a` comes before `b` or is equal to it under the case-insensitive order.
pub open spec fn ci_le(a: Seq<char>, b: Seq<char>) -> bool {
    ci_lt(a, b) || ci_eq(a, b)
}

/// Exactly one of `ci_lt(a, b)`, `ci_eq(a, b)`, `ci_lt(b, a)` holds:
/// the case-insensitive order is total.
pub proof fn lemma_ci_trichotomy(a: Seq<char>, b: Seq<char>)
    ensures
        ci_lt(a, b) || ci_eq(a, b) || ci_lt(b, a),
        ci_lt(a, b) ==> !ci_eq(a, b) && !ci_lt(b, a),
        ci_eq(a, b) ==> !ci_lt(a, b) && !ci_lt(b, a),
    decreases a.len() + b.len(),
{
    if a.len() == 0 || b.len() == 0 {
    } else if fold_char(a[0]) == fold_char(b[0]) {
        lemma_ci_trichotomy(a.skip(1), b.skip(1));
        assert(ci_eq(a.skip(1), b.skip(1)) ==> ci_eq(a, b)) by {
            if ci_eq(a.skip(1), b.skip(1)) {
                assert forall|i: int| 0 <= i < a.len() implies fold_char(a[i]) == fold_char(
                    b[i],
                ) by {
                    if i > 0 {
                        assert(a.skip(1)[i - 1] == a[i]);
                        assert(b.skip(1)[i - 1] == b[i]);
                    }
                }
            }
        }
        assert(ci_eq(a, b) ==> ci_eq(a.skip(1), b.skip(1))) by {
            if ci_eq(a, b) {
                assert forall|i: int| 0 <= i < a.skip(1).len() implies fold_char(
                    a.skip(1)[i],
                ) == fold_char(b.skip(1)[i]) by {
                    assert(a.skip(1)[i] == a[i + 1]);
                    assert(b.skip(1)[i] == b[i + 1]);
                }
            }
        }
    }
}

/// The case-insensitive strict order is transitive.
pub proof fn lemma_ci_lt_transitive(a: Seq<char>, b: Seq<char>, c: Seq<char>)
    requires
        ci_lt(a, b),
        ci_lt(b, c),
    ensures
        ci_lt(a, c),
    decreases a.len() + b.len() + c.len(),
{
    if a.len() == 0 {
    } else if fold_char(a[0]) < fold_char(c[0]) {
    } else {
        lemma_ci_lt_transitive(a.skip(1), b.skip(1), c.skip(1));
    }
}

/// Replacing either side of the strict order by a case-insensitively
/// equal sequence does not change the order.
pub proof fn lemma_ci_lt_congruence(a: Seq<char>, b: Seq<char>, a2: Seq<char>, b2: Seq<char>)
    requires
        ci_eq(a, a2),
        ci_eq(b, b2),
    ensures
        ci_lt(a, b) == ci_lt(a2, b2),
    decreases a.len() + b.len(),
{
    if a.len() == 0 || b.len() == 0 {
    } else {
        assert(fold_char(a[0]) == fold_char(a2[0]));
        assert(fold_char(b[0]) == fold_char(b2[0]));
        assert(ci_eq(a.skip(1), a2.skip(1))) by {
            assert forall|i: int| 0 <= i < a.skip(1).len() implies fold_char(
                a.skip(1)[i],
            ) == fold_char(a2.skip(1)[i]) by {
                assert(a.skip(1)[i] == a[i + 1]);
                assert(a2.skip(1)[i] == a2[i + 1]);
            }
        }
        assert(ci_eq(b.skip(1), b2.skip(1))) by {
            assert forall|i: int| 0 <= i < b.skip(1).len() implies fold_char(
                b.skip(1)[i],
            ) == fold_char(b2.skip(1)[i]) by {
                assert(b.skip(1)[i] == b[i + 1]);
                assert(b2.skip(1)[i] == b2[i + 1]);
            }
        }
        lemma_ci_lt_congruence(a.skip(1), b.skip(1), a2.skip(1), b2.skip(1));
    }
}

/// The non-strict order is transitive.
pub proof fn lemma_ci_le_transitive(a: Seq<char>, b: Seq<char>, c: Seq<char>)
    requires
        ci_le(a, b),
        ci_le(b, c),
    ensures
        ci_le(a, c),
{
    if ci_lt(a, b) && ci_lt(b, c) {
        lemma_ci_lt_transitive(a, b, c);
    } else if ci_lt(a, b) && ci_eq(b, c) {
        lemma_ci_eq_reflexive(a);
        lemma_ci_lt_congruence(a, b, a, c);
    } else if ci_eq(a, b) && ci_lt(b, c) {
        lemma_ci_eq_reflexive(c);
        lemma_ci_lt_congruence(b, c, a, c);
    } else {
        assert(ci_eq(a, c));
    }
}

/// The case-insensitive equality is reflexive.
pub proof fn lemma_ci_eq_reflexive(a: Seq<char>)
    ensures
        ci_eq(a, a),
{
}

/// The case-insensitive equality is transitive.
pub proof fn lemma_ci_eq_transitive(a: Seq<char>, b: Seq<char>, c: Seq<char>)
    requires
        ci_eq(a, b),
        ci_eq(b, c),
    ensures
        ci_eq(a, c),
{
}

/// Fold of one character, executable form.
pub fn fold_char_exec(c: char) -> (r: u32)
    ensures
        r as int == fold_char(c),
{
    if 'A' <= c && c <= 'Z' {
        c as u32 + 32
    } else {
        c as u32
    }
}

/// Compares two strings in the case-insensitive, case-preserving order.
pub fn ci_compare(a: &str, b: &str) -> (r: core::cmp::Ordering)
    ensures
        r == core::cmp::Ordering::Less <==> ci_lt(a@, b@),
        r == core::cmp::Ordering::Equal <==> ci_eq(a@, b@),
        r == core::cmp::Ordering::Greater <==> ci_lt(b@, a@),
{
    proof {
        lemma_ci_trichotomy(a@, b@);
    }
    let a_len = a.unicode_len();
    let b_len = b.unicode_len();
    let n = if a_len < b_len {
        a_len
    } else {
        b_len
    };
    let mut i: usize = 0;
    while i < n
        invariant
            0 <= i <= n,
            n == if a_len < b_len {
                a_len
            } else {
                b_len
            },
            a_len == a@.len(),
            b_len == b@.len(),
            forall|k: int| 0 <= k < i ==> fold_char(a@[k]) == fold_char(b@[k]),
        decreases n - i,
    {
        let ca = a.get_char(i);
        let cb = b.get_char(i);
        let fa = fold_char_exec(ca);
        let fb = fold_char_exec(cb);
        if fa < fb {
            proof {
                lemma_ci_lt_from_position(a@, b@, i as int);
                lemma_ci_trichotomy(a@, b@);
            }
            return core::cmp::Ordering::Less;
        } else if fa > fb {
            proof {
                lemma_ci_lt_from_position(b@, a@, i as int);
                lemma_ci_trichotomy(a@, b@);
            }
            return core::cmp::Ordering::Greater;
        }
        i = i + 1;
    }
    if a_len < b_len {
        proof {
            lemma_ci_lt_prefix(a@, b@);
        }
        core::cmp::Ordering::Less
    } else if a_len > b_len {
        proof {
            lemma_ci_lt_prefix(b@, a@);
            lemma_ci_trichotomy(a@, b@);
        }
        core::cmp::Ordering::Greater
    } else {
        assert(ci_eq(a@, b@));
        proof {
            lemma_ci_trichotomy(a@, b@);
        }
        core::cmp::Ordering::Equal
    }
}

/// If the folds agree before position `i` and differ in `a`'s favour at
/// `i`, then `a` comes strictly first.
proof fn lemma_ci_lt_from_position(a: Seq<char>, b: Seq<char>, i: int)
    requires
        0 <= i < a.len(),
        i < b.len(),
        forall|k: int| 0 <= k < i ==> fold_char(a[k]) == fold_char(b[k]),
        fold_char(a[i]) < fold_char(b[i]),
    ensures
        ci_lt(a, b),
    decreases i,
{
    if i == 0 {
    } else {
        assert forall|k: int| 0 <= k < i - 1 implies fold_char(a.skip(1)[k]) == fold_char(
            b.skip(1)[k],
        ) by {
            assert(a.skip(1)[k] == a[k + 1]);
            assert(b.skip(1)[k] == b[k + 1]);
        }
        assert(a.skip(1)[i - 1] == a[i]);
        assert(b.skip(1)[i - 1] == b[i]);
        lemma_ci_lt_from_position(a.skip(1), b.skip(1), i - 1);
    }
}

/// A proper prefix (under the fold) comes strictly first.
proof fn lemma_ci_lt_prefix(a: Seq<char>, b: Seq<char>)
    requires
        a.len() < b.len(),
        forall|k: int| 0 <= k < a.len() ==> fold_char(a[k]) == fold_char(b[k]),
    ensures
        ci_lt(a, b),
    decreases a.len(),
{
    if a.len() == 0 {
    } else {
        assert forall|k: int| 0 <= k < a.len() - 1 implies fold_char(a.skip(1)[k]) == fold_char(
            b.skip(1)[k],
        ) by {
            assert(a.skip(1)[k] == a[k + 1]);
            assert(b.skip(1)[k] == b[k + 1]);
        }
        lemma_ci_lt_prefix(a.skip(1), b.skip(1));
    }
}

/// Convenience form: strictly-before test on strings.
pub fn ci_less(a: &str, b: &str) -> (r: bool)
    ensures
        r == ci_lt(a@, b@),
{
    matches!(ci_compare(a, b), core::cmp::Ordering::Less)
}

} // verus!
