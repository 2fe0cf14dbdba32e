//! The move/rename reconciler.  After the comparator runs, a file
//! that was merely moved or renamed appears once in the trash list
//! (old path) and once in the download list (new path) with the same
//! content.  Renaming locally is far cheaper than downloading again.
//!
//! Two passes, each first-match-wins over the download candidates:
//! pass one matches on basename, size and near-equal modified time;
//! pass two matches on size, near-equal modified time and an equal
//! content hash.  The passes are pure: whether a trash file is still
//! present on disk, and what its local content hash is, are inputs.

use vstd::prelude::*;

use crate::manifest::FileEntry;
use crate::timestamp::{seconds_delta, seconds_delta_exec};

verus! {

/// The final path component: everything after the last slash, or the
/// whole path when it has no slash.
pub open spec fn basename(p: Seq<char>) -> Seq<char>
    decreases p.len(),
{
    if p.len() == 0 {
        p
    } else if p.last() == '/' {
        Seq::empty()
    } else {
        basename(p.drop_last()).push(p.last())
    }
}

/// When no slash occurs at or after position `c`, and `c` is the
/// start or preceded by a slash, the basename is the suffix from `c`.
proof fn lemma_basename_suffix(p: Seq<char>, c: int)
    requires
        0 <= c <= p.len(),
        forall|k: int| c <= k < p.len() ==> p[k] != '/',
        c == 0 || p[c - 1] == '/',
    ensures
        basename(p) == p.skip(c),
    decreases p.len(),
{
    if p.len() == c {
        if c == 0 {
            assert(p.skip(0) =~= p);
        } else {
            assert(p.last() == '/');
            assert(p.skip(c) =~= Seq::<char>::empty());
        }
    } else {
        assert(p.last() != '/');
        assert(forall|k: int| c <= k < p.drop_last().len() ==> p.drop_last()[k] != '/');
        lemma_basename_suffix(p.drop_last(), c);
        assert(basename(p) == p.drop_last().skip(c).push(p.last()));
        assert(p.drop_last().skip(c).push(p.last()) =~= p.skip(c));
    }
}

/// The final path component of a path string.
pub fn basename_of(p: &str) -> (r: String)
    ensures
        r@ == basename(p@),
{
    let n = p.unicode_len();
    let mut i: usize = n;
    while i > 0
        invariant
            0 <= i <= n,
            n == p@.len(),
            forall|k: int| i <= k < n ==> p@[k] != '/',
        decreases i,
    {
        if p.get_char(i - 1) == '/' {
            proof {
                lemma_basename_suffix(p@, i as int);
            }
            return p.substring_char(i, n).to_owned();
        }
        i = i - 1;
    }
    proof {
        lemma_basename_suffix(p@, 0);
    }
    p.substring_char(0, n).to_owned()
}

/// Pass-one match: same byte count, modified times strictly within
/// the two-second tolerance, and the same final path component (the
/// directory may differ).
pub open spec fn name_match(t: FileEntry, d: FileEntry) -> bool {
    &&& t.size == d.size
    &&& seconds_delta(t.modified_seconds, d.modified_seconds) < 2
    &&& basename(t.path@) == basename(d.path@)
}

/// Tests a pass-one match.
pub fn name_match_exec(t: &FileEntry, d: &FileEntry) -> (r: bool)
    ensures
        r == name_match(*t, *d),
{
    if t.size != d.size {
        return false;
    }
    if seconds_delta_exec(t.modified_seconds, d.modified_seconds) >= 2 {
        return false;
    }
    let bt = basename_of(t.path.as_str());
    let bd = basename_of(d.path.as_str());
    bt == bd
}

/// Pass-two match: same byte count, modified times strictly within
/// the tolerance, and the local content hash of the trash file equal
/// to the recorded content hash of the download candidate.
pub open spec fn hash_match(t: FileEntry, d: FileEntry, h: Option<Seq<char>>) -> bool {
    &&& t.size == d.size
    &&& seconds_delta(t.modified_seconds, d.modified_seconds) < 2
    &&& h is Some
    &&& d.content_hash is Some
    &&& d.content_hash->0@ == h->0
}

/// Tests a pass-two match.
pub fn hash_match_exec(t: &FileEntry, d: &FileEntry, h: &Option<String>) -> (r: bool)
    ensures
        r == hash_match(*t, *d, match h {
            Some(s) => Some(s@),
            None => None,
        }),
{
    if t.size != d.size {
        return false;
    }
    if seconds_delta_exec(t.modified_seconds, d.modified_seconds) >= 2 {
        return false;
    }
    match (h, &d.content_hash) {
        (Some(local), Some(remote)) => *local == *remote,
        _ => false,
    }
}

/// One matched pair: positions in the trash list and in the download
/// list, as the lists stood when the plan was made.
#[derive(Clone, Copy, Debug, PartialEq, Eq, Structural)]
pub struct MatchPair {
    /// Position in the trash list.
    pub trash_index: usize,
    /// Position in the download list.
    pub download_index: usize,
}

/// One physical rename: move the file at `from_path` to `to_path`,
/// both relative to the backup root.
#[derive(Debug)]
pub struct RenameAction {
    /// The old location, the trash entry's path.
    pub from_path: String,
    /// The new location, the download entry's path.
    pub to_path: String,
}

/// The first unused download candidate from position `j` on that
/// pass-one matches `t`, or `-1` when there is none.
pub open spec fn first_name_match(
    t: FileEntry,
    download: Seq<FileEntry>,
    used: Seq<bool>,
    j: int,
) -> int
    decreases download.len() - j,
{
    if j < 0 || j >= download.len() {
        -1
    } else if !used[j] && name_match(t, download[j]) {
        j
    } else {
        first_name_match(t, download, used, j + 1)
    }
}

/// The pass-one plan from trash position `t` on, with `used` marking
/// download candidates already taken: for each still-present trash
/// entry, the first unused matching candidate wins and is marked
/// used; unmatched entries are passed over.
pub open spec fn spec_plan_moves(
    trash: Seq<FileEntry>,
    download: Seq<FileEntry>,
    present: Seq<bool>,
    t: int,
    used: Seq<bool>,
) -> Seq<(int, int)>
    decreases trash.len() - t,
{
    if t < 0 || t >= trash.len() {
        Seq::empty()
    } else if present[t] {
        let m = first_name_match(trash[t], download, used, 0);
        if m >= 0 {
            seq![(t, m)] + spec_plan_moves(trash, download, present, t + 1, used.update(m, true))
        } else {
            spec_plan_moves(trash, download, present, t + 1, used)
        }
    } else {
        spec_plan_moves(trash, download, present, t + 1, used)
    }
}

/// The exec pairs hold exactly the spec pairs, in order.
pub open spec fn pairs_match(v: Seq<MatchPair>, p: Seq<(int, int)>) -> bool {
    &&& v.len() == p.len()
    &&& forall|i: int|
        0 <= i < v.len() ==> (#[trigger] v[i]).trash_index as int == p[i].0
            && v[i].download_index as int == p[i].1
}

/// No download candidate is used at the start of a pass.
pub open spec fn all_unused(n: nat) -> Seq<bool> {
    Seq::new(n, |i: int| false)
}

/// Plans pass one of the reconciler: for every trash entry still
/// present on disk (`present`, aligned with the trash list), the
/// first not-yet-taken download candidate with the same basename,
/// size and near-equal modified time.  First match wins; no candidate
/// is taken twice.
pub fn plan_moves_by_name(
    trash: &Vec<FileEntry>,
    download: &Vec<FileEntry>,
    present: &Vec<bool>,
) -> (r: Vec<MatchPair>)
    requires
        present.len() == trash.len(),
    ensures
        pairs_match(
            r@,
            spec_plan_moves(trash@, download@, present@, 0, all_unused(download@.len())),
        ),
{
    let mut pairs: Vec<MatchPair> = Vec::new();
    let mut used: Vec<bool> = Vec::new();
    let mut k: usize = 0;
    while k < download.len()
        invariant
            0 <= k <= download.len(),
            used@.len() == k,
            forall|i: int| 0 <= i < k ==> used@[i] == false,
        decreases download.len() - k,
    {
        used.push(false);
        k = k + 1;
    }
    proof {
        assert(used@ =~= all_unused(download@.len()));
    }
    let mut t: usize = 0;
    let ghost whole = spec_plan_moves(trash@, download@, present@, 0, all_unused(download@.len()));
    proof {
        assert(whole.take(0) =~= Seq::<(int, int)>::empty());
    }
    while t < trash.len()
        invariant
            0 <= t <= trash.len(),
            present@.len() == trash@.len(),
            used@.len() == download@.len(),
            whole == spec_plan_moves(trash@, download@, present@, 0, all_unused(download@.len())),
            pairs@.len() <= whole.len(),
            whole =~~= whole.take(pairs@.len() as int) + spec_plan_moves(
                trash@,
                download@,
                present@,
                t as int,
                used@,
            ),
            pairs_match(pairs@, whole.take(pairs@.len() as int)),
        decreases trash.len() - t,
    {
        if present[t] {
            let mut j: usize = 0;
            let mut found: bool = false;
            while j < download.len() && !found
                invariant
                    0 <= j <= download.len(),
                    used@.len() == download@.len(),
                    present@.len() == trash@.len(),
                    0 <= t < trash@.len(),
                    !found ==> first_name_match(trash@[t as int], download@, used@, 0)
                        == first_name_match(trash@[t as int], download@, used@, j as int),
                    found ==> j > 0 && first_name_match(trash@[t as int], download@, used@, 0) == j
                        - 1,
                decreases download.len() - j,
            {
                if !used[j] && name_match_exec(&trash[t], &download[j]) {
                    found = true;
                }
                j = j + 1;
            }
            if found {
                let m = j - 1;
                let ghost u_before = used@;
                let ghost len_before = pairs@.len() as int;
                pairs.push(MatchPair { trash_index: t, download_index: m });
                used.set(m, true);
                proof {
                    assert(first_name_match(trash@[t as int], download@, u_before, 0)
                        == m as int);
                    assert(spec_plan_moves(trash@, download@, present@, t as int, u_before)
                        == seq![(t as int, m as int)] + spec_plan_moves(
                        trash@,
                        download@,
                        present@,
                        t as int + 1,
                        u_before.update(m as int, true),
                    ));
                    assert(used@ =~= u_before.update(m as int, true));
                    assert(whole[len_before] == (t as int, m as int));
                    assert(whole.take(len_before + 1) =~= whole.take(len_before).push(
                        (t as int, m as int),
                    ));
                }
            } else {
                proof {
                    assert(first_name_match(trash@[t as int], download@, used@, 0) == -1);
                    assert(spec_plan_moves(trash@, download@, present@, t as int, used@)
                        == spec_plan_moves(trash@, download@, present@, t as int + 1, used@));
                }
            }
        } else {
            proof {
                assert(spec_plan_moves(trash@, download@, present@, t as int, used@)
                    == spec_plan_moves(trash@, download@, present@, t as int + 1, used@));
            }
        }
        t = t + 1;
    }
    proof {
        assert(spec_plan_moves(trash@, download@, present@, trash@.len() as int, used@)
            =~~= Seq::<(int, int)>::empty());
        assert(whole =~~= whole.take(pairs@.len() as int));
        assert(whole.take(pairs@.len() as int) =~~= whole);
    }
    pairs
}

/// The first unused download candidate from position `j` on that
/// pass-two matches `t` whose local hash is `h`, or `-1`.
pub open spec fn first_hash_match(
    t: FileEntry,
    h: Option<Seq<char>>,
    download: Seq<FileEntry>,
    used: Seq<bool>,
    j: int,
) -> int
    decreases download.len() - j,
{
    if j < 0 || j >= download.len() {
        -1
    } else if !used[j] && hash_match(t, download[j], h) {
        j
    } else {
        first_hash_match(t, h, download, used, j + 1)
    }
}

/// The pass-two plan from trash position `t` on: like pass one, but
/// matching on the local content hash of each still-present trash
/// entry (`hashes`, aligned with the trash list; `None` when the hash
/// could not be computed, which matches nothing).
pub open spec fn spec_plan_renames(
    trash: Seq<FileEntry>,
    download: Seq<FileEntry>,
    present: Seq<bool>,
    hashes: Seq<Option<Seq<char>>>,
    t: int,
    used: Seq<bool>,
) -> Seq<(int, int)>
    decreases trash.len() - t,
{
    if t < 0 || t >= trash.len() {
        Seq::empty()
    } else if present[t] {
        let m = first_hash_match(trash[t], hashes[t], download, used, 0);
        if m >= 0 {
            seq![(t, m)] + spec_plan_renames(
                trash,
                download,
                present,
                hashes,
                t + 1,
                used.update(m, true),
            )
        } else {
            spec_plan_renames(trash, download, present, hashes, t + 1, used)
        }
    } else {
        spec_plan_renames(trash, download, present, hashes, t + 1, used)
    }
}

/// The view of a list of optional hash strings.
pub open spec fn hashes_view(hashes: Seq<Option<String>>) -> Seq<Option<Seq<char>>> {
    hashes.map(
        |i: int, h: Option<String>|
            match h {
                Some(s) => Some(s@),
                None => None,
            },
    )
}

/// Plans pass two of the reconciler: for every trash entry still
/// present on disk, the first not-yet-taken download candidate of the
/// same size, near-equal modified time and a recorded content hash
/// equal to the trash file's local hash.  First match wins; no
/// candidate is taken twice.
pub fn plan_renames_by_hash(
    trash: &Vec<FileEntry>,
    download: &Vec<FileEntry>,
    present: &Vec<bool>,
    hashes: &Vec<Option<String>>,
) -> (r: Vec<MatchPair>)
    requires
        present.len() == trash.len(),
        hashes.len() == trash.len(),
    ensures
        pairs_match(
            r@,
            spec_plan_renames(
                trash@,
                download@,
                present@,
                hashes_view(hashes@),
                0,
                all_unused(download@.len()),
            ),
        ),
{
    let ghost hv = hashes_view(hashes@);
    let mut pairs: Vec<MatchPair> = Vec::new();
    let mut used: Vec<bool> = Vec::new();
    let mut k: usize = 0;
    while k < download.len()
        invariant
            0 <= k <= download.len(),
            used@.len() == k,
            forall|i: int| 0 <= i < k ==> used@[i] == false,
        decreases download.len() - k,
    {
        used.push(false);
        k = k + 1;
    }
    proof {
        assert(used@ =~= all_unused(download@.len()));
    }
    let mut t: usize = 0;
    let ghost whole = spec_plan_renames(
        trash@,
        download@,
        present@,
        hv,
        0,
        all_unused(download@.len()),
    );
    proof {
        assert(whole.take(0) =~= Seq::<(int, int)>::empty());
    }
    while t < trash.len()
        invariant
            0 <= t <= trash.len(),
            present@.len() == trash@.len(),
            hashes@.len() == trash@.len(),
            hv == hashes_view(hashes@),
            used@.len() == download@.len(),
            whole == spec_plan_renames(
                trash@,
                download@,
                present@,
                hv,
                0,
                all_unused(download@.len()),
            ),
            pairs@.len() <= whole.len(),
            whole =~~= whole.take(pairs@.len() as int) + spec_plan_renames(
                trash@,
                download@,
                present@,
                hv,
                t as int,
                used@,
            ),
            pairs_match(pairs@, whole.take(pairs@.len() as int)),
        decreases trash.len() - t,
    {
        if present[t] {
            let mut j: usize = 0;
            let mut found: bool = false;
            proof {
                assert(hv[t as int] == (match hashes@[t as int] {
                    Some(s) => Some(s@),
                    None => None,
                }));
            }
            while j < download.len() && !found
                invariant
                    0 <= j <= download.len(),
                    used@.len() == download@.len(),
                    present@.len() == trash@.len(),
                    hashes@.len() == trash@.len(),
                    0 <= t < trash@.len(),
                    hv == hashes_view(hashes@),
                    hv[t as int] == (match hashes@[t as int] {
                        Some(s) => Some(s@),
                        None => None,
                    }),
                    !found ==> first_hash_match(trash@[t as int], hv[t as int], download@, used@, 0)
                        == first_hash_match(
                        trash@[t as int],
                        hv[t as int],
                        download@,
                        used@,
                        j as int,
                    ),
                    found ==> j > 0 && first_hash_match(
                        trash@[t as int],
                        hv[t as int],
                        download@,
                        used@,
                        0,
                    ) == j - 1,
                decreases download.len() - j,
            {
                if !used[j] && hash_match_exec(&trash[t], &download[j], &hashes[t]) {
                    found = true;
                }
                j = j + 1;
            }
            if found {
                let m = j - 1;
                let ghost u_before = used@;
                let ghost len_before = pairs@.len() as int;
                pairs.push(MatchPair { trash_index: t, download_index: m });
                used.set(m, true);
                proof {
                    assert(first_hash_match(trash@[t as int], hv[t as int], download@, u_before, 0)
                        == m as int);
                    assert(spec_plan_renames(trash@, download@, present@, hv, t as int, u_before)
                        == seq![(t as int, m as int)] + spec_plan_renames(
                        trash@,
                        download@,
                        present@,
                        hv,
                        t as int + 1,
                        u_before.update(m as int, true),
                    ));
                    assert(used@ =~= u_before.update(m as int, true));
                    assert(whole[len_before] == (t as int, m as int));
                    assert(whole.take(len_before + 1) =~= whole.take(len_before).push(
                        (t as int, m as int),
                    ));
                }
            } else {
                proof {
                    assert(first_hash_match(trash@[t as int], hv[t as int], download@, used@, 0)
                        == -1);
                    assert(spec_plan_renames(trash@, download@, present@, hv, t as int, used@)
                        == spec_plan_renames(trash@, download@, present@, hv, t as int + 1, used@));
                }
            }
        } else {
            proof {
                assert(spec_plan_renames(trash@, download@, present@, hv, t as int, used@)
                    == spec_plan_renames(trash@, download@, present@, hv, t as int + 1, used@));
            }
        }
        t = t + 1;
    }
    proof {
        assert(spec_plan_renames(trash@, download@, present@, hv, trash@.len() as int, used@)
            =~~= Seq::<(int, int)>::empty());
        assert(whole.take(pairs@.len() as int) =~~= whole);
    }
    pairs
}

/// A found first match lies in range, is unused and matches.
proof fn lemma_first_name_match_props(
    t: FileEntry,
    download: Seq<FileEntry>,
    used: Seq<bool>,
    j: int,
)
    requires
        0 <= j,
    ensures
        ({
            let m = first_name_match(t, download, used, j);
            m != -1 ==> j <= m < download.len() && !used[m] && name_match(t, download[m])
        }),
    decreases download.len() - j,
{
    if j >= download.len() {
    } else if !used[j] && name_match(t, download[j]) {
    } else {
        lemma_first_name_match_props(t, download, used, j + 1);
    }
}

/// A found first hash match lies in range, is unused and matches.
proof fn lemma_first_hash_match_props(
    t: FileEntry,
    h: Option<Seq<char>>,
    download: Seq<FileEntry>,
    used: Seq<bool>,
    j: int,
)
    requires
        0 <= j,
    ensures
        ({
            let m = first_hash_match(t, h, download, used, j);
            m != -1 ==> j <= m < download.len() && !used[m] && hash_match(t, download[m], h)
        }),
    decreases download.len() - j,
{
    if j >= download.len() {
    } else if !used[j] && hash_match(t, download[j], h) {
    } else {
        lemma_first_hash_match_props(t, h, download, used, j + 1);
    }
}

/// The properties a reconciler plan has: every pair joins a
/// still-present trash entry with an in-range, previously unused
/// download candidate that satisfies the pass's match condition;
/// trash positions strictly increase; no download candidate is taken
/// twice.
pub open spec fn plan_props(
    plan: Seq<(int, int)>,
    trash: Seq<FileEntry>,
    download: Seq<FileEntry>,
    present: Seq<bool>,
    t: int,
    used: Seq<bool>,
) -> bool {
    &&& forall|k: int|
        0 <= k < plan.len() ==> t <= (#[trigger] plan[k]).0 < trash.len() && 0 <= plan[k].1
            < download.len() && present[plan[k].0] && !used[plan[k].1]
    &&& forall|k1: int, k2: int|
        0 <= k1 < k2 < plan.len() ==> (#[trigger] plan[k1]).0 < (#[trigger] plan[k2]).0
            && plan[k1].1 != plan[k2].1
}

/// The pass-one plan is well formed and every pair satisfies the
/// pass-one match condition.
pub proof fn lemma_plan_moves_props(
    trash: Seq<FileEntry>,
    download: Seq<FileEntry>,
    present: Seq<bool>,
    t: int,
    used: Seq<bool>,
)
    requires
        used.len() == download.len(),
    ensures
        ({
            let plan = spec_plan_moves(trash, download, present, t, used);
            &&& plan_props(plan, trash, download, present, t, used)
            &&& forall|k: int|
                0 <= k < plan.len() ==> name_match(
                    trash[(#[trigger] plan[k]).0],
                    download[plan[k].1],
                )
        }),
    decreases trash.len() - t,
{
    let plan = spec_plan_moves(trash, download, present, t, used);
    if t < 0 || t >= trash.len() {
    } else if present[t] {
        let m = first_name_match(trash[t], download, used, 0);
        lemma_first_name_match_props(trash[t], download, used, 0);
        if m >= 0 {
            let used2 = used.update(m, true);
            lemma_plan_moves_props(trash, download, present, t + 1, used2);
            let rest = spec_plan_moves(trash, download, present, t + 1, used2);
            assert forall|k: int| 0 <= k < plan.len() implies t <= (#[trigger] plan[k]).0
                < trash.len() && 0 <= plan[k].1 < download.len() && present[plan[k].0]
                && !used[plan[k].1] && name_match(trash[plan[k].0], download[plan[k].1]) by {
                if k == 0 {
                    assert(plan[0] == (t, m));
                } else {
                    assert(plan[k] == rest[k - 1]);
                    assert(!used2[plan[k].1]);
                }
            }
            assert forall|k1: int, k2: int|
                0 <= k1 < k2 < plan.len() implies (#[trigger] plan[k1]).0 < (#[trigger] plan[k2]).0
                && plan[k1].1 != plan[k2].1 by {
                if k1 == 0 {
                    assert(plan[0] == (t, m));
                    assert(plan[k2] == rest[k2 - 1]);
                    assert(!used2[plan[k2].1]);
                } else {
                    assert(plan[k1] == rest[k1 - 1]);
                    assert(plan[k2] == rest[k2 - 1]);
                }
            }
        } else {
            lemma_plan_moves_props(trash, download, present, t + 1, used);
        }
    } else {
        lemma_plan_moves_props(trash, download, present, t + 1, used);
    }
}

/// The pass-two plan is well formed and every pair satisfies the
/// pass-two match condition for the trash entry's local hash.
pub proof fn lemma_plan_renames_props(
    trash: Seq<FileEntry>,
    download: Seq<FileEntry>,
    present: Seq<bool>,
    hashes: Seq<Option<Seq<char>>>,
    t: int,
    used: Seq<bool>,
)
    requires
        used.len() == download.len(),
    ensures
        ({
            let plan = spec_plan_renames(trash, download, present, hashes, t, used);
            &&& plan_props(plan, trash, download, present, t, used)
            &&& forall|k: int|
                0 <= k < plan.len() ==> hash_match(
                    trash[(#[trigger] plan[k]).0],
                    download[plan[k].1],
                    hashes[plan[k].0],
                )
        }),
    decreases trash.len() - t,
{
    let plan = spec_plan_renames(trash, download, present, hashes, t, used);
    if t < 0 || t >= trash.len() {
    } else if present[t] {
        let m = first_hash_match(trash[t], hashes[t], download, used, 0);
        lemma_first_hash_match_props(trash[t], hashes[t], download, used, 0);
        if m >= 0 {
            let used2 = used.update(m, true);
            lemma_plan_renames_props(trash, download, present, hashes, t + 1, used2);
            let rest = spec_plan_renames(trash, download, present, hashes, t + 1, used2);
            assert forall|k: int| 0 <= k < plan.len() implies t <= (#[trigger] plan[k]).0
                < trash.len() && 0 <= plan[k].1 < download.len() && present[plan[k].0]
                && !used[plan[k].1] && hash_match(
                trash[plan[k].0],
                download[plan[k].1],
                hashes[plan[k].0],
            ) by {
                if k == 0 {
                    assert(plan[0] == (t, m));
                } else {
                    assert(plan[k] == rest[k - 1]);
                    assert(!used2[plan[k].1]);
                }
            }
            assert forall|k1: int, k2: int|
                0 <= k1 < k2 < plan.len() implies (#[trigger] plan[k1]).0 < (#[trigger] plan[k2]).0
                && plan[k1].1 != plan[k2].1 by {
                if k1 == 0 {
                    assert(plan[0] == (t, m));
                    assert(plan[k2] == rest[k2 - 1]);
                    assert(!used2[plan[k2].1]);
                } else {
                    assert(plan[k1] == rest[k1 - 1]);
                    assert(plan[k2] == rest[k2 - 1]);
                }
            }
        } else {
            lemma_plan_renames_props(trash, download, present, hashes, t + 1, used);
        }
    } else {
        lemma_plan_renames_props(trash, download, present, hashes, t + 1, used);
    }
}

/// The entries from position `i` on whose position is not listed in
/// `drop`, in their original order.
pub open spec fn remove_indices(s: Seq<FileEntry>, drop: Seq<int>, i: int) -> Seq<FileEntry>
    decreases s.len() - i,
{
    if i < 0 || i >= s.len() {
        Seq::empty()
    } else if drop.contains(i) {
        remove_indices(s, drop, i + 1)
    } else {
        seq![s[i]] + remove_indices(s, drop, i + 1)
    }
}

/// The positions that the first `count` pairs of a plan drop from one
/// side: the trash side when `from_trash` holds, else the download
/// side.
pub open spec fn drop_positions(pairs: Seq<MatchPair>, count: int, from_trash: bool) -> Seq<int> {
    Seq::new(
        count as nat,
        |k: int|
            if from_trash {
                pairs[k].trash_index as int
            } else {
                pairs[k].download_index as int
            },
    )
}

/// Tests whether the first `count` pairs drop position `idx` on the
/// chosen side.
fn pairs_drop(pairs: &Vec<MatchPair>, count: usize, idx: usize, from_trash: bool) -> (r: bool)
    requires
        count <= pairs.len(),
    ensures
        r == drop_positions(pairs@, count as int, from_trash).contains(idx as int),
{
    let mut k: usize = 0;
    while k < count
        invariant
            0 <= k <= count <= pairs@.len(),
            forall|x: int|
                0 <= x < k ==> drop_positions(pairs@, count as int, from_trash)[x] != idx as int,
        decreases count - k,
    {
        let hit = if from_trash {
            pairs[k].trash_index == idx
        } else {
            pairs[k].download_index == idx
        };
        if hit {
            proof {
                assert(drop_positions(pairs@, count as int, from_trash)[k as int] == idx as int);
            }
            return true;
        }
        k = k + 1;
    }
    proof {
        assert(forall|x: int|
            0 <= x < drop_positions(pairs@, count as int, from_trash).len()
                ==> drop_positions(pairs@, count as int, from_trash)[x] != idx as int);
    }
    false
}

/// The list without the rows that the first `count` pairs drop on the
/// chosen side: what remains of the trash or download list after the
/// first `count` matches have been carried out.
pub fn remove_matched_rows(
    list: &Vec<FileEntry>,
    pairs: &Vec<MatchPair>,
    count: usize,
    from_trash: bool,
) -> (r: Vec<FileEntry>)
    requires
        count <= pairs.len(),
    ensures
        r@ == remove_indices(list@, drop_positions(pairs@, count as int, from_trash), 0),
{
    let ghost drop = drop_positions(pairs@, count as int, from_trash);
    let mut result: Vec<FileEntry> = Vec::new();
    let mut i: usize = 0;
    while i < list.len()
        invariant
            0 <= i <= list@.len(),
            count <= pairs@.len(),
            drop == drop_positions(pairs@, count as int, from_trash),
            remove_indices(list@, drop, 0) =~~= result@ + remove_indices(list@, drop, i as int),
        decreases list.len() - i,
    {
        if !pairs_drop(pairs, count, i, from_trash) {
            result.push(list[i].duplicate());
        }
        i = i + 1;
    }
    result
}

/// Reconciler pass one, whole: plans the name matches, removes both
/// entries of every matched pair from the two lists, and returns one
/// rename (old trash path to new download path) per pair, in plan
/// order.  The caller performs the renames; on a failure part way
/// through it can instead plan first and remove only the completed
/// prefix.
pub fn move_local_files(
    trash: &mut Vec<FileEntry>,
    download: &mut Vec<FileEntry>,
    present: &Vec<bool>,
) -> (renames: Vec<RenameAction>)
    requires
        present.len() == old(trash).len(),
    ensures
        ({
            let plan = spec_plan_moves(
                old(trash)@,
                old(download)@,
                present@,
                0,
                all_unused(old(download)@.len()),
            );
            &&& renames@.len() == plan.len()
            &&& forall|k: int|
                0 <= k < plan.len() ==> (#[trigger] renames@[k]).from_path@ == old(
                    trash,
                )@[plan[k].0].path@ && renames@[k].to_path@ == old(download)@[plan[k].1].path@
            &&& final(trash)@ == remove_indices(
                old(trash)@,
                Seq::new(plan.len(), |k: int| plan[k].0),
                0,
            )
            &&& final(download)@ == remove_indices(
                old(download)@,
                Seq::new(plan.len(), |k: int| plan[k].1),
                0,
            )
        }),
{
    let pairs = plan_moves_by_name(trash, download, present);
    proof {
        lemma_plan_moves_props(trash@, download@, present@, 0, all_unused(download@.len()));
    }
    let renames = renames_of(trash, download, &pairs);
    let ghost plan = spec_plan_moves(trash@, download@, present@, 0, all_unused(download@.len()));
    let new_trash = remove_matched_rows(trash, &pairs, pairs.len(), true);
    let new_download = remove_matched_rows(download, &pairs, pairs.len(), false);
    proof {
        assert(drop_positions(pairs@, pairs@.len() as int, true) =~= Seq::new(
            plan.len(),
            |k: int| plan[k].0,
        ));
        assert(drop_positions(pairs@, pairs@.len() as int, false) =~= Seq::new(
            plan.len(),
            |k: int| plan[k].1,
        ));
    }
    *trash = new_trash;
    *download = new_download;
    renames
}

/// Reconciler pass two, whole: plans the hash matches against the
/// supplied local hashes, removes both entries of every matched pair,
/// and returns one rename per pair, in plan order.
pub fn rename_local_files(
    trash: &mut Vec<FileEntry>,
    download: &mut Vec<FileEntry>,
    present: &Vec<bool>,
    hashes: &Vec<Option<String>>,
) -> (renames: Vec<RenameAction>)
    requires
        present.len() == old(trash).len(),
        hashes.len() == old(trash).len(),
    ensures
        ({
            let plan = spec_plan_renames(
                old(trash)@,
                old(download)@,
                present@,
                hashes_view(hashes@),
                0,
                all_unused(old(download)@.len()),
            );
            &&& renames@.len() == plan.len()
            &&& forall|k: int|
                0 <= k < plan.len() ==> (#[trigger] renames@[k]).from_path@ == old(
                    trash,
                )@[plan[k].0].path@ && renames@[k].to_path@ == old(download)@[plan[k].1].path@
            &&& final(trash)@ == remove_indices(
                old(trash)@,
                Seq::new(plan.len(), |k: int| plan[k].0),
                0,
            )
            &&& final(download)@ == remove_indices(
                old(download)@,
                Seq::new(plan.len(), |k: int| plan[k].1),
                0,
            )
        }),
{
    let pairs = plan_renames_by_hash(trash, download, present, hashes);
    proof {
        lemma_plan_renames_props(
            trash@,
            download@,
            present@,
            hashes_view(hashes@),
            0,
            all_unused(download@.len()),
        );
    }
    let renames = renames_of(trash, download, &pairs);
    let ghost plan = spec_plan_renames(
        trash@,
        download@,
        present@,
        hashes_view(hashes@),
        0,
        all_unused(download@.len()),
    );
    let new_trash = remove_matched_rows(trash, &pairs, pairs.len(), true);
    let new_download = remove_matched_rows(download, &pairs, pairs.len(), false);
    proof {
        assert(drop_positions(pairs@, pairs@.len() as int, true) =~= Seq::new(
            plan.len(),
            |k: int| plan[k].0,
        ));
        assert(drop_positions(pairs@, pairs@.len() as int, false) =~= Seq::new(
            plan.len(),
            |k: int| plan[k].1,
        ));
    }
    *trash = new_trash;
    *download = new_download;
    renames
}

/// Every remaining entry stems from a position that was not dropped.
proof fn lemma_remove_indices_elements(s: Seq<FileEntry>, drop: Seq<int>, i: int)
    ensures
        forall|j: int|
            0 <= j < remove_indices(s, drop, i).len() ==> exists|x: int|
                i <= x < s.len() && !drop.contains(x) && #[trigger] remove_indices(s, drop, i)[j]
                    == s[x],
    decreases s.len() - i,
{
    if i < 0 || i >= s.len() {
    } else {
        lemma_remove_indices_elements(s, drop, i + 1);
        let r = remove_indices(s, drop, i);
        let rest = remove_indices(s, drop, i + 1);
        if drop.contains(i) {
        } else {
            assert forall|j: int| 0 <= j < r.len() implies exists|x: int|
                i <= x < s.len() && !drop.contains(x) && #[trigger] r[j] == s[x] by {
                if j == 0 {
                    assert(r[0] == s[i]);
                } else {
                    assert(r[j] == rest[j - 1]);
                }
            }
        }
    }
}

/// The remaining list is a subsequence of the original.
pub proof fn lemma_remove_indices_subseq(s: Seq<FileEntry>, drop: Seq<int>, i: int)
    requires
        0 <= i <= s.len(),
    ensures
        crate::subseq::subseq_of(remove_indices(s, drop, i), s.skip(i)),
    decreases s.len() - i,
{
    if i >= s.len() {
        assert(s.skip(i).len() == 0);
    } else {
        lemma_remove_indices_subseq(s, drop, i + 1);
        assert(s.skip(i)[0] == s[i]);
        assert(s.skip(i).skip(1) =~= s.skip(i + 1));
        if drop.contains(i) {
        } else {
            let r = remove_indices(s, drop, i);
            assert(r[0] == s[i]);
            assert(r.skip(1) =~= remove_indices(s, drop, i + 1));
        }
    }
}

/// Reconciler pair removal: when the paths within each list are
/// distinct, then after the matched pairs are removed, neither the
/// trash entry nor the download entry of any pair is present in its
/// remaining list; and the functions above return exactly one rename
/// per pair.
pub proof fn lemma_reconciler_pair_removal(
    trash: Seq<FileEntry>,
    download: Seq<FileEntry>,
    plan: Seq<(int, int)>,
)
    requires
        forall|k: int|
            0 <= k < plan.len() ==> 0 <= (#[trigger] plan[k]).0 < trash.len() && 0 <= plan[k].1
                < download.len(),
        forall|i: int, j: int|
            0 <= i < j < trash.len() ==> (#[trigger] trash[i]).path@ != (#[trigger] trash[j]).path@,
        forall|i: int, j: int|
            0 <= i < j < download.len() ==> (#[trigger] download[i]).path@
                != (#[trigger] download[j]).path@,
    ensures
        ({
            let new_trash = remove_indices(trash, Seq::new(plan.len(), |k: int| plan[k].0), 0);
            let new_download = remove_indices(
                download,
                Seq::new(plan.len(), |k: int| plan[k].1),
                0,
            );
            &&& forall|k: int, j: int|
                0 <= k < plan.len() && 0 <= j < new_trash.len() ==> (#[trigger] new_trash[j]).path@
                    != trash[(#[trigger] plan[k]).0].path@
            &&& forall|k: int, j: int|
                0 <= k < plan.len() && 0 <= j < new_download.len() ==> (
                #[trigger] new_download[j]).path@ != download[(#[trigger] plan[k]).1].path@
        }),
{
    let drop_t = Seq::new(plan.len(), |k: int| plan[k].0);
    let drop_d = Seq::new(plan.len(), |k: int| plan[k].1);
    let new_trash = remove_indices(trash, drop_t, 0);
    let new_download = remove_indices(download, drop_d, 0);
    lemma_remove_indices_elements(trash, drop_t, 0);
    lemma_remove_indices_elements(download, drop_d, 0);
    assert forall|k: int, j: int|
        0 <= k < plan.len() && 0 <= j < new_trash.len() implies (#[trigger] new_trash[j]).path@
        != trash[(#[trigger] plan[k]).0].path@ by {
        assert(drop_t[k] == plan[k].0);
        let x = choose|x: int|
            0 <= x < trash.len() && !drop_t.contains(x) && new_trash[j] == trash[x];
        assert(x != plan[k].0);
        if x < plan[k].0 {
            assert(trash[x].path@ != trash[plan[k].0].path@);
        } else {
            assert(trash[plan[k].0].path@ != trash[x].path@);
        }
    }
    assert forall|k: int, j: int|
        0 <= k < plan.len() && 0 <= j < new_download.len() implies (
    #[trigger] new_download[j]).path@ != download[(#[trigger] plan[k]).1].path@ by {
        assert(drop_d[k] == plan[k].1);
        let x = choose|x: int|
            0 <= x < download.len() && !drop_d.contains(x) && new_download[j] == download[x];
        assert(x != plan[k].1);
        if x < plan[k].1 {
            assert(download[x].path@ != download[plan[k].1].path@);
        } else {
            assert(download[plan[k].1].path@ != download[x].path@);
        }
    }
}

/// One rename per pair: from the trash entry's path to the download
/// entry's path.
pub fn renames_of(
    trash: &Vec<FileEntry>,
    download: &Vec<FileEntry>,
    pairs: &Vec<MatchPair>,
) -> (renames: Vec<RenameAction>)
    requires
        forall|k: int|
            0 <= k < pairs@.len() ==> (#[trigger] pairs@[k]).trash_index < trash@.len()
                && pairs@[k].download_index < download@.len(),
    ensures
        renames@.len() == pairs@.len(),
        forall|k: int|
            0 <= k < pairs@.len() ==> (#[trigger] renames@[k]).from_path@ == trash@[pairs@[k].trash_index as int].path@
                && renames@[k].to_path@ == download@[pairs@[k].download_index as int].path@,
{
    let mut renames: Vec<RenameAction> = Vec::new();
    let mut k: usize = 0;
    while k < pairs.len()
        invariant
            0 <= k <= pairs@.len(),
            renames@.len() == k,
            forall|x: int|
                0 <= x < pairs@.len() ==> (#[trigger] pairs@[x]).trash_index < trash@.len()
                    && pairs@[x].download_index < download@.len(),
            forall|x: int|
                0 <= x < k ==> (#[trigger] renames@[x]).from_path@ == trash@[pairs@[x].trash_index as int].path@
                    && renames@[x].to_path@ == download@[pairs@[x].download_index as int].path@,
        decreases pairs.len() - k,
    {
        renames.push(
            RenameAction {
                from_path: trash[pairs[k].trash_index].path.clone(),
                to_path: download[pairs[k].download_index].path.clone(),
            },
        );
        k = k + 1;
    }
    renames
}

} // verus!
