//! Stable ordering of indices under a "comes before" relation, as insertion
//! sort builds it: each index goes in front of the first one it comes before.

use vstd::prelude::*;

verus! {

/// Inserts index `i` into `s` in front of the first index it comes before.
pub open spec fn insert_ranked(before: spec_fn(usize, usize) -> bool, i: usize, s: Seq<usize>) -> Seq<usize>
    decreases s.len(),
{
    if s.len() == 0 {
        seq![i]
    } else if before(i, s[0]) {
        seq![i] + s
    } else {
        seq![s[0]] + insert_ranked(before, i, s.drop_first())
    }
}

/// The indices `0 .. n` in order: sorted by `before`, ties in index order.
pub open spec fn ranked(before: spec_fn(usize, usize) -> bool, n: nat) -> Seq<usize>
    decreases n,
{
    if n == 0 {
        Seq::empty()
    } else {
        insert_ranked(before, (n - 1) as usize, ranked(before, (n - 1) as nat))
    }
}

proof fn lemma_insert_members(before: spec_fn(usize, usize) -> bool, i: usize, s: Seq<usize>)
    ensures
        insert_ranked(before, i, s).len() == s.len() + 1,
        forall|x: usize| #[trigger] insert_ranked(before, i, s).contains(x) ==> x == i || s.contains(x),
    decreases s.len(),
{
    let r = insert_ranked(before, i, s);
    if s.len() > 0 && !before(i, s[0]) {
        lemma_insert_members(before, i, s.drop_first());
        assert forall|x: usize| #[trigger] r.contains(x) implies x == i || s.contains(x) by {
            let j = choose|j: int| 0 <= j < r.len() && r[j] == x;
            if j > 0 {
                assert(insert_ranked(before, i, s.drop_first())[j - 1] == x);
                assert(insert_ranked(before, i, s.drop_first()).contains(x));
                if x != i {
                    let m = choose|m: int| 0 <= m < s.drop_first().len() && s.drop_first()[m] == x;
                    assert(s[m + 1] == x);
                }
            } else {
                assert(s[0] == x);
            }
        }
    } else if s.len() > 0 {
        assert forall|x: usize| #[trigger] r.contains(x) implies x == i || s.contains(x) by {
            let j = choose|j: int| 0 <= j < r.len() && r[j] == x;
            if j > 0 {
                assert(s[j - 1] == x);
            }
        }
    } else {
        assert forall|x: usize| #[trigger] r.contains(x) implies x == i || s.contains(x) by {
            assert(r[0] == i);
        }
    }
}

/// The order holds `n` indices, each below `n`.
pub proof fn lemma_ranked_range(before: spec_fn(usize, usize) -> bool, n: nat)
    requires
        n <= usize::MAX,
    ensures
        ranked(before, n).len() == n,
        forall|t: int| 0 <= t < n ==> (#[trigger] ranked(before, n)[t]) < n,
    decreases n,
{
    if n > 0 {
        let prev = ranked(before, (n - 1) as nat);
        lemma_ranked_range(before, (n - 1) as nat);
        lemma_insert_members(before, (n - 1) as usize, prev);
        let r = ranked(before, n);
        assert forall|t: int| 0 <= t < n implies (#[trigger] r[t]) < n by {
            assert(r.contains(r[t]));
            if r[t] != (n - 1) as usize {
                let m = choose|m: int| 0 <= m < prev.len() && prev[m] == r[t];
            }
        }
    }
}

/// Inserting in front of position `j` is what `insert_ranked` does when `i`
/// comes before none of the first `j` indices and before the one at `j`.
pub proof fn lemma_insert_at(before: spec_fn(usize, usize) -> bool, i: usize, s: Seq<usize>, j: int)
    requires
        0 <= j <= s.len(),
        forall|k: int| 0 <= k < j ==> !before(i, #[trigger] s[k]),
        j < s.len() ==> before(i, s[j]),
    ensures
        insert_ranked(before, i, s) == s.take(j) + seq![i] + s.skip(j),
    decreases s.len(),
{
    if s.len() == 0 {
        assert(s.take(j) + seq![i] + s.skip(j) =~= seq![i]);
    } else if j == 0 {
        assert(s.take(j) + seq![i] + s.skip(j) =~= seq![i] + s);
    } else {
        let t = s.drop_first();
        assert forall|k: int| 0 <= k < j - 1 implies !before(i, #[trigger] t[k]) by {
            assert(t[k] == s[k + 1]);
        }
        if j < s.len() {
            assert(t[j - 1] == s[j]);
        }
        lemma_insert_at(before, i, t, j - 1);
        assert(seq![s[0]] + (t.take(j - 1) + seq![i] + t.skip(j - 1)) =~= s.take(j) + seq![i] + s.skip(j));
    }
}

} // verus!
