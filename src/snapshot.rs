//! A picture of a directory tree, as read from disk by the caller: names,
//! kinds, listings and file contents. Every decision of the library is taken
//! on this picture, so it is a function of plain values.

use vstd::prelude::*;
use crate::rank::{lemma_insert_at, lemma_ranked_range, ranked};

verus! {

/// What was read of one regular file.
#[derive(Debug, Clone)]
pub struct FileProbe {
    /// Its length in bytes; `None` when its metadata could not be read.
    pub size: Option<u64>,
    /// Its bytes; `None` when it could not be opened.
    pub bytes: Option<Vec<u8>>,
    /// Its modification time in seconds since the epoch; `None` when unknown.
    pub modified: Option<u64>,
}

/// One entry of a directory listing.
#[derive(Debug)]
pub enum Entry {
    /// A regular file, with its name.
    File(String, FileProbe),
    /// A directory, with its name and its listing; `None` when it could not
    /// be listed.
    Dir(String, Option<Vec<Entry>>),
}

/// What a caller-supplied target path turned out to be.
#[derive(Debug)]
pub enum TargetKind {
    /// Nothing exists there.
    Missing,
    /// A regular file.
    File(FileProbe),
    /// A directory, with its listing (`None` when it could not be listed).
    Dir(Option<Vec<Entry>>),
}

/// A target path, resolved once per run.
#[derive(Debug)]
pub struct Target {
    /// The path as resolved against the working directory.
    pub given: String,
    /// Its components relative to the repository root, when it lies inside
    /// it (empty for the root itself).
    pub place: Option<Vec<String>>,
    pub kind: TargetKind,
}

impl Entry {
    pub open spec fn name_view(&self) -> Seq<char> {
        match self {
            Entry::File(n, _) => n@,
            Entry::Dir(n, _) => n@,
        }
    }

    pub fn name(&self) -> (r: &String)
        ensures
            r@ == self.name_view(),
    {
        match self {
            Entry::File(n, _) => n,
            Entry::Dir(n, _) => n,
        }
    }
}

/// Whether `a` sorts strictly before `b`: lexicographic by code point, a
/// proper prefix first.
pub open spec fn name_lt(a: Seq<char>, b: Seq<char>) -> bool {
    exists|k: int|
        0 <= k <= a.len() && k <= b.len() && a.take(k) == b.take(k) && #[trigger] name_lt_at(a, b, k)
}

/// `a` and `b` first differ at `k`, where `a` is smaller or has ended.
pub open spec fn name_lt_at(a: Seq<char>, b: Seq<char>, k: int) -> bool {
    k < b.len() && (k == a.len() || (a[k] as u32) < (b[k] as u32))
}

/// Whether entry `i` of `es` sorts before entry `j` by name.
pub open spec fn name_before(es: Seq<Entry>) -> spec_fn(usize, usize) -> bool {
    |i: usize, j: usize| name_lt(es[i as int].name_view(), es[j as int].name_view())
}

/// The order in which a listing is visited: its indices sorted by name
/// (ties keep listing order).
pub open spec fn name_order(es: Seq<Entry>) -> Seq<usize> {
    ranked(name_before(es), es.len())
}

/// Every index of the visiting order lies within the listing.
pub proof fn lemma_name_order_range(es: Seq<Entry>)
    requires
        es.len() <= usize::MAX,
    ensures
        name_order(es).len() == es.len(),
        forall|t: int| 0 <= t < es.len() ==> (#[trigger] name_order(es)[t]) < es.len(),
{
    lemma_ranked_range(name_before(es), es.len());
}

/// Whether `a` sorts strictly before `b`.
pub fn name_less(a: &String, b: &String) -> (r: bool)
    ensures
        r == name_lt(a@, b@),
{
    let na = a.unicode_len();
    let nb = b.unicode_len();
    let mut k: usize = 0;
    while k < na && k < nb
        invariant
            na == a@.len(),
            nb == b@.len(),
            k <= na,
            k <= nb,
            a@.take(k as int) == b@.take(k as int),
        decreases na - k,
    {
        let ca = a.as_str().get_char(k);
        let cb = b.as_str().get_char(k);
        if ca != cb {
            let r = (ca as u32) < (cb as u32);
            proof {
                assert(a@.take(k as int) == b@.take(k as int));
                if r {
                    assert(name_lt_at(a@, b@, k as int));
                } else {
                    assert forall|m: int| 0 <= m <= a@.len() && m <= b@.len() && a@.take(m) == b@.take(m)
                        implies !#[trigger] name_lt_at(a@, b@, m) by {
                        if m > k {
                            assert(a@.take(m)[k as int] == b@.take(m)[k as int]);
                        } else if m < k {
                            assert(a@.take(k as int)[m] == b@.take(k as int)[m]);
                        }
                    }
                }
            }
            return r;
        }
        proof {
            assert(a@.take(k as int + 1) =~= a@.take(k as int).push(ca));
            assert(b@.take(k as int + 1) =~= b@.take(k as int).push(cb));
        }
        k = k + 1;
    }
    let r = k == na && k < nb;
    proof {
        if r {
            assert(name_lt_at(a@, b@, k as int));
        } else {
            assert forall|m: int| 0 <= m <= a@.len() && m <= b@.len() && a@.take(m) == b@.take(m)
                implies !#[trigger] name_lt_at(a@, b@, m) by {
                if m < k {
                    assert(a@.take(k as int)[m] == b@.take(k as int)[m]);
                }
            }
        }
    }
    r
}

/// The indices of `es` in the order the walks visit them: by name.
pub fn visit_order(es: &Vec<Entry>) -> (r: Vec<usize>)
    ensures
        r@ == name_order(es@),
        forall|t: int| 0 <= t < r@.len() ==> (#[trigger] r@[t]) < es@.len(),
        r@.len() == es@.len(),
{
    let ghost before = name_before(es@);
    let mut order: Vec<usize> = Vec::new();
    let mut i: usize = 0;
    while i < es.len()
        invariant
            i <= es@.len(),
            before == name_before(es@),
            order@ == ranked(before, i as nat),
        decreases es@.len() - i,
    {
        proof {
            lemma_ranked_range(before, i as nat);
        }
        let mut j: usize = 0;
        while j < order.len() && !name_less(es[i].name(), es[order[j]].name())
            invariant
                i < es@.len(),
                before == name_before(es@),
                order@ == ranked(before, i as nat),
                order@.len() == i,
                forall|t: int| 0 <= t < i ==> (#[trigger] order@[t]) < i,
                j <= order@.len(),
                forall|k: int| 0 <= k < j ==> !before(i, #[trigger] order@[k]),
            decreases order@.len() - j,
        {
            j = j + 1;
        }
        proof {
            lemma_insert_at(before, i, order@, j as int);
        }
        order.insert(j, i);
        proof {
            assert(order@ =~= crate::rank::insert_ranked(before, i, ranked(before, i as nat)));
        }
        i = i + 1;
    }
    proof {
        lemma_name_order_range(es@);
    }
    order
}

} // verus!
