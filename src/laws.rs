//! Properties that hold of every run, proved over the specifications of
//! selection and rendering.

use vstd::prelude::*;
use crate::config::SNIFF_LEN;
use crate::files::{child_path, line_count, newline_count, record_of, sniffs_binary, Rules};
use crate::filter::{any_match, passes};
use crate::context::{holds_harvest, selection_of, tree_of};
use crate::config::Config;
use crate::files::{join_path, recent_enough};
use crate::snapshot::{name_order, Entry, Target};
use crate::tree::{draws_as, is_prefix, is_root_target, shown, target_place, Row};
use crate::types::{entries_view, notices_view, FileContext};

verus! {

/// Whether a name is a single path segment.
pub open spec fn plain_name(n: Seq<char>) -> bool {
    forall|i: int| 0 <= i < n.len() ==> n[i] != '/'
}

/// Whether every name in an entry is a single path segment, as names read
/// from a file system are.
pub open spec fn entry_plain(e: Entry) -> bool
    decreases e, 0nat,
{
    plain_name(e.name_view()) && match e {
        Entry::Dir(_, Some(v)) => list_plain(v@, v@.len()),
        _ => true,
    }
}

/// Whether the first `n` entries of a listing have plain names throughout.
pub open spec fn list_plain(es: Seq<Entry>, n: nat) -> bool
    decreases es, n,
{
    n == 0 || (list_plain(es, (n - 1) as nat) && (n - 1 < es.len() ==> entry_plain(es[n - 1])))
}

proof fn lemma_list_plain_at(es: Seq<Entry>, n: nat, k: int)
    requires
        list_plain(es, n),
        0 <= k < n,
        n <= es.len(),
    ensures
        entry_plain(es[k]),
    decreases n,
{
    if k < n - 1 {
        lemma_list_plain_at(es, (n - 1) as nat, k);
    }
}

/// Neither `p` nor any directory on the way to it matches an exclude
/// pattern.
pub open spec fn clear_of(exclude: Seq<Seq<char>>, p: Seq<char>) -> bool {
    &&& !any_match(exclude, p)
    &&& forall|j: int| 0 <= j < p.len() && p[j] == '/' ==> !any_match(exclude, #[trigger] p.take(j))
}

/// The directory at `d` is the root, or it and all its ancestors are clear.
pub open spec fn clear_dir(exclude: Seq<Seq<char>>, d: Seq<char>) -> bool {
    d.len() == 0 || clear_of(exclude, d)
}

/// Every record of `recs` is clear of the exclude patterns.
pub open spec fn all_clear(exclude: Seq<Seq<char>>, recs: Seq<crate::types::FileEntryView>) -> bool {
    forall|r: int| 0 <= r < recs.len() ==> clear_of(exclude, #[trigger] recs[r].path)
}

proof fn lemma_child_clear(exclude: Seq<Seq<char>>, parent: Seq<char>, name: Seq<char>)
    requires
        clear_dir(exclude, parent),
        plain_name(name),
        !any_match(exclude, child_path(parent, name)),
    ensures
        clear_of(exclude, child_path(parent, name)),
{
    let p = child_path(parent, name);
    assert forall|j: int| 0 <= j < p.len() && p[j] == '/' implies !any_match(exclude, #[trigger] p.take(j)) by {
        if parent.len() == 0 {
            assert(p[j] == name[j]);
        } else if j < parent.len() {
            assert(p.take(j) =~= parent.take(j));
            assert(parent[j] == p[j]);
        } else if j == parent.len() {
            assert(p.take(j) =~= parent);
        } else {
            assert(p[j] == name[j - parent.len() - 1]);
        }
    }
}

proof fn lemma_entry_clear(rules: Rules, e: Entry, parent: Seq<char>)
    requires
        clear_dir(rules.exclude, parent),
        entry_plain(e),
    ensures
        rules.walk_entry(e, parent) matches Ok(h) ==> all_clear(rules.exclude, h.records),
    decreases e, 0nat,
{
    match e {
        Entry::File(name, p) => {
            let path = child_path(parent, name@);
            if passes(rules.exclude, rules.wanted, path, true) {
                lemma_child_clear(rules.exclude, parent, name@);
                let h = rules.file_outcome(path, p);
                assert forall|r: int| 0 <= r < h.records.len() implies clear_of(rules.exclude, #[trigger] h.records[r].path) by {
                    assert(h.records[r] == record_of(path, p)->Some_0);
                }
            }
        },
        Entry::Dir(name, listing) => {
            let path = child_path(parent, name@);
            if rules.recursive && passes(rules.exclude, rules.wanted, path, false) {
                lemma_child_clear(rules.exclude, parent, name@);
                if let Some(v) = listing {
                    lemma_list_clear(rules, v@, name_order(v@), path);
                }
            }
        },
    }
}

proof fn lemma_list_clear(rules: Rules, es: Seq<Entry>, idx: Seq<usize>, parent: Seq<char>)
    requires
        clear_dir(rules.exclude, parent),
        list_plain(es, es.len()),
    ensures
        rules.walk_list(es, idx, parent) matches Ok(h) ==> all_clear(rules.exclude, h.records),
    decreases es, idx.len(),
{
    if idx.len() > 0 {
        let k = idx.last() as int;
        lemma_list_clear(rules, es, idx.drop_last(), parent);
        if k < es.len() {
            lemma_list_plain_at(es, es.len(), k);
            lemma_entry_clear(rules, es[k], parent);
            if let Ok(h) = rules.walk_list(es, idx, parent) {
                let h1 = rules.walk_list(es, idx.drop_last(), parent)->Ok_0;
                let h2 = rules.walk_entry(es[k], parent)->Ok_0;
                assert(h.records == h1.records + h2.records);
                assert forall|r: int| 0 <= r < h.records.len() implies clear_of(rules.exclude, #[trigger] h.records[r].path) by {
                    if r < h1.records.len() {
                        assert(h.records[r] == h1.records[r]);
                    } else {
                        assert(h.records[r] == h2.records[r - h1.records.len()]);
                    }
                }
            }
        }
    }
}

/// Exclusion wins over inclusion: in a whole-repository selection, no
/// selected file matches an exclude pattern, nor lies under a directory that
/// matches one.
pub proof fn lemma_excluded_directories_hide_files(rules: Rules, root: Option<Vec<Entry>>)
    requires
        root matches Some(v) ==> list_plain(v@, v@.len()),
    ensures
        rules.walk_dir(root, Seq::empty()) matches Ok(h) ==> all_clear(rules.exclude, h.records),
{
    if let Some(v) = root {
        lemma_list_clear(rules, v@, name_order(v@), Seq::empty());
    }
}

/// A final newline adds no line: text without one has as many lines as the
/// same text with one added.
pub proof fn lemma_final_newline_adds_no_line(b: Seq<u8>)
    requires
        b.len() > 0,
        b.last() != 10u8,
    ensures
        line_count(b.push(10u8)) == line_count(b),
        line_count(b) == newline_count(b) + 1,
{
    assert(b.push(10u8).drop_last() =~= b);
}

/// Empty text has no line.
pub proof fn lemma_empty_has_no_line()
    ensures
        line_count(Seq::<u8>::empty()) == 0,
{
}

/// Whether a file is binary depends on its first `SNIFF_LEN` bytes alone.
pub proof fn lemma_binary_by_prefix(a: Seq<u8>, b: Seq<u8>)
    requires
        a.take(if a.len() < SNIFF_LEN { a.len() as int } else { SNIFF_LEN as int })
            == b.take(if b.len() < SNIFF_LEN { b.len() as int } else { SNIFF_LEN as int }),
    ensures
        sniffs_binary(a) == sniffs_binary(b),
{
    let na = if a.len() < SNIFF_LEN { a.len() as int } else { SNIFF_LEN as int };
    let nb = if b.len() < SNIFF_LEN { b.len() as int } else { SNIFF_LEN as int };
    assert(a.take(na).len() == na);
    assert(b.take(nb).len() == nb);
    if sniffs_binary(a) {
        let i = choose|i: int| 0 <= i < a.len() && i < SNIFF_LEN && #[trigger] a[i] == 0u8;
        assert(a.take(na)[i] == b.take(nb)[i]);
        assert(b[i] == 0u8);
    }
    if sniffs_binary(b) {
        let i = choose|i: int| 0 <= i < b.len() && i < SNIFF_LEN && #[trigger] b[i] == 0u8;
        assert(a.take(na)[i] == b.take(nb)[i]);
        assert(a[i] == 0u8);
    }
}

/// Two runs on the same settings, snapshot and time select the same files,
/// with the same classifications and text, and draw the same tree.
pub proof fn lemma_runs_agree(
    config: Config,
    now: u64,
    root: Option<Vec<Entry>>,
    targets: Seq<Target>,
    a: FileContext,
    b: FileContext,
    tree_a: Seq<char>,
    tree_b: Seq<char>,
)
    requires
        holds_harvest(a, selection_of(config, now, root, targets)),
        holds_harvest(b, selection_of(config, now, root, targets)),
        draws_as(tree_of(config, now, root, targets), tree_a),
        draws_as(tree_of(config, now, root, targets), tree_b),
    ensures
        entries_view(a.file_entries@) == entries_view(b.file_entries@),
        notices_view(a.notices@) == notices_view(b.notices@),
        tree_a == tree_b,
{
}

/// A target that is the repository root itself asks for everything: the
/// tree drawn for the targets is the whole tree.
pub proof fn lemma_root_target_draws_full_tree(rules: Rules, label: Seq<char>, root: Option<Vec<Entry>>, ts: Seq<Target>, i: int)
    requires
        0 <= i < ts.len(),
        is_root_target(ts[i]),
    ensures
        rules.target_tree(label, root, ts) == rules.full_tree(label, root),
{
}

impl Rules {
    /// The rows of an entry and of everything below it, files kept by the
    /// recency rule alone.
    pub open spec fn whole_entry(self, e: Entry, cur: Seq<Seq<char>>, depth: nat) -> Result<Seq<Row>, Seq<char>>
        decreases e, 0nat,
    {
        let c = cur.push(e.name_view());
        match e {
            Entry::File(name, p) => if recent_enough(self.recent_only, p.modified, self.now) {
                Ok(seq![(depth, name@)])
            } else {
                Ok(Seq::empty())
            },
            Entry::Dir(name, listing) => match listing {
                None => Err(join_path(c)),
                Some(v) => match self.whole_list(v@, name_order(v@), c, depth + 1) {
                    Err(q) => Err(q),
                    Ok(rows) => Ok(seq![(depth, name@)] + rows),
                },
            },
        }
    }

    /// The whole rows of the entries `es[idx[0]], es[idx[1]], ...`.
    pub open spec fn whole_list(self, es: Seq<Entry>, idx: Seq<usize>, cur: Seq<Seq<char>>, depth: nat) -> Result<Seq<Row>, Seq<char>>
        decreases es, idx.len(),
    {
        if idx.len() == 0 {
            Ok(Seq::empty())
        } else {
            let k = idx.last() as int;
            match self.whole_list(es, idx.drop_last(), cur, depth) {
                Err(q) => Err(q),
                Ok(rows) => if k < es.len() {
                    match self.whole_entry(es[k], cur, depth) {
                        Err(q) => Err(q),
                        Ok(more) => Ok(rows + more),
                    }
                } else {
                    Ok(rows)
                },
            }
        }
    }
}

proof fn lemma_inside_entry(rules: Rules, ts: Seq<Target>, e: Entry, cur: Seq<Seq<char>>, depth: nat, i: int)
    requires
        0 <= i < ts.len(),
        ts[i].kind is Dir,
        target_place(ts[i]) matches Some(pc) && is_prefix(pc, cur),
    ensures
        rules.pruned_entry(ts, e, cur, depth) == rules.whole_entry(e, cur, depth),
    decreases e, 0nat,
{
    let pc = target_place(ts[i])->Some_0;
    let c = cur.push(e.name_view());
    assert(c.take(pc.len() as int) =~= cur.take(pc.len() as int));
    assert(shown(ts, c));
    if let Entry::Dir(name, Some(v)) = e {
        lemma_inside_list(rules, ts, v@, name_order(v@), c, depth + 1, i);
    }
}

proof fn lemma_inside_list(rules: Rules, ts: Seq<Target>, es: Seq<Entry>, idx: Seq<usize>, cur: Seq<Seq<char>>, depth: nat, i: int)
    requires
        0 <= i < ts.len(),
        ts[i].kind is Dir,
        target_place(ts[i]) matches Some(pc) && is_prefix(pc, cur),
    ensures
        rules.pruned_list(ts, es, idx, cur, depth) == rules.whole_list(es, idx, cur, depth),
    decreases es, idx.len(),
{
    if idx.len() > 0 {
        let k = idx.last() as int;
        lemma_inside_list(rules, ts, es, idx.drop_last(), cur, depth, i);
        if k < es.len() {
            lemma_inside_entry(rules, ts, es[k], cur, depth, i);
        }
    }
}

/// A directory target is drawn whole: inside it, every entry appears with
/// everything below it, whether or not it was named (files kept by the
/// recency rule alone).
pub proof fn lemma_directory_target_drawn_whole(rules: Rules, ts: Seq<Target>, es: Seq<Entry>, cur: Seq<Seq<char>>, depth: nat, i: int)
    requires
        0 <= i < ts.len(),
        ts[i].kind is Dir,
        target_place(ts[i]) matches Some(pc) && is_prefix(pc, cur),
    ensures
        rules.pruned_list(ts, es, name_order(es), cur, depth) == rules.whole_list(es, name_order(es), cur, depth),
{
    lemma_inside_list(rules, ts, es, name_order(es), cur, depth, i);
}

/// Whether some row of `rows` names the last segment of `path`.
pub open spec fn drawn(rows: Seq<Row>, path: Seq<char>) -> bool {
    exists|k: int, p: Seq<char>| 0 <= k < rows.len() && path == #[trigger] child_path(p, rows[k].1)
}

proof fn lemma_drawn_shift(before: Seq<Row>, rows: Seq<Row>, after: Seq<Row>, path: Seq<char>)
    requires
        drawn(rows, path),
    ensures
        drawn(before + rows + after, path),
{
    let (k, p) = choose|k: int, p: Seq<char>| 0 <= k < rows.len() && path == #[trigger] child_path(p, rows[k].1);
    let all = before + rows + after;
    assert(all[before.len() + k] == rows[k]);
    assert(path == child_path(p, all[before.len() + k].1));
}

proof fn lemma_entry_drawn(rules: Rules, e: Entry, parent: Seq<char>, depth: nat)
    ensures
        rules.walk_entry(e, parent) matches Ok(h) ==> (rules.full_entry(e, parent, depth) matches Ok(rows)
            ==> forall|r: int| 0 <= r < h.records.len() ==> drawn(rows, #[trigger] h.records[r].path)),
    decreases e, 0nat,
{
    match e {
        Entry::File(name, p) => {
            let path = child_path(parent, name@);
            if let Ok(h) = rules.walk_entry(e, parent) {
                if let Ok(rows) = rules.full_entry(e, parent, depth) {
                    assert forall|r: int| 0 <= r < h.records.len() implies drawn(rows, #[trigger] h.records[r].path) by {
                        assert(h.records[r].path == path);
                        assert(rows[0].1 == name@);
                        assert(path == child_path(parent, rows[0].1));
                    }
                }
            }
        },
        Entry::Dir(name, listing) => {
            let path = child_path(parent, name@);
            if let Some(v) = listing {
                lemma_list_drawn(rules, v@, name_order(v@), path, depth + 1);
                if let Ok(h) = rules.walk_entry(e, parent) {
                    if let Ok(rows) = rules.full_entry(e, parent, depth) {
                        assert forall|r: int| 0 <= r < h.records.len() implies drawn(rows, #[trigger] h.records[r].path) by {
                            let sub = rules.full_list(v@, name_order(v@), path, depth + 1)->Ok_0;
                            assert(rows == seq![(depth, name@)] + sub);
                            lemma_drawn_shift(seq![(depth, name@)], sub, Seq::empty(), h.records[r].path);
                            assert(seq![(depth, name@)] + sub + Seq::<Row>::empty() =~= rows);
                        }
                    }
                }
            }
        },
    }
}

proof fn lemma_list_drawn(rules: Rules, es: Seq<Entry>, idx: Seq<usize>, parent: Seq<char>, depth: nat)
    ensures
        rules.walk_list(es, idx, parent) matches Ok(h) ==> (rules.full_list(es, idx, parent, depth) matches Ok(rows)
            ==> forall|r: int| 0 <= r < h.records.len() ==> drawn(rows, #[trigger] h.records[r].path)),
    decreases es, idx.len(),
{
    if idx.len() > 0 {
        let k = idx.last() as int;
        lemma_list_drawn(rules, es, idx.drop_last(), parent, depth);
        if k < es.len() {
            lemma_entry_drawn(rules, es[k], parent, depth);
        }
        if let Ok(h) = rules.walk_list(es, idx, parent) {
            if let Ok(rows) = rules.full_list(es, idx, parent, depth) {
                let h1 = rules.walk_list(es, idx.drop_last(), parent)->Ok_0;
                let rows1 = rules.full_list(es, idx.drop_last(), parent, depth)->Ok_0;
                assert forall|r: int| 0 <= r < h.records.len() implies drawn(rows, #[trigger] h.records[r].path) by {
                    if k < es.len() {
                        let h2 = rules.walk_entry(es[k], parent)->Ok_0;
                        let rows2 = rules.full_entry(es[k], parent, depth)->Ok_0;
                        assert(h.records == h1.records + h2.records);
                        assert(rows == rows1 + rows2);
                        if r < h1.records.len() {
                            assert(h.records[r] == h1.records[r]);
                            lemma_drawn_shift(Seq::empty(), rows1, rows2, h.records[r].path);
                            assert(Seq::<Row>::empty() + rows1 + rows2 =~= rows);
                        } else {
                            assert(h.records[r] == h2.records[r - h1.records.len()]);
                            lemma_drawn_shift(rows1, rows2, Seq::empty(), h.records[r].path);
                            assert(rows1 + rows2 + Seq::<Row>::empty() =~= rows);
                        }
                    } else {
                        assert(h == h1);
                        assert(rows == rows1);
                    }
                }
            }
        }
    }
}

/// Selection and the whole tree agree: every file selected from the whole
/// repository appears in its tree, as a node named by the last segment of
/// the file's path.
pub proof fn lemma_selected_files_are_drawn(rules: Rules, label: Seq<char>, root: Option<Vec<Entry>>)
    ensures
        rules.walk_dir(root, Seq::empty()) matches Ok(h) ==> (rules.full_tree(label, root) matches Ok(rows)
            ==> forall|r: int| 0 <= r < h.records.len() ==> drawn(rows, #[trigger] h.records[r].path)),
{
    if let Some(v) = root {
        lemma_list_drawn(rules, v@, name_order(v@), Seq::empty(), 1);
        if let Ok(h) = rules.walk_dir(root, Seq::empty()) {
            if let Ok(rows) = rules.full_tree(label, root) {
                let sub = rules.full_list(v@, name_order(v@), Seq::empty(), 1)->Ok_0;
                assert forall|r: int| 0 <= r < h.records.len() implies drawn(rows, #[trigger] h.records[r].path) by {
                    lemma_drawn_shift(seq![(0nat, label)], sub, Seq::empty(), h.records[r].path);
                    assert(seq![(0nat, label)] + sub + Seq::<Row>::empty() =~= rows);
                }
            }
        }
    }
}

} // verus!
