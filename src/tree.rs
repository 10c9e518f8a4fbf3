//! The directory tree shown in the document: either the whole repository
//! under the path filter, or only what leads to a set of targets.
//!
//! A tree is described by its rows in preorder: each row is a node's depth
//! (the root at 0) and its text. ptree turns those rows into the drawing.

use vstd::prelude::*;
use ptree::TreeBuilder;
use crate::config::Config;
use crate::error::ContextError;
use crate::files::{child_path, decode_utf8, decoded_utf8, is_recent, join_child, recent_enough, rules_of, some_pattern_rejected, Rules, Selector};
use crate::filter::{passes, texts};
use crate::snapshot::{name_order, visit_order, Entry, Target, TargetKind};

verus! {

#[verifier::external_type_specification]
#[verifier::external_body]
pub struct ExTreeBuilder(TreeBuilder);

/// One node of a drawn tree: its depth and its text.
pub type Row = (nat, Seq<char>);

/// The nodes a ptree builder holds, in preorder.
pub uninterp spec fn tree_rows(b: TreeBuilder) -> Seq<Row>;

/// The depth below which a ptree builder adds its next child.
pub uninterp spec fn tree_level(b: TreeBuilder) -> nat;

/// The bytes ptree writes for the tree with these rows, with its default
/// print settings.
pub uninterp spec fn drawn_tree(rows: Seq<Row>) -> Seq<u8>;

/// Relies on ptree::builder::TreeBuilder::new: a tree of just its root, and
/// the next child goes right under the root.
#[verifier::external_body]
fn new_builder(text: String) -> (b: TreeBuilder)
    ensures
        tree_rows(b) == seq![(0nat, text@)],
        tree_level(b) == 0,
{
    TreeBuilder::new(text)
}

/// Relies on ptree::builder::TreeBuilder::begin_child: the node becomes the
/// last child of the rightmost node at the current level (so the last row
/// in preorder), and the builder moves into it.
#[verifier::external_body]
fn begin_child(b: &mut TreeBuilder, text: String)
    requires
        tree_rows(*old(b)).len() > 0,
        tree_level(*old(b)) <= tree_rows(*old(b)).last().0,
        tree_level(*old(b)) < u32::MAX,
    ensures
        tree_rows(*final(b)) == tree_rows(*old(b)).push((tree_level(*old(b)) + 1, text@)),
        tree_level(*final(b)) == tree_level(*old(b)) + 1,
{
    b.begin_child(text);
}

/// Relies on ptree::builder::TreeBuilder::end_child: the builder moves back
/// up one level.
#[verifier::external_body]
fn end_child(b: &mut TreeBuilder)
    requires
        tree_level(*old(b)) > 0,
    ensures
        tree_rows(*final(b)) == tree_rows(*old(b)),
        tree_level(*final(b)) == tree_level(*old(b)) - 1,
{
    b.end_child();
}

/// Relies on ptree::builder::TreeBuilder::add_empty_child: a child added
/// and closed at once.
#[verifier::external_body]
fn add_leaf(b: &mut TreeBuilder, text: String)
    requires
        tree_rows(*old(b)).len() > 0,
        tree_level(*old(b)) <= tree_rows(*old(b)).last().0,
        tree_level(*old(b)) < u32::MAX,
    ensures
        tree_rows(*final(b)) == tree_rows(*old(b)).push((tree_level(*old(b)) + 1, text@)),
        tree_level(*final(b)) == tree_level(*old(b)),
{
    b.add_empty_child(text);
}

/// Relies on ptree::builder::TreeBuilder::build and
/// ptree::output::write_tree_with with PrintConfig::default: the tree is
/// drawn into a byte buffer, which cannot fail, and the builder is left as
/// it was.
#[verifier::external_body]
fn draw(b: &mut TreeBuilder) -> (r: Option<Vec<u8>>)
    ensures
        r matches Some(bytes) && bytes@ == drawn_tree(tree_rows(*old(b))),
        tree_rows(*final(b)) == tree_rows(*old(b)),
        tree_level(*final(b)) == tree_level(*old(b)),
{
    let item = b.build();
    let mut buf: Vec<u8> = Vec::new();
    match ptree::write_tree_with(&item, &mut buf, &ptree::PrintConfig::default()) {
        Ok(()) => Some(buf),
        Err(_) => None,
    }
}

/// The text of the drawing of `rows`, when it is UTF-8.
pub open spec fn tree_text(rows: Seq<Row>) -> Option<Seq<char>> {
    decoded_utf8(drawn_tree(rows))
}

/// How deeply directories nest in an entry.
pub open spec fn entry_height(e: Entry) -> nat
    decreases e, 0nat,
{
    match e {
        Entry::File(_, _) => 0,
        Entry::Dir(_, listing) => match listing {
            None => 1,
            Some(v) => 1 + list_height(v@, v@.len()),
        },
    }
}

/// How deeply directories nest in the first `n` entries of a listing.
pub open spec fn list_height(es: Seq<Entry>, n: nat) -> nat
    decreases es, n,
{
    if n == 0 {
        0
    } else {
        let a = list_height(es, (n - 1) as nat);
        let b = if n - 1 < es.len() { entry_height(es[n - 1]) } else { 0 };
        if a >= b { a } else { b }
    }
}

proof fn lemma_height_bound(es: Seq<Entry>, n: nat, k: int)
    requires
        0 <= k < n,
        n <= es.len(),
    ensures
        entry_height(es[k]) <= list_height(es, n),
    decreases n,
{
    if k < n - 1 {
        lemma_height_bound(es, (n - 1) as nat, k);
    }
}

/// How deeply directories nest in a listing that may be missing.
pub open spec fn root_height(listing: Option<Vec<Entry>>) -> nat {
    match listing {
        None => 0,
        Some(v) => list_height(v@, v@.len()),
    }
}

/// Drops trailing `/` from the first `e` characters of `p`.
pub open spec fn trim_end(p: Seq<char>, e: int) -> int
    decreases e,
{
    if e > 0 && e <= p.len() && p[e - 1] == '/' {
        trim_end(p, e - 1)
    } else {
        e
    }
}

/// Where the segment that ends at `s` starts.
pub open spec fn segment_start(p: Seq<char>, s: int) -> int
    decreases s,
{
    if s > 0 && s <= p.len() && p[s - 1] != '/' {
        segment_start(p, s - 1)
    } else {
        s
    }
}

/// The last segment of `p`, trailing `/` ignored.
pub open spec fn last_segment(p: Seq<char>) -> Seq<char> {
    let e = trim_end(p, p.len() as int);
    p.subrange(segment_start(p, e), e)
}

/// The text of the tree's root: the root directory's own name, or `root`
/// when it has none (empty, `.` or `..`).
pub open spec fn root_label(p: Seq<char>) -> Seq<char> {
    let s = last_segment(p);
    if s.len() == 0 || s == seq!['.'] || s == seq!['.', '.'] {
        seq!['r', 'o', 'o', 't']
    } else {
        s
    }
}

/// The tree's root text for the root directory `p`.
pub fn root_name(p: &String) -> (r: String)
    ensures
        r@ == root_label(p@),
{
    let n = p.unicode_len();
    let mut e: usize = n;
    while e > 0 && p.as_str().get_char(e - 1) == '/'
        invariant
            n == p@.len(),
            e <= n,
            trim_end(p@, n as int) == trim_end(p@, e as int),
        decreases e,
    {
        e = e - 1;
    }
    let mut s: usize = e;
    while s > 0 && p.as_str().get_char(s - 1) != '/'
        invariant
            n == p@.len(),
            s <= e,
            e <= n,
            trim_end(p@, n as int) == e,
            segment_start(p@, e as int) == segment_start(p@, s as int),
        decreases s,
    {
        s = s - 1;
    }
    let seg = p.as_str().substring_char(s, e);
    let len = e - s;
    proof {
        reveal_strlit("root");
        assert(seg@ == last_segment(p@));
    }
    let dots = (len == 1 && seg.get_char(0) == '.') || (len == 2 && seg.get_char(0) == '.' && seg.get_char(1) == '.');
    proof {
        if len == 1 && seg@[0] == '.' {
            assert(seg@ =~= seq!['.']);
        }
        if len == 2 && seg@[0] == '.' && seg@[1] == '.' {
            assert(seg@ =~= seq!['.', '.']);
        }
    }
    if len == 0 || dots {
        String::from_str("root")
    } else {
        String::from_str(seg)
    }
}

impl Rules {
    /// The rows that the whole-tree drawing gives one entry of the directory
    /// at `parent`, placed at `depth`; `Err` holds a directory that had to be
    /// listed and could not be.
    pub open spec fn full_entry(self, e: Entry, parent: Seq<char>, depth: nat) -> Result<Seq<Row>, Seq<char>>
        decreases e, 0nat,
    {
        match e {
            Entry::File(name, p) => {
                let path = child_path(parent, name@);
                if passes(self.exclude, self.wanted, path, true) && recent_enough(self.recent_only, p.modified, self.now) {
                    Ok(seq![(depth, name@)])
                } else {
                    Ok(Seq::empty())
                }
            },
            Entry::Dir(name, listing) => {
                let path = child_path(parent, name@);
                if !passes(self.exclude, self.wanted, path, false) {
                    Ok(Seq::empty())
                } else if !self.recursive {
                    Ok(seq![(depth, name@)])
                } else {
                    match listing {
                        None => Err(path),
                        Some(v) => match self.full_list(v@, name_order(v@), path, depth + 1) {
                            Err(q) => Err(q),
                            Ok(rows) => Ok(seq![(depth, name@)] + rows),
                        },
                    }
                }
            },
        }
    }

    /// The rows of the entries `es[idx[0]], es[idx[1]], ...`, in turn.
    pub open spec fn full_list(self, es: Seq<Entry>, idx: Seq<usize>, parent: Seq<char>, depth: nat) -> Result<
        Seq<Row>,
        Seq<char>,
    >
        decreases es, idx.len(),
    {
        if idx.len() == 0 {
            Ok(Seq::empty())
        } else {
            let k = idx.last() as int;
            match self.full_list(es, idx.drop_last(), parent, depth) {
                Err(q) => Err(q),
                Ok(rows) => if k < es.len() {
                    match self.full_entry(es[k], parent, depth) {
                        Err(q) => Err(q),
                        Ok(more) => Ok(rows + more),
                    }
                } else {
                    Ok(rows)
                },
            }
        }
    }

    /// The whole tree under the filter: the root row, then the rows of its
    /// listing in name order.
    pub open spec fn full_tree(self, label: Seq<char>, root: Option<Vec<Entry>>) -> Result<Seq<Row>, Seq<char>> {
        match root {
            None => Err(Seq::empty()),
            Some(v) => match self.full_list(v@, name_order(v@), Seq::empty(), 1) {
                Err(q) => Err(q),
                Ok(rows) => Ok(seq![(0nat, label)] + rows),
            },
        }
    }

    pub proof fn lemma_full_failure_sticks(self, es: Seq<Entry>, idx: Seq<usize>, parent: Seq<char>, depth: nat, m: int)
        requires
            0 <= m <= idx.len(),
            self.full_list(es, idx.take(m), parent, depth) is Err,
        ensures
            self.full_list(es, idx, parent, depth) == self.full_list(es, idx.take(m), parent, depth),
        decreases idx.len() - m,
    {
        if m < idx.len() {
            assert(idx.take(m + 1).drop_last() =~= idx.take(m));
            self.lemma_full_failure_sticks(es, idx, parent, depth, m + 1);
        } else {
            assert(idx.take(m) =~= idx);
        }
    }
}

/// Whether `a` is a prefix of `b`.
pub open spec fn is_prefix(a: Seq<Seq<char>>, b: Seq<Seq<char>>) -> bool {
    a.len() <= b.len() && b.take(a.len() as int) == a
}

/// Where a target lies, as root-relative components, when it exists inside
/// the root.
pub open spec fn target_place(t: Target) -> Option<Seq<Seq<char>>> {
    match t.kind {
        TargetKind::Missing => None,
        _ => match t.place {
            Some(c) => Some(texts(c@)),
            None => None,
        },
    }
}

/// Whether a target is the repository root itself.
pub open spec fn is_root_target(t: Target) -> bool {
    target_place(t) == Some(Seq::<Seq<char>>::empty())
}

/// Whether the entry with components `c` is drawn in the pruned tree: it
/// leads to a target (or is one), or lies inside a directory target.
pub open spec fn shown(ts: Seq<Target>, c: Seq<Seq<char>>) -> bool {
    exists|i: int| 0 <= i < ts.len() && (#[trigger] target_place(ts[i]) matches Some(pc) && (is_prefix(c, pc)
        || (ts[i].kind is Dir && is_prefix(pc, c))))
}

impl Rules {
    /// The rows that the pruned drawing gives one entry of the directory with
    /// components `cur`, placed at `depth`.
    pub open spec fn pruned_entry(self, ts: Seq<Target>, e: Entry, cur: Seq<Seq<char>>, depth: nat) -> Result<Seq<Row>, Seq<char>>
        decreases e, 0nat,
    {
        let c = cur.push(e.name_view());
        if !shown(ts, c) {
            Ok(Seq::empty())
        } else {
            match e {
                Entry::File(name, p) => if recent_enough(self.recent_only, p.modified, self.now) {
                    Ok(seq![(depth, name@)])
                } else {
                    Ok(Seq::empty())
                },
                Entry::Dir(name, listing) => match listing {
                    None => Err(crate::files::join_path(c)),
                    Some(v) => match self.pruned_list(ts, v@, name_order(v@), c, depth + 1) {
                        Err(q) => Err(q),
                        Ok(rows) => Ok(seq![(depth, name@)] + rows),
                    },
                },
            }
        }
    }

    /// The pruned rows of the entries `es[idx[0]], es[idx[1]], ...`.
    pub open spec fn pruned_list(self, ts: Seq<Target>, es: Seq<Entry>, idx: Seq<usize>, cur: Seq<Seq<char>>, depth: nat) -> Result<
        Seq<Row>,
        Seq<char>,
    >
        decreases es, idx.len(),
    {
        if idx.len() == 0 {
            Ok(Seq::empty())
        } else {
            let k = idx.last() as int;
            match self.pruned_list(ts, es, idx.drop_last(), cur, depth) {
                Err(q) => Err(q),
                Ok(rows) => if k < es.len() {
                    match self.pruned_entry(ts, es[k], cur, depth) {
                        Err(q) => Err(q),
                        Ok(more) => Ok(rows + more),
                    }
                } else {
                    Ok(rows)
                },
            }
        }
    }

    /// The tree for a set of targets: the whole tree when one of them is the
    /// root itself, else the root row and the pruned rows.
    pub open spec fn target_tree(self, label: Seq<char>, root: Option<Vec<Entry>>, ts: Seq<Target>) -> Result<Seq<Row>, Seq<char>> {
        if ts.len() == 0 || exists|i: int| 0 <= i < ts.len() && #[trigger] is_root_target(ts[i]) {
            self.full_tree(label, root)
        } else {
            match root {
                None => Err(Seq::empty()),
                Some(v) => match self.pruned_list(ts, v@, name_order(v@), Seq::empty(), 1) {
                    Err(q) => Err(q),
                    Ok(rows) => Ok(seq![(0nat, label)] + rows),
                },
            }
        }
    }

    pub proof fn lemma_pruned_failure_sticks(self, ts: Seq<Target>, es: Seq<Entry>, idx: Seq<usize>, cur: Seq<Seq<char>>, depth: nat, m: int)
        requires
            0 <= m <= idx.len(),
            self.pruned_list(ts, es, idx.take(m), cur, depth) is Err,
        ensures
            self.pruned_list(ts, es, idx, cur, depth) == self.pruned_list(ts, es, idx.take(m), cur, depth),
        decreases idx.len() - m,
    {
        if m < idx.len() {
            assert(idx.take(m + 1).drop_last() =~= idx.take(m));
            self.lemma_pruned_failure_sticks(ts, es, idx, cur, depth, m + 1);
        } else {
            assert(idx.take(m) =~= idx);
        }
    }
}

/// Whether the components `a` are a prefix of the components `b`.
pub fn components_prefix(a: &Vec<String>, b: &Vec<String>) -> (r: bool)
    ensures
        r == is_prefix(texts(a@), texts(b@)),
{
    if a.len() > b.len() {
        return false;
    }
    let mut i: usize = 0;
    while i < a.len()
        invariant
            a@.len() <= b@.len(),
            i <= a@.len(),
            forall|k: int| 0 <= k < i ==> (#[trigger] a@[k])@ == b@[k]@,
        decreases a@.len() - i,
    {
        if a[i] != b[i] {
            proof {
                assert(texts(b@).take(a@.len() as int)[i as int] != texts(a@)[i as int]);
            }
            return false;
        }
        i = i + 1;
    }
    proof {
        assert(texts(b@).take(a@.len() as int) =~= texts(a@));
    }
    true
}

/// Whether the entry with components `c` is drawn in the pruned tree.
pub fn is_shown(ts: &Vec<Target>, c: &Vec<String>) -> (r: bool)
    ensures
        r == shown(ts@, texts(c@)),
{
    let mut i: usize = 0;
    while i < ts.len()
        invariant
            i <= ts@.len(),
            forall|j: int| 0 <= j < i ==> !(#[trigger] target_place(ts@[j]) matches Some(pc) && (is_prefix(texts(c@), pc)
                || (ts@[j].kind is Dir && is_prefix(pc, texts(c@))))),
        decreases ts@.len() - i,
    {
        let t = &ts[i];
        let is_dir = match &t.kind {
            TargetKind::Dir(_) => true,
            _ => false,
        };
        let exists = match &t.kind {
            TargetKind::Missing => false,
            _ => true,
        };
        if exists {
            match &t.place {
                Some(pc) => {
                    if components_prefix(c, pc) || (is_dir && components_prefix(pc, c)) {
                        proof {
                            assert(target_place(ts@[i as int]) == Some(texts(pc@)));
                        }
                        return true;
                    }
                },
                None => {},
            }
        }
        i = i + 1;
    }
    false
}

/// Whether one of the targets is the repository root itself.
pub fn has_root_target(ts: &Vec<Target>) -> (r: bool)
    ensures
        r == exists|i: int| 0 <= i < ts@.len() && #[trigger] is_root_target(ts@[i]),
{
    let mut i: usize = 0;
    while i < ts.len()
        invariant
            i <= ts@.len(),
            forall|j: int| 0 <= j < i ==> !#[trigger] is_root_target(ts@[j]),
        decreases ts@.len() - i,
    {
        let t = &ts[i];
        let exists = match &t.kind {
            TargetKind::Missing => false,
            _ => true,
        };
        if exists {
            match &t.place {
                Some(pc) => {
                    proof {
                        assert(target_place(ts@[i as int]) == Some(texts(pc@)));
                        assert(texts(pc@).len() == pc@.len());
                    }
                    if pc.len() == 0 {
                        proof {
                            assert(texts(pc@) =~= Seq::<Seq<char>>::empty());
                            assert(target_place(ts@[i as int]) == Some(texts(pc@)));
                            assert(is_root_target(ts@[i as int]));
                        }
                        return true;
                    }
                },
                None => {},
            }
        }
        i = i + 1;
    }
    false
}

impl Selector {
    /// Adds to `b` the whole-tree rows of the listing `es` of the directory
    /// at `parent`, at `depth`.
    fn full_walk(&self, es: &Vec<Entry>, parent: &String, depth: Ghost<nat>, b: &mut TreeBuilder) -> (r: Result<(), ContextError>)
        requires
            self.filter.wf(),
            depth@ >= 1,
            tree_level(*old(b)) + 1 == depth@,
            tree_rows(*old(b)).len() > 0,
            tree_rows(*old(b)).last().0 + 1 >= depth@,
            depth@ + list_height(es@, es@.len()) < u32::MAX,
        ensures
            match self.rules().full_list(es@, name_order(es@), parent@, depth@) {
                Ok(rows) => r is Ok
                    && tree_rows(*final(b)) == tree_rows(*old(b)) + rows
                    && tree_level(*final(b)) == tree_level(*old(b))
                    && tree_rows(*final(b)).len() > 0
                    && tree_rows(*final(b)).last().0 + 1 >= depth@,
                Err(p) => r matches Err(ContextError::Listing(s)) && s@ == p,
            },
        decreases es@,
    {
        let order = visit_order(es);
        let ghost rules = self.rules();
        let ghost rows0 = tree_rows(*b);
        let ghost level0 = tree_level(*b);
        let mut t: usize = 0;
        while t < order.len()
            invariant
                self.filter.wf(),
                rules == self.rules(),
                order@ == name_order(es@),
                order@.len() == es@.len(),
                forall|j: int| 0 <= j < order@.len() ==> (#[trigger] order@[j]) < es@.len(),
                t <= order@.len(),
                depth@ >= 1,
                depth@ + list_height(es@, es@.len()) < u32::MAX,
                tree_level(*b) == level0,
                level0 + 1 == depth@,
                tree_rows(*b).len() > 0,
                tree_rows(*b).last().0 + 1 >= depth@,
                rules.full_list(es@, order@.take(t as int), parent@, depth@) matches Ok(rows)
                    && tree_rows(*b) == rows0 + rows,
            decreases order@.len() - t,
        {
            let k = order[t];
            let ghost prev = rules.full_list(es@, order@.take(t as int), parent@, depth@)->Ok_0;
            proof {
                assert(order@.take(t as int + 1).drop_last() =~= order@.take(t as int));
                assert(order@.take(t as int + 1).last() == k);
                lemma_height_bound(es@, es@.len(), k as int);
            }
            let ghost rows1 = tree_rows(*b);
            match &es[k] {
                Entry::File(name, p) => {
                    let path = join_child(parent, name);
                    if self.filter.should_include(path.as_str(), true) && is_recent(self.recent_only, p.modified, self.now) {
                        add_leaf(b, name.clone());
                        proof {
                            let more = seq![(depth@, name@)];
                            assert(rules.full_entry(es@[k as int], parent@, depth@) == Ok::<Seq<Row>, Seq<char>>(more));
                            assert(rules.full_list(es@, order@.take(t as int + 1), parent@, depth@) == Ok::<Seq<Row>, Seq<char>>(prev + more));
                            assert(tree_rows(*b) =~= rows0 + (prev + more));
                        }
                    } else {
                        proof {
                            assert(rules.full_entry(es@[k as int], parent@, depth@) == Ok::<Seq<Row>, Seq<char>>(Seq::empty()));
                            assert(rules.full_list(es@, order@.take(t as int + 1), parent@, depth@) == Ok::<Seq<Row>, Seq<char>>(prev + Seq::empty()));
                            assert(prev + Seq::<Row>::empty() =~= prev);
                        }
                    }
                },
                Entry::Dir(name, listing) => {
                    let path = join_child(parent, name);
                    if !self.filter.should_include(path.as_str(), false) {
                        proof {
                            assert(rules.full_entry(es@[k as int], parent@, depth@) == Ok::<Seq<Row>, Seq<char>>(Seq::empty()));
                            assert(rules.full_list(es@, order@.take(t as int + 1), parent@, depth@) == Ok::<Seq<Row>, Seq<char>>(prev + Seq::empty()));
                            assert(prev + Seq::<Row>::empty() =~= prev);
                        }
                    } else if !self.recursive {
                        add_leaf(b, name.clone());
                        proof {
                            let more = seq![(depth@, name@)];
                            assert(rules.full_entry(es@[k as int], parent@, depth@) == Ok::<Seq<Row>, Seq<char>>(more));
                            assert(rules.full_list(es@, order@.take(t as int + 1), parent@, depth@) == Ok::<Seq<Row>, Seq<char>>(prev + more));
                            assert(tree_rows(*b) =~= rows0 + (prev + more));
                        }
                    } else {
                        match listing {
                            None => {
                                proof {
                                    assert(rules.full_entry(es@[k as int], parent@, depth@) == Err::<Seq<Row>, Seq<char>>(path@));
                                    assert(rules.full_list(es@, order@.take(t as int + 1), parent@, depth@) == Err::<Seq<Row>, Seq<char>>(path@));
                                    rules.lemma_full_failure_sticks(es@, order@, parent@, depth@, t as int + 1);
                                }
                                return Err(ContextError::Listing(path));
                            },
                            Some(v) => {
                                proof {
                                    assert(decreases_to!(es@ => es@[k as int]));
                                }
                                begin_child(b, name.clone());
                                let ghost rows2 = tree_rows(*b);
                                match self.full_walk(v, &path, Ghost(depth@ + 1), b) {
                                    Ok(()) => {},
                                    Err(e) => {
                                        proof {
                                            assert(rules.full_entry(es@[k as int], parent@, depth@) == rules.full_list(v@, name_order(v@), path@, depth@ + 1));
                                            assert(rules.full_list(es@, order@.take(t as int + 1), parent@, depth@) == rules.full_list(v@, name_order(v@), path@, depth@ + 1));
                                            rules.lemma_full_failure_sticks(es@, order@, parent@, depth@, t as int + 1);
                                        }
                                        return Err(e);
                                    },
                                }
                                end_child(b);
                                proof {
                                    let sub = rules.full_list(v@, name_order(v@), path@, depth@ + 1)->Ok_0;
                                    let more = seq![(depth@, name@)] + sub;
                                    assert(rules.full_entry(es@[k as int], parent@, depth@) == Ok::<Seq<Row>, Seq<char>>(more));
                                    assert(rules.full_list(es@, order@.take(t as int + 1), parent@, depth@) == Ok::<Seq<Row>, Seq<char>>(prev + more));
                                    assert(tree_rows(*b) =~= rows0 + (prev + more));
                                }
                            },
                        }
                    }
                },
            }
            t = t + 1;
        }
        proof {
            assert(order@.take(t as int) =~= order@);
        }
        Ok(())
    }
}

/// `cur` with `name` appended.
fn extend_path(cur: &Vec<String>, name: &String) -> (r: Vec<String>)
    ensures
        r@ == cur@.push(*name),
{
    let mut r: Vec<String> = Vec::new();
    let mut i: usize = 0;
    while i < cur.len()
        invariant
            i <= cur@.len(),
            r@ == cur@.take(i as int),
        decreases cur@.len() - i,
    {
        r.push(cur[i].clone());
        proof {
            assert(cur@.take(i as int + 1) =~= cur@.take(i as int).push(cur@[i as int]));
        }
        i = i + 1;
    }
    r.push(name.clone());
    proof {
        assert(cur@.take(i as int) =~= cur@);
    }
    r
}

/// Adds to `b` the pruned rows of the listing `es` of the directory with
/// components `cur`, at `depth`.
fn pruned_walk(recent_only: bool, now: u64, spec_rules: Ghost<Rules>, ts: &Vec<Target>, es: &Vec<Entry>, cur: &Vec<String>, depth: Ghost<nat>, b: &mut TreeBuilder) -> (r: Result<(), ContextError>)
    requires
        spec_rules@.recent_only == recent_only,
        spec_rules@.now == now,
        depth@ >= 1,
        tree_level(*old(b)) + 1 == depth@,
        tree_rows(*old(b)).len() > 0,
        tree_rows(*old(b)).last().0 + 1 >= depth@,
        depth@ + list_height(es@, es@.len()) < u32::MAX,
    ensures
        match spec_rules@.pruned_list(ts@, es@, name_order(es@), texts(cur@), depth@) {
            Ok(rows) => r is Ok
                && tree_rows(*final(b)) == tree_rows(*old(b)) + rows
                && tree_level(*final(b)) == tree_level(*old(b))
                && tree_rows(*final(b)).len() > 0
                && tree_rows(*final(b)).last().0 + 1 >= depth@,
            Err(p) => r matches Err(ContextError::Listing(s)) && s@ == p,
        },
    decreases es@,
{
    let order = visit_order(es);
    let ghost rules = spec_rules@;
    let ghost rows0 = tree_rows(*b);
    let ghost level0 = tree_level(*b);
    let ghost tsv = ts@;
    let ghost curv = texts(cur@);
    let mut t: usize = 0;
    while t < order.len()
        invariant
            rules == spec_rules@,
            rules.recent_only == recent_only,
            rules.now == now,
            tsv == ts@,
            curv == texts(cur@),
            order@ == name_order(es@),
            order@.len() == es@.len(),
            forall|j: int| 0 <= j < order@.len() ==> (#[trigger] order@[j]) < es@.len(),
            t <= order@.len(),
            depth@ >= 1,
            depth@ + list_height(es@, es@.len()) < u32::MAX,
            tree_level(*b) == level0,
            level0 + 1 == depth@,
            tree_rows(*b).len() > 0,
            tree_rows(*b).last().0 + 1 >= depth@,
            rules.pruned_list(tsv, es@, order@.take(t as int), curv, depth@) matches Ok(rows)
                && tree_rows(*b) == rows0 + rows,
        decreases order@.len() - t,
    {
        let k = order[t];
        let ghost prev = rules.pruned_list(tsv, es@, order@.take(t as int), curv, depth@)->Ok_0;
        proof {
            assert(order@.take(t as int + 1).drop_last() =~= order@.take(t as int));
            assert(order@.take(t as int + 1).last() == k);
            lemma_height_bound(es@, es@.len(), k as int);
        }
        let e = &es[k];
        let c = extend_path(cur, e.name());
        proof {
            assert(texts(c@) =~= curv.push(e.name_view()));
        }
        if !is_shown(ts, &c) {
            proof {
                assert(rules.pruned_entry(tsv, es@[k as int], curv, depth@) == Ok::<Seq<Row>, Seq<char>>(Seq::empty()));
                assert(rules.pruned_list(tsv, es@, order@.take(t as int + 1), curv, depth@) == Ok::<Seq<Row>, Seq<char>>(prev + Seq::empty()));
                assert(prev + Seq::<Row>::empty() =~= prev);
            }
        } else {
            match e {
                Entry::File(name, p) => {
                    if is_recent(recent_only, p.modified, now) {
                        add_leaf(b, name.clone());
                        proof {
                            let more = seq![(depth@, name@)];
                            assert(rules.pruned_entry(tsv, es@[k as int], curv, depth@) == Ok::<Seq<Row>, Seq<char>>(more));
                            assert(rules.pruned_list(tsv, es@, order@.take(t as int + 1), curv, depth@) == Ok::<Seq<Row>, Seq<char>>(prev + more));
                            assert(tree_rows(*b) =~= rows0 + (prev + more));
                        }
                    } else {
                        proof {
                            assert(rules.pruned_entry(tsv, es@[k as int], curv, depth@) == Ok::<Seq<Row>, Seq<char>>(Seq::empty()));
                            assert(rules.pruned_list(tsv, es@, order@.take(t as int + 1), curv, depth@) == Ok::<Seq<Row>, Seq<char>>(prev + Seq::empty()));
                            assert(prev + Seq::<Row>::empty() =~= prev);
                        }
                    }
                },
                Entry::Dir(name, listing) => {
                    match listing {
                        None => {
                            let path = crate::files::join_components(&c);
                            proof {
                                assert(rules.pruned_entry(tsv, es@[k as int], curv, depth@) == Err::<Seq<Row>, Seq<char>>(path@));
                                assert(rules.pruned_list(tsv, es@, order@.take(t as int + 1), curv, depth@) == Err::<Seq<Row>, Seq<char>>(path@));
                                rules.lemma_pruned_failure_sticks(tsv, es@, order@, curv, depth@, t as int + 1);
                            }
                            return Err(ContextError::Listing(path));
                        },
                        Some(v) => {
                            proof {
                                assert(decreases_to!(es@ => es@[k as int]));
                            }
                            begin_child(b, name.clone());
                            match pruned_walk(recent_only, now, Ghost(rules), ts, v, &c, Ghost(depth@ + 1), b) {
                                Ok(()) => {},
                                Err(err) => {
                                    proof {
                                        assert(rules.pruned_entry(tsv, es@[k as int], curv, depth@) == rules.pruned_list(tsv, v@, name_order(v@), texts(c@), depth@ + 1));
                                        assert(rules.pruned_list(tsv, es@, order@.take(t as int + 1), curv, depth@) == rules.pruned_list(tsv, v@, name_order(v@), texts(c@), depth@ + 1));
                                        rules.lemma_pruned_failure_sticks(tsv, es@, order@, curv, depth@, t as int + 1);
                                    }
                                    return Err(err);
                                },
                            }
                            end_child(b);
                            proof {
                                let sub = rules.pruned_list(tsv, v@, name_order(v@), texts(c@), depth@ + 1)->Ok_0;
                                let more = seq![(depth@, name@)] + sub;
                                assert(rules.pruned_entry(tsv, es@[k as int], curv, depth@) == Ok::<Seq<Row>, Seq<char>>(more));
                                assert(rules.pruned_list(tsv, es@, order@.take(t as int + 1), curv, depth@) == Ok::<Seq<Row>, Seq<char>>(prev + more));
                                assert(tree_rows(*b) =~= rows0 + (prev + more));
                            }
                        },
                    }
                },
            }
        }
        t = t + 1;
    }
    proof {
        assert(order@.take(t as int) =~= order@);
    }
    Ok(())
}

/// Draws the builder's tree as text.
fn finish(b: &mut TreeBuilder) -> (r: Result<String, ContextError>)
    ensures
        match tree_text(tree_rows(*old(b))) {
            Some(t) => r matches Ok(s) && s@ == t,
            None => r == Err::<String, ContextError>(ContextError::TreeText),
        },
{
    match draw(b) {
        Some(bytes) => match decode_utf8(bytes) {
            Some(s) => Ok(s),
            None => Err(ContextError::TreeText),
        },
        None => Err(ContextError::TreeText),
    }
}

/// Whether `tree` was drawn without failure and its drawing reads `text`.
pub open spec fn draws_as(tree: Result<Seq<Row>, Seq<char>>, text: Seq<char>) -> bool {
    tree matches Ok(rows) && tree_text(rows) == Some(text)
}

/// Whether `tree` was drawn without failure into valid text.
pub open spec fn drawable(tree: Result<Seq<Row>, Seq<char>>) -> bool {
    tree matches Ok(rows) && tree_text(rows) is Some
}

/// The directory tree of a run, rendered as text.
#[derive(Debug, Clone)]
pub struct TreeContext {
    pub tree_str: String,
    /// The settings the tree is drawn by.
    pub config: Config,
}

impl TreeContext {
    /// A context with no tree drawn yet.
    pub fn new(config: Config) -> (r: Self)
        ensures
            r.tree_str@.len() == 0,
            r.config == config,
    {
        TreeContext { tree_str: String::new(), config }
    }

    /// Draws the whole tree of the repository whose root listing is `root`,
    /// under the filter, as of time `now`.
    pub fn build_tree_from_root(&mut self, root: &Option<Vec<Entry>>, now: u64) -> (r: Result<(), ContextError>)
        requires
            root_height(*root) + 1 < u32::MAX,
        ensures
            final(self).config == old(self).config,
            r is Ok ==> draws_as(rules_of(old(self).config, now).full_tree(root_label(old(self).config.root_path@), *root), final(self).tree_str@),
            r matches Err(ContextError::Listing(p)) ==> rules_of(old(self).config, now).full_tree(
                root_label(old(self).config.root_path@), *root) == Err::<Seq<Row>, Seq<char>>(p@),
            rules_of(old(self).config, now).full_tree(root_label(old(self).config.root_path@), *root) is Err ==> r is Err,
            old(self).config.exclude_patterns@.len() == 0 && old(self).config.include_patterns@.len() == 0 ==> (r is Ok
                <==> drawable(rules_of(old(self).config, now).full_tree(root_label(old(self).config.root_path@), *root))),
            some_pattern_rejected(old(self).config) ==> r is Err,
            r is Err ==> final(self).tree_str == old(self).tree_str,
    {
        let sel = Selector::new(&self.config, now)?;
        let label = root_name(&self.config.root_path);
        match root {
            None => Err(ContextError::Listing(String::new())),
            Some(v) => {
                let mut b = new_builder(label);
                sel.full_walk(v, &String::new(), Ghost(1), &mut b)?;
                let s = finish(&mut b)?;
                self.tree_str = s;
                Ok(())
            },
        }
    }

    /// Draws the tree for `targets`: the whole tree when there are none or
    /// one is the root itself, else only the entries that lead to a target,
    /// and everything inside directory targets.
    pub fn build_tree_from_targets(&mut self, root: &Option<Vec<Entry>>, targets: &Vec<Target>, now: u64) -> (r: Result<(), ContextError>)
        requires
            root_height(*root) + 1 < u32::MAX,
        ensures
            final(self).config == old(self).config,
            r is Ok ==> draws_as(rules_of(old(self).config, now).target_tree(root_label(old(self).config.root_path@), *root, targets@), final(self).tree_str@),
            r matches Err(ContextError::Listing(p)) ==> rules_of(old(self).config, now).target_tree(
                root_label(old(self).config.root_path@), *root, targets@) == Err::<Seq<Row>, Seq<char>>(p@),
            rules_of(old(self).config, now).target_tree(root_label(old(self).config.root_path@), *root, targets@) is Err ==> r is Err,
            old(self).config.exclude_patterns@.len() == 0 && old(self).config.include_patterns@.len() == 0 ==> (r is Ok
                <==> drawable(rules_of(old(self).config, now).target_tree(root_label(old(self).config.root_path@), *root, targets@))),
            r is Err ==> final(self).tree_str == old(self).tree_str,
    {
        if targets.len() == 0 || has_root_target(targets) {
            return self.build_tree_from_root(root, now);
        }
        let ghost rules = rules_of(self.config, now);
        let label = root_name(&self.config.root_path);
        match root {
            None => Err(ContextError::Listing(String::new())),
            Some(v) => {
                let mut b = new_builder(label);
                let top: Vec<String> = Vec::new();
                proof {
                    assert(texts(top@) =~= Seq::<Seq<char>>::empty());
                }
                pruned_walk(self.config.recent_only, now, Ghost(rules), targets, v, &top, Ghost(1), &mut b)?;
                let s = finish(&mut b)?;
                self.tree_str = s;
                Ok(())
            },
        }
    }
}

} // verus!
