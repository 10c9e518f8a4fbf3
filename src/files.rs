//! File selection: walks a snapshot under the path filter, classifies each
//! surviving file as binary or text, and captures its text.

use vstd::prelude::*;
use crate::config::{Config, CONTENT_SIZE_LIMIT, RECENT_WINDOW_SECS, SNIFF_LEN};
use crate::error::ContextError;
use crate::filter::{passes, texts, PathFilter};
use crate::snapshot::{name_order, visit_order, Entry, FileProbe, Target, TargetKind};
use crate::types::{entries_view, notices_view, FileContext, FileEntry, FileEntryView, Notice, NoticeKind};

verus! {

/// The text that `b` decodes to as UTF-8, or `None` when it is not UTF-8.
pub uninterp spec fn decoded_utf8(b: Seq<u8>) -> Option<Seq<char>>;

/// Relies on std's String::from_utf8: the bytes' text when they are valid
/// UTF-8, and no bytes give the empty text.
#[verifier::external_body]
pub(crate) fn decode_utf8(b: Vec<u8>) -> (r: Option<String>)
    ensures
        r matches Some(s) ==> decoded_utf8(b@) == Some(s@),
        r is None ==> decoded_utf8(b@) is None,
{
    String::from_utf8(b).ok()
}

/// How many newline bytes `b` holds.
pub open spec fn newline_count(b: Seq<u8>) -> nat
    decreases b.len(),
{
    if b.len() == 0 {
        0
    } else {
        newline_count(b.drop_last()) + if b.last() == 10u8 { 1nat } else { 0nat }
    }
}

/// The number of lines of `b`: each newline ends one, and a non-empty
/// tail after the last newline is one more.
pub open spec fn line_count(b: Seq<u8>) -> nat {
    newline_count(b) + if b.len() > 0 && b.last() != 10u8 { 1nat } else { 0nat }
}

/// Whether a zero byte occurs among the first `SNIFF_LEN` bytes of `b`.
pub open spec fn sniffs_binary(b: Seq<u8>) -> bool {
    exists|i: int| 0 <= i < b.len() && i < SNIFF_LEN && #[trigger] b[i] == 0u8
}

/// Whether a file passes the recency rule.
pub open spec fn recent_enough(recent_only: bool, modified: Option<u64>, now: u64) -> bool {
    !recent_only || (modified matches Some(m) && m + RECENT_WINDOW_SECS >= now)
}

/// The path of entry `name` inside the directory at `parent` (empty for
/// the root).
pub open spec fn child_path(parent: Seq<char>, name: Seq<char>) -> Seq<char> {
    if parent.len() == 0 {
        name
    } else {
        parent + seq!['/'] + name
    }
}

/// The record of a file at `path`; `None` when its size is unknown.
pub open spec fn record_of(path: Seq<char>, p: FileProbe) -> Option<FileEntryView> {
    match p.size {
        None => None,
        Some(size) => {
            let is_binary = match p.bytes {
                None => true,
                Some(b) => sniffs_binary(b@),
            };
            let text = if is_binary || size >= CONTENT_SIZE_LIMIT {
                None
            } else {
                decoded_utf8(p.bytes->Some_0@)
            };
            let lines = if is_binary { 0 } else { line_count(p.bytes->Some_0@) as u64 };
            Some(FileEntryView { path, content: text, size, lines, is_binary })
        },
    }
}

/// Records and warnings gathered by a walk.
pub struct Harvest {
    pub records: Seq<FileEntryView>,
    pub notices: Seq<(NoticeKind, Seq<char>)>,
}

impl Harvest {
    pub open spec fn empty() -> Harvest {
        Harvest { records: Seq::empty(), notices: Seq::empty() }
    }

    pub open spec fn join(self, other: Harvest) -> Harvest {
        Harvest { records: self.records + other.records, notices: self.notices + other.notices }
    }
}

/// The selection rules of a run, as values.
pub struct Rules {
    pub exclude: Seq<Seq<char>>,
    pub wanted: Seq<Seq<char>>,
    pub recursive: bool,
    pub recent_only: bool,
    /// The time of the run, in seconds since the epoch.
    pub now: u64,
}

/// Whether globset rejects one of the patterns of `config`.
pub open spec fn some_pattern_rejected(config: Config) -> bool {
    ||| exists|i: int| 0 <= i < config.exclude_patterns@.len() && !crate::filter::glob_accepts(#[trigger] config.exclude_patterns@[i]@)
    ||| exists|i: int| 0 <= i < config.include_patterns@.len() && !crate::filter::glob_accepts(#[trigger] config.include_patterns@[i]@)
}

/// The rules that `config` sets for a run at time `now`.
pub open spec fn rules_of(config: Config, now: u64) -> Rules {
    Rules {
        exclude: texts(config.exclude_patterns@),
        wanted: texts(config.include_patterns@),
        recursive: config.is_recursive,
        recent_only: config.recent_only,
        now,
    }
}

impl Rules {
    /// A file that is already chosen: the recency rule, then its record
    /// (with a warning when it could not be opened).
    pub open spec fn probe_outcome(self, path: Seq<char>, p: FileProbe) -> Harvest {
        if self.recent_only && p.modified is None {
            Harvest { records: Seq::empty(), notices: seq![(NoticeKind::TimestampUnreadable, path)] }
        } else if !recent_enough(self.recent_only, p.modified, self.now) {
            Harvest::empty()
        } else {
            match record_of(path, p) {
                Some(r) => Harvest {
                    records: seq![r],
                    notices: if p.bytes is None { seq![(NoticeKind::FileUnopened, path)] } else { Seq::empty() },
                },
                None => Harvest { records: Seq::empty(), notices: seq![(NoticeKind::FileUnreadable, path)] },
            }
        }
    }

    /// A file met by the walk: the filter first.
    pub open spec fn file_outcome(self, path: Seq<char>, p: FileProbe) -> Harvest {
        if !passes(self.exclude, self.wanted, path, true) {
            Harvest::empty()
        } else {
            self.probe_outcome(path, p)
        }
    }

    /// What the walk gathers from one entry of the directory at `parent`;
    /// `Err` holds the path of a directory it had to enter and could not list.
    pub open spec fn walk_entry(self, e: Entry, parent: Seq<char>) -> Result<Harvest, Seq<char>>
        decreases e, 0nat,
    {
        match e {
            Entry::File(name, p) => Ok(self.file_outcome(child_path(parent, name@), p)),
            Entry::Dir(name, listing) => {
                let path = child_path(parent, name@);
                if !self.recursive || !passes(self.exclude, self.wanted, path, false) {
                    Ok(Harvest::empty())
                } else {
                    match listing {
                        None => Err(path),
                        Some(v) => self.walk_list(v@, name_order(v@), path),
                    }
                }
            },
        }
    }

    /// What the walk gathers from the entries `es[idx[0]], es[idx[1]], ...`
    /// of the directory at `parent`, stopping at the first failure.
    pub open spec fn walk_list(self, es: Seq<Entry>, idx: Seq<usize>, parent: Seq<char>) -> Result<
        Harvest,
        Seq<char>,
    >
        decreases es, idx.len(),
    {
        if idx.len() == 0 {
            Ok(Harvest::empty())
        } else {
            let k = idx.last() as int;
            match self.walk_list(es, idx.drop_last(), parent) {
                Err(p) => Err(p),
                Ok(h) => if k < es.len() {
                    match self.walk_entry(es[k], parent) {
                        Err(p) => Err(p),
                        Ok(h2) => Ok(h.join(h2)),
                    }
                } else {
                    Ok(h)
                },
            }
        }
    }

    /// Once a prefix of the visiting order fails, the whole walk fails the
    /// same way.
    pub proof fn lemma_failure_sticks(self, es: Seq<Entry>, idx: Seq<usize>, parent: Seq<char>, m: int)
        requires
            0 <= m <= idx.len(),
            self.walk_list(es, idx.take(m), parent) is Err,
        ensures
            self.walk_list(es, idx, parent) == self.walk_list(es, idx.take(m), parent),
        decreases idx.len() - m,
    {
        if m < idx.len() {
            assert(idx.take(m + 1).drop_last() =~= idx.take(m));
            self.lemma_failure_sticks(es, idx, parent, m + 1);
        } else {
            assert(idx.take(m) =~= idx);
        }
    }

    /// What the walk gathers from a directory with listing `listing`, whose
    /// path is `base`.
    pub open spec fn walk_dir(self, listing: Option<Vec<Entry>>, base: Seq<char>) -> Result<Harvest, Seq<char>> {
        match listing {
            None => Err(base),
            Some(v) => self.walk_list(v@, name_order(v@), base),
        }
    }
}

/// The `/`-joined path of components `cs`.
pub open spec fn join_path(cs: Seq<Seq<char>>) -> Seq<char>
    decreases cs.len(),
{
    if cs.len() == 0 {
        Seq::empty()
    } else {
        child_path(join_path(cs.drop_last()), cs.last())
    }
}

/// The path under which a target's files are recorded: relative to the
/// root when it lies inside it, else as given.
pub open spec fn target_base(t: Target) -> Seq<char> {
    match t.place {
        Some(c) => join_path(texts(c@)),
        None => t.given@,
    }
}

impl Rules {
    /// What one target contributes: a file is taken directly (only the
    /// recency rule applies), a directory is walked.
    pub open spec fn walk_target(self, t: Target) -> Result<Harvest, Seq<char>> {
        match t.kind {
            TargetKind::Missing => Ok(Harvest { records: Seq::empty(), notices: seq![(NoticeKind::TargetMissing, t.given@)] }),
            TargetKind::File(p) => Ok(self.probe_outcome(target_base(t), p)),
            TargetKind::Dir(listing) => self.walk_dir(listing, target_base(t)),
        }
    }

    /// What the targets contribute, in order, stopping at the first failure.
    pub open spec fn walk_targets(self, ts: Seq<Target>) -> Result<Harvest, Seq<char>>
        decreases ts.len(),
    {
        if ts.len() == 0 {
            Ok(Harvest::empty())
        } else {
            match self.walk_targets(ts.drop_last()) {
                Err(p) => Err(p),
                Ok(h) => match self.walk_target(ts.last()) {
                    Err(p) => Err(p),
                    Ok(h2) => Ok(h.join(h2)),
                },
            }
        }
    }

    pub proof fn lemma_target_failure_sticks(self, ts: Seq<Target>, m: int)
        requires
            0 <= m <= ts.len(),
            self.walk_targets(ts.take(m)) is Err,
        ensures
            self.walk_targets(ts) == self.walk_targets(ts.take(m)),
        decreases ts.len() - m,
    {
        if m < ts.len() {
            assert(ts.take(m + 1).drop_last() =~= ts.take(m));
            self.lemma_target_failure_sticks(ts, m + 1);
        } else {
            assert(ts.take(m) =~= ts);
        }
    }
}

/// Joins path components with `/`.
pub fn join_components(cs: &Vec<String>) -> (r: String)
    ensures
        r@ == join_path(texts(cs@)),
{
    let mut s = String::new();
    let mut i: usize = 0;
    while i < cs.len()
        invariant
            i <= cs@.len(),
            s@ == join_path(texts(cs@.take(i as int))),
        decreases cs@.len() - i,
    {
        proof {
            assert(texts(cs@.take(i as int + 1)).drop_last() =~= texts(cs@.take(i as int)));
        }
        s = join_child(&s, &cs[i]);
        i = i + 1;
    }
    proof {
        assert(cs@.take(i as int) =~= cs@);
    }
    s
}

/// Whether a zero byte occurs among the first `SNIFF_LEN` bytes.
pub fn is_binary_prefix(b: &Vec<u8>) -> (r: bool)
    ensures
        r == sniffs_binary(b@),
{
    let mut i: usize = 0;
    while i < b.len() && i < SNIFF_LEN
        invariant
            i <= b@.len(),
            i <= SNIFF_LEN,
            forall|k: int| 0 <= k < i ==> #[trigger] b@[k] != 0u8,
        decreases b@.len() - i,
    {
        if b[i] == 0 {
            return true;
        }
        i = i + 1;
    }
    false
}

/// The number of lines of `b`, counted as `line_count` says.
pub fn count_lines(b: &Vec<u8>) -> (r: u64)
    ensures
        r as nat == line_count(b@),
{
    let mut n: u64 = 0;
    let mut i: usize = 0;
    while i < b.len()
        invariant
            i <= b@.len(),
            n as nat == newline_count(b@.take(i as int)),
            n <= i,
            i > 0 && b@[i - 1] != 10u8 ==> n < i,
        decreases b@.len() - i,
    {
        proof {
            assert(b@.take(i as int + 1).drop_last() =~= b@.take(i as int));
        }
        if b[i] == 10 {
            n = n + 1;
        }
        i = i + 1;
    }
    proof {
        assert(b@.take(i as int) =~= b@);
    }
    if b.len() > 0 && b[b.len() - 1] != 10 {
        n = n + 1;
    }
    n
}

/// Builds the record of a file at `path` from what was read of it; `None`
/// when its size is unknown.
pub fn create_file_entry(path: String, p: &FileProbe) -> (r: Option<FileEntry>)
    ensures
        match record_of(path@, *p) {
            Some(v) => r matches Some(e) && e@ == v,
            None => r is None,
        },
{
    let size = match p.size {
        None => {
            return None;
        },
        Some(s) => s,
    };
    match &p.bytes {
        None => Some(FileEntry { path, content: None, size, lines: 0, is_binary: true }),
        Some(b) => {
            if is_binary_prefix(b) {
                Some(FileEntry { path, content: None, size, lines: 0, is_binary: true })
            } else {
                let lines = count_lines(b);
                let content = if size < CONTENT_SIZE_LIMIT {
                    decode_utf8(b.clone())
                } else {
                    None
                };
                Some(FileEntry { path, content, size, lines, is_binary: false })
            }
        },
    }
}

/// The path of entry `name` inside the directory at `parent`.
pub fn join_child(parent: &String, name: &String) -> (r: String)
    ensures
        r@ == child_path(parent@, name@),
{
    if parent.unicode_len() == 0 {
        name.clone()
    } else {
        let mut s = parent.clone();
        proof {
            reveal_strlit("/");
        }
        s.append("/");
        s.append(name.as_str());
        s
    }
}

/// Whether a file modified at `modified` passes the recency rule at `now`.
pub fn is_recent(recent_only: bool, modified: Option<u64>, now: u64) -> (r: bool)
    ensures
        r == recent_enough(recent_only, modified, now),
{
    if !recent_only {
        return true;
    }
    match modified {
        None => false,
        Some(m) => now <= RECENT_WINDOW_SECS || m >= now - RECENT_WINDOW_SECS,
    }
}

/// The file selector of one run: the compiled filter and the other rules.
pub struct Selector {
    pub filter: PathFilter,
    pub recursive: bool,
    pub recent_only: bool,
    pub now: u64,
}

impl Selector {
    /// Compiles the rules of `config` for a run at time `now`.
    pub fn new(config: &Config, now: u64) -> (r: Result<Selector, ContextError>)
        ensures
            r matches Ok(s) ==> s.filter.wf() && s.rules() == rules_of(*config, now),
            config.exclude_patterns@.len() == 0 && config.include_patterns@.len() == 0 ==> r is Ok,
            some_pattern_rejected(*config) ==> r is Err,
            r matches Err(e) ==> e is BadPattern || e is PatternSet,
    {
        let filter = PathFilter::new(&config.exclude_patterns, &config.include_patterns)?;
        Ok(Selector { filter, recursive: config.is_recursive, recent_only: config.recent_only, now })
    }

    pub open spec fn rules(&self) -> Rules {
        Rules {
            exclude: self.filter.exclude_view(),
            wanted: self.filter.include_view(),
            recursive: self.recursive,
            recent_only: self.recent_only,
            now: self.now,
        }
    }

    /// Records a file that is already chosen (recency, then its record).
    fn take_file(&self, path: String, p: &FileProbe, out: &mut Vec<FileEntry>, notes: &mut Vec<Notice>)
        ensures
            entries_view(final(out)@) == entries_view(old(out)@) + self.rules().probe_outcome(path@, *p).records,
            notices_view(final(notes)@) == notices_view(old(notes)@) + self.rules().probe_outcome(path@, *p).notices,
    {
        if self.recent_only && p.modified.is_none() {
            let ghost before = notes@;
            notes.push(Notice { kind: NoticeKind::TimestampUnreadable, path });
            proof {
                assert(notices_view(notes@) =~= notices_view(before).push((NoticeKind::TimestampUnreadable, path@)));
                assert(entries_view(out@) =~= entries_view(out@) + Seq::empty());
            }
            return;
        }
        if !is_recent(self.recent_only, p.modified, self.now) {
            proof {
                assert(entries_view(out@) =~= entries_view(out@) + Seq::empty());
                assert(notices_view(notes@) =~= notices_view(notes@) + Seq::empty());
            }
            return;
        }
        let ghost path_v = path@;
        let ghost before_out = out@;
        let ghost before_notes = notes@;
        match create_file_entry(path.clone(), p) {
            Some(e) => {
                out.push(e);
                if p.bytes.is_none() {
                    notes.push(Notice { kind: NoticeKind::FileUnopened, path });
                    proof {
                        assert(notices_view(notes@) =~= notices_view(before_notes).push((NoticeKind::FileUnopened, path_v)));
                    }
                } else {
                    proof {
                        assert(notices_view(notes@) =~= notices_view(before_notes) + Seq::empty());
                    }
                }
                proof {
                    assert(entries_view(out@) =~= entries_view(before_out).push(e@));
                }
            },
            None => {
                notes.push(Notice { kind: NoticeKind::FileUnreadable, path });
                proof {
                    assert(notices_view(notes@) =~= notices_view(before_notes).push((NoticeKind::FileUnreadable, path_v)));
                    assert(entries_view(out@) =~= entries_view(before_out) + Seq::empty());
                }
            },
        }
    }

    /// Walks the listing `es` of the directory at `parent`, appending what
    /// it gathers; fails with the first directory it cannot list.
    fn walk(&self, es: &Vec<Entry>, parent: &String, out: &mut Vec<FileEntry>, notes: &mut Vec<Notice>) -> (r: Result<(), ContextError>)
        requires
            self.filter.wf(),
        ensures
            match self.rules().walk_list(es@, name_order(es@), parent@) {
                Ok(h) => r is Ok
                    && entries_view(final(out)@) == entries_view(old(out)@) + h.records
                    && notices_view(final(notes)@) == notices_view(old(notes)@) + h.notices,
                Err(p) => r matches Err(ContextError::Listing(s)) && s@ == p,
            },
        decreases es@,
    {
        let order = visit_order(es);
        let ghost rules = self.rules();
        let ghost out0 = out@;
        let ghost notes0 = notes@;
        let mut t: usize = 0;
        while t < order.len()
            invariant
                self.filter.wf(),
                rules == self.rules(),
                order@ == name_order(es@),
                order@.len() == es@.len(),
                forall|j: int| 0 <= j < order@.len() ==> (#[trigger] order@[j]) < es@.len(),
                t <= order@.len(),
                rules.walk_list(es@, order@.take(t as int), parent@) matches Ok(h)
                    && entries_view(out@) == entries_view(out0) + h.records
                    && notices_view(notes@) == notices_view(notes0) + h.notices,
            decreases order@.len() - t,
        {
            let k = order[t];
            let ghost prev = rules.walk_list(es@, order@.take(t as int), parent@)->Ok_0;
            proof {
                assert(order@.take(t as int + 1).drop_last() =~= order@.take(t as int));
                assert(order@.take(t as int + 1).last() == k);
            }
            let ghost out1 = out@;
            let ghost notes1 = notes@;
            match &es[k] {
                Entry::File(name, p) => {
                    let path = join_child(parent, name);
                    if self.filter.should_include(path.as_str(), true) {
                        self.take_file(path, p, out, notes);
                    } else {
                        proof {
                            assert(entries_view(out@) =~= entries_view(out@) + Seq::empty());
                            assert(notices_view(notes@) =~= notices_view(notes@) + Seq::empty());
                        }
                    }
                    proof {
                        let h2 = rules.file_outcome(path@, *p);
                        assert(rules.walk_entry(es@[k as int], parent@) == Ok::<Harvest, Seq<char>>(h2));
                        assert(rules.walk_list(es@, order@.take(t as int + 1), parent@) == Ok::<Harvest, Seq<char>>(prev.join(h2)));
                        assert(entries_view(out@) == entries_view(out1) + h2.records);
                        assert(entries_view(out@) =~= entries_view(out0) + prev.join(h2).records);
                        assert(notices_view(notes@) =~= notices_view(notes0) + prev.join(h2).notices);
                    }
                },
                Entry::Dir(name, listing) => {
                    let path = join_child(parent, name);
                    if self.recursive && self.filter.should_include(path.as_str(), false) {
                        match listing {
                            None => {
                                proof {
                                    assert(rules.walk_entry(es@[k as int], parent@) == Err::<Harvest, Seq<char>>(path@));
                                    assert(rules.walk_list(es@, order@.take(t as int + 1), parent@) == Err::<Harvest, Seq<char>>(path@));
                                    rules.lemma_failure_sticks(es@, order@, parent@, t as int + 1);
                                }
                                return Err(ContextError::Listing(path));
                            },
                            Some(v) => {
                                proof {
                                    assert(decreases_to!(es@ => es@[k as int]));
                                }
                                match self.walk(v, &path, out, notes) {
                                    Ok(()) => {},
                                    Err(e) => {
                                        proof {
                                            assert(rules.walk_entry(es@[k as int], parent@) == rules.walk_list(v@, name_order(v@), path@));
                                            assert(rules.walk_list(es@, order@.take(t as int + 1), parent@) == rules.walk_list(v@, name_order(v@), path@));
                                            rules.lemma_failure_sticks(es@, order@, parent@, t as int + 1);
                                        }
                                        return Err(e);
                                    },
                                }
                                proof {
                                    let h2 = rules.walk_list(v@, name_order(v@), path@)->Ok_0;
                                    assert(rules.walk_entry(es@[k as int], parent@) == Ok::<Harvest, Seq<char>>(h2));
                                    assert(rules.walk_list(es@, order@.take(t as int + 1), parent@) == Ok::<Harvest, Seq<char>>(prev.join(h2)));
                                    assert(entries_view(out@) =~= entries_view(out0) + prev.join(h2).records);
                                    assert(notices_view(notes@) =~= notices_view(notes0) + prev.join(h2).notices);
                                }
                            },
                        }
                    } else {
                        proof {
                            assert(rules.walk_entry(es@[k as int], parent@) == Ok::<Harvest, Seq<char>>(Harvest::empty()));
                            assert(rules.walk_list(es@, order@.take(t as int + 1), parent@) == Ok::<Harvest, Seq<char>>(prev.join(Harvest::empty())));
                            assert(entries_view(out@) =~= entries_view(out0) + prev.join(Harvest::empty()).records);
                            assert(notices_view(notes@) =~= notices_view(notes0) + prev.join(Harvest::empty()).notices);
                        }
                    }
                },
            }
            t = t + 1;
        }
        proof {
            assert(order@.take(t as int) =~= order@);
        }
        Ok(())
    }

    /// Walks a directory whose path is `base`; a directory that could not be
    /// listed fails the walk.
    pub fn walk_root(&self, listing: &Option<Vec<Entry>>, base: &String) -> (r: Result<(Vec<FileEntry>, Vec<Notice>), ContextError>)
        requires
            self.filter.wf(),
        ensures
            match self.rules().walk_dir(*listing, base@) {
                Ok(h) => r matches Ok((es, ns)) && entries_view(es@) == h.records && notices_view(ns@) == h.notices,
                Err(p) => r matches Err(ContextError::Listing(s)) && s@ == p,
            },
    {
        match listing {
            None => Err(ContextError::Listing(base.clone())),
            Some(v) => {
                let mut out: Vec<FileEntry> = Vec::new();
                let mut notes: Vec<Notice> = Vec::new();
                proof {
                    assert(entries_view(out@) =~= Seq::empty());
                    assert(notices_view(notes@) =~= Seq::empty());
                }
                self.walk(v, base, &mut out, &mut notes)?;
                Ok((out, notes))
            },
        }
    }
}

impl Selector {
    /// Gathers what the targets contribute, in order.
    pub fn walk_targets(&self, ts: &Vec<Target>) -> (r: Result<(Vec<FileEntry>, Vec<Notice>), ContextError>)
        requires
            self.filter.wf(),
        ensures
            match self.rules().walk_targets(ts@) {
                Ok(h) => r matches Ok((es, ns)) && entries_view(es@) == h.records && notices_view(ns@) == h.notices,
                Err(p) => r matches Err(ContextError::Listing(s)) && s@ == p,
            },
    {
        let ghost rules = self.rules();
        let mut out: Vec<FileEntry> = Vec::new();
        let mut notes: Vec<Notice> = Vec::new();
        let mut i: usize = 0;
        proof {
            assert(entries_view(out@) =~= Seq::empty());
            assert(notices_view(notes@) =~= Seq::empty());
            assert(ts@.take(0) =~= Seq::<Target>::empty());
        }
        while i < ts.len()
            invariant
                self.filter.wf(),
                rules == self.rules(),
                i <= ts@.len(),
                rules.walk_targets(ts@.take(i as int)) matches Ok(h)
                    && entries_view(out@) == h.records
                    && notices_view(notes@) == h.notices,
            decreases ts@.len() - i,
        {
            let t = &ts[i];
            let ghost prev = rules.walk_targets(ts@.take(i as int))->Ok_0;
            proof {
                assert(ts@.take(i as int + 1).drop_last() =~= ts@.take(i as int));
                assert(ts@.take(i as int + 1).last() == *t);
            }
            let ghost out1 = out@;
            let ghost notes1 = notes@;
            let base = match &t.place {
                Some(c) => join_components(c),
                None => t.given.clone(),
            };
            match &t.kind {
                TargetKind::Missing => {
                    notes.push(Notice { kind: NoticeKind::TargetMissing, path: t.given.clone() });
                    proof {
                        assert(notices_view(notes@) =~= notices_view(notes1).push((NoticeKind::TargetMissing, t.given@)));
                        assert(entries_view(out@) =~= prev.records + Seq::empty());
                    }
                },
                TargetKind::File(p) => {
                    self.take_file(base, p, &mut out, &mut notes);
                },
                TargetKind::Dir(listing) => {
                    match listing {
                        None => {
                            proof {
                                assert(rules.walk_targets(ts@.take(i as int + 1)) == Err::<Harvest, Seq<char>>(base@));
                                rules.lemma_target_failure_sticks(ts@, i as int + 1);
                            }
                            return Err(ContextError::Listing(base));
                        },
                        Some(v) => {
                            match self.walk(v, &base, &mut out, &mut notes) {
                                Ok(()) => {},
                                Err(e) => {
                                    proof {
                                        assert(rules.walk_targets(ts@.take(i as int + 1)) == rules.walk_list(v@, name_order(v@), base@));
                                        rules.lemma_target_failure_sticks(ts@, i as int + 1);
                                    }
                                    return Err(e);
                                },
                            }
                        },
                    }
                },
            }
            proof {
                let h2 = rules.walk_target(*t)->Ok_0;
                assert(rules.walk_targets(ts@.take(i as int + 1)) == Ok::<Harvest, Seq<char>>(prev.join(h2)));
                assert(entries_view(out@) =~= prev.join(h2).records);
                assert(notices_view(notes@) =~= prev.join(h2).notices);
            }
            i = i + 1;
        }
        proof {
            assert(ts@.take(i as int) =~= ts@);
        }
        Ok((out, notes))
    }
}

impl FileContext {
    /// A context with no file yet.
    pub fn new(config: Config) -> (r: Self)
        ensures
            r.config == config,
            r.file_entries@.len() == 0,
            r.notices@.len() == 0,
    {
        FileContext { file_entries: Vec::new(), config, notices: Vec::new() }
    }

    /// Selects the files under the directory whose listing is `listing` and
    /// whose path relative to the repository root is `base`, by the rules of
    /// `config` at time `now`.
    pub fn discover_files(listing: &Option<Vec<Entry>>, base: &String, config: &Config, now: u64) -> (r: Result<(Vec<FileEntry>, Vec<Notice>), ContextError>)
        ensures
            r matches Ok((es, ns)) ==> rules_of(*config, now).walk_dir(*listing, base@)
                == Ok::<Harvest, Seq<char>>(Harvest { records: entries_view(es@), notices: notices_view(ns@) }),
            r matches Err(ContextError::Listing(s)) ==> rules_of(*config, now).walk_dir(*listing, base@) == Err::<Harvest, Seq<char>>(s@),
            rules_of(*config, now).walk_dir(*listing, base@) is Err ==> r is Err,
            config.exclude_patterns@.len() == 0 && config.include_patterns@.len() == 0
                ==> (r is Ok <==> rules_of(*config, now).walk_dir(*listing, base@) is Ok),
            some_pattern_rejected(*config) ==> r is Err,
    {
        let sel = Selector::new(config, now)?;
        sel.walk_root(listing, base)
    }

    /// Selects every file of the repository whose root listing is `root`.
    pub fn from_root(config: Config, root: &Option<Vec<Entry>>, now: u64) -> (r: Result<Self, ContextError>)
        ensures
            r matches Ok(c) ==> c.config@ == config@ && rules_of(config, now).walk_dir(*root, Seq::empty())
                == Ok::<Harvest, Seq<char>>(Harvest { records: entries_view(c.file_entries@), notices: notices_view(c.notices@) }),
            r matches Err(ContextError::Listing(s)) ==> rules_of(config, now).walk_dir(*root, Seq::empty()) == Err::<Harvest, Seq<char>>(s@),
            rules_of(config, now).walk_dir(*root, Seq::empty()) is Err ==> r is Err,
            config.exclude_patterns@.len() == 0 && config.include_patterns@.len() == 0
                ==> (r is Ok <==> rules_of(config, now).walk_dir(*root, Seq::empty()) is Ok),
            some_pattern_rejected(config) ==> r is Err,
    {
        let base = String::new();
        let (file_entries, notices) = Self::discover_files(root, &base, &config, now)?;
        Ok(FileContext { file_entries, config, notices })
    }

    /// Selects the files of the given targets, each recorded relative to the
    /// repository root.
    pub fn from_target_paths(config: Config, targets: &Vec<Target>, now: u64) -> (r: Result<Self, ContextError>)
        ensures
            r matches Ok(c) ==> c.config@ == config@ && rules_of(config, now).walk_targets(targets@)
                == Ok::<Harvest, Seq<char>>(Harvest { records: entries_view(c.file_entries@), notices: notices_view(c.notices@) }),
            r matches Err(ContextError::Listing(s)) ==> rules_of(config, now).walk_targets(targets@) == Err::<Harvest, Seq<char>>(s@),
            rules_of(config, now).walk_targets(targets@) is Err ==> r is Err,
            config.exclude_patterns@.len() == 0 && config.include_patterns@.len() == 0
                ==> (r is Ok <==> rules_of(config, now).walk_targets(targets@) is Ok),
            some_pattern_rejected(config) ==> r is Err,
    {
        let sel = Selector::new(&config, now)?;
        let (file_entries, notices) = sel.walk_targets(targets)?;
        Ok(FileContext { file_entries, config, notices })
    }
}

} // verus!
