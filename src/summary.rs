//! The figures of the document's summary: totals, a breakdown by file
//! extension, and the files with the most lines.

use vstd::prelude::*;
use crate::output::{extension_of, get_file_extension, last_dot};
use crate::rank::{insert_ranked, lemma_insert_at, lemma_ranked_range, ranked};
use crate::snapshot::{name_less, name_lt};
use crate::types::{FileContext, FileEntry};

verus! {

/// How many entries the breakdown and the top list show at most.
pub const SUMMARY_TOP: usize = 10;

/// The lowercase form of `s`.
pub uninterp spec fn lowercase_of(s: Seq<char>) -> Seq<char>;

/// Relies on str::to_lowercase: the result depends on the characters alone.
#[verifier::external_body]
fn lowercase(s: &str) -> (r: String)
    ensures
        r@ == lowercase_of(s@),
{
    s.to_lowercase()
}

/// The sum of the sizes of `fs`.
pub open spec fn total_size_of(fs: Seq<FileEntry>) -> nat
    decreases fs.len(),
{
    if fs.len() == 0 { 0 } else { total_size_of(fs.drop_last()) + fs.last().size as nat }
}

/// The sum of the line counts of `fs`.
pub open spec fn total_lines_of(fs: Seq<FileEntry>) -> nat
    decreases fs.len(),
{
    if fs.len() == 0 { 0 } else { total_lines_of(fs.drop_last()) + fs.last().lines as nat }
}

/// The language a path counts for: its extension in lowercase, or empty
/// when it has no `.`.
pub open spec fn language_of(path: Seq<char>) -> Seq<char> {
    if last_dot(path, path.len() as int) < 0 { Seq::empty() } else { lowercase_of(extension_of(path)) }
}

/// The figures of one language.
pub struct LanguageView {
    pub extension: Seq<char>,
    pub files: nat,
    pub lines: nat,
    pub bytes: nat,
}

/// Where the group of `key` is in `gs`, or -1.
pub open spec fn group_index(gs: Seq<LanguageView>, key: Seq<char>) -> int
    decreases gs.len(),
{
    if gs.len() == 0 {
        -1
    } else if group_index(gs.drop_last(), key) >= 0 {
        group_index(gs.drop_last(), key)
    } else if gs.last().extension == key {
        gs.len() - 1
    } else {
        -1
    }
}

/// The groups after counting one more file.
pub open spec fn count_file(gs: Seq<LanguageView>, f: FileEntry) -> Seq<LanguageView> {
    let key = language_of(f.path@);
    let i = group_index(gs, key);
    if i < 0 {
        gs.push(LanguageView { extension: key, files: 1, lines: f.lines as nat, bytes: f.size as nat })
    } else {
        gs.update(i, LanguageView { extension: key, files: gs[i].files + 1, lines: gs[i].lines + f.lines as nat, bytes: gs[i].bytes + f.size as nat })
    }
}

/// The languages of `fs` with their figures, in order of first appearance.
pub open spec fn language_groups(fs: Seq<FileEntry>) -> Seq<LanguageView>
    decreases fs.len(),
{
    if fs.len() == 0 { Seq::empty() } else { count_file(language_groups(fs.drop_last()), fs.last()) }
}

/// Group `i` comes before group `j` when it has more lines.
pub open spec fn more_lines(gs: Seq<LanguageView>) -> spec_fn(usize, usize) -> bool {
    |i: usize, j: usize| gs[i as int].lines > gs[j as int].lines
}

/// File `i` comes before file `j` when it has more lines, or as many and a
/// smaller path.
pub open spec fn busier(fs: Seq<FileEntry>) -> spec_fn(usize, usize) -> bool {
    |i: usize, j: usize|
        fs[i as int].lines > fs[j as int].lines || (fs[i as int].lines == fs[j as int].lines && name_lt(
            fs[i as int].path@,
            fs[j as int].path@,
        ))
}

/// At most the first `SUMMARY_TOP` of `s`.
pub open spec fn top_of<T>(s: Seq<T>) -> Seq<T> {
    if s.len() <= SUMMARY_TOP { s } else { s.take(SUMMARY_TOP as int) }
}

/// The figures of one language.
#[derive(Debug, Clone)]
pub struct LanguageStat {
    /// Lowercase; empty for files without an extension.
    pub extension: String,
    pub files: usize,
    pub lines: u128,
    pub bytes: u128,
}

impl View for LanguageStat {
    type V = LanguageView;

    open spec fn view(&self) -> LanguageView {
        LanguageView { extension: self.extension@, files: self.files as nat, lines: self.lines as nat, bytes: self.bytes as nat }
    }
}

/// The views of a list of language figures.
pub open spec fn stats_view(v: Seq<LanguageStat>) -> Seq<LanguageView> {
    v.map_values(|g: LanguageStat| g@)
}

/// The figures of the summary section.
#[derive(Debug, Clone)]
pub struct Summary {
    pub files: usize,
    pub total_size: u128,
    pub total_lines: u128,
    /// The languages with the most lines, most first (ties in order of first
    /// appearance), at most `SUMMARY_TOP`.
    pub languages: Vec<LanguageStat>,
    /// Indices into the file list: the files with the most lines, ties by
    /// path, at most `SUMMARY_TOP`.
    pub top_files: Vec<usize>,
}

/// The language of a path.
fn language(path: &String) -> (r: String)
    ensures
        r@ == language_of(path@),
{
    let n = path.unicode_len();
    let mut e: usize = n;
    while e > 0 && path.as_str().get_char(e - 1) != '.'
        invariant
            n == path@.len(),
            e <= n,
            last_dot(path@, n as int) == last_dot(path@, e as int),
        decreases e,
    {
        e = e - 1;
    }
    if e == 0 {
        String::new()
    } else {
        lowercase(get_file_extension(path.as_str()))
    }
}

proof fn lemma_group_index(gs: Seq<LanguageView>, key: Seq<char>, j: int)
    requires
        0 <= j <= gs.len(),
        forall|m: int| 0 <= m < j ==> (#[trigger] gs[m]).extension != key,
        j < gs.len() ==> gs[j].extension == key,
    ensures
        group_index(gs, key) == if j < gs.len() { j } else { -1 },
    decreases gs.len(),
{
    if gs.len() > 0 {
        if j < gs.len() - 1 {
            lemma_group_index(gs.drop_last(), key, j);
        } else {
            assert forall|m: int| 0 <= m < gs.drop_last().len() implies (#[trigger] gs.drop_last()[m]).extension != key by {
                assert(gs.drop_last()[m] == gs[m]);
            }
            lemma_group_index(gs.drop_last(), key, gs.len() - 1);
        }
    }
}

/// Counts the files of `fs` by language, in order of first appearance.
fn count_languages(fs: &Vec<FileEntry>) -> (r: Vec<LanguageStat>)
    ensures
        stats_view(r@) == language_groups(fs@),
{
    let mut gs: Vec<LanguageStat> = Vec::new();
    let mut t: usize = 0;
    while t < fs.len()
        invariant
            t <= fs@.len(),
            stats_view(gs@) == language_groups(fs@.take(t as int)),
            forall|m: int| 0 <= m < gs@.len() ==> (#[trigger] gs@[m]).files <= t && gs@[m].lines <= t * 0xFFFF_FFFF_FFFF_FFFFu128
                && gs@[m].bytes <= t * 0xFFFF_FFFF_FFFF_FFFFu128,
        decreases fs@.len() - t,
    {
        let f = &fs[t];
        let key = language(&f.path);
        let ghost gv = stats_view(gs@);
        proof {
            assert(fs@.take(t as int + 1).drop_last() =~= fs@.take(t as int));
        }
        let mut j: usize = 0;
        while j < gs.len() && gs[j].extension != key
            invariant
                j <= gs@.len(),
                gv == stats_view(gs@),
                forall|m: int| 0 <= m < j ==> (#[trigger] gv[m]).extension != key@,
            decreases gs@.len() - j,
        {
            j = j + 1;
        }
        proof {
            if j < gs@.len() {
                assert(gv[j as int].extension == key@);
            }
            lemma_group_index(gv, key@, j as int);
        }
        if j == gs.len() {
            gs.push(LanguageStat { extension: key, files: 1, lines: f.lines as u128, bytes: f.size as u128 });
        } else {
            let old_g = &gs[j];
            let g = LanguageStat {
                extension: key,
                files: old_g.files + 1,
                lines: old_g.lines + f.lines as u128,
                bytes: old_g.bytes + f.size as u128,
            };
            gs.set(j, g);
        }
        proof {
            assert(stats_view(gs@) =~= language_groups(fs@.take(t as int + 1)));
        }
        t = t + 1;
    }
    proof {
        assert(fs@.take(t as int) =~= fs@);
    }
    gs
}

/// Whether file `i` comes before file `j` in the top list.
fn file_busier(fs: &Vec<FileEntry>, i: usize, j: usize) -> (r: bool)
    requires
        i < fs@.len(),
        j < fs@.len(),
    ensures
        r == (busier(fs@))(i, j),
{
    let a = &fs[i];
    let b = &fs[j];
    a.lines > b.lines || (a.lines == b.lines && name_less(&a.path, &b.path))
}

/// The indices of `fs` ranked busiest first.
fn rank_files(fs: &Vec<FileEntry>) -> (r: Vec<usize>)
    ensures
        r@ == ranked(busier(fs@), fs@.len()),
{
    let ghost before = busier(fs@);
    let mut order: Vec<usize> = Vec::new();
    let mut i: usize = 0;
    while i < fs.len()
        invariant
            i <= fs@.len(),
            before == busier(fs@),
            order@ == ranked(before, i as nat),
        decreases fs@.len() - i,
    {
        proof {
            lemma_ranked_range(before, i as nat);
        }
        let mut j: usize = 0;
        while j < order.len() && !file_busier(fs, i, order[j])
            invariant
                i < fs@.len(),
                before == busier(fs@),
                order@ == ranked(before, i as nat),
                order@.len() == i,
                forall|t: int| 0 <= t < i ==> (#[trigger] order@[t]) < i,
                j <= order@.len(),
                forall|k: int| 0 <= k < j ==> !before(i, #[trigger] order@[k]),
            decreases order@.len() - j,
        {
            j = j + 1;
        }
        proof {
            lemma_insert_at(before, i, order@, j as int);
        }
        order.insert(j, i);
        proof {
            assert(order@ =~= insert_ranked(before, i, ranked(before, i as nat)));
        }
        i = i + 1;
    }
    order
}

/// The indices of `gs` ranked by lines, most first.
fn rank_languages(gs: &Vec<LanguageStat>) -> (r: Vec<usize>)
    ensures
        r@ == ranked(more_lines(stats_view(gs@)), gs@.len()),
{
    let ghost before = more_lines(stats_view(gs@));
    let mut order: Vec<usize> = Vec::new();
    let mut i: usize = 0;
    while i < gs.len()
        invariant
            i <= gs@.len(),
            before == more_lines(stats_view(gs@)),
            order@ == ranked(before, i as nat),
        decreases gs@.len() - i,
    {
        proof {
            lemma_ranked_range(before, i as nat);
        }
        let mut j: usize = 0;
        while j < order.len() && !(gs[i].lines > gs[order[j]].lines)
            invariant
                i < gs@.len(),
                before == more_lines(stats_view(gs@)),
                order@ == ranked(before, i as nat),
                order@.len() == i,
                forall|t: int| 0 <= t < i ==> (#[trigger] order@[t]) < i,
                j <= order@.len(),
                forall|k: int| 0 <= k < j ==> !before(i, #[trigger] order@[k]),
            decreases order@.len() - j,
        {
            j = j + 1;
        }
        proof {
            lemma_insert_at(before, i, order@, j as int);
        }
        order.insert(j, i);
        proof {
            assert(order@ =~= insert_ranked(before, i, ranked(before, i as nat)));
        }
        i = i + 1;
    }
    order
}

/// The figures of the summary of `file_context`.
pub fn summarize(file_context: &FileContext) -> (r: Summary)
    ensures
        r.files == file_context.file_entries@.len(),
        r.total_size == total_size_of(file_context.file_entries@),
        r.total_lines == total_lines_of(file_context.file_entries@),
        stats_view(r.languages@) == top_of(ranked(more_lines(language_groups(file_context.file_entries@)),
            language_groups(file_context.file_entries@).len())).map_values(|i: usize| language_groups(file_context.file_entries@)[i as int]),
        r.top_files@ == top_of(ranked(busier(file_context.file_entries@), file_context.file_entries@.len())),
{
    let fs = &file_context.file_entries;
    let mut total_size: u128 = 0;
    let mut total_lines: u128 = 0;
    let mut t: usize = 0;
    while t < fs.len()
        invariant
            t <= fs@.len(),
            total_size == total_size_of(fs@.take(t as int)),
            total_lines == total_lines_of(fs@.take(t as int)),
            total_size <= t * 0xFFFF_FFFF_FFFF_FFFFu128,
            total_lines <= t * 0xFFFF_FFFF_FFFF_FFFFu128,
        decreases fs@.len() - t,
    {
        proof {
            assert(fs@.take(t as int + 1).drop_last() =~= fs@.take(t as int));
        }
        total_size = total_size + fs[t].size as u128;
        total_lines = total_lines + fs[t].lines as u128;
        t = t + 1;
    }
    proof {
        assert(fs@.take(t as int) =~= fs@);
    }
    let groups = count_languages(fs);
    let lang_order = rank_languages(&groups);
    proof {
        lemma_ranked_range(more_lines(stats_view(groups@)), groups@.len());
    }
    let mut languages: Vec<LanguageStat> = Vec::new();
    let mut k: usize = 0;
    while k < lang_order.len() && k < SUMMARY_TOP
        invariant
            k <= lang_order@.len(),
            k <= SUMMARY_TOP,
            lang_order@.len() == groups@.len(),
            forall|m: int| 0 <= m < lang_order@.len() ==> (#[trigger] lang_order@[m]) < groups@.len(),
            stats_view(languages@) == lang_order@.take(k as int).map_values(|i: usize| stats_view(groups@)[i as int]),
        decreases lang_order@.len() - k,
    {
        let idx = lang_order[k];
        let g = &groups[idx];
        let ghost before_push = languages@;
        proof {
            assert(stats_view(before_push).len() == before_push.len());
            assert(lang_order@.take(k as int).len() == k);
        }
        languages.push(LanguageStat { extension: g.extension.clone(), files: g.files, lines: g.lines, bytes: g.bytes });
        proof {
            assert(languages@[k as int]@ == groups@[idx as int]@);
            assert(stats_view(groups@)[idx as int] == groups@[idx as int]@);
            assert(stats_view(languages@) =~= stats_view(before_push).push(stats_view(groups@)[idx as int]));
            assert(lang_order@.take(k as int + 1) =~= lang_order@.take(k as int).push(idx));
            assert(stats_view(languages@) =~= lang_order@.take(k as int + 1).map_values(|i: usize| stats_view(groups@)[i as int]));
        }
        k = k + 1;
    }
    proof {
        assert(lang_order@.take(k as int) =~= top_of(lang_order@));
    }
    let file_order = rank_files(fs);
    proof {
        lemma_ranked_range(busier(fs@), fs@.len());
    }
    let mut top_files: Vec<usize> = Vec::new();
    let mut k: usize = 0;
    while k < file_order.len() && k < SUMMARY_TOP
        invariant
            k <= file_order@.len(),
            k <= SUMMARY_TOP,
            top_files@ == file_order@.take(k as int),
        decreases file_order@.len() - k,
    {
        top_files.push(file_order[k]);
        proof {
            assert(file_order@.take(k as int + 1) =~= file_order@.take(k as int).push(file_order@[k as int]));
        }
        k = k + 1;
    }
    proof {
        assert(file_order@.take(k as int) =~= top_of(file_order@));
    }
    Summary { files: fs.len(), total_size, total_lines, languages, top_files }
}

} // verus!
