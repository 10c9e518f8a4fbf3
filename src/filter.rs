//! The path filter shared by file selection and tree rendering: hidden
//! entries, exclude globs, then the wanted globs.

use vstd::prelude::*;
use globset::{Glob, GlobSet, GlobSetBuilder};
use crate::error::ContextError;

verus! {

#[verifier::external_type_specification]
#[verifier::external_body]
pub struct ExGlobSet(GlobSet);

#[verifier::external_type_specification]
#[verifier::external_body]
pub struct ExGlobSetBuilder(GlobSetBuilder);

#[verifier::external_type_specification]
#[verifier::external_body]
pub struct ExGlobError(globset::Error);

/// Whether globset accepts `pattern` as a glob.
pub uninterp spec fn glob_accepts(pattern: Seq<char>) -> bool;

/// Whether the glob `pattern`, compiled with globset's default options,
/// matches `path`.
pub uninterp spec fn glob_matches(pattern: Seq<char>, path: Seq<char>) -> bool;

/// The patterns added to a globset builder, in order.
pub uninterp spec fn builder_patterns(b: GlobSetBuilder) -> Seq<Seq<char>>;

/// The patterns a compiled globset was built from, in order.
pub uninterp spec fn set_patterns(s: GlobSet) -> Seq<Seq<char>>;

/// Relies on globset::GlobSetBuilder::new: a builder with no pattern.
#[verifier::external_body]
fn glob_builder() -> (b: GlobSetBuilder)
    ensures
        builder_patterns(b) == Seq::<Seq<char>>::empty(),
{
    GlobSetBuilder::new()
}

/// Relies on globset::Glob::new, which compiles `pattern` or fails, and on
/// GlobSetBuilder::add, which appends the compiled glob to the builder.
#[verifier::external_body]
fn add_pattern(b: &mut GlobSetBuilder, pattern: &str) -> (r: Result<(), globset::Error>)
    ensures
        r is Ok <==> glob_accepts(pattern@),
        r is Ok ==> builder_patterns(*final(b)) == builder_patterns(*old(b)).push(pattern@),
        r is Err ==> builder_patterns(*final(b)) == builder_patterns(*old(b)),
{
    let glob = Glob::new(pattern)?;
    b.add(glob);
    Ok(())
}

/// Relies on globset::GlobSetBuilder::build: a builder with no pattern
/// always builds (to the empty set), and a built set keeps the builder's
/// patterns.
#[verifier::external_body]
fn build_set(b: &GlobSetBuilder) -> (r: Result<GlobSet, globset::Error>)
    ensures
        builder_patterns(*b).len() == 0 ==> r is Ok,
        r matches Ok(s) ==> set_patterns(s) == builder_patterns(*b),
{
    b.build()
}

/// Relies on globset::GlobSet::is_match: true when any glob of the set
/// matches the path.
#[verifier::external_body]
fn set_matches(s: &GlobSet, path: &str) -> (r: bool)
    ensures
        r == (exists|i: int| 0 <= i < set_patterns(*s).len() && glob_matches(#[trigger] set_patterns(*s)[i], path@)),
{
    s.is_match(path)
}

/// The text of each string.
pub open spec fn texts(v: Seq<String>) -> Seq<Seq<char>> {
    v.map_values(|s: String| s@)
}

/// Whether some pattern of `patterns` matches `path`.
pub open spec fn any_match(patterns: Seq<Seq<char>>, path: Seq<char>) -> bool {
    exists|i: int| 0 <= i < patterns.len() && glob_matches(#[trigger] patterns[i], path)
}

/// Whether some `/`-separated segment of `path` begins with `.`.
pub open spec fn has_hidden_segment(path: Seq<char>) -> bool {
    exists|i: int| 0 <= i < path.len() && #[trigger] path[i] == '.' && (i == 0 || path[i - 1] == '/')
}

/// The filter's verdict on a root-relative path: hidden entries never pass,
/// an exclude match rejects, directories pass otherwise, and files must
/// match a wanted pattern when there are any.
pub open spec fn passes(
    exclude: Seq<Seq<char>>,
    wanted: Seq<Seq<char>>,
    path: Seq<char>,
    is_file: bool,
) -> bool {
    &&& !has_hidden_segment(path)
    &&& !any_match(exclude, path)
    &&& (!is_file || wanted.len() == 0 || any_match(wanted, path))
}

/// Include and exclude globs compiled once for a run.
pub struct PathFilter {
    exclude_patterns: Vec<String>,
    include_patterns: Vec<String>,
    exclude: GlobSet,
    wanted: GlobSet,
}

impl PathFilter {
    pub closed spec fn exclude_view(&self) -> Seq<Seq<char>> {
        texts(self.exclude_patterns@)
    }

    pub closed spec fn include_view(&self) -> Seq<Seq<char>> {
        texts(self.include_patterns@)
    }

    /// The compiled sets hold exactly the stored patterns.
    pub closed spec fn wf(&self) -> bool {
        &&& set_patterns(self.exclude) == texts(self.exclude_patterns@)
        &&& set_patterns(self.wanted) == texts(self.include_patterns@)
    }

    /// The verdict of this filter on `path`.
    pub open spec fn admits(&self, path: Seq<char>, is_file: bool) -> bool {
        passes(self.exclude_view(), self.include_view(), path, is_file)
    }

    /// Compiles the exclude and the wanted patterns. Fails on the first pattern
    /// that globset rejects; with no patterns at all it always succeeds.
    pub fn new(exclude: &Vec<String>, wanted: &Vec<String>) -> (r: Result<PathFilter, ContextError>)
        ensures
            r matches Ok(f) ==> f.wf() && f.exclude_view() == texts(exclude@)
                && f.include_view() == texts(wanted@),
            (exists|i: int| 0 <= i < exclude@.len() && !glob_accepts(#[trigger] exclude@[i]@))
                ==> r is Err,
            (exists|i: int| 0 <= i < wanted@.len() && !glob_accepts(#[trigger] wanted@[i]@))
                ==> r is Err,
            exclude@.len() == 0 && wanted@.len() == 0 ==> r is Ok,
            r matches Err(e) ==> e is BadPattern || e is PatternSet,
    {
        let ex = compile(exclude)?;
        let inc = compile(wanted)?;
        Ok(PathFilter {
            exclude_patterns: exclude.clone(),
            include_patterns: wanted.clone(),
            exclude: ex,
            wanted: inc,
        })
    }

    /// Whether `path` (root-relative, `/`-separated) passes the filter.
    pub fn should_include(&self, path: &str, is_file: bool) -> (r: bool)
        requires
            self.wf(),
        ensures
            r == self.admits(path@, is_file),
    {
        if has_hidden(path) {
            return false;
        }
        if set_matches(&self.exclude, path) {
            return false;
        }
        if !is_file {
            return true;
        }
        self.include_patterns.len() == 0 || set_matches(&self.wanted, path)
    }
}

/// Compiles a list of patterns into one globset.
fn compile(patterns: &Vec<String>) -> (r: Result<GlobSet, ContextError>)
    ensures
        r matches Ok(s) ==> set_patterns(s) == texts(patterns@),
        (exists|i: int| 0 <= i < patterns@.len() && !glob_accepts(#[trigger] patterns@[i]@))
            ==> r is Err,
        patterns@.len() == 0 ==> r is Ok,
        r matches Err(e) ==> e is BadPattern || e is PatternSet,
{
    let mut b = glob_builder();
    let mut i: usize = 0;
    while i < patterns.len()
        invariant
            i <= patterns@.len(),
            builder_patterns(b) == texts(patterns@.subrange(0, i as int)),
            forall|k: int| 0 <= k < i ==> glob_accepts(#[trigger] patterns@[k]@),
        decreases patterns@.len() - i,
    {
        let p = &patterns[i];
        match add_pattern(&mut b, p.as_str()) {
            Ok(()) => {},
            Err(_) => {
                return Err(ContextError::BadPattern(p.clone()));
            },
        }
        proof {
            assert(patterns@.subrange(0, i as int + 1) == patterns@.subrange(0, i as int).push(
                patterns@[i as int],
            ));
        }
        i = i + 1;
    }
    proof {
        assert(patterns@.subrange(0, i as int) == patterns@);
    }
    match build_set(&b) {
        Ok(s) => Ok(s),
        Err(_) => Err(ContextError::PatternSet),
    }
}

/// Whether some segment of `path` begins with `.`.
fn has_hidden(path: &str) -> (r: bool)
    ensures
        r == has_hidden_segment(path@),
{
    let n = path.unicode_len();
    let mut i: usize = 0;
    let mut prev_sep = true;
    while i < n
        invariant
            n == path@.len(),
            i <= n,
            prev_sep == (i == 0 || path@[i - 1] == '/'),
            forall|k: int| 0 <= k < i ==> !(#[trigger] path@[k] == '.' && (k == 0 || path@[k - 1] == '/')),
        decreases n - i,
    {
        let c = path.get_char(i);
        if c == '.' && prev_sep {
            return true;
        }
        prev_sep = c == '/';
        i = i + 1;
    }
    false
}

} // verus!
