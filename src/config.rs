use vstd::prelude::*;

verus! {

/// Files this many bytes long or longer keep no text in their record.
pub const CONTENT_SIZE_LIMIT: u64 = 1_000_000;

/// How many leading bytes decide whether a file is binary.
pub const SNIFF_LEN: usize = 512;

/// How recent, in seconds, a file must be when only recent files are wanted.
pub const RECENT_WINDOW_SECS: u64 = 604_800;

/// The settings of one run.
#[derive(Debug)]
pub struct Config {
    /// The directory that relative targets are resolved against.
    pub root_path: String,
    /// Files or directories to restrict the run to; empty means everything.
    pub target_paths: Vec<String>,
    pub output_file: Option<String>,
    pub include_patterns: Vec<String>,
    pub exclude_patterns: Vec<String>,
    pub is_recursive: bool,
    /// Keep only files modified within `RECENT_WINDOW_SECS`.
    pub recent_only: bool,
    pub show_line_numbers: bool,
}

/// A copy of each string.
pub fn copy_strings(v: &Vec<String>) -> (r: Vec<String>)
    ensures
        r@ == v@,
{
    let mut r: Vec<String> = Vec::new();
    let mut i: usize = 0;
    while i < v.len()
        invariant
            i <= v@.len(),
            r@ == v@.take(i as int),
        decreases v@.len() - i,
    {
        r.push(v[i].clone());
        proof {
            assert(v@.take(i as int + 1) =~= v@.take(i as int).push(v@[i as int]));
        }
        i = i + 1;
    }
    proof {
        assert(v@.take(i as int) =~= v@);
    }
    r
}

/// The mathematical value of a `Config`.
pub struct ConfigView {
    pub root_path: Seq<char>,
    pub target_paths: Seq<String>,
    pub output_file: Option<String>,
    pub include_patterns: Seq<String>,
    pub exclude_patterns: Seq<String>,
    pub is_recursive: bool,
    pub recent_only: bool,
    pub show_line_numbers: bool,
}

impl View for Config {
    type V = ConfigView;

    open spec fn view(&self) -> ConfigView {
        ConfigView {
            root_path: self.root_path@,
            target_paths: self.target_paths@,
            output_file: self.output_file,
            include_patterns: self.include_patterns@,
            exclude_patterns: self.exclude_patterns@,
            is_recursive: self.is_recursive,
            recent_only: self.recent_only,
            show_line_numbers: self.show_line_numbers,
        }
    }
}

impl Clone for Config {
    fn clone(&self) -> (r: Config)
        ensures
            r@ == self@,
    {
        Config {
            root_path: self.root_path.clone(),
            target_paths: copy_strings(&self.target_paths),
            output_file: match &self.output_file {
                Some(s) => Some(s.clone()),
                None => None,
            },
            include_patterns: copy_strings(&self.include_patterns),
            exclude_patterns: copy_strings(&self.exclude_patterns),
            is_recursive: self.is_recursive,
            recent_only: self.recent_only,
            show_line_numbers: self.show_line_numbers,
        }
    }
}

impl Default for Config {
    fn default() -> (r: Config)
        ensures
            r.root_path@.len() == 0,
            r.target_paths@.len() == 0,
            r.output_file is None,
            r.include_patterns@.len() == 0,
            r.exclude_patterns@.len() == 0,
            !r.is_recursive,
            !r.recent_only,
            !r.show_line_numbers,
    {
        Config {
            root_path: String::new(),
            target_paths: Vec::new(),
            output_file: None,
            include_patterns: Vec::new(),
            exclude_patterns: Vec::new(),
            is_recursive: false,
            recent_only: false,
            show_line_numbers: false,
        }
    }
}

} // verus!
