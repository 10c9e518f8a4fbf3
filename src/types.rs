//! The records a run produces.

use vstd::prelude::*;
pub use crate::config::Config;

verus! {

/// One selected file.
#[derive(Debug, Clone)]
pub struct FileEntry {
    /// Relative to the repository root, `/`-separated.
    pub path: String,
    /// Its text; `None` for binary files, files at or over the size limit,
    /// and files whose bytes are not UTF-8.
    pub content: Option<String>,
    /// In bytes.
    pub size: u64,
    /// Newline-terminated lines plus a final unterminated one; 0 when binary.
    pub lines: u64,
    pub is_binary: bool,
}

/// The mathematical value of a `FileEntry`.
pub struct FileEntryView {
    pub path: Seq<char>,
    pub content: Option<Seq<char>>,
    pub size: u64,
    pub lines: u64,
    pub is_binary: bool,
}

impl View for FileEntry {
    type V = FileEntryView;

    open spec fn view(&self) -> FileEntryView {
        FileEntryView {
            path: self.path@,
            content: match self.content {
                Some(s) => Some(s@),
                None => None,
            },
            size: self.size,
            lines: self.lines,
            is_binary: self.is_binary,
        }
    }
}

/// The views of a list of records.
pub open spec fn entries_view(v: Seq<FileEntry>) -> Seq<FileEntryView> {
    v.map_values(|e: FileEntry| e@)
}

/// Why an item was skipped without stopping the run.
#[derive(Debug, Clone, Copy, PartialEq, Eq, Structural)]
pub enum NoticeKind {
    /// Only recent files were wanted and the file's modification time is unknown.
    TimestampUnreadable,
    /// The file's metadata could not be read; it is left out.
    FileUnreadable,
    /// The file could not be opened; it is kept as binary.
    FileUnopened,
    /// A target path does not exist.
    TargetMissing,
}

/// A warning about a skipped item, for the caller's diagnostic channel.
#[derive(Debug, Clone)]
pub struct Notice {
    pub kind: NoticeKind,
    pub path: String,
}

impl View for Notice {
    type V = (NoticeKind, Seq<char>);

    open spec fn view(&self) -> (NoticeKind, Seq<char>) {
        (self.kind, self.path@)
    }
}

/// The views of a list of notices.
pub open spec fn notices_view(v: Seq<Notice>) -> Seq<(NoticeKind, Seq<char>)> {
    v.map_values(|n: Notice| n@)
}

/// What was learned of the repository's version control.
#[derive(Debug, Clone)]
pub struct GitInfo {
    pub is_repo: bool,
    pub commit_hash: Option<String>,
    pub branch: Option<String>,
    pub author: Option<String>,
    pub email: Option<String>,
    pub date: Option<String>,
}

/// The selected files of a run, with the settings that chose them.
#[derive(Debug, Clone)]
pub struct FileContext {
    pub file_entries: Vec<FileEntry>,
    pub config: Config,
    /// Items skipped with a warning, in the order they were met.
    pub notices: Vec<Notice>,
}

/// Everything the document is made from.
#[derive(Debug, Clone)]
pub struct RepositoryContext {
    pub root_path: String,
    pub git_info: GitInfo,
    pub file_ctx: FileContext,
    /// The rendered directory tree.
    pub tree_repr: String,
}

} // verus!
