//! The document: where it goes, in which format, and its markdown text.

use vstd::prelude::*;
use crate::config::Config;
use crate::context::ContextManager;
use crate::types::{FileEntry, GitInfo, RepositoryContext};

verus! {

/// The formats a document can be asked for.
#[derive(Debug, Clone, Copy, PartialEq, Eq, Structural)]
pub enum OutputFormat {
    Plain,
    Json,
    Markdown,
}

/// The file extension of each format.
pub open spec fn extension_for(f: OutputFormat) -> Seq<char> {
    match f {
        OutputFormat::Plain => "txt"@,
        OutputFormat::Json => "json"@,
        OutputFormat::Markdown => "md"@,
    }
}

impl OutputFormat {
    pub fn to_extension(&self) -> (r: &str)
        ensures
            r@ == extension_for(*self),
    {
        match self {
            OutputFormat::Plain => "txt",
            OutputFormat::Json => "json",
            OutputFormat::Markdown => "md",
        }
    }
}

/// Where a document goes.
#[derive(Debug, Clone)]
pub enum OutputDestination {
    Stdout,
    /// A file, named without its extension.
    File(String),
}

/// Where the settings send the document: the named file, else standard
/// output.
pub fn determine_output_destination(config: &Config) -> (r: OutputDestination)
    ensures
        match config.output_file {
            Some(p) => r matches OutputDestination::File(q) && q == p,
            None => r is Stdout,
        },
{
    match &config.output_file {
        Some(path) => OutputDestination::File(path.clone()),
        None => OutputDestination::Stdout,
    }
}

/// Builds the document of a built repository context.
pub struct OutputContext {
    context_manager: ContextManager,
    format: OutputFormat,
    destination: OutputDestination,
}

impl OutputContext {
    pub closed spec fn manager(&self) -> ContextManager {
        self.context_manager
    }

    pub closed spec fn format_view(&self) -> OutputFormat {
        self.format
    }

    pub closed spec fn destination_view(&self) -> OutputDestination {
        self.destination
    }

    /// A builder for the context of `context_manager`, which must be built;
    /// markdown to standard output unless told otherwise.
    pub fn new(context_manager: ContextManager) -> (r: Self)
        requires
            context_manager.context is Some,
        ensures
            r.manager() == context_manager,
            r.format_view() == OutputFormat::Markdown,
            r.destination_view() is Stdout,
    {
        OutputContext { context_manager, format: OutputFormat::Markdown, destination: OutputDestination::Stdout }
    }

    /// Sets the format.
    pub fn format(self, format: OutputFormat) -> (r: Self)
        ensures
            r.manager() == self.manager(),
            r.format_view() == format,
            r.destination_view() == self.destination_view(),
    {
        OutputContext { format, ..self }
    }

    /// Sets the destination.
    pub fn destination(self, destination: OutputDestination) -> (r: Self)
        ensures
            r.manager() == self.manager(),
            r.format_view() == self.format_view(),
            r.destination_view() == destination,
    {
        OutputContext { destination, ..self }
    }

    /// The file the document is written to: the destination's name with the
    /// format's extension; `None` for standard output.
    pub fn output_path(&self) -> (r: Option<String>)
        ensures
            match self.destination_view() {
                OutputDestination::Stdout => r is None,
                OutputDestination::File(p) => r matches Some(s) && s@ == p@ + "."@ + extension_for(self.format_view()),
            },
    {
        match &self.destination {
            OutputDestination::Stdout => None,
            OutputDestination::File(p) => {
                let mut s = p.clone();
                s.append(".");
                s.append(self.format.to_extension());
                Some(s)
            },
        }
    }

    /// The document in the chosen format, given the text of its summary
    /// section; `None` for the formats that have no writer.
    pub fn document(&self, summary: &str) -> (r: Option<String>)
        requires
            self.manager().context is Some,
        ensures
            self.format_view() is Markdown ==> (r matches Some(s) && s@ == markdown_doc(
                self.manager().context->Some_0,
                self.manager().context->Some_0.file_ctx.config.show_line_numbers,
                summary@,
            )),
            !(self.format_view() is Markdown) ==> r is None,
    {
        match self.format {
            OutputFormat::Markdown => {
                match &self.context_manager.context {
                    Some(ctx) => Some(self.format_markdown(ctx, summary)),
                    None => None,
                }
            },
            _ => None,
        }
    }

    /// The markdown document of `context`, the built context of the
    /// manager, given its summary section.
    fn format_markdown(&self, context: &RepositoryContext, summary: &str) -> (r: String)
        requires
            self.manager().context == Some(*context),
        ensures
            r@ == markdown_doc(*context, context.file_ctx.config.show_line_numbers, summary@),
    {
        let mut out = String::new();
        out.append("# Repository Context \n\n");
        out.append(dump_repo_metadata_md(context).as_str());
        out.append(dump_tree_structure(&self.context_manager).as_str());
        let entries = &context.file_ctx.file_entries;
        let show = context.file_ctx.config.show_line_numbers;
        let ghost head = out@;
        let mut i: usize = 0;
        while i < entries.len()
            invariant
                i <= entries@.len(),
                entries == &context.file_ctx.file_entries,
                show == context.file_ctx.config.show_line_numbers,
                out@ == head + entries_md(entries@.take(i as int), show),
            decreases entries@.len() - i,
        {
            proof {
                assert(entries@.take(i as int + 1).drop_last() =~= entries@.take(i as int));
            }
            out.append("  ");
            out.append(dump_file_entry(&entries[i], show).as_str());
            out.append("\n\n");
            proof {
                assert(out@ =~= head + entries_md(entries@.take(i as int + 1), show));
            }
            i = i + 1;
        }
        proof {
            assert(entries@.take(i as int) =~= entries@);
        }
        out.append(dump_separator_md().as_str());
        out.append("## Summary\n\n");
        out.append(summary);
        out
    }
}

/// The separator between sections.
pub open spec fn separator_md() -> Seq<char> {
    "--------------------------------------------\n\n"@
}

/// The text of an optional field, `N/A` when absent.
pub open spec fn or_na(v: Option<String>) -> Seq<char> {
    match v {
        Some(s) => s@,
        None => "N/A"@,
    }
}

/// The version-control section.
pub open spec fn git_info_md(g: GitInfo) -> Seq<char> {
    if g.is_repo {
        "- **Commit Hash**: "@ + or_na(g.commit_hash) + "\n"@ + "- **Branch**: "@ + or_na(g.branch) + "\n"@
            + "- **Author**: "@ + or_na(g.author) + " <"@ + or_na(g.email) + ">\n"@ + "- **Date**: "@
            + or_na(g.date) + "\n"@
    } else {
        "Couldn't retrieve Git information.\n"@
    }
}

/// The metadata section.
pub open spec fn repo_metadata_md(c: RepositoryContext) -> Seq<char> {
    "## Metadata\n\n"@ + "### File System Location\n\n"@ + c.root_path@ + "\n\n"@ + "### Git Information\n\n"@
        + git_info_md(c.git_info) + separator_md()
}

/// The tree section; the tree block is left out when there is no tree.
pub open spec fn tree_md(tree: Seq<char>) -> Seq<char> {
    if tree.len() > 0 {
        "## Directory Structure\n\n"@ + "```\n"@ + tree + "```\n\n"@ + separator_md()
    } else {
        separator_md()
    }
}

/// The decimal digits.
pub open spec fn digits() -> Seq<char> {
    "0123456789"@
}

/// `n` in decimal.
pub open spec fn decimal(n: nat) -> Seq<char>
    decreases n,
{
    if n < 10 {
        seq![digits()[n as int]]
    } else {
        decimal(n / 10).push(digits()[(n % 10) as int])
    }
}

/// Where the last `.` of the first `e` characters of `p` is, or -1.
pub open spec fn last_dot(p: Seq<char>, e: int) -> int
    decreases e,
{
    if e <= 0 || e > p.len() {
        -1
    } else if p[e - 1] == '.' {
        e - 1
    } else {
        last_dot(p, e - 1)
    }
}

/// What follows the last `.` of a path; empty when it has none.
pub open spec fn extension_of(p: Seq<char>) -> Seq<char> {
    let d = last_dot(p, p.len() as int);
    if d < 0 {
        Seq::empty()
    } else {
        p.skip(d + 1)
    }
}

/// The first line break of `s` at or after `i`, or `s.len()`.
pub open spec fn next_newline(s: Seq<char>, i: int) -> int
    decreases s.len() - i,
{
    if i >= s.len() || i < 0 {
        s.len() as int
    } else if s[i] == '\n' {
        i
    } else {
        next_newline(s, i + 1)
    }
}

/// A line without the carriage return that ended it.
pub open spec fn strip_cr(l: Seq<char>) -> Seq<char> {
    if l.len() > 0 && l.last() == '\r' {
        l.drop_last()
    } else {
        l
    }
}

/// The lines of `s` from index `i`: split at `\n` (a `\r` before it is
/// dropped), the last line needing no terminator.
pub open spec fn lines_from(s: Seq<char>, i: int) -> Seq<Seq<char>>
    decreases s.len() - i,
{
    if i < 0 || i >= s.len() {
        Seq::empty()
    } else {
        let j = next_newline(s, i);
        if j < i {
            Seq::empty()
        } else if j >= s.len() {
            seq![s.subrange(i, s.len() as int)]
        } else {
            seq![strip_cr(s.subrange(i, j))] + lines_from(s, j + 1)
        }
    }
}

/// The lines of `s`, as `str::lines` gives them.
pub open spec fn lines_of(s: Seq<char>) -> Seq<Seq<char>> {
    lines_from(s, 0)
}

/// Relies on str::lines: lines end at `\n` or `\r\n`, and the last one
/// needs no ending.
#[verifier::external_body]
fn text_lines(s: &str) -> (r: Vec<String>)
    ensures
        r@.map_values(|l: String| l@) == lines_of(s@),
{
    s.lines().map(|l| l.to_string()).collect()
}

/// Numbered lines, counted from `start`, each followed by a newline.
pub open spec fn numbered(lines: Seq<Seq<char>>, start: nat) -> Seq<char>
    decreases lines.len(),
{
    if lines.len() == 0 {
        Seq::empty()
    } else {
        numbered(lines.drop_last(), start) + decimal((start + lines.len() - 1) as nat) + ": "@ + lines.last() + "\n"@
    }
}

/// Whether `s` ends with a newline.
pub open spec fn ends_with_newline(s: Seq<char>) -> bool {
    s.len() > 0 && s.last() == '\n'
}

/// The body of a file's section.
pub open spec fn file_body_md(f: FileEntry, show_line_numbers: bool) -> Seq<char> {
    match f.content {
        Some(c) => {
            let fix = if ends_with_newline(c@) { Seq::empty() } else { "\n"@ };
            let text = if show_line_numbers { numbered(lines_of(c@), 1) } else { c@ };
            "```"@ + extension_of(f.path@) + "\n"@ + text + fix + "```\n"@
        },
        None => if f.is_binary {
            "*Binary file - content not displayed*\n"@
        } else {
            "*Content not available*\n"@
        },
    }
}

/// A file's section: its path and size, then its text.
pub open spec fn file_entry_md(f: FileEntry, show_line_numbers: bool) -> Seq<char> {
    let size = if f.size > 0 { " ("@ + decimal(f.size as nat) + " bytes)"@ } else { Seq::empty() };
    "## FILE: "@ + f.path@ + size + "\n\n"@ + file_body_md(f, show_line_numbers)
}

/// The sections of files `fs`, in order.
pub open spec fn entries_md(fs: Seq<FileEntry>, show_line_numbers: bool) -> Seq<char>
    decreases fs.len(),
{
    if fs.len() == 0 {
        Seq::empty()
    } else {
        entries_md(fs.drop_last(), show_line_numbers) + "  "@ + file_entry_md(fs.last(), show_line_numbers) + "\n\n"@
    }
}

/// The whole markdown document, given its summary section.
pub open spec fn markdown_doc(c: RepositoryContext, show_line_numbers: bool, summary: Seq<char>) -> Seq<char> {
    "# Repository Context \n\n"@ + repo_metadata_md(c) + tree_md(c.tree_repr@) + entries_md(c.file_ctx.file_entries@, show_line_numbers)
        + separator_md() + "## Summary\n\n"@ + summary
}

/// `n` in decimal.
pub fn decimal_text(n: u64) -> (r: String)
    ensures
        r@ == decimal(n as nat),
    decreases n,
{
    let d = "0123456789";
    proof {
        reveal_strlit("0123456789");
    }
    if n < 10 {
        String::from_str(d.substring_char(n as usize, n as usize + 1))
    } else {
        let mut s = decimal_text(n / 10);
        let k = (n % 10) as usize;
        let c = d.substring_char(k, k + 1);
        s.append(c);
        proof {
            assert(c@ =~= seq![digits()[k as int]]);
        }
        s
    }
}

/// The separator between sections.
pub fn dump_separator_md() -> (r: String)
    ensures
        r@ == separator_md(),
{
    String::from_str("--------------------------------------------\n\n")
}

/// What follows the last `.` of `file_path`, as the code block's language.
pub fn get_file_extension(file_path: &str) -> (r: &str)
    ensures
        r@ == extension_of(file_path@),
{
    let n = file_path.unicode_len();
    let mut e: usize = n;
    while e > 0 && file_path.get_char(e - 1) != '.'
        invariant
            n == file_path@.len(),
            e <= n,
            last_dot(file_path@, n as int) == last_dot(file_path@, e as int),
        decreases e,
    {
        e = e - 1;
    }
    proof {
        reveal_strlit("");
    }
    if e == 0 {
        ""
    } else {
        let r = file_path.substring_char(e, n);
        proof {
            assert(r@ =~= file_path@.skip(e as int));
        }
        r
    }
}

/// The version-control section.
pub fn dump_git_info_md(git_info: &GitInfo) -> (r: String)
    ensures
        r@ == git_info_md(*git_info),
{
    if !git_info.is_repo {
        return String::from_str("Couldn't retrieve Git information.\n");
    }
    let mut out = String::new();
    out.append("- **Commit Hash**: ");
    append_or_na(&mut out, &git_info.commit_hash);
    out.append("\n");
    out.append("- **Branch**: ");
    append_or_na(&mut out, &git_info.branch);
    out.append("\n");
    out.append("- **Author**: ");
    append_or_na(&mut out, &git_info.author);
    out.append(" <");
    append_or_na(&mut out, &git_info.email);
    out.append(">\n");
    out.append("- **Date**: ");
    append_or_na(&mut out, &git_info.date);
    out.append("\n");
    proof {
        assert(out@ =~= git_info_md(*git_info));
    }
    out
}

fn append_or_na(out: &mut String, v: &Option<String>)
    ensures
        final(out)@ == old(out)@ + or_na(*v),
{
    match v {
        Some(s) => out.append(s.as_str()),
        None => out.append("N/A"),
    }
}

/// The metadata section: where the repository is and its version control.
pub fn dump_repo_metadata_md(repo_context: &RepositoryContext) -> (r: String)
    ensures
        r@ == repo_metadata_md(*repo_context),
{
    let mut out = String::new();
    out.append("## Metadata\n\n");
    out.append("### File System Location\n\n");
    out.append(repo_context.root_path.as_str());
    out.append("\n\n");
    out.append("### Git Information\n\n");
    out.append(dump_git_info_md(&repo_context.git_info).as_str());
    out.append(dump_separator_md().as_str());
    proof {
        assert(out@ =~= repo_metadata_md(*repo_context));
    }
    out
}

/// The tree section of a built context.
pub fn dump_tree_structure(ctx_manager: &ContextManager) -> (r: String)
    requires
        ctx_manager.context is Some,
    ensures
        r@ == tree_md(ctx_manager.context->Some_0.tree_repr@),
{
    let tree_str = get_tree_structure(ctx_manager);
    let mut out = String::new();
    if tree_str.unicode_len() > 0 {
        out.append("## Directory Structure\n\n");
        out.append("```\n");
        out.append(tree_str.as_str());
        out.append("```\n\n");
    }
    out.append(dump_separator_md().as_str());
    proof {
        assert(out@ =~= tree_md(tree_str@));
    }
    out
}

/// The drawn tree of a built context.
pub fn get_tree_structure(ctx_manager: &ContextManager) -> (r: String)
    requires
        ctx_manager.context is Some,
    ensures
        r@ == ctx_manager.context->Some_0.tree_repr@,
{
    match &ctx_manager.context {
        Some(c) => c.tree_repr.clone(),
        None => String::new(),
    }
}

/// Whether `s` ends with a newline.
fn ends_in_newline(s: &String) -> (r: bool)
    ensures
        r == ends_with_newline(s@),
{
    let n = s.unicode_len();
    n > 0 && s.as_str().get_char(n - 1) == '\n'
}

/// The lines of `content`, numbered from 1, each followed by a newline.
fn number_lines(content: &String) -> (r: String)
    ensures
        r@ == numbered(lines_of(content@), 1),
{
    let lines = text_lines(content.as_str());
    let ghost lv = lines@.map_values(|l: String| l@);
    let mut out = String::new();
    let mut i: usize = 0;
    proof {
        assert(lv.take(0) =~= Seq::<Seq<char>>::empty());
    }
    while i < lines.len()
        invariant
            i <= lines@.len(),
            lv == lines@.map_values(|l: String| l@),
            out@ == numbered(lv.take(i as int), 1),
        decreases lines@.len() - i,
    {
        proof {
            assert(lv.take(i as int + 1).drop_last() =~= lv.take(i as int));
            assert(lv.take(i as int + 1).last() == lines@[i as int]@);
        }
        out.append(decimal_text(i as u64 + 1).as_str());
        out.append(": ");
        out.append(lines[i].as_str());
        out.append("\n");
        proof {
            assert(out@ =~= numbered(lv.take(i as int + 1), 1));
        }
        i = i + 1;
    }
    proof {
        assert(lv.take(i as int) =~= lv);
    }
    out
}

/// The body of a file's section: its text in a code block, or why there
/// is none.
fn dump_file_body(file: &FileEntry, show_line_numbers: bool) -> (r: String)
    ensures
        r@ == file_body_md(*file, show_line_numbers),
{
    match &file.content {
        Some(content) => {
            let mut out = String::new();
            out.append("```");
            out.append(get_file_extension(file.path.as_str()));
            out.append("\n");
            if show_line_numbers {
                out.append(number_lines(content).as_str());
            } else {
                out.append(content.as_str());
            }
            if !ends_in_newline(content) {
                out.append("\n");
            }
            out.append("```\n");
            proof {
                assert(out@ =~= file_body_md(*file, show_line_numbers));
            }
            out
        },
        None => {
            if file.is_binary {
                String::from_str("*Binary file - content not displayed*\n")
            } else {
                String::from_str("*Content not available*\n")
            }
        },
    }
}

/// A file's section: a header with its path and size, then its body.
pub fn dump_file_entry(file: &FileEntry, show_line_numbers: bool) -> (r: String)
    ensures
        r@ == file_entry_md(*file, show_line_numbers),
{
    let mut out = String::new();
    out.append("## FILE: ");
    out.append(file.path.as_str());
    if file.size > 0 {
        out.append(" (");
        out.append(decimal_text(file.size).as_str());
        out.append(" bytes)");
    }
    out.append("\n\n");
    out.append(dump_file_body(file, show_line_numbers).as_str());
    proof {
        assert(out@ =~= file_entry_md(*file, show_line_numbers));
    }
    out
}

} // verus!
