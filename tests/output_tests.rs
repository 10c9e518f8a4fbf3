use repo_context::config::Config;
use repo_context::context::ContextManager;
use repo_context::output::{
    decimal_text, dump_file_entry, dump_git_info_md, dump_separator_md, dump_tree_structure, get_file_extension,
    OutputContext, OutputDestination, OutputFormat,
};
use repo_context::snapshot::{Entry, FileProbe};
use repo_context::types::{FileEntry, GitInfo};

#[test]
fn test_output_format_to_extension() {
    assert_eq!(OutputFormat::Plain.to_extension(), "txt");
    assert_eq!(OutputFormat::Json.to_extension(), "json");
    assert_eq!(OutputFormat::Markdown.to_extension(), "md");
}

#[test]
fn test_output_format_debug() {
    let format = OutputFormat::Markdown;
    let debug_str = format!("{:?}", format);
    assert!(debug_str.contains("Markdown"));
}

#[test]
fn output_tests_test_output_format_clone() {
    let format1 = OutputFormat::Plain;
    let format2 = format1.clone();
    assert_eq!(format1.to_extension(), format2.to_extension());
}

#[test]
fn test_output_destination_stdout() {
    let dest = OutputDestination::Stdout;
    match dest {
        OutputDestination::Stdout => {}
        _ => panic!("Expected Stdout variant"),
    }
}

#[test]
fn test_output_destination_file() {
    let dest = OutputDestination::File("test.txt".to_string());
    match dest {
        OutputDestination::File(path) => assert_eq!(path, "test.txt"),
        _ => panic!("Expected File variant"),
    }
}

#[test]
fn test_output_destination_debug() {
    let dest = OutputDestination::File("output.md".to_string());
    let debug_str = format!("{:?}", dest);
    assert!(debug_str.contains("output.md"));
}

fn entry(path: &str, content: Option<&str>, size: u64, lines: u64, is_binary: bool) -> FileEntry {
    FileEntry { path: path.to_string(), content: content.map(|c| c.to_string()), size, lines, is_binary }
}

#[test]
fn decimal_text_writes_digits() {
    assert_eq!(decimal_text(0), "0");
    assert_eq!(decimal_text(7), "7");
    assert_eq!(decimal_text(1234), "1234");
    assert_eq!(decimal_text(u64::MAX), "18446744073709551615");
}

#[test]
fn extension_is_text_after_last_dot() {
    assert_eq!(get_file_extension("src/main.rs"), "rs");
    assert_eq!(get_file_extension("archive.tar.gz"), "gz");
    assert_eq!(get_file_extension("README"), "");
}

#[test]
fn file_entry_section_with_text() {
    let f = entry("src/lib.rs", Some("fn a() {}"), 9, 1, false);
    assert_eq!(dump_file_entry(&f, false), "## FILE: src/lib.rs (9 bytes)\n\n```rs\nfn a() {}\n```\n");
}

#[test]
fn file_entry_section_with_line_numbers() {
    let f = entry("notes.txt", Some("one\r\ntwo\n"), 9, 2, false);
    assert_eq!(dump_file_entry(&f, true), "## FILE: notes.txt (9 bytes)\n\n```txt\n1: one\n2: two\n```\n");
}

#[test]
fn file_entry_section_binary_and_unavailable() {
    let b = entry("data.bin", None, 2, 0, true);
    assert_eq!(dump_file_entry(&b, false), "## FILE: data.bin (2 bytes)\n\n*Binary file - content not displayed*\n");
    let u = entry("bad.txt", None, 0, 0, false);
    assert_eq!(dump_file_entry(&u, false), "## FILE: bad.txt\n\n*Content not available*\n");
}

#[test]
fn git_section_fills_missing_fields() {
    let g = GitInfo::from_commit(None, "abc123".to_string(), Some("Ann".to_string()), None, "2024-01-02".to_string());
    assert_eq!(
        dump_git_info_md(&g),
        "- **Commit Hash**: abc123\n- **Branch**: unknown\n- **Author**: Ann <N/A>\n- **Date**: 2024-01-02\n"
    );
    assert_eq!(dump_git_info_md(&GitInfo::unavailable()), "Couldn't retrieve Git information.\n");
}

#[test]
fn commit_date_is_utc_day() {
    assert_eq!(repo_context::git::commit_date(0, 0), "1970-01-01");
    assert_eq!(repo_context::git::commit_date(1_700_000_000, 0), "2023-11-14");
    assert_eq!(repo_context::git::commit_date(i64::MAX, 86_400), "1970-01-02");
}

#[test]
fn tree_section_is_left_out_without_tree() {
    let config = Config { root_path: "/work/project".to_string(), ..Default::default() };
    let mut manager = built_manager(config);
    let tree = manager.context.as_ref().unwrap().tree_repr.clone();
    assert!(tree.starts_with("project\n"));
    assert_eq!(dump_tree_structure(&manager), format!("## Directory Structure\n\n```\n{}```\n\n{}", tree, dump_separator_md()));
    manager.context.as_mut().unwrap().tree_repr = String::new();
    assert_eq!(dump_tree_structure(&manager), dump_separator_md());
    assert_eq!(dump_separator_md(), format!("{}\n\n", "-".repeat(44)));
}

fn built_manager(config: Config) -> ContextManager {
    let root = Some(vec![Entry::File(
        "a.txt".to_string(),
        FileProbe { size: Some(6), bytes: Some(b"hello\n".to_vec()), modified: Some(0) },
    )]);
    let mut manager = ContextManager::new(config);
    manager.build_context("/work/project".to_string(), GitInfo::unavailable(), &root, &vec![], 0).unwrap();
    manager
}

fn document_for(files: Vec<Entry>) -> String {
    let config = Config { root_path: "/work/project".to_string(), is_recursive: true, ..Default::default() };
    let mut manager = ContextManager::new(config);
    manager.build_context("/work/project".to_string(), GitInfo::unavailable(), &Some(files), &vec![], 0).unwrap();
    OutputContext::new(manager).document("").unwrap()
}

fn probe(bytes: &[u8]) -> FileProbe {
    FileProbe { size: Some(bytes.len() as u64), bytes: Some(bytes.to_vec()), modified: Some(0) }
}

#[test]
fn test_code_block_formatting() {
    let doc = document_for(vec![
        Entry::File("example.rs".to_string(), probe(b"fn main() {\n    println!(\"Hello, world!\");\n}\n")),
        Entry::File("script.py".to_string(), probe(b"print(\"Hello, Python!\")")),
        Entry::File("data.bin".to_string(), probe(&[0, 1, 2, 255, 128])),
    ]);
    assert!(doc.contains("```rs\n"));
    assert!(doc.contains("```py\n"));
    assert!(doc.contains("fn main() {"));
    assert!(doc.contains("*Binary file - content not displayed*"));
}

#[test]
fn test_file_without_extension() {
    let doc = document_for(vec![Entry::File("README".to_string(), probe(b"This is a README file\nwith some content"))]);
    assert!(doc.contains("```\n"));
    assert!(doc.contains("This is a README file"));
}

#[test]
fn markdown_document_has_every_section() {
    let config = Config { root_path: "/work/project".to_string(), is_recursive: true, ..Default::default() };
    let doc = OutputContext::new(built_manager(config)).document("Total files indexed: 1\n").unwrap();
    assert!(doc.starts_with("# Repository Context \n\n## Metadata\n\n### File System Location\n\n/work/project\n\n"));
    assert!(doc.contains("## Directory Structure\n\n```\nproject\n"));
    assert!(doc.contains("  ## FILE: a.txt (6 bytes)\n\n```txt\nhello\n```\n\n\n"));
    assert!(doc.ends_with("## Summary\n\nTotal files indexed: 1\n"));
}

#[test]
fn other_formats_have_no_document() {
    let config = Config { root_path: "/work/project".to_string(), ..Default::default() };
    let out = OutputContext::new(built_manager(config)).format(OutputFormat::Json);
    assert!(out.document("").is_none());
}

#[test]
fn output_path_adds_the_extension() {
    let config = Config { root_path: "/work/project".to_string(), ..Default::default() };
    let out = OutputContext::new(built_manager(config))
        .destination(OutputDestination::File("out/context".to_string()))
        .format(OutputFormat::Markdown);
    assert_eq!(out.output_path(), Some("out/context.md".to_string()));
    let config = Config { root_path: "/work/project".to_string(), ..Default::default() };
    assert_eq!(OutputContext::new(built_manager(config)).output_path(), None);
}
