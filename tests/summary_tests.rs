use repo_context::config::Config;
use repo_context::summary::summarize;
use repo_context::types::{FileContext, FileEntry};

fn entry(path: &str, size: u64, lines: u64) -> FileEntry {
    FileEntry { path: path.to_string(), content: None, size, lines, is_binary: lines == 0 }
}

fn context(entries: Vec<FileEntry>) -> FileContext {
    let mut fc = FileContext::new(Config::default());
    fc.file_entries = entries;
    fc
}

#[test]
fn test_summary_calculation() {
    let fc = context(vec![entry("test.txt", 14, 2), entry("data.bin", 4, 0)]);
    let s = summarize(&fc);
    assert_eq!(s.files, 2);
    assert_eq!(s.total_lines, 2);
    assert_eq!(s.total_size, 18);
}

#[test]
fn languages_are_grouped_by_lowercase_extension_most_lines_first() {
    let fc = context(vec![
        entry("a.rs", 10, 5),
        entry("README", 3, 1),
        entry("b.RS", 20, 7),
        entry("c.md", 5, 30),
        entry("Makefile", 2, 1),
    ]);
    let s = summarize(&fc);
    let got: Vec<(String, usize, u128, u128)> =
        s.languages.iter().map(|g| (g.extension.clone(), g.files, g.lines, g.bytes)).collect();
    assert_eq!(
        got,
        vec![("md".to_string(), 1, 30, 5), ("rs".to_string(), 2, 12, 30), ("".to_string(), 2, 2, 5)]
    );
}

#[test]
fn top_files_by_lines_then_path() {
    let mut entries = Vec::new();
    for i in 0..12u64 {
        entries.push(entry(&format!("f{:02}.txt", i), 1, i % 4));
    }
    let fc = context(entries);
    let s = summarize(&fc);
    let names: Vec<&str> = s.top_files.iter().map(|&i| fc.file_entries[i].path.as_str()).collect();
    assert_eq!(
        names,
        vec!["f03.txt", "f07.txt", "f11.txt", "f02.txt", "f06.txt", "f10.txt", "f01.txt", "f05.txt", "f09.txt", "f00.txt"]
    );
}

#[test]
fn empty_context_has_empty_summary() {
    let s = summarize(&context(vec![]));
    assert_eq!((s.files, s.total_size, s.total_lines), (0, 0, 0));
    assert!(s.languages.is_empty());
    assert!(s.top_files.is_empty());
}
