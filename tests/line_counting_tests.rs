use repo_context::config::Config;
use repo_context::snapshot::{Entry, FileProbe};
use repo_context::types::FileContext;

const NOW: u64 = 1_700_000_000;

fn text_file(name: &str, content: &str) -> Entry {
    Entry::File(
        name.to_string(),
        FileProbe { size: Some(content.len() as u64), bytes: Some(content.as_bytes().to_vec()), modified: Some(NOW) },
    )
}

fn binary_file(name: &str) -> Entry {
    let data = vec![0u8, 1u8, 2u8, 255u8, 0u8];
    Entry::File(name.to_string(), FileProbe { size: Some(data.len() as u64), bytes: Some(data), modified: Some(NOW) })
}

fn flat_config() -> Config {
    Config {
        root_path: "/work/project".to_string(),
        target_paths: vec![],
        output_file: None,
        include_patterns: vec![],
        exclude_patterns: vec![],
        is_recursive: false,
        recent_only: false,
        ..Default::default()
    }
}

fn select(entries: Vec<Entry>, config: Config) -> FileContext {
    FileContext::from_root(config, &Some(entries), NOW).expect("Failed to create FileContext")
}

#[test]
fn test_single_line_file() {
    let file_context = select(vec![text_file("single_line.txt", "Hello, world!")], flat_config());
    assert_eq!(file_context.file_entries.len(), 1);
    let file_entry = &file_context.file_entries[0];
    assert_eq!(file_entry.lines, 1);
    assert!(!file_entry.is_binary);
    assert!(file_entry.content.is_some());
}

#[test]
fn test_multi_line_file() {
    let file_context = select(vec![text_file("multi_line.txt", "Line 1\nLine 2\nLine 3\nLine 4\n")], flat_config());
    assert_eq!(file_context.file_entries.len(), 1);
    let file_entry = &file_context.file_entries[0];
    assert_eq!(file_entry.lines, 4);
    assert!(!file_entry.is_binary);
}

#[test]
fn test_empty_file() {
    let file_context = select(vec![text_file("empty.txt", "")], flat_config());
    assert_eq!(file_context.file_entries.len(), 1);
    let file_entry = &file_context.file_entries[0];
    assert_eq!(file_entry.lines, 0);
    assert!(!file_entry.is_binary);
}

#[test]
fn test_file_without_trailing_newline() {
    let file_context = select(vec![text_file("no_trailing_newline.txt", "Line 1\nLine 2\nLine 3")], flat_config());
    assert_eq!(file_context.file_entries.len(), 1);
    let file_entry = &file_context.file_entries[0];
    assert_eq!(file_entry.lines, 3);
    assert!(!file_entry.is_binary);
}

#[test]
fn test_binary_file_line_count() {
    let file_context = select(vec![binary_file("binary.bin")], flat_config());
    assert_eq!(file_context.file_entries.len(), 1);
    let file_entry = &file_context.file_entries[0];
    assert_eq!(file_entry.lines, 0);
    assert!(file_entry.is_binary);
    assert!(file_entry.content.is_none());
}

#[test]
fn test_multiple_files_line_counting() {
    let file_context = select(
        vec![
            text_file("file1.txt", "Line 1\nLine 2\n"),
            text_file("file2.txt", "Single line"),
            text_file("file3.txt", "A\nB\nC\nD\nE\n"),
            binary_file("binary.bin"),
        ],
        flat_config(),
    );
    assert_eq!(file_context.file_entries.len(), 4);
    let total_lines: u64 = file_context.file_entries.iter().map(|f| f.lines).sum();
    assert_eq!(total_lines, 8);
    for file_entry in &file_context.file_entries {
        match file_entry.path.as_str() {
            path if path.ends_with("file1.txt") => assert_eq!(file_entry.lines, 2),
            path if path.ends_with("file2.txt") => assert_eq!(file_entry.lines, 1),
            path if path.ends_with("file3.txt") => assert_eq!(file_entry.lines, 5),
            path if path.ends_with("binary.bin") => {
                assert_eq!(file_entry.lines, 0);
                assert!(file_entry.is_binary);
            }
            path => panic!("Unexpected file: {}", path),
        }
    }
}

#[test]
fn test_file_with_only_newlines() {
    let file_context = select(vec![text_file("newlines_only.txt", "\n\n\n")], flat_config());
    assert_eq!(file_context.file_entries.len(), 1);
    let file_entry = &file_context.file_entries[0];
    assert_eq!(file_entry.lines, 3);
    assert!(!file_entry.is_binary);
}

#[test]
fn test_recursive_directory_line_counting() {
    let config = Config { is_recursive: true, ..flat_config() };
    let file_context = select(
        vec![
            text_file("root.txt", "Root line 1\nRoot line 2\n"),
            Entry::Dir("subdir".to_string(), Some(vec![text_file("sub.txt", "Sub line 1\nSub line 2\nSub line 3\n")])),
        ],
        config,
    );
    assert_eq!(file_context.file_entries.len(), 2);
    let total_lines: u64 = file_context.file_entries.iter().map(|f| f.lines).sum();
    assert_eq!(total_lines, 5);
}

#[test]
fn test_summary_generation() {
    let config = Config { show_line_numbers: false, ..flat_config() };
    let file_context = select(
        vec![text_file("small.txt", "A\nB\n"), text_file("medium.txt", "1\n2\n3\n4\n5\n"), binary_file("data.bin")],
        config,
    );
    assert_eq!(file_context.file_entries.len(), 3);
    let total_lines: u64 = file_context.file_entries.iter().map(|f| f.lines).sum();
    assert_eq!(total_lines, 7);
    let total_size: u64 = file_context.file_entries.iter().map(|f| f.size).sum();
    assert!(total_size > 0);
    for file in file_context.file_entries.iter().filter(|f| !f.is_binary) {
        assert!(file.lines > 0);
        assert!(file.content.is_some());
    }
    let binary_files: Vec<_> = file_context.file_entries.iter().filter(|f| f.is_binary).collect();
    assert_eq!(binary_files.len(), 1);
    assert_eq!(binary_files[0].lines, 0);
    assert!(binary_files[0].content.is_none());
}
