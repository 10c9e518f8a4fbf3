use repo_context::config::Config;
use repo_context::snapshot::{Entry, FileProbe, Target, TargetKind};
use repo_context::tree::TreeContext;

const NOW: u64 = 1_700_000_000;
const ROOT: &str = "/work/project";

fn file(name: &str, content: &str) -> Entry {
    Entry::File(
        name.to_string(),
        FileProbe { size: Some(content.len() as u64), bytes: Some(content.as_bytes().to_vec()), modified: Some(NOW) },
    )
}

fn dir(name: &str, entries: Vec<Entry>) -> Entry {
    Entry::Dir(name.to_string(), Some(entries))
}

/// A small project: src (with modules), tests, docs and two
/// files at the top, listed out of name order.
fn create_test_directory_structure() -> Vec<Entry> {
    vec![
        file("README.md", "# Test project"),
        dir(
            "src",
            vec![
                file("main.rs", "fn main() {}"),
                dir("modules", vec![file("utils.rs", "// Utils")]),
                file("lib.rs", "// Library code"),
            ],
        ),
        dir("tests", vec![file("integration.rs", "// Tests")]),
        file("Cargo.toml", "# Cargo config"),
        dir("docs", vec![file("README.md", "# Documentation")]),
    ]
}

fn find<'a>(entries: &'a [Entry], parts: &[&str]) -> Option<&'a Entry> {
    let (first, rest) = parts.split_first()?;
    let e = entries.iter().find(|e| e.name() == first)?;
    if rest.is_empty() {
        return Some(e);
    }
    match e {
        Entry::Dir(_, Some(v)) => find(v, rest),
        _ => None,
    }
}

fn copy_entry(e: &Entry) -> Entry {
    match e {
        Entry::File(n, p) => Entry::File(n.clone(), p.clone()),
        Entry::Dir(n, l) => Entry::Dir(n.clone(), l.as_ref().map(|v| v.iter().map(copy_entry).collect())),
    }
}

/// Resolves a target against the fixture as the program does against disk.
fn target(entries: &[Entry], path: &str) -> Target {
    let rel = path.strip_prefix(ROOT).unwrap_or(path);
    let parts: Vec<&str> = rel.split('/').filter(|s| !s.is_empty() && *s != ".").collect();
    let given = format!("{}/{}", ROOT, rel.trim_start_matches('/'));
    let kind = if parts.is_empty() {
        TargetKind::Dir(Some(entries.iter().map(copy_entry).collect()))
    } else {
        match find(entries, &parts) {
            Some(Entry::File(_, p)) => TargetKind::File(p.clone()),
            Some(Entry::Dir(_, l)) => TargetKind::Dir(l.as_ref().map(|v| v.iter().map(copy_entry).collect())),
            None => TargetKind::Missing,
        }
    };
    let place = match kind {
        TargetKind::Missing => None,
        _ => Some(parts.iter().map(|s| s.to_string()).collect()),
    };
    Target { given, place, kind }
}

fn config(targets: Vec<String>, wanted: Vec<String>, exclude: Vec<String>) -> Config {
    Config {
        root_path: ROOT.to_string(),
        target_paths: targets,
        include_patterns: wanted,
        exclude_patterns: exclude,
        is_recursive: true,
        output_file: None,
        recent_only: false,
        show_line_numbers: false,
    }
}

fn from_root(config: Config) -> (Result<(), repo_context::error::ContextError>, String) {
    let root = Some(create_test_directory_structure());
    let mut tree_context = TreeContext::new(config);
    let result = tree_context.build_tree_from_root(&root, NOW);
    (result, tree_context.tree_str)
}

fn from_targets(config: Config) -> (Result<(), repo_context::error::ContextError>, String) {
    let entries = create_test_directory_structure();
    let targets: Vec<Target> = config.target_paths.iter().map(|t| target(&entries, t)).collect();
    let root = Some(entries);
    let mut tree_context = TreeContext::new(config);
    let result = tree_context.build_tree_from_targets(&root, &targets, NOW);
    (result, tree_context.tree_str)
}

#[test]
fn test_build_tree_from_root_basic() {
    let (result, tree_str) = from_root(config(vec![], vec![], vec![]));
    assert!(result.is_ok());
    assert!(tree_str.contains("src"));
    assert!(tree_str.contains("tests"));
    assert!(tree_str.contains("docs"));
    assert!(tree_str.contains("Cargo.toml"));
    assert!(tree_str.contains("README.md"));
}

#[test]
fn test_build_tree_from_root_with_exclude_patterns() {
    let (result, tree_str) = from_root(config(vec![], vec![], vec!["*.toml".to_string(), "tests/**".to_string()]));
    assert!(result.is_ok());
    assert!(tree_str.contains("src"));
    assert!(tree_str.contains("docs"));
    assert!(!tree_str.contains("Cargo.toml"));
    assert!(!tree_str.contains("integration.rs"));
}

#[test]
fn test_build_tree_from_root_with_include_patterns() {
    let (result, tree_str) = from_root(config(vec![], vec!["*.rs".to_string()], vec![]));
    assert!(result.is_ok());
    assert!(tree_str.contains("main.rs"));
    assert!(tree_str.contains("lib.rs"));
    assert!(tree_str.contains("utils.rs"));
    assert!(tree_str.contains("integration.rs"));
    assert!(!tree_str.contains("Cargo.toml"));
}

#[test]
fn test_build_tree_from_targets_with_specific_files() {
    let (result, tree_str) = from_targets(config(vec!["src/main.rs".to_string(), "Cargo.toml".to_string()], vec![], vec![]));
    assert!(result.is_ok());
    assert!(tree_str.contains("src"));
    assert!(tree_str.contains("main.rs"));
    assert!(tree_str.contains("Cargo.toml"));
    assert!(!tree_str.contains("lib.rs"));
    assert!(!tree_str.contains("tests"));
}

#[test]
fn test_build_tree_from_targets_with_directory() {
    let (result, tree_str) = from_targets(config(vec!["src/".to_string()], vec![], vec![]));
    assert!(result.is_ok());
    assert!(tree_str.contains("src"));
    assert!(tree_str.contains("main.rs"));
    assert!(tree_str.contains("lib.rs"));
    assert!(tree_str.contains("modules"));
    assert!(tree_str.contains("utils.rs"));
    assert!(!tree_str.contains("Cargo.toml"));
    assert!(!tree_str.contains("tests"));
}

#[test]
fn test_build_tree_from_targets_root_directory_detection() {
    let (result, tree_str) = from_targets(config(vec![".".to_string()], vec![], vec![]));
    assert!(result.is_ok());
    assert!(tree_str.contains("src"));
    assert!(tree_str.contains("tests"));
    assert!(tree_str.contains("docs"));
    assert!(tree_str.contains("Cargo.toml"));
    assert!(tree_str.contains("main.rs"));
    assert!(tree_str.contains("integration.rs"));
}

#[test]
fn test_build_tree_from_targets_with_absolute_path() {
    let absolute_target = format!("{}/src/main.rs", ROOT);
    let (result, tree_str) = from_targets(config(vec![absolute_target], vec![], vec![]));
    assert!(result.is_ok());
    assert!(tree_str.contains("src"));
    assert!(tree_str.contains("main.rs"));
    assert!(!tree_str.contains("lib.rs"));
}

#[test]
fn test_empty_target_paths_falls_back_to_full_tree() {
    let (result, tree_str) = from_targets(config(vec![], vec![], vec![]));
    assert!(result.is_ok());
    assert!(!tree_str.is_empty());
    assert!(tree_str.contains("main.rs") || tree_str.contains("src"));
}

#[test]
fn test_tree_context_new() {
    let config = Config {
        root_path: "/test".to_string(),
        target_paths: vec!["src/".to_string()],
        include_patterns: vec!["*.rs".to_string()],
        exclude_patterns: vec!["target/".to_string()],
        is_recursive: true,
        output_file: Some("output.md".to_string()),
        recent_only: false,
        show_line_numbers: false,
    };
    let tree_context = TreeContext::new(config.clone());
    assert!(tree_context.tree_str.is_empty());
}

#[test]
fn test_nonexistent_target_paths() {
    let (result, tree_str) = from_targets(config(vec!["nonexistent/path.rs".to_string()], vec![], vec![]));
    assert!(result.is_ok());
    assert!(!tree_str.is_empty());
}

#[test]
fn full_tree_lists_children_in_name_order() {
    let (result, tree_str) = from_root(config(vec![], vec![], vec![]));
    assert!(result.is_ok());
    let lines: Vec<&str> = tree_str.lines().collect();
    assert_eq!(lines[0], "project");
    let pos = |name: &str| lines.iter().position(|l| l.ends_with(name)).unwrap();
    assert!(pos("Cargo.toml") < pos("README.md"));
    assert!(pos("README.md") < pos("docs"));
    assert!(pos("docs") < pos("src"));
    assert!(pos("lib.rs") < pos("main.rs"));
    assert!(pos("main.rs") < pos("modules"));
    assert!(pos("src") < pos("tests"));
}

#[test]
fn non_recursive_tree_shows_directories_without_contents() {
    let mut c = config(vec![], vec![], vec![]);
    c.is_recursive = false;
    let (result, tree_str) = from_root(c);
    assert!(result.is_ok());
    assert!(tree_str.contains("src"));
    assert!(!tree_str.contains("main.rs"));
}

#[test]
fn unlisted_directory_fails_the_tree() {
    let root = Some(vec![Entry::Dir("locked".to_string(), None)]);
    let mut tree_context = TreeContext::new(config(vec![], vec![], vec![]));
    let result = tree_context.build_tree_from_root(&root, NOW);
    assert_eq!(result, Err(repo_context::error::ContextError::Listing("locked".to_string())));
    assert!(tree_context.tree_str.is_empty());
}

#[test]
fn malformed_pattern_is_rejected() {
    let root = Some(create_test_directory_structure());
    let mut tree_context = TreeContext::new(config(vec![], vec![], vec!["a[".to_string()]));
    let result = tree_context.build_tree_from_root(&root, NOW);
    assert_eq!(result, Err(repo_context::error::ContextError::BadPattern("a[".to_string())));
}
