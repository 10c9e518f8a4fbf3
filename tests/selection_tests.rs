use repo_context::config::Config;
use repo_context::context::ContextManager;
use repo_context::error::ContextError;
use repo_context::files::{count_lines, create_file_entry, is_binary_prefix};
use repo_context::filter::PathFilter;
use repo_context::snapshot::{Entry, FileProbe, Target, TargetKind};
use repo_context::tree::TreeContext;
use repo_context::types::{FileContext, GitInfo, NoticeKind};

const NOW: u64 = 1_700_000_000;
const DAY: u64 = 86_400;

fn file_at(name: &str, content: &[u8], modified: u64) -> Entry {
    Entry::File(
        name.to_string(),
        FileProbe { size: Some(content.len() as u64), bytes: Some(content.to_vec()), modified: Some(modified) },
    )
}

fn file(name: &str, content: &str) -> Entry {
    file_at(name, content.as_bytes(), NOW)
}

fn dir(name: &str, entries: Vec<Entry>) -> Entry {
    Entry::Dir(name.to_string(), Some(entries))
}

fn config() -> Config {
    Config { root_path: "/work/project".to_string(), is_recursive: true, ..Default::default() }
}

fn paths(fc: &FileContext) -> Vec<String> {
    fc.file_entries.iter().map(|e| e.path.clone()).collect()
}

fn target(place: &[&str], kind: TargetKind) -> Target {
    Target {
        given: format!("/work/project/{}", place.join("/")),
        place: Some(place.iter().map(|s| s.to_string()).collect()),
        kind,
    }
}

#[test]
fn end_to_end_text_and_binary_with_exclude() {
    let root = Some(vec![file("a.txt", "hello\n"), file_at("b.bin", &[0x00, 0xFF], NOW)]);
    let mut cfg = config();
    cfg.exclude_patterns = vec!["*.bin".to_string()];
    let mut manager = ContextManager::new(cfg);
    manager.build_context("/work/project".to_string(), GitInfo::unavailable(), &root, &vec![], NOW).unwrap();
    let ctx = manager.context.unwrap();
    assert_eq!(ctx.file_ctx.file_entries.len(), 1);
    let e = &ctx.file_ctx.file_entries[0];
    assert_eq!(e.path, "a.txt");
    assert_eq!(e.lines, 1);
    assert!(!e.is_binary);
    assert_eq!(e.content.as_deref(), Some("hello\n"));
    assert!(ctx.tree_repr.contains("a.txt"));
    assert!(!ctx.tree_repr.contains("b.bin"));
}

#[test]
fn excluded_directory_hides_its_files_even_when_wanted() {
    let root = Some(vec![
        dir("src", vec![file("main.rs", "fn main() {}\n")]),
        dir("build", vec![file("gen.rs", "x\n"), dir("deep", vec![file("more.rs", "y\n")])]),
    ]);
    let mut cfg = config();
    cfg.include_patterns = vec!["**/*.rs".to_string()];
    cfg.exclude_patterns = vec!["build".to_string()];
    let fc = FileContext::from_root(cfg, &root, NOW).unwrap();
    assert_eq!(paths(&fc), vec!["src/main.rs".to_string()]);
}

#[test]
fn wanted_patterns_keep_only_matching_files() {
    let root = Some(vec![file("README.md", "# r\n"), dir("src", vec![file("lib.rs", "\n"), file("notes.txt", "n\n")])]);
    let mut cfg = config();
    cfg.include_patterns = vec!["src/**/*.rs".to_string()];
    let fc = FileContext::from_root(cfg, &root, NOW).unwrap();
    assert_eq!(paths(&fc), vec!["src/lib.rs".to_string()]);
}

#[test]
fn hidden_entries_are_skipped() {
    let root = Some(vec![file(".env", "SECRET=1\n"), dir(".git", vec![file("HEAD", "ref\n")]), file("a.txt", "a\n")]);
    let fc = FileContext::from_root(config(), &root, NOW).unwrap();
    assert_eq!(paths(&fc), vec!["a.txt".to_string()]);
}

#[test]
fn non_recursive_selection_stays_at_the_top() {
    let root = Some(vec![file("top.txt", "t\n"), dir("sub", vec![file("inner.txt", "i\n")])]);
    let mut cfg = config();
    cfg.is_recursive = false;
    let fc = FileContext::from_root(cfg, &root, NOW).unwrap();
    assert_eq!(paths(&fc), vec!["top.txt".to_string()]);
}

#[test]
fn records_come_in_name_order() {
    let root = Some(vec![file("b.txt", "b\n"), dir("a", vec![file("z.txt", "z\n")]), file("A.txt", "A\n")]);
    let fc = FileContext::from_root(config(), &root, NOW).unwrap();
    assert_eq!(paths(&fc), vec!["A.txt".to_string(), "a/z.txt".to_string(), "b.txt".to_string()]);
}

#[test]
fn line_counts_for_the_stated_examples() {
    assert_eq!(count_lines(&b"a\nb\nc".to_vec()), 3);
    assert_eq!(count_lines(&b"a\nb\nc\n".to_vec()), 3);
    assert_eq!(count_lines(&Vec::new()), 0);
    assert_eq!(count_lines(&b"\n".to_vec()), 1);
}

#[test]
fn binary_is_decided_by_the_first_512_bytes() {
    let mut late_zero = vec![b'a'; 600];
    late_zero[599] = 0;
    assert!(!is_binary_prefix(&late_zero));
    let mut early_zero = vec![b'a'; 600];
    early_zero[511] = 0;
    assert!(is_binary_prefix(&early_zero));
    let root = Some(vec![file_at("late.dat", &late_zero, NOW)]);
    let fc = FileContext::from_root(config(), &root, NOW).unwrap();
    assert!(!fc.file_entries[0].is_binary);
    assert_eq!(fc.file_entries[0].lines, 1);
}

#[test]
fn unreadable_and_undecodable_files() {
    let probe = FileProbe { size: Some(3), bytes: None, modified: Some(NOW) };
    let e = create_file_entry("locked.txt".to_string(), &probe).unwrap();
    assert!(e.is_binary);
    assert!(e.content.is_none());
    let fc = FileContext::from_root(config(), &Some(vec![Entry::File("locked.txt".to_string(), probe)]), NOW).unwrap();
    assert_eq!(paths(&fc), vec!["locked.txt".to_string()]);
    assert_eq!(fc.notices.len(), 1);
    assert_eq!(fc.notices[0].kind, NoticeKind::FileUnopened);
    let invalid = FileProbe { size: Some(2), bytes: Some(vec![0xC3, 0x28]), modified: Some(NOW) };
    let e = create_file_entry("latin1.txt".to_string(), &invalid).unwrap();
    assert!(!e.is_binary);
    assert!(e.content.is_none());
    assert_eq!(e.lines, 1);
    let no_meta = FileProbe { size: None, bytes: Some(b"x".to_vec()), modified: Some(NOW) };
    assert!(create_file_entry("gone.txt".to_string(), &no_meta).is_none());
}

#[test]
fn large_files_keep_no_text() {
    let big = FileProbe { size: Some(1_000_000), bytes: Some(b"x\ny\n".to_vec()), modified: Some(NOW) };
    let e = create_file_entry("big.txt".to_string(), &big).unwrap();
    assert!(!e.is_binary);
    assert!(e.content.is_none());
    assert_eq!(e.lines, 2);
    let small = FileProbe { size: Some(999_999), bytes: Some(b"x\ny\n".to_vec()), modified: Some(NOW) };
    assert_eq!(create_file_entry("small.txt".to_string(), &small).unwrap().content.as_deref(), Some("x\ny\n"));
}

#[test]
fn recent_only_keeps_files_of_the_last_seven_days() {
    let root = Some(vec![
        file_at("fresh.txt", b"f\n", NOW - DAY),
        file_at("edge.txt", b"e\n", NOW - 7 * DAY),
        file_at("stale.txt", b"s\n", NOW - 8 * DAY),
        Entry::File("unknown.txt".to_string(), FileProbe { size: Some(2), bytes: Some(b"u\n".to_vec()), modified: None }),
        Entry::File("nometa.txt".to_string(), FileProbe { size: None, bytes: None, modified: Some(NOW) }),
    ]);
    let mut cfg = config();
    cfg.recent_only = true;
    let fc = FileContext::from_root(cfg, &root, NOW).unwrap();
    assert_eq!(paths(&fc), vec!["edge.txt".to_string(), "fresh.txt".to_string()]);
    let notes: Vec<(NoticeKind, String)> = fc.notices.iter().map(|n| (n.kind, n.path.clone())).collect();
    assert_eq!(
        notes,
        vec![(NoticeKind::FileUnreadable, "nometa.txt".to_string()), (NoticeKind::TimestampUnreadable, "unknown.txt".to_string())]
    );
}

#[test]
fn unlisted_directory_stops_selection() {
    let root = Some(vec![file("a.txt", "a\n"), Entry::Dir("private".to_string(), None)]);
    let r = FileContext::from_root(config(), &root, NOW);
    assert_eq!(r.err(), Some(ContextError::Listing("private".to_string())));
    let r = FileContext::from_root(config(), &None, NOW);
    assert_eq!(r.err(), Some(ContextError::Listing(String::new())));
}

#[test]
fn unlisted_excluded_directory_is_not_entered() {
    let root = Some(vec![file("a.txt", "a\n"), Entry::Dir("private".to_string(), None)]);
    let mut cfg = config();
    cfg.exclude_patterns = vec!["private".to_string()];
    let fc = FileContext::from_root(cfg, &root, NOW).unwrap();
    assert_eq!(paths(&fc), vec!["a.txt".to_string()]);
}

#[test]
fn malformed_pattern_is_fatal() {
    let mut cfg = config();
    cfg.include_patterns = vec!["{a".to_string()];
    let r = FileContext::from_root(cfg, &Some(vec![]), NOW);
    assert_eq!(r.err(), Some(ContextError::BadPattern("{a".to_string())));
    assert!(PathFilter::new(&vec![], &vec!["[".to_string()]).is_err());
}

#[test]
fn path_filter_verdicts() {
    let f = PathFilter::new(&vec!["**/*.log".to_string()], &vec!["*.rs".to_string()]).unwrap();
    assert!(f.should_include("src/main.rs", true));
    assert!(!f.should_include("notes.txt", true));
    assert!(f.should_include("docs", false));
    assert!(!f.should_include("out/debug.log", true));
    assert!(!f.should_include("src/.cache/x.rs", true));
    assert!(!f.should_include(".github", false));
}

#[test]
fn targets_select_files_and_directories() {
    let src = vec![file("main.rs", "m\n"), dir("util", vec![file("a.rs", "a\nb\n")])];
    let targets = vec![
        target(&["README.md"], TargetKind::File(FileProbe { size: Some(2), bytes: Some(b"r\n".to_vec()), modified: Some(NOW) })),
        target(&["src"], TargetKind::Dir(Some(src))),
        Target { given: "/work/project/missing.rs".to_string(), place: None, kind: TargetKind::Missing },
        Target {
            given: "/elsewhere/x.txt".to_string(),
            place: None,
            kind: TargetKind::File(FileProbe { size: Some(2), bytes: Some(b"x\n".to_vec()), modified: Some(NOW) }),
        },
    ];
    let mut cfg = config();
    cfg.target_paths = vec!["README.md".into(), "src".into(), "missing.rs".into(), "/elsewhere/x.txt".into()];
    let fc = FileContext::from_target_paths(cfg, &targets, NOW).unwrap();
    assert_eq!(
        paths(&fc),
        vec!["README.md".to_string(), "src/main.rs".to_string(), "src/util/a.rs".to_string(), "/elsewhere/x.txt".to_string()]
    );
    assert_eq!(fc.notices.len(), 1);
    assert_eq!(fc.notices[0].kind, NoticeKind::TargetMissing);
    assert_eq!(fc.notices[0].path, "/work/project/missing.rs");
}

fn sample_root() -> Vec<Entry> {
    vec![
        file("README.md", "# r\n"),
        dir("src", vec![file("main.x", "m\n"), file("lib.x", "l\n"), dir("deep", vec![dir("er", vec![file("leaf.x", "z\n")])])]),
    ]
}

fn tree_for(targets: Vec<Target>) -> String {
    let mut cfg = config();
    cfg.target_paths = vec!["t".to_string()];
    let mut t = TreeContext::new(cfg);
    t.build_tree_from_targets(&Some(sample_root()), &targets, NOW).unwrap();
    t.tree_str
}

fn full_tree() -> String {
    let mut t = TreeContext::new(config());
    t.build_tree_from_root(&Some(sample_root()), NOW).unwrap();
    t.tree_str
}

#[test]
fn pruned_tree_shows_only_the_way_to_a_file_target() {
    let probe = FileProbe { size: Some(2), bytes: Some(b"m\n".to_vec()), modified: Some(NOW) };
    let tree = tree_for(vec![target(&["src", "main.x"], TargetKind::File(probe))]);
    let names: Vec<String> = tree.lines().skip(1).map(|l| l.trim_start_matches(|c: char| !c.is_alphanumeric()).to_string()).collect();
    assert_eq!(names, vec!["src".to_string(), "main.x".to_string()]);
    assert!(!tree.contains("lib.x"));
    assert!(!tree.contains("README.md"));
}

#[test]
fn root_target_gives_the_full_tree() {
    let tree = tree_for(vec![target(&[], TargetKind::Dir(Some(sample_root())))]);
    assert_eq!(tree, full_tree());
}

#[test]
fn directory_target_shows_everything_inside() {
    let tree = tree_for(vec![target(&["src"], TargetKind::Dir(None))]);
    for name in ["src", "main.x", "lib.x", "deep", "er", "leaf.x"] {
        assert!(tree.contains(name), "{} missing", name);
    }
    assert!(!tree.contains("README.md"));
}

#[test]
fn running_twice_gives_the_same_result() {
    let build = || {
        let mut manager = ContextManager::new(config());
        manager.build_context("/work/project".to_string(), GitInfo::unavailable(), &Some(sample_root()), &vec![], NOW).unwrap();
        manager.context.unwrap()
    };
    let (a, b) = (build(), build());
    assert_eq!(a.tree_repr, b.tree_repr);
    assert_eq!(a.file_ctx.file_entries.len(), b.file_ctx.file_entries.len());
    for (x, y) in a.file_ctx.file_entries.iter().zip(b.file_ctx.file_entries.iter()) {
        assert_eq!((&x.path, &x.content, x.size, x.lines, x.is_binary), (&y.path, &y.content, y.size, y.lines, y.is_binary));
    }
}

#[test]
fn tree_root_is_named_after_the_root_directory() {
    assert_eq!(repo_context::tree::root_name(&"/work/project/".to_string()), "project");
    assert_eq!(repo_context::tree::root_name(&"/".to_string()), "root");
    assert_eq!(repo_context::tree::root_name(&"..".to_string()), "root");
    assert_eq!(repo_context::tree::root_name(&"repo".to_string()), "repo");
}
