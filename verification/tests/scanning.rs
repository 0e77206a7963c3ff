use recall::actions::FileTask;
use recall::config::BackupConfig;
use recall::scanner::{ancestors, compile_patterns, excluded, relative_to, Root, ScanStep, Scanner, QUEUE_CAPACITY};
use recall::utils::{matches_exclude_pattern, Platform};

fn strings(items: &[&str]) -> Vec<String> {
    items.iter().map(|s| s.to_string()).collect()
}

fn root(path: &str) -> Root {
    Root { path: path.to_string(), resolved: path.to_string() }
}

fn scanner(patterns: &[&str], latest: Option<&str>) -> Scanner {
    let config = BackupConfig::new("/src".to_string(), "/dest".to_string(), false, strings(patterns), false, "");
    let (scanner, rejected) =
        Scanner::new(Platform::Posix, &config, root("/src"), root("/dest/new.partial"), latest.map(root));
    assert!(rejected.is_empty());
    scanner
}

#[test]
fn valid_patterns_compile_in_order() {
    let out = compile_patterns(&strings(&["*.log", "node_modules", "a/**/b"]));
    let texts: Vec<&str> = out.patterns.iter().map(|p| p.as_str()).collect();
    assert_eq!(texts, vec!["*.log", "node_modules", "a/**/b"]);
    assert!(out.rejected.is_empty());
}

#[test]
fn malformed_patterns_are_set_aside() {
    let out = compile_patterns(&strings(&["*.log", "[", "a**b", "***", "ok"]));
    let texts: Vec<&str> = out.patterns.iter().map(|p| p.as_str()).collect();
    assert_eq!(texts, vec!["*.log", "ok"]);
    let rejected: Vec<&str> = out.rejected.iter().map(|r| r.pattern.as_str()).collect();
    assert_eq!(rejected, vec!["[", "a**b", "***"]);
}

#[test]
fn rejected_pattern_says_why() {
    let out = compile_patterns(&strings(&["["]));
    assert_eq!(out.rejected.len(), 1);
    assert_eq!(out.rejected[0].reason, "Pattern syntax error near position 0: invalid range pattern");
}

#[test]
fn no_patterns_compile_to_none() {
    let out = compile_patterns(&Vec::new());
    assert!(out.patterns.is_empty());
    assert!(out.rejected.is_empty());
}

#[test]
fn any_matching_pattern_excludes() {
    let out = compile_patterns(&strings(&["*.log", "node_modules"]));
    assert!(matches_exclude_pattern("file.log", &out.patterns));
    assert!(matches_exclude_pattern("dir/file.log", &out.patterns));
    assert!(matches_exclude_pattern("node_modules", &out.patterns));
    assert!(!matches_exclude_pattern("src/main.rs", &out.patterns));
    assert!(!matches_exclude_pattern("a/node_modules", &out.patterns));
    assert!(!matches_exclude_pattern("anything", &[]));
}

#[test]
fn excluded_directory_hides_descendants() {
    let out = compile_patterns(&strings(&["node_modules", "build"]));
    assert!(excluded(Platform::Posix, "node_modules", &out.patterns));
    assert!(excluded(Platform::Posix, "node_modules/pkg/index.js", &out.patterns));
    assert!(excluded(Platform::Posix, "build/deep/er/file", &out.patterns));
    assert!(!matches_exclude_pattern("node_modules/pkg/index.js", &out.patterns));
    assert!(!excluded(Platform::Posix, "src/node_modules", &out.patterns));
    assert!(!excluded(Platform::Posix, "node_modules_2/file", &out.patterns));
    assert!(!excluded(Platform::Posix, "src/main.rs", &out.patterns));
    assert!(!excluded(Platform::Posix, "", &out.patterns));
}

#[test]
fn exclusion_below_the_top() {
    let out = compile_patterns(&strings(&["a/b"]));
    assert!(excluded(Platform::Posix, "a/b", &out.patterns));
    assert!(excluded(Platform::Posix, "a/b/c/d", &out.patterns));
    assert!(!excluded(Platform::Posix, "a", &out.patterns));
    assert!(!excluded(Platform::Posix, "a/bc", &out.patterns));
}

#[test]
fn pattern_that_matches_the_root_excludes_everything() {
    let out = compile_patterns(&strings(&["*"]));
    assert!(excluded(Platform::Posix, "", &out.patterns));
    assert!(excluded(Platform::Posix, "a", &out.patterns));
    assert!(excluded(Platform::Posix, "a/b", &out.patterns));
}

#[test]
fn windows_paths_break_at_either_separator() {
    let out = compile_patterns(&strings(&["cache"]));
    assert!(excluded(Platform::Windows, "cache\\x\\y", &out.patterns));
    assert!(excluded(Platform::Windows, "cache/x", &out.patterns));
    assert!(!excluded(Platform::Posix, "cache\\x\\y", &out.patterns));
}

#[test]
fn relative_path_below_a_base() {
    assert_eq!(relative_to(Platform::Posix, "/src/a/b.txt", "/src"), Some("a/b.txt".to_string()));
    assert_eq!(relative_to(Platform::Posix, "/src/a/b.txt", "/src/"), Some("a/b.txt".to_string()));
    assert_eq!(relative_to(Platform::Posix, "/src", "/src"), Some(String::new()));
    assert_eq!(relative_to(Platform::Posix, "/srcx/a", "/src"), None);
    assert_eq!(relative_to(Platform::Posix, "/other/a", "/src"), None);
    assert_eq!(relative_to(Platform::Posix, "/sr", "/src"), None);
    assert_eq!(relative_to(Platform::Posix, "a/b", ""), Some("a/b".to_string()));
    assert_eq!(relative_to(Platform::Windows, "C:\\src\\a", "C:\\src"), Some("a".to_string()));
    assert_eq!(relative_to(Platform::Posix, "C:\\src\\a", "C:\\src"), None);
}

#[test]
fn task_paths_on_a_first_backup() {
    let step = scanner(&[], None).scan_entry("/src/docs/a.txt");
    assert_eq!(
        step,
        ScanStep::Task(FileTask::new(
            "docs/a.txt".to_string(),
            "/src/docs/a.txt".to_string(),
            "/dest/new.partial/docs/a.txt".to_string(),
            None,
        ))
    );
}

#[test]
fn task_paths_with_a_previous_generation() {
    let step = scanner(&[], Some("/dest/2024-01-01_00-00-00")).scan_entry("/src/docs/a.txt");
    assert_eq!(
        step,
        ScanStep::Task(FileTask::new(
            "docs/a.txt".to_string(),
            "/src/docs/a.txt".to_string(),
            "/dest/new.partial/docs/a.txt".to_string(),
            Some("/dest/2024-01-01_00-00-00/docs/a.txt".to_string()),
        ))
    );
}

#[test]
fn task_for_the_root_itself() {
    let step = scanner(&[], Some("/dest/old")).scan_entry("/src");
    assert_eq!(
        step,
        ScanStep::Task(FileTask::new(
            String::new(),
            "/src".to_string(),
            "/dest/new.partial/".to_string(),
            Some("/dest/old/".to_string()),
        ))
    );
}

#[test]
fn excluded_entries_give_no_task() {
    let s = scanner(&["target", "*.tmp"], None);
    assert_eq!(s.scan_entry("/src/target"), ScanStep::Excluded);
    assert_eq!(s.scan_entry("/src/target/debug/app"), ScanStep::Excluded);
    assert_eq!(s.scan_entry("/src/x.tmp"), ScanStep::Excluded);
    assert!(matches!(s.scan_entry("/src/x.txt"), ScanStep::Task(_)));
}

#[test]
fn entries_outside_the_source_are_told_apart() {
    let s = scanner(&["target"], None);
    assert_eq!(s.scan_entry("/elsewhere/file"), ScanStep::Outside);
    assert_eq!(s.scan_entry("/srcfile"), ScanStep::Outside);
}

#[test]
fn walk_is_let_into_what_no_pattern_matches() {
    let s = scanner(&["target", "*.tmp"], None);
    assert!(s.admits("/src"));
    assert!(s.admits("/src/docs"));
    assert!(!s.admits("/src/target"));
    assert!(!s.admits("/src/x.tmp"));
    assert!(s.admits("/src/target/debug"));
    assert!(s.admits("/elsewhere"));
}

#[test]
fn scanner_drops_malformed_patterns_and_reports_them() {
    let config =
        BackupConfig::new("/src".to_string(), "/dest".to_string(), false, strings(&["[", "keep"]), false, "");
    let (scanner, rejected) = Scanner::new(Platform::Posix, &config, root("/src"), root("/dest/n"), None);
    assert_eq!(rejected.len(), 1);
    assert_eq!(rejected[0].pattern, "[");
    assert_eq!(scanner.patterns.len(), 1);
    assert_eq!(scanner.scan_entry("/src/keep/x"), ScanStep::Excluded);
    assert!(matches!(scanner.scan_entry("/src/["), ScanStep::Task(_)));
}

#[test]
fn windows_tasks_get_long_path_forms() {
    let config = BackupConfig::new("src".to_string(), "dest".to_string(), false, vec![], false, "");
    let source = Root { path: "src".to_string(), resolved: "C:\\work\\src".to_string() };
    let backup = Root { path: "D:/backups/new.partial".to_string(), resolved: "D:/backups/new.partial".to_string() };
    let latest = Root { path: "\\\\?\\D:\\backups\\old".to_string(), resolved: "ignored".to_string() };
    let (scanner, _) = Scanner::new(Platform::Windows, &config, source, backup, Some(latest));
    assert_eq!(
        scanner.scan_entry("src\\a\\b.txt"),
        ScanStep::Task(FileTask::new(
            "a\\b.txt".to_string(),
            "\\\\?\\C:\\work\\src\\a\\b.txt".to_string(),
            "\\\\?\\D:\\backups\\new.partial\\a\\b.txt".to_string(),
            Some("\\\\?\\D:\\backups\\old\\a\\b.txt".to_string()),
        ))
    );
}

#[test]
fn queue_holds_a_thousand_tasks() {
    assert_eq!(QUEUE_CAPACITY, 1000);
}

#[test]
fn ancestors_from_the_root_down() {
    assert_eq!(ancestors(Platform::Posix, "a/bc/d.txt"), vec!["", "a", "a/bc", "a/bc/d.txt"]);
    assert_eq!(ancestors(Platform::Posix, "file"), vec!["", "file"]);
    assert_eq!(ancestors(Platform::Posix, ""), vec![""]);
    assert_eq!(ancestors(Platform::Posix, "a\\b"), vec!["", "a\\b"]);
    assert_eq!(ancestors(Platform::Windows, "a\\b/c"), vec!["", "a", "a\\b", "a\\b/c"]);
    assert_eq!(ancestors(Platform::Posix, "/a"), vec!["", "/a"]);
    assert_eq!(ancestors(Platform::Posix, "a/"), vec!["", "a", "a/"]);
}

#[test]
fn task_is_built_even_for_what_is_excluded() {
    let s = scanner(&["target"], Some("/dest/old"));
    assert_eq!(
        s.task_for("/src/target/x"),
        Some(FileTask::new(
            "target/x".to_string(),
            "/src/target/x".to_string(),
            "/dest/new.partial/target/x".to_string(),
            Some("/dest/old/target/x".to_string()),
        ))
    );
    assert_eq!(s.task_for("/other/x"), None);
}
