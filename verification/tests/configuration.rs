use recall::config::{default_ignore_file, BackupConfig, IGNORE_FILE_NAME};
use recall::store::Profile;
use recall::utils::Platform;

fn strings(items: &[&str]) -> Vec<String> {
    items.iter().map(|s| s.to_string()).collect()
}

#[test]
fn ignore_file_name() {
    assert_eq!(IGNORE_FILE_NAME, ".recallignore");
}

#[test]
fn config_keeps_what_it_is_given() {
    let c = BackupConfig::new("/src".to_string(), "/dest".to_string(), true, strings(&["a", "b"]), true, "");
    assert_eq!(c.source, "/src");
    assert_eq!(c.destination, "/dest");
    assert!(c.check_content);
    assert!(c.dry_run);
    assert_eq!(c.exclude_patterns, strings(&["a", "b"]));
}

#[test]
fn ignore_file_adds_patterns_after_those_given() {
    let c = BackupConfig::new(
        "/src".to_string(),
        "/dest".to_string(),
        false,
        strings(&["*.log"]),
        false,
        ".git\nnode_modules\n",
    );
    assert_eq!(c.exclude_patterns, strings(&["*.log", ".git", "node_modules"]));
}

#[test]
fn comments_and_empty_lines_are_left_out() {
    let content = "# a comment\n\n   \n.git\n  # indented comment\n\t target \t\r\nlast";
    let c = BackupConfig::new("/s".to_string(), "/d".to_string(), false, vec![], false, content);
    assert_eq!(c.exclude_patterns, strings(&[".git", "target", "last"]));
}

#[test]
fn hash_inside_a_line_is_part_of_the_pattern() {
    let c = BackupConfig::new("/s".to_string(), "/d".to_string(), false, vec![], false, "a#b\n#c\n");
    assert_eq!(c.exclude_patterns, strings(&["a#b"]));
}

#[test]
fn no_pattern_is_kept_twice() {
    let c = BackupConfig::new(
        "/s".to_string(),
        "/d".to_string(),
        false,
        strings(&["a", "b", "a"]),
        false,
        "b\nc\n c \nc\na\n",
    );
    assert_eq!(c.exclude_patterns, strings(&["a", "b", "c"]));
}

#[test]
fn windows_line_endings_are_trimmed_away() {
    let c = BackupConfig::new("/s".to_string(), "/d".to_string(), false, vec![], false, "a\r\nb\r\n");
    assert_eq!(c.exclude_patterns, strings(&["a", "b"]));
}

#[test]
fn profile_gives_config_below_the_project() {
    let profile = Profile {
        source: "/home/me/Data".to_string(),
        destination: "/mnt/backups".to_string(),
        check_content: true,
        exclude: strings(&["*.tmp"]),
    };
    let c = BackupConfig::from_profile(Platform::Posix, &profile, "Data", false, ".git\n*.tmp\n");
    assert_eq!(c.source, "/home/me/Data");
    assert_eq!(c.destination, "/mnt/backups/Data");
    assert!(c.check_content);
    assert!(!c.dry_run);
    assert_eq!(c.exclude_patterns, strings(&["*.tmp", ".git"]));
}

#[test]
fn profile_on_windows_joins_with_backslash() {
    let profile = Profile {
        source: "C:\\Users\\Data".to_string(),
        destination: "D:\\Backups".to_string(),
        check_content: false,
        exclude: vec![],
    };
    let c = BackupConfig::from_profile(Platform::Windows, &profile, "Data", true, "");
    assert_eq!(c.destination, "D:\\Backups\\Data");
    assert!(c.dry_run);
    assert!(c.exclude_patterns.is_empty());
}

#[test]
fn default_ignore_file_on_posix() {
    assert_eq!(
        default_ignore_file(Platform::Posix),
        "# Recall Ignore File\n# Add patterns to exclude from backup (Glob style)\n\n# --- Common ---\n.git\n.svn\n.DS_Store\nThumbs.db\n\n# --- Linux/macOS ---\n/proc\n/sys\n/dev\n"
    );
}

#[test]
fn default_ignore_file_on_windows() {
    assert_eq!(
        default_ignore_file(Platform::Windows),
        "# Recall Ignore File\n# Add patterns to exclude from backup (Glob style)\n\n# --- Common ---\n.git\n.svn\n.DS_Store\nThumbs.db\n\n# --- Windows System ---\nSystem Volume Information\n$RECYCLE.BIN\nRecovery\npagefile.sys\nhiberfil.sys\nswapfile.sys\nDumpStack.log.tmp\n"
    );
}

#[test]
fn default_ignore_file_reads_back_as_its_patterns() {
    let content = default_ignore_file(Platform::Posix);
    let c = BackupConfig::new("/s".to_string(), "/d".to_string(), false, vec![], false, &content);
    assert_eq!(c.exclude_patterns, strings(&[".git", ".svn", ".DS_Store", "Thumbs.db", "/proc", "/sys", "/dev"]));
    let content = default_ignore_file(Platform::Windows);
    let c = BackupConfig::new("/s".to_string(), "/d".to_string(), false, vec![], false, &content);
    assert_eq!(
        c.exclude_patterns,
        strings(&[
            ".git",
            ".svn",
            ".DS_Store",
            "Thumbs.db",
            "System Volume Information",
            "$RECYCLE.BIN",
            "Recovery",
            "pagefile.sys",
            "hiberfil.sys",
            "swapfile.sys",
            "DumpStack.log.tmp"
        ])
    );
}

#[test]
fn patterns_agree_with_line_by_line_reading() {
    let content = "x\n #no\ny \n\n\u{a0}z\u{3000}\nx\n\ttab\n";
    let mut expected: Vec<String> = vec!["given".to_string()];
    for line in content.lines() {
        let line = line.trim();
        if line.is_empty() || line.starts_with('#') {
            continue;
        }
        if !expected.contains(&line.to_string()) {
            expected.push(line.to_string());
        }
    }
    let c = BackupConfig::new("/s".to_string(), "/d".to_string(), false, strings(&["given"]), false, content);
    assert_eq!(c.exclude_patterns, expected);
}

#[test]
fn copies_are_equal() {
    let c = BackupConfig::new("/s".to_string(), "/d".to_string(), true, strings(&["a", "b"]), false, "c\n");
    assert_eq!(c.clone(), c);
    let profile = Profile {
        source: "/home/me".to_string(),
        destination: "/mnt".to_string(),
        check_content: true,
        exclude: strings(&["x", "y"]),
    };
    assert_eq!(profile.clone(), profile);
}
