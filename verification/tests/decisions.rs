use recall::actions::{FileTask, SyncAction};
use recall::config::BackupConfig;
use recall::scanner::{
    decide_action, decide_by_content, Decision, EntryKind, EntryMeta, FileMeta, ReferenceEntry, SourceEntry,
    Timestamp,
};

fn config(check_content: bool) -> BackupConfig {
    BackupConfig::new("/src".to_string(), "/dest".to_string(), check_content, vec![], false, "")
}

fn task(old_path: Option<&str>) -> FileTask {
    FileTask::new(
        "a.txt".to_string(),
        "/src/a.txt".to_string(),
        "/dest/new/a.txt".to_string(),
        old_path.map(|p| p.to_string()),
    )
}

fn at(secs: i64, nanos: u32) -> Option<Timestamp> {
    Some(Timestamp { secs, nanos })
}

fn meta(len: u64, mode: u32, modified: Option<Timestamp>) -> FileMeta {
    FileMeta { len, mode: Some(mode), modified }
}

fn plain(file: FileMeta) -> SourceEntry {
    SourceEntry { is_dir: false, meta: Some(EntryMeta { kind: EntryKind::Plain, file }) }
}

fn symlink(target: Option<&str>) -> SourceEntry {
    SourceEntry {
        is_dir: false,
        meta: Some(EntryMeta {
            kind: EntryKind::Symlink(target.map(|t| t.to_string())),
            file: meta(7, 0o777, at(10, 0)),
        }),
    }
}

fn directory() -> SourceEntry {
    SourceEntry { is_dir: true, meta: Some(EntryMeta { kind: EntryKind::Plain, file: meta(4096, 0o755, at(10, 0)) }) }
}

fn reference(file: FileMeta) -> ReferenceEntry {
    ReferenceEntry { exists: true, symlink_target: None, meta: Some(file) }
}

fn absent() -> ReferenceEntry {
    ReferenceEntry { exists: false, symlink_target: None, meta: None }
}

const OLD: &str = "/dest/old/a.txt";

fn link() -> Decision {
    Decision::Act(SyncAction::Link(OLD.to_string()))
}

#[test]
fn first_backup_copies_files_as_new() {
    let d = decide_action(&task(None), &config(false), &plain(meta(5, 0o644, at(10, 0))), &absent());
    assert_eq!(d, Decision::Act(SyncAction::CopyNew));
}

#[test]
fn first_backup_creates_directories() {
    let d = decide_action(&task(None), &config(false), &directory(), &absent());
    assert_eq!(d, Decision::Act(SyncAction::CreateDir));
}

#[test]
fn first_backup_remakes_symlinks() {
    let d = decide_action(&task(None), &config(false), &symlink(Some("../target")), &absent());
    assert_eq!(d, Decision::Act(SyncAction::MakeSymlink("../target".to_string())));
}

#[test]
fn first_backup_ignores_what_is_said_of_a_reference() {
    let same = meta(5, 0o644, at(10, 0));
    let d = decide_action(&task(None), &config(false), &plain(same), &reference(same));
    assert_eq!(d, Decision::Act(SyncAction::CopyNew));
}

#[test]
fn first_backup_copies_a_link_that_cannot_be_read() {
    let d = decide_action(&task(None), &config(false), &symlink(None), &absent());
    assert_eq!(d, Decision::Act(SyncAction::CopyNew));
}

#[test]
fn first_backup_copies_an_entry_without_metadata() {
    let source = SourceEntry { is_dir: false, meta: None };
    let d = decide_action(&task(None), &config(true), &source, &absent());
    assert_eq!(d, Decision::Act(SyncAction::CopyNew));
}

#[test]
fn missing_counterpart_is_like_a_first_backup() {
    let file = plain(meta(5, 0o644, at(10, 0)));
    assert_eq!(decide_action(&task(Some(OLD)), &config(false), &file, &absent()), Decision::Act(SyncAction::CopyNew));
    assert_eq!(
        decide_action(&task(Some(OLD)), &config(false), &directory(), &absent()),
        Decision::Act(SyncAction::CreateDir)
    );
    assert_eq!(
        decide_action(&task(Some(OLD)), &config(false), &symlink(Some("t")), &absent()),
        Decision::Act(SyncAction::MakeSymlink("t".to_string()))
    );
}

#[test]
fn unreadable_source_is_skipped() {
    let source = SourceEntry { is_dir: false, meta: None };
    let d = decide_action(&task(Some(OLD)), &config(false), &source, &reference(meta(5, 0o644, at(10, 0))));
    assert_eq!(d, Decision::Act(SyncAction::Skip));
}

#[test]
fn unreadable_source_is_skipped_even_if_a_directory() {
    let source = SourceEntry { is_dir: true, meta: None };
    let d = decide_action(&task(Some(OLD)), &config(false), &source, &reference(meta(5, 0o644, at(10, 0))));
    assert_eq!(d, Decision::Act(SyncAction::Skip));
}

#[test]
fn directory_is_created_whatever_the_reference() {
    let same = meta(4096, 0o755, at(10, 0));
    let d = decide_action(&task(Some(OLD)), &config(true), &directory(), &reference(same));
    assert_eq!(d, Decision::Act(SyncAction::CreateDir));
}

fn link_to_directory(target: Option<&str>) -> SourceEntry {
    let mut source = symlink(target);
    source.is_dir = true;
    source
}

#[test]
fn link_to_a_directory_is_made_anew_in_a_first_backup() {
    let d = decide_action(&task(None), &config(false), &link_to_directory(Some("some/dir")), &absent());
    assert_eq!(d, Decision::Act(SyncAction::MakeSymlink("some/dir".to_string())));
    let d = decide_action(&task(None), &config(true), &link_to_directory(Some("/abs/dir")), &absent());
    assert_eq!(d, Decision::Act(SyncAction::MakeSymlink("/abs/dir".to_string())));
}

#[test]
fn link_to_a_directory_without_counterpart_is_made_anew() {
    let d = decide_action(&task(Some(OLD)), &config(false), &link_to_directory(Some("some/dir")), &absent());
    assert_eq!(d, Decision::Act(SyncAction::MakeSymlink("some/dir".to_string())));
}

#[test]
fn link_to_a_directory_is_never_created_as_directory() {
    let d = decide_action(
        &task(Some(OLD)),
        &config(false),
        &link_to_directory(Some("some/dir")),
        &reference(meta(7, 0o777, at(10, 0))),
    );
    assert_eq!(d, Decision::Act(SyncAction::MakeSymlink("some/dir".to_string())));
    let same = ReferenceEntry { exists: true, symlink_target: Some("some/dir".to_string()), meta: None };
    let d = decide_action(&task(Some(OLD)), &config(true), &link_to_directory(Some("some/dir")), &same);
    assert_eq!(d, link());
    let other = ReferenceEntry { exists: true, symlink_target: Some("other/dir".to_string()), meta: None };
    let d = decide_action(&task(Some(OLD)), &config(false), &link_to_directory(Some("some/dir")), &other);
    assert_eq!(d, Decision::Act(SyncAction::MakeSymlink("some/dir".to_string())));
}

#[test]
fn link_to_a_directory_that_cannot_be_read() {
    let d = decide_action(&task(None), &config(false), &link_to_directory(None), &absent());
    assert_eq!(d, Decision::Act(SyncAction::CopyNew));
    let d = decide_action(
        &task(Some(OLD)),
        &config(false),
        &link_to_directory(None),
        &reference(meta(7, 0o777, at(10, 0))),
    );
    assert_eq!(d, Decision::Act(SyncAction::Skip));
}

#[test]
fn directory_without_metadata_is_created_in_a_first_backup() {
    let source = SourceEntry { is_dir: true, meta: None };
    let d = decide_action(&task(None), &config(false), &source, &absent());
    assert_eq!(d, Decision::Act(SyncAction::CreateDir));
}

#[test]
fn dangling_link_is_made_anew() {
    let d = decide_action(&task(None), &config(false), &symlink(Some("nowhere")), &absent());
    assert_eq!(d, Decision::Act(SyncAction::MakeSymlink("nowhere".to_string())));
}

#[test]
fn symlink_with_same_target_is_linked() {
    let old = ReferenceEntry { exists: true, symlink_target: Some("../target".to_string()), meta: None };
    let d = decide_action(&task(Some(OLD)), &config(true), &symlink(Some("../target")), &old);
    assert_eq!(d, link());
}

#[test]
fn symlink_with_other_target_is_remade() {
    let old = ReferenceEntry { exists: true, symlink_target: Some("../elsewhere".to_string()), meta: None };
    let d = decide_action(&task(Some(OLD)), &config(false), &symlink(Some("../target")), &old);
    assert_eq!(d, Decision::Act(SyncAction::MakeSymlink("../target".to_string())));
}

#[test]
fn symlink_over_a_former_file_is_remade() {
    let d = decide_action(
        &task(Some(OLD)),
        &config(false),
        &symlink(Some("../target")),
        &reference(meta(7, 0o777, at(10, 0))),
    );
    assert_eq!(d, Decision::Act(SyncAction::MakeSymlink("../target".to_string())));
}

#[test]
fn symlink_that_cannot_be_read_is_skipped() {
    let old = ReferenceEntry { exists: true, symlink_target: Some("x".to_string()), meta: None };
    let d = decide_action(&task(Some(OLD)), &config(false), &symlink(None), &old);
    assert_eq!(d, Decision::Act(SyncAction::Skip));
}

#[test]
fn unreadable_reference_metadata_means_copy_new() {
    let old = ReferenceEntry { exists: true, symlink_target: None, meta: None };
    let d = decide_action(&task(Some(OLD)), &config(true), &plain(meta(5, 0o644, at(10, 0))), &old);
    assert_eq!(d, Decision::Act(SyncAction::CopyNew));
}

#[test]
fn size_change_is_modification_with_equal_mtime() {
    let d = decide_action(
        &task(Some(OLD)),
        &config(false),
        &plain(meta(6, 0o644, at(10, 0))),
        &reference(meta(5, 0o644, at(10, 0))),
    );
    assert_eq!(d, Decision::Act(SyncAction::CopyModified));
}

#[test]
fn size_change_is_modification_with_content_check() {
    let d = decide_action(
        &task(Some(OLD)),
        &config(true),
        &plain(meta(4, 0o644, at(10, 0))),
        &reference(meta(5, 0o644, at(99, 0))),
    );
    assert_eq!(d, Decision::Act(SyncAction::CopyModified));
}

#[test]
fn permission_change_is_modification() {
    let d = decide_action(
        &task(Some(OLD)),
        &config(false),
        &plain(meta(5, 0o600, at(10, 0))),
        &reference(meta(5, 0o644, at(10, 0))),
    );
    assert_eq!(d, Decision::Act(SyncAction::CopyModified));
}

#[test]
fn permission_change_is_modification_before_any_content_check() {
    let d = decide_action(
        &task(Some(OLD)),
        &config(true),
        &plain(meta(5, 0o600, at(10, 0))),
        &reference(meta(5, 0o644, at(10, 0))),
    );
    assert_eq!(d, Decision::Act(SyncAction::CopyModified));
}

#[test]
fn without_permission_bits_nothing_differs() {
    let source = FileMeta { len: 5, mode: None, modified: at(10, 0) };
    let old = FileMeta { len: 5, mode: None, modified: at(10, 0) };
    let d = decide_action(&task(Some(OLD)), &config(false), &plain(source), &reference(old));
    assert_eq!(d, link());
}

#[test]
fn mtime_999_ms_apart_is_unchanged() {
    let d = decide_action(
        &task(Some(OLD)),
        &config(false),
        &plain(meta(5, 0o644, at(100, 999_000_000))),
        &reference(meta(5, 0o644, at(100, 0))),
    );
    assert_eq!(d, link());
}

#[test]
fn mtime_999_ms_apart_is_unchanged_the_other_way() {
    let d = decide_action(
        &task(Some(OLD)),
        &config(false),
        &plain(meta(5, 0o644, at(99, 500_000_000))),
        &reference(meta(5, 0o644, at(100, 499_000_000))),
    );
    assert_eq!(d, link());
}

#[test]
fn mtime_1001_ms_apart_is_modification() {
    let d = decide_action(
        &task(Some(OLD)),
        &config(false),
        &plain(meta(5, 0o644, at(101, 1_000_000))),
        &reference(meta(5, 0o644, at(100, 0))),
    );
    assert_eq!(d, Decision::Act(SyncAction::CopyModified));
}

#[test]
fn mtime_one_second_apart_is_modification() {
    let d = decide_action(
        &task(Some(OLD)),
        &config(false),
        &plain(meta(5, 0o644, at(101, 0))),
        &reference(meta(5, 0o644, at(100, 0))),
    );
    assert_eq!(d, Decision::Act(SyncAction::CopyModified));
}

#[test]
fn mtime_a_nanosecond_short_of_a_second_is_unchanged() {
    let d = decide_action(
        &task(Some(OLD)),
        &config(false),
        &plain(meta(5, 0o644, at(100, 0))),
        &reference(meta(5, 0o644, at(100, 999_999_999))),
    );
    assert_eq!(d, link());
}

#[test]
fn mtime_before_the_epoch_compares_too() {
    let d = decide_action(
        &task(Some(OLD)),
        &config(false),
        &plain(meta(5, 0o644, at(-1, 600_000_000))),
        &reference(meta(5, 0o644, at(0, 500_000_000))),
    );
    assert_eq!(d, link());
    let d = decide_action(
        &task(Some(OLD)),
        &config(false),
        &plain(meta(5, 0o644, at(i64::MIN, 0))),
        &reference(meta(5, 0o644, at(i64::MAX, 999_999_999))),
    );
    assert_eq!(d, Decision::Act(SyncAction::CopyModified));
}

#[test]
fn unknown_mtime_is_modification() {
    let d = decide_action(
        &task(Some(OLD)),
        &config(false),
        &plain(meta(5, 0o644, None)),
        &reference(meta(5, 0o644, at(100, 0))),
    );
    assert_eq!(d, Decision::Act(SyncAction::CopyModified));
    let d = decide_action(
        &task(Some(OLD)),
        &config(false),
        &plain(meta(5, 0o644, None)),
        &reference(meta(5, 0o644, None)),
    );
    assert_eq!(d, Decision::Act(SyncAction::CopyModified));
}

#[test]
fn content_check_asks_for_hashes_when_mtime_matches() {
    let same = meta(5, 0o644, at(100, 0));
    let d = decide_action(&task(Some(OLD)), &config(true), &plain(same), &reference(same));
    assert_eq!(d, Decision::CompareContent(OLD.to_string()));
}

#[test]
fn content_check_asks_for_hashes_when_mtime_differs() {
    let d = decide_action(
        &task(Some(OLD)),
        &config(true),
        &plain(meta(5, 0o644, at(500, 0))),
        &reference(meta(5, 0o644, at(100, 0))),
    );
    assert_eq!(d, Decision::CompareContent(OLD.to_string()));
}

#[test]
fn same_mtime_other_content_with_and_without_check() {
    let same = meta(5, 0o644, at(100, 0));
    let unchecked = decide_action(&task(Some(OLD)), &config(false), &plain(same), &reference(same));
    assert_eq!(unchecked, link());
    let checked = decide_action(&task(Some(OLD)), &config(true), &plain(same), &reference(same));
    let reference_path = match checked {
        Decision::CompareContent(p) => p,
        other => panic!("expected a content check, got {:?}", other),
    };
    assert_eq!(decide_by_content(reference_path, Some(1), Some(2)), SyncAction::CopyModified);
}

#[test]
fn equal_hashes_link() {
    assert_eq!(decide_by_content(OLD.to_string(), Some(42), Some(42)), SyncAction::Link(OLD.to_string()));
    assert_eq!(decide_by_content(OLD.to_string(), Some(0), Some(0)), SyncAction::Link(OLD.to_string()));
}

#[test]
fn unequal_hashes_copy() {
    assert_eq!(decide_by_content(OLD.to_string(), Some(42), Some(43)), SyncAction::CopyModified);
}

#[test]
fn failed_hash_on_either_side_copies() {
    assert_eq!(decide_by_content(OLD.to_string(), None, Some(42)), SyncAction::CopyModified);
    assert_eq!(decide_by_content(OLD.to_string(), Some(42), None), SyncAction::CopyModified);
    assert_eq!(decide_by_content(OLD.to_string(), None, None), SyncAction::CopyModified);
}

#[test]
fn unchanged_tree_is_linked_on_the_second_run() {
    let file = meta(12, 0o644, at(1_700_000_000, 123_456_789));
    assert_eq!(decide_action(&task(Some(OLD)), &config(false), &plain(file), &reference(file)), link());
    let old_link = ReferenceEntry { exists: true, symlink_target: Some("t".to_string()), meta: None };
    assert_eq!(decide_action(&task(Some(OLD)), &config(false), &symlink(Some("t")), &old_link), link());
    assert_eq!(
        decide_action(&task(Some(OLD)), &config(false), &directory(), &reference(file)),
        Decision::Act(SyncAction::CreateDir)
    );
}

#[test]
fn timestamps_close_and_apart() {
    let a = Timestamp { secs: 5, nanos: 0 };
    assert!(a.is_close_to(&a));
    assert!(a.is_close_to(&Timestamp { secs: 4, nanos: 1 }));
    assert!(!a.is_close_to(&Timestamp { secs: 4, nanos: 0 }));
    assert!(!a.is_close_to(&Timestamp { secs: 6, nanos: 0 }));
    assert!(a.is_close_to(&Timestamp { secs: 5, nanos: 999_999_999 }));
}

#[test]
fn cloned_action_is_equal() {
    let a = SyncAction::Link("x".to_string());
    assert_eq!(a.clone(), a);
    let t = task(Some(OLD));
    assert_eq!(t.clone(), t);
}
