use recall::actions::{FileTask, SyncAction};
use recall::executor::{BackupExecutor, CommitError, CommitStep, FsOp, MarkerState, SymlinkKind};
use recall::utils::Platform;

fn task() -> FileTask {
    FileTask::new("d/a.txt".to_string(), "/src/d/a.txt".to_string(), "/dest/g/d/a.txt".to_string(), None)
}

fn ensure_parent() -> FsOp {
    FsOp::EnsureParentDir { of: "/dest/g/d/a.txt".to_string() }
}

#[test]
fn executor_remembers_dry_run() {
    assert!(BackupExecutor::new(true).dry_run());
    assert!(!BackupExecutor::new(false).dry_run());
}

#[test]
fn dry_run_plans_nothing_for_any_action() {
    let executor = BackupExecutor::new(true);
    let actions = [
        SyncAction::CopyNew,
        SyncAction::CopyModified,
        SyncAction::Link("/old/a".to_string()),
        SyncAction::MakeSymlink("t".to_string()),
        SyncAction::CreateDir,
        SyncAction::Skip,
    ];
    for action in actions.iter() {
        let plan = executor.process_task(Platform::Posix, &task(), action, false);
        assert!(plan.ops.is_empty());
        assert!(!plan.stamp_times);
    }
}

#[test]
fn copy_ensures_parent_copies_and_reads_times() {
    let executor = BackupExecutor::new(false);
    for action in [SyncAction::CopyNew, SyncAction::CopyModified].iter() {
        let plan = executor.process_task(Platform::Posix, &task(), action, false);
        assert_eq!(
            plan.ops,
            vec![
                ensure_parent(),
                FsOp::CopyFile { from: "/src/d/a.txt".to_string(), to: "/dest/g/d/a.txt".to_string() },
                FsOp::ReadTimes { from: "/src/d/a.txt".to_string() },
            ]
        );
        assert!(plan.stamp_times);
    }
}

#[test]
fn link_ensures_parent_and_hardlinks() {
    let plan = BackupExecutor::new(false).process_task(
        Platform::Posix,
        &task(),
        &SyncAction::Link("/dest/old/d/a.txt".to_string()),
        false,
    );
    assert_eq!(
        plan.ops,
        vec![
            ensure_parent(),
            FsOp::HardLink { existing: "/dest/old/d/a.txt".to_string(), link: "/dest/g/d/a.txt".to_string() },
        ]
    );
    assert!(!plan.stamp_times);
}

#[test]
fn symlink_on_posix_has_one_kind() {
    for source_is_dir in [false, true] {
        let plan = BackupExecutor::new(false).process_task(
            Platform::Posix,
            &task(),
            &SyncAction::MakeSymlink("../t".to_string()),
            source_is_dir,
        );
        assert_eq!(
            plan.ops,
            vec![
                ensure_parent(),
                FsOp::Symlink {
                    target: "../t".to_string(),
                    link: "/dest/g/d/a.txt".to_string(),
                    kind: SymlinkKind::Plain
                },
            ]
        );
        assert!(!plan.stamp_times);
    }
}

#[test]
fn symlink_on_windows_goes_by_the_source() {
    let executor = BackupExecutor::new(false);
    let action = SyncAction::MakeSymlink("t".to_string());
    let plan = executor.process_task(Platform::Windows, &task(), &action, true);
    assert_eq!(
        plan.ops[1],
        FsOp::Symlink { target: "t".to_string(), link: "/dest/g/d/a.txt".to_string(), kind: SymlinkKind::Directory }
    );
    let plan = executor.process_task(Platform::Windows, &task(), &action, false);
    assert_eq!(
        plan.ops[1],
        FsOp::Symlink { target: "t".to_string(), link: "/dest/g/d/a.txt".to_string(), kind: SymlinkKind::File }
    );
}

#[test]
fn create_dir_ensures_the_directory_itself() {
    let plan = BackupExecutor::new(false).process_task(Platform::Posix, &task(), &SyncAction::CreateDir, true);
    assert_eq!(plan.ops, vec![FsOp::EnsureDir { path: "/dest/g/d/a.txt".to_string() }]);
    assert!(!plan.stamp_times);
}

#[test]
fn skip_does_nothing() {
    let plan = BackupExecutor::new(false).process_task(Platform::Posix, &task(), &SyncAction::Skip, false);
    assert!(plan.ops.is_empty());
    assert!(!plan.stamp_times);
}

#[test]
fn times_are_set_directly_on_a_writable_copy() {
    let ops = BackupExecutor::new(false).finish_copy(&task(), false);
    assert_eq!(ops, vec![FsOp::SetTimes { path: "/dest/g/d/a.txt".to_string() }]);
}

#[test]
fn read_only_copy_is_unlocked_and_locked_again() {
    let ops = BackupExecutor::new(false).finish_copy(&task(), true);
    assert_eq!(
        ops,
        vec![
            FsOp::SetReadonly { path: "/dest/g/d/a.txt".to_string(), readonly: false },
            FsOp::SetTimes { path: "/dest/g/d/a.txt".to_string() },
            FsOp::SetReadonly { path: "/dest/g/d/a.txt".to_string(), readonly: true },
        ]
    );
}

fn rename() -> CommitStep {
    CommitStep { op: FsOp::Rename { from: "/d/t.partial".to_string(), to: "/d/t".to_string() }, required: true }
}

fn point(kind: SymlinkKind, required: bool) -> CommitStep {
    CommitStep {
        op: FsOp::Symlink { target: "/d/t".to_string(), link: "/d/current".to_string(), kind },
        required,
    }
}

#[test]
fn commit_refuses_an_existing_destination() {
    let plan =
        BackupExecutor::commit_backup(Platform::Posix, "/d/t.partial", "/d/t", "/d/current", true, MarkerState::Other);
    assert_eq!(plan, Err(CommitError::DestinationExists("/d/t".to_string())));
}

#[test]
fn commit_renames_first_and_sets_the_marker() {
    let plan =
        BackupExecutor::commit_backup(Platform::Posix, "/d/t.partial", "/d/t", "/d/current", false, MarkerState::Absent);
    assert_eq!(plan, Ok(vec![rename(), point(SymlinkKind::Plain, true)]));
}

#[test]
fn commit_removes_an_old_marker_and_tolerates_failure() {
    let plan =
        BackupExecutor::commit_backup(Platform::Posix, "/d/t.partial", "/d/t", "/d/current", false, MarkerState::Other);
    assert_eq!(
        plan,
        Ok(vec![
            rename(),
            CommitStep { op: FsOp::RemoveFile { path: "/d/current".to_string() }, required: false },
            point(SymlinkKind::Plain, true),
        ])
    );
}

#[test]
fn commit_removes_a_marker_that_is_a_directory() {
    let plan = BackupExecutor::commit_backup(
        Platform::Posix,
        "/d/t.partial",
        "/d/t",
        "/d/current",
        false,
        MarkerState::Directory,
    );
    assert_eq!(
        plan,
        Ok(vec![
            rename(),
            CommitStep { op: FsOp::RemoveDir { path: "/d/current".to_string() }, required: false },
            point(SymlinkKind::Plain, true),
        ])
    );
}

#[test]
fn commit_on_windows_needs_the_marker_too() {
    let plan = BackupExecutor::commit_backup(
        Platform::Windows,
        "/d/t.partial",
        "/d/t",
        "/d/current",
        false,
        MarkerState::Absent,
    );
    assert_eq!(plan, Ok(vec![rename(), point(SymlinkKind::Directory, true)]));
}

#[test]
fn only_the_removal_of_the_old_marker_may_fail() {
    for platform in [Platform::Posix, Platform::Windows] {
        for marker in [MarkerState::Absent, MarkerState::Directory, MarkerState::Other] {
            let steps =
                BackupExecutor::commit_backup(platform, "/d/t.partial", "/d/t", "/d/current", false, marker).unwrap();
            assert!(steps.first().unwrap().required);
            assert!(matches!(steps.first().unwrap().op, FsOp::Rename { .. }));
            assert!(steps.last().unwrap().required);
            assert!(matches!(steps.last().unwrap().op, FsOp::Symlink { .. }));
            for step in &steps {
                if !step.required {
                    assert!(matches!(step.op, FsOp::RemoveDir { .. } | FsOp::RemoveFile { .. }));
                }
            }
        }
    }
}
