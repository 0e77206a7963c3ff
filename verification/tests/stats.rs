use recall::actions::{BackupStats, SyncAction, TaskOutcome};

fn run(tasks: &[(SyncAction, TaskOutcome)]) -> BackupStats {
    let mut stats = BackupStats::new();
    for (action, outcome) in tasks {
        assert!(stats.can_record(action, *outcome));
        stats.record(action, *outcome);
    }
    stats
}

#[test]
fn new_stats_are_zero() {
    let s = BackupStats::new();
    assert_eq!(
        s,
        BackupStats {
            total_files: 0,
            copied_new: 0,
            copied_modified: 0,
            linked: 0,
            skipped: 0,
            failed: 0,
            bytes_copied: 0
        }
    );
    assert_eq!(BackupStats::default(), s);
}

#[test]
fn each_success_counts_under_its_action() {
    let s = run(&[(SyncAction::CopyNew, TaskOutcome::Completed(10))]);
    assert_eq!((s.total_files, s.copied_new, s.bytes_copied), (1, 1, 10));
    let s = run(&[(SyncAction::CopyModified, TaskOutcome::Completed(7))]);
    assert_eq!((s.total_files, s.copied_modified, s.bytes_copied), (1, 1, 7));
    let s = run(&[(SyncAction::Link("r".to_string()), TaskOutcome::Completed(0))]);
    assert_eq!((s.total_files, s.linked, s.bytes_copied), (1, 1, 0));
    let s = run(&[(SyncAction::MakeSymlink("t".to_string()), TaskOutcome::Completed(0))]);
    assert_eq!((s.total_files, s.linked), (1, 1));
    let s = run(&[(SyncAction::Skip, TaskOutcome::Completed(0))]);
    assert_eq!((s.total_files, s.skipped), (1, 1));
}

#[test]
fn created_directory_counts_nowhere() {
    let s = run(&[(SyncAction::CreateDir, TaskOutcome::Completed(0))]);
    assert_eq!(s, BackupStats::new());
}

#[test]
fn failed_directory_counts_as_failed() {
    let s = run(&[(SyncAction::CreateDir, TaskOutcome::Failed)]);
    assert_eq!((s.total_files, s.failed), (1, 1));
}

#[test]
fn failure_counts_as_failed_only() {
    let s = run(&[(SyncAction::CopyNew, TaskOutcome::Failed)]);
    assert_eq!(
        s,
        BackupStats {
            total_files: 1,
            copied_new: 0,
            copied_modified: 0,
            linked: 0,
            skipped: 0,
            failed: 1,
            bytes_copied: 0
        }
    );
}

#[test]
fn bytes_of_links_are_not_counted() {
    let s = run(&[(SyncAction::Link("r".to_string()), TaskOutcome::Completed(99))]);
    assert_eq!(s.bytes_copied, 0);
}

#[test]
fn one_failure_among_many_is_isolated() {
    let n = 25;
    let mut tasks = Vec::new();
    for i in 0..n {
        let outcome = if i == 11 { TaskOutcome::Failed } else { TaskOutcome::Completed(3) };
        tasks.push((SyncAction::CopyNew, outcome));
    }
    let s = run(&tasks);
    assert_eq!(s.failed, 1);
    assert_eq!(s.copied_new + s.copied_modified + s.linked + s.skipped, n - 1);
    assert_eq!(s.total_files, n);
    assert_eq!(s.bytes_copied, 3 * (n - 1));
}

#[test]
fn unchanged_run_links_every_file() {
    let mut tasks = vec![(SyncAction::CreateDir, TaskOutcome::Completed(0))];
    for _ in 0..9 {
        tasks.push((SyncAction::Link("old".to_string()), TaskOutcome::Completed(0)));
    }
    tasks.push((SyncAction::CreateDir, TaskOutcome::Completed(0)));
    let s = run(&tasks);
    assert_eq!(s.copied_new, 0);
    assert_eq!(s.copied_modified, 0);
    assert_eq!(s.linked, 9);
    assert_eq!(s.total_files, 9);
}

#[test]
fn total_is_the_sum_of_the_categories() {
    let s = run(&[
        (SyncAction::CopyNew, TaskOutcome::Completed(1)),
        (SyncAction::CopyModified, TaskOutcome::Completed(2)),
        (SyncAction::CopyModified, TaskOutcome::Failed),
        (SyncAction::Link("a".to_string()), TaskOutcome::Completed(0)),
        (SyncAction::MakeSymlink("b".to_string()), TaskOutcome::Failed),
        (SyncAction::Skip, TaskOutcome::Completed(0)),
        (SyncAction::CreateDir, TaskOutcome::Completed(0)),
    ]);
    assert_eq!(s.total_files, s.copied_new + s.copied_modified + s.linked + s.skipped + s.failed);
    assert_eq!(s.total_files, 6);
    assert_eq!(s.failed, 2);
    assert_eq!(s.bytes_copied, 3);
}

#[test]
fn full_counters_take_no_more() {
    let copy = SyncAction::CopyNew;
    let mut s = BackupStats::new();
    s.bytes_copied = u64::MAX - 5;
    assert!(s.can_record(&copy, TaskOutcome::Completed(5)));
    assert!(!s.can_record(&copy, TaskOutcome::Completed(6)));
    assert!(s.can_record(&SyncAction::Skip, TaskOutcome::Completed(6)));
    assert!(s.can_record(&copy, TaskOutcome::Failed));
    s.failed = u64::MAX;
    assert!(!s.can_record(&copy, TaskOutcome::Failed));
    assert!(s.can_record(&copy, TaskOutcome::Completed(1)));
    let mut t = BackupStats::new();
    t.total_files = u64::MAX;
    assert!(!t.can_record(&copy, TaskOutcome::Completed(0)));
    assert!(!t.can_record(&SyncAction::CreateDir, TaskOutcome::Failed));
    assert!(t.can_record(&SyncAction::CreateDir, TaskOutcome::Completed(0)));
    t.record(&SyncAction::CreateDir, TaskOutcome::Completed(0));
    assert_eq!(t.total_files, u64::MAX);
    let mut u = BackupStats::new();
    u.linked = u64::MAX;
    assert!(!u.can_record(&SyncAction::Link("r".to_string()), TaskOutcome::Completed(0)));
    assert!(!u.can_record(&SyncAction::MakeSymlink("t".to_string()), TaskOutcome::Completed(0)));
    assert!(u.can_record(&SyncAction::Skip, TaskOutcome::Completed(0)));
}
