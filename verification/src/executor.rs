//! What has to happen on disk: for one task, and to commit a finished
//! generation. The functions here decide; the caller carries out.

use vstd::prelude::*;
use crate::actions::{ActionView, FileTask, FileTaskView, SyncAction};
use crate::utils::Platform;

verus! {

/// The kind of symbolic link to create, on platforms that tell kinds apart.
#[derive(Debug, Clone, Copy, PartialEq, Eq, Structural)]
pub enum SymlinkKind {
    /// The platform has one kind only.
    Plain,
    /// A link to a file.
    File,
    /// A link to a directory.
    Directory,
}

/// One operation on the filesystem.
#[derive(Debug, PartialEq, Eq)]
pub enum FsOp {
    /// Create the parent directory of `of`, with all that is missing above
    /// it; nothing to do where the path has no parent.
    EnsureParentDir { of: String },
    /// Create the directory `path`, with all that is missing above it.
    EnsureDir { path: String },
    /// Copy the content of `from` to `to`; the result is the number of bytes.
    CopyFile { from: String, to: String },
    /// Read and keep the access and modification times of `from`.
    ReadTimes { from: String },
    /// Set or clear the read-only attribute of `path`.
    SetReadonly { path: String, readonly: bool },
    /// Give `path` the times that were last read.
    SetTimes { path: String },
    /// Make `link` a hardlink to the file at `existing`.
    HardLink { existing: String, link: String },
    /// Make `link` a symbolic link that points at `target`.
    Symlink { target: String, link: String, kind: SymlinkKind },
    /// Rename `from` to `to`.
    Rename { from: String, to: String },
    /// Remove the empty directory `path`.
    RemoveDir { path: String },
    /// Remove the file or link `path`.
    RemoveFile { path: String },
}

/// An [`FsOp`] with its paths as character sequences.
pub enum FsOpView {
    EnsureParentDir { of: Seq<char> },
    EnsureDir { path: Seq<char> },
    CopyFile { from: Seq<char>, to: Seq<char> },
    ReadTimes { from: Seq<char> },
    SetReadonly { path: Seq<char>, readonly: bool },
    SetTimes { path: Seq<char> },
    HardLink { existing: Seq<char>, link: Seq<char> },
    Symlink { target: Seq<char>, link: Seq<char>, kind: SymlinkKind },
    Rename { from: Seq<char>, to: Seq<char> },
    RemoveDir { path: Seq<char> },
    RemoveFile { path: Seq<char> },
}

impl View for FsOp {
    type V = FsOpView;

    open spec fn view(&self) -> FsOpView {
        match self {
            FsOp::EnsureParentDir { of } => FsOpView::EnsureParentDir { of: of@ },
            FsOp::EnsureDir { path } => FsOpView::EnsureDir { path: path@ },
            FsOp::CopyFile { from, to } => FsOpView::CopyFile { from: from@, to: to@ },
            FsOp::ReadTimes { from } => FsOpView::ReadTimes { from: from@ },
            FsOp::SetReadonly { path, readonly } => FsOpView::SetReadonly { path: path@, readonly: *readonly },
            FsOp::SetTimes { path } => FsOpView::SetTimes { path: path@ },
            FsOp::HardLink { existing, link } => FsOpView::HardLink { existing: existing@, link: link@ },
            FsOp::Symlink { target, link, kind } => FsOpView::Symlink { target: target@, link: link@, kind: *kind },
            FsOp::Rename { from, to } => FsOpView::Rename { from: from@, to: to@ },
            FsOp::RemoveDir { path } => FsOpView::RemoveDir { path: path@ },
            FsOp::RemoveFile { path } => FsOpView::RemoveFile { path: path@ },
        }
    }
}

/// The operations of a list, each by its view.
pub open spec fn ops_view(ops: Seq<FsOp>) -> Seq<FsOpView> {
    ops.map_values(|op: FsOp| op@)
}

/// What one task asks of the filesystem.
#[derive(Debug, PartialEq, Eq)]
pub struct TaskPlan {
    /// The operations, to be carried out in order; the first that fails ends
    /// the task as failed.
    pub ops: Vec<FsOp>,
    /// Whether the destination's times remain to be set: once `ops` are
    /// through, look whether the destination is read-only and carry out
    /// [`BackupExecutor::finish_copy`].
    pub stamp_times: bool,
}

/// The kind of symbolic link that stands for a source entry.
pub open spec fn link_kind(platform: Platform, source_is_dir: bool) -> SymlinkKind {
    match platform {
        Platform::Posix => SymlinkKind::Plain,
        Platform::Windows => if source_is_dir {
            SymlinkKind::Directory
        } else {
            SymlinkKind::File
        },
    }
}

/// The operations for one task. A dry run has none, whatever the action.
pub open spec fn task_ops(
    dry_run: bool,
    platform: Platform,
    task: FileTaskView,
    action: ActionView,
    source_is_dir: bool,
) -> Seq<FsOpView> {
    if dry_run {
        seq![]
    } else {
        match action {
            ActionView::CopyNew | ActionView::CopyModified => seq![
                FsOpView::EnsureParentDir { of: task.dest_path },
                FsOpView::CopyFile { from: task.src_path, to: task.dest_path },
                FsOpView::ReadTimes { from: task.src_path },
            ],
            ActionView::Link(reference) => seq![
                FsOpView::EnsureParentDir { of: task.dest_path },
                FsOpView::HardLink { existing: reference, link: task.dest_path },
            ],
            ActionView::MakeSymlink(target) => seq![
                FsOpView::EnsureParentDir { of: task.dest_path },
                FsOpView::Symlink { target, link: task.dest_path, kind: link_kind(platform, source_is_dir) },
            ],
            ActionView::CreateDir => seq![FsOpView::EnsureDir { path: task.dest_path }],
            ActionView::Skip => seq![],
        }
    }
}

/// Whether the task copies a file, so that the copy's times remain to be set.
pub open spec fn task_copies(dry_run: bool, action: ActionView) -> bool {
    !dry_run && (action is CopyNew || action is CopyModified)
}

/// The operations that give a fresh copy the times of its source. A
/// read-only copy is made writable for the moment, since setting the times
/// of a read-only file fails on some platforms, and read-only again after.
pub open spec fn stamp_ops(dest_path: Seq<char>, dest_readonly: bool) -> Seq<FsOpView> {
    if dest_readonly {
        seq![
            FsOpView::SetReadonly { path: dest_path, readonly: false },
            FsOpView::SetTimes { path: dest_path },
            FsOpView::SetReadonly { path: dest_path, readonly: true },
        ]
    } else {
        seq![FsOpView::SetTimes { path: dest_path }]
    }
}

/// Carries out nothing itself: says what each task needs done.
#[derive(Debug, Clone, Copy, PartialEq, Eq)]
pub struct BackupExecutor {
    dry_run: bool,
}

impl BackupExecutor {
    /// Whether this executor leaves the filesystem alone.
    pub closed spec fn is_dry_run(&self) -> bool {
        self.dry_run
    }

    /// An executor; one for a dry run plans no operation at all.
    pub fn new(dry_run: bool) -> (executor: Self)
        ensures
            executor.is_dry_run() == dry_run,
    {
        BackupExecutor { dry_run }
    }

    /// Whether this executor leaves the filesystem alone.
    pub fn dry_run(&self) -> (dry: bool)
        ensures
            dry == self.is_dry_run(),
    {
        self.dry_run
    }

    /// What `action` asks of the filesystem for `task`. `source_is_dir` says
    /// whether the source path leads to a directory; it picks the kind of a
    /// symbolic link on Windows and counts nowhere else.
    pub fn process_task(&self, platform: Platform, task: &FileTask, action: &SyncAction, source_is_dir: bool) -> (plan:
        TaskPlan)
        ensures
            ops_view(plan.ops@) == task_ops(self.is_dry_run(), platform, task@, action@, source_is_dir),
            plan.stamp_times == task_copies(self.is_dry_run(), action@),
    {
        let mut ops: Vec<FsOp> = Vec::new();
        let mut stamp_times = false;
        if !self.dry_run {
            match action {
                SyncAction::CopyNew | SyncAction::CopyModified => {
                    ops.push(FsOp::EnsureParentDir { of: task.dest_path.clone() });
                    ops.push(FsOp::CopyFile { from: task.src_path.clone(), to: task.dest_path.clone() });
                    ops.push(FsOp::ReadTimes { from: task.src_path.clone() });
                    stamp_times = true;
                },
                SyncAction::Link(reference) => {
                    ops.push(FsOp::EnsureParentDir { of: task.dest_path.clone() });
                    ops.push(FsOp::HardLink { existing: reference.clone(), link: task.dest_path.clone() });
                },
                SyncAction::MakeSymlink(target) => {
                    let kind = match platform {
                        Platform::Posix => SymlinkKind::Plain,
                        Platform::Windows => if source_is_dir {
                            SymlinkKind::Directory
                        } else {
                            SymlinkKind::File
                        },
                    };
                    ops.push(FsOp::EnsureParentDir { of: task.dest_path.clone() });
                    ops.push(FsOp::Symlink { target: target.clone(), link: task.dest_path.clone(), kind });
                },
                SyncAction::CreateDir => {
                    ops.push(FsOp::EnsureDir { path: task.dest_path.clone() });
                },
                SyncAction::Skip => {},
            }
        }
        assert(ops_view(ops@) =~= task_ops(self.is_dry_run(), platform, task@, action@, source_is_dir));
        TaskPlan { ops, stamp_times }
    }

    /// What remains after a file was copied: the operations that carry the
    /// times of the source over to the copy at `task.dest_path`, which was
    /// found read-only or not.
    pub fn finish_copy(&self, task: &FileTask, dest_readonly: bool) -> (ops: Vec<FsOp>)
        ensures
            ops_view(ops@) == stamp_ops(task@.dest_path, dest_readonly),
    {
        let mut ops: Vec<FsOp> = Vec::new();
        if dest_readonly {
            ops.push(FsOp::SetReadonly { path: task.dest_path.clone(), readonly: false });
        }
        ops.push(FsOp::SetTimes { path: task.dest_path.clone() });
        if dest_readonly {
            ops.push(FsOp::SetReadonly { path: task.dest_path.clone(), readonly: true });
        }
        assert(ops_view(ops@) =~= stamp_ops(task@.dest_path, dest_readonly));
        ops
    }
}

/// What stands at the path of the `current` marker before a commit.
#[derive(Debug, Clone, Copy, PartialEq, Eq, Structural)]
pub enum MarkerState {
    /// Nothing.
    Absent,
    /// A directory, not a link to one.
    Directory,
    /// A link, or a file.
    Other,
}

/// One step of a commit.
#[derive(Debug, PartialEq, Eq)]
pub struct CommitStep {
    pub op: FsOp,
    /// Whether a failure of `op` fails the commit. Where it does not, the
    /// failure is passed over and the steps go on; that is so only of the
    /// removal of the old marker.
    pub required: bool,
}

/// Why a commit cannot start.
#[derive(Debug, PartialEq, Eq)]
pub enum CommitError {
    /// The final directory, named here, exists already.
    DestinationExists(String),
}

/// The steps of a commit, each with its operation by view.
pub open spec fn steps_view(steps: Seq<CommitStep>) -> Seq<(FsOpView, bool)> {
    steps.map_values(|step: CommitStep| (step.op@, step.required))
}

/// The kind of link that the marker is: it points at a directory.
pub open spec fn marker_kind(platform: Platform) -> SymlinkKind {
    match platform {
        Platform::Posix => SymlinkKind::Plain,
        Platform::Windows => SymlinkKind::Directory,
    }
}

/// The steps that promote the temporary directory: the rename, which makes
/// the generation visible and is all that the generation itself needs; then
/// the old marker goes, if there is one, and a new one is set. A marker
/// that cannot be set fails the commit on every platform; only a failure
/// to remove the old one is passed over, since setting the new one will
/// show whether it mattered. On Windows the marker is a link to a
/// directory.
pub open spec fn commit_steps(
    platform: Platform,
    temp_path: Seq<char>,
    final_path: Seq<char>,
    link_path: Seq<char>,
    marker: MarkerState,
) -> Seq<(FsOpView, bool)> {
    let rename = seq![(FsOpView::Rename { from: temp_path, to: final_path }, true)];
    let clear = match marker {
        MarkerState::Absent => seq![],
        MarkerState::Directory => seq![(FsOpView::RemoveDir { path: link_path }, false)],
        MarkerState::Other => seq![(FsOpView::RemoveFile { path: link_path }, false)],
    };
    let point = seq![
        (FsOpView::Symlink { target: final_path, link: link_path, kind: marker_kind(platform) }, true),
    ];
    rename + clear + point
}

impl BackupExecutor {
    /// The steps that commit a generation written to `temp_path` under the
    /// name `final_path`, with `link_path` as the `current` marker. A commit
    /// is refused, with no step taken, exactly where `final_exists` says
    /// that the final directory is there already.
    pub fn commit_backup(
        platform: Platform,
        temp_path: &str,
        final_path: &str,
        link_path: &str,
        final_exists: bool,
        marker: MarkerState,
    ) -> (plan: Result<Vec<CommitStep>, CommitError>)
        ensures
            match plan {
                Err(CommitError::DestinationExists(path)) => final_exists && path@ == final_path@,
                Ok(steps) => !final_exists && steps_view(steps@) == commit_steps(
                    platform,
                    temp_path@,
                    final_path@,
                    link_path@,
                    marker,
                ),
            },
    {
        if final_exists {
            return Err(CommitError::DestinationExists(final_path.to_owned()));
        }
        let mut steps: Vec<CommitStep> = Vec::new();
        steps.push(CommitStep { op: FsOp::Rename { from: temp_path.to_owned(), to: final_path.to_owned() }, required: true });
        match marker {
            MarkerState::Absent => {},
            MarkerState::Directory => {
                steps.push(CommitStep { op: FsOp::RemoveDir { path: link_path.to_owned() }, required: false });
            },
            MarkerState::Other => {
                steps.push(CommitStep { op: FsOp::RemoveFile { path: link_path.to_owned() }, required: false });
            },
        }
        let kind = match platform {
            Platform::Posix => SymlinkKind::Plain,
            Platform::Windows => SymlinkKind::Directory,
        };
        steps.push(
            CommitStep {
                op: FsOp::Symlink { target: final_path.to_owned(), link: link_path.to_owned(), kind },
                required: true,
            },
        );
        assert(steps_view(steps@) =~= commit_steps(platform, temp_path@, final_path@, link_path@, marker));
        Ok(steps)
    }
}

/// Whether the operation leaves the directory at `path` as it is: it
/// neither renames nor removes it.
pub open spec fn spares(op: FsOpView, path: Seq<char>) -> bool {
    match op {
        FsOpView::Rename { from, .. } => from != path,
        FsOpView::RemoveDir { path: removed } => removed != path,
        FsOpView::RemoveFile { path: removed } => removed != path,
        _ => true,
    }
}

/// A commit begins with the rename, the one step that the generation
/// itself needs, and it must succeed. Whatever follows concerns the marker
/// alone: where the marker is another path than the final directory, no
/// later step renames or removes that directory, so a commit cut short
/// after its first step leaves the generation in place under its final
/// name.
pub proof fn law_commit_is_done_at_the_rename(
    platform: Platform,
    temp_path: Seq<char>,
    final_path: Seq<char>,
    link_path: Seq<char>,
    marker: MarkerState,
)
    requires
        link_path != final_path,
    ensures
        commit_steps(platform, temp_path, final_path, link_path, marker).len() >= 2,
        commit_steps(platform, temp_path, final_path, link_path, marker)[0] == (
            FsOpView::Rename { from: temp_path, to: final_path },
            true,
        ),
        forall|i: int|
            1 <= i < commit_steps(platform, temp_path, final_path, link_path, marker).len() ==> spares(
                (#[trigger] commit_steps(platform, temp_path, final_path, link_path, marker)[i]).0,
                final_path,
            ),
{
}

/// A commit ends with the new marker, and a marker that cannot be set
/// fails the commit, on every platform: the last step makes the marker a
/// link to the final directory and is required. The steps between the
/// rename and the marker only remove the old marker and are the only ones
/// whose failure is passed over.
pub proof fn law_marker_failure_fails_the_commit(
    platform: Platform,
    temp_path: Seq<char>,
    final_path: Seq<char>,
    link_path: Seq<char>,
    marker: MarkerState,
)
    ensures
        commit_steps(platform, temp_path, final_path, link_path, marker).last() == (
            FsOpView::Symlink { target: final_path, link: link_path, kind: marker_kind(platform) },
            true,
        ),
        forall|i: int|
            0 <= i < commit_steps(platform, temp_path, final_path, link_path, marker).len() && !(
            #[trigger] commit_steps(platform, temp_path, final_path, link_path, marker)[i]).1 ==> 0 < i
                < commit_steps(platform, temp_path, final_path, link_path, marker).len() - 1 && (commit_steps(
                platform,
                temp_path,
                final_path,
                link_path,
                marker,
            )[i].0 is RemoveDir || commit_steps(platform, temp_path, final_path, link_path, marker)[i].0
                is RemoveFile),
{
}

/// A dry run leaves the filesystem alone: whatever the action, the task
/// has no operation and no times to set.
pub proof fn law_dry_run_touches_nothing(
    platform: Platform,
    task: FileTaskView,
    action: ActionView,
    source_is_dir: bool,
)
    ensures
        task_ops(true, platform, task, action, source_is_dir) == Seq::<FsOpView>::empty(),
        !task_copies(true, action),
{
}

/// Whether the operation writes a file or a link at `path`.
pub open spec fn writes_at(op: FsOpView, path: Seq<char>) -> bool {
    match op {
        FsOpView::CopyFile { to, .. } => to == path,
        FsOpView::HardLink { link, .. } => link == path,
        FsOpView::Symlink { link, .. } => link == path,
        _ => false,
    }
}

/// Nothing is written before its directory is there: in the operations of
/// a task, whatever writes the destination comes after the operation that
/// ensures the destination's parent directory, and nothing is written
/// anywhere else. So tasks can run in any order and side by side.
pub proof fn law_parent_is_ensured_first(
    dry_run: bool,
    platform: Platform,
    task: FileTaskView,
    action: ActionView,
    source_is_dir: bool,
    at: int,
    path: Seq<char>,
)
    requires
        0 <= at < task_ops(dry_run, platform, task, action, source_is_dir).len(),
        writes_at(task_ops(dry_run, platform, task, action, source_is_dir)[at], path),
    ensures
        path == task.dest_path,
        at > 0,
        task_ops(dry_run, platform, task, action, source_is_dir)[0] == (FsOpView::EnsureParentDir {
            of: task.dest_path,
        }),
{
}

} // verus!
