//! What a backup run does with each entry of the source tree, and how the
//! results are counted.

use vstd::prelude::*;

verus! {

/// What is done with one entry of the source tree in one generation.
#[derive(Debug, PartialEq, Eq)]
pub enum SyncAction {
    /// Copy a file that the previous generation does not hold.
    CopyNew,
    /// Copy a file that differs from its counterpart in the previous generation.
    CopyModified,
    /// Hardlink to the unchanged counterpart at the given path.
    Link(String),
    /// Create a symbolic link that points at the given target.
    MakeSymlink(String),
    /// Create a directory.
    CreateDir,
    /// Leave the entry out.
    Skip,
}

/// A [`SyncAction`] with its paths as character sequences.
pub enum ActionView {
    CopyNew,
    CopyModified,
    Link(Seq<char>),
    MakeSymlink(Seq<char>),
    CreateDir,
    Skip,
}

impl View for SyncAction {
    type V = ActionView;

    open spec fn view(&self) -> ActionView {
        match self {
            SyncAction::CopyNew => ActionView::CopyNew,
            SyncAction::CopyModified => ActionView::CopyModified,
            SyncAction::Link(reference) => ActionView::Link(reference@),
            SyncAction::MakeSymlink(target) => ActionView::MakeSymlink(target@),
            SyncAction::CreateDir => ActionView::CreateDir,
            SyncAction::Skip => ActionView::Skip,
        }
    }
}

impl Clone for SyncAction {
    fn clone(&self) -> (copy: Self)
        ensures
            copy@ == self@,
    {
        match self {
            SyncAction::CopyNew => SyncAction::CopyNew,
            SyncAction::CopyModified => SyncAction::CopyModified,
            SyncAction::Link(reference) => SyncAction::Link(reference.clone()),
            SyncAction::MakeSymlink(target) => SyncAction::MakeSymlink(target.clone()),
            SyncAction::CreateDir => SyncAction::CreateDir,
            SyncAction::Skip => SyncAction::Skip,
        }
    }
}

/// One unit of work: an entry of the source tree and where it goes.
#[derive(Debug, PartialEq, Eq)]
pub struct FileTask {
    /// Path relative to the source root; the entry's identity across generations.
    pub rel_path: String,
    /// Where the entry is read from.
    pub src_path: String,
    /// Where the entry goes, inside the generation that is being written.
    pub dest_path: String,
    /// The same relative path inside the previous generation, if there is one.
    pub old_path: Option<String>,
}

/// A [`FileTask`] with its paths as character sequences.
pub struct FileTaskView {
    pub rel_path: Seq<char>,
    pub src_path: Seq<char>,
    pub dest_path: Seq<char>,
    pub old_path: Option<Seq<char>>,
}

/// An optional string as an optional character sequence.
pub open spec fn opt_view(text: Option<String>) -> Option<Seq<char>> {
    match text {
        Some(t) => Some(t@),
        None => None,
    }
}

impl View for FileTask {
    type V = FileTaskView;

    open spec fn view(&self) -> FileTaskView {
        FileTaskView {
            rel_path: self.rel_path@,
            src_path: self.src_path@,
            dest_path: self.dest_path@,
            old_path: opt_view(self.old_path),
        }
    }
}

impl FileTask {
    /// A task made of the four paths given.
    pub fn new(rel_path: String, src_path: String, dest_path: String, old_path: Option<String>) -> (task: Self)
        ensures
            task.rel_path == rel_path,
            task.src_path == src_path,
            task.dest_path == dest_path,
            task.old_path == old_path,
    {
        FileTask { rel_path, src_path, dest_path, old_path }
    }
}

impl Clone for FileTask {
    fn clone(&self) -> (copy: Self)
        ensures
            copy@ == self@,
    {
        let old_path = match &self.old_path {
            Some(p) => Some(p.clone()),
            None => None,
        };
        FileTask {
            rel_path: self.rel_path.clone(),
            src_path: self.src_path.clone(),
            dest_path: self.dest_path.clone(),
            old_path,
        }
    }
}

/// How the work on one task ended.
#[derive(Debug, Clone, Copy, PartialEq, Eq)]
pub enum TaskOutcome {
    /// The action was carried out; the number of bytes that were copied.
    Completed(u64),
    /// The action failed.
    Failed,
}

/// The counts of one backup run.
#[derive(Debug, Clone, Copy, PartialEq, Eq)]
pub struct BackupStats {
    /// Tasks counted as file work: every task but a directory that was created.
    pub total_files: u64,
    /// Files copied because the previous generation does not hold them.
    pub copied_new: u64,
    /// Files copied because they differ from the previous generation.
    pub copied_modified: u64,
    /// Entries hardlinked, and symbolic links made anew.
    pub linked: u64,
    /// Entries left out.
    pub skipped: u64,
    /// Tasks that failed.
    pub failed: u64,
    /// Bytes copied by the tasks that succeeded.
    pub bytes_copied: u64,
}

/// The counts of a run as natural numbers.
pub struct Tally {
    pub total_files: nat,
    pub copied_new: nat,
    pub copied_modified: nat,
    pub linked: nat,
    pub skipped: nat,
    pub failed: nat,
    pub bytes_copied: nat,
}

impl Tally {
    /// The counts before any task.
    pub open spec fn zero() -> Tally {
        Tally {
            total_files: 0,
            copied_new: 0,
            copied_modified: 0,
            linked: 0,
            skipped: 0,
            failed: 0,
            bytes_copied: 0,
        }
    }

    /// The tasks that succeeded and count as file work.
    pub open spec fn succeeded(self) -> nat {
        self.copied_new + self.copied_modified + self.linked + self.skipped
    }

    /// The counts after one more task: a failure counts as failed and as
    /// nothing else; a success counts under its action, a created directory
    /// under none.
    pub open spec fn with_task(self, action: ActionView, outcome: TaskOutcome) -> Tally {
        match outcome {
            TaskOutcome::Failed => Tally { total_files: self.total_files + 1, failed: self.failed + 1, ..self },
            TaskOutcome::Completed(bytes) => match action {
                ActionView::CopyNew => Tally {
                    total_files: self.total_files + 1,
                    copied_new: self.copied_new + 1,
                    bytes_copied: self.bytes_copied + bytes as nat,
                    ..self
                },
                ActionView::CopyModified => Tally {
                    total_files: self.total_files + 1,
                    copied_modified: self.copied_modified + 1,
                    bytes_copied: self.bytes_copied + bytes as nat,
                    ..self
                },
                ActionView::Link(_) | ActionView::MakeSymlink(_) => Tally {
                    total_files: self.total_files + 1,
                    linked: self.linked + 1,
                    ..self
                },
                ActionView::CreateDir => self,
                ActionView::Skip => Tally { total_files: self.total_files + 1, skipped: self.skipped + 1, ..self },
            },
        }
    }

    /// The counts after the given tasks, starting from zero.
    pub open spec fn of_tasks(tasks: Seq<(ActionView, TaskOutcome)>) -> Tally
        decreases tasks.len(),
    {
        if tasks.len() == 0 {
            Tally::zero()
        } else {
            Tally::of_tasks(tasks.drop_last()).with_task(tasks.last().0, tasks.last().1)
        }
    }
}

impl View for BackupStats {
    type V = Tally;

    open spec fn view(&self) -> Tally {
        Tally {
            total_files: self.total_files as nat,
            copied_new: self.copied_new as nat,
            copied_modified: self.copied_modified as nat,
            linked: self.linked as nat,
            skipped: self.skipped as nat,
            failed: self.failed as nat,
            bytes_copied: self.bytes_copied as nat,
        }
    }
}

impl BackupStats {
    /// The counts before any task: all zero.
    pub fn new() -> (stats: Self)
        ensures
            stats@ == Tally::zero(),
    {
        BackupStats {
            total_files: 0,
            copied_new: 0,
            copied_modified: 0,
            linked: 0,
            skipped: 0,
            failed: 0,
            bytes_copied: 0,
        }
    }

    /// Whether one more task can be counted without a counter passing the
    /// largest value it can hold: the counters that the task adds to have
    /// room for it.
    pub open spec fn has_room_for(&self, action: ActionView, outcome: TaskOutcome) -> bool {
        match outcome {
            TaskOutcome::Failed => self.total_files < u64::MAX && self.failed < u64::MAX,
            TaskOutcome::Completed(bytes) => match action {
                ActionView::CopyNew => self.total_files < u64::MAX && self.copied_new < u64::MAX
                    && self.bytes_copied + bytes <= u64::MAX,
                ActionView::CopyModified => self.total_files < u64::MAX && self.copied_modified < u64::MAX
                    && self.bytes_copied + bytes <= u64::MAX,
                ActionView::Link(_) | ActionView::MakeSymlink(_) => self.total_files < u64::MAX && self.linked
                    < u64::MAX,
                ActionView::CreateDir => true,
                ActionView::Skip => self.total_files < u64::MAX && self.skipped < u64::MAX,
            },
        }
    }

    /// Whether [`record`](Self::record) may be called for a task of this action and outcome.
    pub fn can_record(&self, action: &SyncAction, outcome: TaskOutcome) -> (ok: bool)
        ensures
            ok == self.has_room_for(action@, outcome),
    {
        match outcome {
            TaskOutcome::Failed => self.total_files < u64::MAX && self.failed < u64::MAX,
            TaskOutcome::Completed(bytes) => match action {
                SyncAction::CopyNew => self.total_files < u64::MAX && self.copied_new < u64::MAX && bytes <= u64::MAX
                    - self.bytes_copied,
                SyncAction::CopyModified => self.total_files < u64::MAX && self.copied_modified < u64::MAX && bytes
                    <= u64::MAX - self.bytes_copied,
                SyncAction::Link(_) => self.total_files < u64::MAX && self.linked < u64::MAX,
                SyncAction::MakeSymlink(_) => self.total_files < u64::MAX && self.linked < u64::MAX,
                SyncAction::CreateDir => true,
                SyncAction::Skip => self.total_files < u64::MAX && self.skipped < u64::MAX,
            },
        }
    }

    /// Counts one finished task: a failure under `failed` alone, a success
    /// under the one counter of its action. A directory that was created
    /// leaves every counter as it was.
    pub fn record(&mut self, action: &SyncAction, outcome: TaskOutcome)
        requires
            old(self).has_room_for(action@, outcome),
        ensures
            final(self)@ == old(self)@.with_task(action@, outcome),
    {
        match outcome {
            TaskOutcome::Completed(bytes) => match action {
                SyncAction::CopyNew => {
                    self.total_files += 1;
                    self.copied_new += 1;
                    self.bytes_copied += bytes;
                },
                SyncAction::CopyModified => {
                    self.total_files += 1;
                    self.copied_modified += 1;
                    self.bytes_copied += bytes;
                },
                SyncAction::Link(_) => {
                    self.total_files += 1;
                    self.linked += 1;
                },
                SyncAction::MakeSymlink(_) => {
                    self.total_files += 1;
                    self.linked += 1;
                },
                SyncAction::CreateDir => {},
                SyncAction::Skip => {
                    self.total_files += 1;
                    self.skipped += 1;
                },
            },
            TaskOutcome::Failed => {
                self.total_files += 1;
                self.failed += 1;
            },
        }
    }
}

impl Default for BackupStats {
    fn default() -> (stats: Self)
        ensures
            stats@ == Tally::zero(),
    {
        BackupStats::new()
    }
}

/// The number of tasks among the given ones that failed.
pub open spec fn count_failed(tasks: Seq<(ActionView, TaskOutcome)>) -> nat
    decreases tasks.len(),
{
    if tasks.len() == 0 {
        0
    } else {
        count_failed(tasks.drop_last()) + if tasks.last().1 is Failed {
            1nat
        } else {
            0nat
        }
    }
}

/// The number of tasks among the given ones that succeeded, created
/// directories left out.
pub open spec fn count_succeeded(tasks: Seq<(ActionView, TaskOutcome)>) -> nat
    decreases tasks.len(),
{
    if tasks.len() == 0 {
        0
    } else {
        count_succeeded(tasks.drop_last()) + if tasks.last().1 is Completed && !(tasks.last().0 is CreateDir) {
            1nat
        } else {
            0nat
        }
    }
}

/// Every task is counted once: a failed one under `failed` and under no
/// other counter but the total, a successful one under exactly one of the
/// four success counters. The total is the sum of the five.
pub proof fn law_every_task_counts_once(tasks: Seq<(ActionView, TaskOutcome)>)
    ensures
        Tally::of_tasks(tasks).failed == count_failed(tasks),
        Tally::of_tasks(tasks).succeeded() == count_succeeded(tasks),
        Tally::of_tasks(tasks).total_files == count_failed(tasks) + count_succeeded(tasks),
    decreases tasks.len(),
{
    if tasks.len() > 0 {
        law_every_task_counts_once(tasks.drop_last());
    }
}

/// One task that fails among `n` tasks on files leaves `n - 1` counted as
/// successes and exactly one as failed: a failure takes nothing from the
/// tasks around it.
pub proof fn law_failure_is_isolated(tasks: Seq<(ActionView, TaskOutcome)>, failing: int)
    requires
        0 <= failing < tasks.len(),
        tasks[failing].1 is Failed,
        forall|i: int| 0 <= i < tasks.len() && i != failing ==> (#[trigger] tasks[i]).1 is Completed,
        forall|i: int| 0 <= i < tasks.len() ==> !((#[trigger] tasks[i]).0 is CreateDir),
    ensures
        Tally::of_tasks(tasks).failed == 1,
        Tally::of_tasks(tasks).succeeded() == tasks.len() - 1,
        Tally::of_tasks(tasks).total_files == tasks.len(),
{
    law_every_task_counts_once(tasks);
    lemma_counts_with_one_failure(tasks, failing);
}

proof fn lemma_counts_with_one_failure(tasks: Seq<(ActionView, TaskOutcome)>, failing: int)
    requires
        0 <= failing,
        forall|i: int| 0 <= i < tasks.len() ==> ((#[trigger] tasks[i]).1 is Failed <==> i == failing),
        forall|i: int| 0 <= i < tasks.len() ==> !((#[trigger] tasks[i]).0 is CreateDir),
    ensures
        count_failed(tasks) == if failing < tasks.len() {
            1nat
        } else {
            0nat
        },
        count_failed(tasks) + count_succeeded(tasks) == tasks.len(),
    decreases tasks.len(),
{
    if tasks.len() > 0 {
        let front = tasks.drop_last();
        assert forall|i: int| 0 <= i < front.len() implies ((#[trigger] front[i]).1 is Failed <==> i == failing) by {
            assert(front[i] == tasks[i]);
        }
        assert forall|i: int| 0 <= i < front.len() implies !((#[trigger] front[i]).0 is CreateDir) by {
            assert(front[i] == tasks[i]);
        }
        lemma_counts_with_one_failure(front, failing);
        assert(tasks.last() == tasks[tasks.len() - 1]);
    }
}

/// A run in which every file is hardlinked and every directory created,
/// as happens when nothing has changed since the previous generation, copies
/// nothing: both copy counters stay at zero and `linked` is the total.
pub proof fn law_unchanged_run_only_links(tasks: Seq<(ActionView, TaskOutcome)>)
    requires
        forall|i: int|
            0 <= i < tasks.len() ==> (#[trigger] tasks[i]).1 is Completed && (tasks[i].0 is Link
                || tasks[i].0 is CreateDir),
    ensures
        Tally::of_tasks(tasks).copied_new == 0,
        Tally::of_tasks(tasks).copied_modified == 0,
        Tally::of_tasks(tasks).skipped == 0,
        Tally::of_tasks(tasks).failed == 0,
        Tally::of_tasks(tasks).bytes_copied == 0,
        Tally::of_tasks(tasks).linked == Tally::of_tasks(tasks).total_files,
    decreases tasks.len(),
{
    if tasks.len() > 0 {
        let front = tasks.drop_last();
        assert forall|i: int| 0 <= i < front.len() implies (#[trigger] front[i]).1 is Completed && (front[i].0 is Link
            || front[i].0 is CreateDir) by {
            assert(front[i] == tasks[i]);
        }
        law_unchanged_run_only_links(front);
        assert(tasks.last() == tasks[tasks.len() - 1]);
    }
}

} // verus!
