//! The scan of a source tree: which entries become tasks, and the
//! change-decision engine that says what to do with each, given what is known
//! of the entry and of its counterpart in the previous generation.

use vstd::prelude::*;
use glob::{Pattern, PatternError};
use crate::actions::{opt_view, ActionView, FileTask, FileTaskView, SyncAction, Tally, TaskOutcome};
use crate::config::BackupConfig;
use crate::prune::{find_all_backups, listing, sorted_backups, DirEntry};
use crate::text::{append_chars, chars_of, slice_of, starts_with, string_of, texts};
use crate::utils::{
    any_matches, glob_accepts, join_path, joined, matches_exclude_pattern, pattern_texts, to_verbatim_path,
    verbatim_form, Platform,
};

verus! {

/// How many tasks may wait between the scan and the workers: a scan that
/// runs ahead of the copying is held back once so many are pending.
pub const QUEUE_CAPACITY: usize = 1000;

/// Two modification times that are less than this many nanoseconds apart
/// count as equal: filesystems commonly drop the fraction of a second.
pub const MTIME_TOLERANCE_NANOS: u64 = 1_000_000_000;

/// A point in time: whole seconds since the Unix epoch (negative before it)
/// and the nanoseconds past that second.
#[derive(Debug, Clone, Copy, PartialEq, Eq)]
pub struct Timestamp {
    pub secs: i64,
    pub nanos: u32,
}

impl Timestamp {
    /// The point in time as nanoseconds since the Unix epoch.
    pub open spec fn nanos_since_epoch(self) -> int {
        self.secs * 1_000_000_000 + self.nanos
    }

    /// Whether the two times are less than a second apart.
    pub open spec fn close_to(self, other: Timestamp) -> bool {
        let gap = self.nanos_since_epoch() - other.nanos_since_epoch();
        -(MTIME_TOLERANCE_NANOS as int) < gap < MTIME_TOLERANCE_NANOS as int
    }

    /// Whether the two times are less than a second apart.
    pub fn is_close_to(&self, other: &Timestamp) -> (close: bool)
        ensures
            close == self.close_to(*other),
    {
        let mine: i128 = (self.secs as i128) * 1_000_000_000 + (self.nanos as i128);
        let theirs: i128 = (other.secs as i128) * 1_000_000_000 + (other.nanos as i128);
        let gap: i128 = mine - theirs;
        -1_000_000_000 < gap && gap < 1_000_000_000
    }
}

/// What the metadata of a file says of its content.
#[derive(Debug, Clone, Copy, PartialEq, Eq)]
pub struct FileMeta {
    /// Length in bytes.
    pub len: u64,
    /// Permission bits, on a platform that has them.
    pub mode: Option<u32>,
    /// Time of the last modification, where the filesystem reports one.
    pub modified: Option<Timestamp>,
}

/// Whether both files carry permission bits and these differ.
pub open spec fn permissions_differ(source: FileMeta, reference: FileMeta) -> bool {
    match (source.mode, reference.mode) {
        (Some(s), Some(r)) => s != r,
        _ => false,
    }
}

/// Whether both modification times are known and less than a second apart.
pub open spec fn mtimes_match(source: FileMeta, reference: FileMeta) -> bool {
    match (source.modified, reference.modified) {
        (Some(s), Some(r)) => s.close_to(r),
        _ => false,
    }
}

/// What kind of entry the source holds, the entry itself and not what a link
/// leads to.
#[derive(Debug, PartialEq, Eq)]
pub enum EntryKind {
    /// Anything but a symbolic link.
    Plain,
    /// A symbolic link, with its target where that could be read.
    Symlink(Option<String>),
}

/// The metadata of a source entry, taken without following a link.
#[derive(Debug, PartialEq, Eq)]
pub struct EntryMeta {
    pub kind: EntryKind,
    pub file: FileMeta,
}

/// What is known of one entry of the source tree.
#[derive(Debug, PartialEq, Eq)]
pub struct SourceEntry {
    /// Whether the path leads to a directory, links followed. It counts
    /// only for an entry that is not itself a symbolic link: a link is
    /// backed up as a link, whatever it leads to.
    pub is_dir: bool,
    /// The entry's own metadata; `None` where it could not be read.
    pub meta: Option<EntryMeta>,
}

/// What is known of an entry's counterpart in the previous generation.
#[derive(Debug, PartialEq, Eq)]
pub struct ReferenceEntry {
    /// Whether the path leads to anything, links followed.
    pub exists: bool,
    /// The target, where the counterpart is itself a symbolic link whose
    /// target could be read.
    pub symlink_target: Option<String>,
    /// The metadata of what the path leads to; `None` where it could not be read.
    pub meta: Option<FileMeta>,
}

/// The outcome of the cheap part of a decision.
#[derive(Debug, PartialEq, Eq)]
pub enum Decision {
    /// The action is settled.
    Act(SyncAction),
    /// Size, permissions and the caller's wish leave it to the content: hash
    /// the source and the counterpart at the given path, then ask
    /// [`decide_by_content`].
    CompareContent(String),
}

/// A [`Decision`] with its paths as character sequences.
pub enum DecisionView {
    Act(ActionView),
    CompareContent(Seq<char>),
}

impl View for Decision {
    type V = DecisionView;

    open spec fn view(&self) -> DecisionView {
        match self {
            Decision::Act(action) => DecisionView::Act(action@),
            Decision::CompareContent(reference) => DecisionView::CompareContent(reference@),
        }
    }
}

/// Whether the entry is known to be a symbolic link itself.
pub open spec fn is_link(source: SourceEntry) -> bool {
    source.meta matches Some(meta) && meta.kind is Symlink
}

/// The action for an entry that has no counterpart to compare with: a
/// symbolic link is made anew, whatever it leads to; a directory is
/// created; anything else is copied as new, and so is a link whose target
/// cannot be read.
pub open spec fn unreferenced_action(source: SourceEntry) -> ActionView {
    match source.meta {
        Some(EntryMeta { kind: EntryKind::Symlink(target), .. }) => match target {
            Some(t) => ActionView::MakeSymlink(t@),
            None => ActionView::CopyNew,
        },
        _ => if source.is_dir {
            ActionView::CreateDir
        } else {
            ActionView::CopyNew
        },
    }
}

/// The action for a symbolic link whose counterpart exists.
pub open spec fn symlink_action(
    target: Option<String>,
    reference_path: Seq<char>,
    reference: ReferenceEntry,
) -> ActionView {
    match target {
        Some(t) => {
            if reference.symlink_target matches Some(old) && old@ == t@ {
                ActionView::Link(reference_path)
            } else {
                ActionView::MakeSymlink(t@)
            }
        },
        None => ActionView::Skip,
    }
}

/// The decision for a file that is neither directory nor link and whose
/// counterpart exists: size, then permissions, then modification time.
pub open spec fn file_decision(
    file: FileMeta,
    reference_path: Seq<char>,
    reference: ReferenceEntry,
    check_content: bool,
) -> DecisionView {
    match reference.meta {
        None => DecisionView::Act(ActionView::CopyNew),
        Some(old) => {
            if file.len != old.len || permissions_differ(file, old) {
                DecisionView::Act(ActionView::CopyModified)
            } else if check_content {
                DecisionView::CompareContent(reference_path)
            } else if mtimes_match(file, old) {
                DecisionView::Act(ActionView::Link(reference_path))
            } else {
                DecisionView::Act(ActionView::CopyModified)
            }
        },
    }
}

/// What [`decide_action`] returns: the first rule that applies decides.
/// Without a counterpart the entry is new. With one, an entry that cannot
/// be read is skipped, a symbolic link goes by its target, a directory is
/// created, and a file goes by size, permissions and modification time.
pub open spec fn decision_for(
    old_path: Option<Seq<char>>,
    check_content: bool,
    source: SourceEntry,
    reference: ReferenceEntry,
) -> DecisionView {
    match old_path {
        None => DecisionView::Act(unreferenced_action(source)),
        Some(reference_path) => {
            if !reference.exists {
                DecisionView::Act(unreferenced_action(source))
            } else {
                match source.meta {
                    None => DecisionView::Act(ActionView::Skip),
                    Some(meta) => match meta.kind {
                        EntryKind::Symlink(target) => DecisionView::Act(
                            symlink_action(target, reference_path, reference),
                        ),
                        EntryKind::Plain => if source.is_dir {
                            DecisionView::Act(ActionView::CreateDir)
                        } else {
                            file_decision(meta.file, reference_path, reference, check_content)
                        },
                    },
                }
            }
        },
    }
}

/// What [`decide_by_content`] returns: a hardlink only where both hashes are
/// known and equal.
pub open spec fn content_action(
    reference_path: Seq<char>,
    source_hash: Option<u64>,
    reference_hash: Option<u64>,
) -> ActionView {
    match (source_hash, reference_hash) {
        (Some(s), Some(r)) => if s == r {
            ActionView::Link(reference_path)
        } else {
            ActionView::CopyModified
        },
        _ => ActionView::CopyModified,
    }
}

/// The action that a decision comes to once the content hashes are in.
pub open spec fn settle(decision: DecisionView, source_hash: Option<u64>, reference_hash: Option<u64>) -> ActionView {
    match decision {
        DecisionView::Act(action) => action,
        DecisionView::CompareContent(reference_path) => content_action(reference_path, source_hash, reference_hash),
    }
}

/// The action for an entry as a function of everything that bears on it. The
/// hashes count only where [`decision_for`] asks for the content.
pub open spec fn classify(
    old_path: Option<Seq<char>>,
    check_content: bool,
    source: SourceEntry,
    reference: ReferenceEntry,
    source_hash: Option<u64>,
    reference_hash: Option<u64>,
) -> ActionView {
    settle(decision_for(old_path, check_content, source, reference), source_hash, reference_hash)
}

fn decide_unreferenced(source: &SourceEntry) -> (action: SyncAction)
    ensures
        action@ == unreferenced_action(*source),
{
    match &source.meta {
        Some(EntryMeta { kind: EntryKind::Symlink(target), .. }) => match target {
            Some(t) => SyncAction::MakeSymlink(t.clone()),
            None => SyncAction::CopyNew,
        },
        _ => if source.is_dir {
            SyncAction::CreateDir
        } else {
            SyncAction::CopyNew
        },
    }
}

fn decide_symlink(target: &Option<String>, reference_path: &String, reference: &ReferenceEntry) -> (action:
    SyncAction)
    ensures
        action@ == symlink_action(*target, reference_path@, *reference),
{
    match target {
        Some(t) => {
            let same = match &reference.symlink_target {
                Some(old) => *old == *t,
                None => false,
            };
            if same {
                SyncAction::Link(reference_path.clone())
            } else {
                SyncAction::MakeSymlink(t.clone())
            }
        },
        None => SyncAction::Skip,
    }
}

fn decide_file(file: &FileMeta, reference_path: &String, reference: &ReferenceEntry, check_content: bool) -> (decision:
    Decision)
    ensures
        decision@ == file_decision(*file, reference_path@, *reference, check_content),
{
    let old = match &reference.meta {
        Some(m) => m,
        None => return Decision::Act(SyncAction::CopyNew),
    };
    if file.len != old.len {
        return Decision::Act(SyncAction::CopyModified);
    }
    let modes_differ = match (file.mode, old.mode) {
        (Some(s), Some(r)) => s != r,
        _ => false,
    };
    if modes_differ {
        return Decision::Act(SyncAction::CopyModified);
    }
    if check_content {
        return Decision::CompareContent(reference_path.clone());
    }
    let unchanged = match (&file.modified, &old.modified) {
        (Some(s), Some(r)) => s.is_close_to(r),
        _ => false,
    };
    if unchanged {
        Decision::Act(SyncAction::Link(reference_path.clone()))
    } else {
        Decision::Act(SyncAction::CopyModified)
    }
}

/// Decides what to do with `task` from the cheap signals alone: whether there
/// is a counterpart, what kind of entry the source is, size, permissions and
/// modification time. Where the run checks content and these do not settle
/// it, the answer is [`Decision::CompareContent`].
pub fn decide_action(task: &FileTask, config: &BackupConfig, source: &SourceEntry, reference: &ReferenceEntry) -> (decision:
    Decision)
    ensures
        decision@ == decision_for(task@.old_path, config.check_content, *source, *reference),
{
    let check_content = config.check_content;
    let reference_path = match &task.old_path {
        Some(p) => p,
        None => return Decision::Act(decide_unreferenced(source)),
    };
    if !reference.exists {
        return Decision::Act(decide_unreferenced(source));
    }
    let meta = match &source.meta {
        Some(m) => m,
        None => return Decision::Act(SyncAction::Skip),
    };
    match &meta.kind {
        EntryKind::Symlink(target) => Decision::Act(decide_symlink(target, reference_path, reference)),
        EntryKind::Plain => if source.is_dir {
            Decision::Act(SyncAction::CreateDir)
        } else {
            decide_file(&meta.file, reference_path, reference, check_content)
        },
    }
}

/// Settles a [`Decision::CompareContent`] from the two content hashes, each
/// `None` where the file could not be read: a hardlink to `reference_path`
/// where both are known and equal, a copy otherwise.
pub fn decide_by_content(reference_path: String, source_hash: Option<u64>, reference_hash: Option<u64>) -> (action:
    SyncAction)
    ensures
        action@ == content_action(reference_path@, source_hash, reference_hash),
{
    match (source_hash, reference_hash) {
        (Some(s), Some(r)) => {
            if s == r {
                SyncAction::Link(reference_path)
            } else {
                SyncAction::CopyModified
            }
        },
        _ => SyncAction::CopyModified,
    }
}

/// Whether the entry is a readable file, neither directory nor symbolic link,
/// with the given metadata.
pub open spec fn is_plain_file(source: SourceEntry, file: FileMeta) -> bool {
    &&& !source.is_dir
    &&& source.meta matches Some(meta)
    &&& meta.kind is Plain
    &&& meta.file == file
}

/// Whether the counterpart exists and its metadata could be read as given.
pub open spec fn is_readable_reference(reference: ReferenceEntry, file: FileMeta) -> bool {
    reference.exists && reference.meta == Some(file)
}

/// A file whose length differs from that of its counterpart is copied as
/// modified, whatever the modification times, the permissions, the hashes
/// and the wish for a content check.
pub proof fn law_size_change_is_modification(
    reference_path: Seq<char>,
    check_content: bool,
    source: SourceEntry,
    reference: ReferenceEntry,
    file: FileMeta,
    old: FileMeta,
    source_hash: Option<u64>,
    reference_hash: Option<u64>,
)
    requires
        is_plain_file(source, file),
        is_readable_reference(reference, old),
        file.len != old.len,
    ensures
        classify(Some(reference_path), check_content, source, reference, source_hash, reference_hash)
            == ActionView::CopyModified,
{
}

/// With the content check off, a file of the same size and permissions as
/// its counterpart is hardlinked exactly where the two modification times
/// are less than a second apart, and copied as modified otherwise.
pub proof fn law_mtime_tolerance(
    reference_path: Seq<char>,
    source: SourceEntry,
    reference: ReferenceEntry,
    file: FileMeta,
    old: FileMeta,
    modified: Timestamp,
    old_modified: Timestamp,
    source_hash: Option<u64>,
    reference_hash: Option<u64>,
)
    requires
        is_plain_file(source, file),
        is_readable_reference(reference, old),
        file.len == old.len,
        !permissions_differ(file, old),
        file.modified == Some(modified),
        old.modified == Some(old_modified),
    ensures
        ({
            let gap = modified.nanos_since_epoch() - old_modified.nanos_since_epoch();
            classify(Some(reference_path), false, source, reference, source_hash, reference_hash) == if -1_000_000_000
                < gap < 1_000_000_000 {
                ActionView::Link(reference_path)
            } else {
                ActionView::CopyModified
            }
        }),
{
}

/// Where size, permissions and modification time all speak for an unchanged
/// file, the content check has the last word: without it the file is
/// hardlinked; with it the file is hardlinked only if both hashes are known
/// and equal, and copied as modified otherwise.
pub proof fn law_content_check_overrides_mtime(
    reference_path: Seq<char>,
    check_content: bool,
    source: SourceEntry,
    reference: ReferenceEntry,
    file: FileMeta,
    old: FileMeta,
    source_hash: Option<u64>,
    reference_hash: Option<u64>,
)
    requires
        is_plain_file(source, file),
        is_readable_reference(reference, old),
        file.len == old.len,
        !permissions_differ(file, old),
        mtimes_match(file, old),
    ensures
        ({
            let action = classify(
                Some(reference_path),
                check_content,
                source,
                reference,
                source_hash,
                reference_hash,
            );
            let same_content = source_hash is Some && source_hash == reference_hash;
            action == if !check_content || same_content {
                ActionView::Link(reference_path)
            } else {
                ActionView::CopyModified
            }
        }),
{
}

/// Where an entry has no counterpart, as every entry in a first backup,
/// a symbolic link whose target can be read is made anew, whatever it
/// leads to; a directory is created; every other entry is copied as new.
/// Nothing is hardlinked, skipped or taken as modified.
pub proof fn law_first_backup_has_no_references(
    old_path: Option<Seq<char>>,
    check_content: bool,
    source: SourceEntry,
    reference: ReferenceEntry,
    source_hash: Option<u64>,
    reference_hash: Option<u64>,
)
    requires
        old_path is None || !reference.exists,
    ensures
        ({
            let action = classify(old_path, check_content, source, reference, source_hash, reference_hash);
            &&& match source.meta {
                Some(EntryMeta { kind: EntryKind::Symlink(Some(target)), .. }) => action == ActionView::MakeSymlink(
                    target@,
                ),
                Some(EntryMeta { kind: EntryKind::Symlink(None), .. }) => action == ActionView::CopyNew,
                _ => action == if source.is_dir {
                    ActionView::CreateDir
                } else {
                    ActionView::CopyNew
                },
            }
            &&& !(action is Link) && !(action is Skip) && !(action is CopyModified)
        }),
{
}

/// A symbolic link is never followed: an entry that is itself a link is
/// never created as a directory nor copied by content, whatever the link
/// leads to and whether or not it has a counterpart. Its target decides,
/// and a link without a counterpart whose target cannot be read is the one
/// link that is copied, as new.
pub proof fn law_link_is_backed_up_as_link(
    old_path: Option<Seq<char>>,
    check_content: bool,
    source: SourceEntry,
    reference: ReferenceEntry,
    source_hash: Option<u64>,
    reference_hash: Option<u64>,
)
    requires
        is_link(source),
    ensures
        ({
            let action = classify(old_path, check_content, source, reference, source_hash, reference_hash);
            &&& !(action is CreateDir) && !(action is CopyModified)
            &&& source.meta matches Some(EntryMeta { kind: EntryKind::Symlink(Some(target)), .. }) ==> (action
                == ActionView::MakeSymlink(target@) || (old_path matches Some(reference_path) && action
                == ActionView::Link(reference_path) && reference.exists && (reference.symlink_target matches Some(
                old,
            ) && old@ == target@)))
        }),
{
}

/// With the content check off, an entry that has not changed since the
/// previous generation is never copied: a file whose counterpart has the same
/// size, permissions and modification time, and a symbolic link whose
/// counterpart is a link to the same target, are hardlinked.
pub proof fn law_unchanged_entry_is_linked(
    reference_path: Seq<char>,
    source: SourceEntry,
    reference: ReferenceEntry,
    source_hash: Option<u64>,
    reference_hash: Option<u64>,
)
    requires
        reference.exists,
        source.meta matches Some(meta) && (match meta.kind {
            EntryKind::Plain => !source.is_dir && meta.file.modified is Some && reference.meta == Some(meta.file),
            EntryKind::Symlink(target) => target matches Some(t) && reference.symlink_target matches Some(old)
                && old@ == t@,
        }),
    ensures
        classify(Some(reference_path), false, source, reference, source_hash, reference_hash) == ActionView::Link(
            reference_path,
        ),
{
}

/// A hardlink is decided only on positive evidence: the counterpart exists
/// and either both are links to the same target, or size and permissions
/// agree and, as asked, the modification times or the content hashes match.
pub proof fn law_link_needs_evidence(
    old_path: Option<Seq<char>>,
    check_content: bool,
    source: SourceEntry,
    reference: ReferenceEntry,
    source_hash: Option<u64>,
    reference_hash: Option<u64>,
)
    requires
        classify(old_path, check_content, source, reference, source_hash, reference_hash) is Link,
    ensures
        old_path matches Some(reference_path) && classify(
            old_path,
            check_content,
            source,
            reference,
            source_hash,
            reference_hash,
        ) == ActionView::Link(reference_path),
        reference.exists,
        source.meta matches Some(meta) && (match meta.kind {
            EntryKind::Symlink(target) => target matches Some(t) && reference.symlink_target matches Some(old)
                && old@ == t@,
            EntryKind::Plain => !source.is_dir && (reference.meta matches Some(old) && meta.file.len == old.len
                && !permissions_differ(meta.file, old) && if check_content {
                source_hash is Some && source_hash == reference_hash
            } else {
                mtimes_match(meta.file, old)
            }),
        }),
{
}

/// `Display` of `glob::PatternError`, through `format!`: where in the
/// pattern the error lies and what it is, in words. Nothing is claimed of
/// the text.
#[verifier::external_body]
fn error_text(error: &PatternError) -> String {
    format!("{}", error)
}

/// An exclusion pattern that is not a valid glob pattern and was dropped.
#[derive(Debug, PartialEq, Eq)]
pub struct RejectedPattern {
    pub pattern: String,
    /// What is wrong with it, in words.
    pub reason: String,
}

/// The patterns of the rejected ones.
pub open spec fn rejected_texts(rejected: Seq<RejectedPattern>) -> Seq<Seq<char>> {
    rejected.map_values(|r: RejectedPattern| r.pattern@)
}

/// Those of the patterns that are valid glob patterns, in the order given.
pub open spec fn accepted(patterns: Seq<Seq<char>>) -> Seq<Seq<char>> {
    patterns.filter(|t: Seq<char>| glob_accepts(t))
}

/// Those of the patterns that are malformed, in the order given.
pub open spec fn refused(patterns: Seq<Seq<char>>) -> Seq<Seq<char>> {
    patterns.filter(|t: Seq<char>| !glob_accepts(t))
}

proof fn lemma_sorting_one_more(patterns: Seq<Seq<char>>, pattern: Seq<char>)
    ensures
        accepted(patterns.push(pattern)) == if glob_accepts(pattern) {
            accepted(patterns).push(pattern)
        } else {
            accepted(patterns)
        },
        refused(patterns.push(pattern)) == if glob_accepts(pattern) {
            refused(patterns)
        } else {
            refused(patterns).push(pattern)
        },
{
    patterns.lemma_filter_push(pattern, |t: Seq<char>| glob_accepts(t));
    patterns.lemma_filter_push(pattern, |t: Seq<char>| !glob_accepts(t));
}

/// Exclusion patterns, compiled.
pub struct CompiledPatterns {
    /// The valid patterns, in the order given.
    pub patterns: Vec<Pattern>,
    /// The others, in the order given.
    pub rejected: Vec<RejectedPattern>,
}

/// Compiles the exclusion patterns, once for the whole walk. A pattern that
/// is malformed is set aside, to be reported; it never stops the run.
pub fn compile_patterns(patterns: &Vec<String>) -> (out: CompiledPatterns)
    ensures
        pattern_texts(out.patterns@) == accepted(texts(patterns@)),
        rejected_texts(out.rejected@) == refused(texts(patterns@)),
{
    let mut compiled: Vec<Pattern> = Vec::new();
    let mut rejected: Vec<RejectedPattern> = Vec::new();
    let mut i: usize = 0;
    proof {
        assert(texts(patterns@).take(0) =~= Seq::<Seq<char>>::empty());
        reveal(Seq::filter);
        assert(pattern_texts(compiled@) =~= Seq::<Seq<char>>::empty());
        assert(rejected_texts(rejected@) =~= Seq::<Seq<char>>::empty());
    }
    while i < patterns.len()
        invariant
            i <= patterns.len(),
            pattern_texts(compiled@) == accepted(texts(patterns@).take(i as int)),
            rejected_texts(rejected@) == refused(texts(patterns@).take(i as int)),
        decreases patterns.len() - i,
    {
        let text = &patterns[i];
        proof {
            let seen = texts(patterns@).take(i as int);
            assert(texts(patterns@).take(i + 1) =~= seen.push(text@));
            lemma_sorting_one_more(seen, text@);
        }
        match Pattern::new(text.as_str()) {
            Ok(p) => {
                proof {
                    assert(pattern_texts(compiled@.push(p)) =~= pattern_texts(compiled@).push(text@));
                }
                compiled.push(p);
            },
            Err(e) => {
                let r = RejectedPattern { pattern: text.clone(), reason: error_text(&e) };
                proof {
                    assert(rejected_texts(rejected@.push(r)) =~= rejected_texts(rejected@).push(text@));
                }
                rejected.push(r);
            },
        }
        i += 1;
    }
    assert(texts(patterns@).take(patterns@.len() as int) =~= texts(patterns@));
    CompiledPatterns { patterns: compiled, rejected }
}

/// Whether position `n` of `path` ends a component: the start, the end, or
/// the place of a separator.
pub open spec fn is_boundary(platform: Platform, path: Seq<char>, n: int) -> bool {
    0 <= n <= path.len() && (n == 0 || n == path.len() || platform.separates(path[n]))
}

/// Whether `above` is `path` itself or a directory on the way down to it:
/// the root, written as the empty path, or a prefix that ends where a
/// component of `path` ends.
pub open spec fn is_at_or_above(platform: Platform, above: Seq<char>, path: Seq<char>) -> bool {
    above.is_prefix_of(path) && is_boundary(platform, path, above.len() as int)
}

/// Whether the entry at the relative path `rel` is left out of the backup:
/// a pattern matches the entry itself, or a directory above it. What lies
/// below an excluded directory is excluded with it, whether or not a
/// pattern matches its own path.
pub open spec fn is_excluded(platform: Platform, patterns: Seq<Seq<char>>, rel: Seq<char>) -> bool {
    exists|n: int| is_boundary(platform, rel, n) && any_matches(patterns, #[trigger] rel.take(n))
}

/// The paths of `path` cut at the component ends before position `n`,
/// shortest first.
pub open spec fn cuts_before(platform: Platform, path: Seq<char>, n: nat) -> Seq<Seq<char>>
    decreases n,
{
    if n == 0 {
        seq![]
    } else {
        let front = cuts_before(platform, path, (n - 1) as nat);
        if is_boundary(platform, path, n - 1) {
            front.push(path.take(n - 1))
        } else {
            front
        }
    }
}

/// The root, written as the empty path, then every directory on the way
/// down to `path`, then `path` itself.
pub open spec fn paths_above(platform: Platform, path: Seq<char>) -> Seq<Seq<char>> {
    cuts_before(platform, path, path.len() + 1)
}

proof fn lemma_cuts_are_the_boundaries(platform: Platform, path: Seq<char>, n: nat, cut: Seq<char>)
    ensures
        cuts_before(platform, path, n).contains(cut) <==> exists|k: int|
            0 <= k < n && is_boundary(platform, path, k) && cut == #[trigger] path.take(k),
    decreases n,
{
    if n > 0 {
        let front = cuts_before(platform, path, (n - 1) as nat);
        let all = cuts_before(platform, path, n);
        lemma_cuts_are_the_boundaries(platform, path, (n - 1) as nat, cut);
        if front.contains(cut) {
            let j = choose|j: int| 0 <= j < front.len() && front[j] == cut;
            assert(all[j] == cut);
        }
        if is_boundary(platform, path, n - 1) {
            assert(all[front.len() as int] == path.take(n - 1));
        }
        if all.contains(cut) {
            let j = choose|j: int| 0 <= j < all.len() && all[j] == cut;
            if j < front.len() {
                assert(front[j] == cut);
            }
        }
    }
}

/// The root, written as the empty path, then every directory on the way
/// down to the relative path, then the path itself.
pub fn ancestors(platform: Platform, rel_path: &str) -> (above: Vec<String>)
    ensures
        texts(above@) == paths_above(platform, rel_path@),
{
    let rel = chars_of(rel_path);
    let mut above: Vec<String> = Vec::new();
    let mut n: usize = 0;
    assert(texts(above@) =~= Seq::<Seq<char>>::empty());
    loop
        invariant_except_break
            n <= rel.len(),
            rel@ == rel_path@,
            texts(above@) == cuts_before(platform, rel@, n as nat),
        ensures
            texts(above@) == paths_above(platform, rel_path@),
        decreases rel.len() - n,
    {
        if n == 0 || n == rel.len() || platform.is_separator(rel[n]) {
            let cut = slice_of(rel.as_slice(), 0, n);
            let cut_text = string_of(cut.as_slice());
            proof {
                assert(cut_text@ == rel@.take(n as int));
                assert(texts(above@.push(cut_text)) =~= texts(above@).push(cut_text@));
            }
            above.push(cut_text);
        }
        if n == rel.len() {
            break;
        }
        n += 1;
    }
    above
}

/// Whether the entry at the relative path is left out of the backup: a
/// pattern matches it, or a directory above it.
pub fn excluded(platform: Platform, rel_path: &str, patterns: &[Pattern]) -> (out: bool)
    ensures
        out == is_excluded(platform, pattern_texts(patterns@), rel_path@),
{
    let above = ancestors(platform, rel_path);
    let ghost cuts = paths_above(platform, rel_path@);
    let mut i: usize = 0;
    while i < above.len()
        invariant
            i <= above.len(),
            texts(above@) == cuts,
            cuts == paths_above(platform, rel_path@),
            forall|k: int| 0 <= k < i ==> !any_matches(pattern_texts(patterns@), #[trigger] cuts[k]),
        decreases above.len() - i,
    {
        if matches_exclude_pattern(above[i].as_str(), patterns) {
            proof {
                let cut = cuts[i as int];
                assert(above@[i as int]@ == cut);
                assert(cuts.contains(cut));
                lemma_cuts_are_the_boundaries(platform, rel_path@, rel_path@.len() + 1, cut);
            }
            return true;
        }
        i += 1;
    }
    proof {
        assert forall|n: int| is_boundary(platform, rel_path@, n) implies !any_matches(
            pattern_texts(patterns@),
            #[trigger] rel_path@.take(n),
        ) by {
            let cut = rel_path@.take(n);
            lemma_cuts_are_the_boundaries(platform, rel_path@, rel_path@.len() + 1, cut);
            assert(cuts.contains(cut));
            let k = choose|k: int| 0 <= k < cuts.len() && cuts[k] == cut;
            assert(!any_matches(pattern_texts(patterns@), cuts[k]));
        }
    }
    false
}

/// Once a directory is excluded, so is everything below it, even what no
/// pattern matches by itself.
pub proof fn law_exclusion_covers_descendants(
    platform: Platform,
    patterns: Seq<Seq<char>>,
    dir: Seq<char>,
    below: Seq<char>,
)
    requires
        is_excluded(platform, patterns, dir),
        is_at_or_above(platform, dir, below),
    ensures
        is_excluded(platform, patterns, below),
{
    let n = choose|n: int| is_boundary(platform, dir, n) && any_matches(patterns, #[trigger] dir.take(n));
    assert(dir =~= below.take(dir.len() as int));
    assert(dir.take(n) =~= below.take(n));
    if n < dir.len() && n > 0 {
        assert(dir[n] == below[n]);
    }
    assert(is_boundary(platform, below, n));
}

/// A directory that a pattern matches hides the whole tree below it: no
/// path made by joining further components to the directory's path escapes
/// the exclusion.
pub proof fn law_matched_directory_hides_its_tree(
    platform: Platform,
    patterns: Seq<Seq<char>>,
    dir: Seq<char>,
    rest: Seq<char>,
)
    requires
        any_matches(patterns, dir),
        dir.len() > 0 ==> !platform.separates(dir.last()),
    ensures
        is_excluded(platform, patterns, joined(platform, dir, rest)),
{
    let below = joined(platform, dir, rest);
    assert(dir.take(dir.len() as int) =~= dir);
    assert(is_boundary(platform, dir, dir.len() as int));
    assert(is_excluded(platform, patterns, dir));
    if dir.len() > 0 {
        assert(below =~= dir + (seq![platform.separator()] + rest));
        assert(below[dir.len() as int] == platform.separator());
    }
    assert(dir =~= below.subrange(0, dir.len() as int));
    law_exclusion_covers_descendants(platform, patterns, dir, below);
}

/// What is left of `path` below the directory `base`: `None` where `path`
/// is not `base` or a path below it; the empty path for `base` itself.
pub open spec fn relative_part(platform: Platform, path: Seq<char>, base: Seq<char>) -> Option<Seq<char>> {
    if !base.is_prefix_of(path) {
        None
    } else if base.len() == 0 || base.len() == path.len() || platform.separates(base.last()) {
        Some(path.skip(base.len() as int))
    } else if platform.separates(path[base.len() as int]) {
        Some(path.skip(base.len() as int + 1))
    } else {
        None
    }
}

/// The path of an entry relative to the directory `base`, where the entry
/// is `base` or lies below it.
pub fn relative_to(platform: Platform, path: &str, base: &str) -> (rel: Option<String>)
    ensures
        opt_view(rel) == relative_part(platform, path@, base@),
{
    let whole = chars_of(path);
    let root = chars_of(base);
    if !starts_with(whole.as_slice(), root.as_slice()) {
        return None;
    }
    let n = root.len();
    let from = if n == 0 || n == whole.len() || platform.is_separator(root[n - 1]) {
        n
    } else if platform.is_separator(whole[n]) {
        n + 1
    } else {
        return None;
    };
    let rest = slice_of(whole.as_slice(), from, whole.len());
    assert(whole@.subrange(from as int, whole@.len() as int) == whole@.skip(from as int));
    Some(string_of(rest.as_slice()))
}

/// A directory that the scan works from.
#[derive(Debug, PartialEq, Eq)]
pub struct Root {
    /// The path as it was given.
    pub path: String,
    /// The same path made absolute; `path` again where that is absolute.
    pub resolved: String,
}

/// A [`Root`] as character sequences.
pub struct RootView {
    pub path: Seq<char>,
    pub resolved: Seq<char>,
}

impl View for Root {
    type V = RootView;

    open spec fn view(&self) -> RootView {
        RootView { path: self.path@, resolved: self.resolved@ }
    }
}

/// An optional root by its view.
pub open spec fn opt_root(root: Option<Root>) -> Option<RootView> {
    match root {
        Some(r) => Some(r@),
        None => None,
    }
}

/// The long-path-safe path of the entry `rel` below `root`.
pub open spec fn path_below(platform: Platform, root: RootView, rel: Seq<char>) -> Seq<char> {
    verbatim_form(platform, joined(platform, root.path, rel), joined(platform, root.resolved, rel))
}

/// The task for the entry that the walk found at `entry_path`, `rel` below
/// the source root: read from where it was found, written to the same
/// relative path in the generation under way, compared with the same
/// relative path in the previous generation, where there is one.
pub open spec fn entry_task(
    platform: Platform,
    source: RootView,
    backup_dir: RootView,
    latest_backup: Option<RootView>,
    entry_path: Seq<char>,
    rel: Seq<char>,
) -> FileTaskView {
    FileTaskView {
        rel_path: rel,
        src_path: verbatim_form(platform, entry_path, source.resolved + entry_path.skip(source.path.len() as int)),
        dest_path: path_below(platform, backup_dir, rel),
        old_path: match latest_backup {
            Some(latest) => Some(path_below(platform, latest, rel)),
            None => None,
        },
    }
}

/// What the scan makes of one entry that the walk found.
#[derive(Debug, PartialEq, Eq)]
pub enum ScanStep {
    /// The entry is backed up: this is its task.
    Task(FileTask),
    /// An exclusion pattern leaves the entry out.
    Excluded,
    /// The entry does not lie below the source root.
    Outside,
}

/// The scan of one source tree: where entries come from and go to, and
/// what is left out.
pub struct Scanner {
    pub platform: Platform,
    /// The root of the tree that is walked.
    pub source: Root,
    /// The directory of the generation under way.
    pub backup_dir: Root,
    /// The directory of the previous generation, where there is one.
    pub latest_backup: Option<Root>,
    /// The exclusion patterns, compiled.
    pub patterns: Vec<Pattern>,
}

fn below(platform: Platform, root: &Root, rel: &str) -> (path: String)
    ensures
        path@ == path_below(platform, root@, rel@),
{
    let plain = join_path(platform, root.path.as_str(), rel);
    let resolved = join_path(platform, root.resolved.as_str(), rel);
    to_verbatim_path(platform, plain.as_str(), resolved.as_str())
}

impl Scanner {
    /// A scan of the tree at `source` into `backup_dir`, against the
    /// previous generation at `latest_backup`. The exclusion patterns of
    /// `config` are compiled here, once; those that are malformed come back
    /// beside the scanner and take no part in the scan.
    pub fn new(platform: Platform, config: &BackupConfig, source: Root, backup_dir: Root, latest_backup: Option<Root>) -> (out:
        (Scanner, Vec<RejectedPattern>))
        ensures
            out.0.platform == platform,
            out.0.source == source,
            out.0.backup_dir == backup_dir,
            out.0.latest_backup == latest_backup,
            pattern_texts(out.0.patterns@) == accepted(config@.exclude_patterns),
            rejected_texts(out.1@) == refused(config@.exclude_patterns),
    {
        let compiled = compile_patterns(&config.exclude_patterns);
        (Scanner { platform, source, backup_dir, latest_backup, patterns: compiled.patterns }, compiled.rejected)
    }

    /// Whether the walk may hand out the entry at `entry_path` and, where
    /// it is a directory, go down into it: no exclusion pattern matches its
    /// path relative to the source root. An entry that does not lie below
    /// the root is let through.
    pub fn admits(&self, entry_path: &str) -> (yes: bool)
        ensures
            yes == match relative_part(self.platform, entry_path@, self.source.path@) {
                Some(rel) => !any_matches(pattern_texts(self.patterns@), rel),
                None => true,
            },
    {
        match relative_to(self.platform, entry_path, self.source.path.as_str()) {
            Some(rel) => !matches_exclude_pattern(rel.as_str(), self.patterns.as_slice()),
            None => true,
        }
    }

    fn build_task(&self, entry_path: &str, rel: String) -> (task: FileTask)
        requires
            relative_part(self.platform, entry_path@, self.source.path@) == Some(rel@),
        ensures
            task@ == entry_task(
                self.platform,
                self.source@,
                self.backup_dir@,
                opt_root(self.latest_backup),
                entry_path@,
                rel@,
            ),
    {
        let entry = chars_of(entry_path);
        let source_len = chars_of(self.source.path.as_str()).len();
        let mut resolved = chars_of(self.source.resolved.as_str());
        let tail = slice_of(entry.as_slice(), source_len, entry.len());
        assert(entry@.subrange(source_len as int, entry@.len() as int) == entry@.skip(source_len as int));
        append_chars(&mut resolved, tail.as_slice());
        let resolved_text = string_of(resolved.as_slice());
        let src_path = to_verbatim_path(self.platform, entry_path, resolved_text.as_str());
        let dest_path = below(self.platform, &self.backup_dir, rel.as_str());
        let old_path = match &self.latest_backup {
            Some(latest) => Some(below(self.platform, latest, rel.as_str())),
            None => None,
        };
        FileTask::new(rel, src_path, dest_path, old_path)
    }

    /// The task for the entry at `entry_path`, whatever the exclusion
    /// patterns say of it: where it is read from, where it goes and what it
    /// is compared with. `None` where the entry does not lie below the
    /// source root.
    pub fn task_for(&self, entry_path: &str) -> (task: Option<FileTask>)
        ensures
            match task {
                Some(t) => relative_part(self.platform, entry_path@, self.source.path@) matches Some(rel) && t@
                    == entry_task(
                    self.platform,
                    self.source@,
                    self.backup_dir@,
                    opt_root(self.latest_backup),
                    entry_path@,
                    rel,
                ),
                None => relative_part(self.platform, entry_path@, self.source.path@) is None,
            },
    {
        match relative_to(self.platform, entry_path, self.source.path.as_str()) {
            Some(rel) => Some(self.build_task(entry_path, rel)),
            None => None,
        }
    }

    /// What to make of the entry that the walk found at `entry_path`: its
    /// task, unless the entry is excluded or does not lie below the source
    /// root.
    pub fn scan_entry(&self, entry_path: &str) -> (step: ScanStep)
        ensures
            match step {
                ScanStep::Outside => relative_part(self.platform, entry_path@, self.source.path@) is None,
                ScanStep::Excluded => relative_part(self.platform, entry_path@, self.source.path@) matches Some(rel)
                    && is_excluded(self.platform, pattern_texts(self.patterns@), rel),
                ScanStep::Task(task) => relative_part(self.platform, entry_path@, self.source.path@) matches Some(
                    rel,
                ) && !is_excluded(self.platform, pattern_texts(self.patterns@), rel) && task@ == entry_task(
                    self.platform,
                    self.source@,
                    self.backup_dir@,
                    opt_root(self.latest_backup),
                    entry_path@,
                    rel,
                ),
            },
    {
        let rel = match relative_to(self.platform, entry_path, self.source.path.as_str()) {
            Some(rel) => rel,
            None => return ScanStep::Outside,
        };
        if excluded(self.platform, rel.as_str(), self.patterns.as_slice()) {
            return ScanStep::Excluded;
        }
        ScanStep::Task(self.build_task(entry_path, rel))
    }
}

/// Nothing below a directory that a pattern matches becomes a task, even
/// where no pattern matches the entry's own path.
pub proof fn law_no_task_below_excluded_directory(scanner: Scanner, entry_path: Seq<char>, dir: Seq<char>)
    requires
        any_matches(pattern_texts(scanner.patterns@), dir),
        relative_part(scanner.platform, entry_path, scanner.source.path@) matches Some(rel) && is_at_or_above(
            scanner.platform,
            dir,
            rel,
        ),
    ensures
        relative_part(scanner.platform, entry_path, scanner.source.path@) matches Some(rel) && is_excluded(
            scanner.platform,
            pattern_texts(scanner.patterns@),
            rel,
        ),
{
    let rel = relative_part(scanner.platform, entry_path, scanner.source.path@)->0;
    assert(dir =~= rel.take(dir.len() as int));
}

/// The latest committed generation among the entries of a destination: the
/// last by name, `None` where there is none yet.
pub fn find_latest_backup(entries: &Vec<DirEntry>) -> (latest: Option<String>)
    ensures
        opt_view(latest) == if sorted_backups(listing(entries@)).len() == 0 {
            None
        } else {
            Some(sorted_backups(listing(entries@)).last())
        },
{
    let mut names = find_all_backups(entries);
    assert(texts(names@).len() == names@.len());
    if names.len() > 0 {
        assert(texts(names@).last() == names@.last()@);
    }
    names.pop()
}

/// One entry of a source tree with its counterpart in the previous
/// generation.
pub struct Compared {
    pub reference_path: Seq<char>,
    pub source: SourceEntry,
    pub reference: ReferenceEntry,
}

/// Whether the entry is as it was when the previous generation was made: a
/// directory; a file whose counterpart has the same size, permissions and
/// modification time; or a symbolic link whose counterpart is a link to the
/// same target.
pub open spec fn is_unchanged(entry: Compared) -> bool {
    &&& entry.reference.exists
    &&& entry.source.meta matches Some(meta)
    &&& match meta.kind {
        EntryKind::Plain => entry.source.is_dir || (meta.file.modified is Some && entry.reference.meta == Some(
            meta.file,
        )),
        EntryKind::Symlink(target) => target matches Some(t) && entry.reference.symlink_target matches Some(old) && old@
            == t@,
    }
}

/// The tasks of a run without content check over the given entries, each
/// with the action decided for it and carried out without failure.
pub open spec fn completed_run(entries: Seq<Compared>) -> Seq<(ActionView, TaskOutcome)> {
    entries.map_values(
        |entry: Compared|
            (
                classify(Some(entry.reference_path), false, entry.source, entry.reference, None, None),
                TaskOutcome::Completed(0),
            ),
    )
}

/// A second run over a source that has not changed copies nothing: with
/// the content check off, no file counts as new or modified, and as many
/// entries are hardlinked as the run counts files.
pub proof fn law_second_run_copies_nothing(entries: Seq<Compared>)
    requires
        forall|i: int| 0 <= i < entries.len() ==> is_unchanged(#[trigger] entries[i]),
    ensures
        Tally::of_tasks(completed_run(entries)).copied_new == 0,
        Tally::of_tasks(completed_run(entries)).copied_modified == 0,
        Tally::of_tasks(completed_run(entries)).linked == Tally::of_tasks(completed_run(entries)).total_files,
{
    let tasks = completed_run(entries);
    assert forall|i: int| 0 <= i < tasks.len() implies (#[trigger] tasks[i]).1 is Completed && (tasks[i].0 is Link
        || tasks[i].0 is CreateDir) by {
        assert(is_unchanged(entries[i]));
    }
    crate::actions::law_unchanged_run_only_links(tasks);
}

/// Content is read only on request and only where nothing cheaper decides:
/// the hashes are asked for just where the run checks content and the entry
/// is a file, neither directory nor link, whose counterpart can be read and
/// has the same size and permissions.
pub proof fn law_content_is_read_as_a_last_resort(
    old_path: Option<Seq<char>>,
    check_content: bool,
    source: SourceEntry,
    reference: ReferenceEntry,
)
    requires
        decision_for(old_path, check_content, source, reference) is CompareContent,
    ensures
        check_content,
        old_path matches Some(reference_path) && decision_for(old_path, check_content, source, reference)
            == DecisionView::CompareContent(reference_path),
        reference.exists,
        !source.is_dir,
        source.meta matches Some(meta) && meta.kind is Plain && (reference.meta matches Some(old) && meta.file.len
            == old.len && !permissions_differ(meta.file, old)),
{
}

/// The relative path of an entry is what was joined to the root to reach
/// it: taking the path of `rel` below `base` and asking what lies below
/// `base` gives `rel` back.
pub proof fn law_relative_undoes_join(platform: Platform, base: Seq<char>, rel: Seq<char>)
    ensures
        relative_part(platform, joined(platform, base, rel), base) == Some(rel),
{
    let path = joined(platform, base, rel);
    if base.len() == 0 || platform.separates(base.last()) {
        assert(path =~= base + rel);
        assert(base =~= path.subrange(0, base.len() as int));
        assert(path.skip(base.len() as int) =~= rel);
    } else {
        assert(path =~= base + (seq![platform.separator()] + rel));
        assert(base =~= path.subrange(0, base.len() as int));
        assert(path[base.len() as int] == platform.separator());
        assert(path.skip(base.len() as int + 1) =~= rel);
    }
}

} // verus!
