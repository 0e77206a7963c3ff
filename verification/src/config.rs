//! The settings of one backup run, and the ignore file that adds to them.

use vstd::prelude::*;
use crate::store::Profile;
use crate::text::{
    append_chars, chars_of, copy_texts, lines_of, rows, split_lines, string_of, texts, trim, trimmed,
};
use crate::utils::{join_path, joined, Platform};

verus! {

/// The name of the file, in the source root, that lists further patterns to
/// leave out.
pub const IGNORE_FILE_NAME: &'static str = ".recallignore";

/// The settings of one backup run.
#[derive(Debug, PartialEq, Eq)]
pub struct BackupConfig {
    /// The directory to back up.
    pub source: String,
    /// The directory that holds the generations.
    pub destination: String,
    /// Whether files are compared by content where the cheap signals agree.
    pub check_content: bool,
    /// Glob patterns of what to leave out, none of them twice.
    pub exclude_patterns: Vec<String>,
    /// Whether the run leaves the filesystem alone.
    pub dry_run: bool,
}

/// `items` without the later occurrences of what it holds more than once.
pub open spec fn distinct(items: Seq<Seq<char>>) -> Seq<Seq<char>>
    decreases items.len(),
{
    if items.len() == 0 {
        seq![]
    } else {
        let front = distinct(items.drop_last());
        if front.contains(items.last()) {
            front
        } else {
            front.push(items.last())
        }
    }
}

/// Whether a trimmed line of an ignore file holds a pattern: it is neither
/// empty nor a comment, which begins with `#`.
pub open spec fn is_pattern_line(line: Seq<char>) -> bool {
    line.len() > 0 && line[0] != '#'
}

/// The patterns among the given lines: each line trimmed, empty lines and
/// comments left out.
pub open spec fn patterns_in(lines: Seq<Seq<char>>) -> Seq<Seq<char>> {
    lines.map_values(|line: Seq<char>| trimmed(line)).filter(|line: Seq<char>| is_pattern_line(line))
}

/// The patterns that an ignore file of the given content lists, in order.
pub open spec fn ignore_patterns(content: Seq<char>) -> Seq<Seq<char>> {
    patterns_in(lines_of(content))
}

/// The exclusion patterns of a run: those given, then those of the ignore
/// file, each at its first occurrence only.
pub open spec fn merged_patterns(given: Seq<Seq<char>>, ignore_file: Seq<char>) -> Seq<Seq<char>> {
    distinct(given + ignore_patterns(ignore_file))
}

proof fn lemma_distinct_push(items: Seq<Seq<char>>, item: Seq<char>)
    ensures
        distinct(items.push(item)) == if distinct(items).contains(item) {
            distinct(items)
        } else {
            distinct(items).push(item)
        },
{
    assert(items.push(item).drop_last() =~= items);
}

proof fn lemma_patterns_in_push(lines: Seq<Seq<char>>, line: Seq<char>)
    ensures
        patterns_in(lines.push(line)) == if is_pattern_line(trimmed(line)) {
            patterns_in(lines).push(trimmed(line))
        } else {
            patterns_in(lines)
        },
{
    let trim_line = |l: Seq<char>| trimmed(l);
    let keep = |l: Seq<char>| is_pattern_line(l);
    let mapped = lines.push(line).map_values(trim_line);
    assert(mapped =~= lines.map_values(trim_line).push(trimmed(line)));
    assert(mapped.drop_last() =~= lines.map_values(trim_line));
    reveal(Seq::filter);
}

proof fn lemma_contains_push(items: Seq<Seq<char>>, last: Seq<char>, item: Seq<char>)
    ensures
        items.push(last).contains(item) <==> items.contains(item) || item == last,
{
    let longer = items.push(last);
    if items.contains(item) {
        let i = choose|i: int| 0 <= i < items.len() && items[i] == item;
        assert(longer[i] == item);
    }
    if item == last {
        assert(longer[items.len() as int] == item);
    }
    if longer.contains(item) {
        let i = choose|i: int| 0 <= i < longer.len() && longer[i] == item;
        if i < items.len() {
            assert(items[i] == item);
        }
    }
}

/// What a list of distinct strings holds: every item of the input, each
/// once.
pub proof fn law_distinct_keeps_each_once(items: Seq<Seq<char>>)
    ensures
        distinct(items).no_duplicates(),
        forall|item: Seq<char>| distinct(items).contains(item) <==> items.contains(item),
    decreases items.len(),
{
    if items.len() > 0 {
        let front = items.drop_last();
        let last = items.last();
        let kept = distinct(front);
        law_distinct_keeps_each_once(front);
        assert(front.push(last) =~= items);
        assert forall|item: Seq<char>| distinct(items).contains(item) <==> items.contains(item) by {
            lemma_contains_push(front, last, item);
            lemma_contains_push(kept, last, item);
        }
        if !kept.contains(last) {
            let all = kept.push(last);
            assert forall|i: int, j: int| 0 <= i < all.len() && 0 <= j < all.len() && i != j implies all[i]
                != all[j] by {
                if i == kept.len() {
                    assert(kept[j] == all[j]);
                } else if j == kept.len() {
                    assert(kept[i] == all[i]);
                }
            }
        }
    }
}

fn holds(items: &Vec<String>, item: &String) -> (yes: bool)
    ensures
        yes == texts(items@).contains(item@),
{
    let mut i: usize = 0;
    while i < items.len()
        invariant
            i <= items.len(),
            forall|k: int| 0 <= k < i ==> texts(items@)[k] != item@,
        decreases items.len() - i,
    {
        if items[i] == *item {
            assert(texts(items@)[i as int] == item@);
            return true;
        }
        i += 1;
    }
    false
}

fn merge_patterns(given: &Vec<String>, ignore_file: &str) -> (out: Vec<String>)
    ensures
        texts(out@) == merged_patterns(texts(given@), ignore_file@),
{
    let mut out: Vec<String> = Vec::new();
    let mut i: usize = 0;
    assert(texts(given@).take(0) =~= Seq::<Seq<char>>::empty());
    while i < given.len()
        invariant
            i <= given.len(),
            texts(out@) == distinct(texts(given@).take(i as int)),
        decreases given.len() - i,
    {
        let item = given[i].clone();
        proof {
            lemma_distinct_push(texts(given@).take(i as int), item@);
            assert(texts(given@).take(i + 1) =~= texts(given@).take(i as int).push(item@));
            assert(texts(out@.push(item)) =~= texts(out@).push(item@));
        }
        if !holds(&out, &item) {
            out.push(item);
        }
        i += 1;
    }
    assert(texts(given@).take(given@.len() as int) =~= texts(given@));
    let content = chars_of(ignore_file);
    let lines = split_lines(content.as_slice());
    let mut j: usize = 0;
    assert(rows(lines@).take(0) =~= Seq::<Seq<char>>::empty());
    assert(patterns_in(Seq::<Seq<char>>::empty()) =~= Seq::<Seq<char>>::empty()) by {
        reveal(Seq::filter);
    }
    assert(texts(given@) + Seq::<Seq<char>>::empty() =~= texts(given@));
    while j < lines.len()
        invariant
            j <= lines.len(),
            texts(out@) == distinct(texts(given@) + patterns_in(rows(lines@).take(j as int))),
        decreases lines.len() - j,
    {
        let line = trim(lines[j].as_slice());
        proof {
            let seen = rows(lines@).take(j as int);
            assert(rows(lines@).take(j + 1) =~= seen.push(lines@[j as int]@));
            lemma_patterns_in_push(seen, lines@[j as int]@);
        }
        if line.len() > 0 && line[0] != '#' {
            let item = string_of(line.as_slice());
            proof {
                let before = texts(given@) + patterns_in(rows(lines@).take(j as int));
                lemma_distinct_push(before, item@);
                assert(texts(given@) + patterns_in(rows(lines@).take(j as int)).push(item@) =~= before.push(item@));
                assert(texts(out@.push(item)) =~= texts(out@).push(item@));
            }
            if !holds(&out, &item) {
                out.push(item);
            }
        }
        j += 1;
    }
    assert(rows(lines@).take(lines@.len() as int) =~= rows(lines@));
    out
}

/// A [`BackupConfig`] with its strings as character sequences.
pub struct BackupConfigView {
    pub source: Seq<char>,
    pub destination: Seq<char>,
    pub check_content: bool,
    pub exclude_patterns: Seq<Seq<char>>,
    pub dry_run: bool,
}

impl View for BackupConfig {
    type V = BackupConfigView;

    open spec fn view(&self) -> BackupConfigView {
        BackupConfigView {
            source: self.source@,
            destination: self.destination@,
            check_content: self.check_content,
            exclude_patterns: texts(self.exclude_patterns@),
            dry_run: self.dry_run,
        }
    }
}

impl Clone for BackupConfig {
    fn clone(&self) -> (copy: Self)
        ensures
            copy@ == self@,
    {
        BackupConfig {
            source: self.source.clone(),
            destination: self.destination.clone(),
            check_content: self.check_content,
            exclude_patterns: copy_texts(&self.exclude_patterns),
            dry_run: self.dry_run,
        }
    }
}

impl BackupConfig {
    /// Whether no exclusion pattern occurs twice.
    pub open spec fn well_formed(&self) -> bool {
        self@.exclude_patterns.no_duplicates()
    }

    /// The settings of a run. `ignore_file` is the content of the ignore
    /// file in the source root; its patterns follow those given, and no
    /// pattern is kept twice.
    pub fn new(
        source: String,
        destination: String,
        check_content: bool,
        exclude_patterns: Vec<String>,
        dry_run: bool,
        ignore_file: &str,
    ) -> (config: Self)
        ensures
            config@ == (BackupConfigView {
                source: source@,
                destination: destination@,
                check_content,
                exclude_patterns: merged_patterns(texts(exclude_patterns@), ignore_file@),
                dry_run,
            }),
            config.well_formed(),
    {
        let merged = merge_patterns(&exclude_patterns, ignore_file);
        proof {
            law_distinct_keeps_each_once(texts(exclude_patterns@) + ignore_patterns(ignore_file@));
        }
        BackupConfig { source, destination, check_content, exclude_patterns: merged, dry_run }
    }

    /// The settings of a run of a saved profile: its generations go below
    /// the profile's destination, in a directory named after the project.
    /// `ignore_file` is the content of the ignore file in the source root.
    pub fn from_profile(platform: Platform, profile: &Profile, project_name: &str, dry_run: bool, ignore_file: &str) -> (config:
        Self)
        ensures
            config@ == (BackupConfigView {
                source: profile.source@,
                destination: joined(platform, profile.destination@, project_name@),
                check_content: profile.check_content,
                exclude_patterns: merged_patterns(texts(profile.exclude@), ignore_file@),
                dry_run,
            }),
            config.well_formed(),
    {
        let merged = merge_patterns(&profile.exclude, ignore_file);
        proof {
            law_distinct_keeps_each_once(texts(profile.exclude@) + ignore_patterns(ignore_file@));
        }
        BackupConfig {
            source: profile.source.clone(),
            destination: join_path(platform, profile.destination.as_str(), project_name),
            check_content: profile.check_content,
            exclude_patterns: merged,
            dry_run,
        }
    }
}

/// What every new ignore file begins with.
pub const COMMON_IGNORES: &'static str =
    "# Recall Ignore File\n# Add patterns to exclude from backup (Glob style)\n\n# --- Common ---\n.git\n.svn\n.DS_Store\nThumbs.db\n\n";

/// What a new ignore file goes on with on Windows.
pub const WINDOWS_IGNORES: &'static str =
    "# --- Windows System ---\nSystem Volume Information\n$RECYCLE.BIN\nRecovery\npagefile.sys\nhiberfil.sys\nswapfile.sys\nDumpStack.log.tmp\n";

/// What a new ignore file goes on with elsewhere.
pub const POSIX_IGNORES: &'static str = "# --- Linux/macOS ---\n/proc\n/sys\n/dev\n";

/// The content of the ignore file that a source root is given where it
/// has none: what is left out everywhere, then what is left out on the
/// platform.
pub fn default_ignore_file(platform: Platform) -> (content: String)
    ensures
        content@ == COMMON_IGNORES@ + match platform {
            Platform::Windows => WINDOWS_IGNORES@,
            Platform::Posix => POSIX_IGNORES@,
        },
{
    let mut out = chars_of(COMMON_IGNORES);
    let rest = match platform {
        Platform::Windows => chars_of(WINDOWS_IGNORES),
        Platform::Posix => chars_of(POSIX_IGNORES),
    };
    append_chars(&mut out, rest.as_slice());
    string_of(out.as_slice())
}

} // verus!
