//! Paths into a volume snapshot: which volume a source lies on, and where
//! the source is found inside a snapshot of that volume.

use vstd::prelude::*;
use crate::text::{chars_of, distance_to, find_char, slice_of, string_of};
use crate::utils::{join_path, joined, Platform};

verus! {

/// `text` without the run of `c` that it begins with.
pub open spec fn without_leading(text: Seq<char>, c: char) -> Seq<char>
    decreases text.len(),
{
    if text.len() > 0 && text[0] == c {
        without_leading(text.drop_first(), c)
    } else {
        text
    }
}

proof fn lemma_without_leading(text: Seq<char>, c: char, n: int)
    requires
        0 <= n <= text.len(),
        forall|k: int| 0 <= k < n ==> #[trigger] text[k] == c,
        n < text.len() ==> text[n] != c,
    ensures
        without_leading(text, c) == text.skip(n),
    decreases n,
{
    if n > 0 {
        let rest = text.drop_first();
        assert forall|k: int| 0 <= k < n - 1 implies #[trigger] rest[k] == c by {
            assert(rest[k] == text[k + 1]);
        }
        lemma_without_leading(rest, c, n - 1);
        assert(rest.skip(n - 1) =~= text.skip(n));
    } else {
        assert(text.skip(0) =~= text);
    }
}

fn strip_leading(text: &[char], c: char) -> (out: Vec<char>)
    ensures
        out@ == without_leading(text@, c),
{
    let mut n: usize = 0;
    while n < text.len() && text[n] == c
        invariant
            n <= text.len(),
            forall|k: int| 0 <= k < n ==> #[trigger] text@[k] == c,
        decreases text.len() - n,
    {
        n += 1;
    }
    proof {
        lemma_without_leading(text@, c, n as int);
        assert(text@.subrange(n as int, text@.len() as int) == text@.skip(n as int));
    }
    slice_of(text, n, text.len())
}

/// The root of the volume that `path` names: the path up to its first
/// colon, the colon and a backslash. `None` where the path holds no colon.
pub open spec fn volume_root(path: Seq<char>) -> Option<Seq<char>> {
    let colon = distance_to(path, ':') as int;
    if colon >= path.len() {
        None
    } else {
        Some(path.take(colon + 1).push('\\'))
    }
}

/// The root of the volume that a Windows path names by its drive, for
/// when the system cannot be asked: `C:\` for `C:\Users\Data`.
pub fn volume_root_of(path: &str) -> (root: Option<String>)
    ensures
        match root {
            Some(r) => volume_root(path@) == Some(r@),
            None => volume_root(path@) is None,
        },
{
    let text = chars_of(path);
    match find_char(text.as_slice(), ':') {
        None => None,
        Some(colon) => {
            let mut root = slice_of(text.as_slice(), 0, colon + 1);
            root.push('\\');
            assert(text@.subrange(0, colon + 1) == text@.take(colon + 1));
            Some(string_of(root.as_slice()))
        },
    }
}

/// The path of `source` inside a snapshot of its volume that is reached at
/// `snapshot_root`: what follows the drive and the separators after it,
/// below the snapshot's root. `None` where `source` names no drive.
pub open spec fn snapshot_path(source: Seq<char>, snapshot_root: Seq<char>) -> Option<Seq<char>> {
    let colon = distance_to(source, ':') as int;
    if colon >= source.len() {
        None
    } else {
        Some(
            joined(
                Platform::Windows,
                snapshot_root,
                without_leading(without_leading(source.skip(colon + 1), '\\'), '/'),
            ),
        )
    }
}

/// Where to read `source` from once a snapshot of its volume stands at
/// `snapshot_root`. `None` leaves the source where it is: a path without a
/// drive cannot be placed in the snapshot.
pub fn snapshot_source(source: &str, snapshot_root: &str) -> (mapped: Option<String>)
    ensures
        match mapped {
            Some(m) => snapshot_path(source@, snapshot_root@) == Some(m@),
            None => snapshot_path(source@, snapshot_root@) is None,
        },
{
    let text = chars_of(source);
    match find_char(text.as_slice(), ':') {
        None => None,
        Some(colon) => {
            let rest = slice_of(text.as_slice(), colon + 1, text.len());
            assert(text@.subrange(colon + 1, text@.len() as int) == text@.skip(colon + 1));
            let rest = strip_leading(rest.as_slice(), '\\');
            let rest = strip_leading(rest.as_slice(), '/');
            let rel = string_of(rest.as_slice());
            Some(join_path(Platform::Windows, snapshot_root, rel.as_str()))
        },
    }
}

} // verus!
