//! What the interactive front end decides: the name of a project, and what
//! a choice in the menu of profiles means.

use vstd::prelude::*;
use crate::store::Profile;
use crate::text::{append_chars, chars_of, code_point, distance_to, find_char, string_of};

verus! {

/// The name for the backups of a filesystem root that has no drive letter.
pub const ROOT_PROJECT: &'static str = "Root_Backup";

/// The name for the backups of a root whose path begins with a colon.
pub const UNKNOWN_DRIVE_PROJECT: &'static str = "Unknown_Drive";

/// What follows the drive letter in the name for the backups of a drive.
pub const DRIVE_SUFFIX: &'static str = "_Drive";

/// `c` in upper case, where it is one of the letters `a` to `z`.
pub open spec fn upper(c: char) -> char {
    if 'a' as int <= c as int <= 'z' as int {
        (c as int - 32) as char
    } else {
        c
    }
}

/// The name under which the backups of a source directory are kept: the
/// last component of its path; for a path that has none, a drive root, the
/// character before its first colon, a letter `a` to `z` in upper case, and
/// `_Drive`.
pub open spec fn project_name(file_name: Option<Seq<char>>, path: Seq<char>) -> Seq<char> {
    match file_name {
        Some(name) => name,
        None => {
            let colon = distance_to(path, ':') as int;
            if colon >= path.len() {
                ROOT_PROJECT@
            } else if colon == 0 {
                UNKNOWN_DRIVE_PROJECT@
            } else {
                seq![upper(path[colon - 1])] + DRIVE_SUFFIX@
            }
        },
    }
}

/// The name under which the backups of the source directory at `path` are
/// kept. `file_name` is the last component of the path, `None` where the
/// path has none, as a root has.
pub fn get_project_name(file_name: Option<&str>, path: &str) -> (name: String)
    ensures
        name@ == project_name(
            match file_name {
                Some(n) => Some(n@),
                None => None,
            },
            path@,
        ),
{
    if let Some(n) = file_name {
        return n.to_owned();
    }
    let text = chars_of(path);
    match find_char(text.as_slice(), ':') {
        None => ROOT_PROJECT.to_owned(),
        Some(colon) => {
            if colon == 0 {
                UNKNOWN_DRIVE_PROJECT.to_owned()
            } else {
                let letter = text[colon - 1];
                let code = code_point(letter);
                let drive = if 97 <= code && code <= 122 {
                    ((code - 32) as u8) as char
                } else {
                    letter
                };
                let mut out: Vec<char> = Vec::new();
                out.push(drive);
                let suffix = chars_of(DRIVE_SUFFIX);
                append_chars(&mut out, suffix.as_slice());
                assert(out@ =~= seq![upper(text@[colon - 1])] + DRIVE_SUFFIX@);
                string_of(out.as_slice())
            }
        },
    }
}

/// What a choice in the menu of profiles stands for.
#[derive(Debug, Clone, Copy, PartialEq, Eq, Structural)]
pub enum MenuChoice {
    /// Run the profile at this place in the list of names.
    Profile(usize),
    CreateProfile,
    DeleteProfile,
    Exit,
}

/// The number of entries of the menu: one for each profile, then one to
/// create a profile, one to delete one where there are any, and one to
/// leave.
pub open spec fn menu_len(profile_count: nat) -> nat {
    if profile_count == 0 {
        2
    } else {
        profile_count + 3
    }
}

/// What the entry at `selection` stands for, in a menu over `profile_count`
/// profiles.
pub open spec fn choice_at(profile_count: nat, selection: nat) -> Option<MenuChoice> {
    if selection < profile_count {
        Some(MenuChoice::Profile(selection as usize))
    } else if selection == profile_count {
        Some(MenuChoice::CreateProfile)
    } else if selection + 1 == menu_len(profile_count) {
        Some(MenuChoice::Exit)
    } else if selection + 2 == menu_len(profile_count) {
        Some(MenuChoice::DeleteProfile)
    } else {
        None
    }
}

/// What the entry at `selection` stands for, in a menu over `profile_count`
/// profiles; `None` where the menu has no such entry.
pub fn resolve_selection(profile_count: usize, selection: usize) -> (choice: Option<MenuChoice>)
    ensures
        choice == choice_at(profile_count as nat, selection as nat),
{
    if selection < profile_count {
        Some(MenuChoice::Profile(selection))
    } else if selection == profile_count {
        Some(MenuChoice::CreateProfile)
    } else if profile_count == 0 {
        if selection == 1 {
            Some(MenuChoice::Exit)
        } else {
            None
        }
    } else if selection - profile_count == 1 {
        Some(MenuChoice::DeleteProfile)
    } else if selection - profile_count == 2 {
        Some(MenuChoice::Exit)
    } else {
        None
    }
}

/// A profile as a line of the menu: its name, where it reads from and
/// writes to, and whether it checks content.
pub open spec fn menu_line(name: Seq<char>, source: Seq<char>, destination: Seq<char>, check_content: bool) -> Seq<
    char,
> {
    name + seq![' ', '('] + source + seq![' ', '\u{2192}', ' '] + destination + seq![')', ' ', '['] + seq![
        if check_content {
            '\u{2713}'
        } else {
            '\u{2717}'
        },
    ] + seq![']']
}

/// The line of the menu for the profile `profile` of the name `name`.
pub fn menu_label(name: &str, profile: &Profile) -> (line: String)
    ensures
        line@ == menu_line(name@, profile.source@, profile.destination@, profile.check_content),
{
    let mut out = chars_of(name);
    out.push(' ');
    out.push('(');
    let source = chars_of(profile.source.as_str());
    append_chars(&mut out, source.as_slice());
    out.push(' ');
    out.push('\u{2192}');
    out.push(' ');
    let destination = chars_of(profile.destination.as_str());
    append_chars(&mut out, destination.as_slice());
    out.push(')');
    out.push(' ');
    out.push('[');
    out.push(
        if profile.check_content {
            '\u{2713}'
        } else {
            '\u{2717}'
        },
    );
    out.push(']');
    assert(out@ =~= menu_line(name@, profile.source@, profile.destination@, profile.check_content));
    string_of(out.as_slice())
}

} // verus!
