//! Paths as text, on either family of platforms, and the figures of the
//! final report.

use vstd::prelude::*;
use glob::{Pattern, PatternError};
use crate::text::{append_chars, chars_of, decimal, digit, digit_char, push_decimal, starts_with, string_of};

verus! {

/// The family of platforms that a path is written for. It decides what
/// separates the components of a path, whether long paths need a prefix and
/// whether files carry permission bits.
#[derive(Debug, Clone, Copy, PartialEq, Eq, Structural)]
pub enum Platform {
    Posix,
    Windows,
}

impl Platform {
    /// Whether `c` separates the components of a path.
    pub open spec fn separates(self, c: char) -> bool {
        c == '/' || (self is Windows && c == '\\')
    }

    /// The separator that is written between components.
    pub open spec fn separator(self) -> char {
        match self {
            Platform::Posix => '/',
            Platform::Windows => '\\',
        }
    }

    /// Whether `c` separates the components of a path.
    pub fn is_separator(self, c: char) -> (yes: bool)
        ensures
            yes == self.separates(c),
    {
        c == '/' || (self == Platform::Windows && c == '\\')
    }

    /// The separator that is written between components.
    pub fn main_separator(self) -> (c: char)
        ensures
            c == self.separator(),
    {
        match self {
            Platform::Posix => '/',
            Platform::Windows => '\\',
        }
    }
}

/// `base` with the relative path `rel` below it: the two are set side by
/// side, with one separator between them unless `base` is empty or already
/// ends in one. An empty `rel` thus leaves `base` ending in a separator.
pub open spec fn joined(platform: Platform, base: Seq<char>, rel: Seq<char>) -> Seq<char> {
    if base.len() == 0 || platform.separates(base.last()) {
        base + rel
    } else {
        base.push(platform.separator()) + rel
    }
}

/// The path of `rel`, a relative path, below `base`.
pub fn join_path(platform: Platform, base: &str, rel: &str) -> (path: String)
    ensures
        path@ == joined(platform, base@, rel@),
{
    let mut out = chars_of(base);
    let tail = chars_of(rel);
    let n = out.len();
    if n > 0 && !platform.is_separator(out[n - 1]) {
        out.push(platform.main_separator());
    }
    append_chars(&mut out, tail.as_slice());
    string_of(out.as_slice())
}

/// The prefix that marks a Windows path as verbatim: taken as it stands,
/// free of the limit on its length.
pub open spec fn verbatim_prefix() -> Seq<char> {
    seq!['\\', '\\', '?', '\\']
}

fn verbatim_prefix_chars() -> (prefix: Vec<char>)
    ensures
        prefix@ == verbatim_prefix(),
{
    let mut prefix: Vec<char> = Vec::new();
    prefix.push('\\');
    prefix.push('\\');
    prefix.push('?');
    prefix.push('\\');
    assert(prefix@ =~= verbatim_prefix());
    prefix
}

/// `path` with every `/` turned into `\`.
pub open spec fn backslashed(path: Seq<char>) -> Seq<char> {
    Seq::new(
        path.len(),
        |i: int|
            if path[i] == '/' {
                '\\'
            } else {
                path[i]
            },
    )
}

/// The long-path-safe form of a path. On Posix that is the path itself. On
/// Windows a path that already carries the verbatim prefix is kept;
/// otherwise the result is the prefix followed by `resolved` with `\` for
/// every `/`.
pub open spec fn verbatim_form(platform: Platform, path: Seq<char>, resolved: Seq<char>) -> Seq<char> {
    match platform {
        Platform::Posix => path,
        Platform::Windows => if verbatim_prefix().is_prefix_of(path) {
            path
        } else {
            verbatim_prefix() + backslashed(resolved)
        },
    }
}

/// The long-path-safe form of `path`. `resolved` is the same path made
/// absolute against the current directory (or `path` itself where it is
/// absolute already, or where there is no current directory to be had); it
/// counts only on Windows, for a path without the verbatim prefix.
pub fn to_verbatim_path(platform: Platform, path: &str, resolved: &str) -> (out: String)
    ensures
        out@ == verbatim_form(platform, path@, resolved@),
{
    let given = chars_of(path);
    if platform == Platform::Posix {
        return string_of(given.as_slice());
    }
    let prefix = verbatim_prefix_chars();
    if starts_with(given.as_slice(), prefix.as_slice()) {
        return string_of(given.as_slice());
    }
    let absolute = chars_of(resolved);
    let mut out = prefix;
    let mut i: usize = 0;
    while i < absolute.len()
        invariant
            i <= absolute.len(),
            out@ == verbatim_prefix() + backslashed(absolute@).take(i as int),
        decreases absolute.len() - i,
    {
        let c = absolute[i];
        out.push(
            if c == '/' {
                '\\'
            } else {
                c
            },
        );
        i += 1;
        assert(backslashed(absolute@).take(i as int) == backslashed(absolute@).take(i - 1).push(
            backslashed(absolute@)[i - 1],
        ));
    }
    string_of(out.as_slice())
}

/// `path` without the verbatim prefix, where it has one.
pub open spec fn without_verbatim_prefix(path: Seq<char>) -> Seq<char> {
    if verbatim_prefix().is_prefix_of(path) {
        path.skip(4)
    } else {
        path
    }
}

/// The path in the form that is shown to people: without the verbatim
/// prefix, where it has one, and unchanged otherwise.
pub fn strip_verbatim_prefix(path: &str) -> (out: String)
    ensures
        out@ == without_verbatim_prefix(path@),
{
    let given = chars_of(path);
    let prefix = verbatim_prefix_chars();
    if starts_with(given.as_slice(), prefix.as_slice()) {
        let rest = crate::text::slice_of(given.as_slice(), 4, given.len());
        assert(given@.subrange(4, given@.len() as int) == given@.skip(4));
        string_of(rest.as_slice())
    } else {
        string_of(given.as_slice())
    }
}

/// Stripping undoes the long-path form: what comes back is the path itself
/// on Posix and for a path that had the prefix already, and the resolved
/// path with `\` for every `/` otherwise, prefix and all removed.
pub proof fn law_strip_undoes_verbatim(platform: Platform, path: Seq<char>, resolved: Seq<char>)
    ensures
        without_verbatim_prefix(verbatim_form(platform, path, resolved)) == if verbatim_prefix().is_prefix_of(path) {
            path.skip(4)
        } else if platform is Posix {
            path
        } else {
            backslashed(resolved)
        },
{
    if platform is Windows && !verbatim_prefix().is_prefix_of(path) {
        let long = verbatim_prefix() + backslashed(resolved);
        assert(long.subrange(0, 4) =~= verbatim_prefix());
        assert(long.skip(4) =~= backslashed(resolved));
    }
}

/// A compiled glob pattern of the `glob` crate.
#[verifier::external_type_specification]
#[verifier::external_body]
pub struct ExPattern(Pattern);

/// Why the `glob` crate refused a pattern.
#[verifier::external_type_specification]
#[verifier::external_body]
pub struct ExPatternError(PatternError);

/// Whether the `glob` crate accepts `pattern` as a glob pattern. The answer
/// is that of the build at hand: a `**` must stand between path separators,
/// and what counts as a separator is decided by the platform that the crate
/// is built for.
pub uninterp spec fn glob_accepts(pattern: Seq<char>) -> bool;

/// Whether the glob pattern `pattern` matches the whole of `text`, by the
/// rules of the `glob` crate with its default options. The answer is that
/// of the build at hand, in two respects. What a `**` may span depends on
/// what the platform that the crate is built for takes as a path separator.
/// And in a build for Windows a separator written in the pattern matches
/// either separator in the text, `/` as well as `\`, while elsewhere a
/// character of the pattern matches only itself.
pub uninterp spec fn glob_matches(pattern: Seq<char>, text: Seq<char>) -> bool;

/// The text that a compiled pattern was compiled from.
pub uninterp spec fn pattern_text(pattern: Pattern) -> Seq<char>;

/// `glob::Pattern::new` compiles a pattern it accepts, and the compiled
/// pattern keeps the text it came from; any other text is an error.
pub assume_specification[ Pattern::new ](pattern: &str) -> (compiled: Result<Pattern, PatternError>)
    ensures
        compiled is Ok <==> glob_accepts(pattern@),
        compiled matches Ok(p) ==> pattern_text(p) == pattern@,
;

/// `glob::Pattern::matches` says whether the pattern matches the whole of
/// the text, by the default options.
pub assume_specification[ Pattern::matches ](pattern: &Pattern, str: &str) -> (hit: bool)
    ensures
        hit == glob_matches(pattern_text(*pattern), str@),
;

/// The texts that the compiled patterns came from.
pub open spec fn pattern_texts(patterns: Seq<Pattern>) -> Seq<Seq<char>> {
    patterns.map_values(|p: Pattern| pattern_text(p))
}

/// Whether one of the patterns matches `path`.
pub open spec fn any_matches(patterns: Seq<Seq<char>>, path: Seq<char>) -> bool {
    exists|i: int| 0 <= i < patterns.len() && glob_matches(#[trigger] patterns[i], path)
}

/// Whether one of the exclusion patterns matches the relative path.
pub fn matches_exclude_pattern(rel_path: &str, patterns: &[Pattern]) -> (hit: bool)
    ensures
        hit == any_matches(pattern_texts(patterns@), rel_path@),
{
    let mut i: usize = 0;
    while i < patterns.len()
        invariant
            i <= patterns.len(),
            forall|k: int| 0 <= k < i ==> !glob_matches(#[trigger] pattern_texts(patterns@)[k], rel_path@),
        decreases patterns.len() - i,
    {
        if patterns[i].matches(rel_path) {
            assert(glob_matches(pattern_texts(patterns@)[i as int], rel_path@));
            return true;
        }
        i += 1;
    }
    false
}

/// A length of time in words: hours, minutes and seconds, the larger units
/// only where the time reaches them.
pub open spec fn duration_text(secs: nat) -> Seq<char> {
    if secs >= 3600 {
        decimal(secs / 3600) + seq!['h', ' '] + decimal(secs % 3600 / 60) + seq!['m', ' '] + decimal(secs % 60)
            + seq!['s']
    } else if secs >= 60 {
        decimal(secs / 60) + seq!['m', ' '] + decimal(secs % 60) + seq!['s']
    } else {
        decimal(secs) + seq!['s']
    }
}

/// A number of seconds as `1h 1m 1s`, `2m 5s` or `45s`.
pub fn format_duration(secs: u64) -> (out: String)
    ensures
        out@ == duration_text(secs as nat),
{
    let mut out: Vec<char> = Vec::new();
    if secs >= 3600 {
        push_decimal(&mut out, secs / 3600);
        out.push('h');
        out.push(' ');
    }
    if secs >= 60 {
        push_decimal(&mut out, secs % 3600 / 60);
        out.push('m');
        out.push(' ');
    }
    push_decimal(&mut out, secs % 60);
    out.push('s');
    proof {
        if secs < 3600 && secs >= 60 {
            assert(secs % 3600 / 60 == secs / 60);
        }
        if secs < 60 {
            assert(secs % 60 == secs);
        }
        assert(out@ =~= duration_text(secs as nat));
    }
    string_of(out.as_slice())
}

/// The number of bytes in a kilobyte, as amounts of data are reported here.
pub const KB: u64 = 1024;

/// The number of bytes in a megabyte.
pub const MB: u64 = 1048576;

/// The number of bytes in a gigabyte.
pub const GB: u64 = 1073741824;

/// The number of bytes in a terabyte.
pub const TB: u64 = 1099511627776;

/// `a / q` as the nearest whole number, a tie going to the even one.
pub open spec fn rounded_quotient(a: nat, q: nat) -> nat {
    let down = a / q;
    let left = a % q;
    if 2 * left > q || (2 * left == q && down % 2 == 1) {
        down + 1
    } else {
        down
    }
}

/// The distance between neighbouring double-precision numbers at `n`: 1 up
/// to 2^53, and twice as much with every doubling of `n` from there.
pub open spec fn double_spacing(n: u64) -> nat {
    if n < 0x20_0000_0000_0000 {
        1
    } else if n < 0x40_0000_0000_0000 {
        2
    } else if n < 0x80_0000_0000_0000 {
        4
    } else if n < 0x100_0000_0000_0000 {
        8
    } else if n < 0x200_0000_0000_0000 {
        16
    } else if n < 0x400_0000_0000_0000 {
        32
    } else if n < 0x800_0000_0000_0000 {
        64
    } else if n < 0x1000_0000_0000_0000 {
        128
    } else if n < 0x2000_0000_0000_0000 {
        256
    } else if n < 0x4000_0000_0000_0000 {
        512
    } else if n < 0x8000_0000_0000_0000 {
        1024
    } else {
        2048
    }
}

/// The double-precision number nearest to `n`, a tie going to the one with
/// the even significand: the value that an amount is reported from.
pub open spec fn nearest_double(n: u64) -> nat {
    rounded_quotient(n as nat, double_spacing(n)) * double_spacing(n)
}

/// `bytes` in hundredths of `unit`, through the nearest double-precision
/// number and rounded to the nearest hundredth, a tie going to the even one.
pub open spec fn hundredths(bytes: u64, unit: u64) -> nat {
    rounded_quotient(nearest_double(bytes) * 100, unit as nat)
}

/// An amount of so many hundredths with its unit: the whole part, a point,
/// two decimals, a space and the unit's name.
pub open spec fn amount_text(hundredths: nat, unit_name: Seq<char>) -> Seq<char> {
    decimal(hundredths / 100) + seq!['.', digit((hundredths % 100 / 10) as int), digit((hundredths % 10) as int), ' ']
        + unit_name
}

/// An amount of data in words: in the largest unit that it fills, with two
/// decimals; below a kilobyte the plain number of bytes.
pub open spec fn bytes_text(bytes: u64) -> Seq<char> {
    if bytes >= TB {
        amount_text(hundredths(bytes, TB), seq!['T', 'B'])
    } else if bytes >= GB {
        amount_text(hundredths(bytes, GB), seq!['G', 'B'])
    } else if bytes >= MB {
        amount_text(hundredths(bytes, MB), seq!['M', 'B'])
    } else if bytes >= KB {
        amount_text(hundredths(bytes, KB), seq!['K', 'B'])
    } else {
        decimal(bytes as nat) + seq![' ', 'B']
    }
}

fn spacing_at(n: u64) -> (spacing: u64)
    ensures
        spacing == double_spacing(n),
        1 <= spacing <= 2048,
{
    if n < 0x20_0000_0000_0000 {
        1
    } else if n < 0x40_0000_0000_0000 {
        2
    } else if n < 0x80_0000_0000_0000 {
        4
    } else if n < 0x100_0000_0000_0000 {
        8
    } else if n < 0x200_0000_0000_0000 {
        16
    } else if n < 0x400_0000_0000_0000 {
        32
    } else if n < 0x800_0000_0000_0000 {
        64
    } else if n < 0x1000_0000_0000_0000 {
        128
    } else if n < 0x2000_0000_0000_0000 {
        256
    } else if n < 0x4000_0000_0000_0000 {
        512
    } else if n < 0x8000_0000_0000_0000 {
        1024
    } else {
        2048
    }
}

fn round_quotient(a: u128, q: u128) -> (out: u128)
    requires
        q > 0,
        a <= 0x1_0000_0000_0000_0000_0000,
    ensures
        out == rounded_quotient(a as nat, q as nat),
        out * q <= a + q,
        out <= a + 1,
{
    let down = a / q;
    let left = a % q;
    proof {
        assert(down * q + left == a && down <= a && left < q) by (nonlinear_arith)
            requires
                down == a / q,
                left == a % q,
                q > 0,
                a >= 0,
        ;
        assert((down + 1) * q == down * q + q) by (nonlinear_arith);
    }
    if left > q - left || (left == q - left && down % 2 == 1) {
        down + 1
    } else {
        down
    }
}

fn push_amount(out: &mut Vec<char>, bytes: u64, unit: u64)
    requires
        unit >= 1024,
    ensures
        final(out)@ == old(out)@ + decimal(hundredths(bytes, unit) / 100) + seq![
            '.',
            digit((hundredths(bytes, unit) % 100 / 10) as int),
            digit((hundredths(bytes, unit) % 10) as int),
            ' ',
        ],
{
    let spacing: u128 = spacing_at(bytes) as u128;
    let steps = round_quotient(bytes as u128, spacing);
    assert(steps * spacing <= 0x1_0000_0000_0000_0800);
    let double: u128 = steps * spacing;
    let scaled: u128 = double * 100;
    let h = round_quotient(scaled, unit as u128);
    proof {
        assert(h * 1024 <= h * (unit as u128)) by (nonlinear_arith)
            requires
                unit >= 1024,
                h >= 0,
        ;
    }
    let whole: u64 = (h / 100) as u64;
    let cents: u8 = (h % 100) as u8;
    push_decimal(out, whole);
    out.push('.');
    out.push(digit_char(cents / 10));
    out.push(digit_char(cents % 10));
    out.push(' ');
    assert(out@ =~= old(out)@ + decimal(hundredths(bytes, unit) / 100) + seq![
        '.',
        digit((hundredths(bytes, unit) % 100 / 10) as int),
        digit((hundredths(bytes, unit) % 10) as int),
        ' ',
    ]);
}

/// An amount of data as `1.00 KB`, `1.50 MB` or `500 B`.
pub fn format_bytes(bytes: u64) -> (out: String)
    ensures
        out@ == bytes_text(bytes),
{
    let mut out: Vec<char> = Vec::new();
    if bytes >= TB {
        push_amount(&mut out, bytes, TB);
        out.push('T');
    } else if bytes >= GB {
        push_amount(&mut out, bytes, GB);
        out.push('G');
    } else if bytes >= MB {
        push_amount(&mut out, bytes, MB);
        out.push('M');
    } else if bytes >= KB {
        push_amount(&mut out, bytes, KB);
        out.push('K');
    } else {
        push_decimal(&mut out, bytes);
        out.push(' ');
    }
    out.push('B');
    assert(out@ =~= bytes_text(bytes));
    string_of(out.as_slice())
}

} // verus!
