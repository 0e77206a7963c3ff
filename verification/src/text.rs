//! Strings as sequences of characters: the small vocabulary that the path,
//! name and pattern rules of this crate are written in.

use vstd::prelude::*;
use vstd::relations::{sorted_by, total_ordering};
use vstd::seq_lib::{lemma_sorted_unique, to_multiset_build, to_multiset_insert};

verus! {

/// `String::push`: appends the one character `c` to the end of `text`.
#[verifier::external_body]
fn push_char(text: &mut String, c: char)
    ensures
        final(text)@ == old(text)@.push(c),
{
    text.push(c);
}

/// The strings of a list, each as a sequence of characters.
pub open spec fn texts(items: Seq<String>) -> Seq<Seq<char>> {
    items.map_values(|item: String| item@)
}

/// A list of the same strings.
pub fn copy_texts(items: &Vec<String>) -> (copy: Vec<String>)
    ensures
        texts(copy@) == texts(items@),
{
    let mut copy: Vec<String> = Vec::new();
    let mut i: usize = 0;
    while i < items.len()
        invariant
            i <= items.len(),
            texts(copy@) == texts(items@).take(i as int),
        decreases items.len() - i,
    {
        let item = items[i].clone();
        proof {
            assert(texts(copy@.push(item)) =~= texts(copy@).push(item@));
            assert(texts(items@).take(i + 1) =~= texts(items@).take(i as int).push(item@));
        }
        copy.push(item);
        i += 1;
    }
    assert(texts(items@).take(items@.len() as int) =~= texts(items@));
    copy
}

/// The characters of `s`, in order.
pub fn chars_of(s: &str) -> (out: Vec<char>)
    ensures
        out@ == s@,
{
    let mut out: Vec<char> = Vec::new();
    for c in it: s.chars()
        invariant
            it.seq() == s@,
            out.len() == it.index(),
            forall|i: int| 0 <= i < out.len() ==> out@[i] == it.seq()[i],
    {
        out.push(c);
    }
    out
}

/// The string made of the given characters, in order.
pub fn string_of(chars: &[char]) -> (out: String)
    ensures
        out@ == chars@,
{
    let mut out = String::new();
    let mut i: usize = 0;
    while i < chars.len()
        invariant
            i <= chars.len(),
            out@ == chars@.take(i as int),
        decreases chars.len() - i,
    {
        push_char(&mut out, chars[i]);
        i += 1;
        assert(chars@.take(i as int) == chars@.take(i - 1).push(chars@[i - 1]));
    }
    out
}

/// Appends the characters of `tail` to `out`.
pub fn append_chars(out: &mut Vec<char>, tail: &[char])
    ensures
        final(out)@ == old(out)@ + tail@,
{
    let mut i: usize = 0;
    while i < tail.len()
        invariant
            i <= tail.len(),
            out@ == old(out)@ + tail@.take(i as int),
        decreases tail.len() - i,
    {
        out.push(tail[i]);
        i += 1;
        assert(tail@.take(i as int) == tail@.take(i - 1).push(tail@[i - 1]));
    }
}

/// The characters of `text` from position `from` up to, not including, `to`.
pub fn slice_of(text: &[char], from: usize, to: usize) -> (out: Vec<char>)
    requires
        from <= to <= text.len(),
    ensures
        out@ == text@.subrange(from as int, to as int),
{
    let mut out: Vec<char> = Vec::new();
    let mut i: usize = from;
    while i < to
        invariant
            from <= i <= to <= text.len(),
            out@ == text@.subrange(from as int, i as int),
        decreases to - i,
    {
        out.push(text[i]);
        i += 1;
        assert(text@.subrange(from as int, i as int) == text@.subrange(from as int, i - 1).push(text@[i - 1]));
    }
    out
}

/// Whether `text` begins with `prefix`.
pub fn starts_with(text: &[char], prefix: &[char]) -> (yes: bool)
    ensures
        yes == prefix@.is_prefix_of(text@),
{
    if prefix.len() > text.len() {
        return false;
    }
    let mut i: usize = 0;
    while i < prefix.len()
        invariant
            i <= prefix.len() <= text.len(),
            forall|k: int| 0 <= k < i ==> prefix@[k] == text@[k],
        decreases prefix.len() - i,
    {
        if prefix[i] != text[i] {
            return false;
        }
        i += 1;
    }
    assert(prefix@ =~= text@.subrange(0, prefix@.len() as int));
    true
}

/// Whether `text` ends with `suffix`.
pub fn ends_with(text: &[char], suffix: &[char]) -> (yes: bool)
    ensures
        yes == suffix@.is_suffix_of(text@),
{
    if suffix.len() > text.len() {
        return false;
    }
    let shift: usize = text.len() - suffix.len();
    let mut i: usize = 0;
    while i < suffix.len()
        invariant
            i <= suffix.len(),
            shift + suffix.len() == text.len(),
            forall|k: int| 0 <= k < i ==> suffix@[k] == text@[shift + k],
        decreases suffix.len() - i,
    {
        if suffix[i] != text[shift + i] {
            assert(text@.subrange(shift as int, text@.len() as int)[i as int] != suffix@[i as int]);
            return false;
        }
        i += 1;
    }
    assert(suffix@ =~= text@.subrange(shift as int, text@.len() as int));
    true
}

/// Whether the two sequences hold the same characters.
pub fn same_chars(a: &[char], b: &[char]) -> (yes: bool)
    ensures
        yes == (a@ == b@),
{
    if a.len() != b.len() {
        return false;
    }
    let mut i: usize = 0;
    while i < a.len()
        invariant
            i <= a.len(),
            a.len() == b.len(),
            forall|k: int| 0 <= k < i ==> a@[k] == b@[k],
        decreases a.len() - i,
    {
        if a[i] != b[i] {
            return false;
        }
        i += 1;
    }
    assert(a@ =~= b@);
    true
}

/// The number of characters of `text` before its first `c`, or its length
/// where it holds none.
pub open spec fn distance_to(text: Seq<char>, c: char) -> nat
    decreases text.len(),
{
    if text.len() == 0 || text[0] == c {
        0
    } else {
        1 + distance_to(text.drop_first(), c)
    }
}

/// What [`distance_to`] is: a position up to which no character is `c`, and
/// at which `text` ends or holds `c`.
pub proof fn lemma_distance_to(text: Seq<char>, c: char, n: int)
    requires
        0 <= n <= text.len(),
        forall|k: int| 0 <= k < n ==> #[trigger] text[k] != c,
        n < text.len() ==> text[n] == c,
    ensures
        distance_to(text, c) == n,
    decreases n,
{
    if n > 0 {
        let rest = text.drop_first();
        assert forall|k: int| 0 <= k < n - 1 implies #[trigger] rest[k] != c by {
            assert(rest[k] == text[k + 1]);
        }
        lemma_distance_to(rest, c, n - 1);
    }
}

/// The position of the first `c` in `text`, if it holds one.
pub fn find_char(text: &[char], c: char) -> (found: Option<usize>)
    ensures
        match found {
            Some(i) => i < text.len() && i == distance_to(text@, c) && text@[i as int] == c,
            None => distance_to(text@, c) == text.len(),
        },
{
    let mut i: usize = 0;
    while i < text.len()
        invariant
            i <= text.len(),
            forall|k: int| 0 <= k < i ==> #[trigger] text@[k] != c,
        decreases text.len() - i,
    {
        if text[i] == c {
            proof {
                lemma_distance_to(text@, c, i as int);
            }
            return Some(i);
        }
        i += 1;
    }
    proof {
        lemma_distance_to(text@, c, i as int);
    }
    None
}

/// Whether `c` is white space as Unicode defines it (the property
/// `White_Space`).
pub open spec fn is_space(c: char) -> bool {
    let n = c as int;
    ||| 0x09 <= n <= 0x0D
    ||| n == 0x20
    ||| n == 0x85
    ||| n == 0xA0
    ||| n == 0x1680
    ||| 0x2000 <= n <= 0x200A
    ||| n == 0x2028
    ||| n == 0x2029
    ||| n == 0x202F
    ||| n == 0x205F
    ||| n == 0x3000
}

/// Whether `c` is white space as Unicode defines it.
pub fn is_whitespace(c: char) -> (yes: bool)
    ensures
        yes == is_space(c),
{
    let n: u32 = c as u32;
    (0x09 <= n && n <= 0x0D) || n == 0x20 || n == 0x85 || n == 0xA0 || n == 0x1680 || (0x2000 <= n && n <= 0x200A)
        || n == 0x2028 || n == 0x2029 || n == 0x202F || n == 0x205F || n == 0x3000
}

/// The number of white-space characters that `text` begins with.
pub open spec fn leading_spaces(text: Seq<char>) -> nat
    decreases text.len(),
{
    if text.len() > 0 && is_space(text[0]) {
        1 + leading_spaces(text.drop_first())
    } else {
        0
    }
}

/// The number of white-space characters that `text` ends with.
pub open spec fn trailing_spaces(text: Seq<char>) -> nat
    decreases text.len(),
{
    if text.len() > 0 && is_space(text.last()) {
        1 + trailing_spaces(text.drop_last())
    } else {
        0
    }
}

/// `text` without the white space at either end.
pub open spec fn trimmed(text: Seq<char>) -> Seq<char> {
    let lead = leading_spaces(text) as int;
    if lead == text.len() {
        seq![]
    } else {
        text.subrange(lead, text.len() - trailing_spaces(text))
    }
}

proof fn lemma_leading_spaces(text: Seq<char>, n: int)
    requires
        0 <= n <= text.len(),
        forall|k: int| 0 <= k < n ==> is_space(#[trigger] text[k]),
        n < text.len() ==> !is_space(text[n]),
    ensures
        leading_spaces(text) == n,
    decreases n,
{
    if n > 0 {
        let rest = text.drop_first();
        assert forall|k: int| 0 <= k < n - 1 implies is_space(#[trigger] rest[k]) by {
            assert(rest[k] == text[k + 1]);
        }
        lemma_leading_spaces(rest, n - 1);
    }
}

proof fn lemma_trailing_spaces(text: Seq<char>, n: int)
    requires
        0 <= n <= text.len(),
        forall|k: int| text.len() - n <= k < text.len() ==> is_space(#[trigger] text[k]),
        n < text.len() ==> !is_space(text[text.len() - n - 1]),
    ensures
        trailing_spaces(text) == n,
    decreases n,
{
    if n > 0 {
        let rest = text.drop_last();
        assert forall|k: int| rest.len() - (n - 1) <= k < rest.len() implies is_space(#[trigger] rest[k]) by {
            assert(rest[k] == text[k]);
        }
        lemma_trailing_spaces(rest, n - 1);
    }
}

/// `text` without the white space at either end.
pub fn trim(text: &[char]) -> (out: Vec<char>)
    ensures
        out@ == trimmed(text@),
{
    let mut from: usize = 0;
    while from < text.len() && is_whitespace(text[from])
        invariant
            from <= text.len(),
            forall|k: int| 0 <= k < from ==> is_space(#[trigger] text@[k]),
        decreases text.len() - from,
    {
        from += 1;
    }
    proof {
        lemma_leading_spaces(text@, from as int);
    }
    if from == text.len() {
        return Vec::new();
    }
    let mut to: usize = text.len();
    while to > from + 1 && is_whitespace(text[to - 1])
        invariant
            from < to <= text.len(),
            forall|k: int| to <= k < text.len() ==> is_space(#[trigger] text@[k]),
        decreases to,
    {
        to -= 1;
    }
    proof {
        if to == from + 1 {
            assert(!is_space(text@[to - 1]));
        }
        lemma_trailing_spaces(text@, text.len() - to);
    }
    slice_of(text, from, to)
}

/// The lines of `text`: the pieces between its line feeds. A text of `n`
/// line feeds has `n + 1` lines, of which any may be empty.
pub open spec fn lines_of(text: Seq<char>) -> Seq<Seq<char>>
    decreases text.len(),
{
    let n = distance_to(text, '\n') as int;
    if n >= text.len() {
        seq![text]
    } else {
        seq![text.take(n)] + lines_of(text.skip(n + 1))
    }
}

/// The lines of a text, each as a sequence of characters.
pub open spec fn rows(lines: Seq<Vec<char>>) -> Seq<Seq<char>> {
    lines.map_values(|line: Vec<char>| line@)
}

/// The lines of `text`: the pieces between its line feeds.
pub fn split_lines(text: &[char]) -> (lines: Vec<Vec<char>>)
    ensures
        rows(lines@) == lines_of(text@),
{
    let mut lines: Vec<Vec<char>> = Vec::new();
    let mut start: usize = 0;
    assert(text@.skip(0) =~= text@);
    assert(rows(lines@) + lines_of(text@) =~= lines_of(text@));
    loop
        invariant_except_break
            start <= text.len(),
            lines_of(text@) == rows(lines@) + lines_of(text@.skip(start as int)),
        ensures
            rows(lines@) == lines_of(text@),
        decreases text.len() - start,
    {
        let mut end: usize = start;
        while end < text.len() && text[end] != '\n'
            invariant
                start <= end <= text.len(),
                forall|k: int| start <= k < end ==> #[trigger] text@[k] != '\n',
            decreases text.len() - end,
        {
            end += 1;
        }
        let line = slice_of(text, start, end);
        proof {
            let rest = text@.skip(start as int);
            assert forall|k: int| 0 <= k < end - start implies #[trigger] rest[k] != '\n' by {
                assert(rest[k] == text@[start + k]);
            }
            lemma_distance_to(rest, '\n', end - start);
            assert(rest.take(end - start) =~= text@.subrange(start as int, end as int));
            assert(rows(lines@.push(line)) =~= rows(lines@).push(line@));
            if end < text.len() {
                assert(rest.skip(end - start + 1) =~= text@.skip(end + 1));
                assert(rows(lines@).push(line@) + lines_of(text@.skip(end + 1)) =~= rows(lines@) + (seq![line@]
                    + lines_of(text@.skip(end + 1))));
            } else {
                assert(rest =~= line@);
                assert(rows(lines@).push(line@) =~= rows(lines@) + seq![rest]);
            }
        }
        lines.push(line);
        if end == text.len() {
            break;
        }
        start = end + 1;
    }
    lines
}

/// Whether `a` comes before `b`, or is `b`, in dictionary order: at the
/// first place where the two differ, `a` has ended or has the character of
/// the lower code point.
pub open spec fn lex_le(a: Seq<char>, b: Seq<char>) -> bool
    decreases a.len(),
{
    if a.len() == 0 {
        true
    } else if b.len() == 0 {
        false
    } else if a[0] == b[0] {
        lex_le(a.drop_first(), b.drop_first())
    } else {
        (a[0] as int) < (b[0] as int)
    }
}

/// Whether the names come in dictionary order, none of them twice.
pub open spec fn strictly_ascending(names: Seq<Seq<char>>) -> bool {
    forall|i: int, j: int| 0 <= i < j < names.len() ==> lex_le(#[trigger] names[i], #[trigger] names[j]) && names[i]
        != names[j]
}

/// Dictionary order as a relation.
pub open spec fn lex_order() -> spec_fn(Seq<char>, Seq<char>) -> bool {
    |a: Seq<char>, b: Seq<char>| lex_le(a, b)
}

proof fn lemma_lex_reflexive(a: Seq<char>)
    ensures
        lex_le(a, a),
    decreases a.len(),
{
    if a.len() > 0 {
        lemma_lex_reflexive(a.drop_first());
    }
}

proof fn lemma_lex_antisymmetric(a: Seq<char>, b: Seq<char>)
    requires
        lex_le(a, b),
        lex_le(b, a),
    ensures
        a == b,
    decreases a.len(),
{
    if a.len() > 0 {
        lemma_lex_antisymmetric(a.drop_first(), b.drop_first());
        assert(a =~= seq![a[0]] + a.drop_first());
        assert(b =~= seq![b[0]] + b.drop_first());
    } else {
        assert(a =~= b);
    }
}

proof fn lemma_lex_transitive(a: Seq<char>, b: Seq<char>, c: Seq<char>)
    requires
        lex_le(a, b),
        lex_le(b, c),
    ensures
        lex_le(a, c),
    decreases a.len(),
{
    if a.len() > 0 && a[0] == b[0] && b[0] == c[0] {
        lemma_lex_transitive(a.drop_first(), b.drop_first(), c.drop_first());
    }
}

proof fn lemma_lex_connected(a: Seq<char>, b: Seq<char>)
    ensures
        lex_le(a, b) || lex_le(b, a),
    decreases a.len(),
{
    if a.len() > 0 && b.len() > 0 {
        if a[0] == b[0] {
            lemma_lex_connected(a.drop_first(), b.drop_first());
        } else {
            assert(a[0] as int != b[0] as int);
        }
    }
}

/// Dictionary order is a total order: any two texts compare, and only a
/// text and itself compare both ways.
pub proof fn law_lex_order_is_total()
    ensures
        total_ordering(lex_order()),
{
    let leq = lex_order();
    assert forall|x: Seq<char>| #[trigger] leq(x, x) by {
        lemma_lex_reflexive(x);
    }
    assert forall|x: Seq<char>, y: Seq<char>| #[trigger] leq(x, y) && #[trigger] leq(y, x) implies x == y by {
        lemma_lex_antisymmetric(x, y);
    }
    assert forall|x: Seq<char>, y: Seq<char>, z: Seq<char>| #[trigger] leq(x, y) && #[trigger] leq(y, z) implies leq(
        x,
        z,
    ) by {
        lemma_lex_transitive(x, y, z);
    }
    assert forall|x: Seq<char>, y: Seq<char>| #[trigger] leq(x, y) || #[trigger] leq(y, x) by {
        lemma_lex_connected(x, y);
    }
}

proof fn lemma_lex_skip_common(a: Seq<char>, b: Seq<char>, n: int)
    requires
        0 <= n <= a.len(),
        n <= b.len(),
        forall|k: int| 0 <= k < n ==> a[k] == b[k],
    ensures
        lex_le(a, b) == lex_le(a.skip(n), b.skip(n)),
    decreases n,
{
    if n > 0 {
        assert(a.drop_first().skip(n - 1) =~= a.skip(n));
        assert(b.drop_first().skip(n - 1) =~= b.skip(n));
        lemma_lex_skip_common(a.drop_first(), b.drop_first(), n - 1);
    } else {
        assert(a.skip(0) =~= a);
        assert(b.skip(0) =~= b);
    }
}

/// Where two texts first differ, the characters there decide their order.
pub proof fn lemma_lex_at_first_difference(a: Seq<char>, b: Seq<char>, at: int)
    requires
        0 <= at < a.len(),
        at < b.len(),
        forall|k: int| 0 <= k < at ==> a[k] == b[k],
        a[at] != b[at],
    ensures
        lex_le(a, b) == ((a[at] as int) < (b[at] as int)),
{
    lemma_lex_skip_common(a, b, at);
}

/// The code point of `c`.
pub fn code_point(c: char) -> (n: u32)
    ensures
        n as int == c as int,
{
    c as u32
}

/// Whether `a` comes before `b`, or is `b`, in dictionary order.
pub fn precedes(a: &[char], b: &[char]) -> (yes: bool)
    ensures
        yes == lex_le(a@, b@),
{
    let mut i: usize = 0;
    while i < a.len() && i < b.len()
        invariant
            i <= a.len(),
            i <= b.len(),
            forall|k: int| 0 <= k < i ==> a@[k] == b@[k],
        decreases a.len() - i,
    {
        if a[i] != b[i] {
            proof {
                lemma_lex_skip_common(a@, b@, i as int);
            }
            return code_point(a[i]) < code_point(b[i]);
        }
        i += 1;
    }
    proof {
        lemma_lex_skip_common(a@, b@, i as int);
    }
    i == a.len()
}

/// The character that stands for the digit `d`, from 0 to 9.
pub open spec fn digit(d: int) -> char {
    ('0' as int + d) as char
}

/// `n` written in decimal, without sign and without leading zeros.
pub open spec fn decimal(n: nat) -> Seq<char>
    decreases n,
{
    if n < 10 {
        seq![digit(n as int)]
    } else {
        decimal(n / 10).push(digit((n % 10) as int))
    }
}

/// The character that stands for the digit `d`.
pub fn digit_char(d: u8) -> (c: char)
    requires
        d < 10,
    ensures
        c == digit(d as int),
{
    (48u8 + d) as char
}

/// Appends `n` in decimal to `out`.
pub fn push_decimal(out: &mut Vec<char>, n: u64)
    ensures
        final(out)@ == old(out)@ + decimal(n as nat),
{
    let mut reversed: Vec<char> = Vec::new();
    let mut rest: u64 = n;
    assert(decimal(rest as nat) + reversed@.reverse() =~= decimal(n as nat));
    while rest >= 10
        invariant
            decimal(n as nat) == decimal(rest as nat) + reversed@.reverse(),
        decreases rest,
    {
        let d = digit_char((rest % 10) as u8);
        proof {
            assert(reversed@.push(d).reverse() =~= seq![d] + reversed@.reverse());
            assert(decimal((rest / 10) as nat).push(d) + reversed@.reverse() =~= decimal((rest / 10) as nat) + (seq![d]
                + reversed@.reverse()));
        }
        reversed.push(d);
        rest = rest / 10;
    }
    let first = digit_char(rest as u8);
    proof {
        assert(reversed@.push(first).reverse() =~= seq![first] + reversed@.reverse());
    }
    reversed.push(first);
    let mut i: usize = reversed.len();
    assert(reversed@.reverse().take(0) =~= Seq::<char>::empty());
    assert(old(out)@ + Seq::<char>::empty() =~= old(out)@);
    while i > 0
        invariant
            i <= reversed.len(),
            out@ == old(out)@ + reversed@.reverse().take(reversed.len() - i),
        decreases i,
    {
        i -= 1;
        out.push(reversed[i]);
        assert(reversed@.reverse().take(reversed.len() - i) =~= reversed@.reverse().take(reversed.len() - i - 1).push(
            reversed@[i as int],
        ));
    }
    assert(reversed@.reverse().take(reversed@.len() as int) =~= reversed@.reverse());
}

/// The given texts in dictionary order.
pub fn sort_texts(items: &Vec<String>) -> (sorted: Vec<String>)
    ensures
        texts(sorted@) == texts(items@).sort_by(lex_order()),
{
    let mut sorted: Vec<String> = Vec::new();
    let mut i: usize = 0;
    proof {
        assert(texts(items@).take(0) =~= Seq::<Seq<char>>::empty());
        assert(texts(sorted@) =~= Seq::<Seq<char>>::empty());
    }
    while i < items.len()
        invariant
            i <= items.len(),
            sorted_by(texts(sorted@), lex_order()),
            texts(sorted@).to_multiset() == texts(items@).take(i as int).to_multiset(),
        decreases items.len() - i,
    {
        let item = chars_of(items[i].as_str());
        let mut at: usize = 0;
        while at < sorted.len() && precedes(chars_of(sorted[at].as_str()).as_slice(), item.as_slice())
            invariant
                at <= sorted.len(),
                forall|k: int| 0 <= k < at ==> lex_le(#[trigger] texts(sorted@)[k], item@),
            decreases sorted.len() - at,
        {
            at += 1;
        }
        proof {
            let before = texts(sorted@);
            let after = before.insert(at as int, item@);
            law_lex_order_is_total();
            assert forall|a: int, b: int| 0 <= a < b < after.len() implies #[trigger] lex_order()(
                after[a],
                after[b],
            ) by {
                if b == at {
                    assert(after[a] == before[a]);
                } else if a == at {
                    assert(after[b] == before[b - 1]);
                    assert(lex_order()(before[at as int], item@) || lex_order()(item@, before[at as int]));
                    assert(lex_order()(before[at as int], before[b - 1]));
                } else {
                    let a0 = if a < at {
                        a
                    } else {
                        a - 1
                    };
                    let b0 = if b < at {
                        b
                    } else {
                        b - 1
                    };
                    assert(after[a] == before[a0] && after[b] == before[b0]);
                    assert(lex_order()(before[a0], before[b0]));
                }
            }
            to_multiset_insert(before, at as int, item@);
            to_multiset_build(texts(items@).take(i as int), item@);
            assert(texts(items@).take(i + 1) =~= texts(items@).take(i as int).push(item@));
            assert(texts(sorted@.insert(at as int, items@[i as int])) =~= after);
        }
        sorted.insert(at, items[i].clone());
        i += 1;
    }
    proof {
        assert(texts(items@).take(items@.len() as int) =~= texts(items@));
        law_lex_order_is_total();
        texts(items@).lemma_sort_by_ensures(lex_order());
        lemma_sorted_unique(texts(sorted@), texts(items@).sort_by(lex_order()), lex_order());
    }
    sorted
}

} // verus!
