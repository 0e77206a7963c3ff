//! The generations below a destination: which directories count as one, in
//! what order, and which of them a pruning removes.

use vstd::prelude::*;
use vstd::seq_lib::{to_multiset_contains, to_multiset_len};
use chrono::NaiveDateTime;
use crate::text::{
    append_chars, chars_of, code_point, ends_with, law_lex_order_is_total, lemma_lex_at_first_difference, lex_le,
    lex_order, same_chars, sort_texts, strictly_ascending, string_of, texts,
};
use crate::utils::{join_path, joined, Platform};

verus! {

/// The format of a generation's name: the time the backup began, fixed in
/// width so that names sort as times do.
pub const GENERATION_FORMAT: &'static str = "%Y-%m-%d_%H-%M-%S";

/// What the name of a generation ends in while it is being written.
pub const PARTIAL_SUFFIX: &'static str = ".partial";

/// The name of the marker that points at the latest generation.
pub const CURRENT_MARKER: &'static str = "current";

/// Whether `text` parses as a date and time by the `strftime`-like format
/// `format`, by the rules of the `chrono` crate.
pub uninterp spec fn datetime_parses(text: Seq<char>, format: Seq<char>) -> bool;

/// `chrono::NaiveDateTime::parse_from_str`: whether `text`, all of it,
/// parses as a date and a time of day by `format`.
#[verifier::external_body]
fn parses_as_datetime(text: &str, format: &str) -> (ok: bool)
    ensures
        ok == datetime_parses(text@, format@),
{
    NaiveDateTime::parse_from_str(text, format).is_ok()
}

/// Whether `c` is one of the digits `0` to `9`.
pub open spec fn is_digit(c: char) -> bool {
    '0' as int <= c as int <= '9' as int
}

/// Whether `name` has the shape of a generation name: `YYYY-MM-DD_HH-MM-SS`
/// with a digit for every letter, so that every name is as long as every
/// other and has its fields in the same places.
pub open spec fn has_timestamp_shape(name: Seq<char>) -> bool {
    &&& name.len() == 19
    &&& forall|i: int|
        0 <= i < 19 ==> if i == 4 || i == 7 || i == 13 || i == 16 {
            name[i] == '-'
        } else if i == 10 {
            name[i] == '_'
        } else {
            is_digit(#[trigger] name[i])
        }
}

/// Whether `name` is the name of a generation: it has the shape of one, and
/// what it spells is a date and a time of day.
pub open spec fn is_generation_name(name: Seq<char>) -> bool {
    has_timestamp_shape(name) && datetime_parses(name, GENERATION_FORMAT@)
}

/// Whether `name` has the shape of a generation name.
pub fn has_shape(name: &str) -> (yes: bool)
    ensures
        yes == has_timestamp_shape(name@),
{
    let text = chars_of(name);
    if text.len() != 19 {
        return false;
    }
    let mut i: usize = 0;
    while i < 19
        invariant
            i <= 19,
            text.len() == 19,
            text@ == name@,
            forall|k: int|
                0 <= k < i ==> if k == 4 || k == 7 || k == 13 || k == 16 {
                    text@[k] == '-'
                } else if k == 10 {
                    text@[k] == '_'
                } else {
                    is_digit(#[trigger] text@[k])
                },
        decreases 19 - i,
    {
        let c = text[i];
        let fits = if i == 4 || i == 7 || i == 13 || i == 16 {
            c == '-'
        } else if i == 10 {
            c == '_'
        } else {
            let code = code_point(c);
            48 <= code && code <= 57
        };
        if !fits {
            assert(!has_timestamp_shape(name@)) by {
                if has_timestamp_shape(name@) {
                    assert(is_digit(name@[i as int]) || i == 4 || i == 7 || i == 10 || i == 13 || i == 16);
                }
            }
            return false;
        }
        i += 1;
    }
    true
}

/// Whether `name` is the name of a generation: a date and a time of day in
/// the format of generation names, at its full width.
pub fn is_valid_backup_folder_name(name: &str) -> (valid: bool)
    ensures
        valid == is_generation_name(name@),
{
    has_shape(name) && parses_as_datetime(name, GENERATION_FORMAT)
}

/// The digit at place `at` of a name, as a number.
pub open spec fn digit_at(name: Seq<char>, at: int) -> int {
    name[at] as int - '0' as int
}

/// The time that a name of the shape of generation names spells, as the
/// number whose decimal digits are those of the name: year, month, day,
/// hour, minute and second, one after the other.
pub open spec fn name_moment(name: Seq<char>) -> int {
    let year = digit_at(name, 0) * 1000 + digit_at(name, 1) * 100 + digit_at(name, 2) * 10 + digit_at(name, 3);
    let month = digit_at(name, 5) * 10 + digit_at(name, 6);
    let day = digit_at(name, 8) * 10 + digit_at(name, 9);
    let hour = digit_at(name, 11) * 10 + digit_at(name, 12);
    let minute = digit_at(name, 14) * 10 + digit_at(name, 15);
    let second = digit_at(name, 17) * 10 + digit_at(name, 18);
    year * 10_000_000_000 + month * 100_000_000 + day * 1_000_000 + hour * 10_000 + minute * 100 + second
}

proof fn lemma_first_difference(a: Seq<char>, b: Seq<char>, from: int) -> (at: int)
    requires
        a.len() == b.len(),
        0 <= from <= a.len(),
        forall|i: int| 0 <= i < from ==> a[i] == b[i],
        a != b,
    ensures
        from <= at < a.len(),
        a[at] != b[at],
        forall|i: int| 0 <= i < at ==> a[i] == b[i],
    decreases a.len() - from,
{
    if from == a.len() {
        assert(a =~= b);
        from
    } else if a[from] != b[from] {
        from
    } else {
        lemma_first_difference(a, b, from + 1)
    }
}

/// Names of generations sort as their times do: of two names of the
/// shape, the one that comes first in dictionary order spells the earlier
/// time, since every field stands at the same place in both and is padded
/// to its full width.
pub proof fn law_names_sort_as_times(a: Seq<char>, b: Seq<char>)
    requires
        has_timestamp_shape(a),
        has_timestamp_shape(b),
    ensures
        lex_le(a, b) <==> name_moment(a) <= name_moment(b),
{
    if a == b {
        law_lex_order_is_total();
        assert(lex_order()(a, a));
    } else {
        let at = lemma_first_difference(a, b, 0);
        lemma_lex_at_first_difference(a, b, at);
        assert(is_digit(a[0]) && is_digit(a[1]) && is_digit(a[2]) && is_digit(a[3]));
        assert(is_digit(a[5]) && is_digit(a[6]) && is_digit(a[8]) && is_digit(a[9]));
        assert(is_digit(a[11]) && is_digit(a[12]) && is_digit(a[14]) && is_digit(a[15]));
        assert(is_digit(a[17]) && is_digit(a[18]));
        assert(is_digit(b[0]) && is_digit(b[1]) && is_digit(b[2]) && is_digit(b[3]));
        assert(is_digit(b[5]) && is_digit(b[6]) && is_digit(b[8]) && is_digit(b[9]));
        assert(is_digit(b[11]) && is_digit(b[12]) && is_digit(b[14]) && is_digit(b[15]));
        assert(is_digit(b[17]) && is_digit(b[18]));
        assert(a[4] == b[4] && a[7] == b[7] && a[10] == b[10] && a[13] == b[13] && a[16] == b[16]);
    }
}

/// A name of the shape of generation names is never reserved: it is
/// neither the marker's name nor the name of a generation still being
/// written.
pub proof fn law_shaped_names_are_not_reserved(name: Seq<char>)
    requires
        has_timestamp_shape(name),
    ensures
        !is_reserved(name),
{
    reveal_strlit(".partial");
    reveal_strlit("current");
    if PARTIAL_SUFFIX@.is_suffix_of(name) {
        let tail = name.subrange(name.len() - PARTIAL_SUFFIX@.len(), name.len() as int);
        assert(tail == PARTIAL_SUFFIX@);
        assert(tail[7] == name[18]);
        assert(PARTIAL_SUFFIX@[7] == 'l');
        assert(is_digit(name[18]));
    }
}

/// One entry of the destination directory.
#[derive(Debug, PartialEq, Eq)]
pub struct DirEntry {
    /// The entry's name, without the directory.
    pub name: String,
    /// Whether the entry is a directory, or a link that leads to one.
    pub is_dir: bool,
}

/// A [`DirEntry`] with its name as a character sequence.
pub struct DirEntryView {
    pub name: Seq<char>,
    pub is_dir: bool,
}

impl View for DirEntry {
    type V = DirEntryView;

    open spec fn view(&self) -> DirEntryView {
        DirEntryView { name: self.name@, is_dir: self.is_dir }
    }
}

/// The entries of a directory, each by its view.
pub open spec fn listing(entries: Seq<DirEntry>) -> Seq<DirEntryView> {
    entries.map_values(|entry: DirEntry| entry@)
}

/// Whether `name` is the name of a committed generation: a time in the
/// format of generation names, and neither the marker's name nor that of a
/// generation still being written.
pub open spec fn is_committed_name(name: Seq<char>) -> bool {
    !is_reserved(name) && is_generation_name(name)
}

/// Whether the entry is a committed generation: a directory with the name
/// of one.
pub open spec fn is_backup(entry: DirEntryView) -> bool {
    entry.is_dir && is_committed_name(entry.name)
}

/// The names of the committed generations among the entries, in the order
/// of the entries.
pub open spec fn backup_names(entries: Seq<DirEntryView>) -> Seq<Seq<char>> {
    entries.filter(|entry: DirEntryView| is_backup(entry)).map_values(|entry: DirEntryView| entry.name)
}

/// The names of the committed generations among the entries, oldest first:
/// in dictionary order, which for names of this format is the order of
/// their times.
pub open spec fn sorted_backups(entries: Seq<DirEntryView>) -> Seq<Seq<char>> {
    backup_names(entries).sort_by(lex_order())
}

/// Whether `name` is a name that no generation is committed under: that
/// of the marker, or one that ends as the names of generations still being
/// written do.
pub open spec fn is_reserved(name: Seq<char>) -> bool {
    PARTIAL_SUFFIX@.is_suffix_of(name) || name == CURRENT_MARKER@
}

/// Whether `name` is a name that no generation is committed under.
pub fn is_reserved_name(name: &str) -> (reserved: bool)
    ensures
        reserved == is_reserved(name@),
{
    let text = chars_of(name);
    let suffix = chars_of(PARTIAL_SUFFIX);
    let marker = chars_of(CURRENT_MARKER);
    ends_with(text.as_slice(), suffix.as_slice()) || same_chars(text.as_slice(), marker.as_slice())
}

/// The names of the directories among the entries whose name is not
/// reserved and is marked as the name of a generation: `timely[i]` says so
/// of the entry at `i`.
pub open spec fn picked_names(entries: Seq<DirEntryView>, timely: Seq<bool>) -> Seq<Seq<char>>
    decreases entries.len(),
{
    if entries.len() == 0 || timely.len() != entries.len() {
        seq![]
    } else {
        let front = picked_names(entries.drop_last(), timely.drop_last());
        if entries.last().is_dir && timely.last() && !is_reserved(entries.last().name) {
            front.push(entries.last().name)
        } else {
            front
        }
    }
}

/// The committed generations among the entries, by name, oldest first,
/// where `timely` says of each entry whether its name is a time in the
/// format of generation names. Marks that are not one for each entry pick
/// nothing.
pub fn pick_backups(entries: &Vec<DirEntry>, timely: &Vec<bool>) -> (names: Vec<String>)
    ensures
        texts(names@) == picked_names(listing(entries@), timely@).sort_by(lex_order()),
{
    let mut picked: Vec<String> = Vec::new();
    if timely.len() != entries.len() {
        assert(texts(picked@) =~= Seq::<Seq<char>>::empty());
        return sort_texts(&picked);
    }
    let mut i: usize = 0;
    proof {
        assert(listing(entries@).take(0) =~= Seq::<DirEntryView>::empty());
        assert(texts(picked@) =~= Seq::<Seq<char>>::empty());
    }
    while i < entries.len()
        invariant
            i <= entries.len(),
            timely.len() == entries.len(),
            texts(picked@) == picked_names(listing(entries@).take(i as int), timely@.take(i as int)),
        decreases entries.len() - i,
    {
        let entry = &entries[i];
        proof {
            let seen = listing(entries@).take(i + 1);
            let marks = timely@.take(i + 1);
            assert(seen.drop_last() =~= listing(entries@).take(i as int));
            assert(marks.drop_last() =~= timely@.take(i as int));
            assert(seen.last() == entry@);
            assert(texts(picked@.push(entry.name)) =~= texts(picked@).push(entry.name@));
        }
        if entry.is_dir && timely[i] && !is_reserved_name(entry.name.as_str()) {
            picked.push(entry.name.clone());
        }
        i += 1;
    }
    proof {
        assert(listing(entries@).take(entries@.len() as int) =~= listing(entries@));
        assert(timely@.take(timely@.len() as int) =~= timely@);
    }
    sort_texts(&picked)
}

proof fn lemma_picked_by_format(entries: Seq<DirEntryView>, timely: Seq<bool>)
    requires
        timely.len() == entries.len(),
        forall|i: int| 0 <= i < entries.len() ==> timely[i] == is_generation_name(#[trigger] entries[i].name),
    ensures
        picked_names(entries, timely) == backup_names(entries),
    decreases entries.len(),
{
    if entries.len() == 0 {
        reveal(Seq::filter);
        assert(backup_names(entries) =~= Seq::<Seq<char>>::empty());
    } else {
        let front = entries.drop_last();
        assert forall|i: int| 0 <= i < front.len() implies timely.drop_last()[i] == is_generation_name(
            #[trigger] front[i].name,
        ) by {
            assert(front[i] == entries[i]);
        }
        lemma_picked_by_format(front, timely.drop_last());
        assert(front.push(entries.last()) =~= entries);
        lemma_backup_names_push(front, entries.last());
        assert(timely.last() == is_generation_name(entries[entries.len() - 1].name));
    }
}

proof fn lemma_backup_names_push(entries: Seq<DirEntryView>, entry: DirEntryView)
    ensures
        backup_names(entries.push(entry)) == if is_backup(entry) {
            backup_names(entries).push(entry.name)
        } else {
            backup_names(entries)
        },
{
    let keep = |e: DirEntryView| is_backup(e);
    let name = |e: DirEntryView| e.name;
    entries.lemma_filter_push(entry, keep);
    if is_backup(entry) {
        entries.filter(keep).lemma_push_map_commute(name, entry);
    }
}

/// The committed generations among the entries of a destination, by name,
/// oldest first.
pub fn find_all_backups(entries: &Vec<DirEntry>) -> (names: Vec<String>)
    ensures
        texts(names@) == sorted_backups(listing(entries@)),
{
    let mut timely: Vec<bool> = Vec::new();
    let mut i: usize = 0;
    while i < entries.len()
        invariant
            i <= entries.len(),
            timely.len() == i,
            forall|k: int| 0 <= k < i ==> timely@[k] == is_generation_name(#[trigger] listing(entries@)[k].name),
        decreases entries.len() - i,
    {
        timely.push(is_valid_backup_folder_name(entries[i].name.as_str()));
        i += 1;
    }
    proof {
        lemma_picked_by_format(listing(entries@), timely@);
    }
    pick_backups(entries, &timely)
}

/// How many generations a pruning removes, of `total`, to keep `keep`.
pub open spec fn surplus(total: nat, keep: nat) -> nat {
    if total > keep {
        (total - keep) as nat
    } else {
        0
    }
}

/// The first of the given names beyond the last `keep`: with the names
/// oldest first, the generations to remove so that the `keep` newest stay.
pub fn oldest_beyond(names: Vec<String>, keep: usize) -> (doomed: Vec<String>)
    ensures
        texts(doomed@) == texts(names@).take(surplus(names@.len(), keep as nat) as int),
{
    let mut names = names;
    if names.len() > keep {
        let count = names.len() - keep;
        proof {
            assert(texts(names@.take(count as int)) =~= texts(names@).take(count as int));
        }
        names.truncate(count);
        names
    } else {
        assert(texts(names@).take(0) =~= Seq::<Seq<char>>::empty());
        let none: Vec<String> = Vec::new();
        assert(texts(none@) =~= Seq::<Seq<char>>::empty());
        none
    }
}

/// The generations to remove so that the `keep` newest stay: the oldest
/// ones beyond that number; none where there are no more than `keep`.
pub fn prune_backups(entries: &Vec<DirEntry>, keep: usize) -> (doomed: Vec<String>)
    ensures
        texts(doomed@) == sorted_backups(listing(entries@)).take(
            surplus(sorted_backups(listing(entries@)).len(), keep as nat) as int,
        ),
{
    let names = find_all_backups(entries);
    assert(texts(names@).len() == names@.len());
    oldest_beyond(names, keep)
}

/// Whether a committed generation of the given name is among the entries.
pub open spec fn holds_backup(entries: Seq<DirEntryView>, name: Seq<char>) -> bool {
    exists|i: int| 0 <= i < entries.len() && is_backup(#[trigger] entries[i]) && entries[i].name == name
}

proof fn lemma_backup_names_hold(entries: Seq<DirEntryView>, name: Seq<char>)
    ensures
        backup_names(entries).contains(name) <==> holds_backup(entries, name),
    decreases entries.len(),
{
    if entries.len() == 0 {
        reveal(Seq::filter);
        assert(backup_names(entries) =~= Seq::<Seq<char>>::empty());
    } else {
        let front = entries.drop_last();
        let last = entries.last();
        assert(front.push(last) =~= entries);
        lemma_backup_names_push(front, last);
        lemma_backup_names_hold(front, name);
        let names = backup_names(front);
        if holds_backup(front, name) {
            let i = choose|i: int| 0 <= i < front.len() && is_backup(#[trigger] front[i]) && front[i].name == name;
            assert(entries[i] == front[i]);
            let j = choose|j: int| 0 <= j < names.len() && names[j] == name;
            assert(backup_names(entries)[j] == name);
        }
        if is_backup(last) && last.name == name {
            assert(entries[entries.len() - 1] == last);
            assert(backup_names(entries)[names.len() as int] == name);
        }
        if holds_backup(entries, name) {
            let i = choose|i: int| 0 <= i < entries.len() && is_backup(#[trigger] entries[i]) && entries[i].name == name;
            if i < front.len() {
                assert(front[i] == entries[i]);
            }
        }
        if backup_names(entries).contains(name) {
            let j = choose|j: int| 0 <= j < backup_names(entries).len() && backup_names(entries)[j] == name;
            if j < names.len() {
                assert(names[j] == name);
            }
        }
    }
}

/// The listing holds the name of every committed generation among the
/// entries, and no other name.
pub proof fn law_listing_holds_the_committed(entries: Seq<DirEntryView>, name: Seq<char>)
    ensures
        sorted_backups(entries).contains(name) <==> holds_backup(entries, name),
{
    law_lex_order_is_total();
    backup_names(entries).lemma_sort_by_ensures(lex_order());
    to_multiset_contains(backup_names(entries), name);
    to_multiset_contains(sorted_backups(entries), name);
    lemma_backup_names_hold(entries, name);
}

/// Whether no two of the entries bear the same name, as is so of the
/// entries of one directory.
pub open spec fn names_differ(entries: Seq<DirEntryView>) -> bool {
    forall|i: int, j: int| 0 <= i < j < entries.len() ==> (#[trigger] entries[i]).name != (#[trigger] entries[j]).name
}

proof fn lemma_backup_names_differ(entries: Seq<DirEntryView>)
    requires
        names_differ(entries),
    ensures
        backup_names(entries).no_duplicates(),
    decreases entries.len(),
{
    if entries.len() == 0 {
        reveal(Seq::filter);
        assert(backup_names(entries) =~= Seq::<Seq<char>>::empty());
    } else {
        let front = entries.drop_last();
        let last = entries.last();
        assert(front.push(last) =~= entries);
        assert forall|i: int, j: int| 0 <= i < j < front.len() implies (#[trigger] front[i]).name != (
        #[trigger] front[j]).name by {
            assert(front[i] == entries[i] && front[j] == entries[j]);
        }
        lemma_backup_names_differ(front);
        lemma_backup_names_push(front, last);
        if is_backup(last) {
            let names = backup_names(front);
            lemma_backup_names_hold(front, last.name);
            if names.contains(last.name) {
                let i = choose|i: int| 0 <= i < front.len() && is_backup(#[trigger] front[i]) && front[i].name
                    == last.name;
                assert(entries[i] == front[i]);
                assert(entries[entries.len() - 1] == last);
                assert(entries[i].name != entries[entries.len() - 1].name);
            }
            let all = names.push(last.name);
            assert forall|i: int, j: int| 0 <= i < all.len() && 0 <= j < all.len() && i != j implies all[i]
                != all[j] by {
                if i == names.len() {
                    assert(names[j] == all[j]);
                    assert(names.contains(all[j]));
                } else if j == names.len() {
                    assert(names[i] == all[i]);
                    assert(names.contains(all[i]));
                }
            }
        }
    }
}

/// The listing of a directory holds no generation twice: where no two
/// entries bear the same name, the names listed come in strictly ascending
/// order, each before the next and none equal to another.
pub proof fn law_listing_is_strictly_ascending(entries: Seq<DirEntryView>)
    requires
        names_differ(entries),
    ensures
        strictly_ascending(sorted_backups(entries)),
        sorted_backups(entries).no_duplicates(),
        sorted_backups(entries).len() == backup_names(entries).len(),
{
    let names = backup_names(entries);
    let all = sorted_backups(entries);
    law_lex_order_is_total();
    names.lemma_sort_by_ensures(lex_order());
    lemma_backup_names_differ(entries);
    names.lemma_multiset_has_no_duplicates();
    all.lemma_multiset_has_no_duplicates_conv();
    to_multiset_len(names);
    to_multiset_len(all);
    assert forall|i: int, j: int| 0 <= i < j < all.len() implies lex_le(#[trigger] all[i], #[trigger] all[j])
        && all[i] != all[j] by {
        assert(lex_order()(all[i], all[j]));
    }
}

/// A generation is visible from the moment its directory bears the final
/// name, whatever has become of the `current` marker: the listing goes by
/// the names of the directories alone. Until then, under its temporary
/// name, it is not listed.
pub proof fn law_renamed_generation_is_listed(before: Seq<DirEntryView>, at: int, name: Seq<char>)
    requires
        0 <= at < before.len(),
        before[at] == (DirEntryView { name: name + PARTIAL_SUFFIX@, is_dir: true }),
        is_generation_name(name),
    ensures
        !sorted_backups(before).contains(name + PARTIAL_SUFFIX@),
        sorted_backups(before.update(at, DirEntryView { name, is_dir: true })).contains(name),
{
    let temp = name + PARTIAL_SUFFIX@;
    let after = before.update(at, DirEntryView { name, is_dir: true });
    law_shaped_names_are_not_reserved(name);
    law_listing_holds_the_committed(before, temp);
    law_listing_holds_the_committed(after, name);
    assert(is_backup(after[at]));
    assert(temp.subrange(temp.len() - PARTIAL_SUFFIX@.len(), temp.len() as int) =~= PARTIAL_SUFFIX@);
    assert(PARTIAL_SUFFIX@.is_suffix_of(temp));
}

/// A committed generation whose name comes after those of all the others
/// is the latest in the listing, the one that the next run compares with.
pub proof fn law_newest_name_is_latest(entries: Seq<DirEntryView>, name: Seq<char>)
    requires
        holds_backup(entries, name),
        forall|i: int| 0 <= i < entries.len() && is_backup(#[trigger] entries[i]) ==> lex_le(entries[i].name, name),
    ensures
        sorted_backups(entries).len() > 0,
        sorted_backups(entries).last() == name,
{
    let all = sorted_backups(entries);
    law_lex_order_is_total();
    backup_names(entries).lemma_sort_by_ensures(lex_order());
    law_listing_holds_the_committed(entries, name);
    let j = choose|j: int| 0 <= j < all.len() && all[j] == name;
    let last = all.last();
    assert(all.contains(last)) by {
        assert(all[all.len() - 1] == last);
    }
    law_listing_holds_the_committed(entries, last);
    let i = choose|i: int| 0 <= i < entries.len() && is_backup(#[trigger] entries[i]) && entries[i].name == last;
    assert(lex_order()(last, name));
    if j < all.len() - 1 {
        assert(lex_order()(all[j], all[all.len() - 1]));
    } else {
        assert(lex_order()(name, name));
    }
    assert(lex_order()(name, last));
}

/// A pruning removes the oldest generations and leaves the `keep` newest, or
/// all of them where there are no more: every name it removes comes before
/// every name it leaves.
pub proof fn law_prune_keeps_the_newest(entries: Seq<DirEntryView>, keep: nat, removed: int, kept: int)
    requires
        0 <= removed < surplus(sorted_backups(entries).len(), keep),
        surplus(sorted_backups(entries).len(), keep) <= kept < sorted_backups(entries).len(),
    ensures
        sorted_backups(entries).len() - surplus(sorted_backups(entries).len(), keep) == if keep
            < sorted_backups(entries).len() {
            keep
        } else {
            sorted_backups(entries).len()
        },
        lex_le(sorted_backups(entries)[removed], sorted_backups(entries)[kept]),
{
    law_lex_order_is_total();
    backup_names(entries).lemma_sort_by_ensures(lex_order());
    assert(lex_order()(sorted_backups(entries)[removed], sorted_backups(entries)[kept]));
}

/// The paths that one generation goes by.
#[derive(Debug, PartialEq, Eq)]
pub struct GenerationPaths {
    /// The directory that the generation is written to.
    pub temp_path: String,
    /// The directory that the generation is committed as.
    pub final_path: String,
    /// The marker that points at the latest generation.
    pub link_path: String,
}

/// The paths of the generation named `timestamp` below `destination`: the
/// temporary directory bears the name with [`PARTIAL_SUFFIX`], the final
/// one the name alone.
pub fn generation_paths(platform: Platform, destination: &str, timestamp: &str) -> (paths: GenerationPaths)
    ensures
        paths.temp_path@ == joined(platform, destination@, timestamp@ + PARTIAL_SUFFIX@),
        paths.final_path@ == joined(platform, destination@, timestamp@),
        paths.link_path@ == joined(platform, destination@, CURRENT_MARKER@),
{
    let mut temp_name = chars_of(timestamp);
    let suffix = chars_of(PARTIAL_SUFFIX);
    append_chars(&mut temp_name, suffix.as_slice());
    let temp_name = string_of(temp_name.as_slice());
    GenerationPaths {
        temp_path: join_path(platform, destination, temp_name.as_str()),
        final_path: join_path(platform, destination, timestamp),
        link_path: join_path(platform, destination, CURRENT_MARKER),
    }
}

} // verus!
