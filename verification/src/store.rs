//! Named backup profiles, kept in the order of their names.

use vstd::prelude::*;
use crate::text::{
    chars_of, copy_texts, law_lex_order_is_total, lex_le, lex_order, precedes, same_chars, strictly_ascending, texts,
};

verus! {

/// A saved backup job.
#[derive(Debug, PartialEq, Eq)]
pub struct Profile {
    /// The directory to back up.
    pub source: String,
    /// The directory below which the generations of every project go.
    pub destination: String,
    /// Whether files are compared by content where the cheap signals agree.
    pub check_content: bool,
    /// Glob patterns of what to leave out.
    pub exclude: Vec<String>,
}

/// A [`Profile`] with its strings as character sequences.
pub struct ProfileView {
    pub source: Seq<char>,
    pub destination: Seq<char>,
    pub check_content: bool,
    pub exclude: Seq<Seq<char>>,
}

impl View for Profile {
    type V = ProfileView;

    open spec fn view(&self) -> ProfileView {
        ProfileView {
            source: self.source@,
            destination: self.destination@,
            check_content: self.check_content,
            exclude: texts(self.exclude@),
        }
    }
}

spec fn names_of(entries: Seq<(String, Profile)>) -> Seq<Seq<char>> {
    entries.map_values(|entry: (String, Profile)| entry.0@)
}

spec fn profiles_of(entries: Seq<(String, Profile)>) -> Seq<ProfileView> {
    entries.map_values(|entry: (String, Profile)| entry.1@)
}

impl Clone for Profile {
    fn clone(&self) -> (copy: Self)
        ensures
            copy@ == self@,
    {
        Profile {
            source: self.source.clone(),
            destination: self.destination.clone(),
            check_content: self.check_content,
            exclude: copy_texts(&self.exclude),
        }
    }
}

/// All the profiles that were saved, each under its name.
#[derive(Debug, PartialEq, Eq)]
pub struct AppConfig {
    profiles: Vec<(String, Profile)>,
}

impl AppConfig {
    /// The names of the profiles, in dictionary order.
    pub closed spec fn names(&self) -> Seq<Seq<char>> {
        names_of(self.profiles@)
    }

    /// The profiles, in the order of their names.
    pub closed spec fn profiles(&self) -> Seq<ProfileView> {
        profiles_of(self.profiles@)
    }

    #[verifier::type_invariant]
    spec fn ordered(&self) -> bool {
        strictly_ascending(self.names())
    }

    /// Whether a profile is saved under `name`.
    pub open spec fn has(&self, name: Seq<char>) -> bool {
        self.names().contains(name)
    }

    /// The profile saved under `name`, if there is one.
    pub open spec fn lookup(&self, name: Seq<char>) -> Option<ProfileView> {
        lookup_in(self.names(), self.profiles(), name)
    }

    /// A configuration without profiles.
    pub fn new() -> (config: Self)
        ensures
            config.names() == Seq::<Seq<char>>::empty(),
    {
        let config = AppConfig { profiles: Vec::new() };
        assert(config.names() =~= Seq::<Seq<char>>::empty());
        config
    }

    /// The number of profiles.
    pub fn len(&self) -> (n: usize)
        ensures
            n == self.names().len(),
    {
        self.profiles.len()
    }

    /// The name and the profile at place `index` in the order of the names.
    pub fn entry_at(&self, index: usize) -> (entry: Option<(&String, &Profile)>)
        ensures
            match entry {
                Some((name, profile)) => index < self.names().len() && name@ == self.names()[index as int]
                    && profile@ == self.profiles()[index as int],
                None => index >= self.names().len(),
            },
    {
        if index < self.profiles.len() {
            let entry = &self.profiles[index];
            Some((&entry.0, &entry.1))
        } else {
            None
        }
    }

    /// The place of the first name that does not come before `name`, and
    /// whether that name is `name`.
    fn locate(&self, name: &str) -> (place: (usize, bool))
        ensures
            place.0 <= self.names().len(),
            forall|k: int| 0 <= k < place.0 ==> lex_le(#[trigger] self.names()[k], name@) && self.names()[k] != name@,
            place.0 < self.names().len() ==> lex_le(name@, self.names()[place.0 as int]),
            place.1 == (place.0 < self.names().len() && self.names()[place.0 as int] == name@),
            place.1 == self.has(name@),
    {
        let wanted = chars_of(name);
        let mut at: usize = 0;
        proof {
            use_type_invariant(self);
            law_lex_order_is_total();
        }
        while at < self.profiles.len()
            invariant
                at <= self.profiles.len(),
                wanted@ == name@,
                strictly_ascending(self.names()),
                self.names().len() == self.profiles.len(),
                forall|k: int|
                    0 <= k < at ==> lex_le(#[trigger] self.names()[k], name@) && self.names()[k] != name@,
            decreases self.profiles.len() - at,
        {
            let here = chars_of(self.profiles[at].0.as_str());
            assert(here@ == self.names()[at as int]);
            if same_chars(here.as_slice(), wanted.as_slice()) {
                assert(self.names().contains(name@));
                proof {
                    law_lex_order_is_total();
                    assert(lex_order()(name@, name@));
                }
                return (at, true);
            }
            if !precedes(here.as_slice(), wanted.as_slice()) {
                proof {
                    law_lex_order_is_total();
                    assert(lex_order()(here@, name@) || lex_order()(name@, here@));
                    assert forall|k: int| 0 <= k < self.names().len() implies self.names()[k] != name@ by {
                        if k > at {
                            assert(lex_order()(self.names()[at as int], self.names()[k]));
                            if self.names()[k] == name@ {
                                assert(lex_order()(here@, name@));
                            }
                        }
                    }
                }
                return (at, false);
            }
            at += 1;
        }
        (at, false)
    }

    /// The profile saved under `name`, if there is one.
    pub fn get(&self, name: &str) -> (profile: Option<&Profile>)
        ensures
            match profile {
                Some(p) => self.lookup(name@) == Some(p@),
                None => self.lookup(name@) is None,
            },
    {
        let (at, found) = self.locate(name);
        if found {
            proof {
                use_type_invariant(self);
                lemma_lookup_at(self.names(), self.profiles(), at as int);
            }
            Some(&self.profiles[at].1)
        } else {
            None
        }
    }
}

impl Default for AppConfig {
    fn default() -> (config: Self)
        ensures
            config.names() == Seq::<Seq<char>>::empty(),
    {
        AppConfig::new()
    }
}

/// The profile that stands at the place of `name` among the names, if
/// `name` is one of them.
pub open spec fn lookup_in(names: Seq<Seq<char>>, profiles: Seq<ProfileView>, name: Seq<char>) -> Option<
    ProfileView,
> {
    if names.contains(name) {
        Some(profiles[names.index_of(name)])
    } else {
        None
    }
}

proof fn lemma_lookup_at(names: Seq<Seq<char>>, profiles: Seq<ProfileView>, at: int)
    requires
        0 <= at < names.len(),
        strictly_ascending(names),
    ensures
        names.contains(names[at]),
        names.index_of(names[at]) == at,
        lookup_in(names, profiles, names[at]) == Some(profiles[at]),
{
    let name = names[at];
    assert(names.contains(name));
    let found = names.index_of(name);
    assert(0 <= found < names.len() && names[found] == name);
    if found < at {
        assert(names[found] != names[at]);
    } else if at < found {
        assert(names[at] != names[found]);
    }
}

proof fn lemma_lookup_insert(
    names: Seq<Seq<char>>,
    profiles: Seq<ProfileView>,
    at: int,
    name: Seq<char>,
    profile: ProfileView,
)
    requires
        names.len() == profiles.len(),
        0 <= at <= names.len(),
        strictly_ascending(names),
        strictly_ascending(names.insert(at, name)),
    ensures
        forall|k: Seq<char>| #[trigger]
            lookup_in(names.insert(at, name), profiles.insert(at, profile), k) == if k == name {
                Some(profile)
            } else {
                lookup_in(names, profiles, k)
            },
{
    let names2 = names.insert(at, name);
    let profiles2 = profiles.insert(at, profile);
    assert forall|k: Seq<char>| #[trigger] lookup_in(names2, profiles2, k) == if k == name {
        Some(profile)
    } else {
        lookup_in(names, profiles, k)
    } by {
        if k == name {
            assert(names2[at] == name);
            lemma_lookup_at(names2, profiles2, at);
        } else if names.contains(k) {
            let i = names.index_of(k);
            lemma_lookup_at(names, profiles, i);
            let j = if i < at {
                i
            } else {
                i + 1
            };
            assert(names2[j] == k);
            lemma_lookup_at(names2, profiles2, j);
        } else if names2.contains(k) {
            let j = names2.index_of(k);
            if j < at {
                assert(names[j] == k);
            } else {
                assert(names[j - 1] == k);
            }
        }
    }
}

proof fn lemma_lookup_remove(names: Seq<Seq<char>>, profiles: Seq<ProfileView>, at: int)
    requires
        names.len() == profiles.len(),
        0 <= at < names.len(),
        strictly_ascending(names),
    ensures
        strictly_ascending(names.remove(at)),
        forall|k: Seq<char>| #[trigger]
            lookup_in(names.remove(at), profiles.remove(at), k) == if k == names[at] {
                None
            } else {
                lookup_in(names, profiles, k)
            },
{
    let names2 = names.remove(at);
    let profiles2 = profiles.remove(at);
    assert forall|i: int, j: int| 0 <= i < j < names2.len() implies lex_le(#[trigger] names2[i], #[trigger] names2[j])
        && names2[i] != names2[j] by {
        let i0 = if i < at {
            i
        } else {
            i + 1
        };
        let j0 = if j < at {
            j
        } else {
            j + 1
        };
        assert(names2[i] == names[i0] && names2[j] == names[j0]);
    }
    assert forall|k: Seq<char>| #[trigger] lookup_in(names2, profiles2, k) == if k == names[at] {
        None
    } else {
        lookup_in(names, profiles, k)
    } by {
        if names2.contains(k) {
            let j = names2.index_of(k);
            let i = if j < at {
                j
            } else {
                j + 1
            };
            assert(names[i] == k);
            assert(names[i] != names[at]);
            lemma_lookup_at(names, profiles, i);
            lemma_lookup_at(names2, profiles2, j);
        } else if names.contains(k) {
            let i = names.index_of(k);
            if i != at {
                let j = if i < at {
                    i
                } else {
                    i - 1
                };
                assert(names2[j] == k);
            }
        }
    }
}

impl AppConfig {
    /// Saves `profile` under `name`, in place of what was saved under the
    /// name before, if anything. Every other profile stays as it is.
    pub fn insert(&mut self, name: String, profile: Profile)
        ensures
            forall|k: Seq<char>| #[trigger]
                final(self).lookup(k) == if k == name@ {
                    Some(profile@)
                } else {
                    old(self).lookup(k)
                },
    {
        let (at, found) = self.locate(name.as_str());
        proof {
            use_type_invariant(&*self);
            law_lex_order_is_total();
        }
        let ghost names = self.names();
        let ghost profiles = self.profiles();
        let mut entries: Vec<(String, Profile)> = Vec::new();
        assert(names_of(entries@) =~= Seq::<Seq<char>>::empty());
        core::mem::swap(&mut self.profiles, &mut entries);
        if found {
            proof {
                lemma_lookup_remove(names, profiles, at as int);
            }
            let _ = entries.remove(at);
            assert(names_of(entries@) =~= names.remove(at as int));
            assert(profiles_of(entries@) =~= profiles.remove(at as int));
        }
        let ghost names1 = names_of(entries@);
        let ghost profiles1 = profiles_of(entries@);
        proof {
            let names2 = names1.insert(at as int, name@);
            assert forall|i: int, j: int| 0 <= i < j < names2.len() implies lex_le(
                #[trigger] names2[i],
                #[trigger] names2[j],
            ) && names2[i] != names2[j] by {
                let i0 = if i < at {
                    i
                } else {
                    i - 1
                };
                let j0 = if j < at {
                    j
                } else {
                    j - 1
                };
                if i == at {
                    assert(names2[j] == names1[j0]);
                    if found {
                        assert(names1[j0] == names[j0 + 1]);
                        assert(lex_le(names[at as int], names[j0 + 1]) && names[at as int] != names[j0 + 1]);
                    } else {
                        assert(names1[j0] == names[j0]);
                        assert(lex_order()(name@, names[at as int]));
                        if j0 > at {
                            assert(lex_order()(names[at as int], names[j0]));
                        }
                        assert(lex_order()(name@, names[j0]));
                        assert(!names.contains(name@));
                    }
                } else if j == at {
                    assert(names2[i] == names1[i0]);
                    assert(names1[i0] == names[i0]);
                } else {
                    assert(names2[i] == names1[i0] && names2[j] == names1[j0]);
                }
            }
            lemma_lookup_insert(names1, profiles1, at as int, name@, profile@);
        }
        entries.insert(at, (name, profile));
        assert(names_of(entries@) =~= names1.insert(at as int, name@));
        assert(profiles_of(entries@) =~= profiles1.insert(at as int, profile@));
        core::mem::swap(&mut self.profiles, &mut entries);
    }

    /// Takes out the profile saved under `name`, if there is one, and hands
    /// it back. Every other profile stays as it is.
    pub fn remove(&mut self, name: &str) -> (removed: Option<Profile>)
        ensures
            match removed {
                Some(p) => old(self).lookup(name@) == Some(p@),
                None => old(self).lookup(name@) is None,
            },
            forall|k: Seq<char>| #[trigger]
                final(self).lookup(k) == if k == name@ {
                    None
                } else {
                    old(self).lookup(k)
                },
    {
        let (at, found) = self.locate(name);
        if !found {
            return None;
        }
        let ghost names = self.names();
        let ghost profiles = self.profiles();
        proof {
            use_type_invariant(&*self);
            lemma_lookup_at(names, profiles, at as int);
            lemma_lookup_remove(names, profiles, at as int);
        }
        let mut entries: Vec<(String, Profile)> = Vec::new();
        assert(names_of(entries@) =~= Seq::<Seq<char>>::empty());
        core::mem::swap(&mut self.profiles, &mut entries);
        let entry = entries.remove(at);
        assert(names_of(entries@) =~= names.remove(at as int));
        assert(profiles_of(entries@) =~= profiles.remove(at as int));
        core::mem::swap(&mut self.profiles, &mut entries);
        Some(entry.1)
    }

    /// The names of the profiles, in dictionary order.
    pub fn profile_names(&self) -> (names: Vec<String>)
        ensures
            texts(names@) == self.names(),
            strictly_ascending(self.names()),
    {
        let mut names: Vec<String> = Vec::new();
        let mut i: usize = 0;
        proof {
            use_type_invariant(self);
        }
        while i < self.profiles.len()
            invariant
                i <= self.profiles.len(),
                texts(names@) == self.names().take(i as int),
            decreases self.profiles.len() - i,
        {
            let name = self.profiles[i].0.clone();
            proof {
                assert(name@ == self.names()[i as int]);
                assert(texts(names@.push(name)) =~= texts(names@).push(name@));
                assert(self.names().take(i + 1) =~= self.names().take(i as int).push(name@));
            }
            names.push(name);
            i += 1;
        }
        assert(self.names().take(self.names().len() as int) =~= self.names());
        names
    }
}

} // verus!
