//! Named settings, each name at most once, in the order in which they came.

use vstd::prelude::*;

use crate::text::same_str;

verus! {

/// One named value.
#[derive(Clone, Debug)]
pub struct Setting {
    pub key: String,
    pub value: String,
}

/// Named values.
#[derive(Clone, Debug)]
pub struct Settings {
    pub entries: Vec<Setting>,
}

/// Names and values, in order.
pub type Entries = Seq<(Seq<char>, Seq<char>)>;

impl View for Setting {
    type V = (Seq<char>, Seq<char>);

    open spec fn view(&self) -> (Seq<char>, Seq<char>) {
        (self.key@, self.value@)
    }
}

impl View for Settings {
    type V = Entries;

    open spec fn view(&self) -> Entries {
        self.entries@.map_values(|s: Setting| s@)
    }
}

/// No name occurs twice.
pub open spec fn distinct(entries: Entries) -> bool {
    forall|i: int, j: int|
        0 <= i < j < entries.len() ==> (#[trigger] entries[i]).0 != (#[trigger] entries[j]).0
}

/// The place of `key` among the entries from `from` on.
pub open spec fn place_from(entries: Entries, key: Seq<char>, from: int) -> Option<int>
    decreases entries.len() - from,
{
    if from < 0 || from >= entries.len() {
        None
    } else if entries[from].0 == key {
        Some(from)
    } else {
        place_from(entries, key, from + 1)
    }
}

/// The value of `key`.
pub open spec fn lookup(entries: Entries, key: Seq<char>) -> Option<Seq<char>> {
    match place_from(entries, key, 0) {
        Some(i) => Some(entries[i].1),
        None => None,
    }
}

/// The value of `key`, or of `other` where `key` has none.
pub open spec fn lookup_either(entries: Entries, key: Seq<char>, other: Seq<char>) -> Option<
    Seq<char>,
> {
    match lookup(entries, key) {
        Some(value) => Some(value),
        None => lookup(entries, other),
    }
}

/// The entries once `key` has been given `value`.
pub open spec fn put(entries: Entries, key: Seq<char>, value: Seq<char>) -> Entries {
    match place_from(entries, key, 0) {
        Some(i) => entries.update(i, (key, value)),
        None => entries.push((key, value)),
    }
}

/// A place is in range and holds the name, and none before it does.
pub proof fn lemma_place(entries: Entries, key: Seq<char>, from: int)
    requires
        0 <= from,
    ensures
        match place_from(entries, key, from) {
            Some(i) => from <= i < entries.len() && entries[i].0 == key && forall|j: int|
                from <= j < i ==> (#[trigger] entries[j]).0 != key,
            None => forall|j: int| from <= j < entries.len() ==> (#[trigger] entries[j]).0 != key,
        },
    decreases entries.len() - from,
{
    if from < entries.len() && entries[from].0 != key {
        lemma_place(entries, key, from + 1);
    }
}

/// The first entry of a name is its place.
pub proof fn lemma_first_place(entries: Entries, key: Seq<char>, from: int, i: int)
    requires
        0 <= from <= i < entries.len(),
        entries[i].0 == key,
        forall|j: int| from <= j < i ==> (#[trigger] entries[j]).0 != key,
    ensures
        place_from(entries, key, from) == Some(i),
    decreases i - from,
{
    if from < i {
        lemma_first_place(entries, key, from + 1, i);
    }
}

/// Without an entry of its name nothing is found.
pub proof fn lemma_no_place(entries: Entries, key: Seq<char>, from: int)
    requires
        0 <= from,
        forall|j: int| from <= j < entries.len() ==> (#[trigger] entries[j]).0 != key,
    ensures
        place_from(entries, key, from) is None,
    decreases entries.len() - from,
{
    if from < entries.len() {
        lemma_no_place(entries, key, from + 1);
    }
}

/// A value that was put under a name is found under it, every other name
/// keeps its value, and no name comes to occur twice.
pub proof fn put_then_lookup(entries: Entries, key: Seq<char>, value: Seq<char>, other: Seq<char>)
    ensures
        lookup(put(entries, key, value), key) == Some(value),
        other != key ==> lookup(put(entries, key, value), other) == lookup(entries, other),
        distinct(entries) ==> distinct(put(entries, key, value)),
{
    let after = put(entries, key, value);
    lemma_place(entries, key, 0);
    match place_from(entries, key, 0) {
        Some(i) => lemma_first_place(after, key, 0, i),
        None => lemma_first_place(after, key, 0, entries.len() as int),
    }
    if other != key {
        lemma_place(entries, other, 0);
        match place_from(entries, other, 0) {
            Some(i) => {
                assert forall|j: int| 0 <= j < i implies (#[trigger] after[j]).0 != other by {
                    assert(entries[j].0 != other);
                }
                assert(after[i] == entries[i]);
                lemma_first_place(after, other, 0, i);
            },
            None => {
                assert forall|j: int| 0 <= j < after.len() implies (#[trigger] after[j]).0
                    != other by {
                    if j < entries.len() {
                        assert(entries[j].0 != other);
                    }
                }
                lemma_no_place(after, other, 0);
            },
        }
    }
    if distinct(entries) {
        assert forall|i: int, j: int| 0 <= i < j < after.len() implies (#[trigger] after[i]).0 != (
        #[trigger] after[j]).0 by {
            if j < entries.len() {
                assert(entries[i].0 != entries[j].0);
            } else {
                assert(entries[i].0 != key);
            }
        }
    }
}

impl Settings {
    /// No settings.
    pub fn new() -> (settings: Self)
        ensures
            settings@ == Seq::<(Seq<char>, Seq<char>)>::empty(),
    {
        let settings = Settings { entries: Vec::new() };
        assert(settings@ =~= Seq::<(Seq<char>, Seq<char>)>::empty());
        settings
    }

    fn position(&self, key: &str) -> (res: Option<usize>)
        ensures
            match res {
                Some(i) => i < self@.len() && place_from(self@, key@, 0) == Some(i as int),
                None => place_from(self@, key@, 0) is None,
            },
    {
        let mut i: usize = 0;
        while i < self.entries.len()
            invariant
                i <= self.entries@.len(),
                place_from(self@, key@, 0) == place_from(self@, key@, i as int),
            decreases self.entries@.len() - i,
        {
            assert(self@[i as int] == self.entries@[i as int]@);
            if same_str(self.entries[i].key.as_str(), key) {
                return Some(i);
            }
            i += 1;
        }
        None
    }

    /// The value of `key`.
    pub fn get(&self, key: &str) -> (res: Option<&String>)
        ensures
            match res {
                Some(value) => lookup(self@, key@) == Some(value@),
                None => lookup(self@, key@) is None,
            },
    {
        match self.position(key) {
            Some(i) => Some(&self.entries[i].value),
            None => None,
        }
    }

    /// The value of `key`, or of `other` where `key` has none.
    pub fn get_either(&self, key: &str, other: &str) -> (res: Option<&String>)
        ensures
            match res {
                Some(value) => lookup_either(self@, key@, other@) == Some(value@),
                None => lookup_either(self@, key@, other@) is None,
            },
    {
        match self.get(key) {
            Some(value) => Some(value),
            None => self.get(other),
        }
    }

    /// Whether `key` has a value.
    pub fn contains_key(&self, key: &str) -> (found: bool)
        ensures
            found == (lookup(self@, key@) is Some),
    {
        self.position(key).is_some()
    }

    /// Gives `key` the value `value`.
    pub fn insert(&mut self, key: String, value: String)
        ensures
            final(self)@ == put(old(self)@, key@, value@),
            distinct(old(self)@) ==> distinct(final(self)@),
    {
        proof {
            put_then_lookup(self@, key@, value@, key@);
        }
        let ghost before = self@;
        match self.position(key.as_str()) {
            Some(i) => {
                self.entries[i] = Setting { key, value };
                assert(self@ =~= before.update(i as int, (key@, value@)));
            },
            None => {
                self.entries.push(Setting { key, value });
                assert(self@ =~= before.push((key@, value@)));
            },
        }
    }
}

} // verus!
