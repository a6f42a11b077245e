//! A map that is keyed by strings and remembers the order in which its keys
//! came.

use vstd::prelude::*;

verus! {

/// The map that a sequence of entries stands for: each entry maps its key to
/// its value, a later entry before an earlier one.
pub open spec fn entries_to_map<V>(entries: Seq<(String, V)>) -> Map<Seq<char>, V>
    decreases entries.len(),
{
    if entries.len() == 0 {
        Map::empty()
    } else {
        entries_to_map(entries.drop_last()).insert(entries.last().0@, entries.last().1)
    }
}

/// The keys of a sequence of entries, in the same order.
pub open spec fn entry_keys<V>(entries: Seq<(String, V)>) -> Seq<Seq<char>> {
    entries.map_values(|entry: (String, V)| entry.0@)
}

/// Whether no key occurs twice among the entries.
pub open spec fn keys_are_unique<V>(entries: Seq<(String, V)>) -> bool {
    forall|i: int, j: int|
        0 <= i < j < entries.len() ==> (#[trigger] entries[i]).0@ != (#[trigger] entries[j]).0@
}

/// The map of a sequence of entries holds exactly their keys.
pub proof fn lemma_map_holds_the_keys<V>(entries: Seq<(String, V)>)
    ensures
        forall|key: Seq<char>|
            entries_to_map(entries).contains_key(key) <==> entry_keys(entries).contains(key),
        entries_to_map(entries).dom().finite(),
    decreases entries.len(),
{
    if entries.len() > 0 {
        let rest = entries.drop_last();
        lemma_map_holds_the_keys(rest);
        assert forall|key: Seq<char>|
            entries_to_map(entries).contains_key(key) <==> entry_keys(entries).contains(
                key,
            ) by {
            if entry_keys(entries).contains(key) {
                let i = choose|i: int|
                    0 <= i < entries.len() && #[trigger] entry_keys(entries)[i] == key;
                if i < rest.len() {
                    assert(entry_keys(rest)[i] == key);
                }
            }
            if entry_keys(rest).contains(key) {
                let i = choose|i: int| 0 <= i < rest.len() && #[trigger] entry_keys(rest)[i] == key;
                assert(entry_keys(entries)[i] == key);
            }
            if key == entries.last().0@ {
                assert(entry_keys(entries)[entries.len() - 1] == key);
            }
        }
    } else {
        assert forall|key: Seq<char>| !entry_keys(entries).contains(key) by {}
    }
}

/// Entries without their last hold no key twice where the entries hold none
/// twice.
pub proof fn lemma_unique_without_the_last<V>(entries: Seq<(String, V)>)
    requires
        keys_are_unique(entries),
        entries.len() > 0,
    ensures
        keys_are_unique(entries.drop_last()),
{
    let rest = entries.drop_last();
    assert forall|i: int, j: int| 0 <= i < j < rest.len() implies (#[trigger] rest[i]).0@ != (
    #[trigger] rest[j]).0@ by {
        assert(rest[i] == entries[i]);
        assert(rest[j] == entries[j]);
    }
}

/// Where no key occurs twice, the map gives each key the value of its entry.
pub proof fn lemma_map_gives_the_value<V>(entries: Seq<(String, V)>, index: int)
    requires
        keys_are_unique(entries),
        0 <= index < entries.len(),
    ensures
        entries_to_map(entries).contains_key(entries[index].0@),
        entries_to_map(entries)[entries[index].0@] == entries[index].1,
    decreases entries.len(),
{
    if index < entries.len() - 1 {
        lemma_unique_without_the_last(entries);
        lemma_map_gives_the_value(entries.drop_last(), index);
    }
}

/// Where no key occurs twice, putting a new value in the place of an entry's
/// value changes the map at the entry's key alone.
pub proof fn lemma_map_after_replacing<V>(
    entries: Seq<(String, V)>,
    index: int,
    key: String,
    value: V,
)
    requires
        keys_are_unique(entries),
        0 <= index < entries.len(),
        entries[index].0@ == key@,
    ensures
        keys_are_unique(entries.update(index, (key, value))),
        entries_to_map(entries.update(index, (key, value))) == entries_to_map(entries).insert(
            key@,
            value,
        ),
        entry_keys(entries.update(index, (key, value))) == entry_keys(entries),
    decreases entries.len(),
{
    let updated = entries.update(index, (key, value));
    let rest = entries.drop_last();
    assert forall|i: int, j: int| 0 <= i < j < updated.len() implies (#[trigger] updated[i]).0@ != (
    #[trigger] updated[j]).0@ by {}
    if index < entries.len() - 1 {
        lemma_unique_without_the_last(entries);
        lemma_map_after_replacing(rest, index, key, value);
        assert(updated.drop_last() =~= rest.update(index, (key, value)));
    } else {
        assert(updated.drop_last() =~= rest);
    }
}

/// A map from strings to values of type `V`.
///
/// No key occurs twice, and the keys stay in the order in which they were
/// first put in.
#[derive(Debug)]
pub struct StringMap<V> {
    entries: Vec<(String, V)>,
}

impl<V> View for StringMap<V> {
    type V = Map<Seq<char>, V>;

    closed spec fn view(&self) -> Map<Seq<char>, V> {
        entries_to_map(self.entries@)
    }
}

impl<V: DeepView> DeepView for StringMap<V> {
    type V = Map<Seq<char>, V::V>;

    open spec fn deep_view(&self) -> Map<Seq<char>, V::V> {
        self@.map_values(|value: V| value.deep_view())
    }
}

impl<V> StringMap<V> {
    #[verifier::type_invariant]
    spec fn unique(self) -> bool {
        keys_are_unique(self.entries@)
    }

    /// The keys, in the order in which they were first put in.
    pub closed spec fn keys(self) -> Seq<Seq<char>> {
        entry_keys(self.entries@)
    }

    /// A map that holds nothing.
    pub fn new() -> (map: Self)
        ensures
            map@ == Map::<Seq<char>, V>::empty(),
            map.keys() == Seq::<Seq<char>>::empty(),
    {
        let map = StringMap { entries: Vec::new() };
        map
    }

    /// The number of keys.
    pub fn len(&self) -> (len: usize)
        ensures
            len == self.keys().len(),
    {
        self.entries.len()
    }

    /// The index of the entry of the given key.
    fn position(&self, key: &String) -> (index: Option<usize>)
        ensures
            index is Some <==> self@.contains_key(key@),
            index matches Some(i) ==> i < self.entries@.len() && self.entries@[i as int].0@
                == key@ && self@[key@] == self.entries@[i as int].1,
    {
        proof {
            use_type_invariant(self);
            lemma_map_holds_the_keys(self.entries@);
        }
        let mut i: usize = 0;
        while i < self.entries.len()
            invariant
                i <= self.entries@.len(),
                keys_are_unique(self.entries@),
                forall|j: int| 0 <= j < i ==> entry_keys(self.entries@)[j] != key@,
            decreases self.entries@.len() - i,
        {
            if self.entries[i].0 == *key {
                proof {
                    lemma_map_gives_the_value(self.entries@, i as int);
                }
                return Some(i);
            }
            i += 1;
        }
        proof {
            lemma_map_holds_the_keys(self.entries@);
            if entry_keys(self.entries@).contains(key@) {
                let j = choose|j: int|
                    0 <= j < self.entries@.len() && #[trigger] entry_keys(self.entries@)[j]
                        == key@;
                assert(false);
            }
        }
        None
    }

    /// Whether the map holds the key.
    pub fn contains_key(&self, key: &String) -> (found: bool)
        ensures
            found == self@.contains_key(key@),
    {
        self.position(key).is_some()
    }

    /// The value of the key, if the map holds it.
    pub fn get(&self, key: &String) -> (value: Option<&V>)
        ensures
            value is Some <==> self@.contains_key(key@),
            value matches Some(v) ==> *v == self@[key@],
    {
        match self.position(key) {
            Some(i) => Some(&self.entries[i].1),
            None => None,
        }
    }

    /// Gives the key the value. A key that the map holds keeps its place; a new
    /// key comes last. Returns the value that the key had.
    pub fn insert(&mut self, key: String, value: V) -> (previous: Option<V>)
        ensures
            final(self)@ == old(self)@.insert(key@, value),
            previous is Some <==> old(self)@.contains_key(key@),
            previous matches Some(v) ==> v == old(self)@[key@],
            final(self).keys() == if old(self)@.contains_key(key@) {
                old(self).keys()
            } else {
                old(self).keys().push(key@)
            },
    {
        proof {
            use_type_invariant(&*self);
            lemma_map_holds_the_keys(self.entries@);
        }
        let ghost before = self.entries@;
        let found = self.position(&key);
        let mut taken = StringMap { entries: Vec::new() };
        std::mem::swap(self, &mut taken);
        let StringMap { entries } = taken;
        let mut entries = entries;
        let previous = match found {
            Some(i) => {
                proof {
                    lemma_map_after_replacing(before, i as int, key, value);
                }
                let entry = entries.remove(i);
                entries.insert(i, (key, value));
                assert(entries@ =~= before.update(i as int, (key, value)));
                Some(entry.1)
            },
            None => {
                assert(before.push((key, value)).drop_last() =~= before);
                assert forall|i: int, j: int|
                    0 <= i < j < before.len() + 1 implies (#[trigger] before.push(
                    (key, value),
                )[i]).0@ != (#[trigger] before.push((key, value))[j]).0@ by {
                    if j == before.len() {
                        assert(entry_keys(before).contains(entry_keys(before)[i]));
                    }
                }
                entries.push((key, value));
                None
            },
        };
        *self = StringMap { entries };
        previous
    }

    /// The entries, in the order in which their keys were first put in.
    pub fn entries(&self) -> (entries: &Vec<(String, V)>)
        ensures
            entries_to_map(entries@) == self@,
            entry_keys(entries@) == self.keys(),
            keys_are_unique(entries@),
    {
        proof {
            use_type_invariant(self);
        }
        &self.entries
    }
}

} // verus!
