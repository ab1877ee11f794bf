//! The snapshot of the store: a finite map from key to stored text, kept as
//! a list of entries in which no key occurs twice.

use crate::json::{json_object_entries, json_object_text, object_from_str, object_to_string};
use vstd::prelude::*;

verus! {

/// An entry of a snapshot as plain text: its key, then what is stored under it.
pub type Pair = (Seq<char>, Seq<char>);

/// Whether `key` is the key of one of the entries.
pub open spec fn has_key(pairs: Seq<Pair>, key: Seq<char>) -> bool {
    exists|i: int| 0 <= i < pairs.len() && (#[trigger] pairs[i]).0 == key
}

/// The position of an entry with the given key, where there is one.
pub open spec fn position_of(pairs: Seq<Pair>, key: Seq<char>) -> int {
    choose|i: int| 0 <= i < pairs.len() && (#[trigger] pairs[i]).0 == key
}

/// Whether no key occurs in two entries.
pub open spec fn distinct_keys(pairs: Seq<Pair>) -> bool {
    forall|i: int, j: int|
        0 <= i < j < pairs.len() ==> (#[trigger] pairs[i]).0 != (#[trigger] pairs[j]).0
}

/// The map that a list of entries stands for.
pub open spec fn as_map(pairs: Seq<Pair>) -> Map<Seq<char>, Seq<char>> {
    Map::new(|key: Seq<char>| has_key(pairs, key), |key: Seq<char>| pairs[position_of(pairs, key)].1)
}

/// The entries of a vector as plain text.
pub open spec fn pairs_of(entries: Seq<(String, String)>) -> Seq<Pair> {
    entries.map_values(|entry: (String, String)| (entry.0@, entry.1@))
}

/// The entries after `value` was stored under `key`: the entry of that key
/// is replaced where it stands, or a new entry is added at the end.
pub open spec fn inserted(pairs: Seq<Pair>, key: Seq<char>, value: Seq<char>) -> Seq<Pair> {
    if has_key(pairs, key) {
        pairs.update(position_of(pairs, key), (key, value))
    } else {
        pairs.push((key, value))
    }
}

/// The entries after the entry of `key` was taken out, if there was one.
pub open spec fn removed(pairs: Seq<Pair>, key: Seq<char>) -> Seq<Pair> {
    if has_key(pairs, key) {
        pairs.remove(position_of(pairs, key))
    } else {
        pairs
    }
}

/// Among entries with distinct keys, an entry is found at its own position.
pub proof fn lemma_position(pairs: Seq<Pair>, i: int)
    requires
        distinct_keys(pairs),
        0 <= i < pairs.len(),
    ensures
        has_key(pairs, pairs[i].0),
        position_of(pairs, pairs[i].0) == i,
{
    let j = position_of(pairs, pairs[i].0);
    assert(has_key(pairs, pairs[i].0));
    if j < i {
        assert(pairs[j].0 != pairs[i].0);
    } else if i < j {
        assert(pairs[i].0 != pairs[j].0);
    }
}

/// Storing a value keeps the keys distinct, and the entries then stand for
/// the map with that value under that key.
pub proof fn lemma_inserted(pairs: Seq<Pair>, key: Seq<char>, value: Seq<char>)
    requires
        distinct_keys(pairs),
    ensures
        distinct_keys(inserted(pairs, key, value)),
        as_map(inserted(pairs, key, value)) == as_map(pairs).insert(key, value),
{
    if has_key(pairs, key) {
        lemma_as_map_update(pairs, position_of(pairs, key), value);
    } else {
        lemma_as_map_push(pairs, (key, value));
    }
}

/// Taking a key out keeps the keys distinct, and the entries then stand
/// for the map without that key.
pub proof fn lemma_removed(pairs: Seq<Pair>, key: Seq<char>)
    requires
        distinct_keys(pairs),
    ensures
        distinct_keys(removed(pairs, key)),
        as_map(removed(pairs, key)) == as_map(pairs).remove(key),
        !has_key(removed(pairs, key), key),
{
    if has_key(pairs, key) {
        lemma_as_map_remove(pairs, position_of(pairs, key));
    } else {
        assert(as_map(pairs).remove(key) =~= as_map(pairs));
    }
    assert(!as_map(removed(pairs, key)).contains_key(key));
}

/// Among entries with distinct keys, the map holds each entry's value
/// under its key.
pub proof fn lemma_as_map_at(pairs: Seq<Pair>, i: int)
    requires
        distinct_keys(pairs),
        0 <= i < pairs.len(),
    ensures
        as_map(pairs).contains_key(pairs[i].0),
        as_map(pairs)[pairs[i].0] == pairs[i].1,
{
    let j = position_of(pairs, pairs[i].0);
    assert(has_key(pairs, pairs[i].0));
    if j < i {
        assert(pairs[j].0 != pairs[i].0);
    } else if i < j {
        assert(pairs[i].0 != pairs[j].0);
    }
}

proof fn lemma_as_map_push(pairs: Seq<Pair>, pair: Pair)
    requires
        distinct_keys(pairs),
        !has_key(pairs, pair.0),
    ensures
        distinct_keys(pairs.push(pair)),
        as_map(pairs.push(pair)) == as_map(pairs).insert(pair.0, pair.1),
{
    let after = pairs.push(pair);
    assert(distinct_keys(after)) by {
        assert forall|i: int, j: int| 0 <= i < j < after.len() implies (#[trigger] after[i]).0 != (
        #[trigger] after[j]).0 by {
            if j < pairs.len() {
                assert(pairs[i].0 != pairs[j].0);
            } else {
                assert(pairs[i].0 != pair.0);
            }
        }
    }
    assert forall|key: Seq<char>| #[trigger] has_key(after, key) <==> (key == pair.0 || has_key(pairs, key)) by {
        if has_key(after, key) {
            let i = position_of(after, key);
            if i < pairs.len() {
                assert(pairs[i].0 == key);
            }
        }
        if has_key(pairs, key) {
            let i = position_of(pairs, key);
            assert(after[i].0 == key);
        }
        if key == pair.0 {
            assert(after[pairs.len() as int].0 == key);
        }
    }
    assert forall|key: Seq<char>| has_key(after, key) implies #[trigger] as_map(after)[key] == as_map(
        pairs,
    ).insert(pair.0, pair.1)[key] by {
        let i = position_of(after, key);
        lemma_as_map_at(after, i);
        if i < pairs.len() {
            lemma_as_map_at(pairs, i);
        }
    }
    assert(as_map(after) =~= as_map(pairs).insert(pair.0, pair.1));
}

proof fn lemma_as_map_update(pairs: Seq<Pair>, i: int, value: Seq<char>)
    requires
        distinct_keys(pairs),
        0 <= i < pairs.len(),
    ensures
        distinct_keys(pairs.update(i, (pairs[i].0, value))),
        as_map(pairs.update(i, (pairs[i].0, value))) == as_map(pairs).insert(pairs[i].0, value),
{
    let key_i = pairs[i].0;
    let after = pairs.update(i, (key_i, value));
    assert forall|a: int| 0 <= a < pairs.len() implies (#[trigger] after[a]).0 == pairs[a].0 by {}
    assert(distinct_keys(after)) by {
        assert forall|a: int, b: int| 0 <= a < b < after.len() implies (#[trigger] after[a]).0 != (
        #[trigger] after[b]).0 by {
            assert(pairs[a].0 != pairs[b].0);
        }
    }
    assert forall|key: Seq<char>| #[trigger] has_key(after, key) <==> has_key(pairs, key) by {
        if has_key(after, key) {
            let a = position_of(after, key);
            assert(pairs[a].0 == key);
        }
        if has_key(pairs, key) {
            let a = position_of(pairs, key);
            assert(after[a].0 == key);
        }
    }
    assert(has_key(pairs, key_i));
    assert forall|key: Seq<char>| has_key(after, key) implies #[trigger] as_map(after)[key] == as_map(
        pairs,
    ).insert(key_i, value)[key] by {
        let a = position_of(after, key);
        lemma_as_map_at(after, a);
        lemma_as_map_at(pairs, a);
        if a != i {
            if a < i {
                assert(pairs[a].0 != pairs[i].0);
            } else {
                assert(pairs[i].0 != pairs[a].0);
            }
        }
    }
    assert(as_map(after) =~= as_map(pairs).insert(key_i, value));
}

proof fn lemma_as_map_remove(pairs: Seq<Pair>, i: int)
    requires
        distinct_keys(pairs),
        0 <= i < pairs.len(),
    ensures
        distinct_keys(pairs.remove(i)),
        as_map(pairs.remove(i)) == as_map(pairs).remove(pairs[i].0),
{
    let key_i = pairs[i].0;
    let after = pairs.remove(i);
    assert forall|a: int| 0 <= a < after.len() implies #[trigger] after[a] == pairs[if a < i {
        a
    } else {
        a + 1
    }] by {}
    assert(distinct_keys(after)) by {
        assert forall|a: int, b: int| 0 <= a < b < after.len() implies (#[trigger] after[a]).0 != (
        #[trigger] after[b]).0 by {
            let a0 = if a < i { a } else { a + 1 };
            let b0 = if b < i { b } else { b + 1 };
            assert(pairs[a0].0 != pairs[b0].0);
        }
    }
    assert forall|key: Seq<char>| #[trigger] has_key(after, key) <==> (key != key_i && has_key(pairs, key)) by {
        if has_key(after, key) {
            let a = position_of(after, key);
            let a0 = if a < i { a } else { a + 1 };
            assert(pairs[a0].0 == key);
            if a0 < i {
                assert(pairs[a0].0 != pairs[i].0);
            } else {
                assert(pairs[i].0 != pairs[a0].0);
            }
        }
        if key != key_i && has_key(pairs, key) {
            let a = position_of(pairs, key);
            let a1 = if a < i { a } else { a - 1 };
            assert(after[a1].0 == key);
        }
    }
    assert forall|key: Seq<char>| has_key(after, key) implies #[trigger] as_map(after)[key] == as_map(
        pairs,
    ).remove(key_i)[key] by {
        let a = position_of(after, key);
        let a0 = if a < i { a } else { a + 1 };
        lemma_as_map_at(after, a);
        lemma_as_map_at(pairs, a0);
    }
    assert(as_map(after) =~= as_map(pairs).remove(key_i));
}

/// A finite map from key to stored text.
pub struct Snapshot {
    entries: Vec<(String, String)>,
}

impl View for Snapshot {
    type V = Map<Seq<char>, Seq<char>>;

    open spec fn view(&self) -> Map<Seq<char>, Seq<char>> {
        as_map(self.pairs())
    }
}

impl Snapshot {
    #[verifier::type_invariant]
    spec fn no_key_twice(self) -> bool {
        distinct_keys(pairs_of(self.entries@))
    }

    /// The entries in the order in which they are kept.
    pub closed spec fn pairs(&self) -> Seq<Pair> {
        pairs_of(self.entries@)
    }

    /// An empty snapshot.
    pub fn new() -> (empty: Self)
        ensures
            empty.pairs() == Seq::<Pair>::empty(),
            empty@ == Map::<Seq<char>, Seq<char>>::empty(),
    {
        let empty = Snapshot { entries: Vec::new() };
        assert(empty.pairs() =~= Seq::<Pair>::empty());
        assert(empty@ =~= Map::<Seq<char>, Seq<char>>::empty());
        empty
    }

    /// The snapshot that a JSON text holds, where the text is a JSON
    /// object whose values are all strings.
    pub fn from_json(text: &str) -> (parsed: Option<Self>)
        ensures
            match parsed {
                Some(snapshot) => json_object_entries(text@) == Some(snapshot@) && distinct_keys(
                    snapshot.pairs(),
                ),
                None => json_object_entries(text@) is None,
            },
    {
        match object_from_str(text) {
            Ok(entries) => Some(Snapshot { entries }),
            Err(_) => None,
        }
    }

    /// The JSON text of the snapshot. Parsing the text gives the same
    /// snapshot back.
    pub fn to_json(&self) -> (text: Option<String>)
        ensures
            text matches Some(json) && json@ == json_object_text(self@) && json_object_entries(json@)
                == Some(self@),
    {
        proof {
            use_type_invariant(self);
        }
        match object_to_string(&self.entries) {
            Ok(json) => Some(json),
            Err(_) => None,
        }
    }

    /// The entries, in the order in which they are kept.
    pub fn entries(&self) -> (entries: &Vec<(String, String)>)
        ensures
            pairs_of(entries@) == self.pairs(),
            distinct_keys(self.pairs()),
    {
        proof {
            use_type_invariant(self);
        }
        &self.entries
    }

    fn find(&self, key: &str) -> (found: Option<usize>)
        ensures
            match found {
                Some(i) => i < self.pairs().len() && self.pairs()[i as int].0 == key@,
                None => !has_key(self.pairs(), key@),
            },
    {
        let mut i: usize = 0;
        while i < self.entries.len()
            invariant
                i <= self.entries.len(),
                forall|j: int| 0 <= j < i ==> (#[trigger] self.pairs()[j]).0 != key@,
            decreases self.entries.len() - i,
        {
            if *self.entries[i].0.as_str() == *key {
                return Some(i);
            }
            i += 1;
        }
        None
    }

    /// What is stored under `key`, if anything.
    pub fn get(&self, key: &str) -> (stored: Option<&String>)
        ensures
            match stored {
                Some(text) => self@.contains_key(key@) && text@ == self@[key@],
                None => !self@.contains_key(key@),
            },
    {
        proof {
            use_type_invariant(self);
        }
        match self.find(key) {
            Some(i) => {
                proof {
                    lemma_as_map_at(self.pairs(), i as int);
                }
                Some(&self.entries[i].1)
            },
            None => None,
        }
    }

    /// Stores `value` under `key`, in place of what was stored there.
    pub fn insert(&mut self, key: String, value: String)
        ensures
            final(self).pairs() == inserted(old(self).pairs(), key@, value@),
            final(self)@ == old(self)@.insert(key@, value@),
    {
        proof {
            use_type_invariant(&*self);
        }
        let found = self.find(key.as_str());
        let mut entries = Vec::new();
        std::mem::swap(&mut entries, &mut self.entries);
        match found {
            Some(i) => {
                proof {
                    lemma_position(pairs_of(entries@), i as int);
                    lemma_inserted(pairs_of(entries@), key@, value@);
                }
                entries.set(i, (key, value));
                assert(pairs_of(entries@) =~= old(self).pairs().update(i as int, (key@, value@)));
            },
            None => {
                proof {
                    lemma_inserted(pairs_of(entries@), key@, value@);
                }
                entries.push((key, value));
                assert(pairs_of(entries@) =~= old(self).pairs().push((key@, value@)));
            },
        }
        self.entries = entries;
    }

    /// Removes what is stored under `key`, if anything.
    pub fn remove(&mut self, key: &str)
        ensures
            final(self).pairs() == removed(old(self).pairs(), key@),
            final(self)@ == old(self)@.remove(key@),
    {
        proof {
            use_type_invariant(&*self);
        }
        match self.find(key) {
            Some(i) => {
                let mut entries = Vec::new();
                std::mem::swap(&mut entries, &mut self.entries);
                proof {
                    lemma_position(pairs_of(entries@), i as int);
                    lemma_removed(pairs_of(entries@), key@);
                }
                entries.remove(i);
                assert(pairs_of(entries@) =~= old(self).pairs().remove(i as int));
                self.entries = entries;
            },
            None => {
                assert(old(self)@.remove(key@) =~= old(self)@);
            },
        }
    }

    /// Removes every entry.
    pub fn clear(&mut self)
        ensures
            final(self).pairs() == Seq::<Pair>::empty(),
            final(self)@ == Map::<Seq<char>, Seq<char>>::empty(),
    {
        self.entries = Vec::new();
        assert(self.pairs() =~= Seq::<Pair>::empty());
        assert(self@ =~= Map::<Seq<char>, Seq<char>>::empty());
    }
}

} // verus!
