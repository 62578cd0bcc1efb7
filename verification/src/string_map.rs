//! Maps from text to values that are changed in place.

use vstd::prelude::*;
use vstd::string::*;

verus! {

/// A map from text to values that can be changed in place.
pub struct StringMap<V> {
    entries: Vec<(String, V)>,
}

/// What a list of entries maps: of entries with the same key, the first one counts.
pub closed spec fn entries_map<V>(entries: Seq<(String, V)>) -> Map<Seq<char>, V>
    decreases entries.len(),
{
    if entries.len() == 0 {
        Map::empty()
    } else {
        entries_map(entries.drop_first()).insert(entries[0].0@, entries[0].1)
    }
}

impl<V> View for StringMap<V> {
    type V = Map<Seq<char>, V>;

    closed spec fn view(&self) -> Map<Seq<char>, V> {
        entries_map(self.entries@)
    }
}

/// Appends an entry with a new key.
proof fn lemma_push<V>(entries: Seq<(String, V)>, key: String, value: V)
    requires
        !entries_map(entries).dom().contains(key@),
    ensures
        entries_map(entries.push((key, value))) == entries_map(entries).insert(key@, value),
    decreases entries.len(),
{
    let pushed = entries.push((key, value));
    if entries.len() == 0 {
        assert(pushed.drop_first() =~= entries);
        assert(pushed[0] == (key, value));
    } else {
        assert(pushed.drop_first() =~= entries.drop_first().push((key, value)));
        assert(!entries_map(entries.drop_first()).dom().contains(key@));
        lemma_push(entries.drop_first(), key, value);
        assert(key@ != entries[0].0@);
        assert(pushed[0] == entries[0]);
    }
    assert(entries_map(pushed) =~= entries_map(entries).insert(key@, value));
}

/// Replaces the first entry with a key.
proof fn lemma_replace<V>(entries: Seq<(String, V)>, i: int, key: String, value: V)
    requires
        0 <= i < entries.len(),
        entries[i].0@ == key@,
        forall|j: int| 0 <= j < i ==> (#[trigger] entries[j]).0@ != key@,
    ensures
        entries_map(entries.update(i, (key, value))) == entries_map(entries).insert(key@, value),
    decreases entries.len(),
{
    let updated = entries.update(i, (key, value));
    if i == 0 {
        assert(updated.drop_first() =~= entries.drop_first());
    } else {
        assert(updated.drop_first() =~= entries.drop_first().update(i - 1, (key, value)));
        assert forall|j: int| 0 <= j < i - 1 implies (#[trigger] entries.drop_first()[j]).0@
            != key@ by {
            assert(entries[j + 1].0@ != key@);
        }
        lemma_replace(entries.drop_first(), i - 1, key, value);
        assert(entries[0].0@ != key@);
    }
    assert(entries_map(updated) =~= entries_map(entries).insert(key@, value));
}

/// The first entry with a key says what the key maps to; without one the key maps to nothing.
proof fn lemma_first<V>(entries: Seq<(String, V)>, i: int, key: Seq<char>)
    requires
        0 <= i <= entries.len(),
        i < entries.len() ==> entries[i].0@ == key,
        forall|j: int| 0 <= j < i ==> (#[trigger] entries[j]).0@ != key,
    ensures
        entries_map(entries).dom().contains(key) <==> i < entries.len(),
        i < entries.len() ==> entries_map(entries)[key] == entries[i].1,
    decreases entries.len(),
{
    if entries.len() > 0 && i > 0 {
        assert forall|j: int| 0 <= j < i - 1 implies (#[trigger] entries.drop_first()[j]).0@
            != key by {
            assert(entries[j + 1].0@ != key);
        }
        lemma_first(entries.drop_first(), i - 1, key);
        assert(entries[0].0@ != key);
    }
}

impl<V> StringMap<V> {
    /// The empty map.
    pub fn new() -> (r: StringMap<V>)
        ensures
            r@ == Map::<Seq<char>, V>::empty(),
    {
        StringMap { entries: Vec::new() }
    }

    /// The position of the first entry with a key, or the number of entries.
    fn position(&self, key: &str) -> (r: usize)
        ensures
            0 <= r <= self.entries@.len(),
            r < self.entries@.len() ==> self.entries@[r as int].0@ == key@,
            forall|j: int| 0 <= j < r ==> (#[trigger] self.entries@[j]).0@ != key@,
    {
        let wanted = key.to_owned();
        let mut k: usize = 0;
        while k < self.entries.len()
            invariant
                k <= self.entries@.len(),
                wanted@ == key@,
                forall|j: int| 0 <= j < k ==> (#[trigger] self.entries@[j]).0@ != key@,
            decreases self.entries@.len() - k,
        {
            if self.entries[k].0 == wanted {
                return k;
            }
            k = k + 1;
        }
        k
    }

    /// What a key maps to.
    pub fn get(&self, key: &str) -> (r: Option<&V>)
        ensures
            match r {
                Some(v) => self@.dom().contains(key@) && *v == self@[key@],
                None => !self@.dom().contains(key@),
            },
    {
        let i = self.position(key);
        proof {
            lemma_first(self.entries@, i as int, key@);
        }
        if i < self.entries.len() {
            Some(&self.entries[i].1)
        } else {
            None
        }
    }

    /// What a key maps to, to be changed.
    pub fn get_mut(&mut self, key: &str) -> (r: Option<&mut V>)
        ensures
            match r {
                Some(v) => old(self)@.dom().contains(key@) && *v == old(self)@[key@]
                    && final(self)@ == old(self)@.insert(key@, *final(v)),
                None => !old(self)@.dom().contains(key@) && final(self)@ == old(self)@,
            },
    {
        let i = self.position(key);
        proof {
            lemma_first(self.entries@, i as int, key@);
        }
        if i < self.entries.len() {
            let entry = &mut self.entries[i];
            let value = &mut entry.1;
            proof {
                lemma_replace(old(self).entries@, i as int, old(self).entries@[i as int].0, *final(value));
            }
            Some(value)
        } else {
            None
        }
    }

    /// The key maps to something.
    pub fn contains_key(&self, key: &str) -> (r: bool)
        ensures
            r == self@.dom().contains(key@),
    {
        let i = self.position(key);
        proof {
            lemma_first(self.entries@, i as int, key@);
        }
        i < self.entries.len()
    }

    /// Maps a key to a value, whatever it mapped to before.
    pub fn insert(&mut self, key: String, value: V)
        ensures
            final(self)@ == old(self)@.insert(key@, value),
    {
        let i = self.position(key.as_str());
        proof {
            lemma_first(self.entries@, i as int, key@);
        }
        if i < self.entries.len() {
            proof {
                lemma_replace(self.entries@, i as int, key, value);
            }
            self.entries.set(i, (key, value));
        } else {
            proof {
                lemma_push(self.entries@, key, value);
            }
            self.entries.push((key, value));
        }
    }
}

} // verus!
