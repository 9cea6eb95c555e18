//! A small table from names to values, kept as a list of entries in which a
//! later entry of a name overrides an earlier one.
use vstd::prelude::*;

verus! {

/// One entry of a [`Table`].
pub struct Entry<V> {
    pub name: String,
    pub value: V,
}

/// A finite map from names to values. Its view is the map it stands for.
pub struct Table<V> {
    pub entries: Vec<Entry<V>>,
}

/// The map that a list of entries stands for: the last entry of a name wins.
pub open spec fn entries_map<V: View>(entries: Seq<Entry<V>>) -> Map<Seq<char>, V::V>
    decreases entries.len(),
{
    if entries.len() == 0 {
        Map::empty()
    } else {
        entries_map(entries.drop_last()).insert(entries.last().name@, entries.last().value@)
    }
}

/// The index of the last entry with the name `key`, if there is one.
pub open spec fn last_index<V>(entries: Seq<Entry<V>>, key: Seq<char>) -> Option<int>
    decreases entries.len(),
{
    if entries.len() == 0 {
        None
    } else if entries.last().name@ == key {
        Some(entries.len() - 1)
    } else {
        last_index(entries.drop_last(), key)
    }
}

pub proof fn lemma_last_index<V>(entries: Seq<Entry<V>>, key: Seq<char>)
    ensures
        match last_index(entries, key) {
            Some(i) => 0 <= i < entries.len() && entries[i].name@ == key && forall|j: int|
                i < j < entries.len() ==> (#[trigger] entries[j]).name@ != key,
            None => forall|j: int| 0 <= j < entries.len() ==> (#[trigger] entries[j]).name@ != key,
        },
    decreases entries.len(),
{
    if entries.len() > 0 && entries.last().name@ != key {
        let d = entries.drop_last();
        lemma_last_index(d, key);
        assert forall|j: int| 0 <= j < d.len() implies d[j] == entries[j] by {}
        match last_index(d, key) {
            Some(i) => {
                assert forall|j: int| i < j < entries.len() implies entries[j].name@ != key by {
                    if j < d.len() {
                        assert(d[j].name@ != key);
                    }
                }
            },
            None => {
                assert forall|j: int| 0 <= j < entries.len() implies entries[j].name@ != key by {
                    if j < d.len() {
                        assert(d[j].name@ != key);
                    }
                }
            },
        }
    }
}

pub proof fn lemma_last_index_unique<V>(entries: Seq<Entry<V>>, key: Seq<char>, i: int)
    requires
        0 <= i < entries.len(),
        entries[i].name@ == key,
        forall|j: int| i < j < entries.len() ==> entries[j].name@ != key,
    ensures
        last_index(entries, key) == Some(i),
    decreases entries.len(),
{
    if i < entries.len() - 1 {
        lemma_last_index_unique(entries.drop_last(), key, i);
    }
}

pub proof fn lemma_last_index_absent<V>(entries: Seq<Entry<V>>, key: Seq<char>)
    requires
        forall|j: int| 0 <= j < entries.len() ==> entries[j].name@ != key,
    ensures
        last_index(entries, key) is None,
    decreases entries.len(),
{
    if entries.len() > 0 {
        lemma_last_index_absent(entries.drop_last(), key);
    }
}

/// What the map holds for a name is what the last entry of that name holds.
pub proof fn lemma_entries_map_lookup<V: View>(entries: Seq<Entry<V>>, key: Seq<char>)
    ensures
        match last_index(entries, key) {
            Some(i) => entries_map(entries).contains_key(key) && entries_map(entries)[key]
                == entries[i].value@,
            None => !entries_map(entries).contains_key(key),
        },
    decreases entries.len(),
{
    if entries.len() > 0 {
        lemma_entries_map_lookup(entries.drop_last(), key);
        lemma_last_index(entries, key);
        lemma_last_index(entries.drop_last(), key);
    }
}

pub proof fn lemma_entries_map_push<V: View>(entries: Seq<Entry<V>>, e: Entry<V>)
    ensures
        entries_map(entries.push(e)) == entries_map(entries).insert(e.name@, e.value@),
{
    assert(entries.push(e).drop_last() =~= entries);
}

/// Replacing the last entry of a name by another entry of that name is an
/// insertion into the map.
pub proof fn lemma_entries_map_update<V: View>(entries: Seq<Entry<V>>, i: int, e: Entry<V>)
    requires
        last_index(entries, e.name@) == Some(i),
    ensures
        entries_map(entries.update(i, e)) =~= entries_map(entries).insert(e.name@, e.value@),
    decreases entries.len(),
{
    lemma_last_index(entries, e.name@);
    let n = entries.len() - 1;
    if i == n {
        assert(entries.update(i, e).drop_last() =~= entries.drop_last());
    } else {
        lemma_entries_map_update(entries.drop_last(), i, e);
        assert(entries.update(i, e).drop_last() =~= entries.drop_last().update(i, e));
        assert(entries.update(i, e).last() == entries.last());
    }
}

impl<V: View> View for Table<V> {
    type V = Map<Seq<char>, V::V>;

    open spec fn view(&self) -> Map<Seq<char>, V::V> {
        entries_map(self.entries@)
    }
}

impl<V: View> Table<V> {
    /// The empty table.
    pub fn new() -> (t: Table<V>)
        ensures
            t@ == Map::<Seq<char>, V::V>::empty(),
    {
        Table { entries: Vec::new() }
    }

    /// The position of the entry that decides what `key` maps to.
    pub fn position(&self, key: &String) -> (r: Option<usize>)
        ensures
            match r {
                Some(i) => i < self.entries.len() && last_index(self.entries@, key@) == Some(
                    i as int,
                ),
                None => last_index(self.entries@, key@) is None,
            },
    {
        let mut i: usize = self.entries.len();
        while i > 0
            invariant
                0 <= i <= self.entries.len(),
                forall|j: int| i <= j < self.entries.len() ==> self.entries@[j].name@ != key@,
            decreases i,
        {
            i -= 1;
            if self.entries[i].name == *key {
                proof {
                    lemma_last_index_unique(self.entries@, key@, i as int);
                }
                return Some(i);
            }
        }
        proof {
            lemma_last_index_absent(self.entries@, key@);
        }
        None
    }

    pub fn contains_key(&self, key: &String) -> (r: bool)
        ensures
            r == self@.contains_key(key@),
    {
        proof {
            lemma_entries_map_lookup(self.entries@, key@);
        }
        self.position(key).is_some()
    }

    pub fn get(&self, key: &String) -> (r: Option<&V>)
        ensures
            match r {
                Some(v) => self@.contains_key(key@) && self@[key@] == v@,
                None => !self@.contains_key(key@),
            },
    {
        proof {
            lemma_entries_map_lookup(self.entries@, key@);
        }
        match self.position(key) {
            Some(i) => Some(&self.entries[i].value),
            None => None,
        }
    }

    /// Binds `key` to `value`, whether or not it was bound before.
    pub fn insert(&mut self, key: String, value: V)
        ensures
            final(self)@ == old(self)@.insert(key@, value@),
    {
        match self.position(&key) {
            Some(i) => {
                let e = Entry { name: key, value };
                proof {
                    lemma_entries_map_update(self.entries@, i as int, e);
                }
                self.entries.set(i, e);
            },
            None => {
                let e = Entry { name: key, value };
                proof {
                    lemma_entries_map_push(self.entries@, e);
                }
                self.entries.push(e);
            },
        }
    }
}

} // verus!
