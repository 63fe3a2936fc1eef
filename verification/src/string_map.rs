//! A map from text keys to text values that keeps its entries in insertion
//! order, each key at most once.
use vstd::prelude::*;

verus! {

broadcast use vstd::string::group_string_axioms;

/// Abstract contents of a [`StringMap`]: its entries in insertion order.
pub type Entries = Seq<(Seq<char>, Seq<char>)>;

/// No key occurs twice among the entries.
pub open spec fn keys_distinct(entries: Entries) -> bool {
    forall|i: int, j: int|
        0 <= i < entries.len() && 0 <= j < entries.len() && i != j ==> #[trigger] entries[i].0
            != #[trigger] entries[j].0
}

/// Some entry has key `k`.
pub open spec fn has_key(entries: Entries, k: Seq<char>) -> bool {
    exists|i: int| 0 <= i < entries.len() && #[trigger] entries[i].0 == k
}

/// The position of key `k` (meaningful when `has_key(entries, k)`).
pub open spec fn key_index(entries: Entries, k: Seq<char>) -> int {
    choose|i: int| 0 <= i < entries.len() && #[trigger] entries[i].0 == k
}

/// The value stored under `k`, if any.
pub open spec fn lookup(entries: Entries, k: Seq<char>) -> Option<Seq<char>> {
    if has_key(entries, k) {
        Some(entries[key_index(entries, k)].1)
    } else {
        None
    }
}

/// The entries after inserting `(k, v)`: an existing key keeps its place and
/// takes the new value, a new key goes last.
pub open spec fn inserted(entries: Entries, k: Seq<char>, v: Seq<char>) -> Entries {
    if has_key(entries, k) {
        entries.update(key_index(entries, k), (k, v))
    } else {
        entries.push((k, v))
    }
}

/// The entries read as a finite map.
pub open spec fn as_map(entries: Entries) -> Map<Seq<char>, Seq<char>> {
    Map::new(|k: Seq<char>| has_key(entries, k), |k: Seq<char>| lookup(entries, k).unwrap())
}

/// The text views of stored entries.
pub open spec fn entries_view(v: Seq<(String, String)>) -> Entries {
    v.map_values(|e: (String, String)| (e.0@, e.1@))
}

/// A map from text keys to text values, each key present at most once,
/// entries kept in the order their keys were first inserted.
#[derive(Debug)]
pub struct StringMap {
    entries: Vec<(String, String)>,
}

impl View for StringMap {
    type V = Entries;

    closed spec fn view(&self) -> Entries {
        entries_view(self.entries@)
    }
}

impl StringMap {
    #[verifier::type_invariant]
    closed spec fn inv(self) -> bool {
        keys_distinct(self@)
    }

    /// An empty map.
    pub fn new() -> (m: Self)
        ensures
            m@ == Seq::<(Seq<char>, Seq<char>)>::empty(),
    {
        let m = StringMap { entries: Vec::new() };
        assert(m@ =~= Seq::<(Seq<char>, Seq<char>)>::empty());
        m
    }

    /// Number of entries.
    pub fn len(&self) -> (n: usize)
        ensures
            n == self@.len(),
    {
        self.entries.len()
    }

    /// Whether the map has no entries.
    pub fn is_empty(&self) -> (b: bool)
        ensures
            b == (self@.len() == 0),
    {
        self.entries.len() == 0
    }

    /// The `i`-th entry in insertion order.
    pub fn entry(&self, i: usize) -> (e: (&String, &String))
        requires
            i < self@.len(),
        ensures
            (e.0@, e.1@) == self@[i as int],
            lookup(self@, e.0@) == Some(e.1@),
    {
        proof {
            use_type_invariant(self);
            lemma_index_is_key_index(self@, self@[i as int].0, i as int);
        }
        let e = &self.entries[i];
        (&e.0, &e.1)
    }

    /// Position of `key`, if present.
    fn find(&self, key: &String) -> (r: Option<usize>)
        ensures
            match r {
                Some(i) => i < self@.len() && self@[i as int].0 == key@,
                None => !has_key(self@, key@),
            },
    {
        let mut i: usize = 0;
        while i < self.entries.len()
            invariant
                i <= self.entries.len(),
                forall|j: int| 0 <= j < i ==> #[trigger] self@[j].0 != key@,
            decreases self.entries.len() - i,
        {
            if self.entries[i].0 == *key {
                return Some(i);
            }
            i = i + 1;
        }
        None
    }

    /// Whether `key` is present.
    pub fn contains_key(&self, key: &str) -> (b: bool)
        ensures
            b == has_key(self@, key@),
    {
        let k = key.to_string();
        self.find(&k).is_some()
    }

    /// The value stored under `key`.
    pub fn get(&self, key: &str) -> (r: Option<&String>)
        ensures
            match r {
                Some(v) => lookup(self@, key@) == Some(v@),
                None => lookup(self@, key@) is None,
            },
    {
        proof {
            use_type_invariant(self);
        }
        let k = key.to_string();
        match self.find(&k) {
            Some(i) => {
                proof {
                    lemma_index_is_key_index(self@, key@, i as int);
                }
                Some(&self.entries[i].1)
            },
            None => None,
        }
    }

    /// Store `value` under `key`, replacing any earlier value.
    pub fn insert(&mut self, key: String, value: String)
        ensures
            final(self)@ == inserted(old(self)@, key@, value@),
    {
        proof {
            use_type_invariant(&*self);
        }
        let ghost old_view = self@;
        let found = self.find(&key);
        let mut entries: Vec<(String, String)> = Vec::new();
        std::mem::swap(&mut entries, &mut self.entries);
        assert(entries_view(entries@) == old_view);
        match found {
            Some(i) => {
                proof {
                    lemma_index_is_key_index(old_view, key@, i as int);
                }
                entries.set(i, (key, value));
            },
            None => {
                entries.push((key, value));
            },
        }
        assert(entries_view(entries@) =~= inserted(
            old_view,
            key@,
            value@,
        ));
        proof {
            lemma_inserted_distinct(old_view, key@, value@);
        }
        self.entries = entries;
    }
}

/// Inserting keeps keys distinct.
proof fn lemma_inserted_distinct(entries: Entries, k: Seq<char>, v: Seq<char>)
    requires
        keys_distinct(entries),
    ensures
        keys_distinct(inserted(entries, k, v)),
{
    if has_key(entries, k) {
        let j = key_index(entries, k);
        assert(entries[j].0 == k);
    }
}

impl Clone for StringMap {
    fn clone(&self) -> (c: Self)
        ensures
            c@ == self@,
    {
        proof {
            use_type_invariant(self);
        }
        let mut entries: Vec<(String, String)> = Vec::new();
        let mut i: usize = 0;
        while i < self.entries.len()
            invariant
                i <= self.entries.len(),
                entries@.len() == i,
                entries_view(entries@) == self@.subrange(
                    0,
                    i as int,
                ),
            decreases self.entries.len() - i,
        {
            let e = &self.entries[i];
            let k = e.0.clone();
            let v = e.1.clone();
            assert(k@ == self@[i as int].0 && v@ == self@[i as int].1);
            let ghost before = entries@;
            entries.push((k, v));
            assert(entries@ == before.push((k, v)));
            assert forall|j: int| 0 <= j <= i implies #[trigger] entries_view(entries@)[j]
                == self@[j] by {
                if j < i {
                    assert(entries@[j] == before[j]);
                    assert(entries_view(before)[j] == self@.subrange(0, i as int)[j]);
                }
            }
            i = i + 1;
            assert(entries_view(entries@) =~= self@.subrange(
                0,
                i as int,
            ));
        }
        assert(self@.subrange(0, i as int) =~= self@);
        StringMap { entries }
    }
}

/// Law: reading a key just written gives the written value, and writing
/// one key leaves every other key's value as it was.
pub proof fn lemma_get_after_insert(entries: Entries, k: Seq<char>, v: Seq<char>, other: Seq<char>)
    requires
        keys_distinct(entries),
    ensures
        lookup(inserted(entries, k, v), k) == Some(v),
        other != k ==> lookup(inserted(entries, k, v), other) == lookup(entries, other),
        keys_distinct(inserted(entries, k, v)),
{
    lemma_inserted_distinct(entries, k, v);
    let e2 = inserted(entries, k, v);
    if has_key(entries, k) {
        let j = key_index(entries, k);
        assert(entries[j].0 == k);
        lemma_index_is_key_index(e2, k, j);
        if other != k {
            if has_key(entries, other) {
                let m = key_index(entries, other);
                assert(entries[m].0 == other);
                assert(e2[m] == entries[m]);
                lemma_index_is_key_index(e2, other, m);
                lemma_index_is_key_index(entries, other, m);
            } else {
                assert forall|i: int| 0 <= i < e2.len() implies #[trigger] e2[i].0 != other by {
                    if i != j {
                        assert(e2[i] == entries[i]);
                    }
                }
            }
        }
    } else {
        lemma_index_is_key_index(e2, k, entries.len() as int);
        if other != k {
            if has_key(entries, other) {
                let m = key_index(entries, other);
                assert(entries[m].0 == other);
                assert(e2[m] == entries[m]);
                lemma_index_is_key_index(e2, other, m);
                lemma_index_is_key_index(entries, other, m);
            } else {
                assert forall|i: int| 0 <= i < e2.len() implies #[trigger] e2[i].0 != other by {
                    if i < entries.len() {
                        assert(e2[i] == entries[i]);
                    }
                }
            }
        }
    }
}

/// With distinct keys, the position of a key is the one `key_index` picks.
proof fn lemma_index_is_key_index(entries: Entries, k: Seq<char>, i: int)
    requires
        keys_distinct(entries),
        0 <= i < entries.len(),
        entries[i].0 == k,
    ensures
        has_key(entries, k),
        key_index(entries, k) == i,
        lookup(entries, k) == Some(entries[i].1),
{
    assert(has_key(entries, k));
    let j = key_index(entries, k);
    assert(entries[j].0 == k);
}

} // verus!
