use crate::text::same_text;
use vstd::prelude::*;

verus! {

/// The keys of a sequence of entries, in order.
pub open spec fn keys_of<V>(s: Seq<(Seq<char>, V)>) -> Seq<Seq<char>> {
    s.map_values(|e: (Seq<char>, V)| e.0)
}

/// The values of a sequence of entries, in order.
pub open spec fn values_of<V>(s: Seq<(Seq<char>, V)>) -> Seq<V> {
    s.map_values(|e: (Seq<char>, V)| e.1)
}

/// No key occurs in two entries.
pub open spec fn unique_keys<V>(s: Seq<(Seq<char>, V)>) -> bool {
    forall|i: int, j: int| 0 <= i < j < s.len() ==> s[i].0 != s[j].0
}

/// The position of the first occurrence of `key` in `keys`.
pub open spec fn first_index(keys: Seq<Seq<char>>, key: Seq<char>) -> Option<int>
    decreases keys.len(),
{
    if keys.len() == 0 {
        None
    } else if keys[0] == key {
        Some(0)
    } else {
        match first_index(keys.drop_first(), key) {
            Some(i) => Some(i + 1),
            None => None,
        }
    }
}

/// The value of the first entry under `key`, if there is one.
pub open spec fn lookup<V>(s: Seq<(Seq<char>, V)>, key: Seq<char>) -> Option<V> {
    match first_index(keys_of(s), key) {
        Some(i) => Some(s[i].1),
        None => None,
    }
}

/// The entries after `key` has been set to `value`: an entry that is already
/// there keeps its place and takes the new value, a new key goes to the end.
pub open spec fn inserted<V>(s: Seq<(Seq<char>, V)>, key: Seq<char>, value: V) -> Seq<
    (Seq<char>, V),
> {
    match first_index(keys_of(s), key) {
        Some(i) => s.update(i, (key, value)),
        None => s.push((key, value)),
    }
}

/// `first_index` returns the least position that holds the key, and `None`
/// exactly when no position does.
pub proof fn lemma_first_index(keys: Seq<Seq<char>>, key: Seq<char>)
    ensures
        match first_index(keys, key) {
            Some(i) => 0 <= i < keys.len() && keys[i] == key && forall|j: int|
                0 <= j < i ==> keys[j] != key,
            None => forall|j: int| 0 <= j < keys.len() ==> keys[j] != key,
        },
    decreases keys.len(),
{
    if keys.len() > 0 && keys[0] != key {
        let rest = keys.drop_first();
        lemma_first_index(rest, key);
        match first_index(rest, key) {
            Some(i) => {
                assert forall|j: int| 0 <= j < i + 1 implies keys[j] != key by {
                    if j > 0 {
                        assert(rest[j - 1] == keys[j]);
                    }
                }
            },
            None => {
                assert forall|j: int| 0 <= j < keys.len() implies keys[j] != key by {
                    if j > 0 {
                        assert(rest[j - 1] == keys[j]);
                    }
                }
            },
        }
    }
}

/// A position that holds the key, with no earlier one that does, is what
/// `first_index` returns.
pub proof fn lemma_first_index_at(keys: Seq<Seq<char>>, key: Seq<char>, i: int)
    requires
        0 <= i < keys.len(),
        keys[i] == key,
        forall|j: int| 0 <= j < i ==> keys[j] != key,
    ensures
        first_index(keys, key) == Some(i),
{
    lemma_first_index(keys, key);
}

/// Setting a key keeps the keys unique.
pub proof fn lemma_inserted_unique<V>(s: Seq<(Seq<char>, V)>, key: Seq<char>, value: V)
    requires
        unique_keys(s),
    ensures
        unique_keys(inserted(s, key, value)),
{
    lemma_first_index(keys_of(s), key);
    let t = inserted(s, key, value);
    assert forall|i: int, j: int| 0 <= i < j < t.len() implies t[i].0 != t[j].0 by {
        if i < s.len() {
            assert(keys_of(s)[i] == s[i].0);
        }
        if j < s.len() {
            assert(keys_of(s)[j] == s[j].0);
        }
    }
}

/// After a key has been set, a lookup of that key gives the new value and a
/// lookup of any other key gives what it gave before.
pub proof fn lemma_lookup_inserted<V>(
    s: Seq<(Seq<char>, V)>,
    key: Seq<char>,
    value: V,
    other: Seq<char>,
)
    ensures
        lookup(inserted(s, key, value), other) == if other == key {
            Some(value)
        } else {
            lookup(s, other)
        },
{
    let t = inserted(s, key, value);
    lemma_first_index(keys_of(s), key);
    lemma_first_index(keys_of(s), other);
    lemma_first_index(keys_of(t), other);
    assert forall|j: int| 0 <= j < t.len() implies keys_of(t)[j] == t[j].0 by {}
    assert forall|j: int| 0 <= j < s.len() implies keys_of(s)[j] == s[j].0 by {}
    match first_index(keys_of(s), key) {
        Some(i) => {
            assert forall|j: int| 0 <= j < s.len() implies keys_of(t)[j] == keys_of(s)[j] by {}
            if other == key {
                lemma_first_index_at(keys_of(t), other, i);
            } else {
                match first_index(keys_of(s), other) {
                    Some(k) => {
                        lemma_first_index_at(keys_of(t), other, k);
                    },
                    None => {
                        if first_index(keys_of(t), other) is Some {
                            let k = first_index(keys_of(t), other).unwrap();
                            assert(keys_of(s)[k] == other);
                        }
                    },
                }
            }
        },
        None => {
            assert forall|j: int| 0 <= j < s.len() implies keys_of(t)[j] == keys_of(s)[j] by {}
            if other == key {
                lemma_first_index_at(keys_of(t), other, s.len() as int);
            } else {
                match first_index(keys_of(s), other) {
                    Some(k) => {
                        lemma_first_index_at(keys_of(t), other, k);
                    },
                    None => {
                        if first_index(keys_of(t), other) is Some {
                            let k = first_index(keys_of(t), other).unwrap();
                            assert(keys_of(s)[k] == other);
                        }
                    },
                }
            }
        },
    }
}

/// The entries of `base` after the first `n` entries of `over` have been set
/// in it, one after the other.
pub open spec fn overlaid<V>(base: Seq<(Seq<char>, V)>, over: Seq<(Seq<char>, V)>, n: nat) -> Seq<
    (Seq<char>, V),
>
    decreases n,
{
    if n == 0 {
        base
    } else {
        inserted(overlaid(base, over, (n - 1) as nat), over[n - 1].0, over[n - 1].1)
    }
}

/// The entries of `base` with those of `over` set in it: a key of both keeps
/// its place in `base` and takes the value of `over`, a key of `over` alone
/// goes to the end.
pub open spec fn merged<V>(base: Seq<(Seq<char>, V)>, over: Seq<(Seq<char>, V)>) -> Seq<
    (Seq<char>, V),
> {
    overlaid(base, over, over.len())
}

/// Setting the first `n` entries of `over` keeps the keys unique, and keeps
/// the value of every key that is not among them.
pub proof fn lemma_overlaid<V>(
    base: Seq<(Seq<char>, V)>,
    over: Seq<(Seq<char>, V)>,
    n: nat,
    key: Seq<char>,
)
    requires
        n <= over.len(),
        unique_keys(base),
    ensures
        unique_keys(overlaid(base, over, n)),
        (forall|i: int| 0 <= i < n ==> (#[trigger] over[i]).0 != key) ==> lookup(
            overlaid(base, over, n),
            key,
        ) == lookup(base, key),
    decreases n,
{
    if n > 0 {
        let before = overlaid(base, over, (n - 1) as nat);
        lemma_overlaid(base, over, (n - 1) as nat, key);
        lemma_inserted_unique(before, over[n - 1].0, over[n - 1].1);
        lemma_lookup_inserted(before, over[n - 1].0, over[n - 1].1, key);
    }
}

/// After the first `n` entries of `over` have been set, the key of the
/// entry at `i` has that entry's value, unless a later one of them set it
/// again.
pub proof fn lemma_overlaid_at<V>(
    base: Seq<(Seq<char>, V)>,
    over: Seq<(Seq<char>, V)>,
    n: nat,
    i: int,
)
    requires
        0 <= i < n <= over.len(),
        forall|j: int| i < j < n ==> (#[trigger] over[j]).0 != over[i].0,
    ensures
        lookup(overlaid(base, over, n), over[i].0) == Some(over[i].1),
    decreases n,
{
    let before = overlaid(base, over, (n - 1) as nat);
    lemma_lookup_inserted(before, over[n - 1].0, over[n - 1].1, over[i].0);
    if i < n - 1 {
        lemma_overlaid_at(base, over, (n - 1) as nat, i);
        assert(over[n - 1].0 != over[i].0);
    }
}

/// Where the keys of `base` and of `over` are unique, so are those of
/// `merged(base, over)`; a key of `over` has there the value that it has in
/// `over`, and any other key the value that it has in `base`.
pub proof fn lemma_merged<V>(base: Seq<(Seq<char>, V)>, over: Seq<(Seq<char>, V)>, key: Seq<char>)
    requires
        unique_keys(base),
        unique_keys(over),
    ensures
        unique_keys(merged(base, over)),
        lookup(merged(base, over), key) == if lookup(over, key) is Some {
            lookup(over, key)
        } else {
            lookup(base, key)
        },
{
    lemma_overlaid(base, over, over.len(), key);
    lemma_first_index(keys_of(over), key);
    assert forall|i: int| 0 <= i < over.len() implies keys_of(over)[i] == (
    #[trigger] over[i]).0 by {}
    match first_index(keys_of(over), key) {
        Some(i) => {
            assert(keys_of(over)[i] == over[i].0);
            lemma_overlaid_at(base, over, over.len(), i);
        },
        None => {
            assert forall|i: int| 0 <= i < over.len() implies (#[trigger] over[i]).0 != key by {
                assert(keys_of(over)[i] == over[i].0);
            }
        },
    }
}

/// Two sequences of entries with the same keys at the same places find each
/// key at the same place.
pub proof fn lemma_same_keys<V, W>(s: Seq<(Seq<char>, V)>, t: Seq<(Seq<char>, W)>)
    requires
        s.len() == t.len(),
        forall|i: int| 0 <= i < s.len() ==> s[i].0 == t[i].0,
    ensures
        keys_of(s) == keys_of(t),
        unique_keys(s) == unique_keys(t),
{
    assert(keys_of(s) =~= keys_of(t));
}

/// A map from strings to values that keeps its entries in the order in which
/// their keys were first set. No key occurs twice.
#[derive(Debug)]
pub struct OrderedMap<V> {
    entries: Vec<(String, V)>,
}

impl<V> View for OrderedMap<V> {
    type V = Seq<(Seq<char>, V)>;

    /// The entries in order, each key as its characters.
    closed spec fn view(&self) -> Seq<(Seq<char>, V)> {
        self.entries@.map_values(|e: (String, V)| (e.0@, e.1))
    }
}

impl<V> OrderedMap<V> {
    /// What holds of every map: its keys are unique.
    #[verifier::type_invariant]
    pub open spec fn wf(&self) -> bool {
        unique_keys(self@)
    }

    /// The empty map.
    pub fn new() -> (r: Self)
        ensures
            r@ == Seq::<(Seq<char>, V)>::empty(),
    {
        let r = OrderedMap { entries: Vec::new() };
        assert(r@ =~= Seq::<(Seq<char>, V)>::empty());
        r
    }

    /// The number of entries.
    pub fn len(&self) -> (n: usize)
        ensures
            n == self@.len(),
    {
        self.entries.len()
    }

    /// Whether the map has no entry.
    pub fn is_empty(&self) -> (r: bool)
        ensures
            r == (self@.len() == 0),
    {
        self.entries.len() == 0
    }

    /// Where `key` stands among the entries.
    fn find(&self, key: &str) -> (r: Option<usize>)
        ensures
            match r {
                Some(i) => first_index(keys_of(self@), key@) == Some(i as int),
                None => first_index(keys_of(self@), key@) is None,
            },
    {
        let mut i: usize = 0;
        while i < self.entries.len()
            invariant
                i <= self.entries.len(),
                forall|j: int| 0 <= j < i ==> keys_of(self@)[j] != key@,
            decreases self.entries.len() - i,
        {
            if same_text(self.entries[i].0.as_str(), key) {
                proof {
                    lemma_first_index_at(keys_of(self@), key@, i as int);
                }
                return Some(i);
            }
            i += 1;
        }
        proof {
            lemma_first_index(keys_of(self@), key@);
        }
        None
    }

    /// The value under `key`, if the map has that key.
    pub fn get(&self, key: &str) -> (r: Option<&V>)
        ensures
            match r {
                Some(v) => lookup(self@, key@) == Some(*v),
                None => lookup(self@, key@) is None,
            },
    {
        match self.find(key) {
            Some(i) => {
                proof {
                    lemma_first_index(keys_of(self@), key@);
                }
                Some(&self.entries[i].1)
            },
            None => None,
        }
    }

    /// Whether the map has `key`.
    pub fn contains_key(&self, key: &str) -> (r: bool)
        ensures
            r == lookup(self@, key@).is_some(),
            r == keys_of(self@).contains(key@),
    {
        proof {
            lemma_first_index(keys_of(self@), key@);
        }
        self.find(key).is_some()
    }

    /// Sets `key` to `value`. A key that is already there keeps its place.
    pub fn insert(&mut self, key: String, value: V)
        ensures
            final(self)@ == inserted(old(self)@, key@, value),
    {
        proof {
            use_type_invariant(&*self);
            lemma_inserted_unique(self@, key@, value);
            lemma_first_index(keys_of(self@), key@);
        }
        let found = self.find(key.as_str());
        let ghost before = self@;
        let ghost after = inserted(self@, key@, value);
        let mut entries: Vec<(String, V)> = Vec::new();
        core::mem::swap(&mut self.entries, &mut entries);
        assert(entries@.map_values(|e: (String, V)| (e.0@, e.1)) == before);
        match found {
            Some(i) => {
                entries[i] = (key, value);
            },
            None => {
                entries.push((key, value));
            },
        }
        assert(entries@.map_values(|e: (String, V)| (e.0@, e.1)) =~= after);
        self.entries = entries;
    }

    /// The entry at position `i`, or `None` where the map has no such position.
    pub fn get_index(&self, i: usize) -> (r: Option<(&String, &V)>)
        ensures
            match r {
                Some((k, v)) => i < self@.len() && k@ == self@[i as int].0 && *v
                    == self@[i as int].1,
                None => i >= self@.len(),
            },
    {
        if i < self.entries.len() {
            Some((&self.entries[i].0, &self.entries[i].1))
        } else {
            None
        }
    }

    /// The key at position `i`.
    pub(crate) fn key_at(&self, i: usize) -> (k: &String)
        requires
            i < self@.len(),
        ensures
            k@ == self@[i as int].0,
    {
        &self.entries[i].0
    }

    /// The value at position `i`.
    pub(crate) fn value_at(&self, i: usize) -> (v: &V)
        requires
            i < self@.len(),
        ensures
            *v == self@[i as int].1,
    {
        &self.entries[i].1
    }
}

impl<V: Clone> Clone for OrderedMap<V> {
    /// A copy with the same keys in the same order, each value a clone of
    /// the value it stands for.
    fn clone(&self) -> (r: Self)
        ensures
            r@.len() == self@.len(),
            forall|i: int|
                0 <= i < self@.len() ==> (#[trigger] r@[i]).0 == self@[i].0 && cloned::<V>(
                    self@[i].1,
                    r@[i].1,
                ),
    {
        proof {
            use_type_invariant(self);
        }
        let mut entries: Vec<(String, V)> = Vec::new();
        let mut i: usize = 0;
        while i < self.entries.len()
            invariant
                i <= self.entries.len(),
                entries.len() == i,
                forall|j: int|
                    0 <= j < i ==> (#[trigger] entries@[j]).0@ == self.entries@[j].0@
                        && cloned::<V>(self.entries@[j].1, entries@[j].1),
            decreases self.entries.len() - i,
        {
            let k = self.entries[i].0.clone();
            let v = self.entries[i].1.clone();
            assert(cloned::<V>(self.entries@[i as int].1, v));
            entries.push((k, v));
            i += 1;
        }
        assert forall|a: int, b: int| 0 <= a < b < entries.len() implies entries@[a].0@
            != entries@[b].0@ by {
            assert(self@[a].0 == entries@[a].0@);
            assert(self@[b].0 == entries@[b].0@);
        }
        OrderedMap { entries }
    }
}

} // verus!
