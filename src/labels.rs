use vstd::prelude::*;

verus! {

/// The model of a label map: its entries in insertion order.
pub type Labels = Seq<(Seq<char>, Seq<char>)>;

/// No key occurs twice.
pub open spec fn keys_unique(s: Labels) -> bool {
    forall|i: int, j: int| 0 <= i < j < s.len() ==> #[trigger] s[i].0 != #[trigger] s[j].0
}

pub open spec fn has_key(s: Labels, k: Seq<char>) -> bool {
    exists|i: int| 0 <= i < s.len() && #[trigger] s[i].0 == k
}

/// The position of key `k`; meaningful where `has_key(s, k)`.
pub open spec fn key_index(s: Labels, k: Seq<char>) -> int {
    choose|i: int| 0 <= i < s.len() && #[trigger] s[i].0 == k
}

/// The value stored under `k`, if any.
pub open spec fn lookup(s: Labels, k: Seq<char>) -> Option<Seq<char>> {
    if has_key(s, k) {
        Some(s[key_index(s, k)].1)
    } else {
        None
    }
}

/// Sets `k` to `v`: in place where `k` is present, else at the end.
pub open spec fn insert_label(s: Labels, k: Seq<char>, v: Seq<char>) -> Labels {
    if has_key(s, k) {
        s.update(key_index(s, k), (k, v))
    } else {
        s.push((k, v))
    }
}

/// In a map with unique keys, the entry at `i` is the one that `lookup` finds.
pub proof fn lemma_lookup_at(s: Labels, i: int)
    requires
        keys_unique(s),
        0 <= i < s.len(),
    ensures
        has_key(s, s[i].0),
        key_index(s, s[i].0) == i,
        lookup(s, s[i].0) == Some(s[i].1),
{
    let k = s[i].0;
    assert(s[i].0 == k);
    let j = key_index(s, k);
    if j != i {
        if j < i {
            assert(s[j].0 != s[i].0);
        } else {
            assert(s[i].0 != s[j].0);
        }
    }
}

spec fn entries_view(e: Seq<(String, String)>) -> Labels {
    e.map_values(|e: (String, String)| (e.0@, e.1@))
}

/// Setting a key keeps the keys unique, makes `lookup` find the new value, and leaves every
/// other key as it was.
pub proof fn lemma_insert_label(s: Labels, k: Seq<char>, v: Seq<char>)
    requires
        keys_unique(s),
    ensures
        keys_unique(insert_label(s, k, v)),
        lookup(insert_label(s, k, v), k) == Some(v),
        forall|k2: Seq<char>| k2 != k ==> #[trigger] lookup(insert_label(s, k, v), k2) == lookup(s, k2),
{
    let r = insert_label(s, k, v);
    if has_key(s, k) {
        let idx = key_index(s, k);
        assert forall|a: int, b: int| 0 <= a < b < r.len() implies #[trigger] r[a].0
            != #[trigger] r[b].0 by {
            assert(r[a].0 == s[a].0);
            assert(r[b].0 == s[b].0);
        }
        lemma_lookup_at(r, idx);
        assert forall|k2: Seq<char>| k2 != k implies #[trigger] lookup(r, k2) == lookup(s, k2) by {
            if has_key(s, k2) {
                let j = key_index(s, k2);
                lemma_lookup_at(s, j);
                assert(r[j] == s[j]);
                lemma_lookup_at(r, j);
            } else {
                if has_key(r, k2) {
                    let j = key_index(r, k2);
                    assert(s[j].0 == k2);
                }
            }
        }
    } else {
        assert forall|a: int, b: int| 0 <= a < b < r.len() implies #[trigger] r[a].0
            != #[trigger] r[b].0 by {
            assert(r[a].0 == s[a].0);
            if b < s.len() {
                assert(r[b].0 == s[b].0);
            }
        }
        lemma_lookup_at(r, s.len() as int);
        assert forall|k2: Seq<char>| k2 != k implies #[trigger] lookup(r, k2) == lookup(s, k2) by {
            if has_key(s, k2) {
                let j = key_index(s, k2);
                lemma_lookup_at(s, j);
                assert(r[j] == s[j]);
                lemma_lookup_at(r, j);
            } else {
                if has_key(r, k2) {
                    let j = key_index(r, k2);
                    assert(j < s.len());
                    assert(s[j].0 == k2);
                }
            }
        }
    }
}

/// A string-to-string map that keeps its keys unique and its entries in insertion order.
#[derive(Debug)]
pub struct LabelMap {
    entries: Vec<(String, String)>,
}

impl View for LabelMap {
    type V = Labels;

    closed spec fn view(&self) -> Labels {
        entries_view(self.entries@)
    }
}

impl LabelMap {
    #[verifier::type_invariant]
    closed spec fn inv(self) -> bool {
        keys_unique(self@)
    }

    pub fn new() -> (r: LabelMap)
        ensures
            r@ == Seq::<(Seq<char>, Seq<char>)>::empty(),
    {
        let r = LabelMap { entries: Vec::new() };
        assert(r@ =~= Seq::<(Seq<char>, Seq<char>)>::empty());
        r
    }

    pub fn len(&self) -> (r: usize)
        ensures
            r == self@.len(),
            keys_unique(self@),
    {
        proof {
            use_type_invariant(self);
        }
        self.entries.len()
    }

    pub fn is_empty(&self) -> (r: bool)
        ensures
            r == (self@.len() == 0),
    {
        self.entries.len() == 0
    }

    pub fn key_at(&self, i: usize) -> (r: &String)
        requires
            i < self@.len(),
        ensures
            r@ == self@[i as int].0,
    {
        &self.entries[i].0
    }

    pub fn value_at(&self, i: usize) -> (r: &String)
        requires
            i < self@.len(),
        ensures
            r@ == self@[i as int].1,
    {
        &self.entries[i].1
    }

    /// The position of `key`, if present.
    fn find(&self, key: &String) -> (r: Option<usize>)
        ensures
            r is None ==> !has_key(self@, key@),
            r matches Some(i) ==> i < self@.len() && key_index(self@, key@) == i && has_key(
                self@,
                key@,
            ),
    {
        proof {
            use_type_invariant(self);
        }
        let mut i: usize = 0;
        while i < self.entries.len()
            invariant
                i <= self.entries.len(),
                self.entries@.len() == self@.len(),
                keys_unique(self@),
                forall|j: int| 0 <= j < i ==> #[trigger] self@[j].0 != key@,
            decreases self.entries.len() - i,
        {
            if self.entries[i].0 == *key {
                proof {
                    lemma_lookup_at(self@, i as int);
                }
                return Some(i);
            }
            i = i + 1;
        }
        None
    }

    pub fn get(&self, key: &String) -> (r: Option<&String>)
        ensures
            lookup(self@, key@) == match r {
                Some(v) => Some(v@),
                None => None,
            },
    {
        match self.find(key) {
            Some(i) => Some(&self.entries[i].1),
            None => None,
        }
    }

    pub fn contains_key(&self, key: &String) -> (r: bool)
        ensures
            r == has_key(self@, key@),
    {
        self.find(key).is_some()
    }

    /// Sets `key` to `value`, keeping the position of an existing entry.
    pub fn with_label(self, key: String, value: String) -> (r: LabelMap)
        ensures
            r@ == insert_label(self@, key@, value@),
    {
        proof {
            use_type_invariant(&self);
        }
        let ghost s = self@;
        let ghost k = key@;
        let ghost v = value@;
        let found = self.find(&key);
        proof {
            lemma_insert_label(s, k, v);
        }
        let LabelMap { mut entries } = self;
        match found {
            Some(i) => {
                entries.set(i, (key, value));
            },
            None => {
                entries.push((key, value));
            },
        }
        assert(entries_view(entries@) =~= insert_label(s, k, v));
        LabelMap { entries }
    }

    /// Sets `key` to `value`, keeping the position of an existing entry.
    pub fn insert(&mut self, key: String, value: String)
        ensures
            final(self)@ == insert_label(old(self)@, key@, value@),
    {
        let mut m = LabelMap::new();
        std::mem::swap(self, &mut m);
        *self = m.with_label(key, value);
    }
}

} // verus!
