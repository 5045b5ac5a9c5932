//! A string-keyed association table with unique keys.
//!
//! Profile `settings` mappings and the discovered profile directory are both
//! tables from strings to strings where a later insertion overwrites an
//! earlier one under the same key. The table is a vector of pairs whose view
//! is the mathematical `Map` obtained by folding the pairs left to right.

use vstd::prelude::*;
use vstd::std_specs::cmp::PartialEqSpec;

verus! {

/// One key/value pair of a [`StringMap`].
#[derive(Debug)]
pub struct Entry {
    pub key: String,
    pub value: String,
}

/// The map described by a sequence of key/value pairs: later pairs win.
pub open spec fn map_of_pairs(s: Seq<(Seq<char>, Seq<char>)>) -> Map<Seq<char>, Seq<char>>
    decreases s.len(),
{
    if s.len() == 0 {
        Map::empty()
    } else {
        map_of_pairs(s.drop_last()).insert(s.last().0, s.last().1)
    }
}

/// No key occurs twice in the pair sequence.
pub open spec fn unique_keys(s: Seq<(Seq<char>, Seq<char>)>) -> bool {
    forall|i: int, j: int| 0 <= i < j < s.len() ==> s[i].0 != s[j].0
}

/// A key is in the map of a pair sequence exactly when some pair carries it.
pub proof fn lemma_map_of_pairs_contains(s: Seq<(Seq<char>, Seq<char>)>, k: Seq<char>)
    ensures
        map_of_pairs(s).dom().contains(k) <==> exists|i: int| 0 <= i < s.len() && s[i].0 == k,
    decreases s.len(),
{
    if s.len() > 0 {
        lemma_map_of_pairs_contains(s.drop_last(), k);
        if s.last().0 == k {
            assert(s[s.len() - 1].0 == k);
        } else if exists|i: int| 0 <= i < s.len() && s[i].0 == k {
            let i = choose|i: int| 0 <= i < s.len() && s[i].0 == k;
            assert(s.drop_last()[i] == s[i]);
        }
    }
}

/// Under unique keys, each pair is reflected verbatim in the map.
pub proof fn lemma_map_of_pairs_index(s: Seq<(Seq<char>, Seq<char>)>, i: int)
    requires
        unique_keys(s),
        0 <= i < s.len(),
    ensures
        map_of_pairs(s).dom().contains(s[i].0),
        map_of_pairs(s)[s[i].0] == s[i].1,
    decreases s.len(),
{
    if i == s.len() - 1 {
    } else {
        assert(s[i].0 != s.last().0);
        assert(s.drop_last()[i] == s[i]);
        lemma_map_of_pairs_index(s.drop_last(), i);
    }
}

/// Appending a pair inserts it into the map.
pub proof fn lemma_map_of_pairs_push(s: Seq<(Seq<char>, Seq<char>)>, k: Seq<char>, v: Seq<char>)
    ensures
        map_of_pairs(s.push((k, v))) == map_of_pairs(s).insert(k, v),
{
    assert(s.push((k, v)).drop_last() =~= s);
}

/// Overwriting the pair that holds a key inserts the new value into the map.
pub proof fn lemma_map_of_pairs_update(s: Seq<(Seq<char>, Seq<char>)>, i: int, v: Seq<char>)
    requires
        unique_keys(s),
        0 <= i < s.len(),
    ensures
        map_of_pairs(s.update(i, (s[i].0, v))) == map_of_pairs(s).insert(s[i].0, v),
{
    let k = s[i].0;
    let t = s.update(i, (k, v));
    assert(unique_keys(t));
    assert forall|x: Seq<char>|
        map_of_pairs(t).dom().contains(x) <==> map_of_pairs(s).insert(k, v).dom().contains(x) by {
        lemma_map_of_pairs_contains(t, x);
        lemma_map_of_pairs_contains(s, x);
        if exists|j: int| 0 <= j < s.len() && s[j].0 == x {
            let j = choose|j: int| 0 <= j < s.len() && s[j].0 == x;
            assert(t[j].0 == x);
        }
    }
    assert forall|x: Seq<char>| #[trigger] map_of_pairs(t).dom().contains(x) implies map_of_pairs(
        t,
    )[x] == map_of_pairs(s).insert(k, v)[x] by {
        lemma_map_of_pairs_contains(t, x);
        let j = choose|j: int| 0 <= j < t.len() && t[j].0 == x;
        lemma_map_of_pairs_index(t, j);
        if j == i {
            assert(x == k);
        } else {
            assert(s[j].0 == x);
            assert(x != k);
            lemma_map_of_pairs_index(s, j);
        }
    }
    assert(map_of_pairs(t) =~= map_of_pairs(s).insert(k, v));
}

impl PartialEq for Entry {
    fn eq(&self, other: &Entry) -> (r: bool) {
        self.key == other.key && self.value == other.value
    }
}

impl vstd::std_specs::cmp::PartialEqSpecImpl for Entry {
    open spec fn obeys_eq_spec() -> bool {
        true
    }

    open spec fn eq_spec(&self, other: &Entry) -> bool {
        self.key@ == other.key@ && self.value@ == other.value@
    }
}

/// An association table from string keys to string values; keys stay unique.
#[derive(Debug)]
pub struct StringMap {
    pub entries: Vec<Entry>,
}

impl PartialEq for StringMap {
    fn eq(&self, other: &StringMap) -> (r: bool) {
        let r = self.entries == other.entries;
        proof {
            if r {
                assert forall|i: int| 0 <= i < self.pairs().len() implies self.pairs()[i]
                    == other.pairs()[i] by {
                    assert(self.entries@[i].eq_spec(&other.entries@[i]));
                }
                assert(self.pairs() =~= other.pairs());
            } else {
                if self.entries@.len() == other.entries@.len() {
                    let i = choose|i: int|
                        0 <= i < self.entries@.len() && !self.entries@[i].eq_spec(
                            &other.entries@[i],
                        );
                    assert(self.pairs()[i] == (self.entries@[i].key@, self.entries@[i].value@));
                    assert(self.pairs()[i] != other.pairs()[i]);
                } else {
                    assert(self.pairs().len() != other.pairs().len());
                }
            }
        }
        r
    }
}

impl vstd::std_specs::cmp::PartialEqSpecImpl for StringMap {
    open spec fn obeys_eq_spec() -> bool {
        true
    }

    open spec fn eq_spec(&self, other: &StringMap) -> bool {
        self.pairs() == other.pairs()
    }
}

impl View for StringMap {
    type V = Map<Seq<char>, Seq<char>>;

    open spec fn view(&self) -> Map<Seq<char>, Seq<char>> {
        map_of_pairs(self.pairs())
    }
}

impl StringMap {
    /// The key/value pairs as character sequences, in storage order.
    pub open spec fn pairs(&self) -> Seq<(Seq<char>, Seq<char>)> {
        self.entries@.map_values(|e: Entry| (e.key@, e.value@))
    }

    /// Well-formed: no key occurs twice.
    pub open spec fn wf(&self) -> bool {
        unique_keys(self.pairs())
    }

    /// The empty table.
    pub fn new() -> (r: StringMap)
        ensures
            r.wf(),
            r@ == Map::<Seq<char>, Seq<char>>::empty(),
            r.pairs() == Seq::<(Seq<char>, Seq<char>)>::empty(),
    {
        let r = StringMap { entries: Vec::new() };
        proof {
            assert(r.pairs() =~= Seq::<(Seq<char>, Seq<char>)>::empty());
        }
        r
    }

    /// Insert a pair, overwriting any pair already under the same key.
    pub fn insert(&mut self, key: String, value: String)
        requires
            old(self).wf(),
        ensures
            final(self).wf(),
            final(self)@ == old(self)@.insert(key@, value@),
            final(self).pairs().len() <= old(self).pairs().len() + 1,
    {
        let ghost s = self.pairs();
        let n = self.entries.len();
        let mut i: usize = 0;
        while i < n
            invariant
                *self == *old(self),
                self.wf(),
                n == self.entries.len(),
                s == self.pairs(),
                s.len() == n,
                i <= n,
                forall|j: int| 0 <= j < i ==> s[j].0 != key@,
            decreases n - i,
        {
            proof {
                assert(s[i as int] == (self.entries@[i as int].key@, self.entries@[i as int].value@));
            }
            if self.entries[i].key == key {
                self.entries[i] = Entry { key, value };
                proof {
                    let t = self.pairs();
                    assert(t[i as int] == (key@, value@));
                    assert forall|j: int| 0 <= j < s.len() implies t[j] == s.update(
                        i as int,
                        (s[i as int].0, value@),
                    )[j] by {
                        assert(t[j] == (self.entries@[j].key@, self.entries@[j].value@));
                    }
                    assert(t =~= s.update(i as int, (s[i as int].0, value@)));
                    lemma_map_of_pairs_update(s, i as int, value@);
                }
                return ;
            }
            i += 1;
        }
        self.entries.push(Entry { key, value });
        proof {
            assert(self.pairs() =~= s.push((key@, value@)));
            lemma_map_of_pairs_push(s, key@, value@);
            lemma_map_of_pairs_contains(s, key@);
        }
    }

    /// Look a key up.
    pub fn get(&self, key: &String) -> (r: Option<&String>)
        requires
            self.wf(),
        ensures
            match r {
                Some(v) => self@.dom().contains(key@) && self@[key@] == v@,
                None => !self@.dom().contains(key@),
            },
    {
        let n = self.entries.len();
        let mut i: usize = 0;
        while i < n
            invariant
                self.wf(),
                n == self.entries.len(),
                i <= n,
                forall|j: int| 0 <= j < i ==> self.pairs()[j].0 != key@,
            decreases n - i,
        {
            if self.entries[i].key == *key {
                proof {
                    lemma_map_of_pairs_index(self.pairs(), i as int);
                }
                return Some(&self.entries[i].value);
            }
            i += 1;
        }
        proof {
            lemma_map_of_pairs_contains(self.pairs(), key@);
        }
        None
    }

    /// Whether a key is present.
    pub fn contains_key(&self, key: &String) -> (r: bool)
        requires
            self.wf(),
        ensures
            r == self@.dom().contains(key@),
    {
        match self.get(key) {
            Some(_) => true,
            None => false,
        }
    }

    /// The number of stored pairs.
    pub fn len(&self) -> (r: usize)
        ensures
            r == self.pairs().len(),
    {
        self.entries.len()
    }

    /// Whether the table is empty; equivalently, whether its map view is.
    pub fn is_empty(&self) -> (r: bool)
        ensures
            r == (self.pairs().len() == 0),
            r == (self@ == Map::<Seq<char>, Seq<char>>::empty()),
    {
        proof {
            if self.pairs().len() == 0 {
                assert(self@ =~= Map::<Seq<char>, Seq<char>>::empty());
            } else {
                lemma_map_of_pairs_contains(self.pairs(), self.pairs().last().0);
                assert(self.pairs()[self.pairs().len() - 1].0 == self.pairs().last().0);
            }
        }
        self.entries.len() == 0
    }

    /// An equal, independently owned copy.
    pub fn duplicate(&self) -> (r: StringMap)
        ensures
            r.pairs() == self.pairs(),
            r@ == self@,
            r.wf() == self.wf(),
    {
        let n = self.entries.len();
        let mut entries: Vec<Entry> = Vec::new();
        let mut i: usize = 0;
        while i < n
            invariant
                n == self.entries.len(),
                i <= n,
                entries@.len() == i,
                forall|j: int| 0 <= j < i ==> entries@[j] == self.entries@[j],
            decreases n - i,
        {
            entries.push(Entry { key: self.entries[i].key.clone(), value: self.entries[i].value.clone() });
            i += 1;
        }
        let r = StringMap { entries };
        proof {
            assert(r.entries@ =~= self.entries@);
            assert(r.pairs() =~= self.pairs());
        }
        r
    }
}

} // verus!
