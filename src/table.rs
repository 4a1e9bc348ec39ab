//! A small string-keyed table that keeps its keys unique; later writes to a
//! key replace earlier ones.

use vstd::prelude::*;

verus! {

/// The entries of a list of string pairs, as character sequences.
pub open spec fn pairs_view(s: Seq<(String, String)>) -> Seq<(Seq<char>, Seq<char>)> {
    s.map_values(|e: (String, String)| (e.0@, e.1@))
}

/// The map that a list of pairs describes, read from first to last: a later
/// pair replaces an earlier one with the same key.
pub open spec fn map_of(s: Seq<(Seq<char>, Seq<char>)>) -> Map<Seq<char>, Seq<char>>
    decreases s.len(),
{
    if s.len() == 0 {
        Map::empty()
    } else {
        map_of(s.drop_last()).insert(s.last().0, s.last().1)
    }
}

/// No key occurs twice.
pub open spec fn keys_unique(s: Seq<(Seq<char>, Seq<char>)>) -> bool {
    forall|i: int, j: int| 0 <= i < s.len() && 0 <= j < s.len() && i != j ==> s[i].0 != s[j].0
}

/// With unique keys, the map holds exactly the listed pairs.
pub proof fn lemma_map_of_unique(s: Seq<(Seq<char>, Seq<char>)>)
    requires
        keys_unique(s),
    ensures
        forall|i: int|
            0 <= i < s.len() ==> #[trigger] map_of(s).contains_key(s[i].0) && map_of(s)[s[i].0]
                == s[i].1,
        forall|k: Seq<char>|
            #[trigger] map_of(s).contains_key(k) ==> exists|i: int| 0 <= i < s.len() && s[i].0 == k,
    decreases s.len(),
{
    if s.len() > 0 {
        let t = s.drop_last();
        assert(keys_unique(t)) by {
            assert forall|i: int, j: int|
                0 <= i < t.len() && 0 <= j < t.len() && i != j implies t[i].0 != t[j].0 by {
                assert(t[i] == s[i] && t[j] == s[j]);
            }
        }
        lemma_map_of_unique(t);
        assert forall|i: int| 0 <= i < s.len() implies #[trigger] map_of(s).contains_key(s[i].0)
            && map_of(s)[s[i].0] == s[i].1 by {
            if i < s.len() - 1 {
                assert(t[i] == s[i]);
                assert(map_of(t).contains_key(t[i].0));
                assert(s[i].0 != s[s.len() - 1].0);
            }
        }
        assert forall|k: Seq<char>| #[trigger] map_of(s).contains_key(k) implies exists|i: int|
            0 <= i < s.len() && s[i].0 == k by {
            if k != s.last().0 {
                assert(map_of(t).contains_key(k));
                let i = choose|i: int| 0 <= i < t.len() && t[i].0 == k;
                assert(s[i] == t[i]);
            } else {
                assert(s[s.len() - 1].0 == k);
            }
        }
    }
}

/// A table from string keys to string values.
pub struct Table {
    entries: Vec<(String, String)>,
}

impl View for Table {
    type V = Map<Seq<char>, Seq<char>>;

    closed spec fn view(&self) -> Map<Seq<char>, Seq<char>> {
        map_of(pairs_view(self.entries@))
    }
}

impl Table {
    /// Keys are unique.
    pub closed spec fn wf(&self) -> bool {
        keys_unique(pairs_view(self.entries@))
    }

    /// The entries in the order the table keeps them.
    pub closed spec fn pairs(&self) -> Seq<(Seq<char>, Seq<char>)> {
        pairs_view(self.entries@)
    }

    /// An empty table.
    pub fn new() -> (r: Table)
        ensures
            r.wf(),
            r@ == Map::<Seq<char>, Seq<char>>::empty(),
    {
        let r = Table { entries: Vec::new() };
        assert(pairs_view(r.entries@) =~= Seq::empty());
        r
    }

    /// A well-formed table has unique keys, and as a map it is its entries
    /// read in order.
    pub proof fn lemma_pairs(&self)
        requires
            self.wf(),
        ensures
            keys_unique(self.pairs()),
            self@ == map_of(self.pairs()),
    {
    }

    /// The number of keys.
    pub fn len(&self) -> (r: usize)
        ensures
            r == self.pairs().len(),
    {
        self.entries.len()
    }

    /// The key and value of the `i`-th entry.
    pub fn entry(&self, i: usize) -> (r: (&String, &String))
        requires
            i < self.pairs().len(),
        ensures
            r.0@ == self.pairs()[i as int].0,
            r.1@ == self.pairs()[i as int].1,
    {
        (&self.entries[i].0, &self.entries[i].1)
    }

    /// Position of the entry with key `k`.
    fn position(&self, k: &String) -> (r: Option<usize>)
        ensures
            match r {
                None => forall|i: int| 0 <= i < self.pairs().len() ==> self.pairs()[i].0 != k@,
                Some(i) => i < self.pairs().len() && self.pairs()[i as int].0 == k@,
            },
    {
        let mut i: usize = 0;
        while i < self.entries.len()
            invariant
                i <= self.entries@.len(),
                forall|j: int| 0 <= j < i ==> self.pairs()[j].0 != k@,
            decreases self.entries@.len() - i,
        {
            if self.entries[i].0 == *k {
                return Some(i);
            }
            i = i + 1;
        }
        None
    }

    /// The value stored under `k`.
    pub fn get(&self, k: &String) -> (r: Option<String>)
        requires
            self.wf(),
        ensures
            r is Some <==> self@.contains_key(k@),
            r is Some ==> self@[k@] == r->0@,
    {
        proof {
            lemma_map_of_unique(self.pairs());
        }
        match self.position(k) {
            None => {
                proof {
                    if self@.contains_key(k@) {
                        assert(map_of(self.pairs()).contains_key(k@));
                        let j = choose|j: int| 0 <= j < self.pairs().len() && self.pairs()[j].0 == k@;
                        assert(self.pairs()[j].0 != k@);
                    }
                }
                None
            },
            Some(i) => {
                assert(map_of(self.pairs()).contains_key(self.pairs()[i as int].0));
                Some(self.entries[i].1.clone())
            },
        }
    }

    /// Stores `v` under `k`, replacing what was there.
    pub fn insert(&mut self, k: String, v: String)
        requires
            old(self).wf(),
        ensures
            final(self).wf(),
            final(self)@ == old(self)@.insert(k@, v@),
    {
        proof {
            lemma_map_of_unique(self.pairs());
        }
        let ghost before = self.pairs();
        match self.position(&k) {
            None => {
                self.entries.push((k, v));
                assert(self.pairs() =~= before.push((k@, v@)));
                assert(self.pairs().drop_last() =~= before);
                assert(keys_unique(self.pairs())) by {
                    assert forall|i: int, j: int|
                        0 <= i < self.pairs().len() && 0 <= j < self.pairs().len() && i != j
                        implies self.pairs()[i].0 != self.pairs()[j].0 by {
                        if i < before.len() && j < before.len() {
                            assert(self.pairs()[i] == before[i] && self.pairs()[j] == before[j]);
                        } else if i < before.len() {
                            assert(self.pairs()[i] == before[i]);
                        } else {
                            assert(self.pairs()[j] == before[j]);
                        }
                    }
                }
            },
            Some(i) => {
                let ghost old_map = self@;
                self.entries[i] = (k, v);
                assert(self.pairs() =~= before.update(i as int, (k@, v@)));
                assert(keys_unique(self.pairs())) by {
                    assert forall|a: int, b: int|
                        0 <= a < self.pairs().len() && 0 <= b < self.pairs().len() && a != b
                        implies self.pairs()[a].0 != self.pairs()[b].0 by {
                        assert(self.pairs()[a].0 == before[a].0);
                        assert(self.pairs()[b].0 == before[b].0);
                    }
                }
                proof {
                    lemma_map_of_unique(self.pairs());
                }
                assert(self@ =~= old_map.insert(k@, v@)) by {
                    assert forall|key: Seq<char>| #[trigger] self@.contains_key(key) implies old_map.insert(
                        k@,
                        v@,
                    ).contains_key(key) && self@[key] == old_map.insert(k@, v@)[key] by {
                        let j = choose|j: int| 0 <= j < self.pairs().len() && self.pairs()[j].0 == key;
                        if j != i {
                            assert(before[j] == self.pairs()[j]);
                        }
                    }
                    assert forall|key: Seq<char>| old_map.insert(k@, v@).contains_key(key)
                        implies #[trigger] self@.contains_key(key) by {
                        if key != k@ {
                            let j = choose|j: int| 0 <= j < before.len() && before[j].0 == key;
                            assert(before[j] == self.pairs()[j]);
                        } else {
                            assert(self.pairs()[i as int].0 == key);
                        }
                    }
                }
            },
        }
    }
}

} // verus!
