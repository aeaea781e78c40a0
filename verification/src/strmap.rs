use vstd::prelude::*;

verus! {

/// True when no two entries of `s` share a key.
pub open spec fn distinct_keys<V>(s: Seq<(String, V)>) -> bool {
    forall|i: int, j: int| 0 <= i < j < s.len() ==> s[i].0@ != s[j].0@
}

/// The finite map described by an entry sequence; later entries win.
pub open spec fn map_of<V>(s: Seq<(String, V)>) -> Map<Seq<char>, V>
    decreases s.len(),
{
    if s.len() == 0 {
        Map::empty()
    } else {
        map_of(s.drop_last()).insert(s.last().0@, s.last().1)
    }
}

pub proof fn lemma_map_of_finite<V>(s: Seq<(String, V)>)
    ensures
        map_of(s).dom().finite(),
    decreases s.len(),
{
    if s.len() > 0 {
        lemma_map_of_finite(s.drop_last());
    }
}

pub proof fn lemma_map_of_contains<V>(s: Seq<(String, V)>, k: Seq<char>)
    ensures
        map_of(s).contains_key(k) <==> exists|i: int| 0 <= i < s.len() && s[i].0@ == k,
    decreases s.len(),
{
    if s.len() > 0 {
        lemma_map_of_contains(s.drop_last(), k);
        if s.last().0@ == k {
            assert(s[s.len() - 1].0@ == k);
        } else {
            if exists|i: int| 0 <= i < s.len() && s[i].0@ == k {
                let i = choose|i: int| 0 <= i < s.len() && s[i].0@ == k;
                assert(s.drop_last()[i].0@ == k);
            }
        }
    }
}

pub proof fn lemma_map_of_index<V>(s: Seq<(String, V)>, i: int)
    requires
        distinct_keys(s),
        0 <= i < s.len(),
    ensures
        map_of(s).contains_key(s[i].0@),
        map_of(s)[s[i].0@] == s[i].1,
    decreases s.len(),
{
    lemma_map_of_contains(s, s[i].0@);
    if i < s.len() - 1 {
        assert(s.drop_last()[i] == s[i]);
        lemma_map_of_index(s.drop_last(), i);
        assert(s[i].0@ != s.last().0@);
    }
}

pub proof fn lemma_map_of_len<V>(s: Seq<(String, V)>)
    requires
        distinct_keys(s),
    ensures
        map_of(s).dom().len() == s.len(),
    decreases s.len(),
{
    broadcast use vstd::set::axiom_set_insert_len;

    if s.len() > 0 {
        lemma_map_of_finite(s.drop_last());
        lemma_map_of_len(s.drop_last());
        lemma_map_of_contains(s.drop_last(), s.last().0@);
        assert(forall|i: int| 0 <= i < s.len() - 1 ==> s.drop_last()[i] == s[i]);
        assert(!map_of(s.drop_last()).contains_key(s.last().0@));
    }
}

pub proof fn lemma_map_of_remove<V>(s: Seq<(String, V)>, i: int)
    requires
        distinct_keys(s),
        0 <= i < s.len(),
    ensures
        map_of(s.remove(i)) == map_of(s).remove(s[i].0@),
    decreases s.len(),
{
    let k = s[i].0@;
    if i == s.len() - 1 {
        assert(s.remove(i) =~= s.drop_last());
        lemma_map_of_contains(s.drop_last(), k);
        assert(forall|j: int| 0 <= j < s.len() - 1 ==> s.drop_last()[j] == s[j]);
        assert(!map_of(s.drop_last()).contains_key(k));
        assert(map_of(s.drop_last()).insert(k, s.last().1).remove(k) =~= map_of(s.drop_last()));
    } else {
        assert(s.remove(i).drop_last() =~= s.drop_last().remove(i));
        assert(s.remove(i).last() == s.last());
        assert(forall|j: int| 0 <= j < s.len() - 1 ==> s.drop_last()[j] == s[j]);
        lemma_map_of_remove(s.drop_last(), i);
        assert(s[i].0@ != s.last().0@);
        assert(map_of(s.drop_last()).remove(k).insert(s.last().0@, s.last().1) =~= map_of(
            s.drop_last(),
        ).insert(s.last().0@, s.last().1).remove(k));
    }
}

/// A map from string keys to values, kept as a vector of entries with
/// pairwise-distinct keys.
pub struct StrMap<V> {
    entries: Vec<(String, V)>,
}

impl<V> View for StrMap<V> {
    type V = Map<Seq<char>, V>;

    closed spec fn view(&self) -> Map<Seq<char>, V> {
        map_of(self.entries@)
    }
}

impl<V> StrMap<V> {
    /// The entries as a sequence of key view / value pairs, in storage order.
    pub closed spec fn entries_seq(&self) -> Seq<(Seq<char>, V)> {
        self.entries@.map_values(|e: (String, V)| (e.0@, e.1))
    }

    pub closed spec fn wf(&self) -> bool {
        distinct_keys(self.entries@)
    }

    /// Every entry is in the map, and every key of the map has an entry.
    pub proof fn lemma_entries_view(&self)
        requires
            self.wf(),
        ensures
            forall|i: int|
                0 <= i < self.entries_seq().len() ==> self@.contains_key(
                    #[trigger] self.entries_seq()[i].0,
                ) && self@[self.entries_seq()[i].0] == self.entries_seq()[i].1,
            forall|k: Seq<char>|
                self@.contains_key(k) ==> exists|i: int|
                    0 <= i < self.entries_seq().len() && (#[trigger] self.entries_seq()[i]).0 == k,
            self@.dom().len() == self.entries_seq().len(),
            self@.dom().finite(),
    {
        lemma_map_of_len(self.entries@);
        lemma_map_of_finite(self.entries@);
        assert forall|i: int| 0 <= i < self.entries_seq().len() implies self@.contains_key(
            #[trigger] self.entries_seq()[i].0,
        ) && self@[self.entries_seq()[i].0] == self.entries_seq()[i].1 by {
            lemma_map_of_index(self.entries@, i);
        }
        assert forall|k: Seq<char>| self@.contains_key(k) implies exists|i: int|
            0 <= i < self.entries_seq().len() && (#[trigger] self.entries_seq()[i]).0 == k by {
            lemma_map_of_contains(self.entries@, k);
            let i = choose|i: int| 0 <= i < self.entries@.len() && self.entries@[i].0@ == k;
            assert(self.entries_seq()[i].0 == k);
        }
    }

    pub fn new() -> (r: Self)
        ensures
            r.wf(),
            r@ == Map::<Seq<char>, V>::empty(),
            r.entries_seq() == Seq::<(Seq<char>, V)>::empty(),
    {
        let r = StrMap { entries: Vec::new() };
        proof {
            assert(r.entries_seq() =~= Seq::<(Seq<char>, V)>::empty());
        }
        r
    }

    /// The number of entries, which equals the size of the map's domain.
    pub fn len(&self) -> (r: usize)
        requires
            self.wf(),
        ensures
            r == self@.dom().len(),
            r == self.entries_seq().len(),
    {
        proof {
            lemma_map_of_len(self.entries@);
        }
        self.entries.len()
    }

    fn find_idx(&self, key: &String) -> (r: Option<usize>)
        ensures
            match r {
                Some(i) => i < self.entries@.len() && self.entries@[i as int].0@ == key@,
                None => forall|j: int| 0 <= j < self.entries@.len() ==> self.entries@[j].0@ != key@,
            },
    {
        let n = self.entries.len();
        let mut i: usize = 0;
        while i < n
            invariant
                n == self.entries@.len(),
                0 <= i <= n,
                forall|j: int| 0 <= j < i ==> self.entries@[j].0@ != key@,
            decreases n - i,
        {
            if self.entries[i].0 == *key {
                return Some(i);
            }
            i = i + 1;
        }
        None
    }

    pub fn contains_key(&self, key: &str) -> (r: bool)
        ensures
            r == self@.contains_key(key@),
    {
        let k = key.to_owned();
        proof {
            lemma_map_of_contains(self.entries@, key@);
        }
        match self.find_idx(&k) {
            Some(_) => true,
            None => false,
        }
    }

    pub fn get(&self, key: &str) -> (r: Option<&V>)
        requires
            self.wf(),
        ensures
            match r {
                Some(v) => self@.contains_key(key@) && *v == self@[key@],
                None => !self@.contains_key(key@),
            },
    {
        let k = key.to_owned();
        proof {
            lemma_map_of_contains(self.entries@, key@);
        }
        match self.find_idx(&k) {
            Some(i) => {
                proof {
                    lemma_map_of_index(self.entries@, i as int);
                }
                Some(&self.entries[i].1)
            },
            None => None,
        }
    }

    pub fn insert(&mut self, key: String, value: V)
        requires
            old(self).wf(),
        ensures
            final(self).wf(),
            final(self)@ == old(self)@.insert(key@, value),
    {
        let ghost pre = self.entries@;
        match self.find_idx(&key) {
            Some(i) => {
                self.entries.remove(i);
                proof {
                    lemma_map_of_remove(pre, i as int);
                    assert(distinct_keys(self.entries@)) by {
                        assert(forall|a: int|
                            0 <= a < self.entries@.len() ==> #[trigger] self.entries@[a] == (if a
                                < i {
                                pre[a]
                            } else {
                                pre[a + 1]
                            }));
                    }
                }
            },
            None => {},
        }
        let ghost mid = self.entries@;
        proof {
            lemma_map_of_contains(mid, key@);
            assert(!map_of(mid).contains_key(key@));
        }
        self.entries.push((key, value));
        proof {
            assert(self.entries@.drop_last() =~= mid);
            assert(distinct_keys(self.entries@)) by {
                assert(forall|a: int| 0 <= a < mid.len() ==> self.entries@[a] == mid[a]);
            }
            assert(map_of(self.entries@) =~= old(self)@.insert(key@, value));
        }
    }

    pub fn remove(&mut self, key: &str) -> (r: Option<V>)
        requires
            old(self).wf(),
        ensures
            final(self).wf(),
            final(self)@ == old(self)@.remove(key@),
            match r {
                Some(v) => old(self)@.contains_key(key@) && v == old(self)@[key@],
                None => !old(self)@.contains_key(key@) && *final(self) == *old(self),
            },
    {
        let k = key.to_owned();
        let ghost pre = self.entries@;
        proof {
            lemma_map_of_contains(pre, key@);
        }
        match self.find_idx(&k) {
            Some(i) => {
                proof {
                    lemma_map_of_index(pre, i as int);
                    lemma_map_of_remove(pre, i as int);
                }
                let e = self.entries.remove(i);
                proof {
                    assert(distinct_keys(self.entries@)) by {
                        assert(forall|a: int|
                            0 <= a < self.entries@.len() ==> #[trigger] self.entries@[a] == (if a
                                < i {
                                pre[a]
                            } else {
                                pre[a + 1]
                            }));
                    }
                }
                Some(e.1)
            },
            None => {
                proof {
                    assert(map_of(pre) =~= map_of(pre).remove(key@));
                }
                None
            },
        }
    }

    /// The number of entries, with no well-formedness premise.
    pub fn num_entries(&self) -> (r: usize)
        ensures
            r == self.entries_seq().len(),
    {
        self.entries.len()
    }

    pub fn key_at(&self, i: usize) -> (r: &String)
        requires
            i < self.entries_seq().len(),
        ensures
            r@ == self.entries_seq()[i as int].0,
    {
        &self.entries[i].0
    }

    pub fn value_at(&self, i: usize) -> (r: &V)
        requires
            i < self.entries_seq().len(),
        ensures
            *r == self.entries_seq()[i as int].1,
    {
        &self.entries[i].1
    }
}

impl StrMap<String> {
    /// A copy with the same entries, in the same order.
    pub fn duplicate(&self) -> (r: Self)
        ensures
            r.wf() <==> self.wf(),
            r@ == self@,
            r.entries_seq() == self.entries_seq(),
    {
        let mut entries: Vec<(String, String)> = Vec::new();
        let mut i: usize = 0;
        while i < self.entries.len()
            invariant
                0 <= i <= self.entries@.len(),
                entries@ == self.entries@.subrange(0, i as int),
            decreases self.entries@.len() - i,
        {
            entries.push((self.entries[i].0.clone(), self.entries[i].1.clone()));
            proof {
                assert(entries@ =~= self.entries@.subrange(0, i + 1 as int));
            }
            i = i + 1;
        }
        proof {
            assert(entries@ =~= self.entries@);
        }
        StrMap { entries }
    }
}

} // verus!
