//! A map keyed by text, kept as a vector of pairs with distinct keys.
use vstd::prelude::*;

verus! {

/// The map that a sequence of pairs builds when its pairs are inserted in
/// order, later pairs replacing earlier ones with the same key.
pub open spec fn pairs_to_map<V>(pairs: Seq<(String, V)>) -> Map<Seq<char>, V>
    decreases pairs.len(),
{
    if pairs.len() == 0 {
        Map::empty()
    } else {
        pairs_to_map(pairs.drop_last()).insert(pairs.last().0@, pairs.last().1)
    }
}

/// No pairs build the empty map, and a pair added at the end sets its key's
/// value, replacing what earlier pairs gave it and keeping the other keys.
pub proof fn lemma_later_pair_wins<V>(pairs: Seq<(String, V)>, key: String, value: V, other: Seq<char>)
    requires
        other != key@,
    ensures
        pairs_to_map(Seq::<(String, V)>::empty()) == Map::<Seq<char>, V>::empty(),
        pairs_to_map(pairs.push((key, value))).contains_key(key@),
        pairs_to_map(pairs.push((key, value)))[key@] == value,
        pairs_to_map(pairs.push((key, value))).contains_key(other) == pairs_to_map(pairs).contains_key(other),
        pairs_to_map(pairs.push((key, value)))[other] == pairs_to_map(pairs)[other],
{
    assert(pairs.push((key, value)).drop_last() =~= pairs);
}

/// Keys that occur once each in a sequence of pairs.
pub open spec fn keys_distinct<V>(pairs: Seq<(String, V)>) -> bool {
    forall|i: int, j: int| 0 <= i < j < pairs.len() ==> #[trigger] pairs[i].0@ != #[trigger] pairs[j].0@
}

/// With distinct keys, the built map holds exactly the pairs.
pub proof fn lemma_pairs_to_map<V>(pairs: Seq<(String, V)>)
    requires
        keys_distinct(pairs),
    ensures
        forall|i: int|
            0 <= i < pairs.len() ==> pairs_to_map(pairs).contains_key(#[trigger] pairs[i].0@)
                && pairs_to_map(pairs)[pairs[i].0@] == pairs[i].1,
        forall|k: Seq<char>|
            #[trigger] pairs_to_map(pairs).contains_key(k) ==> exists|i: int|
                0 <= i < pairs.len() && #[trigger] pairs[i].0@ == k,
    decreases pairs.len(),
{
    if pairs.len() > 0 {
        let init = pairs.drop_last();
        let n = pairs.len() - 1;
        assert(keys_distinct(init)) by {
            assert forall|i: int, j: int| 0 <= i < j < init.len() implies #[trigger] init[i].0@ != #[trigger] init[j].0@ by {
                assert(init[i] == pairs[i] && init[j] == pairs[j]);
            }
        }
        lemma_pairs_to_map(init);
        assert forall|i: int| 0 <= i < pairs.len() implies pairs_to_map(pairs).contains_key(#[trigger] pairs[i].0@)
            && pairs_to_map(pairs)[pairs[i].0@] == pairs[i].1 by {
            if i < n {
                assert(init[i] == pairs[i]);
                assert(pairs[i].0@ != pairs[n].0@);
            }
        }
        assert forall|k: Seq<char>| #[trigger] pairs_to_map(pairs).contains_key(k) implies exists|i: int|
            0 <= i < pairs.len() && #[trigger] pairs[i].0@ == k by {
            if k != pairs[n].0@ {
                assert(pairs_to_map(init).contains_key(k));
                let i = choose|i: int| 0 <= i < init.len() && #[trigger] init[i].0@ == k;
                assert(pairs[i] == init[i]);
            }
        }
    }
}

/// Each entry of the built map comes from one of the pairs.
pub proof fn lemma_pairs_to_map_from<V>(pairs: Seq<(String, V)>)
    ensures
        forall|k: Seq<char>|
            #[trigger] pairs_to_map(pairs).contains_key(k) ==> exists|i: int|
                0 <= i < pairs.len() && #[trigger] pairs[i].0@ == k && pairs_to_map(pairs)[k] == pairs[i].1,
    decreases pairs.len(),
{
    if pairs.len() > 0 {
        let init = pairs.drop_last();
        let n = pairs.len() - 1;
        lemma_pairs_to_map_from(init);
        assert forall|k: Seq<char>| #[trigger] pairs_to_map(pairs).contains_key(k) implies exists|i: int|
            0 <= i < pairs.len() && #[trigger] pairs[i].0@ == k && pairs_to_map(pairs)[k] == pairs[i].1 by {
            if k == pairs[n].0@ {
                assert(pairs[n].0@ == k);
            } else {
                assert(pairs_to_map(init).contains_key(k));
                let i = choose|i: int|
                    0 <= i < init.len() && #[trigger] init[i].0@ == k && pairs_to_map(init)[k] == init[i].1;
                assert(pairs[i] == init[i]);
            }
        }
    }
}

/// A map from text keys to values. Keys are compared by their characters.
pub struct TextMap<V> {
    pairs: Vec<(String, V)>,
    model: Ghost<Map<Seq<char>, V>>,
}

impl<V> View for TextMap<V> {
    type V = Map<Seq<char>, V>;

    closed spec fn view(&self) -> Map<Seq<char>, V> {
        self.model@
    }
}

impl<V> TextMap<V> {
    /// Every key occurs once, and the pairs hold exactly the map's entries.
    pub closed spec fn wf(&self) -> bool {
        &&& forall|i: int, j: int|
            0 <= i < j < self.pairs@.len() ==> #[trigger] self.pairs@[i].0@ != #[trigger] self.pairs@[j].0@
        &&& forall|i: int|
            0 <= i < self.pairs@.len() ==> self.model@.contains_key(#[trigger] self.pairs@[i].0@)
                && self.model@[self.pairs@[i].0@] == self.pairs@[i].1
        &&& forall|k: Seq<char>|
            #[trigger] self.model@.contains_key(k) ==> exists|i: int|
                0 <= i < self.pairs@.len() && #[trigger] self.pairs@[i].0@ == k
        &&& self.model@.dom().finite()
    }

    /// An empty map.
    pub fn new() -> (m: Self)
        ensures
            m.wf(),
            m@ == Map::<Seq<char>, V>::empty(),
    {
        TextMap { pairs: Vec::new(), model: Ghost(Map::empty()) }
    }

    /// The position of `key` among the pairs.
    fn position(&self, key: &String) -> (r: Option<usize>)
        requires
            self.wf(),
        ensures
            match r {
                Some(i) => i < self.pairs@.len() && self.pairs@[i as int].0@ == key@,
                None => !self@.contains_key(key@),
            },
    {
        let mut i: usize = 0;
        while i < self.pairs.len()
            invariant
                self.wf(),
                i <= self.pairs@.len(),
                forall|j: int| 0 <= j < i ==> #[trigger] self.pairs@[j].0@ != key@,
            decreases self.pairs@.len() - i,
        {
            if self.pairs[i].0 == *key {
                return Some(i);
            }
            i = i + 1;
        }
        proof {
            if self@.contains_key(key@) {
                let j = choose|j: int| 0 <= j < self.pairs@.len() && #[trigger] self.pairs@[j].0@ == key@;
                assert(self.pairs@[j].0@ != key@);
            }
        }
        None
    }

    /// Whether `key` has a value.
    pub fn contains_key(&self, key: &String) -> (r: bool)
        requires
            self.wf(),
        ensures
            r == self@.contains_key(key@),
    {
        match self.position(key) {
            Some(_) => true,
            None => false,
        }
    }

    /// The value of `key`, if it has one.
    pub fn get(&self, key: &String) -> (r: Option<&V>)
        requires
            self.wf(),
        ensures
            match r {
                Some(v) => self@.contains_key(key@) && *v == self@[key@],
                None => !self@.contains_key(key@),
            },
    {
        match self.position(key) {
            Some(i) => Some(&self.pairs[i].1),
            None => None,
        }
    }

    /// Gives `key` the value `value`, replacing any value it had.
    pub fn insert(&mut self, key: String, value: V)
        requires
            old(self).wf(),
        ensures
            final(self).wf(),
            final(self)@ == old(self)@.insert(key@, value),
    {
        let ghost k = key@;
        let ghost new_model = self.model@.insert(k, value);
        match self.position(&key) {
            Some(i) => {
                self.pairs.set(i, (key, value));
                self.model = Ghost(new_model);
                assert forall|j: int| 0 <= j < self.pairs@.len() implies self.model@.contains_key(
                    #[trigger] self.pairs@[j].0@,
                ) && self.model@[self.pairs@[j].0@] == self.pairs@[j].1 by {
                    if j != i {
                        assert(old(self).pairs@[j].0@ != k);
                    }
                }
                assert forall|kk: Seq<char>| #[trigger] self.model@.contains_key(kk) implies exists|j: int|
                    0 <= j < self.pairs@.len() && #[trigger] self.pairs@[j].0@ == kk by {
                    if kk == k {
                        assert(self.pairs@[i as int].0@ == kk);
                    } else {
                        let j = choose|j: int| 0 <= j < old(self).pairs@.len() && #[trigger] old(self).pairs@[j].0@ == kk;
                        assert(self.pairs@[j].0@ == kk);
                    }
                }
            },
            None => {
                self.pairs.push((key, value));
                self.model = Ghost(new_model);
                let ghost n = self.pairs@.len() - 1;
                assert forall|j: int| 0 <= j < self.pairs@.len() implies self.model@.contains_key(
                    #[trigger] self.pairs@[j].0@,
                ) && self.model@[self.pairs@[j].0@] == self.pairs@[j].1 by {
                    if j < n {
                        assert(old(self).model@.contains_key(old(self).pairs@[j].0@));
                        assert(old(self).pairs@[j].0@ != k);
                    }
                }
                assert forall|kk: Seq<char>| #[trigger] self.model@.contains_key(kk) implies exists|j: int|
                    0 <= j < self.pairs@.len() && #[trigger] self.pairs@[j].0@ == kk by {
                    if kk == k {
                        assert(self.pairs@[n].0@ == kk);
                    } else {
                        let j = choose|j: int| 0 <= j < old(self).pairs@.len() && #[trigger] old(self).pairs@[j].0@ == kk;
                        assert(self.pairs@[j].0@ == kk);
                    }
                }
                assert forall|a: int, b: int| 0 <= a < b < self.pairs@.len() implies #[trigger] self.pairs@[a].0@
                    != #[trigger] self.pairs@[b].0@ by {
                    if b == n {
                        assert(old(self).model@.contains_key(old(self).pairs@[a].0@));
                    }
                }
            },
        }
    }

    /// Takes the value of `key` out of the map, if it has one.
    pub fn remove(&mut self, key: &String) -> (r: Option<V>)
        requires
            old(self).wf(),
        ensures
            final(self).wf(),
            final(self)@ == old(self)@.remove(key@),
            match r {
                Some(v) => old(self)@.contains_key(key@) && v == old(self)@[key@],
                None => !old(self)@.contains_key(key@),
            },
    {
        let ghost k = key@;
        match self.position(key) {
            Some(i) => {
                let (_, v) = self.pairs.remove(i);
                self.model = Ghost(self.model@.remove(k));
                assert forall|a: int, b: int| 0 <= a < b < self.pairs@.len() implies #[trigger] self.pairs@[a].0@
                    != #[trigger] self.pairs@[b].0@ by {
                    let oa = if a < i { a } else { a + 1 };
                    let ob = if b < i { b } else { b + 1 };
                    assert(self.pairs@[a] == old(self).pairs@[oa]);
                    assert(self.pairs@[b] == old(self).pairs@[ob]);
                }
                assert forall|j: int| 0 <= j < self.pairs@.len() implies self.model@.contains_key(
                    #[trigger] self.pairs@[j].0@,
                ) && self.model@[self.pairs@[j].0@] == self.pairs@[j].1 by {
                    let oj = if j < i { j } else { j + 1 };
                    assert(self.pairs@[j] == old(self).pairs@[oj]);
                    assert(old(self).pairs@[oj].0@ != k);
                }
                assert forall|kk: Seq<char>| #[trigger] self.model@.contains_key(kk) implies exists|j: int|
                    0 <= j < self.pairs@.len() && #[trigger] self.pairs@[j].0@ == kk by {
                    let oj = choose|j: int| 0 <= j < old(self).pairs@.len() && #[trigger] old(self).pairs@[j].0@ == kk;
                    assert(oj != i);
                    let j = if oj < i { oj } else { oj - 1 };
                    assert(self.pairs@[j] == old(self).pairs@[oj]);
                }
                Some(v)
            },
            None => {
                assert(self.model@.remove(k) =~= self.model@);
                None
            },
        }
    }

    /// The map's entries as pairs, each key once.
    pub fn into_pairs(self) -> (r: Vec<(String, V)>)
        requires
            self.wf(),
        ensures
            keys_distinct(r@),
            pairs_to_map(r@) == self@,
    {
        proof {
            lemma_pairs_to_map(self.pairs@);
            assert(pairs_to_map(self.pairs@) =~= self@);
        }
        self.pairs
    }

    /// The map that inserting the pairs in order builds, later pairs
    /// replacing earlier ones with the same key.
    pub fn from_pairs(pairs: Vec<(String, V)>) -> (m: Self)
        ensures
            m.wf(),
            m@ == pairs_to_map(pairs@),
    {
        let ghost all = pairs@;
        let total: usize = pairs.len();
        assert(all.len() == total);
        let mut rest = pairs;
        let mut m = TextMap::new();
        let mut done: usize = 0;
        while rest.len() > 0
            invariant
                m.wf(),
                done + rest@.len() == all.len(),
                all.len() <= usize::MAX,
                rest@ == all.skip(done as int),
                m@ == pairs_to_map(all.take(done as int)),
            decreases rest@.len(),
        {
            let (k, v) = rest.remove(0);
            proof {
                assert(all.take(done + 1).drop_last() =~= all.take(done as int));
                assert(all.take(done + 1).last() == all[done as int]);
                assert(rest@ =~= all.skip(done + 1));
            }
            m.insert(k, v);
            done = done + 1;
        }
        proof {
            assert(all.take(done as int) =~= all);
        }
        m
    }
}

} // verus!
