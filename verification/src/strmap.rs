//! A small map keyed by strings, kept as an association list without
//! duplicate keys.
use vstd::prelude::*;

verus! {

/// The map described by an association list: later pairs win, although the
/// lists kept by [`StrMap`] never hold a key twice.
pub open spec fn assoc_map<V>(s: Seq<(String, V)>) -> Map<Seq<char>, V>
    decreases s.len(),
{
    if s.len() == 0 {
        Map::empty()
    } else {
        assoc_map(s.drop_last()).insert(s.last().0@, s.last().1)
    }
}

/// No key occurs twice in the list.
pub open spec fn distinct_keys<V>(s: Seq<(String, V)>) -> bool {
    forall|i: int, j: int| 0 <= i < s.len() && 0 <= j < s.len() && i != j ==> s[i].0@ != s[j].0@
}

pub proof fn lemma_assoc_map<V>(s: Seq<(String, V)>)
    requires
        distinct_keys(s),
    ensures
        forall|k: Seq<char>|
            #[trigger] assoc_map(s).contains_key(k) <==> exists|i: int|
                0 <= i < s.len() && s[i].0@ == k,
        forall|i: int| 0 <= i < s.len() ==> assoc_map(s)[#[trigger] s[i].0@] == s[i].1,
        assoc_map(s).dom().finite(),
        assoc_map(s).len() == s.len(),
    decreases s.len(),
{
    if s.len() > 0 {
        let p = s.drop_last();
        assert(distinct_keys(p));
        lemma_assoc_map(p);
        let k = s.last().0@;
        assert(!assoc_map(p).contains_key(k)) by {
            if assoc_map(p).contains_key(k) {
                let i = choose|i: int| 0 <= i < p.len() && p[i].0@ == k;
                assert(s[i].0@ == s[s.len() - 1].0@);
            }
        }
        assert forall|kk: Seq<char>|
            #[trigger] assoc_map(s).contains_key(kk) implies exists|i: int|
                0 <= i < s.len() && s[i].0@ == kk by {
            if kk != k {
                let i = choose|i: int| 0 <= i < p.len() && p[i].0@ == kk;
                assert(s[i] == p[i]);
            } else {
                assert(s[s.len() - 1].0@ == kk);
            }
        }
        assert forall|kk: Seq<char>|
            (exists|i: int| 0 <= i < s.len() && s[i].0@ == kk) implies #[trigger] assoc_map(
            s,
        ).contains_key(kk) by {
            let i = choose|i: int| 0 <= i < s.len() && s[i].0@ == kk;
            if i < s.len() - 1 {
                assert(p[i] == s[i]);
            }
        }
        assert forall|i: int| 0 <= i < s.len() implies assoc_map(s)[#[trigger] s[i].0@]
            == s[i].1 by {
            if i < s.len() - 1 {
                assert(p[i] == s[i]);
                assert(s[i].0@ != k);
            }
        }
    }
}

/// A map from strings to values, in the order in which keys were first
/// inserted.
pub struct StrMap<V> {
    entries: Vec<(String, V)>,
}

impl<V> View for StrMap<V> {
    type V = Map<Seq<char>, V>;

    closed spec fn view(&self) -> Map<Seq<char>, V> {
        assoc_map(self.entries@)
    }
}

/// Setting the value at position `i`, whose key is `k`, inserts `k` with
/// that value into the map and keeps the keys distinct.
proof fn lemma_set_entry<V>(s0: Seq<(String, V)>, i: int, key: String, value: V)
    requires
        distinct_keys(s0),
        0 <= i < s0.len(),
        s0[i].0@ == key@,
    ensures
        distinct_keys(s0.update(i, (key, value))),
        assoc_map(s0.update(i, (key, value))) == assoc_map(s0).insert(key@, value),
{
    let s1 = s0.update(i, (key, value));
    let k = key@;
    lemma_assoc_map(s0);
    assert(distinct_keys(s1)) by {
        assert forall|a: int, b: int|
            0 <= a < s1.len() && 0 <= b < s1.len() && a != b implies s1[a].0@ != s1[b].0@ by {
            if a != i && b != i {
                assert(s1[a] == s0[a] && s1[b] == s0[b]);
            }
        }
    }
    lemma_assoc_map(s1);
    assert(assoc_map(s1) =~= assoc_map(s0).insert(k, value)) by {
        assert forall|kk: Seq<char>|
            assoc_map(s1).contains_key(kk) == assoc_map(s0).insert(k, value).contains_key(kk) by {
            if assoc_map(s0).contains_key(kk) {
                let j = choose|j: int| 0 <= j < s0.len() && s0[j].0@ == kk;
                assert(s1[j].0@ == kk);
            }
            if assoc_map(s1).contains_key(kk) {
                let j = choose|j: int| 0 <= j < s1.len() && s1[j].0@ == kk;
                assert(s0[j].0@ == kk);
            }
        }
        assert forall|kk: Seq<char>| #[trigger]
            assoc_map(s1).contains_key(kk) implies assoc_map(s1)[kk] == assoc_map(s0).insert(
            k,
            value,
        )[kk] by {
            let j = choose|j: int| 0 <= j < s1.len() && s1[j].0@ == kk;
            if j != i {
                assert(s1[j] == s0[j]);
            }
        }
    }
}

impl<V> StrMap<V> {
    /// The keys in the order in which they are kept.
    pub closed spec fn key_seq(&self) -> Seq<Seq<char>> {
        self.entries@.map_values(|e: (String, V)| e.0@)
    }

    /// The keys are pairwise distinct.
    pub closed spec fn wf(&self) -> bool {
        distinct_keys(self.entries@)
    }

    pub proof fn lemma_view(&self)
        requires
            self.wf(),
        ensures
            self@.dom().finite(),
            self@.len() == self.key_seq().len(),
            forall|k: Seq<char>| #[trigger]
                self@.contains_key(k) <==> self.key_seq().contains(k),
            forall|i: int, j: int|
                0 <= i < self.key_seq().len() && 0 <= j < self.key_seq().len() && i != j
                    ==> self.key_seq()[i] != self.key_seq()[j],
    {
        lemma_assoc_map(self.entries@);
        assert forall|k: Seq<char>| #[trigger]
            self@.contains_key(k) <==> self.key_seq().contains(k) by {
            if self@.contains_key(k) {
                let i = choose|i: int| 0 <= i < self.entries@.len() && self.entries@[i].0@ == k;
                assert(self.key_seq()[i] == k);
            }
            if self.key_seq().contains(k) {
                let i = choose|i: int| 0 <= i < self.key_seq().len() && self.key_seq()[i] == k;
                assert(self.entries@[i].0@ == k);
            }
        }
    }

    pub fn new() -> (m: Self)
        ensures
            m.wf(),
            m@ == Map::<Seq<char>, V>::empty(),
            m.key_seq().len() == 0,
    {
        StrMap { entries: Vec::new() }
    }

    pub fn len(&self) -> (n: usize)
        requires
            self.wf(),
        ensures
            n == self@.len(),
            n == self.key_seq().len(),
    {
        proof {
            lemma_assoc_map(self.entries@);
        }
        self.entries.len()
    }

    /// The key kept at position `i`.
    pub fn key_at(&self, i: usize) -> (k: &String)
        requires
            self.wf(),
            i < self.key_seq().len(),
        ensures
            k@ == self.key_seq()[i as int],
            self@.contains_key(k@),
    {
        proof {
            lemma_assoc_map(self.entries@);
        }
        &self.entries[i].0
    }

    /// The value kept at position `i`.
    pub fn value_at(&self, i: usize) -> (v: &V)
        requires
            self.wf(),
            i < self.key_seq().len(),
        ensures
            *v == self@[self.key_seq()[i as int]],
    {
        proof {
            lemma_assoc_map(self.entries@);
        }
        &self.entries[i].1
    }

    fn index_of(&self, key: &str) -> (r: Option<usize>)
        requires
            self.wf(),
        ensures
            match r {
                Some(i) => i < self.entries@.len() && self.entries@[i as int].0@ == key@,
                None => !self@.contains_key(key@),
            },
    {
        proof {
            lemma_assoc_map(self.entries@);
        }
        let k: String = key.to_owned();
        let mut i: usize = 0;
        while i < self.entries.len()
            invariant
                i <= self.entries@.len(),
                forall|j: int| 0 <= j < i ==> self.entries@[j].0@ != key@,
                k@ == key@,
            decreases self.entries@.len() - i,
        {
            if self.entries[i].0 == k {
                return Some(i);
            }
            i = i + 1;
        }
        None
    }

    pub fn contains_key(&self, key: &str) -> (b: bool)
        requires
            self.wf(),
        ensures
            b == self@.contains_key(key@),
    {
        proof {
            lemma_assoc_map(self.entries@);
        }
        match self.index_of(key) {
            Some(_) => true,
            None => false,
        }
    }

    pub fn get(&self, key: &str) -> (r: Option<&V>)
        requires
            self.wf(),
        ensures
            r is Some == self@.contains_key(key@),
            r matches Some(v) ==> *v == self@[key@],
    {
        proof {
            lemma_assoc_map(self.entries@);
        }
        match self.index_of(key) {
            Some(i) => Some(&self.entries[i].1),
            None => None,
        }
    }

    /// Sets the value of `key`; a new key goes last in the order.
    pub fn insert(&mut self, key: String, value: V)
        requires
            old(self).wf(),
        ensures
            final(self).wf(),
            final(self)@ == old(self)@.insert(key@, value),
            old(self)@.contains_key(key@) ==> final(self).key_seq() == old(self).key_seq(),
            !old(self)@.contains_key(key@) ==> final(self).key_seq() == old(self).key_seq().push(
                key@,
            ),
    {
        proof {
            lemma_assoc_map(self.entries@);
        }
        match self.index_of(key.as_str()) {
            Some(i) => {
                let ghost k = key@;
                let ghost s0 = self.entries@;
                self.entries.set(i, (key, value));
                proof {
                    let s1 = self.entries@;
                    assert(distinct_keys(s1)) by {
                        assert forall|a: int, b: int|
                            0 <= a < s1.len() && 0 <= b < s1.len() && a != b implies s1[a].0@
                            != s1[b].0@ by {
                            if a != i && b != i {
                                assert(s1[a] == s0[a] && s1[b] == s0[b]);
                            }
                        }
                    }
                    lemma_assoc_map(s1);
                    assert(assoc_map(s1) =~= assoc_map(s0).insert(k, value)) by {
                        assert forall|kk: Seq<char>|
                            assoc_map(s1).contains_key(kk) == assoc_map(s0).insert(
                                k,
                                value,
                            ).contains_key(kk) by {
                            if assoc_map(s0).contains_key(kk) {
                                let j = choose|j: int| 0 <= j < s0.len() && s0[j].0@ == kk;
                                assert(s1[j].0@ == kk);
                            }
                            if assoc_map(s1).contains_key(kk) {
                                let j = choose|j: int| 0 <= j < s1.len() && s1[j].0@ == kk;
                                assert(s0[j].0@ == kk);
                            }
                        }
                        assert forall|kk: Seq<char>| #[trigger]
                            assoc_map(s1).contains_key(kk) implies assoc_map(s1)[kk]
                            == assoc_map(s0).insert(k, value)[kk] by {
                            let j = choose|j: int| 0 <= j < s1.len() && s1[j].0@ == kk;
                            if j != i {
                                assert(s1[j] == s0[j]);
                            }
                        }
                    }
                    assert(self.key_seq() =~= old(self).key_seq());
                }
            },
            None => {
                let ghost s0 = self.entries@;
                self.entries.push((key, value));
                proof {
                    let s1 = self.entries@;
                    assert(s1.drop_last() =~= s0);
                    assert(distinct_keys(s1)) by {
                        assert forall|a: int, b: int|
                            0 <= a < s1.len() && 0 <= b < s1.len() && a != b implies s1[a].0@
                            != s1[b].0@ by {
                            if a < s0.len() && b < s0.len() {
                                assert(s1[a] == s0[a] && s1[b] == s0[b]);
                            } else if a < s0.len() {
                                assert(s1[a] == s0[a]);
                                assert(assoc_map(s0).contains_key(s0[a].0@));
                            } else {
                                assert(s1[b] == s0[b]);
                                assert(assoc_map(s0).contains_key(s0[b].0@));
                            }
                        }
                    }
                    assert(self.key_seq() =~= old(self).key_seq().push(key@));
                }
            },
        }
    }

    /// Puts `value` in place of the value of `key`, which keeps its
    /// position, and returns the value it had; without `key` nothing
    /// changes.
    pub fn replace_value(&mut self, key: &str, value: V) -> (r: Option<V>)
        requires
            old(self).wf(),
        ensures
            final(self).wf(),
            final(self).key_seq() == old(self).key_seq(),
            r is Some == old(self)@.contains_key(key@),
            r matches Some(v) ==> v == old(self)@[key@] && final(self)@ == old(self)@.insert(
                key@,
                value,
            ),
            r is None ==> final(self)@ == old(self)@,
    {
        proof {
            lemma_assoc_map(self.entries@);
        }
        match self.index_of(key) {
            Some(i) => {
                let ghost s0 = self.entries@;
                let e = self.entries.remove(i);
                let k = e.0;
                let ghost kk = k;
                self.entries.insert(i, (k, value));
                proof {
                    assert(self.entries@ =~= s0.update(i as int, (kk, value)));
                    lemma_set_entry(s0, i as int, kk, value);
                    assert(self.key_seq() =~= old(self).key_seq());
                }
                Some(e.1)
            },
            None => None,
        }
    }

    /// Removes `key`, keeping the order of the other keys.
    pub fn remove(&mut self, key: &str) -> (r: Option<V>)
        requires
            old(self).wf(),
        ensures
            final(self).wf(),
            final(self)@ == old(self)@.remove(key@),
            r is Some == old(self)@.contains_key(key@),
            r matches Some(v) ==> v == old(self)@[key@],
    {
        proof {
            lemma_assoc_map(self.entries@);
        }
        match self.index_of(key) {
            Some(i) => {
                let ghost s0 = self.entries@;
                let e = self.entries.remove(i);
                proof {
                    let s1 = self.entries@;
                    assert(s1 =~= s0.remove(i as int));
                    s0.remove_ensures(i as int);
                    assert(distinct_keys(s1)) by {
                        assert forall|a: int, b: int|
                            0 <= a < s1.len() && 0 <= b < s1.len() && a != b implies s1[a].0@
                            != s1[b].0@ by {
                            let a0 = if a < i { a } else { a + 1 };
                            let b0 = if b < i { b } else { b + 1 };
                            assert(s1[a] == s0[a0] && s1[b] == s0[b0]);
                        }
                    }
                    lemma_assoc_map(s1);
                    assert(assoc_map(s1) =~= assoc_map(s0).remove(key@)) by {
                        assert forall|kk: Seq<char>|
                            assoc_map(s1).contains_key(kk) == assoc_map(s0).remove(
                                key@,
                            ).contains_key(kk) by {
                            if assoc_map(s1).contains_key(kk) {
                                let j = choose|j: int| 0 <= j < s1.len() && s1[j].0@ == kk;
                                let j0 = if j < i { j } else { j + 1 };
                                assert(s0[j0] == s1[j]);
                            }
                            if assoc_map(s0).remove(key@).contains_key(kk) {
                                let j = choose|j: int| 0 <= j < s0.len() && s0[j].0@ == kk;
                                assert(j != i);
                                let j1 = if j < i { j } else { j - 1 };
                                assert(s1[j1] == s0[j]);
                            }
                        }
                        assert forall|kk: Seq<char>| #[trigger]
                            assoc_map(s1).contains_key(kk) implies assoc_map(s1)[kk]
                            == assoc_map(s0)[kk] by {
                            let j = choose|j: int| 0 <= j < s1.len() && s1[j].0@ == kk;
                            let j0 = if j < i { j } else { j + 1 };
                            assert(s0[j0] == s1[j]);
                        }
                    }
                }
                Some(e.1)
            },
            None => {
                proof {
                    assert(assoc_map(self.entries@) =~= assoc_map(self.entries@).remove(key@));
                }
                None
            },
        }
    }
}

} // verus!
