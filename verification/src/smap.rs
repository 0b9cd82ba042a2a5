use vstd::prelude::*;
use crate::text::{chars_eq, chars_lt, lemma_lex_irrefl, lemma_lex_total, lemma_lex_trans, lex_lt};

verus! {

/// A map from character-sequence keys to values, held in ascending key order.
pub struct StrMap<V> {
    keys: Vec<Vec<char>>,
    vals: Vec<V>,
    m: Ghost<Map<Seq<char>, V>>,
}

impl<V> View for StrMap<V> {
    type V = Map<Seq<char>, V>;

    closed spec fn view(&self) -> Map<Seq<char>, V> {
        self.m@
    }
}

impl<V> StrMap<V> {
    /// The keys, in ascending order.
    pub closed spec fn key_seq(&self) -> Seq<Seq<char>> {
        self.keys@.map_values(|k: Vec<char>| k@)
    }

    /// The values, in the order of their keys.
    pub closed spec fn val_seq(&self) -> Seq<V> {
        self.vals@
    }

    pub closed spec fn wf(&self) -> bool {
        &&& self.keys.len() == self.vals.len()
        &&& forall|i: int, j: int|
            0 <= i < j < self.keys.len() ==> lex_lt(#[trigger] self.keys@[i]@, #[trigger] self.keys@[j]@)
        &&& forall|i: int| 0 <= i < self.keys.len() ==> #[trigger] self.m@.dom().contains(self.keys@[i]@)
        &&& forall|i: int| 0 <= i < self.keys.len() ==> self.m@[#[trigger] self.keys@[i]@] == self.vals@[i]
        &&& forall|k: Seq<char>| #[trigger] self.m@.dom().contains(k) ==> exists|i: int| 0 <= i < self.keys.len() && self.keys@[i]@ == k
    }

    /// What a well-formed map guarantees about its ordered contents.
    pub proof fn lemma_contents(&self)
        requires
            self.wf(),
        ensures
            self.key_seq().len() == self.val_seq().len(),
            forall|i: int, j: int| 0 <= i < j < self.key_seq().len() ==> lex_lt(#[trigger] self.key_seq()[i], #[trigger] self.key_seq()[j]),
            forall|i: int| 0 <= i < self.key_seq().len() ==> #[trigger] self@.dom().contains(self.key_seq()[i]),
            forall|i: int| 0 <= i < self.key_seq().len() ==> self@[#[trigger] self.key_seq()[i]] == self.val_seq()[i],
            forall|k: Seq<char>| #[trigger] self@.dom().contains(k) ==> exists|i: int| 0 <= i < self.key_seq().len() && self.key_seq()[i] == k,
            self@.dom().finite(),
            self@.dom().len() == self.key_seq().len(),
    {
        assert forall|i: int, j: int| 0 <= i < j < self.key_seq().len() implies lex_lt(#[trigger] self.key_seq()[i], #[trigger] self.key_seq()[j]) by {
            assert(self.key_seq()[i] == self.keys@[i]@);
            assert(self.key_seq()[j] == self.keys@[j]@);
        }
        assert forall|i: int| 0 <= i < self.key_seq().len() implies #[trigger] self@.dom().contains(self.key_seq()[i]) by {
            assert(self.key_seq()[i] == self.keys@[i]@);
        }
        assert forall|i: int| 0 <= i < self.key_seq().len() implies self@[#[trigger] self.key_seq()[i]] == self.val_seq()[i] by {
            assert(self.key_seq()[i] == self.keys@[i]@);
        }
        assert forall|k: Seq<char>| #[trigger] self@.dom().contains(k) implies exists|i: int| 0 <= i < self.key_seq().len() && self.key_seq()[i] == k by {
            let i = choose|i: int| 0 <= i < self.keys.len() && self.keys@[i]@ == k;
            assert(self.key_seq()[i] == k);
        }
        self.lemma_dom_is_keys();
    }

    proof fn lemma_keys_distinct(&self)
        requires
            self.wf(),
        ensures
            self.key_seq().no_duplicates(),
    {
        assert forall|i: int, j: int| 0 <= i < self.key_seq().len() && 0 <= j < self.key_seq().len() && i != j
            implies self.key_seq()[i] != self.key_seq()[j] by {
            assert(self.key_seq()[i] == self.keys@[i]@);
            assert(self.key_seq()[j] == self.keys@[j]@);
            if i < j {
                assert(lex_lt(self.keys@[i]@, self.keys@[j]@));
                lemma_lex_irrefl(self.keys@[i]@);
            } else {
                assert(lex_lt(self.keys@[j]@, self.keys@[i]@));
                lemma_lex_irrefl(self.keys@[j]@);
            }
        }
    }

    proof fn lemma_dom_is_keys(&self)
        requires
            self.wf(),
        ensures
            self@.dom() == self.key_seq().to_set(),
            self@.dom().finite(),
            self@.dom().len() == self.key_seq().len(),
    {
        assert forall|k: Seq<char>| self@.dom().contains(k) <==> self.key_seq().to_set().contains(k) by {
            if self@.dom().contains(k) {
                let i = choose|i: int| 0 <= i < self.keys.len() && self.keys@[i]@ == k;
                assert(self.key_seq()[i] == k);
            }
            if self.key_seq().to_set().contains(k) {
                let i = choose|i: int| 0 <= i < self.key_seq().len() && self.key_seq()[i] == k;
                assert(self.keys@[i]@ == k);
            }
        }
        assert(self@.dom() =~= self.key_seq().to_set());
        self.lemma_keys_distinct();
        self.key_seq().unique_seq_to_set();
    }

    pub fn new() -> (r: Self)
        ensures
            r.wf(),
            r@ == Map::<Seq<char>, V>::empty(),
    {
        StrMap { keys: Vec::new(), vals: Vec::new(), m: Ghost(Map::empty()) }
    }

    pub fn len(&self) -> (n: usize)
        requires
            self.wf(),
        ensures
            n == self.key_seq().len(),
            n == self@.dom().len(),
    {
        proof { self.lemma_dom_is_keys(); }
        self.keys.len()
    }

    pub fn key_at(&self, i: usize) -> (k: &Vec<char>)
        requires
            self.wf(),
            i < self.key_seq().len(),
        ensures
            k@ == self.key_seq()[i as int],
    {
        &self.keys[i]
    }

    pub fn value_at(&self, i: usize) -> (v: &V)
        requires
            self.wf(),
            i < self.key_seq().len(),
        ensures
            *v == self.val_seq()[i as int],
            *v == self@[self.key_seq()[i as int]],
    {
        &self.vals[i]
    }

    /// The position at which `key` stands or would be inserted, and whether it is present.
    fn search(&self, key: &Vec<char>) -> (r: (usize, bool))
        requires
            self.wf(),
        ensures
            r.0 <= self.keys.len(),
            forall|i: int| 0 <= i < r.0 ==> lex_lt(#[trigger] self.keys@[i]@, key@),
            r.1 ==> r.0 < self.keys.len() && self.keys@[r.0 as int]@ == key@,
            !r.1 ==> forall|i: int| r.0 <= i < self.keys.len() ==> lex_lt(key@, #[trigger] self.keys@[i]@),
            r.1 == self@.dom().contains(key@),
    {
        let mut i: usize = 0;
        while i < self.keys.len()
            invariant
                self.wf(),
                i <= self.keys.len(),
                forall|j: int| 0 <= j < i ==> lex_lt(#[trigger] self.keys@[j]@, key@),
            decreases self.keys.len() - i,
        {
            if chars_lt(&self.keys[i], key) {
                i = i + 1;
            } else {
                let found = chars_eq(&self.keys[i], key);
                proof {
                    if !found {
                        lemma_lex_total(self.keys@[i as int]@, key@);
                        assert forall|j: int| i <= j < self.keys.len() implies lex_lt(key@, #[trigger] self.keys@[j]@) by {
                            if j > i {
                                assert(lex_lt(self.keys@[i as int]@, self.keys@[j]@));
                                lemma_lex_trans(key@, self.keys@[i as int]@, self.keys@[j]@);
                            }
                        }
                        if self@.dom().contains(key@) {
                            let k = choose|k: int| 0 <= k < self.keys.len() && self.keys@[k]@ == key@;
                            if k < i {
                                lemma_lex_irrefl(key@);
                            } else {
                                lemma_lex_irrefl(key@);
                            }
                        }
                    }
                }
                return (i, found);
            }
        }
        proof {
            if self@.dom().contains(key@) {
                let k = choose|k: int| 0 <= k < self.keys.len() && self.keys@[k]@ == key@;
                lemma_lex_irrefl(key@);
            }
        }
        (i, false)
    }

    pub fn contains_key(&self, key: &Vec<char>) -> (r: bool)
        requires
            self.wf(),
        ensures
            r == self@.dom().contains(key@),
    {
        self.search(key).1
    }

    pub fn get(&self, key: &Vec<char>) -> (r: Option<&V>)
        requires
            self.wf(),
        ensures
            r == (if self@.dom().contains(key@) { Some(&self@[key@]) } else { None::<&V> }),
    {
        let (i, found) = self.search(key);
        if found {
            Some(&self.vals[i])
        } else {
            None
        }
    }

    pub fn insert(&mut self, key: Vec<char>, v: V)
        requires
            old(self).wf(),
        ensures
            final(self).wf(),
            final(self)@ == old(self)@.insert(key@, v),
    {
        let (i, found) = self.search(&key);
        let ghost old_keys = self.keys@;
        let ghost old_vals = self.vals@;
        let ghost new_m = self.m@.insert(key@, v);
        if found {
            self.vals.set(i, v);
            self.m = Ghost(new_m);
            assert forall|k: Seq<char>| #[trigger] self.m@.dom().contains(k) implies exists|j: int| 0 <= j < self.keys.len() && self.keys@[j]@ == k by {
                if k == key@ {
                    assert(self.keys@[i as int]@ == k);
                } else {
                    assert(old(self).m@.dom().contains(k));
                }
            }
            assert forall|j: int| 0 <= j < self.keys.len() implies self.m@[#[trigger] self.keys@[j]@] == self.vals@[j] by {
                if j != i {
                    if self.keys@[j]@ == key@ {
                        old(self).lemma_keys_distinct();
                        assert(old(self).key_seq()[j] == self.keys@[j]@);
                        assert(old(self).key_seq()[i as int] == self.keys@[i as int]@);
                    }
                }
            }
        } else {
            let ghost kk = key@;
            self.keys.insert(i, key);
            self.vals.insert(i, v);
            self.m = Ghost(new_m);
            assert forall|a: int, b: int| 0 <= a < b < self.keys.len() implies lex_lt(#[trigger] self.keys@[a]@, #[trigger] self.keys@[b]@) by {
                if b < i {
                    assert(self.keys@[a] == old_keys[a]);
                    assert(self.keys@[b] == old_keys[b]);
                } else if b == i {
                    assert(self.keys@[a] == old_keys[a]);
                } else if a < i {
                    assert(self.keys@[a] == old_keys[a]);
                    assert(self.keys@[b] == old_keys[b - 1]);
                    assert(lex_lt(old_keys[a]@, kk));
                    assert(lex_lt(kk, old_keys[b - 1]@));
                    lemma_lex_trans(old_keys[a]@, kk, old_keys[b - 1]@);
                } else if a == i {
                    assert(self.keys@[b] == old_keys[b - 1]);
                } else {
                    assert(self.keys@[a] == old_keys[a - 1]);
                    assert(self.keys@[b] == old_keys[b - 1]);
                }
            }
            assert forall|j: int| 0 <= j < self.keys.len() implies #[trigger] self.m@.dom().contains(self.keys@[j]@) by {
                if j < i {
                    assert(self.keys@[j] == old_keys[j]);
                } else if j > i {
                    assert(self.keys@[j] == old_keys[j - 1]);
                }
            }
            assert forall|j: int| 0 <= j < self.keys.len() implies self.m@[#[trigger] self.keys@[j]@] == self.vals@[j] by {
                if j < i {
                    assert(self.keys@[j] == old_keys[j]);
                    assert(self.vals@[j] == old_vals[j]);
                    assert(lex_lt(old_keys[j]@, kk));
                    lemma_lex_irrefl(kk);
                } else if j > i {
                    assert(self.keys@[j] == old_keys[j - 1]);
                    assert(self.vals@[j] == old_vals[j - 1]);
                    assert(lex_lt(kk, old_keys[j - 1]@));
                    lemma_lex_irrefl(kk);
                }
            }
            assert forall|k: Seq<char>| #[trigger] self.m@.dom().contains(k) implies exists|j: int| 0 <= j < self.keys.len() && self.keys@[j]@ == k by {
                if k == kk {
                    assert(self.keys@[i as int]@ == k);
                } else {
                    assert(old(self).m@.dom().contains(k));
                    let j = choose|j: int| 0 <= j < old_keys.len() && old_keys[j]@ == k;
                    if j < i {
                        assert(self.keys@[j] == old_keys[j]);
                    } else {
                        assert(self.keys@[j + 1] == old_keys[j]);
                    }
                }
            }
        }
    }

    pub fn remove(&mut self, key: &Vec<char>) -> (r: Option<V>)
        requires
            old(self).wf(),
        ensures
            final(self).wf(),
            final(self)@ == old(self)@.remove(key@),
            r == (if old(self)@.dom().contains(key@) { Some(old(self)@[key@]) } else { None::<V> }),
    {
        let (i, found) = self.search(key);
        if !found {
            assert(self.m@.remove(key@) =~= self.m@);
            return None;
        }
        let ghost old_keys = self.keys@;
        let ghost old_vals = self.vals@;
        let ghost kk = key@;
        let ghost new_m = self.m@.remove(key@);
        self.keys.remove(i);
        let v = self.vals.remove(i);
        self.m = Ghost(new_m);
        proof { old(self).lemma_keys_distinct(); }
        assert forall|a: int, b: int| 0 <= a < b < self.keys.len() implies lex_lt(#[trigger] self.keys@[a]@, #[trigger] self.keys@[b]@) by {
            let oa = if a < i { a } else { a + 1 };
            let ob = if b < i { b } else { b + 1 };
            assert(self.keys@[a] == old_keys[oa]);
            assert(self.keys@[b] == old_keys[ob]);
            assert(lex_lt(old(self).keys@[oa]@, old(self).keys@[ob]@));
        }
        assert(self.keys.len() == self.vals.len());
        assert forall|j: int| 0 <= j < self.keys.len() implies #[trigger] self.m@.dom().contains(self.keys@[j]@) by {
            let oj = if j < i { j } else { j + 1 };
            assert(self.keys@[j] == old_keys[oj]);
            assert(old(self).key_seq()[oj] == old_keys[oj]@);
            assert(old(self).key_seq()[i as int] == old_keys[i as int]@);
            assert(old_keys[oj]@ != kk);
        }
        assert forall|j: int| 0 <= j < self.keys.len() implies self.m@[#[trigger] self.keys@[j]@] == self.vals@[j] by {
            let oj = if j < i { j } else { j + 1 };
            assert(self.keys@[j] == old_keys[oj]);
            assert(self.vals@[j] == old_vals[oj]);
            assert(old(self).key_seq()[oj] == old_keys[oj]@);
            assert(old(self).key_seq()[i as int] == old_keys[i as int]@);
            assert(old_keys[oj]@ != kk);
        }
        assert forall|k: Seq<char>| #[trigger] self.m@.dom().contains(k) implies exists|j: int| 0 <= j < self.keys.len() && self.keys@[j]@ == k by {
            let j = choose|j: int| 0 <= j < old_keys.len() && old_keys[j]@ == k;
            assert(j != i);
            if j < i {
                assert(self.keys@[j] == old_keys[j]);
            } else {
                assert(self.keys@[j - 1] == old_keys[j]);
            }
        }
        Some(v)
    }
}

impl<V: Copy> StrMap<V> {
    /// A copy of the map.
    pub fn copied(&self) -> (r: StrMap<V>)
        requires
            self.wf(),
        ensures
            r.wf(),
            r@ == self@,
    {
        let mut r: StrMap<V> = StrMap::new();
        let n = self.len();
        proof { self.lemma_contents(); }
        let mut i: usize = 0;
        while i < n
            invariant
                self.wf(),
                r.wf(),
                n == self.key_seq().len(),
                i <= n,
                r@ == self@.restrict(Set::new(|k: Seq<char>| exists|j: int| 0 <= j < i && self.key_seq()[j] == k)),
            decreases n - i,
        {
            proof { self.lemma_contents(); }
            let k = self.key_at(i).clone();
            let v = *self.value_at(i);
            r.insert(k, v);
            assert(r@ =~= self@.restrict(Set::new(|k: Seq<char>| exists|j: int| 0 <= j < i + 1 && self.key_seq()[j] == k)));
            i = i + 1;
        }
        proof { self.lemma_contents(); }
        assert(r@ =~= self@);
        r
    }
}

/// A set of character-sequence keys, held in ascending order.
pub struct StrSet {
    m: StrMap<()>,
}

impl View for StrSet {
    type V = Set<Seq<char>>;

    closed spec fn view(&self) -> Set<Seq<char>> {
        self.m@.dom()
    }
}

impl StrSet {
    pub closed spec fn wf(&self) -> bool {
        self.m.wf()
    }

    /// The members, in ascending order.
    pub closed spec fn key_seq(&self) -> Seq<Seq<char>> {
        self.m.key_seq()
    }

    pub proof fn lemma_contents(&self)
        requires
            self.wf(),
        ensures
            forall|i: int| 0 <= i < self.key_seq().len() ==> #[trigger] self@.contains(self.key_seq()[i]),
            forall|k: Seq<char>| #[trigger] self@.contains(k) ==> exists|i: int| 0 <= i < self.key_seq().len() && self.key_seq()[i] == k,
            forall|i: int, j: int| 0 <= i < j < self.key_seq().len() ==> lex_lt(#[trigger] self.key_seq()[i], #[trigger] self.key_seq()[j]),
            self@.finite(),
            self@.len() == self.key_seq().len(),
    {
        self.m.lemma_contents();
    }

    pub fn new() -> (r: Self)
        ensures
            r.wf(),
            r@ == Set::<Seq<char>>::empty(),
    {
        let r = StrSet { m: StrMap::new() };
        assert(r@ =~= Set::<Seq<char>>::empty());
        r
    }

    pub fn len(&self) -> (n: usize)
        requires
            self.wf(),
        ensures
            n == self.key_seq().len(),
            n == self@.len(),
    {
        self.m.len()
    }

    pub fn key_at(&self, i: usize) -> (k: &Vec<char>)
        requires
            self.wf(),
            i < self.key_seq().len(),
        ensures
            k@ == self.key_seq()[i as int],
    {
        self.m.key_at(i)
    }

    pub fn contains(&self, key: &Vec<char>) -> (r: bool)
        requires
            self.wf(),
        ensures
            r == self@.contains(key@),
    {
        self.m.contains_key(key)
    }

    pub fn insert(&mut self, key: Vec<char>)
        requires
            old(self).wf(),
        ensures
            final(self).wf(),
            final(self)@ == old(self)@.insert(key@),
    {
        let ghost k = key@;
        self.m.insert(key, ());
        assert(self@ =~= old(self)@.insert(k));
    }

    pub fn remove(&mut self, key: &Vec<char>)
        requires
            old(self).wf(),
        ensures
            final(self).wf(),
            final(self)@ == old(self)@.remove(key@),
    {
        self.m.remove(key);
        assert(self@ =~= old(self)@.remove(key@));
    }
}

impl<V> StrMap<V> {
    /// Inserts under the characters of a string slice.
    pub fn insert_str(&mut self, key: &str, v: V)
        requires
            old(self).wf(),
        ensures
            final(self).wf(),
            final(self)@ == old(self)@.insert(key@, v),
    {
        self.insert(crate::text::chars_of(key), v);
    }

    /// Looks up the characters of a string slice.
    pub fn get_str(&self, key: &str) -> (r: Option<&V>)
        requires
            self.wf(),
        ensures
            r == (if self@.dom().contains(key@) { Some(&self@[key@]) } else { None::<&V> }),
    {
        self.get(&crate::text::chars_of(key))
    }

    /// Whether the characters of a string slice are a key.
    pub fn contains_str(&self, key: &str) -> (r: bool)
        requires
            self.wf(),
        ensures
            r == self@.dom().contains(key@),
    {
        self.contains_key(&crate::text::chars_of(key))
    }
}


/// The entries of a map under the first `n` of its keys in order.
pub open spec fn entries_upto<V>(m: StrMap<V>, n: int) -> Map<Seq<char>, V> {
    Map::new(|k: Seq<char>| exists|j: int| 0 <= j < n && m.key_seq()[j] == k, |k: Seq<char>| m@[k])
}

impl<V> StrMap<V> {
    /// All entries are those under every key.
    pub proof fn lemma_entries_all(&self)
        requires
            self.wf(),
        ensures
            entries_upto(*self, self.key_seq().len() as int) == self@,
    {
        self.lemma_contents();
        assert(entries_upto(*self, self.key_seq().len() as int) =~= self@);
    }

    /// Taking one more key adds its entry.
    pub proof fn lemma_entries_step(&self, n: int)
        requires
            self.wf(),
            0 <= n < self.key_seq().len(),
        ensures
            entries_upto(*self, n + 1) == entries_upto(*self, n).insert(self.key_seq()[n], self@[self.key_seq()[n]]),
    {
        self.lemma_contents();
        assert(entries_upto(*self, n + 1) =~= entries_upto(*self, n).insert(self.key_seq()[n], self@[self.key_seq()[n]]));
    }
}

/// A copy of a map of texts.
pub fn copy_texts(m: &StrMap<String>) -> (r: StrMap<String>)
    requires
        m.wf(),
    ensures
        r.wf(),
        r@.dom() == m@.dom(),
        forall|k: Seq<char>| #[trigger] r@.dom().contains(k) ==> r@[k]@ == m@[k]@,
{
    let mut r: StrMap<String> = StrMap::new();
    let n = m.len();
    proof { m.lemma_contents(); }
    let mut i: usize = 0;
    while i < n
        invariant
            m.wf(),
            r.wf(),
            n == m.key_seq().len(),
            i <= n,
            r@.dom() == entries_upto(*m, i as int).dom(),
            forall|k: Seq<char>| #[trigger] r@.dom().contains(k) ==> r@[k]@ == m@[k]@,
        decreases n - i,
    {
        let key = crate::text::concat_chars(&Vec::new(), m.key_at(i));
        assert(key@ =~= m.key_seq()[i as int]);
        let value = crate::text::string_of(m.value_at(i).as_str());
        proof { m.lemma_entries_step(i as int); }
        r.insert(key, value);
        assert(r@.dom() =~= entries_upto(*m, i + 1).dom());
        i = i + 1;
    }
    proof { m.lemma_entries_all(); }
    r
}

} // verus!
