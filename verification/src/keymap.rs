use vstd::prelude::*;

verus! {

/// Whether two byte strings are equal.
pub fn bytes_eq(a: &[u8], b: &[u8]) -> (r: bool)
    ensures
        r == (a@ == b@),
{
    if a.len() != b.len() {
        return false;
    }
    let mut i: usize = 0;
    while i < a.len()
        invariant
            a@.len() == b@.len(),
            i <= a@.len(),
            forall|j: int| 0 <= j < i ==> a@[j] == b@[j],
        decreases a@.len() - i,
    {
        if a[i] != b[i] {
            return false;
        }
        i += 1;
    }
    assert(a@ =~= b@);
    true
}

/// A copy of a byte string.
pub fn copy_bytes(a: &Vec<u8>) -> (r: Vec<u8>)
    ensures
        r@ == a@,
{
    a.clone()
}

/// A map keyed by byte strings, each key held once, in insertion order.
///
/// The escrow's stored maps (locked and claimed totals per token, distributors,
/// package metadata) live on the ledger as `soroban_sdk::Map` values. Such a value
/// is a handle into the host's object table, meaningful only inside a running
/// `Env`, and its keys are compared by a host call on host objects: neither what
/// it holds nor how it finds a key can be stated over plain values. So the
/// library holds each map as this type, with its contents as a sequence of keys
/// and values that contracts can speak of, and the contract around it loads the
/// stored maps into it and writes them back.
pub struct KeyMap<V> {
    keys: Vec<Vec<u8>>,
    vals: Vec<V>,
}

impl<V> KeyMap<V> {
    /// The keys, each as its bytes.
    pub closed spec fn key_seq(&self) -> Seq<Seq<u8>> {
        self.keys@.map_values(|k: Vec<u8>| k@)
    }

    /// The values, in the order of `key_seq`.
    pub closed spec fn val_seq(&self) -> Seq<V> {
        self.vals@
    }

    /// Keys are distinct and each has its value.
    pub closed spec fn wf(&self) -> bool {
        &&& self.keys@.len() == self.vals@.len()
        &&& forall|i: int, j: int|
            0 <= i < self.keys@.len() && 0 <= j < self.keys@.len() && i != j
                ==> #[trigger] self.keys@[i]@ != #[trigger] self.keys@[j]@
    }

    pub closed spec fn has_key_at(&self, k: Seq<u8>, i: int) -> bool {
        0 <= i < self.keys@.len() && self.keys@[i]@ == k
    }

    pub closed spec fn view(&self) -> Map<Seq<u8>, V> {
        Map::new(
            |k: Seq<u8>| exists|i: int| self.has_key_at(k, i),
            |k: Seq<u8>| self.vals@[choose|i: int| self.has_key_at(k, i)],
        )
    }

    proof fn lemma_view_at(&self, i: int)
        requires
            self.wf(),
            0 <= i < self.keys@.len(),
        ensures
            self.view().contains_key(self.keys@[i]@),
            self.view()[self.keys@[i]@] == self.vals@[i],
    {
        let k = self.keys@[i]@;
        assert(self.has_key_at(k, i));
        let j = choose|j: int| self.has_key_at(k, j);
        assert(self.has_key_at(k, j));
        assert(i == j);
    }

    pub fn new() -> (m: Self)
        ensures
            m.wf(),
            m.view() == Map::<Seq<u8>, V>::empty(),
    {
        let m = KeyMap { keys: Vec::new(), vals: Vec::new() };
        assert(m.view() =~= Map::<Seq<u8>, V>::empty());
        m
    }

    pub fn len(&self) -> (n: usize)
        requires
            self.wf(),
        ensures
            n == self.view().len(),
            n == self.key_seq().len(),
    {
        proof { self.lemma_len(); }
        self.keys.len()
    }

    /// No key appears twice.
    pub proof fn lemma_unique(&self)
        requires
            self.wf(),
        ensures
            self.key_seq().no_duplicates(),
    {
        self.lemma_len();
    }

    /// As many keys as entries.
    pub proof fn lemma_len_matches(&self)
        requires
            self.wf(),
        ensures
            self.key_seq().len() == self.view().len(),
    {
        self.lemma_len();
    }

    pub proof fn lemma_dom(&self)
        requires
            self.wf(),
        ensures
            self.view().dom() == self.key_seq().to_set(),
    {
        self.lemma_len();
    }

    proof fn lemma_len(&self)
        requires
            self.wf(),
        ensures
            self.view().dom() == self.key_seq().to_set(),
            self.view().len() == self.keys@.len(),
            self.key_seq().len() == self.keys@.len(),
            self.key_seq().no_duplicates(),
    {
        assert(self.view().dom() =~= self.key_seq().to_set()) by {
            assert forall|k: Seq<u8>| self.view().dom().contains(k) implies self.key_seq().to_set().contains(k) by {
                let i = choose|i: int| self.has_key_at(k, i);
                assert(self.key_seq()[i] == k);
            }
            assert forall|k: Seq<u8>| self.key_seq().to_set().contains(k) implies self.view().dom().contains(k) by {
                let i = choose|i: int| 0 <= i < self.key_seq().len() && self.key_seq()[i] == k;
                assert(self.has_key_at(k, i));
            }
        }
        assert(self.key_seq().no_duplicates()) by {
            assert forall|i: int, j: int| 0 <= i < self.key_seq().len() && 0 <= j < self.key_seq().len() && i != j
                implies self.key_seq()[i] != self.key_seq()[j] by {
                assert(self.keys@[i]@ != self.keys@[j]@);
            }
        }
        self.key_seq().unique_seq_to_set();
    }

    /// Position of `k`, if it is a key.
    fn find(&self, k: &[u8]) -> (r: Option<usize>)
        requires
            self.wf(),
        ensures
            match r {
                Some(i) => self.has_key_at(k@, i as int),
                None => !self.view().contains_key(k@),
            },
    {
        let mut i: usize = 0;
        while i < self.keys.len()
            invariant
                self.wf(),
                i <= self.keys@.len(),
                forall|j: int| 0 <= j < i ==> self.keys@[j]@ != k@,
            decreases self.keys@.len() - i,
        {
            if bytes_eq(self.keys[i].as_slice(), k) {
                return Some(i);
            }
            i += 1;
        }
        proof {
            if self.view().contains_key(k@) {
                let j = choose|j: int| self.has_key_at(k@, j);
                assert(self.keys@[j]@ == k@);
            }
        }
        None
    }

    /// The value at `k`.
    pub fn get(&self, k: &[u8]) -> (r: Option<&V>)
        requires
            self.wf(),
        ensures
            r == (if self.view().contains_key(k@) { Some(&self.view()[k@]) } else { None }),
    {
        match self.find(k) {
            Some(i) => {
                proof { self.lemma_view_at(i as int); }
                Some(&self.vals[i])
            },
            None => None,
        }
    }

    /// The key and value at position `i`.
    pub fn entry(&self, i: usize) -> (r: (&Vec<u8>, &V))
        requires
            self.wf(),
            i < self.key_seq().len(),
        ensures
            r.0@ == self.key_seq()[i as int],
            self.view().contains_key(r.0@),
            self.view()[r.0@] == *r.1,
    {
        proof { self.lemma_view_at(i as int); }
        (&self.keys[i], &self.vals[i])
    }

    /// Sets the value at `k`.
    pub fn set(&mut self, k: Vec<u8>, v: V)
        requires
            old(self).wf(),
        ensures
            final(self).wf(),
            final(self).view() == old(self).view().insert(k@, v),
    {
        match self.find(k.as_slice()) {
            Some(i) => {
                let ghost old_self = *self;
                self.vals.set(i, v);
                proof {
                    assert(self.keys@ == old_self.keys@);
                    assert(self.wf());
                    assert(self.has_key_at(k@, i as int));
                    assert forall|kk: Seq<u8>| #[trigger] old_self.view().contains_key(kk) implies
                        self.view().contains_key(kk) by {
                        let j = choose|j: int| old_self.has_key_at(kk, j);
                        assert(self.has_key_at(kk, j));
                    }
                    assert forall|kk: Seq<u8>| #[trigger] self.view().contains_key(kk) implies
                        old_self.view().insert(k@, v).contains_key(kk) && self.view()[kk] == old_self.view().insert(k@, v)[kk] by {
                        let j = choose|j: int| self.has_key_at(kk, j);
                        self.lemma_view_at(j);
                        old_self.lemma_view_at(j);
                        if kk == k@ {
                            assert(j == i);
                        }
                    }
                    assert(self.view() =~= old_self.view().insert(k@, v));
                }
            },
            None => {
                let ghost old_self = *self;
                self.keys.push(k);
                self.vals.push(v);
                proof {
                    let n = old_self.keys@.len() as int;
                    assert forall|j: int| 0 <= j < n implies old_self.keys@[j]@ != k@ by {
                        if old_self.keys@[j]@ == k@ {
                            assert(old_self.has_key_at(k@, j));
                        }
                    }
                    assert forall|a: int, b: int|
                        0 <= a < self.keys@.len() && 0 <= b < self.keys@.len() && a != b
                        implies #[trigger] self.keys@[a]@ != #[trigger] self.keys@[b]@ by {
                        if a < n && b < n {
                            assert(old_self.keys@[a]@ != old_self.keys@[b]@);
                        }
                    }
                    assert(self.wf());
                    assert(self.has_key_at(k@, n));
                    assert forall|kk: Seq<u8>| #[trigger] self.view().contains_key(kk) implies
                        old_self.view().insert(k@, v).contains_key(kk) && self.view()[kk] == old_self.view().insert(k@, v)[kk] by {
                        let j = choose|j: int| self.has_key_at(kk, j);
                        self.lemma_view_at(j);
                        if j < n {
                            assert(old_self.has_key_at(kk, j));
                            old_self.lemma_view_at(j);
                        }
                    }
                    assert forall|kk: Seq<u8>| #[trigger] old_self.view().insert(k@, v).contains_key(kk) implies
                        self.view().contains_key(kk) by {
                        if kk != k@ {
                            let j = choose|j: int| old_self.has_key_at(kk, j);
                            assert(self.has_key_at(kk, j));
                        }
                    }
                    assert(self.view() =~= old_self.view().insert(k@, v));
                }
            },
        }
    }

    /// Removes `k` and its value.
    pub fn remove(&mut self, k: &[u8])
        requires
            old(self).wf(),
        ensures
            final(self).wf(),
            final(self).view() == old(self).view().remove(k@),
    {
        match self.find(k) {
            Some(i) => {
                let ghost old_self = *self;
                self.keys.remove(i);
                self.vals.remove(i);
                proof {
                    let n = old_self.keys@.len() as int;
                    // old position of a new position
                    assert forall|j: int| 0 <= j < n - 1 implies
                        #[trigger] self.keys@[j] == old_self.keys@[if j < i { j } else { j + 1 }]
                        && self.vals@[j] == old_self.vals@[if j < i { j } else { j + 1 }] by {}
                    assert forall|a: int, b: int|
                        0 <= a < self.keys@.len() && 0 <= b < self.keys@.len() && a != b
                        implies #[trigger] self.keys@[a]@ != #[trigger] self.keys@[b]@ by {
                        let oa = if a < i { a } else { a + 1 };
                        let ob = if b < i { b } else { b + 1 };
                        assert(old_self.keys@[oa]@ != old_self.keys@[ob]@);
                    }
                    assert forall|kk: Seq<u8>| #[trigger] self.view().contains_key(kk) implies
                        old_self.view().remove(k@).contains_key(kk) && self.view()[kk] == old_self.view().remove(k@)[kk] by {
                        let j = choose|j: int| self.has_key_at(kk, j);
                        self.lemma_view_at(j);
                        let oj = if j < i { j } else { j + 1 };
                        old_self.lemma_view_at(oj);
                        assert(oj != i);
                        assert(old_self.keys@[oj]@ != old_self.keys@[i as int]@);
                    }
                    assert forall|kk: Seq<u8>| #[trigger] old_self.view().remove(k@).contains_key(kk) implies
                        self.view().contains_key(kk) by {
                        let oj = choose|j: int| old_self.has_key_at(kk, j);
                        assert(oj != i);
                        let j = if oj < i { oj } else { oj - 1 };
                        assert(self.has_key_at(kk, j));
                    }
                    assert(self.view() =~= old_self.view().remove(k@));
                }
            },
            None => {
                assert(self.view() =~= self.view().remove(k@));
            },
        }
    }
}

} // verus!
