//! An ordered map keyed by strings, kept sorted by the byte order of its keys.
use vstd::prelude::*;
use vstd::utf8::*;

verus! {

/// `a` comes strictly before `b` in byte order, decided at position `i`:
/// both agree below `i`, and at `i` either `a` ends while `b` goes on, or
/// `a` holds the smaller byte.
pub open spec fn bytes_lt_at(a: Seq<u8>, b: Seq<u8>, i: int) -> bool {
    &&& 0 <= i <= a.len()
    &&& i <= b.len()
    &&& a.take(i) == b.take(i)
    &&& ((i == a.len() && i < b.len()) || (i < a.len() && i < b.len() && a[i] < b[i]))
}

/// Strict lexicographic order on byte strings (the order of `[u8]` and of `str`).
pub open spec fn bytes_lt(a: Seq<u8>, b: Seq<u8>) -> bool {
    exists|i: int| bytes_lt_at(a, b, i)
}

/// Strict order on keys: the byte order of their UTF-8 encodings, which is
/// the order in which `String` compares.
pub open spec fn key_lt(a: Seq<char>, b: Seq<char>) -> bool {
    bytes_lt(encode_utf8(a), encode_utf8(b))
}

pub proof fn lemma_bytes_lt_irreflexive(a: Seq<u8>)
    ensures
        !bytes_lt(a, a),
{
}

pub proof fn lemma_bytes_lt_transitive(a: Seq<u8>, b: Seq<u8>, c: Seq<u8>)
    requires
        bytes_lt(a, b),
        bytes_lt(b, c),
    ensures
        bytes_lt(a, c),
{
    let i = choose|i: int| bytes_lt_at(a, b, i);
    let j = choose|j: int| bytes_lt_at(b, c, j);
    if i < j {
        assert(b.take(j).take(i) =~= b.take(i));
        assert(c.take(j).take(i) =~= c.take(i));
        assert(b.take(j)[i] == b[i]);
        assert(c.take(j)[i] == c[i]);
        assert(bytes_lt_at(a, c, i));
    } else if j < i {
        assert(a.take(i).take(j) =~= a.take(j));
        assert(b.take(i).take(j) =~= b.take(j));
        assert(a.take(i)[j] == a[j]);
        assert(b.take(i)[j] == b[j]);
        assert(bytes_lt_at(a, c, j));
    } else {
        assert(bytes_lt_at(a, c, i));
    }
}

pub proof fn lemma_key_lt_irreflexive(a: Seq<char>)
    ensures
        !key_lt(a, a),
{
    lemma_bytes_lt_irreflexive(encode_utf8(a));
}

pub proof fn lemma_key_lt_transitive(a: Seq<char>, b: Seq<char>, c: Seq<char>)
    requires
        key_lt(a, b),
        key_lt(b, c),
    ensures
        key_lt(a, c),
{
    lemma_bytes_lt_transitive(encode_utf8(a), encode_utf8(b), encode_utf8(c));
}

pub proof fn lemma_key_lt_asymmetric(a: Seq<char>, b: Seq<char>)
    requires
        key_lt(a, b),
    ensures
        !key_lt(b, a),
{
    if key_lt(b, a) {
        lemma_key_lt_transitive(a, b, a);
        lemma_key_lt_irreflexive(a);
    }
}

/// Outcome of comparing two keys.
pub enum KeyOrder {
    Less,
    Equal,
    Greater,
}

/// Compares two strings byte by byte, as `str` does.
pub fn compare_keys(a: &str, b: &str) -> (r: KeyOrder)
    ensures
        r is Less <==> key_lt(a@, b@),
        r is Equal <==> a@ == b@,
        r is Greater <==> key_lt(b@, a@),
{
    let x = a.as_bytes();
    let y = b.as_bytes();
    proof {
        vstd::utf8::encode_utf8_decode_utf8(a@);
        vstd::utf8::encode_utf8_decode_utf8(b@);
    }
    let n: usize = if x.len() < y.len() {
        x.len()
    } else {
        y.len()
    };
    let mut i: usize = 0;
    while i < n
        invariant
            0 <= i <= n,
            n <= x@.len(),
            n <= y@.len(),
            n == x@.len() || n == y@.len(),
            x@.take(i as int) == y@.take(i as int),
            x@ == encode_utf8(a@),
            y@ == encode_utf8(b@),
        decreases n - i,
    {
        if x[i] < y[i] {
            proof {
                assert(bytes_lt_at(x@, y@, i as int));
                lemma_key_lt_asymmetric(a@, b@);
                lemma_key_lt_irreflexive(a@);
            }
            return KeyOrder::Less;
        }
        if x[i] > y[i] {
            proof {
                assert(bytes_lt_at(y@, x@, i as int));
                lemma_key_lt_asymmetric(b@, a@);
                lemma_key_lt_irreflexive(a@);
            }
            return KeyOrder::Greater;
        }
        assert(x@.take(i + 1) =~= x@.take(i as int).push(x@[i as int]));
        assert(y@.take(i + 1) =~= y@.take(i as int).push(y@[i as int]));
        i = i + 1;
    }
    if x.len() < y.len() {
        proof {
            assert(bytes_lt_at(x@, y@, i as int));
            lemma_key_lt_asymmetric(a@, b@);
            lemma_key_lt_irreflexive(a@);
        }
        KeyOrder::Less
    } else if x.len() > y.len() {
        proof {
            assert(bytes_lt_at(y@, x@, i as int));
            lemma_key_lt_asymmetric(b@, a@);
            lemma_key_lt_irreflexive(a@);
        }
        KeyOrder::Greater
    } else {
        proof {
            assert(x@ =~= x@.take(i as int));
            assert(y@ =~= y@.take(i as int));
            lemma_key_lt_irreflexive(a@);
        }
        KeyOrder::Equal
    }
}

/// A sequence of keys in strictly increasing key order.
pub open spec fn keys_sorted(keys: Seq<Seq<char>>) -> bool {
    forall|i: int, j: int| 0 <= i < j < keys.len() ==> key_lt(#[trigger] keys[i], #[trigger] keys[j])
}

/// A map from string keys to values, held as entries in increasing key order.
pub struct StrMap<V> {
    entries: Vec<(String, V)>,
}

impl<V> StrMap<V> {
    /// The keys, in increasing key order.
    pub closed spec fn keys(&self) -> Seq<Seq<char>> {
        self.entries@.map_values(|e: (String, V)| e.0@)
    }

    /// The value stored at position `i` of the key order.
    pub closed spec fn value_at_spec(&self, i: int) -> V {
        self.entries@[i].1
    }

    #[verifier::type_invariant]
    pub closed spec fn inv(&self) -> bool {
        keys_sorted(self.keys())
    }

    /// The map from keys to values.
    pub closed spec fn view(&self) -> Map<Seq<char>, V> {
        Map::new(
            |k: Seq<char>| self.keys().contains(k),
            |k: Seq<char>| self.entries@[self.keys().index_of(k)].1,
        )
    }

    /// The key order lists each key of the map once, in increasing order,
    /// and position `i` holds the value of the key at `i`.
    pub proof fn lemma_keys(&self)
        requires
            self.inv(),
        ensures
            keys_sorted(self.keys()),
            self.keys().len() == self@.dom().len(),
            forall|k: Seq<char>| #[trigger] self@.dom().contains(k) <==> self.keys().contains(k),
            forall|i: int|
                0 <= i < self.keys().len() ==> #[trigger] self@[self.keys()[i]]
                    == self.value_at_spec(i),
            self@.dom().finite(),
    {
        self.lemma_index_unique();
        self.lemma_dom_len();
    }

    proof fn lemma_index_unique(&self)
        requires
            keys_sorted(self.keys()),
        ensures
            forall|i: int|
                0 <= i < self.keys().len() ==> #[trigger] self.keys().index_of(self.keys()[i])
                    == i,
    {
        assert forall|i: int| 0 <= i < self.keys().len() implies #[trigger] self.keys().index_of(
            self.keys()[i],
        ) == i by {
            let k = self.keys()[i];
            assert(self.keys().contains(k));
            let j = self.keys().index_of(k);
            assert(0 <= j < self.keys().len() && self.keys()[j] == k);
            if j < i {
                lemma_key_lt_irreflexive(k);
            } else if i < j {
                lemma_key_lt_irreflexive(k);
            }
        }
    }

    proof fn lemma_dom_len(&self)
        requires
            keys_sorted(self.keys()),
        ensures
            self@.dom().finite(),
            self.keys().len() == self@.dom().len(),
    {
        assert(self.keys().no_duplicates()) by {
            assert forall|i: int, j: int|
                0 <= i < self.keys().len() && 0 <= j < self.keys().len() && i != j implies self.keys()[i]
                != self.keys()[j] by {
                if i < j {
                    if self.keys()[i] == self.keys()[j] {
                        lemma_key_lt_irreflexive(self.keys()[i]);
                    }
                } else {
                    if self.keys()[i] == self.keys()[j] {
                        lemma_key_lt_irreflexive(self.keys()[i]);
                    }
                }
            }
        }
        assert(self@.dom() =~= self.keys().to_set());
        self.keys().unique_seq_to_set();
    }

    pub fn new() -> (m: Self)
        ensures
            m@ == Map::<Seq<char>, V>::empty(),
            m.keys() == Seq::<Seq<char>>::empty(),
    {
        let m = StrMap { entries: Vec::new() };
        assert(m.keys() =~= Seq::<Seq<char>>::empty());
        assert(m@ =~= Map::<Seq<char>, V>::empty());
        m
    }

    pub fn len(&self) -> (n: usize)
        ensures
            n == self.keys().len(),
    {
        self.entries.len()
    }

    /// Finds `k`: `Ok(i)` when it sits at position `i`, otherwise `Err(p)`
    /// with `p` the position where it would go.
    pub fn find(&self, k: &str) -> (r: Result<usize, usize>)
        ensures
            r matches Ok(i) ==> i < self.keys().len() && self.keys()[i as int] == k@,
            r matches Err(p) ==> {
                &&& p <= self.keys().len()
                &&& !self.keys().contains(k@)
                &&& forall|j: int| 0 <= j < p ==> key_lt(#[trigger] self.keys()[j], k@)
                &&& forall|j: int| p <= j < self.keys().len() ==> key_lt(k@, #[trigger] self.keys()[j])
            },
    {
        proof {
            use_type_invariant(self);
        }
        let n = self.entries.len();
        let mut i: usize = 0;
        while i < n
            invariant
                0 <= i <= n,
                n == self.keys().len(),
                keys_sorted(self.keys()),
                forall|j: int| 0 <= j < i ==> key_lt(#[trigger] self.keys()[j], k@),
            decreases n - i,
        {
            assert(self.keys()[i as int] == self.entries@[i as int].0@);
            match compare_keys(self.entries[i].0.as_str(), k) {
                KeyOrder::Less => {},
                KeyOrder::Equal => {
                    return Ok(i);
                },
                KeyOrder::Greater => {
                    proof {
                        assert forall|j: int| i <= j < self.keys().len() implies key_lt(
                            k@,
                            #[trigger] self.keys()[j],
                        ) by {
                            if j > i {
                                lemma_key_lt_transitive(k@, self.keys()[i as int], self.keys()[j]);
                            }
                        }
                        assert forall|j: int|
                            0 <= j < self.keys().len() implies #[trigger] self.keys()[j] != k@ by {
                            if j < i {
                                lemma_key_lt_irreflexive(k@);
                            } else {
                                lemma_key_lt_irreflexive(k@);
                            }
                        }
                    }
                    return Err(i);
                },
            }
            i = i + 1;
        }
        proof {
            assert forall|j: int| 0 <= j < self.keys().len() implies #[trigger] self.keys()[j] != k@ by {
                lemma_key_lt_irreflexive(k@);
            }
        }
        Err(i)
    }

    pub fn key_at(&self, i: usize) -> (k: &String)
        requires
            i < self.keys().len(),
        ensures
            k@ == self.keys()[i as int],
    {
        &self.entries[i].0
    }

    pub fn value_at(&self, i: usize) -> (v: &V)
        requires
            i < self.keys().len(),
        ensures
            *v == self.value_at_spec(i as int),
    {
        &self.entries[i].1
    }

    pub fn get(&self, k: &str) -> (r: Option<&V>)
        ensures
            r is Some <==> self@.dom().contains(k@),
            r matches Some(v) ==> *v == self@[k@],
    {
        proof {
            use_type_invariant(self);
            self.lemma_keys();
        }
        match self.find(k) {
            Ok(i) => Some(&self.entries[i].1),
            Err(_) => None,
        }
    }

    pub fn contains_key(&self, k: &str) -> (b: bool)
        ensures
            b == self@.dom().contains(k@),
    {
        proof {
            use_type_invariant(self);
            self.lemma_keys();
        }
        match self.find(k) {
            Ok(_) => true,
            Err(_) => false,
        }
    }

    /// Sets the value of `k` to `v`, adding the key when it is new.
    pub fn insert(&mut self, k: String, v: V)
        ensures
            final(self)@ == old(self)@.insert(k@, v),
    {
        proof {
            use_type_invariant(&*self);
            self.lemma_keys();
        }
        let ghost old_keys = self.keys();
        let ghost kv = k@;
        let found = self.find(k.as_str());
        let mut entries: Vec<(String, V)> = Vec::new();
        std::mem::swap(&mut entries, &mut self.entries);
        let ghost new_keys: Seq<Seq<char>>;
        match found {
            Ok(i) => {
                entries.set(i, (k, v));
                proof {
                    new_keys = entries@.map_values(|e: (String, V)| e.0@);
                    assert(new_keys =~= old_keys);
                }
            },
            Err(p) => {
                entries.insert(p, (k, v));
                proof {
                    new_keys = entries@.map_values(|e: (String, V)| e.0@);
                    assert(new_keys =~= old_keys.insert(p as int, kv));
                    assert forall|i: int, j: int|
                        0 <= i < j < new_keys.len() implies key_lt(
                        #[trigger] new_keys[i],
                        #[trigger] new_keys[j],
                    ) by {
                        if j < p {
                        } else if j == p {
                        } else if i < p {
                            lemma_key_lt_transitive(new_keys[i], kv, new_keys[j]);
                        } else if i == p {
                        } else {
                        }
                    }
                }
            },
        }
        self.entries = entries;
        proof {
            use_type_invariant(&*self);
            self.lemma_keys();
            old(self).lemma_keys();
            let ghost nk = self.keys();
            match found {
                Ok(i) => {
                    assert forall|x: Seq<char>| #[trigger] self@.dom().contains(x) implies old(
                        self,
                    )@.insert(kv, v).dom().contains(x) && self@[x] == old(self)@.insert(kv, v)[x] by {
                        let j = nk.index_of(x);
                        assert(nk[j] == x);
                        assert(self@[nk[j]] == self.value_at_spec(j));
                        assert(old(self)@[old_keys[j]] == old(self).value_at_spec(j));
                    }
                    assert forall|x: Seq<char>| #[trigger] old(self)@.insert(kv, v).dom().contains(x)
                        implies self@.dom().contains(x) by {
                        if x != kv {
                            let j = old_keys.index_of(x);
                            assert(nk[j] == x);
                        } else {
                            assert(nk[i as int] == x);
                        }
                    }
                },
                Err(p) => {
                    assert forall|x: Seq<char>| #[trigger] self@.dom().contains(x) implies old(
                        self,
                    )@.insert(kv, v).dom().contains(x) && self@[x] == old(self)@.insert(kv, v)[x] by {
                        let j = nk.index_of(x);
                        assert(nk[j] == x);
                        assert(self@[nk[j]] == self.value_at_spec(j));
                        if j < p {
                            assert(old(self)@[old_keys[j]] == old(self).value_at_spec(j));
                        } else if j > p {
                            assert(old(self)@[old_keys[j - 1]] == old(self).value_at_spec(j - 1));
                        }
                    }
                    assert forall|x: Seq<char>| #[trigger] old(self)@.insert(kv, v).dom().contains(x)
                        implies self@.dom().contains(x) by {
                        if x != kv {
                            let j = old_keys.index_of(x);
                            if j < p {
                                assert(nk[j] == x);
                            } else {
                                assert(nk[j + 1] == x);
                            }
                        } else {
                            assert(nk[p as int] == x);
                        }
                    }
                },
            }
            assert(self@ =~= old(self)@.insert(kv, v));
        }
    }

    pub fn clear(&mut self)
        ensures
            final(self)@ == Map::<Seq<char>, V>::empty(),
            final(self).keys() == Seq::<Seq<char>>::empty(),
    {
        self.entries = Vec::new();
        assert(self.keys() =~= Seq::<Seq<char>>::empty());
        assert(self@ =~= Map::<Seq<char>, V>::empty());
    }
}

} // verus!
