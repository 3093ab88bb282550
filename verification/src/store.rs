//! The in-memory store: a mapping from byte-string keys to entries, each
//! entry a value with an optional absolute expiration in milliseconds UTC.
//! Keys are unique; a write replaces the whole entry, so a reader always
//! observes a value and an expiration that came from the same write.

use vstd::prelude::*;

verus! {

use crate::ascii::{bytes_eq, push_all};

/// A stored entry: value bytes plus an optional absolute expiration
/// timestamp in milliseconds UTC.
#[derive(Debug, PartialEq, Eq)]
pub struct StoreValue {
    pub value: Vec<u8>,
    pub exp: Option<u64>,
}

/// The mathematical shape of an entry.
pub struct SpecStoreValue {
    pub value: Seq<u8>,
    pub exp: Option<u64>,
}

impl View for StoreValue {
    type V = SpecStoreValue;

    open spec fn view(&self) -> SpecStoreValue {
        SpecStoreValue { value: self.value@, exp: self.exp }
    }
}

/// Copies a byte vector.
pub fn clone_bytes(v: &Vec<u8>) -> (r: Vec<u8>)
    ensures
        r@ == v@,
{
    let mut out: Vec<u8> = Vec::new();
    push_all(&mut out, v);
    assert(out@ =~= v@);
    out
}

/// Copies an entry, both fields at once.
pub fn clone_store_value(v: &StoreValue) -> (r: StoreValue)
    ensures
        r@ == v@,
{
    StoreValue { value: clone_bytes(&v.value), exp: v.exp }
}

/// Builds an entry from a value set later and an optional expiration.
#[derive(Debug)]
pub struct StoreValueBuilder {
    pub value: Option<Vec<u8>>,
    pub exp: Option<u64>,
}

impl StoreValueBuilder {
    pub fn new() -> (r: Self)
        ensures
            r.value is None,
            r.exp is None,
    {
        StoreValueBuilder { value: None, exp: None }
    }

    pub fn with_exp(&mut self, exp: u64)
        ensures
            final(self).exp == Some(exp),
            final(self).value == old(self).value,
    {
        self.exp = Some(exp);
    }

    pub fn with_value(&mut self, value: &Vec<u8>)
        ensures
            final(self).value matches Some(v) && v@ == value@,
            final(self).exp == old(self).exp,
    {
        self.value = Some(clone_bytes(value));
    }

    pub fn build(self) -> (r: StoreValue)
        requires
            self.value is Some,
        ensures
            r.value == self.value->0,
            r.exp == self.exp,
    {
        match self.value {
            Some(v) => StoreValue { value: v, exp: self.exp },
            None => {
                proof {
                    assert(false);
                }
                StoreValue { value: Vec::new(), exp: None }
            },
        }
    }
}

/// The mapping a run of (key, entry) pairs denotes; a later pair with the
/// same key overrides an earlier one.
pub open spec fn entries_map(s: Seq<(Vec<u8>, StoreValue)>) -> Map<Seq<u8>, SpecStoreValue>
    decreases s,
{
    if s.len() == 0 {
        Map::empty()
    } else {
        entries_map(s.drop_last()).insert(s.last().0@, s.last().1@)
    }
}

/// No two pairs share a key.
pub open spec fn keys_unique(s: Seq<(Vec<u8>, StoreValue)>) -> bool {
    forall|i: int, j: int|
        0 <= i < j < s.len() ==> (#[trigger] s[i]).0@ != (#[trigger] s[j]).0@
}

/// Some pair of `s` holds the key `k`.
pub open spec fn seq_has_key(s: Seq<(Vec<u8>, StoreValue)>, k: Seq<u8>) -> bool {
    exists|i: int| 0 <= i < s.len() && (#[trigger] s[i]).0@ == k
}

pub proof fn lemma_entries_map_contains(s: Seq<(Vec<u8>, StoreValue)>)
    ensures
        forall|k: Seq<u8>| #[trigger] entries_map(s).contains_key(k) <==> seq_has_key(s, k),
    decreases s,
{
    if s.len() > 0 {
        let dl = s.drop_last();
        lemma_entries_map_contains(dl);
        assert forall|k: Seq<u8>| #[trigger]
            entries_map(s).contains_key(k) <==> seq_has_key(s, k) by {
            if entries_map(s).contains_key(k) {
                if k == s.last().0@ {
                    assert((s[s.len() - 1]).0@ == k);
                    assert(seq_has_key(s, k));
                } else {
                    assert(entries_map(dl).contains_key(k));
                    assert(seq_has_key(dl, k));
                    let i = choose|i: int| 0 <= i < dl.len() && (#[trigger] dl[i]).0@ == k;
                    assert(dl[i] == s[i]);
                    assert((s[i]).0@ == k);
                    assert(seq_has_key(s, k));
                }
            }
            if seq_has_key(s, k) {
                let i = choose|i: int| 0 <= i < s.len() && (#[trigger] s[i]).0@ == k;
                if i < s.len() - 1 {
                    assert(dl[i] == s[i]);
                    assert((dl[i]).0@ == k);
                    assert(seq_has_key(dl, k));
                    assert(entries_map(dl).contains_key(k));
                } else {
                    assert(k == s.last().0@);
                }
                assert(entries_map(s).contains_key(k));
            }
        }
    }
}

pub proof fn lemma_entries_map_value(s: Seq<(Vec<u8>, StoreValue)>, i: int)
    requires
        keys_unique(s),
        0 <= i < s.len(),
    ensures
        entries_map(s).contains_key(s[i].0@),
        entries_map(s)[s[i].0@] == s[i].1@,
    decreases s,
{
    if i == s.len() - 1 {
    } else {
        let dl = s.drop_last();
        assert(keys_unique(dl)) by {
            assert forall|a: int, b: int|
                0 <= a < b < dl.len() implies (#[trigger] dl[a]).0@ != (#[trigger] dl[b]).0@ by {
                assert(s[a] == dl[a] && s[b] == dl[b]);
            }
        }
        lemma_entries_map_value(dl, i);
        assert(dl[i] == s[i]);
        assert(s[i].0@ != s.last().0@);
    }
}

/// Removing the pair at `i` removes exactly its key from the mapping.
pub proof fn lemma_entries_map_remove(s: Seq<(Vec<u8>, StoreValue)>, i: int)
    requires
        keys_unique(s),
        0 <= i < s.len(),
    ensures
        entries_map(s.remove(i)) == entries_map(s).remove(s[i].0@),
    decreases s,
{
    if i == s.len() - 1 {
        assert(s.remove(i) =~= s.drop_last());
        lemma_entries_map_contains(s.drop_last());
        assert forall|a: int|
            0 <= a < s.drop_last().len() implies (#[trigger] s.drop_last()[a]).0@ != s[i].0@ by {
            assert(s[a] == s.drop_last()[a]);
        }
        assert(!entries_map(s.drop_last()).contains_key(s[i].0@));
        assert(entries_map(s.drop_last()).insert(s[i].0@, s[i].1@).remove(s[i].0@) =~= entries_map(
            s.drop_last(),
        ));
    } else {
        let dl = s.drop_last();
        assert(keys_unique(dl)) by {
            assert forall|a: int, b: int|
                0 <= a < b < dl.len() implies (#[trigger] dl[a]).0@ != (#[trigger] dl[b]).0@ by {
                assert(s[a] == dl[a] && s[b] == dl[b]);
            }
        }
        lemma_entries_map_remove(dl, i);
        assert(s.remove(i).drop_last() =~= dl.remove(i));
        assert(s.remove(i).last() == s.last());
        assert(dl[i] == s[i]);
        assert(s[i].0@ != s.last().0@);
        assert(entries_map(dl).remove(s[i].0@).insert(s.last().0@, s.last().1@) =~= entries_map(
            dl,
        ).insert(s.last().0@, s.last().1@).remove(s[i].0@));
    }
}

/// The store itself. Mutated only through `set` and `delete`; read through
/// `get` and `get_all_keys`.
#[derive(Debug)]
pub struct Store {
    data: Vec<(Vec<u8>, StoreValue)>,
}

impl View for Store {
    type V = Map<Seq<u8>, SpecStoreValue>;

    closed spec fn view(&self) -> Map<Seq<u8>, SpecStoreValue> {
        entries_map(self.data@)
    }
}

impl Default for Store {
    /// An empty store.
    fn default() -> (r: Store)
        ensures
            r@ == Map::<Seq<u8>, SpecStoreValue>::empty(),
            r.wf(),
    {
        Store { data: Vec::new() }
    }
}

/// The index of the pair holding `key`, if one does.
fn find_key_index(data: &Vec<(Vec<u8>, StoreValue)>, key: &Vec<u8>) -> (r: Option<usize>)
    ensures
        match r {
            Some(i) => i < data@.len() && data@[i as int].0@ == key@,
            None => forall|i: int| 0 <= i < data@.len() ==> (#[trigger] data@[i]).0@ != key@,
        },
{
    let mut i: usize = 0;
    while i < data.len()
        invariant
            0 <= i <= data@.len(),
            forall|j: int| 0 <= j < i ==> (#[trigger] data@[j]).0@ != key@,
        decreases data@.len() - i,
    {
        if bytes_eq(&data[i].0, key) {
            return Some(i);
        }
        i = i + 1;
    }
    None
}

impl Store {
    /// An empty store.
    pub fn new() -> (r: Store)
        ensures
            r@ == Map::<Seq<u8>, SpecStoreValue>::empty(),
            r.wf(),
    {
        Store { data: Vec::new() }
    }

    /// The store's keys are unique; every store this module hands out
    /// satisfies this, and every mutation preserves it.
    pub closed spec fn wf(&self) -> bool {
        keys_unique(self.data@)
    }

    /// Binds `key` to `value`, replacing any earlier entry whole.
    pub fn set(&mut self, key: &Vec<u8>, value: StoreValue)
        requires
            old(self).wf(),
        ensures
            final(self).wf(),
            final(self)@ == old(self)@.insert(key@, value@),
    {
        let ghost s0 = self.data@;
        match find_key_index(&self.data, key) {
            Some(i) => {
                proof {
                    lemma_entries_map_remove(s0, i as int);
                }
                let _ = self.data.remove(i);
                let ghost s1 = self.data@;
                proof {
                    assert(keys_unique(s1)) by {
                        assert forall|a: int, b: int|
                            0 <= a < b < s1.len() implies (#[trigger] s1[a]).0@ != (
                        #[trigger] s1[b]).0@ by {
                            if b < i as int {
                                assert(s1[a] == s0[a] && s1[b] == s0[b]);
                            } else if a < i as int {
                                assert(s1[a] == s0[a] && s1[b] == s0[b + 1]);
                            } else {
                                assert(s1[a] == s0[a + 1] && s1[b] == s0[b + 1]);
                            }
                        }
                    }
                    assert forall|a: int|
                        0 <= a < s1.len() implies (#[trigger] s1[a]).0@ != key@ by {
                        if a < i as int {
                            assert(s1[a] == s0[a]);
                        } else {
                            assert(s1[a] == s0[a + 1]);
                        }
                    }
                }
                self.data.push((clone_bytes(key), value));
                proof {
                    assert(self.data@.drop_last() =~= s1);
                    assert(entries_map(self.data@) =~= old(self)@.insert(key@, value@));
                }
            },
            None => {
                self.data.push((clone_bytes(key), value));
                proof {
                    assert(self.data@.drop_last() =~= s0);
                    assert(entries_map(self.data@) =~= old(self)@.insert(key@, value@));
                }
            },
        }
    }

    /// A copy of the entry under `key`, if the mapping holds one. Expiration
    /// is the caller's concern: an expired entry is still returned here.
    pub fn get(&self, key: &Vec<u8>) -> (r: Option<StoreValue>)
        requires
            self.wf(),
        ensures
            match r {
                Some(v) => self@.contains_key(key@) && v@ == self@[key@],
                None => !self@.contains_key(key@),
            },
    {
        match find_key_index(&self.data, key) {
            Some(i) => {
                proof {
                    lemma_entries_map_value(self.data@, i as int);
                }
                Some(clone_store_value(&self.data[i].1))
            },
            None => {
                proof {
                    lemma_entries_map_contains(self.data@);
                    assert(!seq_has_key(self.data@, key@));
                }
                None
            },
        }
    }

    /// Unbinds `key`; a missing key is left silently absent.
    pub fn delete(&mut self, key: &Vec<u8>)
        requires
            old(self).wf(),
        ensures
            final(self).wf(),
            final(self)@ == old(self)@.remove(key@),
    {
        let ghost s0 = self.data@;
        match find_key_index(&self.data, key) {
            Some(i) => {
                proof {
                    lemma_entries_map_remove(s0, i as int);
                }
                let _ = self.data.remove(i);
                let ghost s1 = self.data@;
                proof {
                    assert(keys_unique(s1)) by {
                        assert forall|a: int, b: int|
                            0 <= a < b < s1.len() implies (#[trigger] s1[a]).0@ != (
                        #[trigger] s1[b]).0@ by {
                            if b < i as int {
                                assert(s1[a] == s0[a] && s1[b] == s0[b]);
                            } else if a < i as int {
                                assert(s1[a] == s0[a] && s1[b] == s0[b + 1]);
                            } else {
                                assert(s1[a] == s0[a + 1] && s1[b] == s0[b + 1]);
                            }
                        }
                    }
                }
            },
            None => {
                proof {
                    lemma_entries_map_contains(s0);
                    assert(!seq_has_key(s0, key@));
                    assert(!old(self)@.contains_key(key@));
                    assert(old(self)@.remove(key@) =~= old(self)@);
                }
            },
        }
    }

    /// Pours every entry of `other` into this store; on a shared key the
    /// entry of `other` wins.
    pub fn merge_from(&mut self, other: &Store)
        requires
            old(self).wf(),
            other.wf(),
        ensures
            final(self).wf(),
            final(self)@ == old(self)@.union_prefer_right(other@),
    {
        proof {
            assert(entries_map(other.data@.subrange(0, 0)) =~= Map::<
                Seq<u8>,
                SpecStoreValue,
            >::empty());
            assert(old(self)@.union_prefer_right(entries_map(other.data@.subrange(0, 0)))
                =~= old(self)@);
        }
        let mut i: usize = 0;
        while i < other.data.len()
            invariant
                self.wf(),
                other.wf(),
                0 <= i <= other.data@.len(),
                self@ == old(self)@.union_prefer_right(
                    entries_map(other.data@.subrange(0, i as int)),
                ),
            decreases other.data@.len() - i,
        {
            let ghost pre = other.data@.subrange(0, i as int);
            let entry = clone_store_value(&other.data[i].1);
            self.set(&other.data[i].0, entry);
            proof {
                let k = other.data@[i as int].0@;
                let v = other.data@[i as int].1@;
                assert(other.data@.subrange(0, i + 1).drop_last() =~= pre);
                assert(other.data@.subrange(0, i + 1).last() == other.data@[i as int]);
                assert(entries_map(other.data@.subrange(0, i + 1)) == entries_map(pre).insert(
                    k,
                    v,
                ));
                assert(old(self)@.union_prefer_right(entries_map(pre)).insert(k, v)
                    =~= old(self)@.union_prefer_right(entries_map(pre).insert(k, v)));
            }
            i = i + 1;
        }
        proof {
            assert(other.data@.subrange(0, other.data@.len() as int) =~= other.data@);
        }
    }

    /// A copy of every key now bound, each exactly once, in no promised
    /// order.
    pub fn get_all_keys(&self) -> (r: Vec<Vec<u8>>)
        requires
            self.wf(),
        ensures
            forall|i: int| 0 <= i < r@.len() ==> self@.contains_key((#[trigger] r@[i])@),
            forall|k: Seq<u8>|
                #[trigger] self@.contains_key(k) ==> exists|i: int|
                    0 <= i < r@.len() && (#[trigger] r@[i])@ == k,
            forall|i: int, j: int|
                0 <= i < j < r@.len() ==> (#[trigger] r@[i])@ != (#[trigger] r@[j])@,
    {
        let mut out: Vec<Vec<u8>> = Vec::new();
        let mut i: usize = 0;
        while i < self.data.len()
            invariant
                0 <= i <= self.data@.len(),
                out@.len() == i,
                forall|j: int| 0 <= j < i ==> (#[trigger] out@[j])@ == self.data@[j].0@,
            decreases self.data@.len() - i,
        {
            out.push(clone_bytes(&self.data[i].0));
            i = i + 1;
        }
        proof {
            lemma_entries_map_contains(self.data@);
            assert forall|k: Seq<u8>| #[trigger]
                self@.contains_key(k) implies exists|j: int|
                0 <= j < out@.len() && (#[trigger] out@[j])@ == k by {
                assert(seq_has_key(self.data@, k));
                let j = choose|j: int| 0 <= j < self.data@.len() && (#[trigger] self.data@[j]).0@
                    == k;
                assert((out@[j])@ == k);
            }
        }
        out
    }
}

} // verus!
