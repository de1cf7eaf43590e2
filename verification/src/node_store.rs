//! Content-addressed storage of raw payloads, looked up by digest.

use crate::hash::bytes_equal;
use vstd::prelude::*;

verus! {

/// A map from digest to the payload stored under it.
///
/// The entries are kept in the order in which their digests first
/// arrived; no digest occurs twice.
#[derive(Debug)]
pub struct NodeStore {
    entries: Vec<(Vec<u8>, Vec<u8>)>,
}

impl View for NodeStore {
    type V = Map<Seq<u8>, Seq<u8>>;

    closed spec fn view(&self) -> Map<Seq<u8>, Seq<u8>> {
        Map::new(
            |digest: Seq<u8>| self.holds(digest),
            |digest: Seq<u8>| self.payload_at(self.position(digest)),
        )
    }
}

impl NodeStore {
    /// Number of stored entries.
    pub closed spec fn count(&self) -> nat {
        self.entries@.len()
    }

    /// The digest of the `i`-th entry.
    pub closed spec fn key_at(&self, i: int) -> Seq<u8> {
        self.entries@[i].0@
    }

    /// The payload of the `i`-th entry.
    pub closed spec fn payload_at(&self, i: int) -> Seq<u8> {
        self.entries@[i].1@
    }

    /// Whether some entry is stored under `digest`.
    pub closed spec fn holds(&self, digest: Seq<u8>) -> bool {
        exists|i: int| 0 <= i < self.count() && #[trigger] self.key_at(i) == digest
    }

    /// The index of the entry stored under `digest`, where there is one.
    pub closed spec fn position(&self, digest: Seq<u8>) -> int {
        choose|i: int| 0 <= i < self.count() && #[trigger] self.key_at(i) == digest
    }

    #[verifier::type_invariant]
    spec fn keys_distinct(&self) -> bool {
        forall|i: int, j: int|
            0 <= i < j < self.count() ==> #[trigger] self.key_at(i) != #[trigger] self.key_at(j)
    }

    /// Every entry is found in the view under its own digest.
    proof fn lemma_entry_in_view(&self, i: int)
        requires
            0 <= i < self.count(),
            self.keys_distinct(),
        ensures
            self@.dom().contains(self.key_at(i)),
            self@[self.key_at(i)] == self.payload_at(i),
    {
    }

    /// An empty store.
    pub fn new() -> (store: Self)
        ensures
            store@ == Map::<Seq<u8>, Seq<u8>>::empty(),
            store.count() == 0,
    {
        NodeStore { entries: Vec::new() }
    }

    /// Number of stored entries.
    pub fn len(&self) -> (n: usize)
        ensures
            n == self.count(),
    {
        self.entries.len()
    }

    /// The `i`-th entry in order of first arrival: its digest and payload.
    pub fn entry(&self, i: usize) -> (found: Option<(&Vec<u8>, &Vec<u8>)>)
        ensures
            i >= self.count() ==> found is None,
            i < self.count() ==> (found matches Some(pair) && pair.0@ == self.key_at(i as int)
                && pair.1@ == self.payload_at(i as int) && self@.dom().contains(pair.0@)
                && self@[pair.0@] == pair.1@),
    {
        if i < self.entries.len() {
            proof {
                use_type_invariant(self);
                self.lemma_entry_in_view(i as int);
            }
            Some((&self.entries[i].0, &self.entries[i].1))
        } else {
            None
        }
    }

    /// The payload stored under `digest`, if any.
    pub fn get(&self, digest: &[u8]) -> (found: Option<&Vec<u8>>)
        ensures
            match found {
                Some(payload) => self@.dom().contains(digest@) && self@[digest@] == payload@,
                None => !self@.dom().contains(digest@),
            },
    {
        let mut i: usize = 0;
        while i < self.entries.len()
            invariant
                i <= self.count(),
                forall|j: int| 0 <= j < i ==> self.key_at(j) != digest@,
            decreases self.count() - i,
        {
            if bytes_equal(self.entries[i].0.as_slice(), digest) {
                proof {
                    use_type_invariant(self);
                    self.lemma_entry_in_view(i as int);
                }
                return Some(&self.entries[i].1);
            }
            i += 1;
        }
        None
    }

    /// Stores `payload` under `digest`, in place of what was stored under
    /// it before.
    pub fn insert(&mut self, digest: Vec<u8>, payload: Vec<u8>)
        ensures
            final(self)@ == old(self)@.insert(digest@, payload@),
    {
        proof {
            use_type_invariant(&*self);
        }
        let ghost before = *self;
        let ghost key = digest@;
        let ghost value = payload@;
        let mut entries: Vec<(Vec<u8>, Vec<u8>)> = Vec::new();
        core::mem::swap(&mut self.entries, &mut entries);
        let mut i: usize = 0;
        let mut found: bool = false;
        while i < entries.len() && !found
            invariant
                entries == before.entries,
                i <= entries@.len(),
                !found ==> forall|j: int| 0 <= j < i ==> before.key_at(j) != digest@,
                found ==> i < entries@.len() && before.key_at(i as int) == digest@,
            decreases entries@.len() - i + (if found { 0int } else { 1int }),
        {
            if bytes_equal(entries[i].0.as_slice(), digest.as_slice()) {
                found = true;
            } else {
                i += 1;
            }
        }
        if found {
            entries[i] = (digest, payload);
        } else {
            entries.push((digest, payload));
        }
        let ghost after = NodeStore { entries };
        proof {
            assert forall|a: int, b: int| 0 <= a < b < after.count() implies after.key_at(a)
                != after.key_at(b) by {
                if a < before.count() {
                    assert(after.key_at(a) == before.key_at(a));
                }
                if b < before.count() {
                    assert(after.key_at(b) == before.key_at(b));
                }
            }
            if found {
                lemma_after_replace(before, after, i as int, key, value);
            } else {
                lemma_after_append(before, after, key, value);
            }
        }
        core::mem::swap(&mut self.entries, &mut entries);
    }
}

/// Replacing the payload of the entry stored under `key` updates the view
/// at `key` and nowhere else.
proof fn lemma_after_replace(
    before: NodeStore,
    after: NodeStore,
    i: int,
    key: Seq<u8>,
    value: Seq<u8>,
)
    requires
        before.keys_distinct(),
        after.keys_distinct(),
        0 <= i < before.count(),
        before.key_at(i) == key,
        after.entries@ == before.entries@.update(i, after.entries@[i]),
        after.key_at(i) == key,
        after.payload_at(i) == value,
    ensures
        after@ == before@.insert(key, value),
{
    let expected = before@.insert(key, value);
    assert forall|d: Seq<u8>| after@.dom().contains(d) <==> expected.dom().contains(d) by {
        if after.holds(d) {
            let p = after.position(d);
            assert(before.key_at(p) == d);
        }
        if before.holds(d) {
            let p = before.position(d);
            assert(after.key_at(p) == d);
        }
    }
    assert forall|d: Seq<u8>| after@.dom().contains(d) implies after@[d] == expected[d] by {
        let p = after.position(d);
        after.lemma_entry_in_view(p);
        if d != key {
            before.lemma_entry_in_view(p);
        }
    }
}

/// Appending an entry under a digest that was not stored yet adds it to
/// the view and changes nothing else.
proof fn lemma_after_append(before: NodeStore, after: NodeStore, key: Seq<u8>, value: Seq<u8>)
    requires
        before.keys_distinct(),
        after.keys_distinct(),
        forall|j: int| 0 <= j < before.count() ==> before.key_at(j) != key,
        after.entries@.len() == before.entries@.len() + 1,
        forall|j: int| 0 <= j < before.count() ==> after.entries@[j] == before.entries@[j],
        after.key_at(before.count() as int) == key,
        after.payload_at(before.count() as int) == value,
    ensures
        after@ == before@.insert(key, value),
{
    let expected = before@.insert(key, value);
    let last = before.count() as int;
    assert forall|d: Seq<u8>| after@.dom().contains(d) <==> expected.dom().contains(d) by {
        if after.holds(d) {
            let p = after.position(d);
            if p < last {
                assert(before.key_at(p) == d);
            }
        }
        if before.holds(d) {
            let p = before.position(d);
            assert(after.key_at(p) == d);
        }
    }
    assert forall|d: Seq<u8>| after@.dom().contains(d) implies after@[d] == expected[d] by {
        let p = after.position(d);
        after.lemma_entry_in_view(p);
        if p < last {
            before.lemma_entry_in_view(p);
        }
    }
}

} // verus!
