//! In-memory hosts: a faithful storage harness, and a degenerate host.
//!
//! [`Storage`] implements both host capabilities over an in-memory record
//! list: every store call succeeds and every stored property is handed
//! back.  [`NullHost`] is the opposite extreme: its retrieve capability
//! reports a null data pointer for every key and its store capability
//! refuses every property.

use crate::alist::{
    alist_map, find_key, keys_unique, lemma_alist_absent, lemma_alist_at, lemma_alist_push,
    lemma_alist_remove, lemma_unique_push, lemma_unique_remove,
};
use crate::host::{StateHost, StoredProperty};
use vstd::prelude::*;
use vstd::slice::slice_to_vec;

verus! {

/// One record of the in-memory storage.
pub struct StoredRecord {
    /// The type identifier the committing side declared.
    pub type_id: u32,
    /// The flag bitmask the committing side asserted.
    pub flags: u32,
    /// The payload bytes.
    pub data: Vec<u8>,
}

impl View for StoredRecord {
    type V = StoredProperty;

    open spec fn view(&self) -> StoredProperty {
        StoredProperty { type_id: self.type_id, flags: self.flags, data: self.data@ }
    }
}

/// A faithful in-memory host, keyed by property key.
pub struct Storage {
    entries: Vec<(u32, StoredRecord)>,
}

impl Storage {
    /// Create an empty storage.
    pub fn new() -> (r: Storage)
        ensures
            r.inv(),
            r.contents() == Map::<u32, StoredProperty>::empty(),
    {
        let r = Storage { entries: Vec::new() };
        proof {
            assert(alist_map(r.entries@) =~= Map::<u32, StoredProperty>::empty());
        }
        r
    }

    /// The stored keys, one per property, in storage order.
    pub fn keys(&self) -> (r: Vec<u32>)
        requires
            self.inv(),
        ensures
            r@.no_duplicates(),
            forall|k: u32| #[trigger] r@.contains(k) <==> self.contents().contains_key(k),
    {
        let mut r: Vec<u32> = Vec::new();
        let mut i: usize = 0;
        while i < self.entries.len()
            invariant
                i <= self.entries@.len(),
                r@.len() == i,
                forall|j: int| 0 <= j < i ==> r@[j] == self.entries@[j].0,
            decreases self.entries@.len() - i,
        {
            r.push(self.entries[i].0);
            i = i + 1;
        }
        proof {
            assert forall|k: u32| #[trigger] r@.contains(k) implies self.contents().contains_key(
                k,
            ) by {
                let j = choose|j: int| 0 <= j < r@.len() && r@[j] == k;
                lemma_alist_at::<StoredRecord>(self.entries@, j);
            }
            assert forall|k: u32| self.contents().contains_key(k) implies #[trigger] r@.contains(
                k,
            ) by {
                if !r@.contains(k) {
                    assert forall|j: int| 0 <= j < self.entries@.len() implies self.entries@[j].0
                        != k by {
                        assert(r@[j] == self.entries@[j].0);
                    }
                    lemma_alist_absent::<StoredRecord>(self.entries@, k);
                }
            }
        }
        r
    }

    /// The record stored under `key`: its type, its flags and a copy of
    /// its bytes.
    pub fn get(&self, key: u32) -> (r: Option<(u32, u32, Vec<u8>)>)
        requires
            self.inv(),
        ensures
            match r {
                Some(p) => self.contents().contains_key(key) && self.contents()[key]
                    == (StoredProperty { type_id: p.0, flags: p.1, data: p.2@ }),
                None => !self.contents().contains_key(key),
            },
    {
        match find_key(&self.entries, key) {
            Some(i) => {
                proof {
                    lemma_alist_at::<StoredRecord>(self.entries@, i as int);
                }
                let rec = &self.entries[i].1;
                Some((rec.type_id, rec.flags, slice_to_vec(rec.data.as_slice())))
            },
            None => {
                proof {
                    lemma_alist_absent::<StoredRecord>(self.entries@, key);
                }
                None
            },
        }
    }
}

impl Default for Storage {
    /// An empty storage.
    fn default() -> (r: Storage)
        ensures
            r.inv(),
            r.contents() == Map::<u32, StoredProperty>::empty(),
    {
        Storage::new()
    }
}

impl StateHost for Storage {
    /// The record keys are pairwise distinct.
    closed spec fn inv(&self) -> bool {
        keys_unique(self.entries@)
    }

    closed spec fn contents(&self) -> Map<u32, StoredProperty> {
        alist_map(self.entries@)
    }

    /// This storage records every property it is handed.
    open spec fn store_always_succeeds(&self) -> bool {
        true
    }

    /// Record the property, replacing any prior record for the key, and
    /// report success.
    fn store(&mut self, key: u32, type_id: u32, data: &Vec<u8>, flags: u32) -> (status: u32) {
        let ghost s0 = self.entries@;
        match find_key(&self.entries, key) {
            Some(i) => {
                proof {
                    lemma_alist_remove::<StoredRecord>(s0, i as int);
                    lemma_unique_remove::<StoredRecord>(s0, i as int);
                }
                let _ = self.entries.remove(i);
            },
            None => {},
        }
        let rec = StoredRecord { type_id, flags, data: slice_to_vec(data.as_slice()) };
        proof {
            lemma_unique_push(self.entries@, key, rec);
            lemma_alist_push(self.entries@, key, rec);
        }
        self.entries.push((key, rec));
        proof {
            assert(alist_map(self.entries@) =~= alist_map(s0).insert(
                key,
                StoredProperty { type_id, flags, data: data@ },
            ));
        }
        0
    }

    /// Hand the recorded type and a copy of the recorded bytes back.
    fn retrieve_raw(&self, key: u32) -> (r: Option<(u32, Vec<u8>)>) {
        match find_key(&self.entries, key) {
            Some(i) => {
                proof {
                    lemma_alist_at::<StoredRecord>(self.entries@, i as int);
                }
                let rec = &self.entries[i].1;
                Some((rec.type_id, slice_to_vec(rec.data.as_slice())))
            },
            None => {
                proof {
                    lemma_alist_absent::<StoredRecord>(self.entries@, key);
                }
                None
            },
        }
    }
}

/// A host whose retrieve capability reports a null data pointer for every
/// key and whose store capability refuses every property.
pub struct NullHost {}

impl StateHost for NullHost {
    open spec fn inv(&self) -> bool {
        true
    }

    open spec fn contents(&self) -> Map<u32, StoredProperty> {
        Map::empty()
    }

    /// Refuse the property with a non-zero status.
    fn store(&mut self, key: u32, type_id: u32, data: &Vec<u8>, flags: u32) -> (status: u32) {
        1
    }

    /// Report a null data pointer.
    fn retrieve_raw(&self, key: u32) -> (r: Option<(u32, Vec<u8>)>) {
        None
    }
}

} // verus!
