//! The retrieve-side view: typed, bounded reads of host-held state.
//!
//! A [`RawRetrieveHandle`] wraps the host's retrieve capability.  Each call
//! either produces a fresh [`StatePropertyReader`] — the host-reported type
//! identifier paired with the retrieved bytes — or reports absence.  The
//! payload is not decoded here; interpretation is deferred to the reader's
//! typed methods, parameterized by the type the caller expects.

use crate::codec::{bytes_to_ints, read_le32, spec_read_int, spec_read_vector};
use crate::host::{StateHost, StoredProperty};
use vstd::prelude::*;

verus! {

/// A typed read view: a type identifier and the bytes it describes.
///
/// The view owns a copy of the retrieved bytes, so nothing here can outlive
/// the memory the host reported.
pub struct StatePropertyReader {
    type_id: u32,
    data: Vec<u8>,
}

impl StatePropertyReader {
    /// The type identifier the view carries.
    pub closed spec fn spec_type_id(&self) -> u32 {
        self.type_id
    }

    /// The bytes the view carries.
    pub closed spec fn spec_bytes(&self) -> Seq<u8> {
        self.data@
    }

    /// Pair host-reported bytes with the host-reported type identifier.
    pub fn new(type_id: u32, data: Vec<u8>) -> (r: Self)
        ensures
            r.spec_type_id() == type_id,
            r.spec_bytes() == data@,
    {
        StatePropertyReader { type_id, data }
    }

    /// The type identifier the view carries.
    pub fn type_id(&self) -> (r: u32)
        ensures
            r == self.spec_type_id(),
    {
        self.type_id
    }

    /// The bytes the view carries.
    pub fn bytes(&self) -> (r: &Vec<u8>)
        ensures
            r@ == self.spec_bytes(),
    {
        &self.data
    }

    /// Read the view as one 32-bit integer of the expected type.
    pub fn read_int(&self, expected_type: u32) -> (r: Option<i32>)
        ensures
            r == spec_read_int(self.spec_type_id(), self.spec_bytes(), expected_type),
    {
        if self.type_id == expected_type && self.data.len() == 4 {
            let w = read_le32(&self.data, 0);
            proof {
                assert(self.data@.subrange(0, 4) =~= self.data@);
            }
            Some(#[verifier::truncate] (w as i32))
        } else {
            None
        }
    }

    /// Read the view as a vector of 32-bit integers of the expected vector
    /// and element types.
    #[verifier::loop_isolation(false)]
    pub fn read_vector(&self, vector_type: u32, child_type: u32) -> (r: Option<Vec<i32>>)
        ensures
            r is Some <==> spec_read_vector(
                self.spec_type_id(),
                self.spec_bytes(),
                vector_type,
                child_type,
            ) is Some,
            r matches Some(v) ==> spec_read_vector(
                self.spec_type_id(),
                self.spec_bytes(),
                vector_type,
                child_type,
            ) == Some(v@),
    {
        if self.type_id != vector_type {
            return None;
        }
        let n = self.data.len();
        if n < 8 {
            return None;
        }
        let child_size = read_le32(&self.data, 0);
        let ct = read_le32(&self.data, 4);
        if child_size != 4 || ct != child_type {
            return None;
        }
        if (n - 8) % 4 != 0 {
            return None;
        }
        let mut out: Vec<i32> = Vec::new();
        let mut j: usize = 8;
        while j < n
            invariant
                8 <= j <= n,
                (n - j) % 4 == 0,
                out@ == bytes_to_ints(self.data@.subrange(8, j as int)),
            decreases n - j,
        {
            let w = read_le32(&self.data, j);
            out.push(#[verifier::truncate] (w as i32));
            proof {
                let b = self.data@.subrange(8, j + 4);
                assert(b.len() >= 4);
                assert(b.take(b.len() - 4) =~= self.data@.subrange(8, j as int));
                assert(b.skip(b.len() - 4) =~= self.data@.subrange(j as int, j + 4));
            }
            j = j + 4;
        }
        proof {
            assert(self.data@.subrange(8, n as int) =~= self.data@.skip(8));
        }
        Some(out)
    }
}

/// A handle wrapping the host's retrieve capability for one load session.
pub struct RawRetrieveHandle<S: StateHost> {
    host: Option<S>,
}

impl<S: StateHost> RawRetrieveHandle<S> {
    /// The host capability the handle was created with.
    pub closed spec fn spec_host(&self) -> Option<S> {
        self.host
    }

    /// Whether the host supplied a retrieve capability.
    pub open spec fn has_retrieve_fn(&self) -> bool {
        self.spec_host() is Some
    }

    /// The mapping the host's storage holds.
    pub open spec fn host_contents(&self) -> Map<u32, StoredProperty>
        recommends
            self.has_retrieve_fn(),
    {
        self.spec_host()->Some_0.contents()
    }

    /// The handle's internal invariant.
    pub closed spec fn wf(&self) -> bool {
        self.host matches Some(h) ==> h.inv()
    }

    /// Create a new retrieve handle around the host's retrieve capability,
    /// or around `None` when the host supplied no retrieve function.
    pub fn new(host: Option<S>) -> (r: Self)
        requires
            host matches Some(h) ==> h.inv(),
        ensures
            r.wf(),
            r.spec_host() == host,
    {
        RawRetrieveHandle { host }
    }

    /// Tear the handle down, handing the host capability back.
    pub fn into_host(self) -> (r: Option<S>)
        ensures
            r == self.spec_host(),
            self.wf() ==> (r matches Some(h) ==> h.inv()),
    {
        self.host
    }

    /// Retrieve the property stored under `key` as a typed read view.
    ///
    /// Fails soft — returns `None` — when the host supplied no retrieve
    /// function, when the host reports a null data pointer, and when the
    /// reported type identifier does not resolve to a valid interned
    /// identifier (zero is no valid identifier).
    pub fn retrieve(&self, key: u32) -> (r: Option<StatePropertyReader>)
        requires
            self.wf(),
        ensures
            match r {
                Some(view) => self.has_retrieve_fn() && self.host_contents().contains_key(key)
                    && self.host_contents()[key].type_id != 0 && view.spec_type_id()
                    == self.host_contents()[key].type_id && view.spec_bytes()
                    == self.host_contents()[key].data,
                None => !self.has_retrieve_fn() || !self.host_contents().contains_key(key)
                    || self.host_contents()[key].type_id == 0,
            },
    {
        let host_ref = match &self.host {
            Some(h) => h,
            None => {
                return None;
            },
        };
        match host_ref.retrieve_raw(key) {
            None => None,
            Some(p) => {
                let (type_id, data) = p;
                if type_id == 0 {
                    return None;
                }
                Some(StatePropertyReader::new(type_id, data))
            },
        }
    }
}

} // verus!
