//! The storage capabilities a host supplies.
//!
//! A host persists `(key, type, bytes)` triples and hands them back by key.
//! This crate never holds the storage itself: it only talks to it through
//! the [`StateHost`] trait, whose two methods model the host's store and
//! retrieve callbacks.  Either capability may be absent; the handles model
//! that by holding `None` instead of a host value.

use vstd::prelude::*;

verus! {

/// Flag bit asserting that a stored value is plain, self-contained data.
pub const FLAG_IS_POD: u32 = 1;

/// Flag bit asserting that a stored value may be copied across hosts.
pub const FLAG_IS_PORTABLE: u32 = 2;

/// What a host records for one committed property.
pub ghost struct StoredProperty {
    /// The type identifier the committing side declared.
    pub type_id: u32,
    /// The flag bitmask the committing side asserted.
    pub flags: u32,
    /// The payload bytes.
    pub data: Seq<u8>,
}

/// A host's pair of storage callbacks.
///
/// `contents` is the abstract mapping the host's storage holds; each
/// implementation says what its own mapping is.  A store call that reports
/// success has recorded exactly the triple it was handed; one that reports
/// a non-zero status has changed nothing.  A retrieve call hands back the
/// recorded type and bytes, or `None` — which models a null data pointer —
/// exactly when the key has no record.
pub trait StateHost {
    /// The invariant the host's own representation maintains; free unless
    /// the implementation says otherwise.
    open spec fn inv(&self) -> bool {
        true
    }

    /// The mapping the host's storage currently holds; empty unless the
    /// implementation says otherwise.
    open spec fn contents(&self) -> Map<u32, StoredProperty> {
        Map::empty()
    }

    /// Whether this host's store capability always reports success; no
    /// promise unless the implementation says otherwise.
    open spec fn store_always_succeeds(&self) -> bool {
        false
    }

    /// Persist one property; the returned status is zero for success and a
    /// host-chosen error code otherwise.
    fn store(&mut self, key: u32, type_id: u32, data: &Vec<u8>, flags: u32) -> (status: u32)
        requires
            old(self).inv(),
        ensures
            final(self).inv(),
            status == 0 ==> final(self).contents() == old(self).contents().insert(
                key,
                StoredProperty { type_id, flags, data: data@ },
            ),
            status != 0 ==> final(self).contents() == old(self).contents(),
            old(self).store_always_succeeds() ==> status == 0,
            final(self).store_always_succeeds() == old(self).store_always_succeeds(),
    ;

    /// Look one property up; `None` models a null data pointer.
    fn retrieve_raw(&self, key: u32) -> (r: Option<(u32, Vec<u8>)>)
        requires
            self.inv(),
        ensures
            match r {
                Some(p) => self.contents().contains_key(key) && self.contents()[key].type_id
                    == p.0 && self.contents()[key].data == p.1@,
                None => !self.contents().contains_key(key),
            },
    ;
}

} // verus!
