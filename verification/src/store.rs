//! The store-side buffer: draft, write, commit, discard.
//!
//! A [`RawStoreHandle`] accumulates drafted properties in memory, one per
//! key, and commits one or all of them by validating their encoded form and
//! invoking the host's store capability.  Committing is manual: a draft
//! that is neither committed nor discarded never reaches the host.

use crate::alist::{
    alist_map, find_key, keys_unique, lemma_alist_absent, lemma_alist_at, lemma_alist_contains,
    lemma_alist_push, lemma_alist_remove, lemma_unique_push, lemma_unique_remove,
};
use crate::codec::{
    atom_payload, atom_size, atom_type, grow_atom, int_atom, ints_to_bytes,
    lemma_ints_to_bytes_len, proof_u32_to_le_bytes, push_le32, raw_atom, read_le32, split_atom,
    valid_atom, vector_atom, vector_payload,
};
use crate::errors::StateErr;
use crate::host::{StateHost, StoredProperty, FLAG_IS_POD, FLAG_IS_PORTABLE};
use vstd::bytes::spec_u32_to_le_bytes;
use vstd::prelude::*;
use vstd::slice::slice_to_vec;

verus! {

/// What a committed draft hands the host: the header-declared type, the
/// fixed flag bitmask, and exactly the header-declared payload bytes.
pub open spec fn stored_entry(d: Seq<u8>) -> StoredProperty {
    StoredProperty {
        type_id: atom_type(d),
        flags: FLAG_IS_POD | FLAG_IS_PORTABLE,
        data: atom_payload(d),
    }
}

/// A handle to abstract state storage.
///
/// The handle buffers written properties and flushes them at once.  Create
/// new properties by calling [`draft`](Self::draft), fill them with the
/// writing methods, and commit them with [`commit_all`](Self::commit_all)
/// or [`commit`](Self::commit).  Committing is manual: uncommitted
/// properties are discarded when the handle is torn down.
pub struct RawStoreHandle<S: StateHost> {
    drafts: Vec<(u32, Vec<u8>)>,
    host: Option<S>,
}

impl<S: StateHost> RawStoreHandle<S> {
    /// The drafted properties, keyed by property key.
    pub closed spec fn drafts(&self) -> Map<u32, Seq<u8>> {
        alist_map(self.drafts@)
    }

    /// The host capability the handle was created with.
    pub closed spec fn spec_host(&self) -> Option<S> {
        self.host
    }

    /// Whether the host supplied a store capability.
    pub open spec fn has_store_fn(&self) -> bool {
        self.spec_host() is Some
    }

    /// The mapping the host's storage holds.
    pub open spec fn host_contents(&self) -> Map<u32, StoredProperty>
        recommends
            self.has_store_fn(),
    {
        self.spec_host()->Some_0.contents()
    }

    /// Whether the handle holds a store capability that always reports
    /// success.
    pub open spec fn host_always_succeeds(&self) -> bool {
        self.spec_host() matches Some(h) && h.store_always_succeeds()
    }

    /// The handle's internal invariant.
    pub closed spec fn wf(&self) -> bool {
        &&& keys_unique(self.drafts@)
        &&& (self.host matches Some(h) ==> h.inv())
    }

    /// Create a new store handle around the host's store capability, or
    /// around `None` when the host supplied no store function.
    pub fn new(host: Option<S>) -> (r: Self)
        requires
            host matches Some(h) ==> h.inv(),
        ensures
            r.wf(),
            r.drafts() == Map::<u32, Seq<u8>>::empty(),
            r.spec_host() == host,
    {
        RawStoreHandle { drafts: Vec::new(), host }
    }

    /// Tear the handle down, handing the host capability back.
    ///
    /// Every draft still buffered is discarded and never reaches the host:
    /// committing is manual.
    pub fn into_host(self) -> (r: Option<S>)
        ensures
            r == self.spec_host(),
            self.wf() ==> (r matches Some(h) ==> h.inv()),
    {
        self.host
    }

    /// Replace the draft for `key` by the given buffer.
    fn put(&mut self, key: u32, value: Vec<u8>)
        requires
            old(self).wf(),
        ensures
            final(self).wf(),
            final(self).drafts() == old(self).drafts().insert(key, value@),
            final(self).spec_host() == old(self).spec_host(),
    {
        let ghost s0 = self.drafts@;
        let ghost v = value@;
        match find_key(&self.drafts, key) {
            Some(i) => {
                proof {
                    lemma_alist_remove::<Vec<u8>>(s0, i as int);
                    lemma_unique_remove::<Vec<u8>>(s0, i as int);
                }
                let _ = self.drafts.remove(i);
            },
            None => {},
        }
        proof {
            lemma_unique_push(self.drafts@, key, value);
            lemma_alist_push(self.drafts@, key, value);
        }
        self.drafts.push((key, value));
        proof {
            assert(alist_map(self.drafts@) =~= alist_map(s0).insert(key, v));
        }
    }

    /// Insert an empty draft for `key`, replacing any prior draft for it.
    ///
    /// No host call occurs; the draft is only buffered.
    pub fn draft(&mut self, key: u32)
        requires
            old(self).wf(),
        ensures
            final(self).wf(),
            final(self).drafts() == old(self).drafts().insert(key, Seq::<u8>::empty()),
            final(self).spec_host() == old(self).spec_host(),
    {
        let buf: Vec<u8> = Vec::new();
        self.put(key, buf);
    }

    /// Write a complete container with the given type and payload into the
    /// draft for `key`.
    pub fn write_raw(&mut self, key: u32, type_id: u32, payload: &Vec<u8>)
        requires
            old(self).wf(),
            old(self).drafts().contains_key(key),
            payload@.len() <= u32::MAX,
        ensures
            final(self).wf(),
            final(self).drafts() == old(self).drafts().insert(key, raw_atom(type_id, payload@)),
            final(self).spec_host() == old(self).spec_host(),
    {
        let mut buf: Vec<u8> = Vec::new();
        push_le32(&mut buf, payload.len() as u32);
        push_le32(&mut buf, type_id);
        let mut pc = slice_to_vec(payload.as_slice());
        buf.append(&mut pc);
        proof {
            assert(buf@ =~= raw_atom(type_id, payload@));
        }
        self.put(key, buf);
    }

    /// Write a single 32-bit integer value into the draft for `key`.
    pub fn write_int(&mut self, key: u32, type_id: u32, value: i32)
        requires
            old(self).wf(),
            old(self).drafts().contains_key(key),
        ensures
            final(self).wf(),
            final(self).drafts() == old(self).drafts().insert(key, int_atom(type_id, value)),
            final(self).spec_host() == old(self).spec_host(),
    {
        let mut buf: Vec<u8> = Vec::new();
        push_le32(&mut buf, 4);
        push_le32(&mut buf, type_id);
        push_le32(&mut buf, #[verifier::truncate] (value as u32));
        proof {
            proof_u32_to_le_bytes();
            assert(buf@ =~= int_atom(type_id, value));
        }
        self.put(key, buf);
    }

    /// Begin a vector of 32-bit integers in the draft for `key`: the draft
    /// becomes an empty vector container of the given types.
    pub fn begin_vector(&mut self, key: u32, vector_type: u32, child_type: u32)
        requires
            old(self).wf(),
            old(self).drafts().contains_key(key),
        ensures
            final(self).wf(),
            final(self).drafts() == old(self).drafts().insert(
                key,
                vector_atom(vector_type, child_type, Seq::<i32>::empty()),
            ),
            final(self).spec_host() == old(self).spec_host(),
    {
        let mut payload: Vec<u8> = Vec::new();
        push_le32(&mut payload, 4);
        push_le32(&mut payload, child_type);
        proof {
            proof_u32_to_le_bytes();
            assert(payload@ =~= vector_payload(child_type, Seq::<i32>::empty()));
        }
        self.write_raw(key, vector_type, &payload);
    }

    /// Append elements to the vector drafted for `key`, growing the
    /// container's declared size to match.
    pub fn append_vector_ints(&mut self, key: u32, elems: &Vec<i32>)
        requires
            old(self).wf(),
            old(self).drafts().contains_key(key),
            old(self).drafts()[key].len() >= 8,
            atom_size(old(self).drafts()[key]) + 4 * elems@.len() <= u32::MAX,
            old(self).drafts()[key].len() + 4 * elems@.len() <= usize::MAX,
        ensures
            final(self).wf(),
            final(self).drafts() == old(self).drafts().insert(
                key,
                grow_atom(old(self).drafts()[key], ints_to_bytes(elems@)),
            ),
            final(self).spec_host() == old(self).spec_host(),
    {
        let ghost s0 = self.drafts@;
        let i = match find_key(&self.drafts, key) {
            Some(i) => i,
            None => {
                proof {
                    lemma_alist_contains::<Vec<u8>>(self.drafts@, key);
                }
                vstd::pervasive::unreached()
            },
        };
        proof {
            lemma_alist_at::<Vec<u8>>(s0, i as int);
            lemma_alist_remove::<Vec<u8>>(s0, i as int);
            lemma_unique_remove::<Vec<u8>>(s0, i as int);
        }
        let (_k0, buf) = self.drafts.remove(i);
        let ghost b0 = buf@;
        let old_size = read_le32(&buf, 0);
        let new_size = old_size + 4 * (elems.len() as u32);
        let mut nb: Vec<u8> = Vec::new();
        push_le32(&mut nb, new_size);
        let buf_len = buf.len();
        let mut tail = slice_to_vec(vstd::slice::slice_subrange(buf.as_slice(), 4, buf_len));
        nb.append(&mut tail);
        proof {
            assert(nb@ =~= spec_u32_to_le_bytes(new_size) + b0.skip(4) + ints_to_bytes(
                elems@.subrange(0, 0),
            ));
        }
        let mut j: usize = 0;
        while j < elems.len()
            invariant
                j <= elems@.len(),
                nb@ == spec_u32_to_le_bytes(new_size) + b0.skip(4) + ints_to_bytes(
                    elems@.subrange(0, j as int),
                ),
            decreases elems@.len() - j,
        {
            push_le32(&mut nb, #[verifier::truncate] (elems[j] as u32));
            proof {
                let pre = elems@.subrange(0, j as int);
                let post = elems@.subrange(0, j + 1);
                assert(post.drop_last() =~= pre);
                assert(post.last() == elems@[j as int]);
                assert(nb@ =~= spec_u32_to_le_bytes(new_size) + b0.skip(4) + ints_to_bytes(post));
            }
            j = j + 1;
        }
        proof {
            assert(elems@.subrange(0, elems@.len() as int) =~= elems@);
            lemma_ints_to_bytes_len(elems@);
            assert(nb@ =~= grow_atom(b0, ints_to_bytes(elems@)));
        }
        self.put(key, nb);
        proof {
            assert(alist_map(s0).remove(key).insert(key, nb@) =~= alist_map(s0).insert(key, nb@));
        }
    }

    /// Discard the draft for `key`, if any, without invoking the host.
    pub fn discard(&mut self, key: u32)
        requires
            old(self).wf(),
        ensures
            final(self).wf(),
            final(self).drafts() == old(self).drafts().remove(key),
            final(self).spec_host() == old(self).spec_host(),
    {
        match find_key(&self.drafts, key) {
            Some(i) => {
                proof {
                    lemma_alist_remove::<Vec<u8>>(self.drafts@, i as int);
                    lemma_unique_remove::<Vec<u8>>(self.drafts@, i as int);
                }
                let _ = self.drafts.remove(i);
            },
            None => {
                proof {
                    lemma_alist_absent::<Vec<u8>>(self.drafts@, key);
                    assert(alist_map(self.drafts@).remove(key) =~= alist_map(self.drafts@));
                }
            },
        }
    }

    /// Discard every draft without invoking the host.
    pub fn discard_all(&mut self)
        requires
            old(self).wf(),
        ensures
            final(self).wf(),
            final(self).drafts() == Map::<u32, Seq<u8>>::empty(),
            final(self).spec_host() == old(self).spec_host(),
    {
        self.drafts = Vec::new();
        proof {
            assert(alist_map(self.drafts@) =~= Map::<u32, Seq<u8>>::empty());
        }
    }

    /// Validate one removed draft and hand it to the host's store
    /// capability: absent capability first, then header validation, then
    /// the call, whose status is translated into the error taxonomy.
    fn commit_pair(host: &mut Option<S>, key: u32, draft: Vec<u8>) -> (r: Result<(), StateErr>)
        requires
            (*old(host)) matches Some(h) ==> h.inv(),
        ensures
            ((*final(host)) matches Some(h) ==> h.inv()),
            (*old(host)) is Some <==> (*final(host)) is Some,
            (*old(host)) is None ==> r == Err::<(), StateErr>(StateErr::BadCallback)
                && *final(host) == *old(host),
            (*old(host)) is Some && !valid_atom(draft@) ==> r == Err::<(), StateErr>(
                StateErr::BadData,
            ) && *final(host) == *old(host),
            (*old(host)) is Some && valid_atom(draft@) ==> {
                let c0 = (*old(host))->Some_0.contents();
                let c1 = (*final(host))->Some_0.contents();
                &&& (r is Ok ==> c1 == c0.insert(key, stored_entry(draft@)))
                &&& (r matches Err(e) ==> e.is_host_err() && c1 == c0)
                &&& ((*old(host))->Some_0.store_always_succeeds() ==> r is Ok)
            },
            (*old(host)) is Some ==> (*final(host))->Some_0.store_always_succeeds()
                == (*old(host))->Some_0.store_always_succeeds(),
    {
        let host_ref = match host {
            Some(h) => h,
            None => {
                return Err(StateErr::BadCallback);
            },
        };
        match split_atom(&draft) {
            None => Err(StateErr::BadData),
            Some(p) => {
                let (type_id, payload) = p;
                let status = host_ref.store(key, type_id, &payload, FLAG_IS_POD | FLAG_IS_PORTABLE);
                StateErr::from(status)
            },
        }
    }

    /// Remove and commit the draft for `key`; `None` — distinct from
    /// success — when `key` was never drafted or was already committed or
    /// discarded.
    pub fn commit(&mut self, key: u32) -> (r: Option<Result<(), StateErr>>)
        requires
            old(self).wf(),
        ensures
            final(self).wf(),
            r is Some <==> old(self).drafts().contains_key(key),
            final(self).drafts() == old(self).drafts().remove(key),
            final(self).has_store_fn() <==> old(self).has_store_fn(),
            !old(self).drafts().contains_key(key) ==> *final(self) == *old(self),
            old(self).drafts().contains_key(key) && !old(self).has_store_fn() ==> r == Some(
                Err::<(), StateErr>(StateErr::BadCallback),
            ) && final(self).spec_host() == old(self).spec_host(),
            old(self).drafts().contains_key(key) && old(self).has_store_fn() ==> {
                let d = old(self).drafts()[key];
                let c0 = old(self).host_contents();
                let c1 = final(self).host_contents();
                &&& (!valid_atom(d) ==> r == Some(Err::<(), StateErr>(StateErr::BadData)) && c1
                    == c0)
                &&& (valid_atom(d) ==> {
                    &&& (r matches Some(Ok(_)) ==> c1 == c0.insert(key, stored_entry(d)))
                    &&& (r matches Some(Err(e)) ==> e.is_host_err() && c1 == c0)
                })
            },
            old(self).drafts().contains_key(key) && old(self).host_always_succeeds()
                && valid_atom(old(self).drafts()[key]) ==> r matches Some(Ok(_)),
            final(self).host_always_succeeds() == old(self).host_always_succeeds(),
    {
        match find_key(&self.drafts, key) {
            None => {
                proof {
                    lemma_alist_absent::<Vec<u8>>(self.drafts@, key);
                    assert(alist_map(self.drafts@).remove(key) =~= alist_map(self.drafts@));
                }
                None
            },
            Some(i) => {
                proof {
                    lemma_alist_at::<Vec<u8>>(self.drafts@, i as int);
                    lemma_alist_remove::<Vec<u8>>(self.drafts@, i as int);
                    lemma_unique_remove::<Vec<u8>>(self.drafts@, i as int);
                }
                let (k0, d) = self.drafts.remove(i);
                let r = Self::commit_pair(&mut self.host, k0, d);
                Some(r)
            },
        }
    }

    /// Commit every drafted property, removing each from the buffer as it
    /// is processed, and return the first error encountered.
    ///
    /// This is a best-effort batch, not a transaction: on an error the
    /// remaining drafts are discarded as well, nothing is retried and
    /// nothing is rolled back.  The order among properties is unspecified.
    #[verifier::loop_isolation(false)]
    pub fn commit_all(&mut self) -> (r: Result<(), StateErr>)
        requires
            old(self).wf(),
        ensures
            final(self).wf(),
            final(self).drafts() == Map::<u32, Seq<u8>>::empty(),
            final(self).has_store_fn() <==> old(self).has_store_fn(),
            old(self).drafts() == Map::<u32, Seq<u8>>::empty() ==> r == Ok::<(), StateErr>(())
                && (old(self).has_store_fn() ==> final(self).host_contents() == old(
                self,
            ).host_contents()),
            !old(self).has_store_fn() ==> final(self).spec_host() == old(self).spec_host() && r
                == (if old(self).drafts() == Map::<u32, Seq<u8>>::empty() {
                Ok::<(), StateErr>(())
            } else {
                Err::<(), StateErr>(StateErr::BadCallback)
            }),
            old(self).has_store_fn() ==> {
                let d = old(self).drafts();
                let c0 = old(self).host_contents();
                let c1 = final(self).host_contents();
                &&& (forall|k: u32| c0.contains_key(k) ==> #[trigger] c1.contains_key(k))
                &&& (forall|k: u32| #[trigger]
                    c1.contains_key(k) ==> c0.contains_key(k) || d.contains_key(k))
                &&& (forall|k: u32| #[trigger]
                    c1.contains_key(k) ==> ((c0.contains_key(k) && c1[k] == c0[k]) || (
                    d.contains_key(k) && valid_atom(d[k]) && c1[k] == stored_entry(d[k]))))
                &&& (r is Ok ==> (forall|k: u32| #[trigger]
                    d.contains_key(k) ==> valid_atom(d[k]) && c1.contains_key(k) && c1[k]
                        == stored_entry(d[k])))
                &&& (r matches Err(e) ==> e == StateErr::BadData || e.is_host_err())
            },
            r == Err::<(), StateErr>(StateErr::BadData) ==> exists|k: u32| #[trigger]
                old(self).drafts().contains_key(k) && !valid_atom(old(self).drafts()[k]),
            old(self).host_always_succeeds() && (forall|k: u32| #[trigger]
                old(self).drafts().contains_key(k) ==> valid_atom(old(self).drafts()[k]))
                ==> r is Ok,
            final(self).host_always_succeeds() == old(self).host_always_succeeds(),
    {
        let ghost ov = self.drafts@;
        let ghost d0 = alist_map(ov);
        let ghost h0 = self.host;
        loop
            invariant
                self.wf(),
                keys_unique(ov),
                self.drafts@ == ov.subrange(0, self.drafts@.len() as int),
                self.drafts@.len() <= ov.len(),
                self.host is Some <==> h0 is Some,
                h0 is None ==> self.host == h0 && self.drafts@ == ov,
                h0 is Some ==> self.host->Some_0.store_always_succeeds()
                    == h0->Some_0.store_always_succeeds(),
                h0 is Some ==> {
                    let c0 = h0->Some_0.contents();
                    let c1 = self.host->Some_0.contents();
                    &&& (forall|k: u32| c0.contains_key(k) ==> #[trigger] c1.contains_key(k))
                    &&& (forall|k: u32| #[trigger]
                        c1.contains_key(k) ==> c0.contains_key(k) || d0.contains_key(k))
                    &&& (forall|k: u32| #[trigger]
                        c1.contains_key(k) ==> ((c0.contains_key(k) && c1[k] == c0[k]) || (
                        d0.contains_key(k) && valid_atom(d0[k]) && c1[k] == stored_entry(d0[k]))))
                    &&& (forall|k: u32| #[trigger]
                        d0.contains_key(k) && !alist_map(self.drafts@).contains_key(k)
                            ==> c1.contains_key(k) && valid_atom(d0[k]) && c1[k] == stored_entry(
                            d0[k],
                        ))
                },
            decreases self.drafts@.len(),
        {
            if self.drafts.len() == 0 {
                proof {
                    assert(alist_map(self.drafts@) =~= Map::<u32, Seq<u8>>::empty());
                    if d0 == Map::<u32, Seq<u8>>::empty() && h0 is Some {
                        assert(self.host->Some_0.contents() =~= h0->Some_0.contents());
                    }
                }
                return Ok(());
            }
            let n = self.drafts.len();
            proof {
                lemma_alist_at::<Vec<u8>>(ov, n - 1);
                lemma_alist_at::<Vec<u8>>(self.drafts@, n - 1);
                assert(self.drafts@[n - 1] == ov[n - 1]);
                assert forall|j: int| 0 <= j < n - 1 implies #[trigger] ov.subrange(0, n - 1)[j].0
                    != ov[n - 1].0 by {
                    assert(ov.subrange(0, n - 1)[j] == ov[j]);
                }
                lemma_alist_absent::<Vec<u8>>(ov.subrange(0, n - 1), ov[n - 1].0);
            }
            let popped = self.drafts.pop().unwrap();
            let (k0, dbuf) = popped;
            proof {
                assert(self.drafts@ =~= ov.subrange(0, n - 1));
                assert(d0.contains_key(k0) && d0[k0] == dbuf@);
            }
            let ghost c_pre = self.host;
            match Self::commit_pair(&mut self.host, k0, dbuf) {
                Ok(()) => {
                    proof {
                        if h0 is Some {
                            let c1p = c_pre->Some_0.contents();
                            let c1 = self.host->Some_0.contents();
                            assert(c1 == c1p.insert(k0, stored_entry(d0[k0])));
                            assert forall|k: u32|
                                d0.contains_key(k) && !alist_map(self.drafts@).contains_key(k)
                                    implies #[trigger] c1.contains_key(k) && valid_atom(d0[k])
                                && c1[k] == stored_entry(d0[k]) by {
                                if k != k0 {
                                    lemma_alist_contains::<Vec<u8>>(self.drafts@, k);
                                    lemma_alist_contains::<Vec<u8>>(
                                        ov.subrange(0, n as int),
                                        k,
                                    );
                                    assert forall|j: int|
                                        0 <= j < n && ov.subrange(0, n as int)[j].0 == k
                                            implies false by {
                                        assert(ov.subrange(0, n as int)[j] == ov[j]);
                                        if j < n - 1 {
                                            assert(self.drafts@[j] == ov[j]);
                                        }
                                    }
                                }
                            }
                        }
                    }
                },
                Err(e) => {
                    self.drafts = Vec::new();
                    proof {
                        assert(alist_map(self.drafts@) =~= Map::<u32, Seq<u8>>::empty());
                        assert(d0.contains_key(k0));
                        assert(d0 != Map::<u32, Seq<u8>>::empty());
                        assert(d0 == old(self).drafts());
                        assert(h0 == old(self).spec_host());
                        if e == StateErr::BadData {
                            assert(h0 is Some);
                            assert(!valid_atom(d0[k0]));
                            assert(old(self).drafts().contains_key(k0) && !valid_atom(
                                old(self).drafts()[k0],
                            ));
                        }
                        if old(self).host_always_succeeds() && (forall|k: u32| #[trigger]
                            old(self).drafts().contains_key(k) ==> valid_atom(
                            old(self).drafts()[k],
                        )) {
                            assert(valid_atom(d0[k0]));
                            assert(false);
                        }
                    }
                    return Err(e);
                },
            }
        }
    }
}

} // verus!
