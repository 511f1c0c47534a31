//! The protocol's laws, stated and proved once for all inputs.
//!
//! Each law is phrased over the spec views the public contracts use: the
//! buffer's draft mapping (`RawStoreHandle::drafts`), what a commit hands
//! the host (`stored_entry`), and what the typed readers yield
//! (`spec_read_int`, `spec_read_vector`).

use crate::codec::{
    atom_payload, atom_size, atom_type, grow_atom, int_atom, ints_to_bytes,
    lemma_i32_cast_round_trip, lemma_ints_bytes_round_trip, lemma_ints_to_bytes_concat,
    lemma_ints_to_bytes_len, proof_u32_to_le_bytes, spec_read_int, spec_read_vector, valid_atom,
    vector_atom, vector_payload,
};
use crate::store::stored_entry;
use vstd::bytes::spec_u32_to_le_bytes;
use vstd::prelude::*;

verus! {

/// A draft that was discarded is no longer committable: after drafting any
/// key and discarding it, the buffer no longer holds the key, and `commit`
/// returns something exactly when the buffer holds the key — so a
/// subsequent commit of that key returns nothing, neither an error nor
/// success.
pub proof fn lemma_discarded_draft_commits_nothing(
    drafts: Map<u32, Seq<u8>>,
    key: u32,
    bytes: Seq<u8>,
)
    ensures
        !drafts.insert(key, bytes).remove(key).contains_key(key),
{
}

/// Any commit attempt of a drafted key removes it from the buffer, so a
/// re-commit returns nothing rather than storing a duplicate.
pub proof fn lemma_commit_removes_key(drafts: Map<u32, Seq<u8>>, key: u32)
    ensures
        !drafts.remove(key).contains_key(key),
{
}

/// Drafting a key twice replaces the first draft entirely: the buffer then
/// holds exactly the second draft's bytes, so only those can reach the
/// host on commit.
pub proof fn lemma_second_draft_wins(
    drafts: Map<u32, Seq<u8>>,
    key: u32,
    first: Seq<u8>,
    second: Seq<u8>,
)
    ensures
        drafts.insert(key, first).insert(key, second) == drafts.insert(key, second),
        drafts.insert(key, first).insert(key, second)[key] == second,
{
    assert(drafts.insert(key, first).insert(key, second) =~= drafts.insert(key, second));
}

/// Round trip for a primitive value: a drafted integer container is valid,
/// commits under its declared type, and reading the stored bytes back with
/// that type yields exactly the drafted value.
pub proof fn lemma_int_round_trip(type_id: u32, value: i32)
    ensures
        ({
            let entry = stored_entry(int_atom(type_id, value));
            &&& valid_atom(int_atom(type_id, value))
            &&& entry.type_id == type_id
            &&& spec_read_int(entry.type_id, entry.data, type_id) == Some(value)
        }),
{
    proof_u32_to_le_bytes();
    let a = int_atom(type_id, value);
    assert(a.subrange(0, 4) =~= spec_u32_to_le_bytes(4));
    assert(a.subrange(4, 8) =~= spec_u32_to_le_bytes(type_id));
    assert(atom_size(a) == 4);
    assert(atom_type(a) == type_id);
    assert(a.subrange(8, 12) =~= spec_u32_to_le_bytes(#[verifier::truncate] (value as u32)));
    lemma_i32_cast_round_trip(value);
}

/// Round trip for a vector value: a drafted vector container of any
/// elements is valid, commits under its declared vector type, and reading
/// the stored bytes back with the vector and element types yields exactly
/// the drafted elements.
pub proof fn lemma_vector_round_trip(vector_type: u32, child_type: u32, elems: Seq<i32>)
    requires
        8 + 4 * elems.len() <= u32::MAX,
    ensures
        ({
            let entry = stored_entry(vector_atom(vector_type, child_type, elems));
            &&& valid_atom(vector_atom(vector_type, child_type, elems))
            &&& vector_atom(vector_type, child_type, elems).len() == 16 + 4 * elems.len()
            &&& atom_size(vector_atom(vector_type, child_type, elems)) == 8 + 4 * elems.len()
            &&& entry.type_id == vector_type
            &&& spec_read_vector(entry.type_id, entry.data, vector_type, child_type) == Some(elems)
        }),
{
    proof_u32_to_le_bytes();
    lemma_ints_to_bytes_len(elems);
    let p = vector_payload(child_type, elems);
    let a = vector_atom(vector_type, child_type, elems);
    assert(p.len() == 8 + 4 * elems.len());
    assert(a.subrange(0, 4) =~= spec_u32_to_le_bytes(p.len() as u32));
    assert(a.subrange(4, 8) =~= spec_u32_to_le_bytes(vector_type));
    assert(atom_size(a) == p.len());
    assert(atom_type(a) == vector_type);
    assert(atom_payload(a) =~= p);
    assert(p.subrange(0, 4) =~= spec_u32_to_le_bytes(4));
    assert(p.subrange(4, 8) =~= spec_u32_to_le_bytes(child_type));
    assert(p.skip(8) =~= ints_to_bytes(elems));
    lemma_ints_bytes_round_trip(elems);
}

/// Appending elements to a drafted vector grows it to exactly the vector
/// container of the concatenated elements.
pub proof fn lemma_vector_append(
    vector_type: u32,
    child_type: u32,
    elems: Seq<i32>,
    more: Seq<i32>,
)
    requires
        8 + 4 * (elems.len() + more.len()) <= u32::MAX,
    ensures
        grow_atom(vector_atom(vector_type, child_type, elems), ints_to_bytes(more)) == vector_atom(
            vector_type,
            child_type,
            elems + more,
        ),
{
    proof_u32_to_le_bytes();
    lemma_ints_to_bytes_len(elems);
    lemma_ints_to_bytes_len(more);
    lemma_ints_to_bytes_concat(elems, more);
    let a = vector_atom(vector_type, child_type, elems);
    let p = vector_payload(child_type, elems);
    assert(p.len() == 8 + 4 * elems.len());
    assert(a.subrange(0, 4) =~= spec_u32_to_le_bytes(p.len() as u32));
    assert(atom_size(a) == p.len());
    assert(grow_atom(a, ints_to_bytes(more)) =~= vector_atom(
        vector_type,
        child_type,
        elems + more,
    ));
}

} // verus!
