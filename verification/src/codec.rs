//! The self-describing encoded property format.
//!
//! An encoded property is a container: an eight-byte header declaring a
//! payload byte size and a type identifier, each a little-endian 32-bit
//! word, followed by at least that many payload bytes.  The byte order is
//! fixed little-endian regardless of the machine; anything that wires this
//! crate to a host with native-endian headers must convert at that edge.  The commit path
//! only ever reads this header to separate `(type, payload)`; it never
//! interprets the payload itself.  Two payload shapes are offered to
//! callers: a single 32-bit integer, and a vector of 32-bit integers whose
//! payload opens with the element size and element type.

use vstd::bytes::*;
use vstd::prelude::*;
use vstd::slice::slice_subrange;
use vstd::slice::slice_to_vec;

verus! {

/// Number of bytes in a container header.
pub const HEADER_LEN: usize = 8;

/// The little-endian 32-bit word starting at byte `off`.
pub open spec fn le32_at(b: Seq<u8>, off: int) -> u32
    recommends
        0 <= off,
        off + 4 <= b.len(),
{
    spec_u32_from_le_bytes(b.subrange(off, off + 4))
}

/// Whether `b` parses as a container: a full header whose declared payload
/// size does not exceed the bytes that follow it.
pub open spec fn valid_atom(b: Seq<u8>) -> bool {
    b.len() >= 8 && le32_at(b, 0) <= b.len() - 8
}

/// The payload byte size a container's header declares.
pub open spec fn atom_size(b: Seq<u8>) -> u32 {
    le32_at(b, 0)
}

/// The type identifier a container's header declares.
pub open spec fn atom_type(b: Seq<u8>) -> u32 {
    le32_at(b, 4)
}

/// Exactly the header-declared payload bytes.
pub open spec fn atom_payload(b: Seq<u8>) -> Seq<u8>
    recommends
        valid_atom(b),
{
    b.subrange(8, 8 + atom_size(b))
}

/// A container with the given type identifier and payload.
pub open spec fn raw_atom(type_id: u32, payload: Seq<u8>) -> Seq<u8>
    recommends
        payload.len() <= u32::MAX,
{
    spec_u32_to_le_bytes(payload.len() as u32) + spec_u32_to_le_bytes(type_id) + payload
}

/// A container holding one 32-bit integer.
pub open spec fn int_atom(type_id: u32, value: i32) -> Seq<u8> {
    raw_atom(type_id, spec_u32_to_le_bytes(value as u32))
}

/// The little-endian bytes of a sequence of 32-bit integers.
pub open spec fn ints_to_bytes(elems: Seq<i32>) -> Seq<u8>
    decreases elems.len(),
{
    if elems.len() == 0 {
        Seq::empty()
    } else {
        ints_to_bytes(elems.drop_last()) + spec_u32_to_le_bytes(elems.last() as u32)
    }
}

/// The 32-bit integers a byte sequence spells, four bytes at a time.
pub open spec fn bytes_to_ints(b: Seq<u8>) -> Seq<i32>
    decreases b.len(),
{
    if b.len() < 4 {
        Seq::empty()
    } else {
        bytes_to_ints(b.take(b.len() - 4)).push(
            spec_u32_from_le_bytes(b.skip(b.len() - 4)) as i32,
        )
    }
}

/// The payload of a vector of 32-bit integers: element size, element type,
/// then the elements.
pub open spec fn vector_payload(child_type: u32, elems: Seq<i32>) -> Seq<u8> {
    spec_u32_to_le_bytes(4) + spec_u32_to_le_bytes(child_type) + ints_to_bytes(elems)
}

/// A container holding a vector of 32-bit integers.
pub open spec fn vector_atom(vector_type: u32, child_type: u32, elems: Seq<i32>) -> Seq<u8>
    recommends
        8 + 4 * elems.len() <= u32::MAX,
{
    raw_atom(vector_type, vector_payload(child_type, elems))
}

/// The container with `extra` appended to its payload and its declared size
/// grown to match.
pub open spec fn grow_atom(b: Seq<u8>, extra: Seq<u8>) -> Seq<u8>
    recommends
        b.len() >= 8,
        atom_size(b) + extra.len() <= u32::MAX,
{
    spec_u32_to_le_bytes((atom_size(b) + extra.len()) as u32) + b.skip(4) + extra
}

/// What reading a typed view as a single integer yields: the value exactly
/// when the view's type is the expected one and the bytes are one word.
pub open spec fn spec_read_int(t: u32, b: Seq<u8>, expected_type: u32) -> Option<i32> {
    if t == expected_type && b.len() == 4 {
        Some(spec_u32_from_le_bytes(b) as i32)
    } else {
        None
    }
}

/// What reading a typed view as an integer vector yields: the elements
/// exactly when the view's type is the expected vector type and the payload
/// opens with the expected element size and type.
pub open spec fn spec_read_vector(t: u32, b: Seq<u8>, vector_type: u32, child_type: u32) -> Option<
    Seq<i32>,
> {
    if t == vector_type && b.len() >= 8 && le32_at(b, 0) == 4 && le32_at(b, 4) == child_type && (
    b.len() - 8) % 4 == 0 {
        Some(bytes_to_ints(b.skip(8)))
    } else {
        None
    }
}

/// Read the little-endian 32-bit word starting at byte `off`.
pub fn read_le32(b: &Vec<u8>, off: usize) -> (r: u32)
    requires
        off + 4 <= b@.len(),
    ensures
        r == le32_at(b@, off as int),
{
    let n = b.len();
    assert(off + 4 <= n);
    let s = slice_subrange(b.as_slice(), off, off + 4);
    u32_from_le_bytes(s)
}

/// Append the little-endian bytes of `x`.
pub fn push_le32(b: &mut Vec<u8>, x: u32)
    ensures
        final(b)@ == old(b)@ + spec_u32_to_le_bytes(x),
{
    let mut w = u32_to_le_bytes(x);
    b.append(&mut w);
}

/// Parse the container header of a drafted buffer and split off exactly the
/// declared payload; `None` when the buffer is no valid container.
pub fn split_atom(b: &Vec<u8>) -> (r: Option<(u32, Vec<u8>)>)
    ensures
        match r {
            Some(p) => valid_atom(b@) && p.0 == atom_type(b@) && p.1@ == atom_payload(b@),
            None => !valid_atom(b@),
        },
{
    if b.len() < HEADER_LEN {
        return None;
    }
    let size = read_le32(b, 0);
    let type_id = read_le32(b, 4);
    if size as usize > b.len() - HEADER_LEN {
        return None;
    }
    let payload = slice_to_vec(
        slice_subrange(b.as_slice(), HEADER_LEN, HEADER_LEN + size as usize),
    );
    Some((type_id, payload))
}

/// The bytes of a sequence of integers are four per element.
pub proof fn lemma_ints_to_bytes_len(elems: Seq<i32>)
    ensures
        ints_to_bytes(elems).len() == 4 * elems.len(),
    decreases elems.len(),
{
    proof_u32_to_le_bytes();
    if elems.len() > 0 {
        lemma_ints_to_bytes_len(elems.drop_last());
    }
}

/// Encoding distributes over concatenation.
pub proof fn lemma_ints_to_bytes_concat(a: Seq<i32>, b: Seq<i32>)
    ensures
        ints_to_bytes(a + b) == ints_to_bytes(a) + ints_to_bytes(b),
    decreases b.len(),
{
    if b.len() == 0 {
        assert(a + b =~= a);
        assert(ints_to_bytes(a) + ints_to_bytes(b) =~= ints_to_bytes(a));
    } else {
        lemma_ints_to_bytes_concat(a, b.drop_last());
        assert((a + b).drop_last() =~= a + b.drop_last());
        assert((a + b).last() == b.last());
        assert(ints_to_bytes(a) + ints_to_bytes(b.drop_last()) + spec_u32_to_le_bytes(
            b.last() as u32,
        ) =~= ints_to_bytes(a) + (ints_to_bytes(b.drop_last()) + spec_u32_to_le_bytes(
            b.last() as u32,
        )));
    }
}

/// A cast to the unsigned word and back returns the integer unchanged.
pub proof fn lemma_i32_cast_round_trip(x: i32)
    ensures
        (x as u32) as i32 == x,
{
    assert((x as u32) as i32 == x) by (bit_vector);
}

/// Decoding the bytes of a sequence of integers yields the sequence.
pub proof fn lemma_ints_bytes_round_trip(elems: Seq<i32>)
    ensures
        bytes_to_ints(ints_to_bytes(elems)) == elems,
    decreases elems.len(),
{
    proof_u32_to_le_bytes();
    lemma_ints_to_bytes_len(elems);
    if elems.len() == 0 {
        assert(bytes_to_ints(ints_to_bytes(elems)) =~= elems);
    } else {
        let bs = ints_to_bytes(elems);
        let front = ints_to_bytes(elems.drop_last());
        let word = spec_u32_to_le_bytes(elems.last() as u32);
        lemma_ints_to_bytes_len(elems.drop_last());
        assert(bs.take(bs.len() - 4) =~= front);
        assert(bs.skip(bs.len() - 4) =~= word);
        lemma_ints_bytes_round_trip(elems.drop_last());
        lemma_i32_cast_round_trip(elems.last());
        assert(bytes_to_ints(bs) =~= elems);
    }
}

/// The word-level round trip of `vstd::bytes`, packaged for callers.
pub proof fn proof_u32_to_le_bytes()
    ensures
        forall|x: u32|
            {
                &&& (#[trigger] spec_u32_to_le_bytes(x)).len() == 4
                &&& spec_u32_from_le_bytes(spec_u32_to_le_bytes(x)) == x
            },
{
    lemma_auto_spec_u32_to_from_le_bytes();
}

} // verus!
