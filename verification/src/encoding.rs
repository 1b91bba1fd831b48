use vstd::prelude::*;
use vstd::bytes::{spec_u64_to_le_bytes, u64_to_le_bytes};
use crate::field::Felt;
use crate::hash::join_bytes;

verus! {

/// The canonical encoding of field elements: eight little-endian bytes of
/// the canonical integer of each, one element after the other.
pub open spec fn felts_bytes_of(elements: Seq<Felt>) -> Seq<u8>
    decreases elements.len(),
{
    if elements.len() == 0 {
        Seq::<u8>::empty()
    } else {
        felts_bytes_of(elements.drop_last()) + spec_u64_to_le_bytes(
            elements.last().value() as u64,
        )
    }
}

/// A list of field elements behind its length, as eight little-endian bytes.
pub open spec fn prefixed_felts_of(elements: Seq<Felt>) -> Seq<u8> {
    spec_u64_to_le_bytes(elements.len() as u64) + felts_bytes_of(elements)
}

/// An optional root on the wire: the root, where there is one, and then a
/// flag byte that says whether there is one.
pub open spec fn optional_root_of(root: Option<Seq<u8>>) -> Seq<u8> {
    match root {
        Some(bytes) => bytes.push(1u8),
        None => seq![0u8],
    }
}

/// Encodes field elements.
pub fn felts_to_bytes(elements: &Vec<Felt>) -> (r: Vec<u8>)
    ensures
        r@ == felts_bytes_of(elements@),
{
    let mut r: Vec<u8> = Vec::new();
    let mut i: usize = 0;
    while i < elements.len()
        invariant
            i <= elements@.len(),
            r@ == felts_bytes_of(elements@.take(i as int)),
        decreases elements@.len() - i,
    {
        let bytes = u64_to_le_bytes(elements[i].to_canonical());
        proof {
            assert(elements@.take(i + 1).drop_last() == elements@.take(i as int));
        }
        r = join_bytes(&r, &bytes);
        i += 1;
    }
    proof {
        assert(elements@.take(i as int) == elements@);
    }
    r
}

/// Encodes a list of field elements behind its length.
pub fn prefixed_felts_to_bytes(elements: &Vec<Felt>) -> (r: Vec<u8>)
    ensures
        r@ == prefixed_felts_of(elements@),
{
    let head = u64_to_le_bytes(elements.len() as u64);
    let body = felts_to_bytes(elements);
    join_bytes(&head, &body)
}

/// Encodes an optional root: without a root, the flag byte 0 alone.
pub fn optional_root_to_bytes(root: &Option<Vec<u8>>) -> (r: Vec<u8>)
    ensures
        r@ == optional_root_of(
            match *root {
                Some(bytes) => Some(bytes@),
                None => None,
            },
        ),
{
    match root {
        Some(bytes) => {
            let mut flag: Vec<u8> = Vec::new();
            flag.push(1u8);
            let r = join_bytes(bytes, &flag);
            assert(r@ =~= bytes@.push(1u8));
            r
        },
        None => {
            let mut flag: Vec<u8> = Vec::new();
            flag.push(0u8);
            assert(flag@ =~= seq![0u8]);
            flag
        },
    }
}

} // verus!
