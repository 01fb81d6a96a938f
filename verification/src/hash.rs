//! Content-derived attribute identifiers.
//!
//! An attribute's storage identifier is the 32-byte digest of the canonical
//! encoding of the identity, the attribute name, and the per-name nonce.
//! Hashing the nonce in guarantees that deleting and recreating an attribute
//! of one name yields a different identifier, so stale external references
//! never silently point at new data.

use vstd::prelude::*;

use crate::codec::{encode_bytes_to, encode_u64_to, scale_bytes, u64_le_bytes,
    lemma_u64_le_bytes_injective};

verus! {

/// The 32-byte digest that the hashing collaborator computes; it depends on
/// the input bytes alone.
pub uninterp spec fn blake2_256_of(input: Seq<u8>) -> Seq<u8>;

/// Relies on sp_core_hashing::blake2_256: a 32-byte digest that is a pure
/// function of the input bytes.
#[verifier::external_body]
fn blake2_256(input: &Vec<u8>) -> (r: Vec<u8>)
    ensures
        r@ == blake2_256_of(input@),
        r@.len() == 32,
{
    sp_core_hashing::blake2_256(input).to_vec()
}

/// The bytes whose digest identifies the attribute version `nonce` of
/// `name` under `identity`.
pub open spec fn id_preimage(identity: Seq<u8>, name: Seq<u8>, nonce: u64) -> Seq<u8> {
    scale_bytes(identity) + scale_bytes(name) + u64_le_bytes(nonce)
}

/// The storage identifier of the attribute version `nonce` of `name` under
/// `identity`.
pub open spec fn attribute_id(identity: Seq<u8>, name: Seq<u8>, nonce: u64) -> Seq<u8> {
    blake2_256_of(id_preimage(identity, name, nonce))
}

/// Two versions of one attribute hash different bytes: the preimage ends in
/// the nonce's fixed-width encoding, which is injective.
pub proof fn lemma_id_preimage_injective(identity: Seq<u8>, name: Seq<u8>, n1: u64, n2: u64)
    requires
        n1 != n2,
    ensures
        id_preimage(identity, name, n1) != id_preimage(identity, name, n2),
{
    let p = scale_bytes(identity) + scale_bytes(name);
    if id_preimage(identity, name, n1) == id_preimage(identity, name, n2) {
        assert forall|i: int| 0 <= i < 8 implies u64_le_bytes(n1)[i] == u64_le_bytes(n2)[i] by {
            assert(id_preimage(identity, name, n1)[p.len() + i] == u64_le_bytes(n1)[i]);
            assert(id_preimage(identity, name, n2)[p.len() + i] == u64_le_bytes(n2)[i]);
        }
        assert(u64_le_bytes(n1) =~= u64_le_bytes(n2));
        lemma_u64_le_bytes_injective(n1, n2);
    }
}

/// Computes the storage identifier of the attribute version `nonce` of
/// `name` under `identity`.
pub fn compute_attribute_id(identity: &Vec<u8>, name: &Vec<u8>, nonce: u64) -> (r: Vec<u8>)
    requires
        identity@.len() <= 0xffffffff,
        name@.len() <= 0xffffffff,
    ensures
        r@ == attribute_id(identity@, name@, nonce),
        r@.len() == 32,
{
    let mut preimage: Vec<u8> = Vec::new();
    encode_bytes_to(&mut preimage, identity);
    encode_bytes_to(&mut preimage, name);
    encode_u64_to(&mut preimage, nonce);
    assert(preimage@ =~= id_preimage(identity@, name@, nonce));
    blake2_256(&preimage)
}

} // verus!
