//! The wire-facing pieces: the canonical encoding against the reference
//! codec, the identifier digest against the reference hasher, and the two
//! external queries.

use abac_engine::codec::{encode_bytes_to, encode_compact_u32_to, encode_u64_to};
use abac_engine::facade::{convert_slice_u8_to_vec_u8, AbacChainExtension, FuncId};
use abac_engine::hash::compute_attribute_id;
use abac_engine::state::EngineState;
use abac_engine::attributes::AttrInput;
use abac_engine::ErrorKind;
use parity_scale_codec::{Compact, Encode};

fn b(s: &str) -> Vec<u8> {
    s.as_bytes().to_vec()
}

#[test]
fn u64_encoding_matches_reference_codec() {
    for x in [0u64, 1, 0xff, 0x1234_5678_9abc_def0, u64::MAX] {
        let mut ours: Vec<u8> = Vec::new();
        encode_u64_to(&mut ours, x);
        assert_eq!(ours, x.encode());
    }
}

#[test]
fn compact_encoding_matches_reference_codec() {
    for n in [0u32, 1, 63, 64, 255, 16383, 16384, 0x3fff_ffff, 0x4000_0000, u32::MAX] {
        let mut ours: Vec<u8> = Vec::new();
        encode_compact_u32_to(&mut ours, n);
        assert_eq!(ours, Compact(n).encode(), "compact encoding of {n}");
    }
}

#[test]
fn byte_string_encoding_matches_reference_codec() {
    for v in [Vec::new(), b("a"), b("email"), vec![0u8; 64], vec![7u8; 300]] {
        let mut ours: Vec<u8> = Vec::new();
        encode_bytes_to(&mut ours, &v);
        assert_eq!(ours, v.encode());
    }
}

#[test]
fn attribute_id_matches_reference_hash_of_reference_encoding() {
    let identity = b("alice");
    let name = b("email");
    let nonce: u64 = 3;
    let mut preimage: Vec<u8> = Vec::new();
    preimage.extend(identity.encode());
    preimage.extend(name.encode());
    preimage.extend(nonce.encode());
    let expected = sp_core_hashing::blake2_256(&preimage).to_vec();
    assert_eq!(compute_attribute_id(&identity, &name, nonce), expected);
    // The digest is 32 bytes and depends on the nonce.
    assert_eq!(expected.len(), 32);
    assert_ne!(compute_attribute_id(&identity, &name, 4), expected);
}

#[test]
fn func_id_dispatch() {
    assert_eq!(FuncId::try_from_code(0x0001), Some(FuncId::ReadAttributeValue));
    assert_eq!(FuncId::try_from_code(0x0002), Some(FuncId::CheckValidEndorsement));
    assert_eq!(FuncId::try_from_code(0x0000), None);
    assert_eq!(FuncId::try_from_code(0x0003), None);
}

#[test]
fn name_buffer_trimming() {
    let mut buf = b("email");
    buf.resize(64, 0);
    assert_eq!(convert_slice_u8_to_vec_u8(&buf), b("email"));
    assert_eq!(convert_slice_u8_to_vec_u8(&vec![0u8; 64]), Vec::<u8>::new());
    assert_eq!(convert_slice_u8_to_vec_u8(&b("email")), b("email"));
}

#[test]
fn read_attribute_value_query() {
    let mut state = EngineState::new();
    let identity = b("alice");
    let batch = vec![AttrInput { name: b("email"), value: b("a@x.com") }];
    assert_eq!(state.set_attributes(&identity, &identity, &batch, 100), Ok(()));
    // The query hands in a fixed-width, zero-padded name buffer.
    let mut buf = b("email");
    buf.resize(64, 0);
    assert_eq!(
        AbacChainExtension::read_attribute_value(&state, &identity, &buf),
        Ok(b("a@x.com"))
    );
    // An absent attribute reads as empty, never as an error.
    let mut missing = b("phone");
    missing.resize(64, 0);
    assert_eq!(
        AbacChainExtension::read_attribute_value(&state, &identity, &missing),
        Ok(Vec::new())
    );
    // An oversized buffer is rejected before any work.
    assert_eq!(
        AbacChainExtension::read_attribute_value(&state, &identity, &vec![1u8; 65]),
        Err(ErrorKind::InputOverflow)
    );
}

#[test]
fn check_valid_endorsement_query() {
    let mut state = EngineState::new();
    let identity = b("alice");
    let endorser = b("erin");
    let batch = vec![AttrInput { name: b("email"), value: b("a@x.com") }];
    assert_eq!(state.set_attributes(&identity, &identity, &batch, 100), Ok(()));
    assert_eq!(
        state.endorse_attributes(&endorser, &endorser, &identity, &vec![b("email")], Some(50), 10, 100),
        Ok(())
    );
    let mut buf = b("email");
    buf.resize(64, 0);
    assert_eq!(
        AbacChainExtension::check_valid_endorsement(&state, &identity, &buf, &vec![endorser.clone()], 20),
        Ok(true)
    );
    assert_eq!(
        AbacChainExtension::check_valid_endorsement(&state, &identity, &buf, &vec![b("frank")], 20),
        Ok(false)
    );
    assert_eq!(
        AbacChainExtension::check_valid_endorsement(&state, &identity, &buf, &vec![endorser.clone()], 60),
        Ok(false)
    );
    assert_eq!(
        AbacChainExtension::check_valid_endorsement(&state, &identity, &vec![1u8; 65], &vec![endorser.clone()], 20),
        Err(ErrorKind::InputOverflow)
    );
    let many: Vec<Vec<u8>> = (0..65).map(|i| vec![i as u8]).collect();
    assert_eq!(
        AbacChainExtension::check_valid_endorsement(&state, &identity, &buf, &many, 20),
        Err(ErrorKind::InputOverflow)
    );
}
