//! Off-chain-signed attribute transactions, with real sr25519 signatures.

use abac_engine::executor::{encode_signing_payload, AttributeTransaction};
use abac_engine::state::EngineState;
use abac_engine::ErrorKind;

fn b(s: &str) -> Vec<u8> {
    s.as_bytes().to_vec()
}

fn keypair(seed: u8) -> schnorrkel::Keypair {
    schnorrkel::MiniSecretKey::from_bytes(&[seed; 32])
        .unwrap()
        .expand_to_keypair(schnorrkel::ExpansionMode::Ed25519)
}

fn signed_tx(
    pair: &schnorrkel::Keypair,
    identity: &[u8],
    name: &str,
    value: &str,
    validity: u64,
) -> AttributeTransaction {
    let mut tx = AttributeTransaction {
        name: name.as_bytes().to_vec(),
        value: value.as_bytes().to_vec(),
        validity,
        identity: identity.to_vec(),
        signer: pair.public.to_bytes().to_vec(),
        signature: Vec::new(),
    };
    let payload = encode_signing_payload(&tx);
    tx.signature = pair.sign_simple(b"substrate", &payload).to_bytes().to_vec();
    tx
}

#[test]
fn execute_applies_a_signed_creation() {
    let mut state = EngineState::new();
    let pair = keypair(1);
    // The identity is the signer's own address, so it owns itself.
    let identity = pair.public.to_bytes().to_vec();
    let tx = signed_tx(&pair, &identity, "email", "a@x.com", 5);
    assert_eq!(state.execute(&b("relay"), &tx, 100, 1000), Ok(()));
    let rec = state.resolve_current(&identity, &b("email")).unwrap();
    assert_eq!(rec.value, b("a@x.com"));
    assert_eq!(rec.expiry, 105);
}

#[test]
fn replaying_a_creating_transaction_is_rejected() {
    let mut state = EngineState::new();
    let pair = keypair(2);
    let identity = pair.public.to_bytes().to_vec();
    let tx = signed_tx(&pair, &identity, "email", "a@x.com", 5);
    assert_eq!(state.execute(&b("relay"), &tx, 100, 1000), Ok(()));
    // The same transaction again: the name is already current, so the
    // nonce gate refuses the duplicate.
    assert_eq!(state.execute(&b("relay"), &tx, 101, 1010), Err(ErrorKind::AttributeCreationFailed));
    // The first write is untouched.
    let rec = state.resolve_current(&identity, &b("email")).unwrap();
    assert_eq!(rec.value, b("a@x.com"));
    assert_eq!(rec.nonce, 0);
}

#[test]
fn zero_validity_routes_to_revocation() {
    let mut state = EngineState::new();
    let pair = keypair(3);
    let identity = pair.public.to_bytes().to_vec();
    let create = signed_tx(&pair, &identity, "email", "a@x.com", 5);
    assert_eq!(state.execute(&b("relay"), &create, 100, 1000), Ok(()));
    // A zero height delta is an explicit expire-now instruction.
    let revoke = signed_tx(&pair, &identity, "email", "a@x.com", 0);
    assert_eq!(state.execute(&b("relay"), &revoke, 101, 1010), Ok(()));
    let rec = state.resolve_current(&identity, &b("email")).unwrap();
    assert_eq!(rec.expiry, 101);
}

#[test]
fn tampered_payload_fails_signature_check() {
    let mut state = EngineState::new();
    let pair = keypair(4);
    let identity = pair.public.to_bytes().to_vec();
    let mut tx = signed_tx(&pair, &identity, "email", "a@x.com", 5);
    // Changing a signed field invalidates the signature.
    tx.value = b("b@x.com");
    assert_eq!(state.execute(&b("relay"), &tx, 100, 1000), Err(ErrorKind::BadSignature));
    // So does garbling the signature itself.
    let mut tx2 = signed_tx(&pair, &identity, "email", "a@x.com", 5);
    tx2.signature[0] ^= 0x01;
    assert_eq!(state.execute(&b("relay"), &tx2, 100, 1000), Err(ErrorKind::BadSignature));
    // An empty signature is no signature.
    let mut tx3 = signed_tx(&pair, &identity, "email", "a@x.com", 5);
    tx3.signature = Vec::new();
    assert_eq!(state.execute(&b("relay"), &tx3, 100, 1000), Err(ErrorKind::BadSignature));
    assert!(state.resolve_current(&identity, &b("email")).is_none());
}

#[test]
fn signer_must_own_the_identity() {
    let mut state = EngineState::new();
    let pair = keypair(5);
    // A validly signed transaction over someone else's identity is refused.
    let tx = signed_tx(&pair, &b("alice"), "email", "a@x.com", 5);
    assert_eq!(state.execute(&b("relay"), &tx, 100, 1000), Err(ErrorKind::NotOwner));
    // Once the identity's owner is the signer, it goes through.
    let signer = pair.public.to_bytes().to_vec();
    assert_eq!(state.change_owner(&b("alice"), &b("alice"), &signer, 99, 990), Ok(()));
    assert_eq!(state.execute(&b("relay"), &tx, 100, 1000), Ok(()));
}

#[test]
fn oversized_name_is_a_bad_transaction() {
    let mut state = EngineState::new();
    let pair = keypair(6);
    let identity = pair.public.to_bytes().to_vec();
    let long_name = String::from_utf8(vec![b'x'; 65]).unwrap();
    let tx = signed_tx(&pair, &identity, &long_name, "v", 5);
    assert_eq!(state.execute(&b("relay"), &tx, 100, 1000), Err(ErrorKind::BadTransaction));
}
