//! Execution of off-chain-signed attribute transactions.
//!
//! A signed transaction authorizes the same effect a direct call by the
//! identity's owner could have: the signature is verified over the canonical
//! encoding of `(name, value, validity, identity)`, the signer must be the
//! identity's owner, and the operation then re-enters the normal create or
//! revoke path.  A validity delta that maps to a future height creates the
//! attribute; a zero or overflowed-to-now delta is an explicit expire-now
//! instruction.  Replay of a creating transaction is rejected by the nonce
//! gate: the name is already current the second time.

use vstd::prelude::*;

use crate::codec::{encode_bytes_to, encode_u64_to, scale_bytes, u64_le_bytes};
use crate::errors::ErrorKind;
use crate::identity::{sat_add, sat_add64, MAX_FIELD_LEN};
use crate::state::{EngineState, StateModel};

verus! {

/// An off-chain-authorized attribute mutation.
pub struct AttributeTransaction {
    pub name: Vec<u8>,
    pub value: Vec<u8>,
    /// The height delta after which the attribute expires; zero means an
    /// immediate revocation.
    pub validity: u64,
    pub identity: Vec<u8>,
    pub signer: Vec<u8>,
    pub signature: Vec<u8>,
}

/// The model of a signed transaction.
pub ghost struct AttributeTransactionView {
    pub name: Seq<u8>,
    pub value: Seq<u8>,
    pub validity: u64,
    pub identity: Seq<u8>,
    pub signer: Seq<u8>,
    pub signature: Seq<u8>,
}

impl View for AttributeTransaction {
    type V = AttributeTransactionView;

    open spec fn view(&self) -> AttributeTransactionView {
        AttributeTransactionView {
            name: self.name@,
            value: self.value@,
            validity: self.validity,
            identity: self.identity@,
            signer: self.signer@,
            signature: self.signature@,
        }
    }
}

/// Whether the signature is a valid sr25519 signature by the signer over
/// the message; the verifying collaborator's verdict depends on the three
/// byte strings alone.
pub uninterp spec fn sig_verifies(signature: Seq<u8>, msg: Seq<u8>, signer: Seq<u8>) -> bool;

/// Relies on schnorrkel's PublicKey::verify_simple under the b"substrate"
/// signing context: verification is a pure function of the signature bytes,
/// the message and the public key bytes, and fails for byte strings that
/// are no valid key or signature.
#[verifier::external_body]
fn verify_signature(signature: &Vec<u8>, msg: &Vec<u8>, signer: &Vec<u8>) -> (r: bool)
    ensures
        r == sig_verifies(signature@, msg@, signer@),
{
    let Ok(pk) = schnorrkel::PublicKey::from_bytes(signer) else {
        return false;
    };
    let Ok(sig) = schnorrkel::Signature::from_bytes(signature) else {
        return false;
    };
    pk.verify_simple(b"substrate", msg, &sig).is_ok()
}

/// The canonical signing payload: the encodings of the name, the value,
/// the validity delta and the identity, in that order.
pub open spec fn signing_payload(tx: AttributeTransactionView) -> Seq<u8> {
    scale_bytes(tx.name) + scale_bytes(tx.value) + u64_le_bytes(tx.validity) + scale_bytes(
        tx.identity,
    )
}

/// Computes the canonical signing payload of the transaction.
pub fn encode_signing_payload(tx: &AttributeTransaction) -> (r: Vec<u8>)
    requires
        tx.name@.len() <= 0xffffffff,
        tx.value@.len() <= 0xffffffff,
        tx.identity@.len() <= 0xffffffff,
    ensures
        r@ == signing_payload(tx@),
{
    let mut encoded: Vec<u8> = Vec::new();
    encode_bytes_to(&mut encoded, &tx.name);
    encode_bytes_to(&mut encoded, &tx.value);
    encode_u64_to(&mut encoded, tx.validity);
    encode_bytes_to(&mut encoded, &tx.identity);
    assert(encoded@ =~= signing_payload(tx@));
    encoded
}

/// Validates a signature over a message; the whole verdict of the external
/// verifier is surfaced as `BadSignature` on failure.
pub fn check_signature(signature: &Vec<u8>, msg: &Vec<u8>, signer: &Vec<u8>) -> (r: Result<
    (),
    ErrorKind,
>)
    ensures
        r == if sig_verifies(signature@, msg@, signer@) {
            Ok::<(), ErrorKind>(())
        } else {
            Err::<(), ErrorKind>(ErrorKind::BadSignature)
        },
{
    if verify_signature(signature, msg, signer) {
        Ok(())
    } else {
        Err(ErrorKind::BadSignature)
    }
}

impl StateModel {
    /// The transition of `execute`: signature, ownership and name bound are
    /// checked in that order; a future validity routes to the create path
    /// under the signer's authority, any other validity to the revoke path.
    pub open spec fn spec_execute(self, tx: AttributeTransactionView, h: u64, t: u64) -> (
        StateModel,
        Result<(), ErrorKind>,
    ) {
        if !sig_verifies(tx.signature, signing_payload(tx), tx.signer) {
            (self, Err(ErrorKind::BadSignature))
        } else if self.owner_of(tx.identity) != tx.signer {
            (self, Err(ErrorKind::NotOwner))
        } else if tx.name.len() > MAX_FIELD_LEN {
            (self, Err(ErrorKind::BadTransaction))
        } else if sat_add64(h, tx.validity) > h {
            self.spec_create_attribute(
                tx.signer,
                tx.identity,
                tx.name,
                tx.value,
                Some(tx.validity),
                h,
                t,
            )
        } else {
            self.spec_revoke_attribute(tx.signer, tx.identity, tx.name, h, t)
        }
    }
}

impl EngineState {
    /// Executes an off-chain-signed transaction.  The submitting caller
    /// need not hold the identity's native credential: the authority is the
    /// signer's, which the signature and ownership checks establish, and
    /// the audit trail records the signer.
    pub fn execute(
        &mut self,
        caller: &Vec<u8>,
        transaction: &AttributeTransaction,
        now_height: u64,
        now_time: u64,
    ) -> (r: Result<(), ErrorKind>)
        requires
            old(self).wf(),
            transaction.name@.len() <= 0xffffffff,
            transaction.value@.len() <= 0xffffffff,
            transaction.identity@.len() <= 0xffffffff,
        ensures
            final(self).wf(),
            (final(self)@, r) == old(self)@.spec_execute(transaction@, now_height, now_time),
    {
        let _ = caller;
        let encoded = encode_signing_payload(transaction);
        if let Err(e) = check_signature(&transaction.signature, &encoded, &transaction.signer) {
            return Err(e);
        }
        if let Err(e) = self.is_owner(&transaction.identity, &transaction.signer) {
            return Err(e);
        }
        if transaction.name.len() > MAX_FIELD_LEN {
            return Err(ErrorKind::BadTransaction);
        }
        let validity = sat_add(now_height, transaction.validity);
        if validity > now_height {
            self.create_attribute(
                &transaction.signer,
                &transaction.identity,
                &transaction.name,
                &transaction.value,
                Some(transaction.validity),
                now_height,
                now_time,
            )
        } else {
            self.revoke_attribute(
                &transaction.signer,
                &transaction.identity,
                &transaction.name,
                now_height,
                now_time,
            )
        }
    }
}

/// Replaying a creating transaction is rejected: once the first submission
/// has created the attribute, the same transaction submitted again, at any
/// height at which its validity still maps to the future, fails with
/// `AttributeCreationFailed` and leaves the store unchanged.
pub proof fn lemma_replay_rejected(
    m0: StateModel,
    tx: AttributeTransactionView,
    h0: u64,
    t0: u64,
    h1: u64,
    t1: u64,
)
    requires
        m0.spec_execute(tx, h0, t0).1 is Ok,
        sat_add64(h0, tx.validity) > h0,
        sat_add64(h1, tx.validity) > h1,
    ensures
        m0.spec_execute(tx, h0, t0).0.spec_execute(tx, h1, t1) == (
            m0.spec_execute(tx, h0, t0).0,
            Err::<(), ErrorKind>(ErrorKind::AttributeCreationFailed),
        ),
{
    let m1 = m0.spec_execute(tx, h0, t0).0;
    let n0 = m0.nonce_of(tx.identity, tx.name);
    assert(m1.owners == m0.owners);
    assert(m1.nonce_of(tx.identity, tx.name) == (n0 + 1) as u64);
    assert(n0 < u64::MAX);
    assert(m1.current_id(tx.identity, tx.name) == crate::hash::attribute_id(
        tx.identity,
        tx.name,
        n0,
    ));
    assert(m1.attributes.contains_key(
        (tx.identity, crate::hash::attribute_id(tx.identity, tx.name, n0)),
    ));
    assert(m1.resolve(tx.identity, tx.name) is Some);
}

} // verus!
