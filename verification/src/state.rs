//! The engine's persisted state and its mathematical model.
//!
//! The state is one store handle per runtime, passed by reference to every
//! operation.  It holds the typed tables of the persisted layout: identity
//! owners, delegates, versioned attributes, per-name nonces, endorsements,
//! policies, policy metadata, and the audit trail.  Its model is a struct of
//! maps, and every operation's contract states the whole model after the
//! call as a function of the model before it.

use vstd::prelude::*;

use crate::hash::attribute_id;
use crate::table::{no_part, one_part_keys, table_map, two_part_keys, unique_keys, Rec, TableKey};

verus! {

/// A named, versioned fact about an identity.
pub struct AttributeRecord {
    pub name: Vec<u8>,
    pub value: Vec<u8>,
    /// The first logical height at which the attribute no longer counts as
    /// valid; the maximum height stands for an unbounded validity.
    pub expiry: u64,
    /// The wall-clock moment of the last write.
    pub created: u64,
    /// The per-name counter value that the record's identifier was derived
    /// from.
    pub nonce: u64,
}

/// The model of an attribute record.
pub ghost struct AttributeRecordView {
    pub name: Seq<u8>,
    pub value: Seq<u8>,
    pub expiry: u64,
    pub created: u64,
    pub nonce: u64,
}

impl View for AttributeRecord {
    type V = AttributeRecordView;

    open spec fn view(&self) -> AttributeRecordView {
        AttributeRecordView {
            name: self.name@,
            value: self.value@,
            expiry: self.expiry,
            created: self.created,
            nonce: self.nonce,
        }
    }
}

/// Who last changed an identity's records, and when.
pub struct AuditRecord {
    pub who: Vec<u8>,
    pub height: u64,
    pub time: u64,
}

/// The model of an audit record.
pub ghost struct AuditRecordView {
    pub who: Seq<u8>,
    pub height: u64,
    pub time: u64,
}

impl View for AuditRecord {
    type V = AuditRecordView;

    open spec fn view(&self) -> AuditRecordView {
        AuditRecordView { who: self.who@, height: self.height, time: self.time }
    }
}

/// A third party's time-bounded attestation of one attribute.
#[derive(Clone, Copy, PartialEq, Eq, Structural)]
pub struct Endorsement {
    /// The first logical height at which the endorsement no longer counts.
    pub validity: u64,
    /// The wall-clock moment the endorsement was made.
    pub endorsed_time: u64,
}

/// One required constraint of a policy: an attribute name and the set of
/// allowed values.
pub struct PolicyField {
    pub name: Vec<u8>,
    pub value: Vec<Vec<u8>>,
}

/// The model of a policy field.
pub ghost struct PolicyFieldView {
    pub name: Seq<u8>,
    pub value: Seq<Seq<u8>>,
}

impl View for PolicyField {
    type V = PolicyFieldView;

    open spec fn view(&self) -> PolicyFieldView {
        PolicyFieldView { name: self.name@, value: self.value@.map_values(|v: Vec<u8>| v@) }
    }
}

/// The provenance of a policy attached to an object identity.
pub struct Policy {
    /// The principal under which the policy itself is addressable.
    pub policy: Vec<u8>,
    pub name: Vec<u8>,
    pub attached_by: Vec<u8>,
    pub attached_time: u64,
}

/// The model of a policy metadata record.
pub ghost struct PolicyView {
    pub policy: Seq<u8>,
    pub name: Seq<u8>,
    pub attached_by: Seq<u8>,
    pub attached_time: u64,
}

impl View for Policy {
    type V = PolicyView;

    open spec fn view(&self) -> PolicyView {
        PolicyView {
            policy: self.policy@,
            name: self.name@,
            attached_by: self.attached_by@,
            attached_time: self.attached_time,
        }
    }
}

/// The model of the whole persisted state: one map per storage item.
#[verifier::ext_equal]
pub ghost struct StateModel {
    /// `identity -> owner`; an identity with no entry owns itself.
    pub owners: Map<Seq<u8>, Seq<u8>>,
    /// `identity -> (who, height, time)` of the last registry update.
    pub audits: Map<Seq<u8>, AuditRecordView>,
    /// `(identity, purpose, delegate) -> expiry height`.
    pub delegates: Map<(Seq<u8>, Seq<u8>, Seq<u8>), u64>,
    /// `(identity, attribute id) -> record`.
    pub attributes: Map<(Seq<u8>, Seq<u8>), AttributeRecordView>,
    /// `(identity, name) -> next version counter`; no entry means zero.
    pub nonces: Map<(Seq<u8>, Seq<u8>), u64>,
    /// `(identity, name, endorser) -> endorsement`.
    pub endorsements: Map<(Seq<u8>, Seq<u8>, Seq<u8>), Endorsement>,
    /// `object identity -> policy fields`.
    pub policies: Map<Seq<u8>, Seq<PolicyFieldView>>,
    /// `object identity -> provenance of the attached policy`.
    pub policy_meta: Map<Seq<u8>, PolicyView>,
}

impl StateModel {
    /// The empty store.
    pub open spec fn init() -> StateModel {
        StateModel {
            owners: Map::empty(),
            audits: Map::empty(),
            delegates: Map::empty(),
            attributes: Map::empty(),
            nonces: Map::empty(),
            endorsements: Map::empty(),
            policies: Map::empty(),
            policy_meta: Map::empty(),
        }
    }

    /// The recorded owner, or the identity itself if none is recorded.
    pub open spec fn owner_of(self, identity: Seq<u8>) -> Seq<u8> {
        if self.owners.contains_key(identity) {
            self.owners[identity]
        } else {
            identity
        }
    }

    /// The next version counter of `(identity, name)`; zero if none was
    /// ever issued.
    pub open spec fn nonce_of(self, identity: Seq<u8>, name: Seq<u8>) -> u64 {
        if self.nonces.contains_key((identity, name)) {
            self.nonces[(identity, name)]
        } else {
            0
        }
    }

    /// The identifier of the most recently issued version of `name`;
    /// meaningful only when the nonce is positive.
    pub open spec fn current_id(self, identity: Seq<u8>, name: Seq<u8>) -> Seq<u8> {
        attribute_id(identity, name, (self.nonce_of(identity, name) - 1) as u64)
    }

    /// The record that `name` currently resolves to: the one stored under
    /// the most recently issued identifier, if any version was ever issued
    /// and that entry is still present.
    pub open spec fn resolve(self, identity: Seq<u8>, name: Seq<u8>) -> Option<
        AttributeRecordView,
    > {
        if self.nonce_of(identity, name) == 0 {
            None
        } else if self.attributes.contains_key((identity, self.current_id(identity, name))) {
            Some(self.attributes[(identity, self.current_id(identity, name))])
        } else {
            None
        }
    }

    /// Whether the delegate exists for the purpose and is unexpired at
    /// height `h` (strictly later expiry).
    pub open spec fn delegate_valid(
        self,
        identity: Seq<u8>,
        purpose: Seq<u8>,
        delegate: Seq<u8>,
        h: u64,
    ) -> bool {
        self.delegates.contains_key((identity, purpose, delegate)) && self.delegates[(
            identity,
            purpose,
            delegate,
        )] > h
    }

    /// Whether the endorser holds an unexpired endorsement of the
    /// attribute at height `h`.
    pub open spec fn endorsed_by(
        self,
        target: Seq<u8>,
        name: Seq<u8>,
        endorser: Seq<u8>,
        h: u64,
    ) -> bool {
        self.endorsements.contains_key((target, name, endorser)) && self.endorsements[(
            target,
            name,
            endorser,
        )].validity > h
    }

    /// Whether any attribute entry is recorded under the identity.
    pub open spec fn has_attributes(self, identity: Seq<u8>) -> bool {
        exists|k: (Seq<u8>, Seq<u8>)| #[trigger] self.attributes.contains_key(k) && k.0 == identity
    }
}

/// The persisted state of the engine: the typed tables of the store.
pub struct EngineState {
    pub owners: Vec<Rec<Vec<u8>>>,
    pub audits: Vec<Rec<AuditRecord>>,
    pub delegates: Vec<Rec<u64>>,
    pub attributes: Vec<Rec<AttributeRecord>>,
    pub nonces: Vec<Rec<u64>>,
    pub endorsements: Vec<Rec<Endorsement>>,
    pub policies: Vec<Rec<Vec<PolicyField>>>,
    pub policy_meta: Vec<Rec<Policy>>,
}

impl EngineState {
    /// Every table holds each key at most once, and narrower tables leave
    /// their unused key parts empty.
    pub open spec fn wf(self) -> bool {
        &&& unique_keys(self.owners@) && one_part_keys(self.owners@)
        &&& unique_keys(self.audits@) && one_part_keys(self.audits@)
        &&& unique_keys(self.delegates@)
        &&& unique_keys(self.attributes@) && two_part_keys(self.attributes@)
        &&& unique_keys(self.nonces@) && two_part_keys(self.nonces@)
        &&& unique_keys(self.endorsements@)
        &&& unique_keys(self.policies@) && one_part_keys(self.policies@)
        &&& unique_keys(self.policy_meta@) && one_part_keys(self.policy_meta@)
    }

    pub open spec fn owners_map(self) -> Map<Seq<u8>, Seq<u8>> {
        Map::new(
            |i: Seq<u8>| table_map(self.owners@).contains_key((i, no_part(), no_part())),
            |i: Seq<u8>| table_map(self.owners@)[(i, no_part(), no_part())]@,
        )
    }

    pub open spec fn audits_map(self) -> Map<Seq<u8>, AuditRecordView> {
        Map::new(
            |i: Seq<u8>| table_map(self.audits@).contains_key((i, no_part(), no_part())),
            |i: Seq<u8>| table_map(self.audits@)[(i, no_part(), no_part())]@,
        )
    }

    pub open spec fn delegates_map(self) -> Map<(Seq<u8>, Seq<u8>, Seq<u8>), u64> {
        Map::new(
            |k: TableKey| table_map(self.delegates@).contains_key(k),
            |k: TableKey| table_map(self.delegates@)[k],
        )
    }

    pub open spec fn attributes_map(self) -> Map<(Seq<u8>, Seq<u8>), AttributeRecordView> {
        Map::new(
            |k: (Seq<u8>, Seq<u8>)| table_map(self.attributes@).contains_key((k.0, k.1, no_part())),
            |k: (Seq<u8>, Seq<u8>)| table_map(self.attributes@)[(k.0, k.1, no_part())]@,
        )
    }

    pub open spec fn nonces_map(self) -> Map<(Seq<u8>, Seq<u8>), u64> {
        Map::new(
            |k: (Seq<u8>, Seq<u8>)| table_map(self.nonces@).contains_key((k.0, k.1, no_part())),
            |k: (Seq<u8>, Seq<u8>)| table_map(self.nonces@)[(k.0, k.1, no_part())],
        )
    }

    pub open spec fn endorsements_map(self) -> Map<(Seq<u8>, Seq<u8>, Seq<u8>), Endorsement> {
        Map::new(
            |k: TableKey| table_map(self.endorsements@).contains_key(k),
            |k: TableKey| table_map(self.endorsements@)[k],
        )
    }

    pub open spec fn policies_map(self) -> Map<Seq<u8>, Seq<PolicyFieldView>> {
        Map::new(
            |i: Seq<u8>| table_map(self.policies@).contains_key((i, no_part(), no_part())),
            |i: Seq<u8>|
                table_map(self.policies@)[(i, no_part(), no_part())]@.map_values(
                    |f: PolicyField| f@,
                ),
        )
    }

    pub open spec fn policy_meta_map(self) -> Map<Seq<u8>, PolicyView> {
        Map::new(
            |i: Seq<u8>| table_map(self.policy_meta@).contains_key((i, no_part(), no_part())),
            |i: Seq<u8>| table_map(self.policy_meta@)[(i, no_part(), no_part())]@,
        )
    }
}

impl View for EngineState {
    type V = StateModel;

    open spec fn view(&self) -> StateModel {
        StateModel {
            owners: self.owners_map(),
            audits: self.audits_map(),
            delegates: self.delegates_map(),
            attributes: self.attributes_map(),
            nonces: self.nonces_map(),
            endorsements: self.endorsements_map(),
            policies: self.policies_map(),
            policy_meta: self.policy_meta_map(),
        }
    }
}

impl EngineState {
    /// A fresh store with nothing recorded.
    pub fn new() -> (s: EngineState)
        ensures
            s.wf(),
            s@ == StateModel::init(),
    {
        let s = EngineState {
            owners: Vec::new(),
            audits: Vec::new(),
            delegates: Vec::new(),
            attributes: Vec::new(),
            nonces: Vec::new(),
            endorsements: Vec::new(),
            policies: Vec::new(),
            policy_meta: Vec::new(),
        };
        proof {
            assert(s.owners_map() =~= Map::<Seq<u8>, Seq<u8>>::empty());
            assert(s.audits_map() =~= Map::<Seq<u8>, AuditRecordView>::empty());
            assert(s.delegates_map() =~= Map::<(Seq<u8>, Seq<u8>, Seq<u8>), u64>::empty());
            assert(s.attributes_map() =~= Map::<(Seq<u8>, Seq<u8>), AttributeRecordView>::empty());
            assert(s.nonces_map() =~= Map::<(Seq<u8>, Seq<u8>), u64>::empty());
            assert(s.endorsements_map() =~= Map::<
                (Seq<u8>, Seq<u8>, Seq<u8>),
                Endorsement,
            >::empty());
            assert(s.policies_map() =~= Map::<Seq<u8>, Seq<PolicyFieldView>>::empty());
            assert(s.policy_meta_map() =~= Map::<Seq<u8>, PolicyView>::empty());
            assert(s@ =~= StateModel::init());
        }
        s
    }
}

} // verus!
