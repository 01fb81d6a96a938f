//! Versioned attribute storage with nonce-based identifiers.
//!
//! Each attribute of an identity is stored under a content-derived
//! identifier that hashes in a per-`(identity, name)` nonce.  The nonce
//! increments on every create — never on update-in-place or revocation — so
//! a deleted and recreated attribute gets a fresh identifier, and lookups
//! always resolve through the most recently issued one.  Only the identity's
//! owner may create, change, revoke or delete attributes, and every batch
//! runs all of its precondition checks before the first write.

use vstd::prelude::*;

use crate::errors::ErrorKind;
use crate::hash::{attribute_id, compute_attribute_id};
use crate::identity::{sat_add, sat_add64, MAX_FIELD_LEN};
use crate::state::{AttributeRecord, AttributeRecordView, AuditRecord, AuditRecordView,
    EngineState, StateModel};
use crate::table::{bytes_eq, clone_bytes, lemma_table_map_index, no_part, rec_key, table1_upsert,
    table2_find, table2_remove, table2_upsert, Rec};

verus! {

/// One attribute of a batch input: a name and a value.
pub struct AttrInput {
    pub name: Vec<u8>,
    pub value: Vec<u8>,
}

/// The model of a batch input entry.
pub ghost struct AttrInputView {
    pub name: Seq<u8>,
    pub value: Seq<u8>,
}

impl View for AttrInput {
    type V = AttrInputView;

    open spec fn view(&self) -> AttrInputView {
        AttrInputView { name: self.name@, value: self.value@ }
    }
}

/// The models of a batch of input entries.
pub open spec fn inputs_view(s: Seq<AttrInput>) -> Seq<AttrInputView> {
    s.map_values(|a: AttrInput| a@)
}

impl StateModel {
    /// The transition of `create_attribute`: a fresh version of `name` is
    /// issued under the current nonce, the nonce increments, and the audit
    /// trail records the write.  A name that still resolves cannot be
    /// created again, and an exhausted nonce fails the call.
    pub open spec fn spec_create_attribute(
        self,
        who: Seq<u8>,
        identity: Seq<u8>,
        name: Seq<u8>,
        value: Seq<u8>,
        valid_for: Option<u64>,
        h: u64,
        t: u64,
    ) -> (StateModel, Result<(), ErrorKind>) {
        if self.owner_of(identity) != who {
            (self, Err(ErrorKind::NotOwner))
        } else if self.resolve(identity, name) is Some {
            (self, Err(ErrorKind::AttributeCreationFailed))
        } else {
            let n = self.nonce_of(identity, name);
            if n == u64::MAX {
                (self, Err(ErrorKind::Overflow))
            } else {
                let expiry = match valid_for {
                    Some(d) => sat_add64(h, d),
                    None => u64::MAX,
                };
                let rec = AttributeRecordView {
                    name: name,
                    value: value,
                    expiry: expiry,
                    created: t,
                    nonce: n,
                };
                (
                    StateModel {
                        attributes: self.attributes.insert(
                            (identity, attribute_id(identity, name, n)),
                            rec,
                        ),
                        nonces: self.nonces.insert((identity, name), (n + 1) as u64),
                        audits: self.audits.insert(
                            identity,
                            AuditRecordView { who: who, height: h, time: t },
                        ),
                        ..self
                    },
                    Ok(()),
                )
            }
        }
    }

    /// The transition of `add_attribute`.
    pub open spec fn spec_add_attribute(
        self,
        caller: Seq<u8>,
        identity: Seq<u8>,
        name: Seq<u8>,
        value: Seq<u8>,
        valid_for: Option<u64>,
        h: u64,
        t: u64,
    ) -> (StateModel, Result<(), ErrorKind>) {
        if name.len() > MAX_FIELD_LEN {
            (self, Err(ErrorKind::AttributeCreationFailed))
        } else {
            self.spec_create_attribute(caller, identity, name, value, valid_for, h, t)
        }
    }

    /// The transition of `revoke_attribute`: the record that `name`
    /// resolves to expires at the current height; the entry stays readable.
    pub open spec fn spec_revoke_attribute(
        self,
        who: Seq<u8>,
        identity: Seq<u8>,
        name: Seq<u8>,
        h: u64,
        t: u64,
    ) -> (StateModel, Result<(), ErrorKind>) {
        if self.owner_of(identity) != who {
            (self, Err(ErrorKind::NotOwner))
        } else {
            match self.resolve(identity, name) {
                None => (self, Err(ErrorKind::AttributeResetFailed)),
                Some(rec) => (
                    StateModel {
                        attributes: self.attributes.insert(
                            (identity, self.current_id(identity, name)),
                            AttributeRecordView { expiry: h, ..rec },
                        ),
                        audits: self.audits.insert(
                            identity,
                            AuditRecordView { who: who, height: h, time: t },
                        ),
                        ..self
                    },
                    Ok(()),
                ),
            }
        }
    }

    /// The transition of `delete_attribute`: the record that `name`
    /// resolves to is removed; the nonce stays, so the next create gets a
    /// fresh identifier.
    pub open spec fn spec_delete_attribute(
        self,
        caller: Seq<u8>,
        identity: Seq<u8>,
        name: Seq<u8>,
        h: u64,
        t: u64,
    ) -> (StateModel, Result<(), ErrorKind>) {
        if self.owner_of(identity) != caller {
            (self, Err(ErrorKind::NotOwner))
        } else if name.len() > MAX_FIELD_LEN {
            (self, Err(ErrorKind::AttributeRemovalFailed))
        } else if self.resolve(identity, name) is None {
            (self, Err(ErrorKind::AttributeRemovalFailed))
        } else {
            (
                StateModel {
                    attributes: self.attributes.remove((identity, self.current_id(identity, name))),
                    audits: self.audits.insert(
                        identity,
                        AuditRecordView { who: caller, height: h, time: t },
                    ),
                    ..self
                },
                Ok(()),
            )
        }
    }
}

impl EngineState {
    /// The next version counter of `(identity, name)`.
    pub fn nonce_of(&self, identity: &Vec<u8>, name: &Vec<u8>) -> (n: u64)
        requires
            self.wf(),
        ensures
            n == self@.nonce_of(identity@, name@),
    {
        let found = table2_find(&self.nonces, identity, name);
        match found {
            Some(i) => {
                proof {
                    lemma_table_map_index(self.nonces@, i as int);
                }
                self.nonces[i].v
            },
            None => 0,
        }
    }

    /// The index of the attribute row that `name` currently resolves to.
    pub(crate) fn resolve_index(&self, identity: &Vec<u8>, name: &Vec<u8>) -> (r: Option<usize>)
        requires
            self.wf(),
            identity@.len() <= 0xffffffff,
            name@.len() <= 0xffffffff,
        ensures
            match r {
                Some(i) => {
                    &&& i < self.attributes@.len()
                    &&& rec_key(self.attributes@[i as int]) == (
                        identity@,
                        self@.current_id(identity@, name@),
                        no_part(),
                    )
                    &&& self@.resolve(identity@, name@) == Some(self.attributes@[i as int].v@)
                },
                None => self@.resolve(identity@, name@) is None,
            },
    {
        let n = self.nonce_of(identity, name);
        if n == 0 {
            return None;
        }
        let id = compute_attribute_id(identity, name, n - 1);
        let found = table2_find(&self.attributes, identity, &id);
        match found {
            Some(i) => {
                proof {
                    lemma_table_map_index(self.attributes@, i as int);
                }
                Some(i)
            },
            None => None,
        }
    }

    /// The record that `name` currently resolves to, if any.
    pub fn resolve_current(&self, identity: &Vec<u8>, name: &Vec<u8>) -> (r: Option<
        AttributeRecord,
    >)
        requires
            self.wf(),
            identity@.len() <= 0xffffffff,
            name@.len() <= 0xffffffff,
        ensures
            match r {
                Some(rec) => self@.resolve(identity@, name@) == Some(rec@),
                None => self@.resolve(identity@, name@) is None,
            },
    {
        let found = self.resolve_index(identity, name);
        match found {
            Some(i) => Some(copy_record(&self.attributes[i].v)),
            None => None,
        }
    }

    /// Creates a fresh version of the attribute under the owner's
    /// authority.
    pub(crate) fn create_attribute(
        &mut self,
        who: &Vec<u8>,
        identity: &Vec<u8>,
        name: &Vec<u8>,
        value: &Vec<u8>,
        valid_for: Option<u64>,
        now_height: u64,
        now_time: u64,
    ) -> (r: Result<(), ErrorKind>)
        requires
            old(self).wf(),
            identity@.len() <= 0xffffffff,
            name@.len() <= 0xffffffff,
        ensures
            final(self).wf(),
            (final(self)@, r) == old(self)@.spec_create_attribute(
                who@,
                identity@,
                name@,
                value@,
                valid_for,
                now_height,
                now_time,
            ),
    {
        if let Err(e) = self.is_owner(identity, who) {
            return Err(e);
        }
        if self.resolve_index(identity, name).is_some() {
            return Err(ErrorKind::AttributeCreationFailed);
        }
        let nonce = self.nonce_of(identity, name);
        if nonce == u64::MAX {
            return Err(ErrorKind::Overflow);
        }
        let validity: u64 = match valid_for {
            Some(blocks) => sat_add(now_height, blocks),
            None => u64::MAX,
        };
        let id = compute_attribute_id(identity, name, nonce);
        let new_attribute = AttributeRecord {
            name: clone_bytes(name),
            value: clone_bytes(value),
            expiry: validity,
            created: now_time,
            nonce: nonce,
        };
        table2_upsert(&mut self.attributes, clone_bytes(identity), id, new_attribute);
        table2_upsert(&mut self.nonces, clone_bytes(identity), clone_bytes(name), nonce + 1);
        table1_upsert(
            &mut self.audits,
            clone_bytes(identity),
            AuditRecord { who: clone_bytes(who), height: now_height, time: now_time },
        );
        proof {
            let m0 = old(self)@;
            assert(self.attributes_map() =~= m0.attributes.insert(
                (identity@, attribute_id(identity@, name@, nonce)),
                AttributeRecordView {
                    name: name@,
                    value: value@,
                    expiry: validity,
                    created: now_time,
                    nonce: nonce,
                },
            ));
            assert(self.nonces_map() =~= m0.nonces.insert((identity@, name@), (nonce + 1) as u64));
            assert(self.audits_map() =~= m0.audits.insert(
                identity@,
                AuditRecordView { who: who@, height: now_height, time: now_time },
            ));
            assert(self@ =~= m0.spec_create_attribute(
                who@,
                identity@,
                name@,
                value@,
                valid_for,
                now_height,
                now_time,
            ).0);
        }
        Ok(())
    }

    /// Creates a new attribute of an identity with an expiry period.
    pub fn add_attribute(
        &mut self,
        caller: &Vec<u8>,
        identity: &Vec<u8>,
        name: &Vec<u8>,
        value: &Vec<u8>,
        valid_for: Option<u64>,
        now_height: u64,
        now_time: u64,
    ) -> (r: Result<(), ErrorKind>)
        requires
            old(self).wf(),
            identity@.len() <= 0xffffffff,
        ensures
            final(self).wf(),
            (final(self)@, r) == old(self)@.spec_add_attribute(
                caller@,
                identity@,
                name@,
                value@,
                valid_for,
                now_height,
                now_time,
            ),
    {
        if name.len() > MAX_FIELD_LEN {
            return Err(ErrorKind::AttributeCreationFailed);
        }
        self.create_attribute(caller, identity, name, value, valid_for, now_height, now_time)
    }

    /// Revokes an attribute by setting its expiry to the current height.
    pub fn revoke_attribute(
        &mut self,
        caller: &Vec<u8>,
        identity: &Vec<u8>,
        name: &Vec<u8>,
        now_height: u64,
        now_time: u64,
    ) -> (r: Result<(), ErrorKind>)
        requires
            old(self).wf(),
            identity@.len() <= 0xffffffff,
            name@.len() <= 0xffffffff,
        ensures
            final(self).wf(),
            (final(self)@, r) == old(self)@.spec_revoke_attribute(
                caller@,
                identity@,
                name@,
                now_height,
                now_time,
            ),
    {
        if let Err(e) = self.is_owner(identity, caller) {
            return Err(e);
        }
        let found = self.resolve_index(identity, name);
        match found {
            None => Err(ErrorKind::AttributeResetFailed),
            Some(i) => {
                let id = clone_bytes(&self.attributes[i].k2);
                let row = &self.attributes[i].v;
                let updated = AttributeRecord {
                    name: clone_bytes(&row.name),
                    value: clone_bytes(&row.value),
                    expiry: now_height,
                    created: row.created,
                    nonce: row.nonce,
                };
                table2_upsert(&mut self.attributes, clone_bytes(identity), id, updated);
                table1_upsert(
                    &mut self.audits,
                    clone_bytes(identity),
                    AuditRecord { who: clone_bytes(caller), height: now_height, time: now_time },
                );
                proof {
                    let m0 = old(self)@;
                    let rec = m0.resolve(identity@, name@).unwrap();
                    assert(self.attributes_map() =~= m0.attributes.insert(
                        (identity@, m0.current_id(identity@, name@)),
                        AttributeRecordView { expiry: now_height, ..rec },
                    ));
                    assert(self.audits_map() =~= m0.audits.insert(
                        identity@,
                        AuditRecordView { who: caller@, height: now_height, time: now_time },
                    ));
                    assert(self@ =~= m0.spec_revoke_attribute(
                        caller@,
                        identity@,
                        name@,
                        now_height,
                        now_time,
                    ).0);
                }
                Ok(())
            },
        }
    }

    /// Removes an attribute entirely; its identifier space is never reused
    /// because the nonce stays.
    pub fn delete_attribute(
        &mut self,
        caller: &Vec<u8>,
        identity: &Vec<u8>,
        name: &Vec<u8>,
        now_height: u64,
        now_time: u64,
    ) -> (r: Result<(), ErrorKind>)
        requires
            old(self).wf(),
            identity@.len() <= 0xffffffff,
        ensures
            final(self).wf(),
            (final(self)@, r) == old(self)@.spec_delete_attribute(
                caller@,
                identity@,
                name@,
                now_height,
                now_time,
            ),
    {
        if let Err(e) = self.is_owner(identity, caller) {
            return Err(e);
        }
        if name.len() > MAX_FIELD_LEN {
            return Err(ErrorKind::AttributeRemovalFailed);
        }
        let found = self.resolve_index(identity, name);
        match found {
            None => Err(ErrorKind::AttributeRemovalFailed),
            Some(i) => {
                let id = clone_bytes(&self.attributes[i].k2);
                let _ = table2_remove(&mut self.attributes, identity, &id);
                table1_upsert(
                    &mut self.audits,
                    clone_bytes(identity),
                    AuditRecord { who: clone_bytes(caller), height: now_height, time: now_time },
                );
                proof {
                    let m0 = old(self)@;
                    assert(self.attributes_map() =~= m0.attributes.remove(
                        (identity@, m0.current_id(identity@, name@)),
                    ));
                    assert(self.audits_map() =~= m0.audits.insert(
                        identity@,
                        AuditRecordView { who: caller@, height: now_height, time: now_time },
                    ));
                    assert(self@ =~= m0.spec_delete_attribute(
                        caller@,
                        identity@,
                        name@,
                        now_height,
                        now_time,
                    ).0);
                }
                Ok(())
            },
        }
    }

    /// Validates that the attribute resolves, is unexpired at the current
    /// height, and holds the given value.
    pub fn valid_attribute(
        &self,
        identity: &Vec<u8>,
        name: &Vec<u8>,
        value: &Vec<u8>,
        now_height: u64,
    ) -> (r: Result<(), ErrorKind>)
        requires
            self.wf(),
            identity@.len() <= 0xffffffff,
        ensures
            r == if name@.len() <= MAX_FIELD_LEN && match self@.resolve(identity@, name@) {
                Some(rec) => rec.expiry > now_height && rec.value == value@,
                None => false,
            } {
                Ok::<(), ErrorKind>(())
            } else {
                Err::<(), ErrorKind>(ErrorKind::InvalidAttributes)
            },
    {
        if name.len() > MAX_FIELD_LEN {
            return Err(ErrorKind::InvalidAttributes);
        }
        let found = self.resolve_index(identity, name);
        match found {
            None => Err(ErrorKind::InvalidAttributes),
            Some(i) => {
                if self.attributes[i].v.expiry > now_height && bytes_eq(
                    &self.attributes[i].v.value,
                    value,
                ) {
                    Ok(())
                } else {
                    Err(ErrorKind::InvalidAttributes)
                }
            },
        }
    }
}

/// Every entry of a batch respects the per-field length bound.
pub open spec fn inputs_ok(list: Seq<AttrInputView>) -> bool {
    forall|i: int|
        0 <= i < list.len() ==> (#[trigger] list[i]).name.len() <= MAX_FIELD_LEN
            && list[i].value.len() <= MAX_FIELD_LEN
}

/// Some name occurs twice in the batch.
pub open spec fn dup_names(list: Seq<AttrInputView>) -> bool {
    exists|i: int, j: int|
        0 <= i < j < list.len() && (#[trigger] list[i]).name == (#[trigger] list[j]).name
}

/// Every entry of the batch can be written: it either resolves already or
/// its nonce is not exhausted.
pub open spec fn batch_can_issue(m: StateModel, identity: Seq<u8>, list: Seq<AttrInputView>) -> bool {
    forall|i: int|
        0 <= i < list.len() ==> m.resolve(identity, (#[trigger] list[i]).name) is Some
            || m.nonce_of(identity, list[i].name) < u64::MAX
}

impl StateModel {
    /// One write of `set_attributes`.  A name that resolves is overwritten
    /// in place, keeping its identifier, nonce and expiry; if its value
    /// changed, every endorsement of that attribute is invalidated.  A name
    /// that does not resolve is created under a fresh nonce with unbounded
    /// expiry.
    pub open spec fn apply_set_attr(
        self,
        identity: Seq<u8>,
        name: Seq<u8>,
        value: Seq<u8>,
        t: u64,
    ) -> StateModel {
        match self.resolve(identity, name) {
            Some(rec) => {
                let rec2 = AttributeRecordView {
                    name: name,
                    value: value,
                    expiry: rec.expiry,
                    created: t,
                    nonce: rec.nonce,
                };
                let m2 = StateModel {
                    attributes: self.attributes.insert(
                        (identity, self.current_id(identity, name)),
                        rec2,
                    ),
                    ..self
                };
                if rec.value != value {
                    StateModel {
                        endorsements: m2.endorsements.remove_keys(
                            crate::table::prefix_keys(identity, name),
                        ),
                        ..m2
                    }
                } else {
                    m2
                }
            },
            None => {
                let n = self.nonce_of(identity, name);
                let rec = AttributeRecordView {
                    name: name,
                    value: value,
                    expiry: u64::MAX,
                    created: t,
                    nonce: n,
                };
                StateModel {
                    attributes: self.attributes.insert(
                        (identity, attribute_id(identity, name, n)),
                        rec,
                    ),
                    nonces: self.nonces.insert((identity, name), (n + 1) as u64),
                    ..self
                }
            },
        }
    }

    /// The writes of `set_attributes`, applied in batch order.
    pub open spec fn apply_set_attrs(
        self,
        identity: Seq<u8>,
        list: Seq<AttrInputView>,
        t: u64,
    ) -> StateModel
        decreases list.len(),
    {
        if list.len() == 0 {
            self
        } else {
            self.apply_set_attr(identity, list.first().name, list.first().value, t)
                .apply_set_attrs(identity, list.drop_first(), t)
        }
    }

    /// The transition of `set_attributes`: the length bounds, the ownership
    /// check, the duplicate check and the nonce-exhaustion check all run
    /// before the first write, so a failed call changes nothing.
    pub open spec fn spec_set_attributes(
        self,
        caller: Seq<u8>,
        identity: Seq<u8>,
        list: Seq<AttrInputView>,
        t: u64,
    ) -> (StateModel, Result<(), ErrorKind>) {
        if list.len() > MAX_FIELD_LEN {
            (self, Err(ErrorKind::InputOverflow))
        } else if !inputs_ok(list) {
            (self, Err(ErrorKind::InputOverflow))
        } else if self.owner_of(identity) != caller {
            (self, Err(ErrorKind::NotOwner))
        } else if dup_names(list) {
            (self, Err(ErrorKind::DuplicateAttributeKey))
        } else if !batch_can_issue(self, identity, list) {
            (self, Err(ErrorKind::Overflow))
        } else {
            (self.apply_set_attrs(identity, list, t), Ok(()))
        }
    }

    /// One removal of `clear_attributes`.
    pub open spec fn apply_clear_attr(self, identity: Seq<u8>, name: Seq<u8>) -> StateModel {
        StateModel {
            attributes: self.attributes.remove((identity, self.current_id(identity, name))),
            ..self
        }
    }

    /// The removals of `clear_attributes`, applied in batch order.
    pub open spec fn apply_clear_attrs(self, identity: Seq<u8>, keys: Seq<Seq<u8>>) -> StateModel
        decreases keys.len(),
    {
        if keys.len() == 0 {
            self
        } else {
            self.apply_clear_attr(identity, keys.first()).apply_clear_attrs(
                identity,
                keys.drop_first(),
            )
        }
    }

    /// The transition of `clear_attributes`: every named attribute must
    /// currently resolve, or the whole call fails with nothing applied; on
    /// success each resolved entry is removed and the nonces stay.
    pub open spec fn spec_clear_attributes(
        self,
        caller: Seq<u8>,
        identity: Seq<u8>,
        keys: Seq<Seq<u8>>,
    ) -> (StateModel, Result<(), ErrorKind>) {
        if keys.len() > MAX_FIELD_LEN {
            (self, Err(ErrorKind::InputOverflow))
        } else if !(forall|i: int| 0 <= i < keys.len() ==> (#[trigger] keys[i]).len()
            <= MAX_FIELD_LEN) {
            (self, Err(ErrorKind::InputOverflow))
        } else if self.owner_of(identity) != caller {
            (self, Err(ErrorKind::NotOwner))
        } else if !(forall|i: int|
            0 <= i < keys.len() ==> self.resolve(identity, #[trigger] keys[i]) is Some) {
            (self, Err(ErrorKind::InvalidAttributes))
        } else {
            (self.apply_clear_attrs(identity, keys), Ok(()))
        }
    }
}

/// Appending one entry to a batch applies it after the rest.
pub proof fn lemma_apply_set_attrs_snoc(
    m: StateModel,
    identity: Seq<u8>,
    list: Seq<AttrInputView>,
    e: AttrInputView,
    t: u64,
)
    ensures
        m.apply_set_attrs(identity, list.push(e), t) == m.apply_set_attrs(identity, list, t)
            .apply_set_attr(identity, e.name, e.value, t),
    decreases list.len(),
{
    reveal_with_fuel(StateModel::apply_set_attrs, 2);
    if list.len() == 0 {
        assert(list.push(e).first() == e);
        assert(list.push(e).drop_first() =~= Seq::<AttrInputView>::empty());
        assert(m.apply_set_attrs(identity, Seq::<AttrInputView>::empty(), t) == m);
    } else {
        let m1 = m.apply_set_attr(identity, list.first().name, list.first().value, t);
        assert(list.push(e).first() == list.first());
        assert(list.push(e).drop_first() =~= list.drop_first().push(e));
        lemma_apply_set_attrs_snoc(m1, identity, list.drop_first(), e, t);
        assert(m.apply_set_attrs(identity, list.push(e), t) == m1.apply_set_attrs(
            identity,
            list.drop_first().push(e),
            t,
        ));
        assert(m.apply_set_attrs(identity, list, t) == m1.apply_set_attrs(
            identity,
            list.drop_first(),
            t,
        ));
    }
}

/// One write for a different name keeps a name's nonce, and keeps it
/// resolving if it resolved.
pub proof fn lemma_apply_set_attr_other_name(
    m: StateModel,
    identity: Seq<u8>,
    wname: Seq<u8>,
    wvalue: Seq<u8>,
    t: u64,
    name: Seq<u8>,
)
    requires
        wname != name,
    ensures
        m.apply_set_attr(identity, wname, wvalue, t).nonce_of(identity, name) == m.nonce_of(
            identity,
            name,
        ),
        m.resolve(identity, name) is Some ==> m.apply_set_attr(identity, wname, wvalue, t).resolve(
            identity,
            name,
        ) is Some,
{
}

/// A batch of writes, none for the given name, keeps that name's nonce,
/// and keeps it resolving if it resolved.
pub proof fn lemma_apply_set_attrs_other_name(
    m: StateModel,
    identity: Seq<u8>,
    list: Seq<AttrInputView>,
    t: u64,
    name: Seq<u8>,
)
    requires
        forall|i: int| 0 <= i < list.len() ==> (#[trigger] list[i]).name != name,
    ensures
        m.apply_set_attrs(identity, list, t).nonce_of(identity, name) == m.nonce_of(identity, name),
        m.resolve(identity, name) is Some ==> m.apply_set_attrs(identity, list, t).resolve(
            identity,
            name,
        ) is Some,
    decreases list.len(),
{
    if list.len() > 0 {
        lemma_apply_set_attr_other_name(m, identity, list.first().name, list.first().value, t, name);
        lemma_apply_set_attrs_other_name(
            m.apply_set_attr(identity, list.first().name, list.first().value, t),
            identity,
            list.drop_first(),
            t,
            name,
        );
    }
}

/// Appending one key to a clearing batch removes it after the rest.
pub proof fn lemma_apply_clear_attrs_snoc(
    m: StateModel,
    identity: Seq<u8>,
    keys: Seq<Seq<u8>>,
    e: Seq<u8>,
)
    ensures
        m.apply_clear_attrs(identity, keys.push(e)) == m.apply_clear_attrs(identity, keys)
            .apply_clear_attr(identity, e),
    decreases keys.len(),
{
    reveal_with_fuel(StateModel::apply_clear_attrs, 2);
    if keys.len() == 0 {
        assert(keys.push(e).first() == e);
        assert(keys.push(e).drop_first() =~= Seq::<Seq<u8>>::empty());
        assert(m.apply_clear_attrs(identity, Seq::<Seq<u8>>::empty()) == m);
    } else {
        let m1 = m.apply_clear_attr(identity, keys.first());
        assert(keys.push(e).first() == keys.first());
        assert(keys.push(e).drop_first() =~= keys.drop_first().push(e));
        lemma_apply_clear_attrs_snoc(m1, identity, keys.drop_first(), e);
        assert(m.apply_clear_attrs(identity, keys.push(e)) == m1.apply_clear_attrs(
            identity,
            keys.drop_first().push(e),
        ));
        assert(m.apply_clear_attrs(identity, keys) == m1.apply_clear_attrs(
            identity,
            keys.drop_first(),
        ));
    }
}

/// Clearing never touches the nonces.
pub proof fn lemma_apply_clear_attrs_keeps_nonces(m: StateModel, identity: Seq<u8>, keys: Seq<
    Seq<u8>,
>)
    ensures
        m.apply_clear_attrs(identity, keys).nonces == m.nonces,
    decreases keys.len(),
{
    if keys.len() > 0 {
        lemma_apply_clear_attrs_keeps_nonces(
            m.apply_clear_attr(identity, keys.first()),
            identity,
            keys.drop_first(),
        );
    }
}

impl EngineState {
    /// Whether some name of the batch occurs twice.
    pub fn check_attr_keys_duplication(list_of_attrs: &Vec<AttrInput>) -> (r: bool)
        ensures
            r == dup_names(inputs_view(list_of_attrs@)),
    {
        let ghost iv = inputs_view(list_of_attrs@);
        let n = list_of_attrs.len();
        let mut i: usize = 0;
        while i < n
            invariant
                iv == inputs_view(list_of_attrs@),
                n == list_of_attrs@.len(),
                i <= n,
                forall|a: int, b: int| 0 <= a < b < n && a < i ==> iv[a].name != iv[b].name,
            decreases n - i,
        {
            let mut j: usize = i + 1;
            while j < n
                invariant
                    iv == inputs_view(list_of_attrs@),
                    n == list_of_attrs@.len(),
                    i < j,
                    j <= n,
                    i < n,
                    forall|b: int| i < b < j ==> iv[i as int].name != iv[b].name,
                decreases n - j,
            {
                if bytes_eq(&list_of_attrs[i].name, &list_of_attrs[j].name) {
                    proof {
                        assert(iv[i as int].name == iv[j as int].name);
                    }
                    return true;
                }
                j = j + 1;
            }
            i = i + 1;
        }
        proof {
            if dup_names(iv) {
                let (a, b) = choose|a: int, b: int|
                    0 <= a < b < iv.len() && (#[trigger] iv[a]).name == (#[trigger] iv[b]).name;
                assert(iv[a].name != iv[b].name);
            }
        }
        false
    }

    /// Sets a batch of attributes: each entry overwrites its name in place
    /// or creates it under a fresh nonce; a changed value invalidates every
    /// endorsement of that attribute.  All checks run before any write.
    pub fn set_attributes(
        &mut self,
        caller: &Vec<u8>,
        identity: &Vec<u8>,
        list_of_attrs: &Vec<AttrInput>,
        now_time: u64,
    ) -> (r: Result<(), ErrorKind>)
        requires
            old(self).wf(),
            identity@.len() <= 0xffffffff,
        ensures
            final(self).wf(),
            (final(self)@, r) == old(self)@.spec_set_attributes(
                caller@,
                identity@,
                inputs_view(list_of_attrs@),
                now_time,
            ),
    {
        let ghost m0 = old(self)@;
        let ghost iv = inputs_view(list_of_attrs@);
        let n = list_of_attrs.len();
        if n > MAX_FIELD_LEN {
            return Err(ErrorKind::InputOverflow);
        }
        let mut i: usize = 0;
        while i < n
            invariant
                self == old(self),
                self.wf(),
                m0 == old(self)@,
                iv == inputs_view(list_of_attrs@),
                n == list_of_attrs@.len(),
                n <= MAX_FIELD_LEN,
                i <= n,
                forall|j: int|
                    0 <= j < i ==> (#[trigger] iv[j]).name.len() <= MAX_FIELD_LEN && iv[j].value.len()
                        <= MAX_FIELD_LEN,
            decreases n - i,
        {
            if list_of_attrs[i].name.len() > MAX_FIELD_LEN || list_of_attrs[i].value.len()
                > MAX_FIELD_LEN {
                proof {
                    assert(!(iv[i as int].name.len() <= MAX_FIELD_LEN && iv[i as int].value.len()
                        <= MAX_FIELD_LEN));
                }
                return Err(ErrorKind::InputOverflow);
            }
            i = i + 1;
        }
        assert(inputs_ok(iv));
        if let Err(e) = self.is_owner(identity, caller) {
            return Err(e);
        }
        if Self::check_attr_keys_duplication(list_of_attrs) {
            return Err(ErrorKind::DuplicateAttributeKey);
        }
        let mut i: usize = 0;
        while i < n
            invariant
                self.wf(),
                self == old(self),
                m0 == old(self)@,
                identity@.len() <= 0xffffffff,
                iv == inputs_view(list_of_attrs@),
                n == list_of_attrs@.len(),
                n <= MAX_FIELD_LEN,
                i <= n,
                inputs_ok(iv),
                m0.owner_of(identity@) == caller@,
                !dup_names(iv),
                forall|j: int|
                    0 <= j < i ==> m0.resolve(identity@, (#[trigger] iv[j]).name) is Some
                        || m0.nonce_of(identity@, iv[j].name) < u64::MAX,
            decreases n - i,
        {
            if self.resolve_index(identity, &list_of_attrs[i].name).is_none() {
                let nn = self.nonce_of(identity, &list_of_attrs[i].name);
                if nn == u64::MAX {
                    proof {
                        assert(m0.resolve(identity@, iv[i as int].name) is None && m0.nonce_of(
                            identity@,
                            iv[i as int].name,
                        ) == u64::MAX);
                        assert(!batch_can_issue(m0, identity@, iv));
                    }
                    return Err(ErrorKind::Overflow);
                }
            }
            i = i + 1;
        }
        assert(batch_can_issue(m0, identity@, iv));

        let mut idx: usize = 0;
        while idx < n
            invariant
                self.wf(),
                m0 == old(self)@,
                identity@.len() <= 0xffffffff,
                iv == inputs_view(list_of_attrs@),
                n == list_of_attrs@.len(),
                idx <= n,
                inputs_ok(iv),
                !dup_names(iv),
                batch_can_issue(m0, identity@, iv),
                self@ == m0.apply_set_attrs(identity@, iv.take(idx as int), now_time),
            decreases n - idx,
        {
            let ghost cur = self@;
            let ghost ename = iv[idx as int].name;
            let ghost evalue = iv[idx as int].value;
            proof {
                assert(iv[idx as int] == list_of_attrs@[idx as int]@);
                assert forall|j: int| 0 <= j < iv.take(idx as int).len() implies (#[trigger] iv.take(
                    idx as int,
                )[j]).name != ename by {
                    if iv.take(idx as int)[j].name == ename {
                        assert(0 <= j && j < idx as int && (idx as int) < iv.len() && iv[j].name
                            == iv[idx as int].name);
                        assert(dup_names(iv));
                    }
                }
                lemma_apply_set_attrs_other_name(
                    m0,
                    identity@,
                    iv.take(idx as int),
                    now_time,
                    ename,
                );
            }
            let found = self.resolve_index(identity, &list_of_attrs[idx].name);
            match found {
                Some(i) => {
                    let id = clone_bytes(&self.attributes[i].k2);
                    let changed = !bytes_eq(&self.attributes[i].v.value, &list_of_attrs[idx].value);
                    let updated = AttributeRecord {
                        name: clone_bytes(&list_of_attrs[idx].name),
                        value: clone_bytes(&list_of_attrs[idx].value),
                        expiry: self.attributes[i].v.expiry,
                        created: now_time,
                        nonce: self.attributes[i].v.nonce,
                    };
                    let ghost rec = cur.resolve(identity@, ename).unwrap();
                    table2_upsert(&mut self.attributes, clone_bytes(identity), id, updated);
                    proof {
                        assert(self.attributes_map() =~= cur.attributes.insert(
                            (identity@, cur.current_id(identity@, ename)),
                            AttributeRecordView {
                                name: ename,
                                value: evalue,
                                expiry: rec.expiry,
                                created: now_time,
                                nonce: rec.nonce,
                            },
                        ));
                    }
                    if changed {
                        self.remove_endorsements_per_attribute(identity, &list_of_attrs[idx].name);
                    }
                    proof {
                        assert(self@ =~= cur.apply_set_attr(identity@, ename, evalue, now_time));
                    }
                },
                None => {
                    proof {
                        assert(m0.resolve(identity@, ename) is Some ==> cur.resolve(
                            identity@,
                            ename,
                        ) is Some);
                        assert(m0.resolve(identity@, ename) is None);
                        assert(m0.nonce_of(identity@, ename) < u64::MAX);
                        assert(cur.nonce_of(identity@, ename) == m0.nonce_of(identity@, ename));
                    }
                    let nn = self.nonce_of(identity, &list_of_attrs[idx].name);
                    let id = compute_attribute_id(identity, &list_of_attrs[idx].name, nn);
                    let rec = AttributeRecord {
                        name: clone_bytes(&list_of_attrs[idx].name),
                        value: clone_bytes(&list_of_attrs[idx].value),
                        expiry: u64::MAX,
                        created: now_time,
                        nonce: nn,
                    };
                    table2_upsert(&mut self.attributes, clone_bytes(identity), id, rec);
                    table2_upsert(
                        &mut self.nonces,
                        clone_bytes(identity),
                        clone_bytes(&list_of_attrs[idx].name),
                        nn + 1,
                    );
                    proof {
                        assert(self.attributes_map() =~= cur.attributes.insert(
                            (identity@, attribute_id(identity@, ename, nn)),
                            AttributeRecordView {
                                name: ename,
                                value: evalue,
                                expiry: u64::MAX,
                                created: now_time,
                                nonce: nn,
                            },
                        ));
                        assert(self.nonces_map() =~= cur.nonces.insert(
                            (identity@, ename),
                            (nn + 1) as u64,
                        ));
                        assert(self@ =~= cur.apply_set_attr(identity@, ename, evalue, now_time));
                    }
                },
            }
            proof {
                lemma_apply_set_attrs_snoc(m0, identity@, iv.take(idx as int), iv[idx as int], now_time);
                assert(iv.take(idx as int + 1) =~= iv.take(idx as int).push(iv[idx as int]));
            }
            idx = idx + 1;
        }
        proof {
            assert(iv.take(n as int) =~= iv);
        }
        Ok(())
    }

    /// Removes a batch of attributes; every name must currently resolve or
    /// the whole call fails with nothing applied.
    pub fn clear_attributes(
        &mut self,
        caller: &Vec<u8>,
        identity: &Vec<u8>,
        list_of_attr_keys: &Vec<Vec<u8>>,
    ) -> (r: Result<(), ErrorKind>)
        requires
            old(self).wf(),
            identity@.len() <= 0xffffffff,
        ensures
            final(self).wf(),
            (final(self)@, r) == old(self)@.spec_clear_attributes(
                caller@,
                identity@,
                list_of_attr_keys@.map_values(|k: Vec<u8>| k@),
            ),
    {
        let ghost m0 = old(self)@;
        let ghost kv = list_of_attr_keys@.map_values(|k: Vec<u8>| k@);
        let n = list_of_attr_keys.len();
        if n > MAX_FIELD_LEN {
            return Err(ErrorKind::InputOverflow);
        }
        let mut i: usize = 0;
        while i < n
            invariant
                self == old(self),
                self.wf(),
                m0 == old(self)@,
                kv == list_of_attr_keys@.map_values(|k: Vec<u8>| k@),
                n == list_of_attr_keys@.len(),
                n <= MAX_FIELD_LEN,
                i <= n,
                forall|j: int| 0 <= j < i ==> (#[trigger] kv[j]).len() <= MAX_FIELD_LEN,
            decreases n - i,
        {
            if list_of_attr_keys[i].len() > MAX_FIELD_LEN {
                proof {
                    assert(kv[i as int].len() > MAX_FIELD_LEN);
                }
                return Err(ErrorKind::InputOverflow);
            }
            i = i + 1;
        }
        if let Err(e) = self.is_owner(identity, caller) {
            return Err(e);
        }
        let mut i: usize = 0;
        while i < n
            invariant
                self.wf(),
                self == old(self),
                m0 == old(self)@,
                identity@.len() <= 0xffffffff,
                kv == list_of_attr_keys@.map_values(|k: Vec<u8>| k@),
                n == list_of_attr_keys@.len(),
                n <= MAX_FIELD_LEN,
                i <= n,
                m0.owner_of(identity@) == caller@,
                forall|j: int| 0 <= j < n ==> (#[trigger] kv[j]).len() <= MAX_FIELD_LEN,
                forall|j: int| 0 <= j < i ==> m0.resolve(identity@, #[trigger] kv[j]) is Some,
            decreases n - i,
        {
            if self.resolve_index(identity, &list_of_attr_keys[i]).is_none() {
                proof {
                    assert(m0.resolve(identity@, kv[i as int]) is None);
                }
                return Err(ErrorKind::InvalidAttributes);
            }
            i = i + 1;
        }

        let mut idx: usize = 0;
        while idx < n
            invariant
                self.wf(),
                m0 == old(self)@,
                identity@.len() <= 0xffffffff,
                kv == list_of_attr_keys@.map_values(|k: Vec<u8>| k@),
                n == list_of_attr_keys@.len(),
                idx <= n,
                forall|j: int| 0 <= j < n ==> (#[trigger] kv[j]).len() <= MAX_FIELD_LEN,
                forall|j: int| 0 <= j < n ==> m0.resolve(identity@, #[trigger] kv[j]) is Some,
                self@ == m0.apply_clear_attrs(identity@, kv.take(idx as int)),
            decreases n - idx,
        {
            let ghost cur = self@;
            let ghost kname = kv[idx as int];
            proof {
                assert(kv[idx as int] == list_of_attr_keys@[idx as int]@);
                lemma_apply_clear_attrs_keeps_nonces(m0, identity@, kv.take(idx as int));
                assert(cur.nonce_of(identity@, kname) == m0.nonce_of(identity@, kname));
                assert(m0.resolve(identity@, kname) is Some);
                assert(m0.nonce_of(identity@, kname) > 0);
            }
            let nn = self.nonce_of(identity, &list_of_attr_keys[idx]);
            let id = compute_attribute_id(identity, &list_of_attr_keys[idx], nn - 1);
            let _ = table2_remove(&mut self.attributes, identity, &id);
            proof {
                assert(self.attributes_map() =~= cur.attributes.remove(
                    (identity@, cur.current_id(identity@, kname)),
                ));
                assert(self@ =~= cur.apply_clear_attr(identity@, kname));
                lemma_apply_clear_attrs_snoc(m0, identity@, kv.take(idx as int), kname);
                assert(kv.take(idx as int + 1) =~= kv.take(idx as int).push(kname));
            }
            idx = idx + 1;
        }
        proof {
            assert(kv.take(n as int) =~= kv);
        }
        Ok(())
    }
}

/// The models of the attribute records stored under an identity, in row
/// order.
pub open spec fn rows_of_identity(s: Seq<Rec<AttributeRecord>>, identity: Seq<u8>) -> Seq<
    AttributeRecordView,
>
    decreases s.len(),
{
    if s.len() == 0 {
        Seq::empty()
    } else {
        let rest = rows_of_identity(s.drop_last(), identity);
        if s.last().k1@ == identity {
            rest.push(s.last().v@)
        } else {
            rest
        }
    }
}

impl EngineState {
    /// All attribute records stored under the identity, in storage order.
    pub fn attributes_of(&self, identity: &Vec<u8>) -> (r: Vec<AttributeRecord>)
        ensures
            r@.map_values(|a: AttributeRecord| a@) == rows_of_identity(self.attributes@, identity@),
    {
        let mut r: Vec<AttributeRecord> = Vec::new();
        let n = self.attributes.len();
        let mut i: usize = 0;
        while i < n
            invariant
                n == self.attributes@.len(),
                i <= n,
                r@.map_values(|a: AttributeRecord| a@) == rows_of_identity(
                    self.attributes@.take(i as int),
                    identity@,
                ),
            decreases n - i,
        {
            let ghost prev = r@;
            if bytes_eq(&self.attributes[i].k1, identity) {
                r.push(copy_record(&self.attributes[i].v));
                proof {
                    assert(r@.map_values(|a: AttributeRecord| a@) =~= prev.map_values(
                        |a: AttributeRecord| a@,
                    ).push(self.attributes@[i as int].v@));
                }
            }
            proof {
                assert(self.attributes@.take(i as int + 1).drop_last() =~= self.attributes@.take(
                    i as int,
                ));
                assert(self.attributes@.take(i as int + 1).last() == self.attributes@[i as int]);
            }
            i = i + 1;
        }
        proof {
            assert(self.attributes@.take(n as int) =~= self.attributes@);
        }
        r
    }

    /// Whether any attribute entry is recorded under the identity.
    pub fn has_attribute_rows(&self, identity: &Vec<u8>) -> (r: bool)
        requires
            self.wf(),
        ensures
            r == self@.has_attributes(identity@),
    {
        let n = self.attributes.len();
        let mut i: usize = 0;
        while i < n
            invariant
                self.wf(),
                n == self.attributes@.len(),
                i <= n,
                forall|j: int| 0 <= j < i ==> (#[trigger] self.attributes@[j]).k1@ != identity@,
            decreases n - i,
        {
            if bytes_eq(&self.attributes[i].k1, identity) {
                proof {
                    lemma_table_map_index(self.attributes@, i as int);
                    let k2 = self.attributes@[i as int].k2@;
                    assert(self.attributes@[i as int].k3@ == no_part());
                    assert(self@.attributes.contains_key((identity@, k2)));
                }
                return true;
            }
            i = i + 1;
        }
        proof {
            if self@.has_attributes(identity@) {
                let k = choose|k: (Seq<u8>, Seq<u8>)|
                    #[trigger] self@.attributes.contains_key(k) && k.0 == identity@;
                crate::table::lemma_table_map_contains(self.attributes@, (k.0, k.1, no_part()));
                let j = choose|j: int|
                    0 <= j < self.attributes@.len() && rec_key(self.attributes@[j]) == (
                        k.0,
                        k.1,
                        no_part(),
                    );
                assert(self.attributes@[j].k1@ == identity@);
            }
        }
        false
    }
}

/// A create only ever raises a version counter: every nonce after the
/// transition is at least what it was before.
pub proof fn lemma_create_nonce_monotonic(
    m: StateModel,
    who: Seq<u8>,
    identity: Seq<u8>,
    name: Seq<u8>,
    value: Seq<u8>,
    valid_for: Option<u64>,
    h: u64,
    t: u64,
)
    ensures
        forall|i: Seq<u8>, nm: Seq<u8>|
            #![trigger m.spec_create_attribute(who, identity, name, value, valid_for, h, t).0.nonce_of(i, nm)]
            m.spec_create_attribute(who, identity, name, value, valid_for, h, t).0.nonce_of(i, nm)
                >= m.nonce_of(i, nm),
{
    let m1 = m.spec_create_attribute(who, identity, name, value, valid_for, h, t).0;
    assert forall|i: Seq<u8>, nm: Seq<u8>| m1.nonce_of(i, nm) >= m.nonce_of(i, nm) by {
        if m.spec_create_attribute(who, identity, name, value, valid_for, h, t).1 is Ok {
            if i == identity && nm == name {
                assert(m1.nonce_of(i, nm) == m.nonce_of(identity, name) + 1);
            }
        }
    }
}

/// The writes of a well-formed batch keep every version counter at least
/// as large as it was.
proof fn lemma_apply_set_attrs_nonce_monotonic(
    m: StateModel,
    identity: Seq<u8>,
    list: Seq<AttrInputView>,
    t: u64,
)
    requires
        !dup_names(list),
        batch_can_issue(m, identity, list),
    ensures
        forall|i: Seq<u8>, nm: Seq<u8>|
            #![trigger m.apply_set_attrs(identity, list, t).nonce_of(i, nm)]
            m.apply_set_attrs(identity, list, t).nonce_of(i, nm) >= m.nonce_of(i, nm),
    decreases list.len(),
{
    if list.len() > 0 {
        let e = list.first();
        let m1 = m.apply_set_attr(identity, e.name, e.value, t);
        assert forall|i: Seq<u8>, nm: Seq<u8>| m1.nonce_of(i, nm) >= m.nonce_of(i, nm) by {
            if m.resolve(identity, e.name) is None {
                assert(list[0] == e);
                assert(m.nonce_of(identity, e.name) < u64::MAX);
            }
        }
        assert(!dup_names(list.drop_first())) by {
            if dup_names(list.drop_first()) {
                let (a, c) = choose|a: int, c: int|
                    0 <= a < c < list.drop_first().len() && (#[trigger] list.drop_first()[a]).name
                        == (#[trigger] list.drop_first()[c]).name;
                assert(list.drop_first()[a] == list[a + 1]);
                assert(list.drop_first()[c] == list[c + 1]);
                assert(dup_names(list));
            }
        }
        assert(batch_can_issue(m1, identity, list.drop_first())) by {
            assert forall|j: int| 0 <= j < list.drop_first().len() implies m1.resolve(
                identity,
                (#[trigger] list.drop_first()[j]).name,
            ) is Some || m1.nonce_of(identity, list.drop_first()[j].name) < u64::MAX by {
                assert(list.drop_first()[j] == list[j + 1]);
                assert(list[j + 1].name != e.name);
                lemma_apply_set_attr_other_name(
                    m,
                    identity,
                    e.name,
                    e.value,
                    t,
                    list[j + 1].name,
                );
            }
        }
        lemma_apply_set_attrs_nonce_monotonic(m1, identity, list.drop_first(), t);
        assert forall|i: Seq<u8>, nm: Seq<u8>| m.apply_set_attrs(identity, list, t).nonce_of(i, nm)
            >= m.nonce_of(i, nm) by {
            assert(m.apply_set_attrs(identity, list, t) == m1.apply_set_attrs(
                identity,
                list.drop_first(),
                t,
            ));
            assert(m1.apply_set_attrs(identity, list.drop_first(), t).nonce_of(i, nm)
                >= m1.nonce_of(i, nm));
        }
    }
}

/// Nonce monotonicity: a successful `set_attributes` batch leaves every
/// per-name version counter at least as large as it was before the call.
pub proof fn lemma_set_attributes_nonce_monotonic(
    m: StateModel,
    caller: Seq<u8>,
    identity: Seq<u8>,
    list: Seq<AttrInputView>,
    t: u64,
)
    requires
        m.spec_set_attributes(caller, identity, list, t).1 is Ok,
    ensures
        forall|i: Seq<u8>, nm: Seq<u8>|
            #![trigger m.spec_set_attributes(caller, identity, list, t).0.nonce_of(i, nm)]
            m.spec_set_attributes(caller, identity, list, t).0.nonce_of(i, nm) >= m.nonce_of(i, nm),
{
    lemma_apply_set_attrs_nonce_monotonic(m, identity, list, t);
}

/// Creating an attribute, deleting it, and creating it under the same name
/// again issues the second version under a strictly larger nonce, so the
/// two identifiers are digests of different byte strings; and wherever
/// those digests differ — `lemma_id_preimage_injective` shows the digested
/// bytes always do — the old identifier is gone from the store and does not
/// resolve as current: the name resolves to the freshly issued version.
pub proof fn lemma_recreated_attribute_fresh(
    m0: StateModel,
    who: Seq<u8>,
    identity: Seq<u8>,
    name: Seq<u8>,
    v1: Seq<u8>,
    vf1: Option<u64>,
    h0: u64,
    t0: u64,
    h1: u64,
    t1: u64,
    v2: Seq<u8>,
    vf2: Option<u64>,
    h2: u64,
    t2: u64,
)
    requires
        m0.spec_create_attribute(who, identity, name, v1, vf1, h0, t0).1 is Ok,
        m0.spec_create_attribute(who, identity, name, v1, vf1, h0, t0).0.spec_delete_attribute(
            who,
            identity,
            name,
            h1,
            t1,
        ).1 is Ok,
        m0.spec_create_attribute(who, identity, name, v1, vf1, h0, t0).0.spec_delete_attribute(
            who,
            identity,
            name,
            h1,
            t1,
        ).0.spec_create_attribute(who, identity, name, v2, vf2, h2, t2).1 is Ok,
        attribute_id(identity, name, m0.nonce_of(identity, name)) != attribute_id(
            identity,
            name,
            (m0.nonce_of(identity, name) + 1) as u64,
        ),
    ensures
        ({
            let n0 = m0.nonce_of(identity, name);
            let m1 = m0.spec_create_attribute(who, identity, name, v1, vf1, h0, t0).0;
            let m2 = m1.spec_delete_attribute(who, identity, name, h1, t1).0;
            let m3 = m2.spec_create_attribute(who, identity, name, v2, vf2, h2, t2).0;
            &&& m2.nonce_of(identity, name) == n0 + 1
            &&& !m3.attributes.contains_key((identity, attribute_id(identity, name, n0)))
            &&& m3.resolve(identity, name) matches Some(rec) && rec.nonce == n0 + 1 && rec.value
                == v2
        }),
{
    let n0 = m0.nonce_of(identity, name);
    let m1 = m0.spec_create_attribute(who, identity, name, v1, vf1, h0, t0).0;
    let m2 = m1.spec_delete_attribute(who, identity, name, h1, t1).0;
    let m3 = m2.spec_create_attribute(who, identity, name, v2, vf2, h2, t2).0;
    assert(n0 < u64::MAX);
    assert(m1.nonce_of(identity, name) == n0 + 1);
    assert(m1.current_id(identity, name) == attribute_id(identity, name, n0));
    assert(m2.nonce_of(identity, name) == n0 + 1);
    assert(!m2.attributes.contains_key((identity, attribute_id(identity, name, n0))));
    assert(m3.attributes == m2.attributes.insert(
        (identity, attribute_id(identity, name, (n0 + 1) as u64)),
        AttributeRecordView {
            name: name,
            value: v2,
            expiry: match vf2 {
                Some(d) => sat_add64(h2, d),
                None => u64::MAX,
            },
            created: t2,
            nonce: (n0 + 1) as u64,
        },
    ));
    assert(m3.nonce_of(identity, name) == n0 + 2);
    assert(m3.current_id(identity, name) == attribute_id(identity, name, (n0 + 1) as u64));
}

/// A copy of an attribute record with the same model.
pub fn copy_record(r: &AttributeRecord) -> (c: AttributeRecord)
    ensures
        c@ == r@,
{
    AttributeRecord {
        name: clone_bytes(&r.name),
        value: clone_bytes(&r.value),
        expiry: r.expiry,
        created: r.created,
        nonce: r.nonce,
    }
}

} // verus!
