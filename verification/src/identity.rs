//! Identity ownership and time-bounded delegation.
//!
//! An identity with no recorded owner is its own owner.  Only the current
//! owner may transfer ownership or manage delegates.  A delegate is scoped
//! to a purpose and valid strictly below its expiry height; revocation sets
//! the expiry to the current height, so history stays queryable.

use vstd::prelude::*;

use crate::errors::ErrorKind;
use crate::state::{AuditRecord, AuditRecordView, EngineState, StateModel};
use crate::table::{bytes_eq, clone_bytes, lemma_table_map_index, table1_find, table1_upsert,
    table_find, table_upsert};

verus! {

/// The bound on the byte length of names, values, purposes and batches.
pub const MAX_FIELD_LEN: usize = 64;

/// The sum of two heights, capped at the maximum representable height.
pub open spec fn sat_add64(a: u64, b: u64) -> u64 {
    if a + b > u64::MAX {
        u64::MAX
    } else {
        (a + b) as u64
    }
}

/// Adds two heights, capping at the maximum representable height.
pub fn sat_add(a: u64, b: u64) -> (r: u64)
    ensures
        r == sat_add64(a, b),
{
    if a <= u64::MAX - b {
        a + b
    } else {
        u64::MAX
    }
}

impl StateModel {
    /// The transition of `change_owner`.
    pub open spec fn spec_change_owner(
        self,
        caller: Seq<u8>,
        identity: Seq<u8>,
        new_owner: Seq<u8>,
        h: u64,
        t: u64,
    ) -> (StateModel, Result<(), ErrorKind>) {
        if self.owner_of(identity) != caller {
            (self, Err(ErrorKind::NotOwner))
        } else {
            (
                StateModel {
                    owners: self.owners.insert(identity, new_owner),
                    audits: self.audits.insert(
                        identity,
                        AuditRecordView { who: caller, height: h, time: t },
                    ),
                    ..self
                },
                Ok(()),
            )
        }
    }

    /// The transition of `create_delegate`: the owner grants `delegate` the
    /// purpose until `now + valid_for`, or unbounded if no duration is
    /// given; an unexpired delegate under the same key blocks the grant.
    pub open spec fn spec_create_delegate(
        self,
        who: Seq<u8>,
        identity: Seq<u8>,
        delegate: Seq<u8>,
        purpose: Seq<u8>,
        valid_for: Option<u64>,
        h: u64,
    ) -> (StateModel, Result<(), ErrorKind>) {
        if self.owner_of(identity) != who {
            (self, Err(ErrorKind::NotOwner))
        } else if who == delegate {
            (self, Err(ErrorKind::InvalidDelegate))
        } else if self.delegate_valid(identity, purpose, delegate, h) {
            (self, Err(ErrorKind::ValidDelegateExists))
        } else {
            let expiry = match valid_for {
                Some(d) => sat_add64(h, d),
                None => u64::MAX,
            };
            (
                StateModel {
                    delegates: self.delegates.insert((identity, purpose, delegate), expiry),
                    ..self
                },
                Ok(()),
            )
        }
    }

    /// The transition of `add_delegate`.
    pub open spec fn spec_add_delegate(
        self,
        caller: Seq<u8>,
        identity: Seq<u8>,
        delegate: Seq<u8>,
        purpose: Seq<u8>,
        valid_for: Option<u64>,
        h: u64,
        t: u64,
    ) -> (StateModel, Result<(), ErrorKind>) {
        if purpose.len() > MAX_FIELD_LEN {
            (self, Err(ErrorKind::InvalidDelegate))
        } else {
            let (m1, r) = self.spec_create_delegate(caller, identity, delegate, purpose, valid_for, h);
            if r is Err {
                (self, r)
            } else {
                (
                    StateModel {
                        audits: m1.audits.insert(
                            identity,
                            AuditRecordView { who: caller, height: h, time: t },
                        ),
                        ..m1
                    },
                    Ok(()),
                )
            }
        }
    }

    /// The transition of `revoke_delegate`: revocation is immediate, by
    /// setting the expiry to the current height; the entry is not deleted.
    pub open spec fn spec_revoke_delegate(
        self,
        caller: Seq<u8>,
        identity: Seq<u8>,
        purpose: Seq<u8>,
        delegate: Seq<u8>,
        h: u64,
        t: u64,
    ) -> (StateModel, Result<(), ErrorKind>) {
        if self.owner_of(identity) != caller {
            (self, Err(ErrorKind::NotOwner))
        } else if !self.delegate_valid(identity, purpose, delegate, h) {
            (self, Err(ErrorKind::InvalidDelegate))
        } else if purpose.len() > MAX_FIELD_LEN {
            (self, Err(ErrorKind::InvalidDelegate))
        } else {
            (
                StateModel {
                    delegates: self.delegates.insert((identity, purpose, delegate), h),
                    audits: self.audits.insert(
                        identity,
                        AuditRecordView { who: caller, height: h, time: t },
                    ),
                    ..self
                },
                Ok(()),
            )
        }
    }
}

/// An identity with no recorded owner is its own owner.
pub proof fn lemma_owner_default(m: StateModel, identity: Seq<u8>)
    requires
        !m.owners.contains_key(identity),
    ensures
        m.owner_of(identity) == identity,
{
}

/// A delegate granted at height `h` for `d` further blocks is valid at
/// every height strictly below `h + d` and invalid from `h + d` on: the
/// expiry comparison is strict.
pub proof fn lemma_delegate_expiry_boundary(
    m: StateModel,
    caller: Seq<u8>,
    identity: Seq<u8>,
    delegate: Seq<u8>,
    purpose: Seq<u8>,
    d: u64,
    h: u64,
    t: u64,
)
    requires
        m.spec_add_delegate(caller, identity, delegate, purpose, Some(d), h, t).1 is Ok,
        h + d <= u64::MAX,
    ensures
        forall|q: u64|
            #![trigger m.spec_add_delegate(caller, identity, delegate, purpose, Some(d), h, t).0.delegate_valid(identity, purpose, delegate, q)]
            m.spec_add_delegate(caller, identity, delegate, purpose, Some(d), h, t).0.delegate_valid(
                identity,
                purpose,
                delegate,
                q,
            ) <==> q < h + d,
{
}

impl EngineState {
    /// The identity's owner: the recorded one, or the identity itself if
    /// none was ever recorded.
    pub fn identity_owner(&self, identity: &Vec<u8>) -> (r: Vec<u8>)
        requires
            self.wf(),
        ensures
            r@ == self@.owner_of(identity@),
    {
        let found = table1_find(&self.owners, identity);
        match found {
            Some(i) => {
                proof {
                    lemma_table_map_index(self.owners@, i as int);
                }
                clone_bytes(&self.owners[i].v)
            },
            None => clone_bytes(identity),
        }
    }

    /// Validates that `actual_owner` owns the identity.
    pub fn is_owner(&self, identity: &Vec<u8>, actual_owner: &Vec<u8>) -> (r: Result<
        (),
        ErrorKind,
    >)
        requires
            self.wf(),
        ensures
            r == if self@.owner_of(identity@) == actual_owner@ {
                Ok::<(), ErrorKind>(())
            } else {
                Err::<(), ErrorKind>(ErrorKind::NotOwner)
            },
    {
        let owner = self.identity_owner(identity);
        if bytes_eq(&owner, actual_owner) {
            Ok(())
        } else {
            Err(ErrorKind::NotOwner)
        }
    }

    /// Transfers ownership of the identity to `new_owner` and records the
    /// update in the audit trail.
    pub fn change_owner(
        &mut self,
        caller: &Vec<u8>,
        identity: &Vec<u8>,
        new_owner: &Vec<u8>,
        now_height: u64,
        now_time: u64,
    ) -> (r: Result<(), ErrorKind>)
        requires
            old(self).wf(),
        ensures
            final(self).wf(),
            (final(self)@, r) == old(self)@.spec_change_owner(
                caller@,
                identity@,
                new_owner@,
                now_height,
                now_time,
            ),
    {
        if let Err(e) = self.is_owner(identity, caller) {
            return Err(e);
        }
        table1_upsert(&mut self.owners, clone_bytes(identity), clone_bytes(new_owner));
        table1_upsert(
            &mut self.audits,
            clone_bytes(identity),
            AuditRecord { who: clone_bytes(caller), height: now_height, time: now_time },
        );
        proof {
            assert(self.owners_map() =~= old(self).owners_map().insert(identity@, new_owner@));
            assert(self.audits_map() =~= old(self).audits_map().insert(
                identity@,
                AuditRecordView { who: caller@, height: now_height, time: now_time },
            ));
            assert(self@ =~= old(self)@.spec_change_owner(
                caller@,
                identity@,
                new_owner@,
                now_height,
                now_time,
            ).0);
        }
        Ok(())
    }

    /// Grants `delegate` the purpose under the owner's authority.
    fn create_delegate(
        &mut self,
        who: &Vec<u8>,
        identity: &Vec<u8>,
        delegate: &Vec<u8>,
        delegate_type: &Vec<u8>,
        valid_for: Option<u64>,
        now_height: u64,
    ) -> (r: Result<(), ErrorKind>)
        requires
            old(self).wf(),
        ensures
            final(self).wf(),
            (final(self)@, r) == old(self)@.spec_create_delegate(
                who@,
                identity@,
                delegate@,
                delegate_type@,
                valid_for,
                now_height,
            ),
    {
        if let Err(e) = self.is_owner(identity, who) {
            return Err(e);
        }
        if bytes_eq(who, delegate) {
            return Err(ErrorKind::InvalidDelegate);
        }
        if self.valid_listed_delegate(identity, delegate_type, delegate, now_height).is_ok() {
            return Err(ErrorKind::ValidDelegateExists);
        }
        let validity: u64 = match valid_for {
            Some(blocks) => sat_add(now_height, blocks),
            None => u64::MAX,
        };
        table_upsert(
            &mut self.delegates,
            clone_bytes(identity),
            clone_bytes(delegate_type),
            clone_bytes(delegate),
            validity,
        );
        proof {
            assert(self.delegates_map() =~= old(self).delegates_map().insert(
                (identity@, delegate_type@, delegate@),
                validity,
            ));
            assert(self@ =~= old(self)@.spec_create_delegate(
                who@,
                identity@,
                delegate@,
                delegate_type@,
                valid_for,
                now_height,
            ).0);
        }
        Ok(())
    }

    /// Creates a delegate with an expiry and for a specific purpose, and
    /// records the update in the audit trail.
    pub fn add_delegate(
        &mut self,
        caller: &Vec<u8>,
        identity: &Vec<u8>,
        delegate: &Vec<u8>,
        delegate_type: &Vec<u8>,
        valid_for: Option<u64>,
        now_height: u64,
        now_time: u64,
    ) -> (r: Result<(), ErrorKind>)
        requires
            old(self).wf(),
        ensures
            final(self).wf(),
            (final(self)@, r) == old(self)@.spec_add_delegate(
                caller@,
                identity@,
                delegate@,
                delegate_type@,
                valid_for,
                now_height,
                now_time,
            ),
    {
        if delegate_type.len() > MAX_FIELD_LEN {
            return Err(ErrorKind::InvalidDelegate);
        }
        if let Err(e) = self.create_delegate(
            caller,
            identity,
            delegate,
            delegate_type,
            valid_for,
            now_height,
        ) {
            return Err(e);
        }
        table1_upsert(
            &mut self.audits,
            clone_bytes(identity),
            AuditRecord { who: clone_bytes(caller), height: now_height, time: now_time },
        );
        proof {
            assert(self.audits_map() =~= old(self).audits_map().insert(
                identity@,
                AuditRecordView { who: caller@, height: now_height, time: now_time },
            ));
            assert(self@ =~= old(self)@.spec_add_delegate(
                caller@,
                identity@,
                delegate@,
                delegate_type@,
                valid_for,
                now_height,
                now_time,
            ).0);
        }
        Ok(())
    }

    /// Revokes a delegate by setting its expiry to the current height, and
    /// records the update in the audit trail.
    pub fn revoke_delegate(
        &mut self,
        caller: &Vec<u8>,
        identity: &Vec<u8>,
        delegate_type: &Vec<u8>,
        delegate: &Vec<u8>,
        now_height: u64,
        now_time: u64,
    ) -> (r: Result<(), ErrorKind>)
        requires
            old(self).wf(),
        ensures
            final(self).wf(),
            (final(self)@, r) == old(self)@.spec_revoke_delegate(
                caller@,
                identity@,
                delegate_type@,
                delegate@,
                now_height,
                now_time,
            ),
    {
        if let Err(e) = self.is_owner(identity, caller) {
            return Err(e);
        }
        if let Err(e) = self.valid_listed_delegate(identity, delegate_type, delegate, now_height) {
            return Err(e);
        }
        if delegate_type.len() > MAX_FIELD_LEN {
            return Err(ErrorKind::InvalidDelegate);
        }
        table_upsert(
            &mut self.delegates,
            clone_bytes(identity),
            clone_bytes(delegate_type),
            clone_bytes(delegate),
            now_height,
        );
        table1_upsert(
            &mut self.audits,
            clone_bytes(identity),
            AuditRecord { who: clone_bytes(caller), height: now_height, time: now_time },
        );
        proof {
            assert(self.delegates_map() =~= old(self).delegates_map().insert(
                (identity@, delegate_type@, delegate@),
                now_height,
            ));
            assert(self.audits_map() =~= old(self).audits_map().insert(
                identity@,
                AuditRecordView { who: caller@, height: now_height, time: now_time },
            ));
            assert(self@ =~= old(self)@.spec_revoke_delegate(
                caller@,
                identity@,
                delegate_type@,
                delegate@,
                now_height,
                now_time,
            ).0);
        }
        Ok(())
    }

    /// Validates that the delegate is listed for the purpose and unexpired
    /// at the current height.
    pub fn valid_listed_delegate(
        &self,
        identity: &Vec<u8>,
        delegate_type: &Vec<u8>,
        delegate: &Vec<u8>,
        now_height: u64,
    ) -> (r: Result<(), ErrorKind>)
        requires
            self.wf(),
        ensures
            r == if self@.delegate_valid(identity@, delegate_type@, delegate@, now_height) {
                Ok::<(), ErrorKind>(())
            } else {
                Err::<(), ErrorKind>(ErrorKind::InvalidDelegate)
            },
    {
        let found = table_find(&self.delegates, identity, delegate_type, delegate);
        match found {
            Some(i) => {
                proof {
                    lemma_table_map_index(self.delegates@, i as int);
                }
                if self.delegates[i].v > now_height {
                    Ok(())
                } else {
                    Err(ErrorKind::InvalidDelegate)
                }
            },
            None => Err(ErrorKind::InvalidDelegate),
        }
    }

    /// Whether the delegate exists for the purpose and is unexpired at the
    /// current height.
    pub fn is_valid_delegate(
        &self,
        identity: &Vec<u8>,
        purpose: &Vec<u8>,
        delegate: &Vec<u8>,
        now_height: u64,
    ) -> (r: bool)
        requires
            self.wf(),
        ensures
            r == self@.delegate_valid(identity@, purpose@, delegate@, now_height),
    {
        self.valid_listed_delegate(identity, purpose, delegate, now_height).is_ok()
    }

    /// Validates that the principal is either a listed, unexpired delegate
    /// for the purpose or the identity's owner.
    pub fn valid_delegate(
        &self,
        identity: &Vec<u8>,
        delegate_type: &Vec<u8>,
        delegate: &Vec<u8>,
        now_height: u64,
    ) -> (r: Result<(), ErrorKind>)
        requires
            self.wf(),
        ensures
            r == if delegate_type@.len() > MAX_FIELD_LEN {
                Err::<(), ErrorKind>(ErrorKind::InvalidDelegate)
            } else if self@.delegate_valid(identity@, delegate_type@, delegate@, now_height)
                || self@.owner_of(identity@) == delegate@ {
                Ok::<(), ErrorKind>(())
            } else {
                Err::<(), ErrorKind>(ErrorKind::InvalidDelegate)
            },
    {
        if delegate_type.len() > MAX_FIELD_LEN {
            return Err(ErrorKind::InvalidDelegate);
        }
        if self.valid_listed_delegate(identity, delegate_type, delegate, now_height).is_ok()
            || self.is_owner(identity, delegate).is_ok() {
            Ok(())
        } else {
            Err(ErrorKind::InvalidDelegate)
        }
    }
}

} // verus!
