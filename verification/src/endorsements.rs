//! Third-party endorsements of attributes.
//!
//! An endorsement states that a named attribute of a target identity is
//! trustworthy at its current value, and is bounded by its own expiry
//! height.  Because it speaks about a specific value, every endorsement of
//! an attribute is invalidated in bulk when that attribute's value changes.

use vstd::prelude::*;

use crate::errors::ErrorKind;
use crate::identity::{sat_add, sat_add64, MAX_FIELD_LEN};
use crate::state::{Endorsement, EngineState, StateModel};
use crate::table::{clone_bytes, prefix_keys, table_remove, table_remove_prefix, table_upsert};

verus! {

/// Whether any of the listed endorsers holds an unexpired endorsement of
/// the attribute at height `h`.
pub open spec fn any_endorsed(
    m: StateModel,
    target: Seq<u8>,
    name: Seq<u8>,
    endorsers: Seq<Seq<u8>>,
    h: u64,
) -> bool {
    exists|i: int| 0 <= i < endorsers.len() && m.endorsed_by(target, name, #[trigger] endorsers[i], h)
}

impl StateModel {
    /// One upsert of `endorse_attributes`.
    pub open spec fn apply_endorse_attr(
        self,
        target: Seq<u8>,
        name: Seq<u8>,
        endorser: Seq<u8>,
        validity: u64,
        t: u64,
    ) -> StateModel {
        StateModel {
            endorsements: self.endorsements.insert(
                (target, name, endorser),
                Endorsement { validity: validity, endorsed_time: t },
            ),
            ..self
        }
    }

    /// The upserts of `endorse_attributes`, applied in batch order.
    pub open spec fn apply_endorse_attrs(
        self,
        target: Seq<u8>,
        keys: Seq<Seq<u8>>,
        endorser: Seq<u8>,
        validity: u64,
        t: u64,
    ) -> StateModel
        decreases keys.len(),
    {
        if keys.len() == 0 {
            self
        } else {
            self.apply_endorse_attr(target, keys.first(), endorser, validity, t)
                .apply_endorse_attrs(target, keys.drop_first(), endorser, validity, t)
        }
    }

    /// The transition of `endorse_attributes`: the caller acts through the
    /// identity it owns, every named attribute must resolve on the target,
    /// and each endorsement is upserted with the common expiry.
    pub open spec fn spec_endorse_attributes(
        self,
        caller: Seq<u8>,
        identity: Seq<u8>,
        target: Seq<u8>,
        keys: Seq<Seq<u8>>,
        valid_for: Option<u64>,
        h: u64,
        t: u64,
    ) -> (StateModel, Result<(), ErrorKind>) {
        if keys.len() > MAX_FIELD_LEN {
            (self, Err(ErrorKind::InputOverflow))
        } else if !(forall|i: int| 0 <= i < keys.len() ==> (#[trigger] keys[i]).len()
            <= MAX_FIELD_LEN) {
            (self, Err(ErrorKind::InputOverflow))
        } else if self.owner_of(identity) != caller {
            (self, Err(ErrorKind::NotOwner))
        } else if !(forall|i: int|
            0 <= i < keys.len() ==> self.resolve(target, #[trigger] keys[i]) is Some) {
            (self, Err(ErrorKind::InvalidAttributes))
        } else {
            let validity = match valid_for {
                Some(d) => sat_add64(h, d),
                None => u64::MAX,
            };
            (self.apply_endorse_attrs(target, keys, identity, validity, t), Ok(()))
        }
    }

    /// The removals of `unendorse_attributes`, applied in batch order: only
    /// the caller's own endorsements of the named attributes leave.
    pub open spec fn apply_unendorse_attrs(
        self,
        target: Seq<u8>,
        keys: Seq<Seq<u8>>,
        endorser: Seq<u8>,
    ) -> StateModel
        decreases keys.len(),
    {
        if keys.len() == 0 {
            self
        } else {
            StateModel {
                endorsements: self.endorsements.remove((target, keys.first(), endorser)),
                ..self
            }.apply_unendorse_attrs(target, keys.drop_first(), endorser)
        }
    }

    /// The transition of `unendorse_attributes`.
    pub open spec fn spec_unendorse_attributes(
        self,
        caller: Seq<u8>,
        identity: Seq<u8>,
        target: Seq<u8>,
        keys: Seq<Seq<u8>>,
    ) -> (StateModel, Result<(), ErrorKind>) {
        if self.owner_of(identity) != caller {
            (self, Err(ErrorKind::NotOwner))
        } else if !(forall|i: int|
            0 <= i < keys.len() ==> self.resolve(target, #[trigger] keys[i]) is Some) {
            (self, Err(ErrorKind::InvalidAttributes))
        } else {
            (self.apply_unendorse_attrs(target, keys, identity), Ok(()))
        }
    }
}

/// Appending one key endorses it after the rest.
proof fn lemma_apply_endorse_attrs_snoc(
    m: StateModel,
    target: Seq<u8>,
    keys: Seq<Seq<u8>>,
    e: Seq<u8>,
    endorser: Seq<u8>,
    validity: u64,
    t: u64,
)
    ensures
        m.apply_endorse_attrs(target, keys.push(e), endorser, validity, t) == m.apply_endorse_attrs(
            target,
            keys,
            endorser,
            validity,
            t,
        ).apply_endorse_attr(target, e, endorser, validity, t),
    decreases keys.len(),
{
    reveal_with_fuel(StateModel::apply_endorse_attrs, 2);
    if keys.len() == 0 {
        assert(keys.push(e).first() == e);
        assert(keys.push(e).drop_first() =~= Seq::<Seq<u8>>::empty());
    } else {
        let m1 = m.apply_endorse_attr(target, keys.first(), endorser, validity, t);
        assert(keys.push(e).first() == keys.first());
        assert(keys.push(e).drop_first() =~= keys.drop_first().push(e));
        lemma_apply_endorse_attrs_snoc(m1, target, keys.drop_first(), e, endorser, validity, t);
    }
}

/// Appending one key unendorses it after the rest.
proof fn lemma_apply_unendorse_attrs_snoc(
    m: StateModel,
    target: Seq<u8>,
    keys: Seq<Seq<u8>>,
    e: Seq<u8>,
    endorser: Seq<u8>,
)
    ensures
        m.apply_unendorse_attrs(target, keys.push(e), endorser) == (StateModel {
            endorsements: m.apply_unendorse_attrs(target, keys, endorser).endorsements.remove(
                (target, e, endorser),
            ),
            ..m.apply_unendorse_attrs(target, keys, endorser)
        }),
    decreases keys.len(),
{
    reveal_with_fuel(StateModel::apply_unendorse_attrs, 2);
    if keys.len() == 0 {
        assert(keys.push(e).first() == e);
        assert(keys.push(e).drop_first() =~= Seq::<Seq<u8>>::empty());
    } else {
        let m1 = StateModel {
            endorsements: m.endorsements.remove((target, keys.first(), endorser)),
            ..m
        };
        assert(keys.push(e).first() == keys.first());
        assert(keys.push(e).drop_first() =~= keys.drop_first().push(e));
        lemma_apply_unendorse_attrs_snoc(m1, target, keys.drop_first(), e, endorser);
    }
}

/// Changing an attribute's value cascades: after a successful
/// `set_attributes` batch of one entry whose value differs from the stored
/// one, no endorsement of that attribute remains, whoever endorsed it, and
/// no list of endorsers can validate it at any height.
pub proof fn lemma_cascade_invalidation(
    m0: StateModel,
    caller: Seq<u8>,
    identity: Seq<u8>,
    entry: crate::attributes::AttrInputView,
    t: u64,
)
    requires
        m0.spec_set_attributes(caller, identity, seq![entry], t).1 is Ok,
        m0.resolve(identity, entry.name) matches Some(rec) && rec.value != entry.value,
    ensures
        ({
            let m1 = m0.spec_set_attributes(caller, identity, seq![entry], t).0;
            &&& forall|e: Seq<u8>|
                !(#[trigger] m1.endorsements.contains_key((identity, entry.name, e)))
            &&& forall|endorsers: Seq<Seq<u8>>, h: u64|
                !(#[trigger] any_endorsed(m1, identity, entry.name, endorsers, h))
        }),
{
    reveal_with_fuel(StateModel::apply_set_attrs, 2);
    let singleton = seq![entry];
    let m1 = m0.spec_set_attributes(caller, identity, singleton, t).0;
    assert(singleton.first() == entry);
    assert(singleton.drop_first() =~= Seq::<crate::attributes::AttrInputView>::empty());
    assert(m1 == m0.apply_set_attr(identity, entry.name, entry.value, t));
    assert forall|e: Seq<u8>| !(#[trigger] m1.endorsements.contains_key(
        (identity, entry.name, e),
    )) by {
        assert(prefix_keys(identity, entry.name).contains((identity, entry.name, e)));
    }
    assert forall|endorsers: Seq<Seq<u8>>, h: u64| !(#[trigger] any_endorsed(
        m1,
        identity,
        entry.name,
        endorsers,
        h,
    )) by {
        if any_endorsed(m1, identity, entry.name, endorsers, h) {
            let i = choose|i: int|
                0 <= i < endorsers.len() && m1.endorsed_by(
                    identity,
                    entry.name,
                    #[trigger] endorsers[i],
                    h,
                );
            assert(!m1.endorsements.contains_key((identity, entry.name, endorsers[i])));
        }
    }
}

impl EngineState {
    /// Removes every endorsement of the attribute, by any endorser.  One
    /// entry leaves per pass, and the store is a valid intermediate state
    /// after each pass, so the bulk deletion is restartable.
    pub(crate) fn remove_endorsements_per_attribute(
        &mut self,
        identity: &Vec<u8>,
        attr_key: &Vec<u8>,
    )
        requires
            old(self).wf(),
        ensures
            final(self).wf(),
            final(self)@ == (StateModel {
                endorsements: old(self)@.endorsements.remove_keys(
                    prefix_keys(identity@, attr_key@),
                ),
                ..old(self)@
            }),
    {
        table_remove_prefix(&mut self.endorsements, identity, attr_key);
        proof {
            assert(self.endorsements_map() =~= old(self)@.endorsements.remove_keys(
                prefix_keys(identity@, attr_key@),
            ));
            assert(self@ =~= StateModel {
                endorsements: old(self)@.endorsements.remove_keys(
                    prefix_keys(identity@, attr_key@),
                ),
                ..old(self)@
            });
        }
    }

    /// Endorses a batch of the target identity's attributes, acting
    /// through the identity the caller owns.  Every named attribute must
    /// currently resolve on the target, or nothing is applied.
    pub fn endorse_attributes(
        &mut self,
        caller: &Vec<u8>,
        identity: &Vec<u8>,
        target_identity: &Vec<u8>,
        list_of_attr_keys: &Vec<Vec<u8>>,
        valid_for: Option<u64>,
        now_height: u64,
        now_time: u64,
    ) -> (r: Result<(), ErrorKind>)
        requires
            old(self).wf(),
            target_identity@.len() <= 0xffffffff,
        ensures
            final(self).wf(),
            (final(self)@, r) == old(self)@.spec_endorse_attributes(
                caller@,
                identity@,
                target_identity@,
                list_of_attr_keys@.map_values(|k: Vec<u8>| k@),
                valid_for,
                now_height,
                now_time,
            ),
    {
        let ghost m0 = old(self)@;
        let ghost kv = list_of_attr_keys@.map_values(|k: Vec<u8>| k@);
        let n = list_of_attr_keys.len();
        if n > MAX_FIELD_LEN {
            return Err(ErrorKind::InputOverflow);
        }
        let mut i: usize = 0;
        while i < n
            invariant
                self == old(self),
                self.wf(),
                m0 == old(self)@,
                kv == list_of_attr_keys@.map_values(|k: Vec<u8>| k@),
                n == list_of_attr_keys@.len(),
                n <= MAX_FIELD_LEN,
                i <= n,
                forall|j: int| 0 <= j < i ==> (#[trigger] kv[j]).len() <= MAX_FIELD_LEN,
            decreases n - i,
        {
            if list_of_attr_keys[i].len() > MAX_FIELD_LEN {
                proof {
                    assert(kv[i as int].len() > MAX_FIELD_LEN);
                }
                return Err(ErrorKind::InputOverflow);
            }
            i = i + 1;
        }
        if let Err(e) = self.is_owner(identity, caller) {
            return Err(e);
        }
        let mut i: usize = 0;
        while i < n
            invariant
                self.wf(),
                self == old(self),
                m0 == old(self)@,
                target_identity@.len() <= 0xffffffff,
                kv == list_of_attr_keys@.map_values(|k: Vec<u8>| k@),
                n == list_of_attr_keys@.len(),
                n <= MAX_FIELD_LEN,
                i <= n,
                m0.owner_of(identity@) == caller@,
                forall|j: int| 0 <= j < n ==> (#[trigger] kv[j]).len() <= MAX_FIELD_LEN,
                forall|j: int| 0 <= j < i ==> m0.resolve(target_identity@, #[trigger] kv[j]) is Some,
            decreases n - i,
        {
            if self.resolve_index(target_identity, &list_of_attr_keys[i]).is_none() {
                proof {
                    assert(m0.resolve(target_identity@, kv[i as int]) is None);
                }
                return Err(ErrorKind::InvalidAttributes);
            }
            i = i + 1;
        }
        let validity: u64 = match valid_for {
            Some(v) => sat_add(now_height, v),
            None => u64::MAX,
        };

        let mut idx: usize = 0;
        while idx < n
            invariant
                self.wf(),
                m0 == old(self)@,
                kv == list_of_attr_keys@.map_values(|k: Vec<u8>| k@),
                n == list_of_attr_keys@.len(),
                idx <= n,
                self@ == m0.apply_endorse_attrs(
                    target_identity@,
                    kv.take(idx as int),
                    identity@,
                    validity,
                    now_time,
                ),
            decreases n - idx,
        {
            let ghost cur = self@;
            let ghost kname = kv[idx as int];
            proof {
                assert(kv[idx as int] == list_of_attr_keys@[idx as int]@);
            }
            table_upsert(
                &mut self.endorsements,
                clone_bytes(target_identity),
                clone_bytes(&list_of_attr_keys[idx]),
                clone_bytes(identity),
                Endorsement { validity: validity, endorsed_time: now_time },
            );
            proof {
                assert(self.endorsements_map() =~= cur.endorsements.insert(
                    (target_identity@, kname, identity@),
                    Endorsement { validity: validity, endorsed_time: now_time },
                ));
                assert(self@ =~= cur.apply_endorse_attr(
                    target_identity@,
                    kname,
                    identity@,
                    validity,
                    now_time,
                ));
                lemma_apply_endorse_attrs_snoc(
                    m0,
                    target_identity@,
                    kv.take(idx as int),
                    kname,
                    identity@,
                    validity,
                    now_time,
                );
                assert(kv.take(idx as int + 1) =~= kv.take(idx as int).push(kname));
            }
            idx = idx + 1;
        }
        proof {
            assert(kv.take(n as int) =~= kv);
        }
        Ok(())
    }

    /// Withdraws the caller's own endorsements of a batch of the target
    /// identity's attributes; every named attribute must resolve on the
    /// target, or nothing is applied.
    pub fn unendorse_attributes(
        &mut self,
        caller: &Vec<u8>,
        identity: &Vec<u8>,
        target_identity: &Vec<u8>,
        list_of_attr_keys: &Vec<Vec<u8>>,
    ) -> (r: Result<(), ErrorKind>)
        requires
            old(self).wf(),
            target_identity@.len() <= 0xffffffff,
            forall|i: int|
                0 <= i < list_of_attr_keys@.len() ==> (#[trigger] list_of_attr_keys@[i])@.len()
                    <= 0xffffffff,
        ensures
            final(self).wf(),
            (final(self)@, r) == old(self)@.spec_unendorse_attributes(
                caller@,
                identity@,
                target_identity@,
                list_of_attr_keys@.map_values(|k: Vec<u8>| k@),
            ),
    {
        let ghost m0 = old(self)@;
        let ghost kv = list_of_attr_keys@.map_values(|k: Vec<u8>| k@);
        let n = list_of_attr_keys.len();
        if let Err(e) = self.is_owner(identity, caller) {
            return Err(e);
        }
        let mut i: usize = 0;
        while i < n
            invariant
                self.wf(),
                self == old(self),
                m0 == old(self)@,
                target_identity@.len() <= 0xffffffff,
                kv == list_of_attr_keys@.map_values(|k: Vec<u8>| k@),
                n == list_of_attr_keys@.len(),
                i <= n,
                m0.owner_of(identity@) == caller@,
                forall|j: int| 0 <= j < n ==> (#[trigger] kv[j]).len() <= 0xffffffff,
                forall|j: int| 0 <= j < i ==> m0.resolve(target_identity@, #[trigger] kv[j]) is Some,
            decreases n - i,
        {
            if self.resolve_index(target_identity, &list_of_attr_keys[i]).is_none() {
                proof {
                    assert(m0.resolve(target_identity@, kv[i as int]) is None);
                }
                return Err(ErrorKind::InvalidAttributes);
            }
            i = i + 1;
        }

        let mut idx: usize = 0;
        while idx < n
            invariant
                self.wf(),
                m0 == old(self)@,
                kv == list_of_attr_keys@.map_values(|k: Vec<u8>| k@),
                n == list_of_attr_keys@.len(),
                idx <= n,
                self@ == m0.apply_unendorse_attrs(target_identity@, kv.take(idx as int), identity@),
            decreases n - idx,
        {
            let ghost cur = self@;
            let ghost kname = kv[idx as int];
            proof {
                assert(kv[idx as int] == list_of_attr_keys@[idx as int]@);
            }
            let _ = table_remove(
                &mut self.endorsements,
                target_identity,
                &list_of_attr_keys[idx],
                identity,
            );
            proof {
                assert(self.endorsements_map() =~= cur.endorsements.remove(
                    (target_identity@, kname, identity@),
                ));
                assert(self@ =~= StateModel {
                    endorsements: cur.endorsements.remove((target_identity@, kname, identity@)),
                    ..cur
                });
                lemma_apply_unendorse_attrs_snoc(
                    m0,
                    target_identity@,
                    kv.take(idx as int),
                    kname,
                    identity@,
                );
                assert(kv.take(idx as int + 1) =~= kv.take(idx as int).push(kname));
            }
            idx = idx + 1;
        }
        proof {
            assert(kv.take(n as int) =~= kv);
        }
        Ok(())
    }

    /// Whether any of the listed endorsers holds an unexpired endorsement
    /// of the attribute at the current height.
    pub fn is_validly_endorsed(
        &self,
        target_identity: &Vec<u8>,
        name: &Vec<u8>,
        endorsers: &Vec<Vec<u8>>,
        now_height: u64,
    ) -> (r: bool)
        requires
            self.wf(),
        ensures
            r == any_endorsed(
                self@,
                target_identity@,
                name@,
                endorsers@.map_values(|e: Vec<u8>| e@),
                now_height,
            ),
    {
        let ghost ev = endorsers@.map_values(|e: Vec<u8>| e@);
        let n = endorsers.len();
        let mut i: usize = 0;
        while i < n
            invariant
                self.wf(),
                ev == endorsers@.map_values(|e: Vec<u8>| e@),
                n == endorsers@.len(),
                i <= n,
                forall|j: int|
                    0 <= j < i ==> !self@.endorsed_by(
                        target_identity@,
                        name@,
                        #[trigger] ev[j],
                        now_height,
                    ),
            decreases n - i,
        {
            let found = crate::table::table_find(
                &self.endorsements,
                target_identity,
                name,
                &endorsers[i],
            );
            if let Some(k) = found {
                proof {
                    crate::table::lemma_table_map_index(self.endorsements@, k as int);
                }
                if self.endorsements[k].v.validity > now_height {
                    proof {
                        assert(ev[i as int] == endorsers@[i as int]@);
                        assert(self@.endorsed_by(target_identity@, name@, ev[i as int], now_height));
                    }
                    return true;
                }
            }
            proof {
                assert(ev[i as int] == endorsers@[i as int]@);
            }
            i = i + 1;
        }
        false
    }
}

} // verus!
