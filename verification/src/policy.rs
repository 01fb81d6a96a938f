//! Policy storage and AND-combinator policy evaluation.
//!
//! A policy is an ordered list of fields, each naming an attribute and the
//! set of values it may take.  Access is granted only if every field of the
//! policy matches some attribute of the subject — the logical AND across all
//! fields — and an empty policy trivially matches.  Evaluation is a pure
//! function; the access check reads the store but never writes it.

use vstd::prelude::*;

use crate::attributes::rows_of_identity;
use crate::errors::{Decision, ErrorKind};
use crate::state::{AttributeRecord, AttributeRecordView, EngineState, PolicyField,
    PolicyFieldView, Policy, PolicyView, StateModel};
use crate::table::{bytes_eq, clone_bytes, lemma_table_map_index, table1_find, table1_remove,
    table1_upsert};

verus! {

/// The models of a list of attribute records.
pub open spec fn attrs_view(s: Seq<AttributeRecord>) -> Seq<AttributeRecordView> {
    s.map_values(|a: AttributeRecord| a@)
}

/// The models of a list of policy fields.
pub open spec fn fields_view(s: Seq<PolicyField>) -> Seq<PolicyFieldView> {
    s.map_values(|f: PolicyField| f@)
}

/// The first attribute of the list that carries the name, if any.
pub open spec fn first_attr_with_name(attrs: Seq<AttributeRecordView>, name: Seq<u8>) -> Option<
    AttributeRecordView,
>
    decreases attrs.len(),
{
    if attrs.len() == 0 {
        None
    } else if attrs.first().name == name {
        Some(attrs.first())
    } else {
        first_attr_with_name(attrs.drop_first(), name)
    }
}

/// Whether the value is one of the allowed ones.
pub open spec fn allowed_contains(allowed: Seq<Seq<u8>>, value: Seq<u8>) -> bool {
    exists|i: int| 0 <= i < allowed.len() && #[trigger] allowed[i] == value
}

/// One field matches iff the subject holds an attribute of that name whose
/// value is among the allowed ones.
pub open spec fn field_matches(field: PolicyFieldView, attrs: Seq<AttributeRecordView>) -> bool {
    match first_attr_with_name(attrs, field.name) {
        None => false,
        Some(a) => allowed_contains(field.value, a.value),
    }
}

/// A policy matches iff every one of its fields matches: the logical AND
/// across all fields, so the empty policy trivially matches.
pub open spec fn policy_matches(policy: Seq<PolicyFieldView>, attrs: Seq<AttributeRecordView>) -> bool {
    forall|i: int| 0 <= i < policy.len() ==> field_matches(#[trigger] policy[i], attrs)
}

impl StateModel {
    /// The transition of `add_policy`: the field list of an object
    /// identity's policy, recorded once.
    pub open spec fn spec_add_policy(
        self,
        caller: Seq<u8>,
        object: Seq<u8>,
        fields: Seq<PolicyFieldView>,
    ) -> (StateModel, Result<(), ErrorKind>) {
        if self.owner_of(object) != caller {
            (self, Err(ErrorKind::NotOwner))
        } else if self.policies.contains_key(object) {
            (self, Err(ErrorKind::ExistPolicy))
        } else {
            (StateModel { policies: self.policies.insert(object, fields), ..self }, Ok(()))
        }
    }

    /// The transition of `remove_policy`.
    pub open spec fn spec_remove_policy(self, caller: Seq<u8>, object: Seq<u8>) -> (
        StateModel,
        Result<(), ErrorKind>,
    ) {
        if self.owner_of(object) != caller {
            (self, Err(ErrorKind::NotOwner))
        } else if !self.policies.contains_key(object) {
            (self, Err(ErrorKind::NotExistPolicy))
        } else {
            (StateModel { policies: self.policies.remove(object), ..self }, Ok(()))
        }
    }

    /// The transition of `attach_policy`: the provenance of the policy that
    /// governs the object, recorded once.
    pub open spec fn spec_attach_policy(
        self,
        caller: Seq<u8>,
        identity: Seq<u8>,
        object: Seq<u8>,
        policy: Seq<u8>,
        name: Seq<u8>,
        t: u64,
    ) -> (StateModel, Result<(), ErrorKind>) {
        if self.owner_of(identity) != caller {
            (self, Err(ErrorKind::NotOwner))
        } else if self.policy_meta.contains_key(object) {
            (self, Err(ErrorKind::ExistPolicy))
        } else {
            (
                StateModel {
                    policy_meta: self.policy_meta.insert(
                        object,
                        PolicyView {
                            policy: policy,
                            name: name,
                            attached_by: caller,
                            attached_time: t,
                        },
                    ),
                    ..self
                },
                Ok(()),
            )
        }
    }

    /// The transition of `detach_policy`.
    pub open spec fn spec_detach_policy(
        self,
        caller: Seq<u8>,
        identity: Seq<u8>,
        object: Seq<u8>,
    ) -> (StateModel, Result<(), ErrorKind>) {
        if self.owner_of(identity) != caller {
            (self, Err(ErrorKind::NotOwner))
        } else if !self.policy_meta.contains_key(object) {
            (self, Err(ErrorKind::NotExistPolicy))
        } else {
            (StateModel { policy_meta: self.policy_meta.remove(object), ..self }, Ok(()))
        }
    }
}

/// The outcome of `check_access`: both identities must have at least one
/// attribute recorded and the object must have a policy; the decision is
/// then the policy evaluated against the subject's stored attributes.
pub open spec fn spec_check_access(s: EngineState, subject: Seq<u8>, object: Seq<u8>) -> Result<
    Decision,
    ErrorKind,
> {
    if !s@.has_attributes(subject) || !s@.has_attributes(object) {
        Err(ErrorKind::InvalidAttributes)
    } else if !s@.policies.contains_key(object) {
        Err(ErrorKind::NotExistPolicy)
    } else if policy_matches(s@.policies[object], rows_of_identity(s.attributes@, subject)) {
        Ok(Decision::Allow)
    } else {
        Ok(Decision::Deny)
    }
}

impl EngineState {
    /// Records the field list of the object identity's policy; at most one
    /// policy per object.
    pub fn add_policy(
        &mut self,
        caller: &Vec<u8>,
        object_identity: &Vec<u8>,
        policy: Vec<PolicyField>,
    ) -> (r: Result<(), ErrorKind>)
        requires
            old(self).wf(),
        ensures
            final(self).wf(),
            (final(self)@, r) == old(self)@.spec_add_policy(
                caller@,
                object_identity@,
                fields_view(policy@),
            ),
    {
        if let Err(e) = self.is_owner(object_identity, caller) {
            return Err(e);
        }
        if table1_find(&self.policies, object_identity).is_some() {
            proof {
                let i = choose|i: int|
                    0 <= i < self.policies@.len() && crate::table::rec_key(
                        #[trigger] self.policies@[i],
                    ) == (object_identity@, crate::table::no_part(), crate::table::no_part());
                lemma_table_map_index(self.policies@, i);
            }
            return Err(ErrorKind::ExistPolicy);
        }
        let ghost fv = fields_view(policy@);
        table1_upsert(&mut self.policies, clone_bytes(object_identity), policy);
        proof {
            assert(self.policies_map() =~= old(self).policies_map().insert(object_identity@, fv));
            assert(self@ =~= old(self)@.spec_add_policy(caller@, object_identity@, fv).0);
        }
        Ok(())
    }

    /// Removes the object identity's policy.
    pub fn remove_policy(&mut self, caller: &Vec<u8>, object_identity: &Vec<u8>) -> (r: Result<
        (),
        ErrorKind,
    >)
        requires
            old(self).wf(),
        ensures
            final(self).wf(),
            (final(self)@, r) == old(self)@.spec_remove_policy(caller@, object_identity@),
    {
        if let Err(e) = self.is_owner(object_identity, caller) {
            return Err(e);
        }
        let existed = table1_remove(&mut self.policies, object_identity);
        if !existed {
            proof {
                assert(old(self)@.policies.remove(object_identity@) =~= old(self)@.policies);
                assert(self@ =~= old(self)@);
            }
            return Err(ErrorKind::NotExistPolicy);
        }
        proof {
            assert(self.policies_map() =~= old(self).policies_map().remove(object_identity@));
            assert(self@ =~= old(self)@.spec_remove_policy(caller@, object_identity@).0);
        }
        Ok(())
    }

    /// Records who attached which policy to the object, and when.
    pub fn attach_policy(
        &mut self,
        caller: &Vec<u8>,
        identity: &Vec<u8>,
        object: &Vec<u8>,
        policy: &Vec<u8>,
        name: &Vec<u8>,
        now_time: u64,
    ) -> (r: Result<(), ErrorKind>)
        requires
            old(self).wf(),
        ensures
            final(self).wf(),
            (final(self)@, r) == old(self)@.spec_attach_policy(
                caller@,
                identity@,
                object@,
                policy@,
                name@,
                now_time,
            ),
    {
        if let Err(e) = self.is_owner(identity, caller) {
            return Err(e);
        }
        if table1_find(&self.policy_meta, object).is_some() {
            proof {
                let i = choose|i: int|
                    0 <= i < self.policy_meta@.len() && crate::table::rec_key(
                        #[trigger] self.policy_meta@[i],
                    ) == (object@, crate::table::no_part(), crate::table::no_part());
                lemma_table_map_index(self.policy_meta@, i);
            }
            return Err(ErrorKind::ExistPolicy);
        }
        table1_upsert(
            &mut self.policy_meta,
            clone_bytes(object),
            Policy {
                policy: clone_bytes(policy),
                name: clone_bytes(name),
                attached_by: clone_bytes(caller),
                attached_time: now_time,
            },
        );
        proof {
            assert(self.policy_meta_map() =~= old(self).policy_meta_map().insert(
                object@,
                PolicyView {
                    policy: policy@,
                    name: name@,
                    attached_by: caller@,
                    attached_time: now_time,
                },
            ));
            assert(self@ =~= old(self)@.spec_attach_policy(
                caller@,
                identity@,
                object@,
                policy@,
                name@,
                now_time,
            ).0);
        }
        Ok(())
    }

    /// Removes the record of the policy attached to the object.
    pub fn detach_policy(&mut self, caller: &Vec<u8>, identity: &Vec<u8>, object: &Vec<u8>) -> (r:
        Result<(), ErrorKind>)
        requires
            old(self).wf(),
        ensures
            final(self).wf(),
            (final(self)@, r) == old(self)@.spec_detach_policy(caller@, identity@, object@),
    {
        if let Err(e) = self.is_owner(identity, caller) {
            return Err(e);
        }
        let existed = table1_remove(&mut self.policy_meta, object);
        if !existed {
            proof {
                assert(old(self)@.policy_meta.remove(object@) =~= old(self)@.policy_meta);
                assert(self@ =~= old(self)@);
            }
            return Err(ErrorKind::NotExistPolicy);
        }
        proof {
            assert(self.policy_meta_map() =~= old(self).policy_meta_map().remove(object@));
            assert(self@ =~= old(self)@.spec_detach_policy(caller@, identity@, object@).0);
        }
        Ok(())
    }

    /// Whether one field of a policy matches the listed attributes: the
    /// first attribute carrying the field's name must hold one of the
    /// field's allowed values.
    pub fn validate_policy_field_with_attrs(
        field: &PolicyField,
        attrs: &Vec<AttributeRecord>,
    ) -> (r: bool)
        ensures
            r == field_matches(field@, attrs_view(attrs@)),
    {
        let ghost av = attrs_view(attrs@);
        proof {
            assert(av.skip(0) =~= av);
        }
        let n = attrs.len();
        let mut i: usize = 0;
        while i < n
            invariant
                av == attrs_view(attrs@),
                n == attrs@.len(),
                i <= n,
                first_attr_with_name(av, field@.name) == first_attr_with_name(
                    av.skip(i as int),
                    field@.name,
                ),
            decreases n - i,
        {
            proof {
                assert(av.skip(i as int).first() == av[i as int]);
                assert(av[i as int] == attrs@[i as int]@);
                assert(av.skip(i as int).drop_first() =~= av.skip(i as int + 1));
            }
            if bytes_eq(&attrs[i].name, &field.name) {
                proof {
                    assert(av[i as int].name == field@.name);
                    assert(first_attr_with_name(av.skip(i as int), field@.name) == Some(
                        av[i as int],
                    ));
                    assert(first_attr_with_name(av, field@.name) == Some(av[i as int]));
                }
                let vals = field.value.len();
                let mut j: usize = 0;
                while j < vals
                    invariant
                        av == attrs_view(attrs@),
                        n == attrs@.len(),
                        i < n,
                        av[i as int] == attrs@[i as int]@,
                        first_attr_with_name(av, field@.name) == Some(av[i as int]),
                        vals == field.value@.len(),
                        j <= vals,
                        forall|b: int| 0 <= b < j ==> field.value@[b]@ != attrs@[i as int].value@,
                    decreases vals - j,
                {
                    if bytes_eq(&field.value[j], &attrs[i].value) {
                        proof {
                            assert(field@.value[j as int] == field.value@[j as int]@);
                            assert(allowed_contains(field@.value, attrs@[i as int].value@));
                        }
                        return true;
                    }
                    j = j + 1;
                }
                proof {
                    if allowed_contains(field@.value, attrs@[i as int].value@) {
                        let b = choose|b: int|
                            0 <= b < field@.value.len() && #[trigger] field@.value[b]
                                == attrs@[i as int].value@;
                        assert(field.value@[b]@ == attrs@[i as int].value@);
                    }
                }
                return false;
            }
            i = i + 1;
        }
        proof {
            assert(av.skip(n as int) =~= Seq::<AttributeRecordView>::empty());
        }
        false
    }

    /// Whether every field of the policy matches the listed attributes: the
    /// logical AND across all fields.
    pub fn validate_policy_with_attrs(
        policy: &Vec<PolicyField>,
        attrs: &Vec<AttributeRecord>,
    ) -> (r: bool)
        ensures
            r == policy_matches(fields_view(policy@), attrs_view(attrs@)),
    {
        let n = policy.len();
        let mut i: usize = 0;
        while i < n
            invariant
                n == policy@.len(),
                i <= n,
                forall|j: int|
                    0 <= j < i ==> field_matches(
                        #[trigger] fields_view(policy@)[j],
                        attrs_view(attrs@),
                    ),
            decreases n - i,
        {
            if !Self::validate_policy_field_with_attrs(&policy[i], attrs) {
                proof {
                    assert(fields_view(policy@)[i as int] == policy@[i as int]@);
                }
                return false;
            }
            proof {
                assert(fields_view(policy@)[i as int] == policy@[i as int]@);
            }
            i = i + 1;
        }
        true
    }

    /// Decides whether the subject may act on the object: both identities
    /// must have at least one attribute recorded, the object must have a
    /// policy, and the decision is the policy evaluated against the
    /// subject's stored attributes.  The caller and the operation name are
    /// part of the request shape; the stored policy gates on the subject's
    /// attributes alone, so any caller gets the same decision.
    pub fn check_access(
        &self,
        caller: &Vec<u8>,
        subject_identity: &Vec<u8>,
        object_identity: &Vec<u8>,
        required_operation: &Vec<u8>,
    ) -> (r: Result<Decision, ErrorKind>)
        requires
            self.wf(),
        ensures
            r == spec_check_access(*self, subject_identity@, object_identity@),
    {
        let _ = (caller, required_operation);
        if !self.has_attribute_rows(subject_identity) || !self.has_attribute_rows(object_identity) {
            return Err(ErrorKind::InvalidAttributes);
        }
        let found = table1_find(&self.policies, object_identity);
        match found {
            None => Err(ErrorKind::NotExistPolicy),
            Some(i) => {
                proof {
                    lemma_table_map_index(self.policies@, i as int);
                }
                let subject_attrs = self.attributes_of(subject_identity);
                if Self::validate_policy_with_attrs(&self.policies[i].v, &subject_attrs) {
                    Ok(Decision::Allow)
                } else {
                    Ok(Decision::Deny)
                }
            },
        }
    }
}

} // verus!
