//! Policy evaluation and the end-to-end access-control flow.

use abac_engine::attributes::AttrInput;
use abac_engine::state::{AttributeRecord, EngineState, PolicyField};
use abac_engine::Decision;
use abac_engine::ErrorKind;

fn b(s: &str) -> Vec<u8> {
    s.as_bytes().to_vec()
}

fn attr(name: &str, value: &str) -> AttributeRecord {
    AttributeRecord { name: b(name), value: b(value), expiry: u64::MAX, created: 0, nonce: 0 }
}

fn role_region_policy() -> Vec<PolicyField> {
    vec![
        PolicyField { name: b("role"), value: vec![b("admin")] },
        PolicyField { name: b("region"), value: vec![b("EU"), b("US")] },
    ]
}

#[test]
fn policy_needs_every_field_to_match() {
    let policy = role_region_policy();
    let both = vec![attr("role", "admin"), attr("region", "EU")];
    assert!(EngineState::validate_policy_with_attrs(&policy, &both));
    let other_region = vec![attr("role", "admin"), attr("region", "US")];
    assert!(EngineState::validate_policy_with_attrs(&policy, &other_region));
    // Missing either attribute flips the decision.
    let role_only = vec![attr("role", "admin")];
    assert!(!EngineState::validate_policy_with_attrs(&policy, &role_only));
    let region_only = vec![attr("region", "EU")];
    assert!(!EngineState::validate_policy_with_attrs(&policy, &region_only));
    // A value outside the allowed set does not match.
    let wrong_value = vec![attr("role", "user"), attr("region", "EU")];
    assert!(!EngineState::validate_policy_with_attrs(&policy, &wrong_value));
    let wrong_region = vec![attr("role", "admin"), attr("region", "ASIA")];
    assert!(!EngineState::validate_policy_with_attrs(&policy, &wrong_region));
}

#[test]
fn empty_policy_trivially_matches() {
    let empty: Vec<PolicyField> = Vec::new();
    let none: Vec<AttributeRecord> = Vec::new();
    assert!(EngineState::validate_policy_with_attrs(&empty, &none));
    assert!(EngineState::validate_policy_with_attrs(&empty, &vec![attr("role", "admin")]));
}

#[test]
fn field_match_uses_first_attribute_of_that_name() {
    let field = PolicyField { name: b("role"), value: vec![b("admin")] };
    let attrs = vec![attr("role", "admin"), attr("role", "user")];
    assert!(EngineState::validate_policy_field_with_attrs(&field, &attrs));
    let shadowed = vec![attr("role", "user"), attr("role", "admin")];
    assert!(!EngineState::validate_policy_field_with_attrs(&field, &shadowed));
}

#[test]
fn duplicate_key_detection() {
    let clean = vec![
        AttrInput { name: b("role"), value: b("admin") },
        AttrInput { name: b("region"), value: b("EU") },
    ];
    assert!(!EngineState::check_attr_keys_duplication(&clean));
    let dup = vec![
        AttrInput { name: b("role"), value: b("admin") },
        AttrInput { name: b("role"), value: b("user") },
    ];
    assert!(EngineState::check_attr_keys_duplication(&dup));
}

#[test]
fn policy_lifecycle_rejections() {
    let mut state = EngineState::new();
    let object = b("printer");
    assert_eq!(
        state.remove_policy(&object, &object),
        Err(ErrorKind::NotExistPolicy)
    );
    assert_eq!(state.add_policy(&object, &object, role_region_policy()), Ok(()));
    assert_eq!(
        state.add_policy(&object, &object, Vec::new()),
        Err(ErrorKind::ExistPolicy)
    );
    assert_eq!(
        state.add_policy(&b("mallory"), &object, Vec::new()),
        Err(ErrorKind::NotOwner)
    );
    assert_eq!(state.remove_policy(&object, &object), Ok(()));
    assert_eq!(state.remove_policy(&object, &object), Err(ErrorKind::NotExistPolicy));
}

#[test]
fn attach_and_detach_policy_metadata() {
    let mut state = EngineState::new();
    let identity = b("alice");
    let object = b("printer");
    let policy_addr = b("policy-contract");
    assert_eq!(
        state.detach_policy(&identity, &identity, &object),
        Err(ErrorKind::NotExistPolicy)
    );
    assert_eq!(
        state.attach_policy(&b("mallory"), &identity, &object, &policy_addr, &b("main"), 100),
        Err(ErrorKind::NotOwner)
    );
    assert_eq!(
        state.attach_policy(&identity, &identity, &object, &policy_addr, &b("main"), 100),
        Ok(())
    );
    assert_eq!(
        state.attach_policy(&identity, &identity, &object, &policy_addr, &b("main"), 101),
        Err(ErrorKind::ExistPolicy)
    );
    assert_eq!(state.detach_policy(&identity, &identity, &object), Ok(()));
    assert_eq!(
        state.detach_policy(&identity, &identity, &object),
        Err(ErrorKind::NotExistPolicy)
    );
}

#[test]
fn end_to_end_access_flow() {
    let mut state = EngineState::new();
    let owner = b("olivia");
    let subject = b("alice");
    let object = b("printer");
    // The owner takes control of the subject identity and grants it a role.
    assert_eq!(state.change_owner(&subject, &subject, &owner, 1, 10), Ok(()));
    assert_eq!(
        state.set_attributes(&owner, &subject, &vec![AttrInput { name: b("role"), value: b("admin") }], 20),
        Ok(())
    );
    assert_eq!(state.nonce_of(&subject, &b("role")), 1);
    // The object carries an attribute so the access check accepts it, and a
    // policy requiring role=admin.
    assert_eq!(
        state.set_attributes(&object, &object, &vec![AttrInput { name: b("kind"), value: b("printer") }], 20),
        Ok(())
    );
    assert_eq!(
        state.add_policy(&object, &object, vec![PolicyField { name: b("role"), value: vec![b("admin")] }]),
        Ok(())
    );
    assert_eq!(state.check_access(&subject, &subject, &object, &b("read")), Ok(Decision::Allow));
    // Demoting the subject flips the decision.
    assert_eq!(
        state.set_attributes(&owner, &subject, &vec![AttrInput { name: b("role"), value: b("user") }], 30),
        Ok(())
    );
    assert_eq!(state.check_access(&subject, &subject, &object, &b("read")), Ok(Decision::Deny));
}

#[test]
fn check_access_preconditions() {
    let mut state = EngineState::new();
    let subject = b("alice");
    let object = b("printer");
    // Both identities must have at least one attribute recorded.
    assert_eq!(
        state.check_access(&subject, &subject, &object, &b("read")),
        Err(ErrorKind::InvalidAttributes)
    );
    assert_eq!(
        state.set_attributes(&subject, &subject, &vec![AttrInput { name: b("role"), value: b("admin") }], 20),
        Ok(())
    );
    assert_eq!(
        state.check_access(&subject, &subject, &object, &b("read")),
        Err(ErrorKind::InvalidAttributes)
    );
    assert_eq!(
        state.set_attributes(&object, &object, &vec![AttrInput { name: b("kind"), value: b("printer") }], 20),
        Ok(())
    );
    // The object must have a policy.
    assert_eq!(
        state.check_access(&subject, &subject, &object, &b("read")),
        Err(ErrorKind::NotExistPolicy)
    );
}
