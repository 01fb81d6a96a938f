//! Versioned attribute storage, nonce freshness, and endorsement cascade.

use abac_engine::attributes::AttrInput;
use abac_engine::hash::compute_attribute_id;
use abac_engine::state::EngineState;
use abac_engine::ErrorKind;

fn b(s: &str) -> Vec<u8> {
    s.as_bytes().to_vec()
}

fn one_attr(name: &str, value: &str) -> Vec<AttrInput> {
    vec![AttrInput { name: b(name), value: b(value) }]
}

#[test]
fn create_delete_recreate_yields_fresh_id() {
    let mut state = EngineState::new();
    let identity = b("alice");
    let name = b("email");
    assert_eq!(
        state.add_attribute(&identity, &identity, &name, &b("a@x.com"), None, 10, 100),
        Ok(())
    );
    assert_eq!(state.nonce_of(&identity, &name), 1);
    let old_id = compute_attribute_id(&identity, &name, 0);
    assert_eq!(state.delete_attribute(&identity, &identity, &name, 11, 110), Ok(()));
    // The nonce is untouched by deletion, so the next create is version 1.
    assert_eq!(state.nonce_of(&identity, &name), 1);
    assert!(state.resolve_current(&identity, &name).is_none());
    assert_eq!(
        state.add_attribute(&identity, &identity, &name, &b("b@x.com"), None, 12, 120),
        Ok(())
    );
    assert_eq!(state.nonce_of(&identity, &name), 2);
    let new_id = compute_attribute_id(&identity, &name, 1);
    // The recreated attribute has a different identifier...
    assert_ne!(old_id, new_id);
    // ...and the old identifier does not resolve as current: the current
    // record is the freshly issued version.
    let current = state.resolve_current(&identity, &name).unwrap();
    assert_eq!(current.nonce, 1);
    assert_eq!(current.value, b("b@x.com"));
}

#[test]
fn add_attribute_rejections() {
    let mut state = EngineState::new();
    let identity = b("alice");
    let name = b("email");
    let long_name = vec![7u8; 65];
    assert_eq!(
        state.add_attribute(&identity, &identity, &long_name, &b("v"), None, 10, 100),
        Err(ErrorKind::AttributeCreationFailed)
    );
    assert_eq!(
        state.add_attribute(&b("mallory"), &identity, &name, &b("v"), None, 10, 100),
        Err(ErrorKind::NotOwner)
    );
    assert_eq!(state.add_attribute(&identity, &identity, &name, &b("v"), None, 10, 100), Ok(()));
    // A name that still resolves cannot be created again.
    assert_eq!(
        state.add_attribute(&identity, &identity, &name, &b("w"), None, 11, 110),
        Err(ErrorKind::AttributeCreationFailed)
    );
}

#[test]
fn revoke_attribute_soft_expires() {
    let mut state = EngineState::new();
    let identity = b("alice");
    let name = b("email");
    assert_eq!(
        state.revoke_attribute(&identity, &identity, &name, 10, 100),
        Err(ErrorKind::AttributeResetFailed)
    );
    assert_eq!(state.add_attribute(&identity, &identity, &name, &b("v"), None, 10, 100), Ok(()));
    assert_eq!(state.valid_attribute(&identity, &name, &b("v"), 50), Ok(()));
    assert_eq!(state.revoke_attribute(&identity, &identity, &name, 20, 200), Ok(()));
    // The entry stays readable, but it is expired at and after height 20.
    let rec = state.resolve_current(&identity, &name).unwrap();
    assert_eq!(rec.expiry, 20);
    assert_eq!(state.valid_attribute(&identity, &name, &b("v"), 20), Err(ErrorKind::InvalidAttributes));
    assert_eq!(state.valid_attribute(&identity, &name, &b("v"), 19), Ok(()));
}

#[test]
fn delete_attribute_rejections() {
    let mut state = EngineState::new();
    let identity = b("alice");
    assert_eq!(
        state.delete_attribute(&identity, &identity, &b("email"), 10, 100),
        Err(ErrorKind::AttributeRemovalFailed)
    );
    let long_name = vec![7u8; 65];
    assert_eq!(
        state.delete_attribute(&identity, &identity, &long_name, 10, 100),
        Err(ErrorKind::AttributeRemovalFailed)
    );
}

#[test]
fn set_attributes_creates_and_updates_in_place() {
    let mut state = EngineState::new();
    let identity = b("alice");
    assert_eq!(state.set_attributes(&identity, &identity, &one_attr("role", "admin"), 100), Ok(()));
    assert_eq!(state.nonce_of(&identity, &b("role")), 1);
    let first = state.resolve_current(&identity, &b("role")).unwrap();
    assert_eq!(first.value, b("admin"));
    // Overwriting keeps the version: the nonce does not move.
    assert_eq!(state.set_attributes(&identity, &identity, &one_attr("role", "user"), 200), Ok(()));
    assert_eq!(state.nonce_of(&identity, &b("role")), 1);
    let second = state.resolve_current(&identity, &b("role")).unwrap();
    assert_eq!(second.value, b("user"));
    assert_eq!(second.nonce, first.nonce);
}

#[test]
fn set_attributes_batch_rejections() {
    let mut state = EngineState::new();
    let identity = b("alice");
    // An oversized batch.
    let big: Vec<AttrInput> = (0..65)
        .map(|i| AttrInput { name: vec![i as u8], value: b("v") })
        .collect();
    assert_eq!(
        state.set_attributes(&identity, &identity, &big, 100),
        Err(ErrorKind::InputOverflow)
    );
    // An oversized field.
    let long = vec![AttrInput { name: vec![7u8; 65], value: b("v") }];
    assert_eq!(
        state.set_attributes(&identity, &identity, &long, 100),
        Err(ErrorKind::InputOverflow)
    );
    // Only the owner writes.
    assert_eq!(
        state.set_attributes(&b("mallory"), &identity, &one_attr("role", "admin"), 100),
        Err(ErrorKind::NotOwner)
    );
    // A repeated name voids the batch.
    let dup = vec![
        AttrInput { name: b("role"), value: b("admin") },
        AttrInput { name: b("role"), value: b("user") },
    ];
    assert_eq!(
        state.set_attributes(&identity, &identity, &dup, 100),
        Err(ErrorKind::DuplicateAttributeKey)
    );
    // Nothing was applied by the failed batches.
    assert!(state.resolve_current(&identity, &b("role")).is_none());
}

#[test]
fn clear_attributes_is_all_or_nothing() {
    let mut state = EngineState::new();
    let identity = b("alice");
    assert_eq!(state.set_attributes(&identity, &identity, &one_attr("role", "admin"), 100), Ok(()));
    // One unknown name voids the whole call.
    assert_eq!(
        state.clear_attributes(&identity, &identity, &vec![b("role"), b("region")]),
        Err(ErrorKind::InvalidAttributes)
    );
    assert!(state.resolve_current(&identity, &b("role")).is_some());
    assert_eq!(state.clear_attributes(&identity, &identity, &vec![b("role")]), Ok(()));
    assert!(state.resolve_current(&identity, &b("role")).is_none());
    // The nonce is untouched, so the identifier space is never reused.
    assert_eq!(state.nonce_of(&identity, &b("role")), 1);
}

#[test]
fn changing_a_value_invalidates_every_endorsement() {
    let mut state = EngineState::new();
    let identity = b("alice");
    let endorser = b("erin");
    let name = b("email");
    assert_eq!(
        state.set_attributes(&identity, &identity, &one_attr("email", "a@x.com"), 100),
        Ok(())
    );
    assert_eq!(
        state.endorse_attributes(&endorser, &endorser, &identity, &vec![name.clone()], Some(50), 10, 100),
        Ok(())
    );
    assert!(state.is_validly_endorsed(&identity, &name, &vec![endorser.clone()], 20));
    // Changing the value voids the endorsement: it spoke about the old one.
    assert_eq!(
        state.set_attributes(&identity, &identity, &one_attr("email", "b@x.com"), 200),
        Ok(())
    );
    assert!(!state.is_validly_endorsed(&identity, &name, &vec![endorser.clone()], 20));
    // Rewriting the same value does not.
    assert_eq!(
        state.endorse_attributes(&endorser, &endorser, &identity, &vec![name.clone()], Some(50), 10, 100),
        Ok(())
    );
    assert_eq!(
        state.set_attributes(&identity, &identity, &one_attr("email", "b@x.com"), 300),
        Ok(())
    );
    assert!(state.is_validly_endorsed(&identity, &name, &vec![endorser.clone()], 20));
}

#[test]
fn endorsement_expiry_and_rejections() {
    let mut state = EngineState::new();
    let identity = b("alice");
    let endorser = b("erin");
    let name = b("email");
    // Endorsing a name that does not resolve on the target is refused.
    assert_eq!(
        state.endorse_attributes(&endorser, &endorser, &identity, &vec![name.clone()], Some(50), 10, 100),
        Err(ErrorKind::InvalidAttributes)
    );
    assert_eq!(
        state.set_attributes(&identity, &identity, &one_attr("email", "a@x.com"), 100),
        Ok(())
    );
    // Only the owner of the endorsing identity may endorse through it.
    assert_eq!(
        state.endorse_attributes(&b("mallory"), &endorser, &identity, &vec![name.clone()], Some(50), 10, 100),
        Err(ErrorKind::NotOwner)
    );
    assert_eq!(
        state.endorse_attributes(&endorser, &endorser, &identity, &vec![name.clone()], Some(50), 10, 100),
        Ok(())
    );
    // The endorsement's own expiry is strict: valid below 60, not at 60.
    assert!(state.is_validly_endorsed(&identity, &name, &vec![endorser.clone()], 59));
    assert!(!state.is_validly_endorsed(&identity, &name, &vec![endorser.clone()], 60));
    // An unlisted endorser does not validate.
    assert!(!state.is_validly_endorsed(&identity, &name, &vec![b("frank")], 20));
}

#[test]
fn unendorse_removes_only_the_callers_endorsement() {
    let mut state = EngineState::new();
    let identity = b("alice");
    let erin = b("erin");
    let frank = b("frank");
    let name = b("email");
    assert_eq!(
        state.set_attributes(&identity, &identity, &one_attr("email", "a@x.com"), 100),
        Ok(())
    );
    assert_eq!(
        state.endorse_attributes(&erin, &erin, &identity, &vec![name.clone()], None, 10, 100),
        Ok(())
    );
    assert_eq!(
        state.endorse_attributes(&frank, &frank, &identity, &vec![name.clone()], None, 10, 100),
        Ok(())
    );
    assert_eq!(state.unendorse_attributes(&erin, &erin, &identity, &vec![name.clone()]), Ok(()));
    assert!(!state.is_validly_endorsed(&identity, &name, &vec![erin.clone()], 20));
    assert!(state.is_validly_endorsed(&identity, &name, &vec![frank.clone()], 20));
}

#[test]
fn exhausted_nonce_fails_without_wrapping() {
    let mut state = EngineState::new();
    let identity = b("alice");
    let name = b("email");
    // A store whose counter for this name is exhausted: the next create
    // must fail rather than wrap, both on the single and on the batch path.
    state.nonces.push(abac_engine::table::Rec {
        k1: identity.clone(),
        k2: name.clone(),
        k3: Vec::new(),
        v: u64::MAX,
    });
    assert_eq!(
        state.add_attribute(&identity, &identity, &name, &b("v"), None, 10, 100),
        Err(ErrorKind::Overflow)
    );
    assert_eq!(
        state.set_attributes(&identity, &identity, &one_attr("email", "v"), 100),
        Err(ErrorKind::Overflow)
    );
    assert!(state.resolve_current(&identity, &name).is_none());
}

#[test]
fn attribute_expiry_saturates_at_max_height() {
    let mut state = EngineState::new();
    let identity = b("alice");
    let name = b("email");
    assert_eq!(
        state.add_attribute(&identity, &identity, &name, &b("v"), Some(u64::MAX), 10, 100),
        Ok(())
    );
    let rec = state.resolve_current(&identity, &name).unwrap();
    assert_eq!(rec.expiry, u64::MAX);
}

#[test]
fn attributes_of_lists_stored_records() {
    let mut state = EngineState::new();
    let identity = b("alice");
    let other = b("bob");
    let batch = vec![
        AttrInput { name: b("role"), value: b("admin") },
        AttrInput { name: b("region"), value: b("EU") },
    ];
    assert_eq!(state.set_attributes(&identity, &identity, &batch, 100), Ok(()));
    assert_eq!(state.set_attributes(&other, &other, &one_attr("role", "user"), 100), Ok(()));
    let attrs = state.attributes_of(&identity);
    assert_eq!(attrs.len(), 2);
    assert!(attrs.iter().any(|a| a.name == b("role") && a.value == b("admin")));
    assert!(attrs.iter().any(|a| a.name == b("region") && a.value == b("EU")));
    assert!(state.has_attribute_rows(&identity));
    assert!(!state.has_attribute_rows(&b("carol")));
}
