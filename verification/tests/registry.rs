//! Identity ownership and delegation.

use abac_engine::state::EngineState;
use abac_engine::ErrorKind;

fn b(s: &str) -> Vec<u8> {
    s.as_bytes().to_vec()
}

#[test]
fn owner_defaults_to_identity_itself() {
    let state = EngineState::new();
    let identity = b("alice");
    assert_eq!(state.identity_owner(&identity), identity);
}

#[test]
fn change_owner_records_new_owner() {
    let mut state = EngineState::new();
    let identity = b("alice");
    let new_owner = b("bob");
    assert_eq!(state.change_owner(&identity, &identity, &new_owner, 5, 500), Ok(()));
    assert_eq!(state.identity_owner(&identity), new_owner);
    // The old owner lost control: a second transfer by it is refused.
    assert_eq!(
        state.change_owner(&identity, &identity, &b("carol"), 6, 600),
        Err(ErrorKind::NotOwner)
    );
    // The new owner can transfer on.
    assert_eq!(state.change_owner(&new_owner, &identity, &b("carol"), 7, 700), Ok(()));
    assert_eq!(state.identity_owner(&identity), b("carol"));
}

#[test]
fn delegate_valid_strictly_below_expiry() {
    let mut state = EngineState::new();
    let identity = b("alice");
    let delegate = b("dave");
    let purpose = b("signing");
    let now: u64 = 100;
    assert_eq!(
        state.add_delegate(&identity, &identity, &delegate, &purpose, Some(10), now, 1000),
        Ok(())
    );
    // Valid at now + 9, invalid from now + 10 on: the comparison is strict.
    assert!(state.is_valid_delegate(&identity, &purpose, &delegate, now + 9));
    assert!(!state.is_valid_delegate(&identity, &purpose, &delegate, now + 10));
}

#[test]
fn delegate_without_duration_is_unbounded() {
    let mut state = EngineState::new();
    let identity = b("alice");
    let delegate = b("dave");
    let purpose = b("signing");
    assert_eq!(
        state.add_delegate(&identity, &identity, &delegate, &purpose, None, 100, 1000),
        Ok(())
    );
    assert!(state.is_valid_delegate(&identity, &purpose, &delegate, u64::MAX - 1));
}

#[test]
fn delegate_rejections() {
    let mut state = EngineState::new();
    let identity = b("alice");
    let delegate = b("dave");
    let purpose = b("signing");
    // Self-delegation is refused.
    assert_eq!(
        state.add_delegate(&identity, &identity, &identity, &purpose, Some(10), 100, 1000),
        Err(ErrorKind::InvalidDelegate)
    );
    // Only the owner may create delegates.
    assert_eq!(
        state.add_delegate(&delegate, &identity, &delegate, &purpose, Some(10), 100, 1000),
        Err(ErrorKind::NotOwner)
    );
    // An over-long purpose is refused.
    let long_purpose = vec![7u8; 65];
    assert_eq!(
        state.add_delegate(&identity, &identity, &delegate, &long_purpose, Some(10), 100, 1000),
        Err(ErrorKind::InvalidDelegate)
    );
    // A second grant while the first is still valid is refused.
    assert_eq!(
        state.add_delegate(&identity, &identity, &delegate, &purpose, Some(10), 100, 1000),
        Ok(())
    );
    assert_eq!(
        state.add_delegate(&identity, &identity, &delegate, &purpose, Some(20), 105, 1050),
        Err(ErrorKind::ValidDelegateExists)
    );
}

#[test]
fn revoke_delegate_is_immediate_but_keeps_history() {
    let mut state = EngineState::new();
    let identity = b("alice");
    let delegate = b("dave");
    let purpose = b("signing");
    assert_eq!(
        state.add_delegate(&identity, &identity, &delegate, &purpose, Some(100), 100, 1000),
        Ok(())
    );
    assert!(state.is_valid_delegate(&identity, &purpose, &delegate, 105));
    assert_eq!(state.revoke_delegate(&identity, &identity, &purpose, &delegate, 105, 1050), Ok(()));
    // Revocation sets the expiry to the revocation height: no longer valid.
    assert!(!state.is_valid_delegate(&identity, &purpose, &delegate, 105));
    // The entry remains queryable: it can be granted again once expired.
    assert_eq!(
        state.add_delegate(&identity, &identity, &delegate, &purpose, Some(10), 106, 1060),
        Ok(())
    );
}

#[test]
fn revoke_delegate_rejections() {
    let mut state = EngineState::new();
    let identity = b("alice");
    let delegate = b("dave");
    let purpose = b("signing");
    // Nothing to revoke.
    assert_eq!(
        state.revoke_delegate(&identity, &identity, &purpose, &delegate, 100, 1000),
        Err(ErrorKind::InvalidDelegate)
    );
    assert_eq!(
        state.add_delegate(&identity, &identity, &delegate, &purpose, Some(10), 100, 1000),
        Ok(())
    );
    // Only the owner may revoke.
    assert_eq!(
        state.revoke_delegate(&delegate, &identity, &purpose, &delegate, 101, 1010),
        Err(ErrorKind::NotOwner)
    );
    // An expired delegate cannot be revoked again.
    assert_eq!(
        state.revoke_delegate(&identity, &identity, &purpose, &delegate, 110, 1100),
        Err(ErrorKind::InvalidDelegate)
    );
}

#[test]
fn valid_delegate_accepts_owner_or_listed_delegate() {
    let mut state = EngineState::new();
    let identity = b("alice");
    let delegate = b("dave");
    let purpose = b("signing");
    // The owner itself always passes.
    assert_eq!(state.valid_delegate(&identity, &purpose, &identity, 100), Ok(()));
    // An unlisted third party does not.
    assert_eq!(
        state.valid_delegate(&identity, &purpose, &delegate, 100),
        Err(ErrorKind::InvalidDelegate)
    );
    assert_eq!(
        state.add_delegate(&identity, &identity, &delegate, &purpose, Some(10), 100, 1000),
        Ok(())
    );
    assert_eq!(state.valid_delegate(&identity, &purpose, &delegate, 105), Ok(()));
}
