//! Provider-side registry behaviour: registration, suspension, issuance
//! tracking, and the types underneath.

use medblock::arena::Arena;
use medblock::providers::{
    EssentialProviderAttributes, ProviderRegistry, ProviderV001, Status,
};
use medblock::types::{Id, Principal, Timestamp};

fn principal(tag: u8) -> Principal {
    Principal::from_bytes(vec![tag, 9, 9])
}

#[test]
fn register_then_suspend_succeeds_and_unknown_fails() {
    let mut arena = Arena::new(100);
    let mut registry = ProviderRegistry::new();
    let id1 = principal(1);
    let id2 = principal(2);

    registry
        .register_new_provider(id1.duplicate(), String::from("Alice"), Timestamp::from_nanos(5), &mut arena)
        .unwrap();
    assert!(registry.suspend_provider(id1.duplicate()).is_ok());
    let stored = registry.get_provider(&id1).expect("provider must be stored");
    assert!(stored.activation_status().is_suspended());

    let err = registry.suspend_provider(id2.duplicate()).unwrap_err();
    assert_eq!(err, "provider not found");

    // Suspension is idempotent in effect: a second suspension succeeds and
    // leaves the status suspended.
    assert!(registry.suspend_provider(id1.duplicate()).is_ok());
    let stored = registry.get_provider(&id1).expect("provider must stay stored");
    assert!(stored.activation_status().is_suspended());
}

#[test]
fn registration_stores_a_verified_profile() {
    let mut arena = Arena::new(100);
    let mut registry = ProviderRegistry::new();
    let p = principal(3);
    registry
        .register_provider_with_id(
            p.duplicate(),
            String::from("Clinic"),
            Id::from_parts(4, 4),
            Timestamp::from_nanos(50),
            &mut arena,
        )
        .unwrap();
    assert_eq!(arena.used_cells(), 3);
    let stored = registry.get_provider(&p).expect("provider must be stored");
    assert!(stored.activation_status().is_verified());
    assert_eq!(stored.display_name(), "Clinic");
    assert_eq!(*stored.internal_id(), Id::from_parts(4, 4));
}

#[test]
fn registration_is_atomic_on_exhaustion() {
    // Registration needs three cells; two are available: nothing commits.
    let mut arena = Arena::new(2);
    let mut registry = ProviderRegistry::new();
    let p = principal(4);
    let r = registry.register_new_provider(
        p.duplicate(),
        String::from("Alice"),
        Timestamp::from_nanos(5),
        &mut arena,
    );
    assert!(r.is_err());
    assert_eq!(arena.used_cells(), 0);
    assert!(registry.get_provider(&p).is_none());
    assert_eq!(registry.suspend_provider(p).unwrap_err(), "provider not found");
}

#[test]
fn issuance_is_tracked_per_provider() {
    let mut arena = Arena::new(100);
    let mut registry = ProviderRegistry::new();
    let p = principal(5);
    let emr_id = Id::from_parts(7, 7);

    assert!(!registry.is_issued_by(&p, &emr_id));
    assert_eq!(registry.issue_emr(&p, emr_id, &mut arena).unwrap_err(), "provider not found");

    registry
        .register_provider_with_id(
            p.duplicate(),
            String::from("Lab"),
            Id::from_parts(6, 6),
            Timestamp::from_nanos(9),
            &mut arena,
        )
        .unwrap();
    registry.issue_emr(&p, emr_id, &mut arena).unwrap();
    assert!(registry.is_issued_by(&p, &emr_id));
    assert!(!registry.is_issued_by(&p, &Id::from_parts(8, 8)));
}

#[test]
fn provider_value_constructor_stamps_verified_and_now() {
    let mut arena = Arena::new(1);
    let provider = ProviderV001::new(
        String::from("Alice"),
        principal(6),
        Id::from_parts(1, 2),
        Timestamp::from_nanos(11),
        &mut arena,
    )
    .unwrap();
    assert_eq!(*provider.internal_id(), Id::from_parts(1, 2));
    assert_eq!(arena.used_cells(), 1);

    // The arena is spent now: a second construction must fail.
    assert!(ProviderV001::new(
        String::from("Bob"),
        principal(7),
        Id::from_parts(3, 4),
        Timestamp::from_nanos(12),
        &mut arena,
    )
    .is_err());
}

#[test]
fn status_predicates() {
    assert!(Status::Verified.is_verified());
    assert!(!Status::Verified.is_suspended());
    assert!(Status::Suspended.is_suspended());
    assert!(!Status::Suspended.is_verified());
}
