//! Patient-side registry behaviour: binding, revocation, live ownership,
//! record registration, and the mirroring round trip.

use medblock::arena::Arena;
use medblock::emr::{
    Emr, EmrDisplay, EmrRecordsValue, FromStableRef, Records, RecrodsDisplay, ToResponse, V001,
};
use medblock::patient::InternalBindingKey;
use medblock::types::{AsciiRecordsKey, Id, Principal, Timestamp};

fn nik(fill: u8) -> InternalBindingKey {
    let text: String = (0..32).map(|i| (b'a' + ((fill + i) % 26)) as char).collect();
    InternalBindingKey::from_text(text).expect("32 ascii chars must be accepted")
}

fn owner(tag: u8) -> Principal {
    Principal::from_bytes(vec![tag, 1, 2, 3])
}

fn small_records(arena: &mut Arena, tag: &str) -> Records {
    let mut records = Records::new();
    let key = AsciiRecordsKey::new(String::from("diagnosis")).unwrap();
    let value = EmrRecordsValue::new(format!("encrypted-{tag}"), arena).unwrap();
    records.insert(key, value, arena).unwrap();
    records
}

#[test]
fn bind_returns_exactly_the_bound_key() {
    let mut arena = Arena::new(10);
    let mut owners = medblock::patient::OwnerMap::new();
    let o = owner(1);
    owners.bind(o.duplicate(), nik(0), &mut arena).unwrap();
    assert_eq!(owners.get_nik(&o).expect("bound").as_str(), nik(0).as_str());

    // A second bind with a different key overwrites, it does not accumulate.
    owners.bind(o.duplicate(), nik(9), &mut arena).unwrap();
    assert_eq!(owners.get_nik(&o).expect("bound").as_str(), nik(9).as_str());
    assert_ne!(nik(0).as_str(), nik(9).as_str());
    assert!(owners.is_valid_owner(&o));

    owners.revoke(&o);
    assert!(owners.get_nik(&o).is_none());
    assert!(!owners.is_valid_owner(&o));
}

#[test]
fn revoke_fails_closed() {
    let mut arena = Arena::new(100);
    let mut registry = medblock::emr::EmrRegistry::new();
    let o = owner(2);
    let key = nik(3);
    registry.register_patient(o.duplicate(), key.duplicate(), &mut arena).unwrap();

    let records = small_records(&mut arena, "r1");
    let emr = Emr::V001(V001::new(Id::from_parts(1, 1), records, Timestamp::from_nanos(10)));
    let emr_id = *emr.id();
    registry.register_emr(emr, key.duplicate(), &mut arena).unwrap();
    assert!(registry.is_owner_of_emr(&o, &emr_id));

    registry.revoke_patient_access(&o);
    assert!(!registry.is_valid_patient(&o));
    // The key still owns the id in the binding map, but the owner's check
    // fails closed on the missing binding.
    assert!(!registry.is_owner_of_emr(&o, &emr_id));
}

#[test]
fn ownership_is_resolved_live() {
    let mut arena = Arena::new(100);
    let mut registry = medblock::emr::EmrRegistry::new();
    let o = owner(3);
    let key1 = nik(1);
    let key2 = nik(2);
    registry.register_patient(o.duplicate(), key1.duplicate(), &mut arena).unwrap();

    let records = small_records(&mut arena, "r2");
    let emr = Emr::V001(V001::new(Id::from_parts(2, 2), records, Timestamp::from_nanos(20)));
    let emr_id = *emr.id();
    registry.register_emr(emr, key1.duplicate(), &mut arena).unwrap();

    // Owner's bound key equals the issuing key: ownership holds.
    assert!(registry.is_owner_of_emr(&o, &emr_id));

    // Rebinding the owner to another key loses ownership at check time.
    registry.rebind_patient(o.duplicate(), key2.duplicate(), &mut arena).unwrap();
    assert!(!registry.is_owner_of_emr(&o, &emr_id));

    // A different owner bound to the issuing key gains ownership live.
    let other = owner(4);
    registry.register_patient(other.duplicate(), key1.duplicate(), &mut arena).unwrap();
    assert!(registry.is_owner_of_emr(&other, &emr_id));
}

#[test]
fn register_emr_is_atomic_on_exhaustion() {
    // Capacity 3 covers the record's field value and map node, nothing more:
    // the registration itself needs two further cells and must change nothing.
    let mut arena = Arena::new(3);
    let mut registry = medblock::emr::EmrRegistry::new();
    let key = nik(4);
    let records = small_records(&mut arena, "r3");
    assert_eq!(arena.used_cells(), 2);
    let emr = Emr::V001(V001::new(Id::from_parts(3, 3), records, Timestamp::from_nanos(30)));
    let emr_id = *emr.id();
    let used_before = arena.used_cells();
    assert!(registry.register_emr(emr, key.duplicate(), &mut arena).is_err());
    assert_eq!(arena.used_cells(), used_before);
    assert!(registry.get_emr(&emr_id).is_none());
}

#[test]
fn mirror_out_then_reconstruct_round_trips() {
    let mut arena = Arena::new(100);
    let mut records = Records::new();
    for (k, v) in [("alpha", "one"), ("beta", "two"), ("gamma", "three")] {
        let key = AsciiRecordsKey::new(String::from(k)).unwrap();
        let value = EmrRecordsValue::new(String::from(v), &mut arena).unwrap();
        records.insert(key, value, &mut arena).unwrap();
    }
    let emr = Emr::V001(V001::new(Id::from_parts(9, 9), records, Timestamp::from_nanos(77)));

    let display = EmrDisplay::from_stable_ref(&emr);
    let rebuilt = Emr::try_from_display(display.clone(), &mut arena).expect("mirrored data must reconstruct");

    assert_eq!(*rebuilt.id(), *emr.id());
    let display_again = EmrDisplay::from_stable_ref(&rebuilt);
    let EmrDisplay::V001(d1) = display;
    let EmrDisplay::V001(d2) = display_again;
    assert_eq!(*d1.emr_id(), *d2.emr_id());
    assert_eq!(d1.created_at(), d2.created_at());
    assert_eq!(d1.updated_at(), d2.updated_at());
    let mut e1 = d1.records().entries().clone();
    let mut e2 = d2.records().entries().clone();
    e1.sort();
    e2.sort();
    assert_eq!(e1, e2);
    assert_eq!(e1.len(), 3);
}

#[test]
fn overlong_key_rejects_reconstruction_and_commits_nothing() {
    let mut arena = Arena::new(100);
    let long_key: String = std::iter::repeat('k').take(101).collect();
    let display = RecrodsDisplay::from_entries(vec![
        (String::from("fine"), String::from("v1")),
        (long_key, String::from("v2")),
    ]);
    let used_before = arena.used_cells();
    let err = Records::try_from_display(display, &mut arena).unwrap_err();
    assert_eq!(err, "emr record key must not exceed 100 characters");
    assert_eq!(arena.used_cells(), used_before);
}

#[test]
fn non_ascii_key_rejects_reconstruction() {
    let mut arena = Arena::new(100);
    let display = RecrodsDisplay::from_entries(vec![(String::from("clé"), String::from("v"))]);
    let err = Records::try_from_display(display, &mut arena).unwrap_err();
    assert_eq!(err, "emr record key must be ascii");
}

#[test]
fn reconstruction_reports_exhaustion() {
    // Two wire entries need four cells; three are available.
    let mut arena = Arena::new(3);
    let display = RecrodsDisplay::from_entries(vec![
        (String::from("a"), String::from("1")),
        (String::from("b"), String::from("2")),
    ]);
    let err = Records::try_from_display(display, &mut arena).unwrap_err();
    assert_eq!(err, "stable memory exhausted");
    assert_eq!(arena.used_cells(), 0);
}

#[test]
fn duplicate_wire_keys_overwrite_with_the_later_value() {
    let mut arena = Arena::new(100);
    let display = RecrodsDisplay::from_entries(vec![
        (String::from("k"), String::from("first")),
        (String::from("k"), String::from("second")),
    ]);
    let records = Records::try_from_display(display, &mut arena).unwrap();
    let key = AsciiRecordsKey::new(String::from("k")).unwrap();
    assert_eq!(records.get_value(&key).unwrap(), "second");
}

#[test]
fn records_insert_overwrites_under_the_same_key() {
    let mut arena = Arena::new(100);
    let mut records = Records::new();
    let key = AsciiRecordsKey::new(String::from("k")).unwrap();
    let v1 = EmrRecordsValue::new(String::from("old"), &mut arena).unwrap();
    let v2 = EmrRecordsValue::new(String::from("new"), &mut arena).unwrap();
    records.insert(key.duplicate(), v1, &mut arena).unwrap();
    records.insert(key.duplicate(), v2, &mut arena).unwrap();
    assert_eq!(records.get_value(&key).unwrap(), "new");
    let absent = AsciiRecordsKey::new(String::from("missing")).unwrap();
    assert!(records.get_value(&absent).is_none());
}

#[test]
fn records_value_insert_fails_on_full_arena() {
    let mut arena = Arena::new(0);
    let err = EmrRecordsValue::new(String::from("v"), &mut arena);
    assert!(err.is_err());
    assert_eq!(err.unwrap_err().message(), "stable memory exhausted");
}

#[test]
fn record_equality_delegates_to_the_id() {
    let mut arena = Arena::new(100);
    let r1 = small_records(&mut arena, "a");
    let r2 = small_records(&mut arena, "b");
    let same_id = Id::from_parts(5, 5);
    let e1 = Emr::V001(V001::new(same_id, r1, Timestamp::from_nanos(1)));
    let e2 = Emr::V001(V001::new(same_id, r2, Timestamp::from_nanos(2)));
    assert_eq!(e1, e2);

    let r3 = small_records(&mut arena, "c");
    let e3 = Emr::V001(V001::new(Id::from_parts(6, 6), r3, Timestamp::from_nanos(1)));
    assert_ne!(e1, e3);
}

#[test]
fn to_response_mirrors_the_stored_record() {
    let mut arena = Arena::new(100);
    let records = small_records(&mut arena, "resp");
    let emr = Emr::V001(V001::new(Id::from_parts(8, 8), records, Timestamp::from_nanos(42)));
    let display: EmrDisplay = emr.to_response();
    let EmrDisplay::V001(d) = display;
    assert_eq!(*d.emr_id(), Id::from_parts(8, 8));
    assert_eq!(d.created_at().as_nanos(), 42);
    assert_eq!(d.updated_at().as_nanos(), 42);
    assert_eq!(d.records().entries().len(), 1);
    assert_eq!(d.records().entries()[0].0, "diagnosis");
    assert_eq!(d.records().entries()[0].1, "encrypted-resp");
}

#[test]
fn get_emr_returns_the_registered_record() {
    let mut arena = Arena::new(100);
    let mut registry = medblock::emr::EmrRegistry::new();
    let key = nik(6);
    let records = small_records(&mut arena, "stored");
    let emr = Emr::V001(V001::new(Id::from_parts(11, 11), records, Timestamp::from_nanos(99)));
    let emr_id = *emr.id();
    let used_before = arena.used_cells();
    registry.register_emr(emr, key, &mut arena).unwrap();
    assert_eq!(arena.used_cells(), used_before + 2);

    let stored = registry.get_emr(&emr_id).expect("record must be stored");
    assert_eq!(*stored.id(), emr_id);
    let EmrDisplay::V001(d) = EmrDisplay::from_stable_ref(stored);
    assert_eq!(d.created_at().as_nanos(), 99);
    assert_eq!(d.records().entries().len(), 1);
    assert!(registry.get_emr(&Id::from_parts(12, 12)).is_none());
}
