use nova_heap::array_data::SealableElementsVector;
use nova_heap::elements::{
    ElementArrayKey, ElementArrays, ElementDescriptor, ElementsError, ElementsVector,
};
use nova_heap::value::Value;

#[test]
fn capacity_classes() {
    assert_eq!(ElementArrayKey::key_for(0), ElementArrayKey::Empty);
    assert_eq!(ElementArrayKey::key_for(1), ElementArrayKey::E4);
    assert_eq!(ElementArrayKey::key_for(16), ElementArrayKey::E4);
    assert_eq!(ElementArrayKey::key_for(17), ElementArrayKey::E6);
    assert_eq!(ElementArrayKey::key_for(64), ElementArrayKey::E6);
    assert_eq!(ElementArrayKey::key_for(65), ElementArrayKey::E8);
    assert_eq!(ElementArrayKey::key_for(1025), ElementArrayKey::E12);
    assert_eq!(ElementArrayKey::key_for(70000), ElementArrayKey::E24);
    assert_eq!(ElementArrayKey::Empty.cap(), 0);
    assert_eq!(ElementArrayKey::E4.cap(), 16);
    assert_eq!(ElementArrayKey::E6.cap(), 64);
    assert_eq!(ElementArrayKey::E32.cap(), u32::MAX);
}

#[test]
fn reserve_then_push_never_reallocates() {
    let mut ea = ElementArrays::new();
    let mut ev = ElementsVector::new_empty();
    ev.reserve(&mut ea, 10);
    assert_eq!(ev.cap, ElementArrayKey::E4);
    let buffer = ev.elements_index;
    for i in 0..10 {
        ev.push(&mut ea, Some(Value::Integer(i)), None).unwrap();
        assert_eq!(ev.elements_index, buffer);
        assert_eq!(ev.cap, ElementArrayKey::E4);
    }
    assert_eq!(ev.len, 10);
    assert_eq!(ea.storage.len(), 1);
}

#[test]
fn push_past_capacity_grows_to_next_class() {
    let mut ea = ElementArrays::new();
    let mut ev = ElementsVector::new_empty();
    for i in 0..16 {
        ev.push(&mut ea, Some(Value::Integer(i)), None).unwrap();
    }
    assert_eq!(ev.cap, ElementArrayKey::E4);
    let old_buffer = ev.elements_index;
    ev.push(&mut ea, Some(Value::Integer(16)), None).unwrap();
    assert_eq!(ev.cap, ElementArrayKey::E6);
    assert_ne!(ev.elements_index, old_buffer);
    assert_eq!(ev.len, 17);
    // contents were copied across the growth
    let (v0, d0) = ea.read_slot(ev.elements_index, 0);
    assert_eq!(v0, Some(Value::Integer(0)));
    assert_eq!(d0, None);
    let (v16, _) = ea.read_slot(ev.elements_index, 16);
    assert_eq!(v16, Some(Value::Integer(16)));
}

#[test]
fn reserve_is_idempotent_when_sufficient() {
    let mut ea = ElementArrays::new();
    let mut ev = ElementsVector::new_empty();
    ev.reserve(&mut ea, 5);
    let buffer = ev.elements_index;
    ev.reserve(&mut ea, 12);
    assert_eq!(ev.elements_index, buffer);
    assert_eq!(ev.cap, ElementArrayKey::E4);
    assert_eq!(ea.storage.len(), 1);
}

#[test]
fn sealed_push_fails_without_mutation() {
    let mut ea = ElementArrays::new();
    let mut ev = ElementsVector::new_empty();
    ev.push(&mut ea, Some(Value::Integer(1)), None).unwrap();
    let mut sv = SealableElementsVector::from_elements_vector(ev);
    assert!(sv.writable());
    sv.seal();
    assert!(!sv.writable());
    let before = sv;
    let r = sv.push(&mut ea, Some(Value::Integer(2)), None);
    assert_eq!(r, Err(ElementsError::Sealed));
    assert_eq!(sv, before);
    assert_eq!(sv.len(), 1);
    let (v, _) = ea.read_slot(sv.elements_index, 0);
    assert_eq!(v, Some(Value::Integer(1)));
}

#[test]
fn sealed_vector_may_still_reserve() {
    let mut ea = ElementArrays::new();
    let mut sv = SealableElementsVector::default();
    sv.seal();
    sv.reserve(&mut ea, 3);
    assert_eq!(sv.cap(), 16);
    assert_eq!(sv.len(), 0);
}

#[test]
fn classification_queries() {
    let mut ea = ElementArrays::new();
    let mut ev = ElementsVector::new_empty();
    ev.push(&mut ea, Some(Value::Integer(1)), None).unwrap();
    assert!(ev.is_dense(&ea));
    assert!(ev.is_simple(&ea));
    assert!(ev.is_trivial(&ea));
    // a hole makes it sparse but still trivial
    ev.push(&mut ea, None, None).unwrap();
    assert!(!ev.is_dense(&ea));
    assert!(ev.is_trivial(&ea));
    // a data descriptor is not accessor-bearing
    ev.push(
        &mut ea,
        Some(Value::Integer(2)),
        Some(ElementDescriptor::Data { writable: false, enumerable: true, configurable: false }),
    )
    .unwrap();
    assert!(!ev.is_trivial(&ea));
    assert!(ev.is_simple(&ea));
    // an accessor descriptor flips is_simple
    ev.push(
        &mut ea,
        None,
        Some(ElementDescriptor::Accessor {
            getter: None,
            setter: None,
            enumerable: true,
            configurable: true,
        }),
    )
    .unwrap();
    assert!(!ev.is_simple(&ea));
    assert!(!ev.is_dense(&ea));
}

#[test]
fn sealable_getters() {
    let sv = SealableElementsVector::default();
    assert_eq!(sv.cap(), 0);
    assert_eq!(sv.len(), 0);
    assert!(sv.is_empty());
    assert!(sv.is_full());
    assert!(sv.writable());
    let mut ea = ElementArrays::new();
    let mut sv2 = SealableElementsVector::default();
    sv2.reserve(&mut ea, 1);
    assert!(!sv2.is_full());
    sv2.push(&mut ea, Some(Value::Boolean(true)), None).unwrap();
    assert_eq!(sv2.len(), 1);
    assert!(!sv2.is_empty());
}

#[test]
fn is_sealed_tracks_sealing() {
    let mut sv = SealableElementsVector::default();
    assert!(!sv.is_sealed());
    sv.seal();
    assert!(sv.is_sealed());
    assert!(!sv.writable());
}
