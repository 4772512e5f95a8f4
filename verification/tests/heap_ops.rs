use nova_heap::heap::Heap;
use nova_heap::indexes::{HeapRef, ObjectIndex};
use nova_heap::js_map::{JsMap, MapHeapData};
use nova_heap::object_data::ObjectHeapData;
use nova_heap::realm_data::RealmHeapData;
use nova_heap::string_data::StringHeapData;
use nova_heap::value::{JsString, Object, SmallInline, Value};
use nova_heap::weak_map::{WeakMap, WeakMapHeapData};

#[test]
fn create_and_get() {
    let mut heap = Heap::new();
    let s = heap.create_string(StringHeapData { text: b"hello".to_vec() });
    let o = heap.create_object(ObjectHeapData {
        prototype: None,
        properties: vec![Value::Str(JsString::Heap(s))],
    });
    assert_eq!(o.0, 0);
    assert_eq!(s.0, 0);
    assert_eq!(heap.get_object(o).properties.len(), 1);
    assert_eq!(heap.get_string(s).text, b"hello".to_vec());
}

#[test]
fn allocation_never_disturbs_existing_slots() {
    let mut heap = Heap::new();
    let a = heap.create_object(ObjectHeapData {
        prototype: None,
        properties: vec![Value::Integer(1)],
    });
    let before = heap.get_object(a).clone();
    for i in 0..50 {
        heap.create_object(ObjectHeapData {
            prototype: Some(a),
            properties: vec![Value::Integer(i)],
        });
        heap.create_string(StringHeapData { text: vec![b'x'] });
    }
    assert_eq!(*heap.get_object(a), before);
    assert_eq!(heap.objects.len(), 51);
    assert_eq!(heap.strings.len(), 50);
}

#[test]
fn set_replaces_one_slot_only() {
    let mut heap = Heap::new();
    let a = heap.create_object(ObjectHeapData { prototype: None, properties: vec![] });
    let b = heap.create_object(ObjectHeapData { prototype: None, properties: vec![] });
    heap.set_object(a, ObjectHeapData {
        prototype: Some(b),
        properties: vec![Value::Object(b)],
    });
    assert_eq!(heap.get_object(a).prototype, Some(b));
    assert_eq!(heap.get_object(b).prototype, None);
}

#[test]
fn root_and_resolve() {
    let mut heap = Heap::new();
    let o = heap.create_object(ObjectHeapData { prototype: None, properties: vec![] });
    let h = heap.root(Value::Object(o));
    assert_eq!(heap.root_value(h), Value::Object(o));
    heap.unroot(h);
    assert_eq!(heap.roots[h.0 as usize], None);
}

#[test]
fn map_handle_conversions() {
    let m = JsMap::_def();
    assert_eq!(m.get_index(), 0);
    assert_eq!(m.into_value(), Value::JsMap(m.0));
    let o = m.into_object();
    assert_eq!(o, Object::JsMap(m));
    assert_eq!(JsMap::try_from(o), Ok(m));
    assert_eq!(JsMap::try_from(Object::Ordinary(ObjectIndex(3))), Err(()));
    assert_eq!(o.into_value(), Value::JsMap(m.0));
}

#[test]
fn weak_map_handle_conversions() {
    let w = WeakMap::_def();
    assert_eq!(w.get_index(), 0);
    assert_eq!(w.into_value(), Value::WeakMap(w.0));
    assert_eq!(w.into_object(), Object::WeakMap(w));
}

#[test]
fn backing_objects() {
    let mut heap = Heap::new();
    let m = heap.create_map(MapHeapData { object_index: None, keys: vec![], values: vec![] });
    let w = heap.create_weak_map(WeakMapHeapData {
        object_index: None,
        keys: vec![],
        values: vec![],
    });
    assert_eq!(m.get_backing_object(&heap), None);
    assert_eq!(w.get_backing_object(&heap), None);
    let o1 = heap.create_object(ObjectHeapData { prototype: None, properties: vec![] });
    let o2 = heap.create_object(ObjectHeapData { prototype: None, properties: vec![] });
    m.set_backing_object(&mut heap, o1);
    w.set_backing_object(&mut heap, o2);
    assert_eq!(m.get_backing_object(&heap), Some(o1));
    assert_eq!(w.get_backing_object(&heap), Some(o2));
}

#[test]
fn small_strings_carry_no_heap_reference() {
    let inline = SmallInline::new([b'a', b'b', 0, 0, 0, 0, 0], 2);
    let v = Value::Str(JsString::Small(inline));
    assert_eq!(v.heap_ref(), None);
    let mut heap = Heap::new();
    let s = heap.create_string(StringHeapData { text: b"long enough".to_vec() });
    assert_eq!(Value::Str(JsString::Heap(s)).heap_ref(), Some(HeapRef::Str(s.0)));
    let r = heap.create_realm(RealmHeapData { global_object: None });
    assert_eq!(r.0, 0);
}
