use nova_heap::array_data::{ArrayHeapData, SealableElementsVector};
use nova_heap::elements::{ElementArrayKey, ElementsVector};
use nova_heap::heap::Heap;
use nova_heap::js_map::MapHeapData;
use nova_heap::module_data::{ModuleHeapData, ModuleRecord};
use nova_heap::object_data::ObjectHeapData;
use nova_heap::realm_data::RealmHeapData;
use nova_heap::string_data::StringHeapData;
use nova_heap::value::{JsString, Value};
use nova_heap::weak_map::WeakMapHeapData;

fn object_of(heap: &mut Heap, properties: Vec<Value>) -> nova_heap::indexes::ObjectIndex {
    heap.create_object(ObjectHeapData { prototype: None, properties })
}

#[test]
fn chain_survives_rooted_then_reclaimed_unrooted() {
    // Allocate A -> B -> C, root A only: all three survive a collection and
    // A's stored reference resolves through B to C. Unroot A: the next
    // collection reclaims all three.
    let mut heap = Heap::new();
    let c = object_of(&mut heap, vec![Value::Integer(3)]);
    let b = object_of(&mut heap, vec![Value::Object(c)]);
    let a = object_of(&mut heap, vec![Value::Object(b)]);
    let h = heap.root(Value::Object(a));
    heap.collect();
    assert_eq!(heap.objects.len(), 3);
    let a2 = match heap.root_value(h) {
        Value::Object(i) => i,
        other => panic!("root did not resolve to an object: {:?}", other),
    };
    let b2 = match heap.get_object(a2).properties[0] {
        Value::Object(i) => i,
        other => panic!("a no longer points at b: {:?}", other),
    };
    let c2 = match heap.get_object(b2).properties[0] {
        Value::Object(i) => i,
        other => panic!("b no longer points at c: {:?}", other),
    };
    assert_eq!(heap.get_object(c2).properties[0], Value::Integer(3));
    heap.unroot(h);
    heap.collect();
    assert_eq!(heap.objects.len(), 0);
}

#[test]
fn unreachable_cycle_is_fully_collected() {
    // A three-node cycle rooted transiently survives one collection intact;
    // the first collection after unrooting reclaims all three.
    let mut heap = Heap::new();
    let x = object_of(&mut heap, vec![]);
    let y = object_of(&mut heap, vec![Value::Object(x)]);
    let z = object_of(&mut heap, vec![Value::Object(y)]);
    heap.set_object(x, ObjectHeapData { prototype: None, properties: vec![Value::Object(z)] });
    let h = heap.root(Value::Object(x));
    heap.collect();
    assert_eq!(heap.objects.len(), 3);
    let x2 = match heap.root_value(h) {
        Value::Object(i) => i,
        _ => panic!(),
    };
    // the cycle is intact: x -> z -> y -> x
    let z2 = match heap.get_object(x2).properties[0] {
        Value::Object(i) => i,
        _ => panic!(),
    };
    let y2 = match heap.get_object(z2).properties[0] {
        Value::Object(i) => i,
        _ => panic!(),
    };
    assert_eq!(heap.get_object(y2).properties[0], Value::Object(x2));
    heap.unroot(h);
    heap.collect();
    assert_eq!(heap.objects.len(), 0);
}

#[test]
fn compaction_packs_survivors_in_order() {
    // Five strings, roots on the second and fourth: exactly two slots
    // remain, densely packed from zero, in their original order.
    let mut heap = Heap::new();
    let mut handles = Vec::new();
    for i in 0..5u8 {
        let s = heap.create_string(StringHeapData { text: vec![b'a' + i] });
        handles.push(s);
    }
    let h1 = heap.root(Value::Str(JsString::Heap(handles[1])));
    let h3 = heap.root(Value::Str(JsString::Heap(handles[3])));
    heap.collect();
    assert_eq!(heap.strings.len(), 2);
    let s1 = match heap.root_value(h1) {
        Value::Str(JsString::Heap(s)) => s,
        _ => panic!(),
    };
    let s3 = match heap.root_value(h3) {
        Value::Str(JsString::Heap(s)) => s,
        _ => panic!(),
    };
    assert_eq!(s1.0, 0);
    assert_eq!(s3.0, 1);
    assert_eq!(heap.get_string(s1).text, vec![b'b']);
    assert_eq!(heap.get_string(s3).text, vec![b'd']);
}

#[test]
fn cross_references_resolve_after_shifting() {
    // An object that outlives a collection keeps pointing at the same
    // logical entities even though their indices shifted.
    let mut heap = Heap::new();
    let _garbage1 = object_of(&mut heap, vec![]);
    let target = object_of(&mut heap, vec![Value::Integer(42)]);
    let _garbage2 = object_of(&mut heap, vec![]);
    let holder = object_of(&mut heap, vec![Value::Object(target)]);
    let h = heap.root(Value::Object(holder));
    heap.collect();
    assert_eq!(heap.objects.len(), 2);
    let holder2 = match heap.root_value(h) {
        Value::Object(i) => i,
        _ => panic!(),
    };
    let target2 = match heap.get_object(holder2).properties[0] {
        Value::Object(i) => i,
        _ => panic!(),
    };
    assert_eq!(heap.get_object(target2).properties[0], Value::Integer(42));
}

#[test]
fn weak_entry_with_unreachable_key_is_absent() {
    // The key is reachable only through the weak map itself: the entry is
    // gone after the next collection, while the weak map survives.
    let mut heap = Heap::new();
    let key = object_of(&mut heap, vec![]);
    let wm = heap.create_weak_map(WeakMapHeapData {
        object_index: None,
        keys: vec![Value::Object(key)],
        values: vec![Value::Integer(7)],
    });
    let h = heap.root(Value::WeakMap(wm.0));
    heap.collect();
    assert_eq!(heap.weak_maps.len(), 1);
    assert_eq!(heap.objects.len(), 0);
    let wm2 = match heap.root_value(h) {
        Value::WeakMap(i) => nova_heap::weak_map::WeakMap(i),
        _ => panic!(),
    };
    assert_eq!(heap.get_weak_map(wm2).keys.len(), 0);
    assert_eq!(heap.get_weak_map(wm2).values.len(), 0);
}

#[test]
fn weak_entry_with_rooted_key_survives_with_value() {
    // The key is also reachable via a root: the entry survives, and its
    // value — reachable only through the weak map — is kept alive too.
    let mut heap = Heap::new();
    let key = object_of(&mut heap, vec![]);
    let value_obj = object_of(&mut heap, vec![Value::Integer(9)]);
    let wm = heap.create_weak_map(WeakMapHeapData {
        object_index: None,
        keys: vec![Value::Object(key)],
        values: vec![Value::Object(value_obj)],
    });
    let hk = heap.root(Value::Object(key));
    let hw = heap.root(Value::WeakMap(wm.0));
    heap.collect();
    assert_eq!(heap.objects.len(), 2);
    let wm2 = match heap.root_value(hw) {
        Value::WeakMap(i) => nova_heap::weak_map::WeakMap(i),
        _ => panic!(),
    };
    let key2 = match heap.root_value(hk) {
        Value::Object(i) => i,
        _ => panic!(),
    };
    assert_eq!(heap.get_weak_map(wm2).keys, vec![Value::Object(key2)]);
    let v2 = match heap.get_weak_map(wm2).values[0] {
        Value::Object(i) => i,
        _ => panic!(),
    };
    assert_eq!(heap.get_object(v2).properties[0], Value::Integer(9));
    // after the key's root is dropped the entry goes too
    heap.unroot(hk);
    heap.collect();
    let wm3 = match heap.root_value(hw) {
        Value::WeakMap(i) => nova_heap::weak_map::WeakMap(i),
        _ => panic!(),
    };
    assert_eq!(heap.get_weak_map(wm3).keys.len(), 0);
    assert_eq!(heap.objects.len(), 0);
}

#[test]
fn map_keeps_keys_and_values_strongly() {
    let mut heap = Heap::new();
    let k = object_of(&mut heap, vec![]);
    let v = object_of(&mut heap, vec![]);
    let m = heap.create_map(MapHeapData {
        object_index: None,
        keys: vec![Value::Object(k)],
        values: vec![Value::Object(v)],
    });
    let h = heap.root(Value::JsMap(m.0));
    heap.collect();
    assert_eq!(heap.maps.len(), 1);
    assert_eq!(heap.objects.len(), 2);
    heap.unroot(h);
    heap.collect();
    assert_eq!(heap.maps.len(), 0);
    assert_eq!(heap.objects.len(), 0);
}

#[test]
fn array_buffer_moves_with_the_array() {
    // Growing a vector abandons its old buffer; a collection reclaims the
    // abandoned buffer and relocates the live one, and the array still
    // reads its contents.
    let mut heap = Heap::new();
    let mut ev = ElementsVector::new_empty();
    for i in 0..17 {
        ev.push(&mut heap.elements, Some(Value::Integer(i)), None).unwrap();
    }
    assert_eq!(ev.cap, ElementArrayKey::E6);
    assert_eq!(heap.elements.storage.len(), 2);
    let arr = heap.create_array(ArrayHeapData {
        object_index: None,
        elements: SealableElementsVector::from_elements_vector(ev),
    });
    let h = heap.root(Value::Array(arr));
    heap.collect();
    assert_eq!(heap.elements.storage.len(), 1);
    assert_eq!(heap.arrays.len(), 1);
    let arr2 = match heap.root_value(h) {
        Value::Array(i) => i,
        _ => panic!(),
    };
    let sv = heap.get_array(arr2).elements;
    assert_eq!(sv.len(), 17);
    let (v, _) = heap.elements.read_slot(sv.elements_index, 16);
    assert_eq!(v, Some(Value::Integer(16)));
    assert!(sv.is_dense(&heap.elements));
}

#[test]
fn module_keeps_realm_namespace_and_exports() {
    let mut heap = Heap::new();
    let global = object_of(&mut heap, vec![]);
    let realm = heap.create_realm(RealmHeapData { global_object: Some(global) });
    let name = heap.create_string(StringHeapData { text: b"default".to_vec() });
    let module = heap.create_module(ModuleHeapData {
        object_index: None,
        module: ModuleRecord { realm, namespace: None },
        exports: vec![JsString::Heap(name)],
    });
    let h = heap.root(Value::Module(module));
    heap.collect();
    assert_eq!(heap.modules.len(), 1);
    assert_eq!(heap.realms.len(), 1);
    assert_eq!(heap.strings.len(), 1);
    assert_eq!(heap.objects.len(), 1);
    let m2 = match heap.root_value(h) {
        Value::Module(i) => i,
        _ => panic!(),
    };
    let md = heap.get_module(m2);
    let export = match md.exports[0] {
        JsString::Heap(s) => s,
        _ => panic!(),
    };
    assert_eq!(heap.get_string(export).text, b"default".to_vec());
    heap.unroot(h);
    heap.collect();
    assert_eq!(heap.modules.len(), 0);
    assert_eq!(heap.realms.len(), 0);
    assert_eq!(heap.strings.len(), 0);
    assert_eq!(heap.objects.len(), 0);
}

#[test]
fn accessor_descriptor_keeps_its_getter_alive() {
    let mut heap = Heap::new();
    let getter_fn = object_of(&mut heap, vec![Value::Integer(1)]);
    let mut ev = ElementsVector::new_empty();
    ev.push(
        &mut heap.elements,
        None,
        Some(nova_heap::elements::ElementDescriptor::Accessor {
            getter: Some(Value::Object(getter_fn)),
            setter: None,
            enumerable: true,
            configurable: true,
        }),
    )
    .unwrap();
    let arr = heap.create_array(ArrayHeapData {
        object_index: None,
        elements: SealableElementsVector::from_elements_vector(ev),
    });
    let h = heap.root(Value::Array(arr));
    heap.collect();
    // the getter is reachable only through the element descriptor
    assert_eq!(heap.objects.len(), 1);
    heap.unroot(h);
    heap.collect();
    assert_eq!(heap.objects.len(), 0);
    assert_eq!(heap.arrays.len(), 0);
    assert_eq!(heap.elements.storage.len(), 0);
}

#[test]
fn collection_with_no_roots_empties_the_heap() {
    let mut heap = Heap::new();
    for _ in 0..4 {
        object_of(&mut heap, vec![]);
    }
    heap.create_string(StringHeapData { text: b"gone".to_vec() });
    heap.collect();
    assert_eq!(heap.objects.len(), 0);
    assert_eq!(heap.strings.len(), 0);
}

#[test]
fn empty_heap_collection_is_a_no_op() {
    let mut heap = Heap::new();
    heap.collect();
    assert_eq!(heap.objects.len(), 0);
    assert_eq!(heap.roots.len(), 0);
}

#[test]
fn second_collection_keeps_everything_live() {
    let mut heap = Heap::new();
    let a = object_of(&mut heap, vec![]);
    let h = heap.root(Value::Object(a));
    heap.collect();
    heap.collect();
    assert_eq!(heap.objects.len(), 1);
    let a2 = match heap.root_value(h) {
        Value::Object(i) => i,
        _ => panic!(),
    };
    assert_eq!(heap.get_object(a2).properties.len(), 0);
}

#[test]
fn prototype_link_is_a_strong_edge() {
    let mut heap = Heap::new();
    let proto = object_of(&mut heap, vec![Value::Integer(11)]);
    let child = heap.create_object(ObjectHeapData { prototype: Some(proto), properties: vec![] });
    let h = heap.root(Value::Object(child));
    heap.collect();
    assert_eq!(heap.objects.len(), 2);
    let child2 = match heap.root_value(h) {
        Value::Object(i) => i,
        _ => panic!(),
    };
    let proto2 = heap.get_object(child2).prototype.unwrap();
    assert_eq!(heap.get_object(proto2).properties[0], Value::Integer(11));
}

#[test]
fn realm_keeps_its_global_object() {
    let mut heap = Heap::new();
    let global = object_of(&mut heap, vec![]);
    let realm = heap.create_realm(RealmHeapData { global_object: Some(global) });
    let module = heap.create_module(ModuleHeapData {
        object_index: None,
        module: ModuleRecord { realm, namespace: None },
        exports: vec![],
    });
    let h = heap.root(Value::Module(module));
    heap.collect();
    assert_eq!(heap.realms.len(), 1);
    assert_eq!(heap.objects.len(), 1);
    heap.unroot(h);
    heap.collect();
    assert_eq!(heap.realms.len(), 0);
    assert_eq!(heap.objects.len(), 0);
}

#[test]
fn releasing_one_of_two_roots_keeps_the_other() {
    let mut heap = Heap::new();
    let a = object_of(&mut heap, vec![]);
    let b = object_of(&mut heap, vec![]);
    let ha = heap.root(Value::Object(a));
    let hb = heap.root(Value::Object(b));
    heap.unroot(ha);
    heap.collect();
    assert_eq!(heap.objects.len(), 1);
    let b2 = match heap.root_value(hb) {
        Value::Object(i) => i,
        _ => panic!(),
    };
    assert_eq!(b2.0, 0);
}

#[test]
fn backing_object_of_a_map_is_traced() {
    let mut heap = Heap::new();
    let backing = object_of(&mut heap, vec![Value::Integer(5)]);
    let m = heap.create_map(MapHeapData {
        object_index: Some(backing),
        keys: vec![],
        values: vec![],
    });
    let h = heap.root(Value::JsMap(m.0));
    heap.collect();
    assert_eq!(heap.objects.len(), 1);
    let m2 = match heap.root_value(h) {
        Value::JsMap(i) => nova_heap::js_map::JsMap(i),
        _ => panic!(),
    };
    let backing2 = m2.get_backing_object(&heap).unwrap();
    assert_eq!(heap.get_object(backing2).properties[0], Value::Integer(5));
}
