//! The sweep/compaction engine and the collection entry point.
//!
//! After marking, each arena is scanned once to build its compaction plan
//! (`CompactionList::build`), compacted in place — surviving slots shift
//! down over the removed ones, keeping their order — and then every
//! surviving entity and every root has its stored typed indices rewritten
//! through the plan of the referenced type.

use vstd::prelude::*;
use crate::counts::{count_true, live_below};
use crate::gc::{shift_value, CompactionList, CompactionLists, HeapMarkAndSweep, RelocMap};
use crate::heap::Heap;
use crate::indexes::HeapRef;
use crate::reachability::live;
use crate::array_data::ArrayHeapData;
use crate::elements::{ElementArrayKey, ElementBuf, ElementDescriptor};
use crate::gc::keep_entry;
use crate::js_map::MapHeapData;
use crate::module_data::ModuleHeapData;
use crate::object_data::ObjectHeapData;
use crate::realm_data::RealmHeapData;
use crate::string_data::StringHeapData;
use crate::weak_map::{surviving_keys, surviving_values, WeakMapHeapData};
use crate::value::{value_ref, JsString, Value};

verus! {

/// Remove every slot the plan marks dead, shifting the survivors down:
/// slot `i` moves to position `i` minus the number of removed slots before
/// it. The arena afterwards holds exactly the surviving slots, in order.
fn compact_arena<T>(arena: &mut Vec<Option<T>>, list: &CompactionList)
    requires
        old(arena)@.len() == list.live@.len(),
        list.wf(),
    ensures
        final(arena)@.len() == count_true(list.live@),
        forall|i: int|
            0 <= i < list.live@.len() && list.live@[i] ==> final(arena)@[live_below(
                list.live@,
                i,
            )] == old(arena)@[i],
{
    let ghost pre = arena@;
    let n = arena.len();
    let mut kept: Vec<Option<T>> = Vec::new();
    let mut i: usize = 0;
    while i < n
        invariant
            i <= n,
            n == pre.len(),
            pre.len() == list.live@.len(),
            list.wf(),
            arena@ =~= pre.subrange(i as int, n as int),
            kept@.len() == live_below(list.live@, i as int),
            0 <= live_below(list.live@, i as int) <= i,
            forall|k: int|
                0 <= k < i && list.live@[k] ==> kept@[#[trigger] live_below(list.live@, k)]
                    == pre[k],
        decreases n - i,
    {
        proof {
            crate::counts::lemma_live_below_step(list.live@, i as int);
            crate::counts::lemma_live_below_bounds(list.live@, i as int + 1);
        }
        let ghost kept_pre = kept@;
        let slot = arena.remove(0);
        proof {
            assert(slot == pre[i as int]);
        }
        if list.live[i] {
            kept.push(slot);
        }
        proof {
            assert(arena@ =~= pre.subrange(i as int + 1, n as int));
            assert forall|k: int|
                0 <= k < i + 1 && list.live@[k] implies kept@[#[trigger] live_below(
                list.live@,
                k,
            )] == pre[k] by {
                crate::counts::lemma_live_below_bounds(list.live@, k);
                if k < i {
                    crate::counts::lemma_live_below_strict_mono(list.live@, k, i as int);
                    assert(kept@[live_below(list.live@, k)] == kept_pre[live_below(
                        list.live@,
                        k,
                    )]);
                } else {
                    assert(kept@[live_below(list.live@, k)] == pre[k]);
                }
            }
        }
        i = i + 1;
    }
    proof {
        crate::counts::lemma_live_below_all(list.live@);
    }
    *arena = kept;
}

/// The per-kind liveness masks determined by the specification-level live
/// set: what a correct collection keeps, slot by slot.
pub open spec fn live_mask(h: &Heap) -> RelocMap {
    RelocMap {
        objects: Seq::new(h.objects@.len(), |i: int| live(h, HeapRef::Object(i as u32))),
        arrays: Seq::new(h.arrays@.len(), |i: int| live(h, HeapRef::Array(i as u32))),
        maps: Seq::new(h.maps@.len(), |i: int| live(h, HeapRef::JsMap(i as u32))),
        weak_maps: Seq::new(
            h.weak_maps@.len(),
            |i: int| live(h, HeapRef::WeakMap(i as u32)),
        ),
        modules: Seq::new(h.modules@.len(), |i: int| live(h, HeapRef::Module(i as u32))),
        strings: Seq::new(h.strings@.len(), |i: int| live(h, HeapRef::Str(i as u32))),
        elements: Seq::new(
            h.elements.storage@.len(),
            |i: int| live(h, HeapRef::Elems(i as u32)),
        ),
        realms: Seq::new(h.realms@.len(), |i: int| live(h, HeapRef::Realm(i as u32))),
    }
}

/// A live reference is live in the mask.
proof fn lemma_live_mask_live(h: &Heap, e: HeapRef)
    requires
        h.wf(),
        live(h, e),
    ensures
        live_mask(h).is_live(e),
{
    crate::reachability::lemma_live_in_bounds(h, e);
    let m = live_mask(h);
    match e {
        HeapRef::Object(i) => assert(m.objects[i as int] == live(h, e)),
        HeapRef::Array(i) => assert(m.arrays[i as int] == live(h, e)),
        HeapRef::JsMap(i) => assert(m.maps[i as int] == live(h, e)),
        HeapRef::WeakMap(i) => assert(m.weak_maps[i as int] == live(h, e)),
        HeapRef::Module(i) => assert(m.modules[i as int] == live(h, e)),
        HeapRef::Str(i) => assert(m.strings[i as int] == live(h, e)),
        HeapRef::Elems(i) => assert(m.elements[i as int] == live(h, e)),
        HeapRef::Realm(i) => assert(m.realms[i as int] == live(h, e)),
    }
}

/// Whether a (shifted) reference lands below the surviving count of its
/// kind: in bounds of the compacted arena.
pub open spec fn shifted_in_bounds(m: RelocMap, e: HeapRef) -> bool {
    match e {
        HeapRef::Object(i) => i < count_true(m.objects),
        HeapRef::Array(i) => i < count_true(m.arrays),
        HeapRef::JsMap(i) => i < count_true(m.maps),
        HeapRef::WeakMap(i) => i < count_true(m.weak_maps),
        HeapRef::Module(i) => i < count_true(m.modules),
        HeapRef::Str(i) => i < count_true(m.strings),
        HeapRef::Elems(i) => i < count_true(m.elements),
        HeapRef::Realm(i) => i < count_true(m.realms),
    }
}

/// The rank of a live slot is a valid index of the compacted arena.
proof fn lemma_rank_bound(s: Seq<bool>, i: u32)
    requires
        i < s.len(),
        s[i as int],
    ensures
        crate::gc::rank(s, i) as int == live_below(s, i as int),
        live_below(s, i as int) < count_true(s),
{
    crate::counts::lemma_live_below_bounds(s, i as int);
    crate::counts::lemma_live_below_strict_mono(s, i as int, s.len() as int);
    crate::counts::lemma_live_below_all(s);
}

/// Shifting a live reference lands in bounds of the compacted arenas.
proof fn lemma_live_rank(m: RelocMap, e: HeapRef)
    requires
        m.is_live(e),
    ensures
        shifted_in_bounds(m, m.shifted(e)),
{
    match e {
        HeapRef::Object(i) => lemma_rank_bound(m.objects, i),
        HeapRef::Array(i) => lemma_rank_bound(m.arrays, i),
        HeapRef::JsMap(i) => lemma_rank_bound(m.maps, i),
        HeapRef::WeakMap(i) => lemma_rank_bound(m.weak_maps, i),
        HeapRef::Module(i) => lemma_rank_bound(m.modules, i),
        HeapRef::Str(i) => lemma_rank_bound(m.strings, i),
        HeapRef::Elems(i) => lemma_rank_bound(m.elements, i),
        HeapRef::Realm(i) => lemma_rank_bound(m.realms, i),
    }
}

/// A value whose referent is live relocates cleanly, and the relocated
/// value's referent is in bounds of the compacted arenas.
proof fn lemma_value_facts(m: RelocMap, v: Value)
    requires
        match value_ref(v) {
            Some(e) => m.is_live(e),
            None => true,
        },
    ensures
        v.reloc_ok(m),
        match value_ref(shift_value(m, v)) {
            Some(e2) => shifted_in_bounds(m, e2) && e2 == m.shifted(value_ref(v)->Some_0),
            None => value_ref(v) is None,
        },
{
    match value_ref(v) {
        Some(e) => {
            lemma_live_rank(m, e);
        },
        None => (),
    }
}

/// A string handle whose referent is live relocates cleanly and lands in
/// bounds.
proof fn lemma_string_facts(m: RelocMap, v: JsString)
    requires
        match v.spec_heap_ref() {
            Some(e) => m.is_live(e),
            None => true,
        },
    ensures
        v.reloc_ok(m),
        forall|nv: JsString, e2: HeapRef|
            v.is_relocated(&nv, m) && #[trigger] nv.edge_has(e2) ==> shifted_in_bounds(m, e2),
{
    match v.spec_heap_ref() {
        Some(e) => {
            lemma_live_rank(m, e);
        },
        None => (),
    }
}

/// Helper pair for a vector of values whose edges are all live: it
/// relocates cleanly, and each relocated element's referent is in bounds.
proof fn lemma_vec_value_facts(vs: &Vec<Value>, nvs: &Vec<Value>, m: RelocMap)
    requires
        forall|e: HeapRef| #[trigger] vs.edge_has(e) ==> m.is_live(e),
        vs.is_relocated(nvs, m),
    ensures
        forall|e2: HeapRef| #[trigger] nvs.edge_has(e2) ==> shifted_in_bounds(m, e2),
{
    assert forall|e2: HeapRef| #[trigger] nvs.edge_has(e2) implies shifted_in_bounds(m, e2) by {
        let i = choose|i: int| 0 <= i < nvs@.len() && #[trigger] nvs@[i].edge_has(e2);
        assert(vs@[i].is_relocated(&nvs@[i], m));
        assert(nvs@[i] == shift_value(m, vs@[i]));
        match value_ref(vs@[i]) {
            Some(e) => {
                assert(vs@[i].edge_has(e));
                assert(vs.edge_has(e));
                lemma_value_facts(m, vs@[i]);
            },
            None => {
                assert(shift_value(m, vs@[i]) == vs@[i]);
            },
        }
    }
}

/// A vector of values whose edges are all live relocates cleanly.
proof fn lemma_vec_value_reloc_ok(vs: &Vec<Value>, m: RelocMap)
    requires
        forall|e: HeapRef| #[trigger] vs.edge_has(e) ==> m.is_live(e),
    ensures
        vs.reloc_ok(m),
{
    assert forall|i: int| 0 <= i < vs@.len() implies #[trigger] vs@[i].reloc_ok(m) by {
        match value_ref(vs@[i]) {
            Some(e) => {
                assert(vs@[i].edge_has(e));
                assert(vs.edge_has(e));
                lemma_value_facts(m, vs@[i]);
            },
            None => (),
        }
    }
}

/// An optional value whose referent is live relocates cleanly.
proof fn lemma_opt_value_facts(m: RelocMap, v: Option<Value>)
    requires
        match v {
            Some(inner) => match value_ref(inner) {
                Some(e) => m.is_live(e),
                None => true,
            },
            None => true,
        },
    ensures
        v.reloc_ok(m),
        forall|nv: Option<Value>, e2: HeapRef|
            v.is_relocated(&nv, m) && #[trigger] nv.edge_has(e2) ==> shifted_in_bounds(m, e2),
{
    match v {
        Some(inner) => {
            lemma_value_facts(m, inner);
            assert forall|nv: Option<Value>, e2: HeapRef|
                v.is_relocated(&nv, m) && #[trigger] nv.edge_has(e2) implies shifted_in_bounds(
                m,
                e2,
            ) by {
                match nv {
                    Some(ninner) => {
                        assert(ninner == shift_value(m, inner));
                    },
                    None => (),
                }
            }
        },
        None => (),
    }
}

/// An element descriptor whose accessor edges are all live relocates
/// cleanly, and its relocated edges land in bounds.
proof fn lemma_descriptor_facts(d: ElementDescriptor, nd: ElementDescriptor, m: RelocMap)
    requires
        forall|e: HeapRef| #[trigger] d.edge_has(e) ==> m.is_live(e),
        d.is_relocated(&nd, m),
    ensures
        forall|e2: HeapRef| #[trigger] nd.edge_has(e2) ==> shifted_in_bounds(m, e2),
{
    assert forall|e2: HeapRef| #[trigger] nd.edge_has(e2) implies shifted_in_bounds(m, e2) by {
        match (d, nd) {
            (
                ElementDescriptor::Accessor { getter, setter, .. },
                ElementDescriptor::Accessor { getter: ngetter, setter: nsetter, .. },
            ) => {
                assert forall|e: HeapRef| #[trigger] getter.edge_has(e) implies m.is_live(
                    e,
                ) by {
                    assert(d.edge_has(e));
                }
                assert forall|e: HeapRef| #[trigger] setter.edge_has(e) implies m.is_live(
                    e,
                ) by {
                    assert(d.edge_has(e));
                }
                match getter {
                    Some(g) => {
                        match value_ref(g) {
                            Some(e) => {
                                assert(g.edge_has(e));
                                assert(getter.edge_has(e));
                            },
                            None => (),
                        }
                    },
                    None => (),
                }
                match setter {
                    Some(sv) => {
                        match value_ref(sv) {
                            Some(e) => {
                                assert(sv.edge_has(e));
                                assert(setter.edge_has(e));
                            },
                            None => (),
                        }
                    },
                    None => (),
                }
                lemma_opt_value_facts(m, getter);
                lemma_opt_value_facts(m, setter);
                if ngetter.edge_has(e2) {
                    assert(getter.is_relocated(&ngetter, m));
                } else {
                    assert(nsetter.edge_has(e2));
                    assert(setter.is_relocated(&nsetter, m));
                }
            },
            _ => {
                assert(false);
            },
        }
    }
}

/// An element descriptor whose accessor edges are all live relocates
/// cleanly.
proof fn lemma_descriptor_reloc_ok(d: ElementDescriptor, m: RelocMap)
    requires
        forall|e: HeapRef| #[trigger] d.edge_has(e) ==> m.is_live(e),
    ensures
        d.reloc_ok(m),
{
    match d {
        ElementDescriptor::Accessor { getter, setter, .. } => {
            assert forall|e: HeapRef| #[trigger] getter.edge_has(e) implies m.is_live(e) by {
                assert(d.edge_has(e));
            }
            assert forall|e: HeapRef| #[trigger] setter.edge_has(e) implies m.is_live(e) by {
                assert(d.edge_has(e));
            }
            match getter {
                Some(g) => {
                    match value_ref(g) {
                        Some(e) => {
                            assert(g.edge_has(e));
                            assert(getter.edge_has(e));
                        },
                        None => (),
                    }
                },
                None => (),
            }
            match setter {
                Some(sv) => {
                    match value_ref(sv) {
                        Some(e) => {
                            assert(sv.edge_has(e));
                            assert(setter.edge_has(e));
                        },
                        None => (),
                    }
                },
                None => (),
            }
            lemma_opt_value_facts(m, getter);
            lemma_opt_value_facts(m, setter);
        },
        ElementDescriptor::Data { .. } => (),
    }
}

/// Helper pair for vectors of optional values.
proof fn lemma_vec_opt_value_reloc_ok(vs: &Vec<Option<Value>>, m: RelocMap)
    requires
        forall|e: HeapRef| #[trigger] vs.edge_has(e) ==> m.is_live(e),
    ensures
        vs.reloc_ok(m),
{
    assert forall|i: int| 0 <= i < vs@.len() implies #[trigger] vs@[i].reloc_ok(m) by {
        match vs@[i] {
            Some(inner) => {
                match value_ref(inner) {
                    Some(e) => {
                        assert(inner.edge_has(e));
                        assert(vs@[i].edge_has(e));
                        assert(vs.edge_has(e));
                    },
                    None => (),
                }
                lemma_opt_value_facts(m, vs@[i]);
            },
            None => (),
        }
    }
}

proof fn lemma_vec_opt_value_facts(vs: &Vec<Option<Value>>, nvs: &Vec<Option<Value>>, m: RelocMap)
    requires
        forall|e: HeapRef| #[trigger] vs.edge_has(e) ==> m.is_live(e),
        vs.is_relocated(nvs, m),
    ensures
        forall|e2: HeapRef| #[trigger] nvs.edge_has(e2) ==> shifted_in_bounds(m, e2),
{
    assert forall|e2: HeapRef| #[trigger] nvs.edge_has(e2) implies shifted_in_bounds(m, e2) by {
        let i = choose|i: int| 0 <= i < nvs@.len() && #[trigger] nvs@[i].edge_has(e2);
        assert(vs@[i].is_relocated(&nvs@[i], m));
        match vs@[i] {
            Some(inner) => {
                match value_ref(inner) {
                    Some(e) => {
                        assert(inner.edge_has(e));
                        assert(vs@[i].edge_has(e));
                        assert(vs.edge_has(e));
                    },
                    None => (),
                }
                lemma_opt_value_facts(m, vs@[i]);
            },
            None => (),
        }
    }
}

/// Helper pair for vectors of optional element descriptors.
proof fn lemma_vec_opt_desc_reloc_ok(vs: &Vec<Option<ElementDescriptor>>, m: RelocMap)
    requires
        forall|e: HeapRef| #[trigger] vs.edge_has(e) ==> m.is_live(e),
    ensures
        vs.reloc_ok(m),
{
    assert forall|i: int| 0 <= i < vs@.len() implies #[trigger] vs@[i].reloc_ok(m) by {
        match vs@[i] {
            Some(d) => {
                assert forall|e: HeapRef| #[trigger] d.edge_has(e) implies m.is_live(e) by {
                    assert(vs@[i].edge_has(e));
                    assert(vs.edge_has(e));
                }
                lemma_descriptor_reloc_ok(d, m);
            },
            None => (),
        }
    }
}

proof fn lemma_vec_opt_desc_facts(
    vs: &Vec<Option<ElementDescriptor>>,
    nvs: &Vec<Option<ElementDescriptor>>,
    m: RelocMap,
)
    requires
        forall|e: HeapRef| #[trigger] vs.edge_has(e) ==> m.is_live(e),
        vs.is_relocated(nvs, m),
    ensures
        forall|e2: HeapRef| #[trigger] nvs.edge_has(e2) ==> shifted_in_bounds(m, e2),
{
    assert forall|e2: HeapRef| #[trigger] nvs.edge_has(e2) implies shifted_in_bounds(m, e2) by {
        let i = choose|i: int| 0 <= i < nvs@.len() && #[trigger] nvs@[i].edge_has(e2);
        assert(vs@[i].is_relocated(&nvs@[i], m));
        match (vs@[i], nvs@[i]) {
            (Some(d), Some(nd)) => {
                assert forall|e: HeapRef| #[trigger] d.edge_has(e) implies m.is_live(e) by {
                    assert(vs@[i].edge_has(e));
                    assert(vs.edge_has(e));
                }
                assert(d.is_relocated(&nd, m));
                lemma_descriptor_facts(d, nd, m);
                assert(nd.edge_has(e2));
            },
            _ => {
                assert(false);
            },
        }
    }
}

/// Helper pair for vectors of string handles.
proof fn lemma_vec_string_reloc_ok(vs: &Vec<JsString>, m: RelocMap)
    requires
        forall|e: HeapRef| #[trigger] vs.edge_has(e) ==> m.is_live(e),
    ensures
        vs.reloc_ok(m),
{
    assert forall|i: int| 0 <= i < vs@.len() implies #[trigger] vs@[i].reloc_ok(m) by {
        match vs@[i].spec_heap_ref() {
            Some(e) => {
                assert(vs@[i].edge_has(e));
                assert(vs.edge_has(e));
                lemma_string_facts(m, vs@[i]);
            },
            None => (),
        }
    }
}

proof fn lemma_vec_string_facts(vs: &Vec<JsString>, nvs: &Vec<JsString>, m: RelocMap)
    requires
        forall|e: HeapRef| #[trigger] vs.edge_has(e) ==> m.is_live(e),
        vs.is_relocated(nvs, m),
    ensures
        forall|e2: HeapRef| #[trigger] nvs.edge_has(e2) ==> shifted_in_bounds(m, e2),
{
    assert forall|e2: HeapRef| #[trigger] nvs.edge_has(e2) implies shifted_in_bounds(m, e2) by {
        let i = choose|i: int| 0 <= i < nvs@.len() && #[trigger] nvs@[i].edge_has(e2);
        assert(vs@[i].is_relocated(&nvs@[i], m));
        match vs@[i].spec_heap_ref() {
            Some(e) => {
                assert(vs@[i].edge_has(e));
                assert(vs.edge_has(e));
                lemma_string_facts(m, vs@[i]);
            },
            None => (),
        }
    }
}

/// Entity-kind facts: each heap data type whose strong edges are all live
/// relocates cleanly, and its relocated edges land in the compacted bounds.
proof fn lemma_object_data_ready(d: &ObjectHeapData, m: RelocMap)
    requires
        forall|e: HeapRef| #[trigger] d.edge_has(e) ==> m.is_live(e),
    ensures
        d.reloc_ok(m),
{
    match d.prototype {
        Some(o) => {
            assert(d.edge_has(HeapRef::Object(o.0)));
        },
        None => (),
    }
    assert forall|e: HeapRef| #[trigger] d.properties.edge_has(e) implies m.is_live(e) by {
        assert(d.edge_has(e));
    }
    lemma_vec_value_reloc_ok(&d.properties, m);
}

proof fn lemma_object_data_swept(d: &ObjectHeapData, nd: &ObjectHeapData, m: RelocMap)
    requires
        forall|e: HeapRef| #[trigger] d.edge_has(e) ==> m.is_live(e),
        d.is_relocated(nd, m),
    ensures
        forall|e2: HeapRef| #[trigger] nd.edge_has(e2) ==> shifted_in_bounds(m, e2),
{
    assert forall|e: HeapRef| #[trigger] d.properties.edge_has(e) implies m.is_live(e) by {
        assert(d.edge_has(e));
    }
    lemma_vec_value_facts(&d.properties, &nd.properties, m);
    assert forall|e2: HeapRef| #[trigger] nd.edge_has(e2) implies shifted_in_bounds(m, e2) by {
        if nd.prototype.edge_has(e2) {
            match (d.prototype, nd.prototype) {
                (Some(o), Some(no)) => {
                    assert(d.edge_has(HeapRef::Object(o.0)));
                    lemma_live_rank(m, HeapRef::Object(o.0));
                },
                _ => {
                    assert(false);
                },
            }
        }
    }
}

proof fn lemma_array_data_ready(d: &ArrayHeapData, m: RelocMap)
    requires
        forall|e: HeapRef| #[trigger] d.edge_has(e) ==> m.is_live(e),
    ensures
        d.reloc_ok(m),
{
    match d.object_index {
        Some(o) => {
            assert(d.edge_has(HeapRef::Object(o.0)));
        },
        None => (),
    }
    if d.elements.cap != ElementArrayKey::Empty {
        assert(d.elements.edge_has(HeapRef::Elems(d.elements.elements_index.0)));
        assert(d.edge_has(HeapRef::Elems(d.elements.elements_index.0)));
    }
}

proof fn lemma_array_data_swept(d: &ArrayHeapData, nd: &ArrayHeapData, m: RelocMap)
    requires
        forall|e: HeapRef| #[trigger] d.edge_has(e) ==> m.is_live(e),
        d.is_relocated(nd, m),
    ensures
        forall|e2: HeapRef| #[trigger] nd.edge_has(e2) ==> shifted_in_bounds(m, e2),
{
    assert forall|e2: HeapRef| #[trigger] nd.edge_has(e2) implies shifted_in_bounds(m, e2) by {
        if nd.object_index.edge_has(e2) {
            match (d.object_index, nd.object_index) {
                (Some(o), Some(no)) => {
                    assert(d.edge_has(HeapRef::Object(o.0)));
                    lemma_live_rank(m, HeapRef::Object(o.0));
                },
                _ => {
                    assert(false);
                },
            }
        } else {
            assert(nd.elements.edge_has(e2));
            assert(d.elements.cap != ElementArrayKey::Empty);
            assert(d.edge_has(HeapRef::Elems(d.elements.elements_index.0)));
            lemma_live_rank(m, HeapRef::Elems(d.elements.elements_index.0));
        }
    }
}

proof fn lemma_map_data_ready(d: &MapHeapData, m: RelocMap)
    requires
        forall|e: HeapRef| #[trigger] d.edge_has(e) ==> m.is_live(e),
    ensures
        d.reloc_ok(m),
{
    match d.object_index {
        Some(o) => {
            assert(d.edge_has(HeapRef::Object(o.0)));
        },
        None => (),
    }
    assert forall|e: HeapRef| #[trigger] d.keys.edge_has(e) implies m.is_live(e) by {
        assert(d.edge_has(e));
    }
    assert forall|e: HeapRef| #[trigger] d.values.edge_has(e) implies m.is_live(e) by {
        assert(d.edge_has(e));
    }
    lemma_vec_value_reloc_ok(&d.keys, m);
    lemma_vec_value_reloc_ok(&d.values, m);
}

proof fn lemma_map_data_swept(d: &MapHeapData, nd: &MapHeapData, m: RelocMap)
    requires
        forall|e: HeapRef| #[trigger] d.edge_has(e) ==> m.is_live(e),
        d.is_relocated(nd, m),
    ensures
        forall|e2: HeapRef| #[trigger] nd.edge_has(e2) ==> shifted_in_bounds(m, e2),
{
    assert forall|e: HeapRef| #[trigger] d.keys.edge_has(e) implies m.is_live(e) by {
        assert(d.edge_has(e));
    }
    assert forall|e: HeapRef| #[trigger] d.values.edge_has(e) implies m.is_live(e) by {
        assert(d.edge_has(e));
    }
    lemma_vec_value_facts(&d.keys, &nd.keys, m);
    lemma_vec_value_facts(&d.values, &nd.values, m);
    assert forall|e2: HeapRef| #[trigger] nd.edge_has(e2) implies shifted_in_bounds(m, e2) by {
        if nd.object_index.edge_has(e2) {
            match (d.object_index, nd.object_index) {
                (Some(o), Some(no)) => {
                    assert(d.edge_has(HeapRef::Object(o.0)));
                    lemma_live_rank(m, HeapRef::Object(o.0));
                },
                _ => {
                    assert(false);
                },
            }
        }
    }
}

proof fn lemma_module_data_ready(d: &ModuleHeapData, m: RelocMap)
    requires
        forall|e: HeapRef| #[trigger] d.edge_has(e) ==> m.is_live(e),
    ensures
        d.reloc_ok(m),
{
    match d.object_index {
        Some(o) => {
            assert(d.edge_has(HeapRef::Object(o.0)));
        },
        None => (),
    }
    assert(d.edge_has(HeapRef::Realm(d.module.realm.0)));
    match d.module.namespace {
        Some(ns) => {
            assert(d.edge_has(HeapRef::Module(ns.0)));
        },
        None => (),
    }
    assert forall|e: HeapRef| #[trigger] d.exports.edge_has(e) implies m.is_live(e) by {
        assert(d.edge_has(e));
    }
    lemma_vec_string_reloc_ok(&d.exports, m);
}

proof fn lemma_module_data_swept(d: &ModuleHeapData, nd: &ModuleHeapData, m: RelocMap)
    requires
        forall|e: HeapRef| #[trigger] d.edge_has(e) ==> m.is_live(e),
        d.is_relocated(nd, m),
    ensures
        forall|e2: HeapRef| #[trigger] nd.edge_has(e2) ==> shifted_in_bounds(m, e2),
{
    assert forall|e: HeapRef| #[trigger] d.exports.edge_has(e) implies m.is_live(e) by {
        assert(d.edge_has(e));
    }
    lemma_vec_string_facts(&d.exports, &nd.exports, m);
    assert forall|e2: HeapRef| #[trigger] nd.edge_has(e2) implies shifted_in_bounds(m, e2) by {
        if nd.exports.edge_has(e2) {
        } else if nd.module.realm.edge_has(e2) {
            assert(d.edge_has(HeapRef::Realm(d.module.realm.0)));
            lemma_live_rank(m, HeapRef::Realm(d.module.realm.0));
        } else if nd.module.namespace.edge_has(e2) {
            match (d.module.namespace, nd.module.namespace) {
                (Some(ns), Some(nns)) => {
                    assert(d.edge_has(HeapRef::Module(ns.0)));
                    lemma_live_rank(m, HeapRef::Module(ns.0));
                },
                _ => {
                    assert(false);
                },
            }
        } else {
            assert(nd.object_index.edge_has(e2));
            match (d.object_index, nd.object_index) {
                (Some(o), Some(no)) => {
                    assert(d.edge_has(HeapRef::Object(o.0)));
                    lemma_live_rank(m, HeapRef::Object(o.0));
                },
                _ => {
                    assert(false);
                },
            }
        }
    }
}

proof fn lemma_realm_data_ready(d: &RealmHeapData, m: RelocMap)
    requires
        forall|e: HeapRef| #[trigger] d.edge_has(e) ==> m.is_live(e),
    ensures
        d.reloc_ok(m),
{
    match d.global_object {
        Some(o) => {
            assert(d.edge_has(HeapRef::Object(o.0)));
        },
        None => (),
    }
}

proof fn lemma_realm_data_swept(d: &RealmHeapData, nd: &RealmHeapData, m: RelocMap)
    requires
        forall|e: HeapRef| #[trigger] d.edge_has(e) ==> m.is_live(e),
        d.is_relocated(nd, m),
    ensures
        forall|e2: HeapRef| #[trigger] nd.edge_has(e2) ==> shifted_in_bounds(m, e2),
{
    assert forall|e2: HeapRef| #[trigger] nd.edge_has(e2) implies shifted_in_bounds(m, e2) by {
        match (d.global_object, nd.global_object) {
            (Some(o), Some(no)) => {
                assert(d.edge_has(HeapRef::Object(o.0)));
                lemma_live_rank(m, HeapRef::Object(o.0));
            },
            _ => {
                assert(false);
            },
        }
    }
}

proof fn lemma_buf_ready(d: &ElementBuf, m: RelocMap)
    requires
        forall|e: HeapRef| #[trigger] d.edge_has(e) ==> m.is_live(e),
    ensures
        d.reloc_ok(m),
{
    assert forall|e: HeapRef| #[trigger] d.values.edge_has(e) implies m.is_live(e) by {
        assert(d.edge_has(e));
    }
    assert forall|e: HeapRef| #[trigger] d.descriptors.edge_has(e) implies m.is_live(e) by {
        assert(d.edge_has(e));
    }
    lemma_vec_opt_value_reloc_ok(&d.values, m);
    lemma_vec_opt_desc_reloc_ok(&d.descriptors, m);
}

proof fn lemma_buf_swept(d: &ElementBuf, nd: &ElementBuf, m: RelocMap)
    requires
        forall|e: HeapRef| #[trigger] d.edge_has(e) ==> m.is_live(e),
        d.is_relocated(nd, m),
    ensures
        forall|e2: HeapRef| #[trigger] nd.edge_has(e2) ==> shifted_in_bounds(m, e2),
{
    assert forall|e: HeapRef| #[trigger] d.values.edge_has(e) implies m.is_live(e) by {
        assert(d.edge_has(e));
    }
    assert forall|e: HeapRef| #[trigger] d.descriptors.edge_has(e) implies m.is_live(e) by {
        assert(d.edge_has(e));
    }
    lemma_vec_opt_value_facts(&d.values, &nd.values, m);
    lemma_vec_opt_desc_facts(&d.descriptors, &nd.descriptors, m);
}

/// The index of the old entry a surviving weak-map entry came from.
pub open spec fn surviving_src(m: RelocMap, keys: Seq<Value>, i: int) -> int
    decreases keys.len(),
{
    if keys.len() == 0 {
        0
    } else if keep_entry(m, keys.last()) && i == surviving_keys(m, keys).len() - 1 {
        keys.len() - 1
    } else {
        surviving_src(m, keys.drop_last(), i)
    }
}

/// Weak-reference semantics, the absence direction: every entry of a swept
/// weak map stems from an old entry whose key was kept — an entry whose key
/// was reclaimed is gone.
pub proof fn lemma_surviving_elems(m: RelocMap, keys: Seq<Value>, values: Seq<Value>, i: int)
    requires
        keys.len() == values.len(),
        0 <= i < surviving_keys(m, keys).len(),
    ensures
        0 <= surviving_src(m, keys, i) < keys.len(),
        surviving_keys(m, keys)[i] == keys[surviving_src(m, keys, i)],
        surviving_values(m, keys, values)[i] == values[surviving_src(m, keys, i)],
        keep_entry(m, keys[surviving_src(m, keys, i)]),
    decreases keys.len(),
{
    crate::weak_map::lemma_surviving_lens(m, keys, values);
    crate::weak_map::lemma_surviving_lens(m, keys.drop_last(), values.drop_last());
    let sk = surviving_keys(m, keys);
    let sv = surviving_values(m, keys, values);
    let skp = surviving_keys(m, keys.drop_last());
    let svp = surviving_values(m, keys.drop_last(), values.drop_last());
    if keep_entry(m, keys.last()) && i == sk.len() - 1 {
        assert(sk[i] == keys.last());
        assert(sv[i] == values.last());
    } else {
        lemma_surviving_elems(m, keys.drop_last(), values.drop_last(), i);
        let j = surviving_src(m, keys.drop_last(), i);
        assert(keys.drop_last()[j] == keys[j]);
        assert(values.drop_last()[j] == values[j]);
        assert(sk[i] == skp[i]);
        assert(sv[i] == svp[i]);
    }
}

proof fn lemma_weak_data_ready(d: &WeakMapHeapData, m: RelocMap)
    requires
        forall|e: HeapRef| #[trigger] d.edge_has(e) ==> m.is_live(e),
        d.keys@.len() == d.values@.len(),
        forall|j: int|
            0 <= j < d.keys@.len() ==> match value_ref(#[trigger] d.keys@[j]) {
                Some(e) => m.in_range(e),
                None => true,
            },
        forall|j: int|
            0 <= j < d.keys@.len() && keep_entry(m, #[trigger] d.keys@[j]) ==> match value_ref(
                d.values@[j],
            ) {
                Some(e) => m.is_live(e),
                None => true,
            },
    ensures
        d.reloc_ok(m),
{
    match d.object_index {
        Some(o) => {
            assert(d.edge_has(HeapRef::Object(o.0)));
        },
        None => (),
    }
    assert forall|j: int|
        0 <= j < d.keys@.len() && keep_entry(m, d.keys@[j]) implies #[trigger] d.values@[j]
        .reloc_ok(m) by {
        lemma_value_facts(m, d.values@[j]);
    }
}

/// The entries of a swept weak map: paired, with every stored reference in
/// the compacted bounds.
proof fn lemma_weak_data_swept(d: &WeakMapHeapData, nd: &WeakMapHeapData, m: RelocMap)
    requires
        forall|e: HeapRef| #[trigger] d.edge_has(e) ==> m.is_live(e),
        d.keys@.len() == d.values@.len(),
        forall|j: int|
            0 <= j < d.keys@.len() && keep_entry(m, #[trigger] d.keys@[j]) ==> match value_ref(
                d.values@[j],
            ) {
                Some(e) => m.is_live(e),
                None => true,
            },
        d.is_relocated(nd, m),
    ensures
        forall|e2: HeapRef| #[trigger] nd.edge_has(e2) ==> shifted_in_bounds(m, e2),
        nd.keys@.len() == nd.values@.len(),
        forall|i: int|
            0 <= i < nd.keys@.len() ==> match value_ref(#[trigger] nd.keys@[i]) {
                Some(e) => shifted_in_bounds(m, e),
                None => true,
            },
        forall|i: int|
            0 <= i < nd.values@.len() ==> match value_ref(#[trigger] nd.values@[i]) {
                Some(e) => shifted_in_bounds(m, e),
                None => true,
            },
{
    let sk = surviving_keys(m, d.keys@);
    let sv = surviving_values(m, d.keys@, d.values@);
    assert forall|e2: HeapRef| #[trigger] nd.edge_has(e2) implies shifted_in_bounds(m, e2) by {
        match (d.object_index, nd.object_index) {
            (Some(o), Some(no)) => {
                assert(d.edge_has(HeapRef::Object(o.0)));
                lemma_live_rank(m, HeapRef::Object(o.0));
            },
            _ => {
                assert(false);
            },
        }
    }
    assert forall|i: int| 0 <= i < nd.keys@.len() implies match value_ref(
        #[trigger] nd.keys@[i],
    ) {
        Some(e) => shifted_in_bounds(m, e),
        None => true,
    } by {
        lemma_surviving_elems(m, d.keys@, d.values@, i);
        let j = surviving_src(m, d.keys@, i);
        assert(nd.keys@[i] == shift_value(m, sk[i]));
        lemma_value_facts(m, d.keys@[j]);
    }
    assert forall|i: int| 0 <= i < nd.values@.len() implies match value_ref(
        #[trigger] nd.values@[i],
    ) {
        Some(e) => shifted_in_bounds(m, e),
        None => true,
    } by {
        lemma_surviving_elems(m, d.keys@, d.values@, i);
        let j = surviving_src(m, d.keys@, i);
        assert(nd.values@[i] == shift_value(m, sv[i]));
        lemma_value_facts(m, d.values@[j]);
    }
}

/// Compaction correctness, the identity side: two distinct surviving slots
/// of one arena stay distinct — the rank map is strictly monotone, so a
/// surviving cross-reference resolves to the same logical entity as before
/// the collection, never to a neighbour's.
pub proof fn lemma_distinct_survivors_stay_distinct(s: Seq<bool>, i: u32, j: u32)
    requires
        i < j,
        j < s.len(),
        s[i as int],
        s[j as int],
    ensures
        crate::gc::rank(s, i) < crate::gc::rank(s, j),
        crate::gc::rank(s, j) < count_true(s),
{
    lemma_rank_bound(s, i);
    lemma_rank_bound(s, j);
    crate::counts::lemma_live_below_strict_mono(s, i as int, j as int);
}

/// A compacted object arena holds exactly the live entities, each ready to
/// be swept.
proof fn lemma_ready_objects(h0: &Heap, m: RelocMap, mid: Seq<Option<ObjectHeapData>>)
    requires
        h0.wf(),
        m == live_mask(h0),
        mid.len() == count_true(m.objects),
        forall|i: int|
            0 <= i < m.objects.len() && m.objects[i] ==> #[trigger] mid[live_below(
                m.objects,
                i,
            )] == h0.objects@[i],
    ensures
        forall|j: int| 0 <= j < mid.len() ==> (#[trigger] mid[j]) is Some,
        forall|j: int| 0 <= j < mid.len() ==> (#[trigger] mid[j])->Some_0.reloc_ok(m),
        forall|j: int, e: HeapRef|
            0 <= j < mid.len() && #[trigger] mid[j]->Some_0.edge_has(e) ==> m.is_live(e),
{
    assert forall|j: int| 0 <= j < mid.len() implies (#[trigger] mid[j]) is Some && mid[j]
        ->Some_0.reloc_ok(m) && (forall|e: HeapRef|
        #[trigger] mid[j]->Some_0.edge_has(e) ==> m.is_live(e)) by {
        crate::counts::lemma_rank_surjective(m.objects, j);
        let i = choose|i: int|
            0 <= i < m.objects.len() && m.objects[i] && #[trigger] live_below(m.objects, i)
                == j;
        assert(mid[live_below(m.objects, i)] == h0.objects@[i]);
        assert(live(h0, HeapRef::Object(i as u32)));
        assert(h0.in_bounds(HeapRef::Object(i as u32)));
        assert(h0.slot_full(HeapRef::Object(i as u32)));
        let d = h0.objects@[i]->Some_0;
        assert forall|e: HeapRef| #[trigger] d.edge_has(e) implies m.is_live(e) by {
            assert(h0.has_edge(HeapRef::Object(i as u32), e));
            crate::reachability::lemma_live_edge(h0, HeapRef::Object(i as u32), e);
            lemma_live_mask_live(h0, e);
        }
        lemma_object_data_ready(&d, m);
    }
}

/// A swept object arena: every slot occupied, every live old entity present
/// at its rank with contents relocated, every stored edge within the
/// compacted bounds.
proof fn lemma_swept_objects(
    h0: &Heap,
    m: RelocMap,
    mid: Seq<Option<ObjectHeapData>>,
    fin: Seq<Option<ObjectHeapData>>,
)
    requires
        h0.wf(),
        m == live_mask(h0),
        mid.len() == count_true(m.objects),
        forall|i: int|
            0 <= i < m.objects.len() && m.objects[i] ==> #[trigger] mid[live_below(
                m.objects,
                i,
            )] == h0.objects@[i],
        fin.len() == mid.len(),
        forall|j: int| 0 <= j < mid.len() ==> #[trigger] mid[j].is_relocated(&fin[j], m),
    ensures
        forall|j: int| 0 <= j < fin.len() ==> (#[trigger] fin[j]) is Some,
        forall|i: u32|
            i < h0.objects@.len() && #[trigger] live(h0, HeapRef::Object(i)) ==> fin[live_below(
                m.objects,
                i as int,
            )] is Some && h0.objects@[i as int]->Some_0.is_relocated(
                &fin[live_below(m.objects, i as int)]->Some_0,
                m,
            ),
        forall|j: int, e2: HeapRef|
            0 <= j < fin.len() && (#[trigger] fin[j]->Some_0.edge_has(e2))
                ==> shifted_in_bounds(m, e2),
{
    lemma_ready_objects(h0, m, mid);
    assert forall|j: int| 0 <= j < fin.len() implies (#[trigger] fin[j]) is Some by {
        assert(mid[j].is_relocated(&fin[j], m));
    }
    assert forall|i: u32|
        i < h0.objects@.len() && #[trigger] live(h0, HeapRef::Object(i)) implies fin[live_below(
        m.objects,
        i as int,
    )] is Some && h0.objects@[i as int]->Some_0.is_relocated(
        &fin[live_below(m.objects, i as int)]->Some_0,
        m,
    ) by {
        assert(m.objects[i as int]);
        lemma_rank_bound(m.objects, i);
        let j = live_below(m.objects, i as int);
        assert(mid[j] == h0.objects@[i as int]);
        assert(mid[j].is_relocated(&fin[j], m));
    }
    assert forall|j: int, e2: HeapRef|
        0 <= j < fin.len() && (#[trigger] fin[j]->Some_0.edge_has(e2)) implies shifted_in_bounds(
        m,
        e2,
    ) by {
        assert(mid[j].is_relocated(&fin[j], m));
        let d = mid[j]->Some_0;
        let nd = fin[j]->Some_0;
        assert(d.is_relocated(&nd, m));
        assert forall|e: HeapRef| #[trigger] d.edge_has(e) implies m.is_live(e) by {
            assert(mid[j]->Some_0.edge_has(e));
        }
        lemma_object_data_swept(&d, &nd, m);
    }
}

/// A compacted arrays arena holds exactly the live entities, each ready to
/// be swept.
proof fn lemma_ready_arrays(h0: &Heap, m: RelocMap, mid: Seq<Option<ArrayHeapData>>)
    requires
        h0.wf(),
        m == live_mask(h0),
        mid.len() == count_true(m.arrays),
        forall|i: int|
            0 <= i < m.arrays.len() && m.arrays[i] ==> #[trigger] mid[live_below(
                m.arrays,
                i,
            )] == h0.arrays@[i],
    ensures
        forall|j: int| 0 <= j < mid.len() ==> (#[trigger] mid[j]) is Some,
        forall|j: int| 0 <= j < mid.len() ==> (#[trigger] mid[j])->Some_0.reloc_ok(m),
        forall|j: int, e: HeapRef|
            0 <= j < mid.len() && #[trigger] mid[j]->Some_0.edge_has(e) ==> m.is_live(e),
{
    assert forall|j: int| 0 <= j < mid.len() implies (#[trigger] mid[j]) is Some && mid[j]
        ->Some_0.reloc_ok(m) && (forall|e: HeapRef|
        #[trigger] mid[j]->Some_0.edge_has(e) ==> m.is_live(e)) by {
        crate::counts::lemma_rank_surjective(m.arrays, j);
        let i = choose|i: int|
            0 <= i < m.arrays.len() && m.arrays[i] && #[trigger] live_below(m.arrays, i)
                == j;
        assert(mid[live_below(m.arrays, i)] == h0.arrays@[i]);
        assert(live(h0, HeapRef::Array(i as u32)));
        assert(h0.in_bounds(HeapRef::Array(i as u32)));
        assert(h0.slot_full(HeapRef::Array(i as u32)));
        let d = h0.arrays@[i]->Some_0;
        assert forall|e: HeapRef| #[trigger] d.edge_has(e) implies m.is_live(e) by {
            assert(h0.has_edge(HeapRef::Array(i as u32), e));
            crate::reachability::lemma_live_edge(h0, HeapRef::Array(i as u32), e);
            lemma_live_mask_live(h0, e);
        }
        lemma_array_data_ready(&d, m);
    }
}

/// A swept arrays arena: every slot occupied, every live old entity present
/// at its rank with contents relocated, every stored edge within the
/// compacted bounds.
proof fn lemma_swept_arrays(
    h0: &Heap,
    m: RelocMap,
    mid: Seq<Option<ArrayHeapData>>,
    fin: Seq<Option<ArrayHeapData>>,
)
    requires
        h0.wf(),
        m == live_mask(h0),
        mid.len() == count_true(m.arrays),
        forall|i: int|
            0 <= i < m.arrays.len() && m.arrays[i] ==> #[trigger] mid[live_below(
                m.arrays,
                i,
            )] == h0.arrays@[i],
        fin.len() == mid.len(),
        forall|j: int| 0 <= j < mid.len() ==> #[trigger] mid[j].is_relocated(&fin[j], m),
    ensures
        forall|j: int| 0 <= j < fin.len() ==> (#[trigger] fin[j]) is Some,
        forall|i: u32|
            i < h0.arrays@.len() && #[trigger] live(h0, HeapRef::Array(i)) ==> fin[live_below(
                m.arrays,
                i as int,
            )] is Some && h0.arrays@[i as int]->Some_0.is_relocated(
                &fin[live_below(m.arrays, i as int)]->Some_0,
                m,
            ),
        forall|j: int, e2: HeapRef|
            0 <= j < fin.len() && (#[trigger] fin[j]->Some_0.edge_has(e2))
                ==> shifted_in_bounds(m, e2),
{
    lemma_ready_arrays(h0, m, mid);
    assert forall|j: int| 0 <= j < fin.len() implies (#[trigger] fin[j]) is Some by {
        assert(mid[j].is_relocated(&fin[j], m));
    }
    assert forall|i: u32|
        i < h0.arrays@.len() && #[trigger] live(h0, HeapRef::Array(i)) implies fin[live_below(
        m.arrays,
        i as int,
    )] is Some && h0.arrays@[i as int]->Some_0.is_relocated(
        &fin[live_below(m.arrays, i as int)]->Some_0,
        m,
    ) by {
        assert(m.arrays[i as int]);
        lemma_rank_bound(m.arrays, i);
        let j = live_below(m.arrays, i as int);
        assert(mid[j] == h0.arrays@[i as int]);
        assert(mid[j].is_relocated(&fin[j], m));
    }
    assert forall|j: int, e2: HeapRef|
        0 <= j < fin.len() && (#[trigger] fin[j]->Some_0.edge_has(e2)) implies shifted_in_bounds(
        m,
        e2,
    ) by {
        assert(mid[j].is_relocated(&fin[j], m));
        let d = mid[j]->Some_0;
        let nd = fin[j]->Some_0;
        assert(d.is_relocated(&nd, m));
        assert forall|e: HeapRef| #[trigger] d.edge_has(e) implies m.is_live(e) by {
            assert(mid[j]->Some_0.edge_has(e));
        }
        lemma_array_data_swept(&d, &nd, m);
    }
}

/// A compacted maps arena holds exactly the live entities, each ready to
/// be swept.
proof fn lemma_ready_maps(h0: &Heap, m: RelocMap, mid: Seq<Option<MapHeapData>>)
    requires
        h0.wf(),
        m == live_mask(h0),
        mid.len() == count_true(m.maps),
        forall|i: int|
            0 <= i < m.maps.len() && m.maps[i] ==> #[trigger] mid[live_below(
                m.maps,
                i,
            )] == h0.maps@[i],
    ensures
        forall|j: int| 0 <= j < mid.len() ==> (#[trigger] mid[j]) is Some,
        forall|j: int| 0 <= j < mid.len() ==> (#[trigger] mid[j])->Some_0.reloc_ok(m),
        forall|j: int, e: HeapRef|
            0 <= j < mid.len() && #[trigger] mid[j]->Some_0.edge_has(e) ==> m.is_live(e),
{
    assert forall|j: int| 0 <= j < mid.len() implies (#[trigger] mid[j]) is Some && mid[j]
        ->Some_0.reloc_ok(m) && (forall|e: HeapRef|
        #[trigger] mid[j]->Some_0.edge_has(e) ==> m.is_live(e)) by {
        crate::counts::lemma_rank_surjective(m.maps, j);
        let i = choose|i: int|
            0 <= i < m.maps.len() && m.maps[i] && #[trigger] live_below(m.maps, i)
                == j;
        assert(mid[live_below(m.maps, i)] == h0.maps@[i]);
        assert(live(h0, HeapRef::JsMap(i as u32)));
        assert(h0.in_bounds(HeapRef::JsMap(i as u32)));
        assert(h0.slot_full(HeapRef::JsMap(i as u32)));
        let d = h0.maps@[i]->Some_0;
        assert forall|e: HeapRef| #[trigger] d.edge_has(e) implies m.is_live(e) by {
            assert(h0.has_edge(HeapRef::JsMap(i as u32), e));
            crate::reachability::lemma_live_edge(h0, HeapRef::JsMap(i as u32), e);
            lemma_live_mask_live(h0, e);
        }
        lemma_map_data_ready(&d, m);
    }
}

/// A swept maps arena: every slot occupied, every live old entity present
/// at its rank with contents relocated, every stored edge within the
/// compacted bounds.
proof fn lemma_swept_maps(
    h0: &Heap,
    m: RelocMap,
    mid: Seq<Option<MapHeapData>>,
    fin: Seq<Option<MapHeapData>>,
)
    requires
        h0.wf(),
        m == live_mask(h0),
        mid.len() == count_true(m.maps),
        forall|i: int|
            0 <= i < m.maps.len() && m.maps[i] ==> #[trigger] mid[live_below(
                m.maps,
                i,
            )] == h0.maps@[i],
        fin.len() == mid.len(),
        forall|j: int| 0 <= j < mid.len() ==> #[trigger] mid[j].is_relocated(&fin[j], m),
    ensures
        forall|j: int| 0 <= j < fin.len() ==> (#[trigger] fin[j]) is Some,
        forall|i: u32|
            i < h0.maps@.len() && #[trigger] live(h0, HeapRef::JsMap(i)) ==> fin[live_below(
                m.maps,
                i as int,
            )] is Some && h0.maps@[i as int]->Some_0.is_relocated(
                &fin[live_below(m.maps, i as int)]->Some_0,
                m,
            ),
        forall|j: int, e2: HeapRef|
            0 <= j < fin.len() && (#[trigger] fin[j]->Some_0.edge_has(e2))
                ==> shifted_in_bounds(m, e2),
{
    lemma_ready_maps(h0, m, mid);
    assert forall|j: int| 0 <= j < fin.len() implies (#[trigger] fin[j]) is Some by {
        assert(mid[j].is_relocated(&fin[j], m));
    }
    assert forall|i: u32|
        i < h0.maps@.len() && #[trigger] live(h0, HeapRef::JsMap(i)) implies fin[live_below(
        m.maps,
        i as int,
    )] is Some && h0.maps@[i as int]->Some_0.is_relocated(
        &fin[live_below(m.maps, i as int)]->Some_0,
        m,
    ) by {
        assert(m.maps[i as int]);
        lemma_rank_bound(m.maps, i);
        let j = live_below(m.maps, i as int);
        assert(mid[j] == h0.maps@[i as int]);
        assert(mid[j].is_relocated(&fin[j], m));
    }
    assert forall|j: int, e2: HeapRef|
        0 <= j < fin.len() && (#[trigger] fin[j]->Some_0.edge_has(e2)) implies shifted_in_bounds(
        m,
        e2,
    ) by {
        assert(mid[j].is_relocated(&fin[j], m));
        let d = mid[j]->Some_0;
        let nd = fin[j]->Some_0;
        assert(d.is_relocated(&nd, m));
        assert forall|e: HeapRef| #[trigger] d.edge_has(e) implies m.is_live(e) by {
            assert(mid[j]->Some_0.edge_has(e));
        }
        lemma_map_data_swept(&d, &nd, m);
    }
}

/// A compacted modules arena holds exactly the live entities, each ready to
/// be swept.
proof fn lemma_ready_modules(h0: &Heap, m: RelocMap, mid: Seq<Option<ModuleHeapData>>)
    requires
        h0.wf(),
        m == live_mask(h0),
        mid.len() == count_true(m.modules),
        forall|i: int|
            0 <= i < m.modules.len() && m.modules[i] ==> #[trigger] mid[live_below(
                m.modules,
                i,
            )] == h0.modules@[i],
    ensures
        forall|j: int| 0 <= j < mid.len() ==> (#[trigger] mid[j]) is Some,
        forall|j: int| 0 <= j < mid.len() ==> (#[trigger] mid[j])->Some_0.reloc_ok(m),
        forall|j: int, e: HeapRef|
            0 <= j < mid.len() && #[trigger] mid[j]->Some_0.edge_has(e) ==> m.is_live(e),
{
    assert forall|j: int| 0 <= j < mid.len() implies (#[trigger] mid[j]) is Some && mid[j]
        ->Some_0.reloc_ok(m) && (forall|e: HeapRef|
        #[trigger] mid[j]->Some_0.edge_has(e) ==> m.is_live(e)) by {
        crate::counts::lemma_rank_surjective(m.modules, j);
        let i = choose|i: int|
            0 <= i < m.modules.len() && m.modules[i] && #[trigger] live_below(m.modules, i)
                == j;
        assert(mid[live_below(m.modules, i)] == h0.modules@[i]);
        assert(live(h0, HeapRef::Module(i as u32)));
        assert(h0.in_bounds(HeapRef::Module(i as u32)));
        assert(h0.slot_full(HeapRef::Module(i as u32)));
        let d = h0.modules@[i]->Some_0;
        assert forall|e: HeapRef| #[trigger] d.edge_has(e) implies m.is_live(e) by {
            assert(h0.has_edge(HeapRef::Module(i as u32), e));
            crate::reachability::lemma_live_edge(h0, HeapRef::Module(i as u32), e);
            lemma_live_mask_live(h0, e);
        }
        lemma_module_data_ready(&d, m);
    }
}

/// A swept modules arena: every slot occupied, every live old entity present
/// at its rank with contents relocated, every stored edge within the
/// compacted bounds.
proof fn lemma_swept_modules(
    h0: &Heap,
    m: RelocMap,
    mid: Seq<Option<ModuleHeapData>>,
    fin: Seq<Option<ModuleHeapData>>,
)
    requires
        h0.wf(),
        m == live_mask(h0),
        mid.len() == count_true(m.modules),
        forall|i: int|
            0 <= i < m.modules.len() && m.modules[i] ==> #[trigger] mid[live_below(
                m.modules,
                i,
            )] == h0.modules@[i],
        fin.len() == mid.len(),
        forall|j: int| 0 <= j < mid.len() ==> #[trigger] mid[j].is_relocated(&fin[j], m),
    ensures
        forall|j: int| 0 <= j < fin.len() ==> (#[trigger] fin[j]) is Some,
        forall|i: u32|
            i < h0.modules@.len() && #[trigger] live(h0, HeapRef::Module(i)) ==> fin[live_below(
                m.modules,
                i as int,
            )] is Some && h0.modules@[i as int]->Some_0.is_relocated(
                &fin[live_below(m.modules, i as int)]->Some_0,
                m,
            ),
        forall|j: int, e2: HeapRef|
            0 <= j < fin.len() && (#[trigger] fin[j]->Some_0.edge_has(e2))
                ==> shifted_in_bounds(m, e2),
{
    lemma_ready_modules(h0, m, mid);
    assert forall|j: int| 0 <= j < fin.len() implies (#[trigger] fin[j]) is Some by {
        assert(mid[j].is_relocated(&fin[j], m));
    }
    assert forall|i: u32|
        i < h0.modules@.len() && #[trigger] live(h0, HeapRef::Module(i)) implies fin[live_below(
        m.modules,
        i as int,
    )] is Some && h0.modules@[i as int]->Some_0.is_relocated(
        &fin[live_below(m.modules, i as int)]->Some_0,
        m,
    ) by {
        assert(m.modules[i as int]);
        lemma_rank_bound(m.modules, i);
        let j = live_below(m.modules, i as int);
        assert(mid[j] == h0.modules@[i as int]);
        assert(mid[j].is_relocated(&fin[j], m));
    }
    assert forall|j: int, e2: HeapRef|
        0 <= j < fin.len() && (#[trigger] fin[j]->Some_0.edge_has(e2)) implies shifted_in_bounds(
        m,
        e2,
    ) by {
        assert(mid[j].is_relocated(&fin[j], m));
        let d = mid[j]->Some_0;
        let nd = fin[j]->Some_0;
        assert(d.is_relocated(&nd, m));
        assert forall|e: HeapRef| #[trigger] d.edge_has(e) implies m.is_live(e) by {
            assert(mid[j]->Some_0.edge_has(e));
        }
        lemma_module_data_swept(&d, &nd, m);
    }
}

/// A compacted realms arena holds exactly the live entities, each ready to
/// be swept.
proof fn lemma_ready_realms(h0: &Heap, m: RelocMap, mid: Seq<Option<RealmHeapData>>)
    requires
        h0.wf(),
        m == live_mask(h0),
        mid.len() == count_true(m.realms),
        forall|i: int|
            0 <= i < m.realms.len() && m.realms[i] ==> #[trigger] mid[live_below(
                m.realms,
                i,
            )] == h0.realms@[i],
    ensures
        forall|j: int| 0 <= j < mid.len() ==> (#[trigger] mid[j]) is Some,
        forall|j: int| 0 <= j < mid.len() ==> (#[trigger] mid[j])->Some_0.reloc_ok(m),
        forall|j: int, e: HeapRef|
            0 <= j < mid.len() && #[trigger] mid[j]->Some_0.edge_has(e) ==> m.is_live(e),
{
    assert forall|j: int| 0 <= j < mid.len() implies (#[trigger] mid[j]) is Some && mid[j]
        ->Some_0.reloc_ok(m) && (forall|e: HeapRef|
        #[trigger] mid[j]->Some_0.edge_has(e) ==> m.is_live(e)) by {
        crate::counts::lemma_rank_surjective(m.realms, j);
        let i = choose|i: int|
            0 <= i < m.realms.len() && m.realms[i] && #[trigger] live_below(m.realms, i)
                == j;
        assert(mid[live_below(m.realms, i)] == h0.realms@[i]);
        assert(live(h0, HeapRef::Realm(i as u32)));
        assert(h0.in_bounds(HeapRef::Realm(i as u32)));
        assert(h0.slot_full(HeapRef::Realm(i as u32)));
        let d = h0.realms@[i]->Some_0;
        assert forall|e: HeapRef| #[trigger] d.edge_has(e) implies m.is_live(e) by {
            assert(h0.has_edge(HeapRef::Realm(i as u32), e));
            crate::reachability::lemma_live_edge(h0, HeapRef::Realm(i as u32), e);
            lemma_live_mask_live(h0, e);
        }
        lemma_realm_data_ready(&d, m);
    }
}

/// A swept realms arena: every slot occupied, every live old entity present
/// at its rank with contents relocated, every stored edge within the
/// compacted bounds.
proof fn lemma_swept_realms(
    h0: &Heap,
    m: RelocMap,
    mid: Seq<Option<RealmHeapData>>,
    fin: Seq<Option<RealmHeapData>>,
)
    requires
        h0.wf(),
        m == live_mask(h0),
        mid.len() == count_true(m.realms),
        forall|i: int|
            0 <= i < m.realms.len() && m.realms[i] ==> #[trigger] mid[live_below(
                m.realms,
                i,
            )] == h0.realms@[i],
        fin.len() == mid.len(),
        forall|j: int| 0 <= j < mid.len() ==> #[trigger] mid[j].is_relocated(&fin[j], m),
    ensures
        forall|j: int| 0 <= j < fin.len() ==> (#[trigger] fin[j]) is Some,
        forall|i: u32|
            i < h0.realms@.len() && #[trigger] live(h0, HeapRef::Realm(i)) ==> fin[live_below(
                m.realms,
                i as int,
            )] is Some && h0.realms@[i as int]->Some_0.is_relocated(
                &fin[live_below(m.realms, i as int)]->Some_0,
                m,
            ),
        forall|j: int, e2: HeapRef|
            0 <= j < fin.len() && (#[trigger] fin[j]->Some_0.edge_has(e2))
                ==> shifted_in_bounds(m, e2),
{
    lemma_ready_realms(h0, m, mid);
    assert forall|j: int| 0 <= j < fin.len() implies (#[trigger] fin[j]) is Some by {
        assert(mid[j].is_relocated(&fin[j], m));
    }
    assert forall|i: u32|
        i < h0.realms@.len() && #[trigger] live(h0, HeapRef::Realm(i)) implies fin[live_below(
        m.realms,
        i as int,
    )] is Some && h0.realms@[i as int]->Some_0.is_relocated(
        &fin[live_below(m.realms, i as int)]->Some_0,
        m,
    ) by {
        assert(m.realms[i as int]);
        lemma_rank_bound(m.realms, i);
        let j = live_below(m.realms, i as int);
        assert(mid[j] == h0.realms@[i as int]);
        assert(mid[j].is_relocated(&fin[j], m));
    }
    assert forall|j: int, e2: HeapRef|
        0 <= j < fin.len() && (#[trigger] fin[j]->Some_0.edge_has(e2)) implies shifted_in_bounds(
        m,
        e2,
    ) by {
        assert(mid[j].is_relocated(&fin[j], m));
        let d = mid[j]->Some_0;
        let nd = fin[j]->Some_0;
        assert(d.is_relocated(&nd, m));
        assert forall|e: HeapRef| #[trigger] d.edge_has(e) implies m.is_live(e) by {
            assert(mid[j]->Some_0.edge_has(e));
        }
        lemma_realm_data_swept(&d, &nd, m);
    }
}

/// A compacted elements arena holds exactly the live entities, each ready to
/// be swept.
proof fn lemma_ready_elements(h0: &Heap, m: RelocMap, mid: Seq<Option<ElementBuf>>)
    requires
        h0.wf(),
        m == live_mask(h0),
        mid.len() == count_true(m.elements),
        forall|i: int|
            0 <= i < m.elements.len() && m.elements[i] ==> #[trigger] mid[live_below(
                m.elements,
                i,
            )] == h0.elements.storage@[i],
    ensures
        forall|j: int| 0 <= j < mid.len() ==> (#[trigger] mid[j]) is Some,
        forall|j: int| 0 <= j < mid.len() ==> (#[trigger] mid[j])->Some_0.reloc_ok(m),
        forall|j: int, e: HeapRef|
            0 <= j < mid.len() && #[trigger] mid[j]->Some_0.edge_has(e) ==> m.is_live(e),
{
    assert forall|j: int| 0 <= j < mid.len() implies (#[trigger] mid[j]) is Some && mid[j]
        ->Some_0.reloc_ok(m) && (forall|e: HeapRef|
        #[trigger] mid[j]->Some_0.edge_has(e) ==> m.is_live(e)) by {
        crate::counts::lemma_rank_surjective(m.elements, j);
        let i = choose|i: int|
            0 <= i < m.elements.len() && m.elements[i] && #[trigger] live_below(m.elements, i)
                == j;
        assert(mid[live_below(m.elements, i)] == h0.elements.storage@[i]);
        assert(live(h0, HeapRef::Elems(i as u32)));
        assert(h0.in_bounds(HeapRef::Elems(i as u32)));
        assert(h0.slot_full(HeapRef::Elems(i as u32)));
        let d = h0.elements.storage@[i]->Some_0;
        assert forall|e: HeapRef| #[trigger] d.edge_has(e) implies m.is_live(e) by {
            assert(h0.has_edge(HeapRef::Elems(i as u32), e));
            crate::reachability::lemma_live_edge(h0, HeapRef::Elems(i as u32), e);
            lemma_live_mask_live(h0, e);
        }
        lemma_buf_ready(&d, m);
    }
}

/// A swept elements arena: every slot occupied, every live old entity present
/// at its rank with contents relocated, every stored edge within the
/// compacted bounds.
proof fn lemma_swept_elements(
    h0: &Heap,
    m: RelocMap,
    mid: Seq<Option<ElementBuf>>,
    fin: Seq<Option<ElementBuf>>,
)
    requires
        h0.wf(),
        m == live_mask(h0),
        mid.len() == count_true(m.elements),
        forall|i: int|
            0 <= i < m.elements.len() && m.elements[i] ==> #[trigger] mid[live_below(
                m.elements,
                i,
            )] == h0.elements.storage@[i],
        fin.len() == mid.len(),
        forall|j: int| 0 <= j < mid.len() ==> #[trigger] mid[j].is_relocated(&fin[j], m),
    ensures
        forall|j: int| 0 <= j < fin.len() ==> (#[trigger] fin[j]) is Some,
        forall|i: u32|
            i < h0.elements.storage@.len() && #[trigger] live(h0, HeapRef::Elems(i)) ==> fin[live_below(
                m.elements,
                i as int,
            )] is Some && h0.elements.storage@[i as int]->Some_0.is_relocated(
                &fin[live_below(m.elements, i as int)]->Some_0,
                m,
            ),
        forall|j: int, e2: HeapRef|
            0 <= j < fin.len() && (#[trigger] fin[j]->Some_0.edge_has(e2))
                ==> shifted_in_bounds(m, e2),
{
    lemma_ready_elements(h0, m, mid);
    assert forall|j: int| 0 <= j < fin.len() implies (#[trigger] fin[j]) is Some by {
        assert(mid[j].is_relocated(&fin[j], m));
    }
    assert forall|i: u32|
        i < h0.elements.storage@.len() && #[trigger] live(h0, HeapRef::Elems(i)) implies fin[live_below(
        m.elements,
        i as int,
    )] is Some && h0.elements.storage@[i as int]->Some_0.is_relocated(
        &fin[live_below(m.elements, i as int)]->Some_0,
        m,
    ) by {
        assert(m.elements[i as int]);
        lemma_rank_bound(m.elements, i);
        let j = live_below(m.elements, i as int);
        assert(mid[j] == h0.elements.storage@[i as int]);
        assert(mid[j].is_relocated(&fin[j], m));
    }
    assert forall|j: int, e2: HeapRef|
        0 <= j < fin.len() && (#[trigger] fin[j]->Some_0.edge_has(e2)) implies shifted_in_bounds(
        m,
        e2,
    ) by {
        assert(mid[j].is_relocated(&fin[j], m));
        let d = mid[j]->Some_0;
        let nd = fin[j]->Some_0;
        assert(d.is_relocated(&nd, m));
        assert forall|e: HeapRef| #[trigger] d.edge_has(e) implies m.is_live(e) by {
            assert(mid[j]->Some_0.edge_has(e));
        }
        lemma_buf_swept(&d, &nd, m);
    }
}

/// A compacted string arena holds exactly the live entities, each ready to
/// be swept.
proof fn lemma_ready_strings(h0: &Heap, m: RelocMap, mid: Seq<Option<StringHeapData>>)
    requires
        h0.wf(),
        m == live_mask(h0),
        mid.len() == count_true(m.strings),
        forall|i: int|
            0 <= i < m.strings.len() && m.strings[i] ==> #[trigger] mid[live_below(
                m.strings,
                i,
            )] == h0.strings@[i],
    ensures
        forall|j: int| 0 <= j < mid.len() ==> (#[trigger] mid[j]) is Some,
        forall|j: int| 0 <= j < mid.len() ==> (#[trigger] mid[j])->Some_0.reloc_ok(m),
        forall|j: int, e: HeapRef|
            0 <= j < mid.len() && #[trigger] mid[j]->Some_0.edge_has(e) ==> m.is_live(e),
{
    assert forall|j: int| 0 <= j < mid.len() implies (#[trigger] mid[j]) is Some && mid[j]
        ->Some_0.reloc_ok(m) && (forall|e: HeapRef|
        #[trigger] mid[j]->Some_0.edge_has(e) ==> m.is_live(e)) by {
        crate::counts::lemma_rank_surjective(m.strings, j);
        let i = choose|i: int|
            0 <= i < m.strings.len() && m.strings[i] && #[trigger] live_below(m.strings, i)
                == j;
        assert(mid[live_below(m.strings, i)] == h0.strings@[i]);
        assert(live(h0, HeapRef::Str(i as u32)));
        assert(h0.in_bounds(HeapRef::Str(i as u32)));
        assert(h0.slot_full(HeapRef::Str(i as u32)));
        let d = h0.strings@[i]->Some_0;
        assert forall|e: HeapRef| #[trigger] d.edge_has(e) implies m.is_live(e) by {
            assert(h0.has_edge(HeapRef::Str(i as u32), e));
            crate::reachability::lemma_live_edge(h0, HeapRef::Str(i as u32), e);
            lemma_live_mask_live(h0, e);
        }
    }
}

/// A swept string arena: every slot occupied, every live old entity present
/// at its rank with contents relocated, every stored edge within the
/// compacted bounds.
proof fn lemma_swept_strings(
    h0: &Heap,
    m: RelocMap,
    mid: Seq<Option<StringHeapData>>,
    fin: Seq<Option<StringHeapData>>,
)
    requires
        h0.wf(),
        m == live_mask(h0),
        mid.len() == count_true(m.strings),
        forall|i: int|
            0 <= i < m.strings.len() && m.strings[i] ==> #[trigger] mid[live_below(
                m.strings,
                i,
            )] == h0.strings@[i],
        fin.len() == mid.len(),
        forall|j: int| 0 <= j < mid.len() ==> #[trigger] mid[j].is_relocated(&fin[j], m),
    ensures
        forall|j: int| 0 <= j < fin.len() ==> (#[trigger] fin[j]) is Some,
        forall|i: u32|
            i < h0.strings@.len() && #[trigger] live(h0, HeapRef::Str(i)) ==> fin[live_below(
                m.strings,
                i as int,
            )] is Some && h0.strings@[i as int]->Some_0.is_relocated(
                &fin[live_below(m.strings, i as int)]->Some_0,
                m,
            ),
        forall|j: int, e2: HeapRef|
            0 <= j < fin.len() && (#[trigger] fin[j]->Some_0.edge_has(e2))
                ==> shifted_in_bounds(m, e2),
{
    lemma_ready_strings(h0, m, mid);
    assert forall|j: int| 0 <= j < fin.len() implies (#[trigger] fin[j]) is Some by {
        assert(mid[j].is_relocated(&fin[j], m));
    }
    assert forall|i: u32|
        i < h0.strings@.len() && #[trigger] live(h0, HeapRef::Str(i)) implies fin[live_below(
        m.strings,
        i as int,
    )] is Some && h0.strings@[i as int]->Some_0.is_relocated(
        &fin[live_below(m.strings, i as int)]->Some_0,
        m,
    ) by {
        assert(m.strings[i as int]);
        lemma_rank_bound(m.strings, i);
        let j = live_below(m.strings, i as int);
        assert(mid[j] == h0.strings@[i as int]);
        assert(mid[j].is_relocated(&fin[j], m));
    }
    assert forall|j: int, e2: HeapRef|
        0 <= j < fin.len() && (#[trigger] fin[j]->Some_0.edge_has(e2)) implies shifted_in_bounds(
        m,
        e2,
    ) by {
        assert(mid[j].is_relocated(&fin[j], m));
        let d = mid[j]->Some_0;
        let nd = fin[j]->Some_0;
        assert(d.is_relocated(&nd, m));
        assert forall|e: HeapRef| #[trigger] d.edge_has(e) implies m.is_live(e) by {
            assert(mid[j]->Some_0.edge_has(e));
        }
    }
}

/// A compacted weak-map arena holds exactly the live entities, each ready
/// to be swept (keys within the plan, values of surviving keys live).
proof fn lemma_ready_weak_maps(h0: &Heap, m: RelocMap, mid: Seq<Option<WeakMapHeapData>>)
    requires
        h0.wf(),
        m == live_mask(h0),
        mid.len() == count_true(m.weak_maps),
        forall|i: int|
            0 <= i < m.weak_maps.len() && m.weak_maps[i] ==> #[trigger] mid[live_below(
                m.weak_maps,
                i,
            )] == h0.weak_maps@[i],
    ensures
        forall|j: int| 0 <= j < mid.len() ==> (#[trigger] mid[j]) is Some,
        forall|j: int| 0 <= j < mid.len() ==> (#[trigger] mid[j])->Some_0.reloc_ok(m),
        forall|j: int, e: HeapRef|
            0 <= j < mid.len() && #[trigger] mid[j]->Some_0.edge_has(e) ==> m.is_live(e),
        forall|j: int, jj: int|
            0 <= j < mid.len() && 0 <= jj < mid[j]->Some_0.keys@.len() && keep_entry(
                m,
                #[trigger] mid[j]->Some_0.keys@[jj],
            ) ==> match value_ref(mid[j]->Some_0.values@[jj]) {
                Some(e) => m.is_live(e),
                None => true,
            },
{
    assert forall|j: int| 0 <= j < mid.len() implies (#[trigger] mid[j]) is Some && mid[j]
        ->Some_0.reloc_ok(m) && (forall|e: HeapRef|
        #[trigger] mid[j]->Some_0.edge_has(e) ==> m.is_live(e)) && (forall|jj: int|
        0 <= jj < mid[j]->Some_0.keys@.len() && keep_entry(
            m,
            #[trigger] mid[j]->Some_0.keys@[jj],
        ) ==> match value_ref(mid[j]->Some_0.values@[jj]) {
            Some(e) => m.is_live(e),
            None => true,
        }) by {
        crate::counts::lemma_rank_surjective(m.weak_maps, j);
        let i = choose|i: int|
            0 <= i < m.weak_maps.len() && m.weak_maps[i] && #[trigger] live_below(
                m.weak_maps,
                i,
            ) == j;
        assert(mid[live_below(m.weak_maps, i)] == h0.weak_maps@[i]);
        assert(live(h0, HeapRef::WeakMap(i as u32)));
        assert(h0.in_bounds(HeapRef::WeakMap(i as u32)));
        assert(h0.slot_full(HeapRef::WeakMap(i as u32)));
        let d = h0.weak_maps@[i]->Some_0;
        assert(d.keys@.len() == d.values@.len());
        assert forall|e: HeapRef| #[trigger] d.edge_has(e) implies m.is_live(e) by {
            assert(h0.has_edge(HeapRef::WeakMap(i as u32), e));
            crate::reachability::lemma_live_edge(h0, HeapRef::WeakMap(i as u32), e);
            lemma_live_mask_live(h0, e);
        }
        assert forall|jj: int|
            0 <= jj < d.keys@.len() implies match value_ref(#[trigger] d.keys@[jj]) {
            Some(e) => m.in_range(e),
            None => true,
        } by {
            assert(h0.value_in_bounds(d.keys@[jj]));
        }
        assert forall|jj: int|
            0 <= jj < d.keys@.len() && keep_entry(m, #[trigger] d.keys@[jj]) implies match
            value_ref(d.values@[jj]) {
            Some(e) => m.is_live(e),
            None => true,
        } by {
            match value_ref(d.values@[jj]) {
                Some(vr) => {
                    match value_ref(d.keys@[jj]) {
                        Some(kr) => {
                            assert(m.is_live(kr));
                            assert(live(h0, kr));
                        },
                        None => (),
                    }
                    crate::reachability::lemma_live_weak(h0, i as u32, jj, vr);
                    lemma_live_mask_live(h0, vr);
                },
                None => (),
            }
        }
        lemma_weak_data_ready(&d, m);
    }
}

/// A swept weak-map arena: every slot occupied, every live old weak map
/// present at its rank with its surviving entries relocated, and every
/// stored reference within the compacted bounds.
proof fn lemma_swept_weak_maps(
    h0: &Heap,
    m: RelocMap,
    mid: Seq<Option<WeakMapHeapData>>,
    fin: Seq<Option<WeakMapHeapData>>,
)
    requires
        h0.wf(),
        m == live_mask(h0),
        mid.len() == count_true(m.weak_maps),
        forall|i: int|
            0 <= i < m.weak_maps.len() && m.weak_maps[i] ==> #[trigger] mid[live_below(
                m.weak_maps,
                i,
            )] == h0.weak_maps@[i],
        fin.len() == mid.len(),
        forall|j: int| 0 <= j < mid.len() ==> #[trigger] mid[j].is_relocated(&fin[j], m),
    ensures
        forall|j: int| 0 <= j < fin.len() ==> (#[trigger] fin[j]) is Some,
        forall|i: u32|
            i < h0.weak_maps@.len() && #[trigger] live(h0, HeapRef::WeakMap(i))
                ==> fin[live_below(m.weak_maps, i as int)] is Some && h0.weak_maps@[i as int]
                ->Some_0.is_relocated(&fin[live_below(m.weak_maps, i as int)]->Some_0, m),
        forall|j: int, e2: HeapRef|
            0 <= j < fin.len() && #[trigger] fin[j]->Some_0.edge_has(e2) ==> shifted_in_bounds(
                m,
                e2,
            ),
        forall|j: int|
            0 <= j < fin.len() ==> (#[trigger] fin[j])->Some_0.keys@.len() == fin[j]
                ->Some_0.values@.len(),
        forall|j: int, jj: int|
            0 <= j < fin.len() && 0 <= jj < fin[j]->Some_0.keys@.len() ==> match value_ref(
                #[trigger] fin[j]->Some_0.keys@[jj],
            ) {
                Some(e) => shifted_in_bounds(m, e),
                None => true,
            } && match value_ref(fin[j]->Some_0.values@[jj]) {
                Some(e) => shifted_in_bounds(m, e),
                None => true,
            },
{
    lemma_ready_weak_maps(h0, m, mid);
    assert forall|j: int| 0 <= j < fin.len() implies (#[trigger] fin[j]) is Some by {
        assert(mid[j].is_relocated(&fin[j], m));
    }
    assert forall|i: u32|
        i < h0.weak_maps@.len() && #[trigger] live(h0, HeapRef::WeakMap(i)) implies fin[
        live_below(m.weak_maps, i as int)] is Some && h0.weak_maps@[i as int]
        ->Some_0.is_relocated(&fin[live_below(m.weak_maps, i as int)]->Some_0, m) by {
        assert(m.weak_maps[i as int]);
        lemma_rank_bound(m.weak_maps, i);
        let j = live_below(m.weak_maps, i as int);
        assert(mid[j] == h0.weak_maps@[i as int]);
        assert(mid[j].is_relocated(&fin[j], m));
    }
    assert forall|j: int|
        0 <= j < fin.len() implies ((#[trigger] fin[j])->Some_0.keys@.len() == fin[j]
        ->Some_0.values@.len() && (forall|e2: HeapRef|
        #[trigger] fin[j]->Some_0.edge_has(e2) ==> shifted_in_bounds(m, e2)) && (forall|
        jj: int|
        0 <= jj < fin[j]->Some_0.keys@.len() ==> match value_ref(
            #[trigger] fin[j]->Some_0.keys@[jj],
        ) {
            Some(e) => shifted_in_bounds(m, e),
            None => true,
        } && match value_ref(fin[j]->Some_0.values@[jj]) {
            Some(e) => shifted_in_bounds(m, e),
            None => true,
        })) by {
        assert(mid[j].is_relocated(&fin[j], m));
        let d = mid[j]->Some_0;
        let nd = fin[j]->Some_0;
        assert(d.is_relocated(&nd, m));
        assert forall|e: HeapRef| #[trigger] d.edge_has(e) implies m.is_live(e) by {
            assert(mid[j]->Some_0.edge_has(e));
        }
        assert(d.keys@.len() == d.values@.len());
        assert forall|jj: int|
            0 <= jj < d.keys@.len() && keep_entry(m, #[trigger] d.keys@[jj]) implies match
            value_ref(d.values@[jj]) {
            Some(e) => m.is_live(e),
            None => true,
        } by {
            assert(mid[j]->Some_0.keys@[jj] == d.keys@[jj]);
        }
        lemma_weak_data_swept(&d, &nd, m);
    }
}

impl Heap {
    /// Run one full collection: mark everything reachable from the root set
    /// (feeding weak-map entries whose keys prove reachable back into the
    /// marking), build the per-type compaction plans, compact every arena —
    /// exactly the live slots remain, densely packed from zero, in order —
    /// and rewrite every surviving reference and every root through the plan
    /// of the referenced type. An entity unreachable before the collection
    /// is gone; a reachable one sits at the rank of its old index among the
    /// live slots, its contents unchanged but for that same index
    /// translation.
    #[verifier::rlimit(100)]
    pub fn collect(&mut self)
        requires
            old(self).wf(),
        ensures
            final(self).wf(),
            final(self).objects@.len() == count_true(live_mask(old(self)).objects),
            final(self).arrays@.len() == count_true(live_mask(old(self)).arrays),
            final(self).maps@.len() == count_true(live_mask(old(self)).maps),
            final(self).weak_maps@.len() == count_true(live_mask(old(self)).weak_maps),
            final(self).modules@.len() == count_true(live_mask(old(self)).modules),
            final(self).strings@.len() == count_true(live_mask(old(self)).strings),
            final(self).elements.storage@.len() == count_true(live_mask(old(self)).elements),
            final(self).realms@.len() == count_true(live_mask(old(self)).realms),
            forall|i: u32|
                i < old(self).objects@.len() && #[trigger] live(old(self), HeapRef::Object(i))
                    ==> final(self).objects@[live_below(live_mask(old(self)).objects, i as int)]
                    is Some && old(self).objects@[i as int]->Some_0.is_relocated(
                    &final(self).objects@[live_below(live_mask(old(self)).objects, i as int)]->Some_0,
                    live_mask(old(self)),
                ),
            forall|i: u32|
                i < old(self).arrays@.len() && #[trigger] live(old(self), HeapRef::Array(i))
                    ==> final(self).arrays@[live_below(live_mask(old(self)).arrays, i as int)]
                    is Some && old(self).arrays@[i as int]->Some_0.is_relocated(
                    &final(self).arrays@[live_below(live_mask(old(self)).arrays, i as int)]->Some_0,
                    live_mask(old(self)),
                ),
            forall|i: u32|
                i < old(self).maps@.len() && #[trigger] live(old(self), HeapRef::JsMap(i))
                    ==> final(self).maps@[live_below(live_mask(old(self)).maps, i as int)]
                    is Some && old(self).maps@[i as int]->Some_0.is_relocated(
                    &final(self).maps@[live_below(live_mask(old(self)).maps, i as int)]->Some_0,
                    live_mask(old(self)),
                ),
            forall|i: u32|
                i < old(self).weak_maps@.len() && #[trigger] live(old(self), HeapRef::WeakMap(i))
                    ==> final(self).weak_maps@[live_below(live_mask(old(self)).weak_maps, i as int)]
                    is Some && old(self).weak_maps@[i as int]->Some_0.is_relocated(
                    &final(self).weak_maps@[live_below(live_mask(old(self)).weak_maps, i as int)]->Some_0,
                    live_mask(old(self)),
                ),
            forall|i: u32|
                i < old(self).modules@.len() && #[trigger] live(old(self), HeapRef::Module(i))
                    ==> final(self).modules@[live_below(live_mask(old(self)).modules, i as int)]
                    is Some && old(self).modules@[i as int]->Some_0.is_relocated(
                    &final(self).modules@[live_below(live_mask(old(self)).modules, i as int)]->Some_0,
                    live_mask(old(self)),
                ),
            forall|i: u32|
                i < old(self).strings@.len() && #[trigger] live(old(self), HeapRef::Str(i))
                    ==> final(self).strings@[live_below(live_mask(old(self)).strings, i as int)]
                    is Some && old(self).strings@[i as int]->Some_0.is_relocated(
                    &final(self).strings@[live_below(live_mask(old(self)).strings, i as int)]->Some_0,
                    live_mask(old(self)),
                ),
            forall|i: u32|
                i < old(self).elements.storage@.len() && #[trigger] live(old(self), HeapRef::Elems(i))
                    ==> final(self).elements.storage@[live_below(live_mask(old(self)).elements, i as int)]
                    is Some && old(self).elements.storage@[i as int]->Some_0.is_relocated(
                    &final(self).elements.storage@[live_below(live_mask(old(self)).elements, i as int)]->Some_0,
                    live_mask(old(self)),
                ),
            forall|i: u32|
                i < old(self).realms@.len() && #[trigger] live(old(self), HeapRef::Realm(i))
                    ==> final(self).realms@[live_below(live_mask(old(self)).realms, i as int)]
                    is Some && old(self).realms@[i as int]->Some_0.is_relocated(
                    &final(self).realms@[live_below(live_mask(old(self)).realms, i as int)]->Some_0,
                    live_mask(old(self)),
                ),
            final(self).roots@.len() == old(self).roots@.len(),
            forall|i: int|
                0 <= i < old(self).roots@.len() ==> #[trigger] final(self).roots@[i] == (
                match old(self).roots@[i] {
                    Some(v) => Some(shift_value(live_mask(old(self)), v)),
                    None => None,
                }),
    {
        let ghost h0 = *old(self);
        let ghost m = live_mask(old(self));
        let bits = crate::mark::mark(self);
        let c = CompactionLists {
            objects: CompactionList::build(&bits.objects),
            arrays: CompactionList::build(&bits.arrays),
            maps: CompactionList::build(&bits.maps),
            weak_maps: CompactionList::build(&bits.weak_maps),
            modules: CompactionList::build(&bits.modules),
            strings: CompactionList::build(&bits.strings),
            elements: CompactionList::build(&bits.elements),
            realms: CompactionList::build(&bits.realms),
        };
        proof {
            assert forall|i: int| 0 <= i < m.objects.len() implies bits.objects@[i] == m.objects[i] by {
                assert(bits.marked(HeapRef::Object(i as u32)) == live(&h0, HeapRef::Object(i as u32)));
            }
            assert(c.reloc_map().objects =~= m.objects);
            assert forall|i: int| 0 <= i < m.arrays.len() implies bits.arrays@[i] == m.arrays[i] by {
                assert(bits.marked(HeapRef::Array(i as u32)) == live(&h0, HeapRef::Array(i as u32)));
            }
            assert(c.reloc_map().arrays =~= m.arrays);
            assert forall|i: int| 0 <= i < m.maps.len() implies bits.maps@[i] == m.maps[i] by {
                assert(bits.marked(HeapRef::JsMap(i as u32)) == live(&h0, HeapRef::JsMap(i as u32)));
            }
            assert(c.reloc_map().maps =~= m.maps);
            assert forall|i: int| 0 <= i < m.weak_maps.len() implies bits.weak_maps@[i] == m.weak_maps[i] by {
                assert(bits.marked(HeapRef::WeakMap(i as u32)) == live(&h0, HeapRef::WeakMap(i as u32)));
            }
            assert(c.reloc_map().weak_maps =~= m.weak_maps);
            assert forall|i: int| 0 <= i < m.modules.len() implies bits.modules@[i] == m.modules[i] by {
                assert(bits.marked(HeapRef::Module(i as u32)) == live(&h0, HeapRef::Module(i as u32)));
            }
            assert(c.reloc_map().modules =~= m.modules);
            assert forall|i: int| 0 <= i < m.strings.len() implies bits.strings@[i] == m.strings[i] by {
                assert(bits.marked(HeapRef::Str(i as u32)) == live(&h0, HeapRef::Str(i as u32)));
            }
            assert(c.reloc_map().strings =~= m.strings);
            assert forall|i: int| 0 <= i < m.elements.len() implies bits.elements@[i] == m.elements[i] by {
                assert(bits.marked(HeapRef::Elems(i as u32)) == live(&h0, HeapRef::Elems(i as u32)));
            }
            assert(c.reloc_map().elements =~= m.elements);
            assert forall|i: int| 0 <= i < m.realms.len() implies bits.realms@[i] == m.realms[i] by {
                assert(bits.marked(HeapRef::Realm(i as u32)) == live(&h0, HeapRef::Realm(i as u32)));
            }
            assert(c.reloc_map().realms =~= m.realms);
            assert(c.reloc_map() =~= m);
            assert(c.reloc_map() == m);
        }
        compact_arena(&mut self.objects, &c.objects);
        compact_arena(&mut self.arrays, &c.arrays);
        compact_arena(&mut self.maps, &c.maps);
        compact_arena(&mut self.weak_maps, &c.weak_maps);
        compact_arena(&mut self.modules, &c.modules);
        compact_arena(&mut self.strings, &c.strings);
        compact_arena(&mut self.elements.storage, &c.elements);
        compact_arena(&mut self.realms, &c.realms);
        let ghost mid_objects = self.objects@;
        let ghost mid_arrays = self.arrays@;
        let ghost mid_maps = self.maps@;
        let ghost mid_weak_maps = self.weak_maps@;
        let ghost mid_modules = self.modules@;
        let ghost mid_strings = self.strings@;
        let ghost mid_elements = self.elements.storage@;
        let ghost mid_realms = self.realms@;
        proof {
            lemma_ready_objects(&h0, m, mid_objects);
            lemma_ready_arrays(&h0, m, mid_arrays);
            lemma_ready_maps(&h0, m, mid_maps);
            lemma_ready_weak_maps(&h0, m, mid_weak_maps);
            lemma_ready_modules(&h0, m, mid_modules);
            lemma_ready_strings(&h0, m, mid_strings);
            lemma_ready_elements(&h0, m, mid_elements);
            lemma_ready_realms(&h0, m, mid_realms);
            assert forall|i: int|
                0 <= i < self.roots@.len() implies #[trigger] self.roots@[i].reloc_ok(
                c.reloc_map(),
            ) by {
                match self.roots@[i] {
                    Some(v) => {
                        match value_ref(v) {
                            Some(e) => {
                                assert(crate::reachability::is_root_ref(&h0, e));
                                crate::reachability::lemma_live_root(&h0, e);
                                lemma_live_mask_live(&h0, e);
                            },
                            None => (),
                        }
                        lemma_opt_value_facts(m, self.roots@[i]);
                    },
                    None => (),
                }
            }
        }
        let ghost mid_roots = self.roots@;
        self.objects.sweep_values(&c);
        self.arrays.sweep_values(&c);
        self.maps.sweep_values(&c);
        self.weak_maps.sweep_values(&c);
        self.modules.sweep_values(&c);
        self.strings.sweep_values(&c);
        self.elements.storage.sweep_values(&c);
        self.realms.sweep_values(&c);
        self.roots.sweep_values(&c);
        proof {
            lemma_swept_objects(&h0, m, mid_objects, self.objects@);
            lemma_swept_arrays(&h0, m, mid_arrays, self.arrays@);
            lemma_swept_maps(&h0, m, mid_maps, self.maps@);
            lemma_swept_weak_maps(&h0, m, mid_weak_maps, self.weak_maps@);
            lemma_swept_modules(&h0, m, mid_modules, self.modules@);
            lemma_swept_strings(&h0, m, mid_strings, self.strings@);
            lemma_swept_elements(&h0, m, mid_elements, self.elements.storage@);
            lemma_swept_realms(&h0, m, mid_realms, self.realms@);
            crate::counts::lemma_count_true_bounds(m.objects);
            crate::counts::lemma_count_true_bounds(m.arrays);
            crate::counts::lemma_count_true_bounds(m.maps);
            crate::counts::lemma_count_true_bounds(m.weak_maps);
            crate::counts::lemma_count_true_bounds(m.modules);
            crate::counts::lemma_count_true_bounds(m.strings);
            crate::counts::lemma_count_true_bounds(m.elements);
            crate::counts::lemma_count_true_bounds(m.realms);
            assert forall|i: int|
                0 <= i < h0.roots@.len() implies #[trigger] self.roots@[i] == (
                match h0.roots@[i] {
                    Some(v) => Some(shift_value(m, v)),
                    None => None,
                }) by {
                assert(mid_roots[i].is_relocated(&self.roots@[i], m));
            }
            assert forall|r: HeapRef| self.in_bounds(r) implies #[trigger] self.slot_full(
                r,
            ) by {
                match r {
                    HeapRef::Object(i) => assert(self.objects@[i as int] is Some),
                    HeapRef::Array(i) => assert(self.arrays@[i as int] is Some),
                    HeapRef::JsMap(i) => assert(self.maps@[i as int] is Some),
                    HeapRef::WeakMap(i) => assert(self.weak_maps@[i as int] is Some),
                    HeapRef::Module(i) => assert(self.modules@[i as int] is Some),
                    HeapRef::Str(i) => assert(self.strings@[i as int] is Some),
                    HeapRef::Elems(i) => assert(self.elements.storage@[i as int] is Some),
                    HeapRef::Realm(i) => assert(self.realms@[i as int] is Some),
                }
            }
            assert forall|r: HeapRef, e2: HeapRef| #[trigger] self.has_edge(r, e2) implies self
                .in_bounds(e2) by {
                match r {
                    HeapRef::Object(i) => {
                        assert(self.objects@[i as int]->Some_0.edge_has(e2));
                    },
                    HeapRef::Array(i) => {
                        assert(self.arrays@[i as int]->Some_0.edge_has(e2));
                    },
                    HeapRef::JsMap(i) => {
                        assert(self.maps@[i as int]->Some_0.edge_has(e2));
                    },
                    HeapRef::WeakMap(i) => {
                        assert(self.weak_maps@[i as int]->Some_0.edge_has(e2));
                    },
                    HeapRef::Module(i) => {
                        assert(self.modules@[i as int]->Some_0.edge_has(e2));
                    },
                    HeapRef::Str(i) => {
                        assert(self.strings@[i as int]->Some_0.edge_has(e2));
                    },
                    HeapRef::Elems(i) => {
                        assert(self.elements.storage@[i as int]->Some_0.edge_has(e2));
                    },
                    HeapRef::Realm(i) => {
                        assert(self.realms@[i as int]->Some_0.edge_has(e2));
                    },
                }
                assert(shifted_in_bounds(m, e2));
            }
            assert forall|i: int|
                0 <= i < self.arrays@.len() && self.arrays@[i] is Some implies #[trigger] self
                .arrays@[i]->Some_0.elements.wf(&self.elements) by {
                crate::counts::lemma_rank_surjective(m.arrays, i);
                let i0 = choose|i0: int|
                    0 <= i0 < m.arrays.len() && m.arrays[i0] && #[trigger] live_below(
                        m.arrays,
                        i0,
                    ) == i;
                assert(mid_arrays[i] == h0.arrays@[i0]);
                let d = h0.arrays@[i0]->Some_0;
                let nd = self.arrays@[i]->Some_0;
                assert(mid_arrays[i].is_relocated(&self.arrays@[i], m));
                assert(d.is_relocated(&nd, m));
                assert(h0.slot_full(HeapRef::Array(i0 as u32)));
                assert(d.elements.wf(&h0.elements));
                if d.elements.cap != ElementArrayKey::Empty {
                    let ei = d.elements.elements_index.0;
                    assert(d.edge_has(HeapRef::Elems(ei)));
                    assert(mid_arrays[i]->Some_0.edge_has(HeapRef::Elems(ei)));
                    assert(m.is_live(HeapRef::Elems(ei)));
                    assert(live(&h0, HeapRef::Elems(ei)));
                    lemma_rank_bound(m.elements, ei);
                    let ej = live_below(m.elements, ei as int);
                    assert(self.elements.storage@[ej] is Some && h0.elements.storage@[
                        ei as int]->Some_0.is_relocated(
                        &self.elements.storage@[ej]->Some_0,
                        m,
                    ));
                    let ob = h0.elements.storage@[ei as int]->Some_0;
                    let nb = self.elements.storage@[ej]->Some_0;
                    assert(nb.values@.len() == ob.values@.len());
                    assert(nb.descriptors@.len() == ob.descriptors@.len());
                    assert forall|p: int|
                        nd.elements.len <= p < nd.elements.cap.spec_cap() implies nb.values@[p]
                        is None && nb.descriptors@[p] is None by {
                        assert(ob.values@[p] is None);
                        assert(ob.descriptors@[p] is None);
                        assert(ob.values@[p].is_relocated(&nb.values@[p], m));
                        assert(ob.descriptors@[p].is_relocated(&nb.descriptors@[p], m));
                    }
                }
            }
            assert forall|i: int|
                0 <= i < self.weak_maps@.len() && self.weak_maps@[i] is Some implies {
                let d = #[trigger] self.weak_maps@[i]->Some_0;
                &&& d.keys@.len() == d.values@.len()
                &&& forall|j: int|
                    0 <= j < d.keys@.len() ==> self.value_in_bounds(#[trigger] d.keys@[j])
                        && self.value_in_bounds(d.values@[j])
            } by {
                let d = self.weak_maps@[i]->Some_0;
                assert forall|j: int|
                    0 <= j < d.keys@.len() implies self.value_in_bounds(#[trigger] d.keys@[j])
                    && self.value_in_bounds(d.values@[j]) by {
                    assert(match value_ref(self.weak_maps@[i]->Some_0.keys@[j]) {
                        Some(e) => shifted_in_bounds(m, e),
                        None => true,
                    });
                    assert(match value_ref(self.weak_maps@[i]->Some_0.values@[j]) {
                        Some(e) => shifted_in_bounds(m, e),
                        None => true,
                    });
                }
            }
            assert forall|i: int|
                0 <= i < self.roots@.len() implies match crate::value::opt_value_ref(
                #[trigger] self.roots@[i],
            ) {
                Some(r) => self.in_bounds(r),
                None => true,
            } by {
                match h0.roots@[i] {
                    Some(v) => {
                        match value_ref(v) {
                            Some(e) => {
                                assert(crate::reachability::is_root_ref(&h0, e));
                                crate::reachability::lemma_live_root(&h0, e);
                                lemma_live_mask_live(&h0, e);
                                lemma_value_facts(m, v);
                                assert(self.roots@[i] == Some(shift_value(m, v)));
                            },
                            None => (),
                        }
                    },
                    None => (),
                }
            }
        }
    }
}

} // verus!
