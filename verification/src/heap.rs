//! The heap: aggregate owner of all arenas, the sole place new entities are
//! created, and the sole target of collection.
//!
//! Each arena is an ordered sequence of optional slots; a slot is vacant
//! only transiently, between a collection's dead-slot discovery and its
//! compaction pass. Allocation appends and returns the fresh typed index;
//! nothing else moves a slot, so an index stays valid until a collection
//! compacts its arena.
//!
//! The rooting discipline: every access goes through a typed index at the
//! call site (index-then-mutate), so a reference obtained from the heap
//! never outlives the borrow that produced it — the borrow checker is the
//! static boundary that elsewhere needs explicit non-allocating regions. A
//! value needed across a collection is registered with `root`, which keeps
//! it alive and resolvable (relocated as needed) until `unroot`.

use vstd::prelude::*;
use crate::array_data::ArrayHeapData;
use crate::elements::ElementArrays;
use crate::gc::HeapMarkAndSweep;
use crate::indexes::{
    ArrayIndex, HeapRef, MapIndex, ModuleIndex, ObjectIndex, RealmIndex, StringIndex,
    WeakMapIndex,
};
use crate::js_map::{JsMap, MapHeapData};
use crate::module_data::ModuleHeapData;
use crate::object_data::ObjectHeapData;
use crate::realm_data::RealmHeapData;
use crate::string_data::StringHeapData;
use crate::value::{opt_value_ref, value_ref, Value};
use crate::weak_map::{WeakMap, WeakMapHeapData};

verus! {

/// A registration in the root set: the entity it names survives every
/// collection until the handle is released. Releasing is explicit; a handle
/// never released retains its value forever.
#[derive(Debug, Clone, Copy, PartialEq, Eq, Structural, Hash)]
pub struct RootHandle(pub u32);

/// The aggregate owner of all arenas and of the root set.
#[derive(Debug)]
pub struct Heap {
    pub objects: Vec<Option<ObjectHeapData>>,
    pub arrays: Vec<Option<ArrayHeapData>>,
    pub maps: Vec<Option<MapHeapData>>,
    pub weak_maps: Vec<Option<WeakMapHeapData>>,
    pub modules: Vec<Option<ModuleHeapData>>,
    pub strings: Vec<Option<StringHeapData>>,
    pub elements: ElementArrays,
    pub realms: Vec<Option<RealmHeapData>>,
    pub roots: Vec<Option<Value>>,
}

impl Heap {
    /// The reference names a slot within its arena's bounds.
    pub open spec fn in_bounds(&self, r: HeapRef) -> bool {
        match r {
            HeapRef::Object(i) => i < self.objects@.len(),
            HeapRef::Array(i) => i < self.arrays@.len(),
            HeapRef::JsMap(i) => i < self.maps@.len(),
            HeapRef::WeakMap(i) => i < self.weak_maps@.len(),
            HeapRef::Module(i) => i < self.modules@.len(),
            HeapRef::Str(i) => i < self.strings@.len(),
            HeapRef::Elems(i) => i < self.elements.storage@.len(),
            HeapRef::Realm(i) => i < self.realms@.len(),
        }
    }

    /// The reference names an occupied slot.
    pub open spec fn slot_full(&self, r: HeapRef) -> bool {
        self.in_bounds(r) && match r {
            HeapRef::Object(i) => self.objects@[i as int] is Some,
            HeapRef::Array(i) => self.arrays@[i as int] is Some,
            HeapRef::JsMap(i) => self.maps@[i as int] is Some,
            HeapRef::WeakMap(i) => self.weak_maps@[i as int] is Some,
            HeapRef::Module(i) => self.modules@[i as int] is Some,
            HeapRef::Str(i) => self.strings@[i as int] is Some,
            HeapRef::Elems(i) => self.elements.storage@[i as int] is Some,
            HeapRef::Realm(i) => self.realms@[i as int] is Some,
        }
    }

    /// The entity at `r` keeps `r2` alive: the strong-edge relation of the
    /// reference graph. A weak map contributes only its backing object here.
    pub open spec fn has_edge(&self, r: HeapRef, r2: HeapRef) -> bool {
        self.slot_full(r) && match r {
            HeapRef::Object(i) => self.objects@[i as int]->Some_0.edge_has(r2),
            HeapRef::Array(i) => self.arrays@[i as int]->Some_0.edge_has(r2),
            HeapRef::JsMap(i) => self.maps@[i as int]->Some_0.edge_has(r2),
            HeapRef::WeakMap(i) => self.weak_maps@[i as int]->Some_0.edge_has(r2),
            HeapRef::Module(i) => self.modules@[i as int]->Some_0.edge_has(r2),
            HeapRef::Str(i) => self.strings@[i as int]->Some_0.edge_has(r2),
            HeapRef::Elems(i) => self.elements.storage@[i as int]->Some_0.edge_has(r2),
            HeapRef::Realm(i) => self.realms@[i as int]->Some_0.edge_has(r2),
        }
    }

    /// The value's referent, if any, is within bounds.
    pub open spec fn value_in_bounds(&self, v: Value) -> bool {
        match value_ref(v) {
            Some(r) => self.in_bounds(r),
            None => true,
        }
    }

    /// Typed indices fit in `u32`.
    pub open spec fn arenas_bounded(&self) -> bool {
        &&& self.objects@.len() <= u32::MAX
        &&& self.arrays@.len() <= u32::MAX
        &&& self.maps@.len() <= u32::MAX
        &&& self.weak_maps@.len() <= u32::MAX
        &&& self.modules@.len() <= u32::MAX
        &&& self.strings@.len() <= u32::MAX
        &&& self.elements.storage@.len() <= u32::MAX
        &&& self.realms@.len() <= u32::MAX
        &&& self.roots@.len() <= u32::MAX
    }

    /// Outside a collection no arena has holes.
    pub open spec fn no_holes(&self) -> bool {
        forall|r: HeapRef| self.in_bounds(r) ==> #[trigger] self.slot_full(r)
    }

    /// Every stored strong edge stays within bounds.
    pub open spec fn edges_bounded(&self) -> bool {
        forall|r: HeapRef, r2: HeapRef| #[trigger] self.has_edge(r, r2) ==> self.in_bounds(r2)
    }

    /// Every array's elements vector is consistent with the element arena.
    pub open spec fn arrays_wf(&self) -> bool {
        forall|i: int|
            0 <= i < self.arrays@.len() && self.arrays@[i] is Some
                ==> #[trigger] self.arrays@[i]->Some_0.elements.wf(&self.elements)
    }

    /// Every weak map pairs its keys with its values, and their referents
    /// stay within bounds (they are not strong edges, so `edges_bounded`
    /// does not cover them).
    pub open spec fn weak_maps_wf(&self) -> bool {
        forall|i: int|
            0 <= i < self.weak_maps@.len() && self.weak_maps@[i] is Some ==> {
                let d = #[trigger] self.weak_maps@[i]->Some_0;
                &&& d.keys@.len() == d.values@.len()
                &&& forall|j: int|
                    0 <= j < d.keys@.len() ==> self.value_in_bounds(#[trigger] d.keys@[j])
                        && self.value_in_bounds(d.values@[j])
            }
    }

    /// Every root's referent stays within bounds.
    pub open spec fn roots_wf(&self) -> bool {
        forall|i: int|
            0 <= i < self.roots@.len() ==> match opt_value_ref(#[trigger] self.roots@[i]) {
                Some(r) => self.in_bounds(r),
                None => true,
            }
    }

    /// The heap's invariant between collections.
    pub open spec fn wf(&self) -> bool {
        &&& self.arenas_bounded()
        &&& self.no_holes()
        &&& self.edges_bounded()
        &&& self.arrays_wf()
        &&& self.weak_maps_wf()
        &&& self.roots_wf()
    }

    /// Every strong edge of the candidate entity stays within bounds.
    pub open spec fn data_refs_ok<T: HeapMarkAndSweep>(&self, data: &T) -> bool {
        forall|r: HeapRef| #[trigger] data.edge_has(r) ==> self.in_bounds(r)
    }

    /// All arenas of the other heap have the same lengths.
    pub open spec fn same_arena_lens(&self, other: &Heap) -> bool {
        &&& self.objects@.len() == other.objects@.len()
        &&& self.arrays@.len() == other.arrays@.len()
        &&& self.maps@.len() == other.maps@.len()
        &&& self.weak_maps@.len() == other.weak_maps@.len()
        &&& self.modules@.len() == other.modules@.len()
        &&& self.strings@.len() == other.strings@.len()
        &&& self.elements.storage@.len() == other.elements.storage@.len()
        &&& self.realms@.len() == other.realms@.len()
    }

    /// Create one object entity: append to its arena and return the
    /// fresh typed index. Nothing else in the heap moves.
    pub fn create_object(&mut self, data: ObjectHeapData) -> (idx: ObjectIndex)
        requires
            old(self).wf(),
            old(self).data_refs_ok(&data),
            old(self).objects@.len() < u32::MAX,
        ensures
            final(self).wf(),
            idx.0 == old(self).objects@.len(),
            final(self).slot_full(HeapRef::Object(idx.0)),
            final(self).objects@ == old(self).objects@.push(Some(data)),
            forall|i: int|
                0 <= i < old(self).objects@.len() ==> final(self).objects@[i] == old(self).objects@[i],
            final(self).arrays@ == old(self).arrays@,
            final(self).maps@ == old(self).maps@,
            final(self).weak_maps@ == old(self).weak_maps@,
            final(self).modules@ == old(self).modules@,
            final(self).strings@ == old(self).strings@,
            final(self).realms@ == old(self).realms@,
            final(self).elements.storage@ == old(self).elements.storage@,
            final(self).roots@ == old(self).roots@,
    {
        let i = self.objects.len() as u32;
        let idx = ObjectIndex(i);
        self.objects.push(Some(data));
        proof {
            lemma_wf_grow(old(self), self);
        }
        idx
    }

    /// Create one array entity: append to its arena and return the
    /// fresh typed index. Nothing else in the heap moves. The array's elements vector must already be consistent
    /// with the element arena.
    pub fn create_array(&mut self, data: ArrayHeapData) -> (idx: ArrayIndex)
        requires
            old(self).wf(),
            old(self).data_refs_ok(&data),
            data.elements.wf(&old(self).elements),
            old(self).arrays@.len() < u32::MAX,
        ensures
            final(self).wf(),
            idx.0 == old(self).arrays@.len(),
            final(self).slot_full(HeapRef::Array(idx.0)),
            final(self).arrays@ == old(self).arrays@.push(Some(data)),
            forall|i: int|
                0 <= i < old(self).arrays@.len() ==> final(self).arrays@[i] == old(self).arrays@[i],
            final(self).objects@ == old(self).objects@,
            final(self).maps@ == old(self).maps@,
            final(self).weak_maps@ == old(self).weak_maps@,
            final(self).modules@ == old(self).modules@,
            final(self).strings@ == old(self).strings@,
            final(self).realms@ == old(self).realms@,
            final(self).elements.storage@ == old(self).elements.storage@,
            final(self).roots@ == old(self).roots@,
    {
        let i = self.arrays.len() as u32;
        let idx = ArrayIndex(i);
        self.arrays.push(Some(data));
        proof {
            lemma_wf_grow(old(self), self);
        }
        idx
    }

    /// Create one map entity: append to its arena and return the
    /// fresh typed index. Nothing else in the heap moves.
    pub fn create_map(&mut self, data: MapHeapData) -> (idx: JsMap)
        requires
            old(self).wf(),
            old(self).data_refs_ok(&data),
            old(self).maps@.len() < u32::MAX,
        ensures
            final(self).wf(),
            idx.0.0 == old(self).maps@.len(),
            final(self).slot_full(HeapRef::JsMap(idx.0.0)),
            final(self).maps@ == old(self).maps@.push(Some(data)),
            forall|i: int|
                0 <= i < old(self).maps@.len() ==> final(self).maps@[i] == old(self).maps@[i],
            final(self).objects@ == old(self).objects@,
            final(self).arrays@ == old(self).arrays@,
            final(self).weak_maps@ == old(self).weak_maps@,
            final(self).modules@ == old(self).modules@,
            final(self).strings@ == old(self).strings@,
            final(self).realms@ == old(self).realms@,
            final(self).elements.storage@ == old(self).elements.storage@,
            final(self).roots@ == old(self).roots@,
    {
        let i = self.maps.len() as u32;
        let idx = JsMap(MapIndex(i));
        self.maps.push(Some(data));
        proof {
            lemma_wf_grow(old(self), self);
        }
        idx
    }

    /// Create one weak map entity: append to its arena and return the
    /// fresh typed index. Nothing else in the heap moves. Keys pair with values; their referents must be in bounds.
    pub fn create_weak_map(&mut self, data: WeakMapHeapData) -> (idx: WeakMap)
        requires
            old(self).wf(),
            old(self).data_refs_ok(&data),
            data.keys@.len() == data.values@.len(),
            forall|j: int|
                0 <= j < data.keys@.len() ==> old(self).value_in_bounds(
                    #[trigger] data.keys@[j],
                ) && old(self).value_in_bounds(data.values@[j]),
            old(self).weak_maps@.len() < u32::MAX,
        ensures
            final(self).wf(),
            idx.0.0 == old(self).weak_maps@.len(),
            final(self).slot_full(HeapRef::WeakMap(idx.0.0)),
            final(self).weak_maps@ == old(self).weak_maps@.push(Some(data)),
            forall|i: int|
                0 <= i < old(self).weak_maps@.len() ==> final(self).weak_maps@[i] == old(self).weak_maps@[i],
            final(self).objects@ == old(self).objects@,
            final(self).arrays@ == old(self).arrays@,
            final(self).maps@ == old(self).maps@,
            final(self).modules@ == old(self).modules@,
            final(self).strings@ == old(self).strings@,
            final(self).realms@ == old(self).realms@,
            final(self).elements.storage@ == old(self).elements.storage@,
            final(self).roots@ == old(self).roots@,
    {
        let i = self.weak_maps.len() as u32;
        let idx = WeakMap(WeakMapIndex(i));
        self.weak_maps.push(Some(data));
        proof {
            lemma_wf_grow(old(self), self);
        }
        idx
    }

    /// Create one module entity: append to its arena and return the
    /// fresh typed index. Nothing else in the heap moves.
    pub fn create_module(&mut self, data: ModuleHeapData) -> (idx: ModuleIndex)
        requires
            old(self).wf(),
            old(self).data_refs_ok(&data),
            old(self).modules@.len() < u32::MAX,
        ensures
            final(self).wf(),
            idx.0 == old(self).modules@.len(),
            final(self).slot_full(HeapRef::Module(idx.0)),
            final(self).modules@ == old(self).modules@.push(Some(data)),
            forall|i: int|
                0 <= i < old(self).modules@.len() ==> final(self).modules@[i] == old(self).modules@[i],
            final(self).objects@ == old(self).objects@,
            final(self).arrays@ == old(self).arrays@,
            final(self).maps@ == old(self).maps@,
            final(self).weak_maps@ == old(self).weak_maps@,
            final(self).strings@ == old(self).strings@,
            final(self).realms@ == old(self).realms@,
            final(self).elements.storage@ == old(self).elements.storage@,
            final(self).roots@ == old(self).roots@,
    {
        let i = self.modules.len() as u32;
        let idx = ModuleIndex(i);
        self.modules.push(Some(data));
        proof {
            lemma_wf_grow(old(self), self);
        }
        idx
    }

    /// Create one string entity: append to its arena and return the
    /// fresh typed index. Nothing else in the heap moves.
    pub fn create_string(&mut self, data: StringHeapData) -> (idx: StringIndex)
        requires
            old(self).wf(),
            old(self).data_refs_ok(&data),
            old(self).strings@.len() < u32::MAX,
        ensures
            final(self).wf(),
            idx.0 == old(self).strings@.len(),
            final(self).slot_full(HeapRef::Str(idx.0)),
            final(self).strings@ == old(self).strings@.push(Some(data)),
            forall|i: int|
                0 <= i < old(self).strings@.len() ==> final(self).strings@[i] == old(self).strings@[i],
            final(self).objects@ == old(self).objects@,
            final(self).arrays@ == old(self).arrays@,
            final(self).maps@ == old(self).maps@,
            final(self).weak_maps@ == old(self).weak_maps@,
            final(self).modules@ == old(self).modules@,
            final(self).realms@ == old(self).realms@,
            final(self).elements.storage@ == old(self).elements.storage@,
            final(self).roots@ == old(self).roots@,
    {
        let i = self.strings.len() as u32;
        let idx = StringIndex(i);
        self.strings.push(Some(data));
        proof {
            lemma_wf_grow(old(self), self);
        }
        idx
    }

    /// Create one realm entity: append to its arena and return the
    /// fresh typed index. Nothing else in the heap moves.
    pub fn create_realm(&mut self, data: RealmHeapData) -> (idx: RealmIndex)
        requires
            old(self).wf(),
            old(self).data_refs_ok(&data),
            old(self).realms@.len() < u32::MAX,
        ensures
            final(self).wf(),
            idx.0 == old(self).realms@.len(),
            final(self).slot_full(HeapRef::Realm(idx.0)),
            final(self).realms@ == old(self).realms@.push(Some(data)),
            forall|i: int|
                0 <= i < old(self).realms@.len() ==> final(self).realms@[i] == old(self).realms@[i],
            final(self).objects@ == old(self).objects@,
            final(self).arrays@ == old(self).arrays@,
            final(self).maps@ == old(self).maps@,
            final(self).weak_maps@ == old(self).weak_maps@,
            final(self).modules@ == old(self).modules@,
            final(self).strings@ == old(self).strings@,
            final(self).elements.storage@ == old(self).elements.storage@,
            final(self).roots@ == old(self).roots@,
    {
        let i = self.realms.len() as u32;
        let idx = RealmIndex(i);
        self.realms.push(Some(data));
        proof {
            lemma_wf_grow(old(self), self);
        }
        idx
    }

    /// Resolve a typed index to the entity it names. A stale or vacant
    /// index is a contract violation of the caller, not a recoverable
    /// condition.
    pub fn get_object(&self, idx: ObjectIndex) -> (r: &ObjectHeapData)
        requires
            self.slot_full(HeapRef::Object(idx.0)),
        ensures
            *r == self.objects@[idx.0 as int]->Some_0,
    {
        self.objects[idx.0 as usize].as_ref().unwrap()
    }

    /// Resolve a typed index to the entity it names. A stale or vacant
    /// index is a contract violation of the caller, not a recoverable
    /// condition.
    pub fn get_array(&self, idx: ArrayIndex) -> (r: &ArrayHeapData)
        requires
            self.slot_full(HeapRef::Array(idx.0)),
        ensures
            *r == self.arrays@[idx.0 as int]->Some_0,
    {
        self.arrays[idx.0 as usize].as_ref().unwrap()
    }

    /// Resolve a typed index to the entity it names. A stale or vacant
    /// index is a contract violation of the caller, not a recoverable
    /// condition.
    pub fn get_map(&self, m: JsMap) -> (r: &MapHeapData)
        requires
            self.slot_full(HeapRef::JsMap(m.0.0)),
        ensures
            *r == self.maps@[m.0.0 as int]->Some_0,
    {
        self.maps[m.0.0 as usize].as_ref().unwrap()
    }

    /// Resolve a typed index to the entity it names. A stale or vacant
    /// index is a contract violation of the caller, not a recoverable
    /// condition.
    pub fn get_weak_map(&self, w: WeakMap) -> (r: &WeakMapHeapData)
        requires
            self.slot_full(HeapRef::WeakMap(w.0.0)),
        ensures
            *r == self.weak_maps@[w.0.0 as int]->Some_0,
    {
        self.weak_maps[w.0.0 as usize].as_ref().unwrap()
    }

    /// Resolve a typed index to the entity it names. A stale or vacant
    /// index is a contract violation of the caller, not a recoverable
    /// condition.
    pub fn get_module(&self, idx: ModuleIndex) -> (r: &ModuleHeapData)
        requires
            self.slot_full(HeapRef::Module(idx.0)),
        ensures
            *r == self.modules@[idx.0 as int]->Some_0,
    {
        self.modules[idx.0 as usize].as_ref().unwrap()
    }

    /// Resolve a typed index to the entity it names. A stale or vacant
    /// index is a contract violation of the caller, not a recoverable
    /// condition.
    pub fn get_string(&self, idx: StringIndex) -> (r: &StringHeapData)
        requires
            self.slot_full(HeapRef::Str(idx.0)),
        ensures
            *r == self.strings@[idx.0 as int]->Some_0,
    {
        self.strings[idx.0 as usize].as_ref().unwrap()
    }

    /// Resolve a typed index to the entity it names. A stale or vacant
    /// index is a contract violation of the caller, not a recoverable
    /// condition.
    pub fn get_realm(&self, idx: RealmIndex) -> (r: &RealmHeapData)
        requires
            self.slot_full(HeapRef::Realm(idx.0)),
        ensures
            *r == self.realms@[idx.0 as int]->Some_0,
    {
        self.realms[idx.0 as usize].as_ref().unwrap()
    }

    /// Replace the entity behind an occupied slot; the index-then-mutate
    /// pattern for entities too large to edit through a reference.
    pub fn set_object(&mut self, idx: ObjectIndex, data: ObjectHeapData)
        requires
            old(self).wf(),
            old(self).slot_full(HeapRef::Object(idx.0)),
            old(self).data_refs_ok(&data),
        ensures
            final(self).wf(),
            final(self).objects@ == old(self).objects@.update(idx.0 as int, Some(data)),
            final(self).arrays@ == old(self).arrays@,
            final(self).maps@ == old(self).maps@,
            final(self).weak_maps@ == old(self).weak_maps@,
            final(self).modules@ == old(self).modules@,
            final(self).strings@ == old(self).strings@,
            final(self).realms@ == old(self).realms@,
            final(self).elements.storage@ == old(self).elements.storage@,
            final(self).roots@ == old(self).roots@,
    {
        self.objects.set(idx.0 as usize, Some(data));
        proof {
            lemma_wf_update(old(self), self, HeapRef::Object(idx.0));
        }
    }

    /// Replace the entity behind an occupied slot; the index-then-mutate
    /// pattern for entities too large to edit through a reference.
    pub fn set_array(&mut self, idx: ArrayIndex, data: ArrayHeapData)
        requires
            old(self).wf(),
            old(self).slot_full(HeapRef::Array(idx.0)),
            old(self).data_refs_ok(&data),
            data.elements.wf(&old(self).elements),
        ensures
            final(self).wf(),
            final(self).arrays@ == old(self).arrays@.update(idx.0 as int, Some(data)),
            final(self).objects@ == old(self).objects@,
            final(self).maps@ == old(self).maps@,
            final(self).weak_maps@ == old(self).weak_maps@,
            final(self).modules@ == old(self).modules@,
            final(self).strings@ == old(self).strings@,
            final(self).realms@ == old(self).realms@,
            final(self).elements.storage@ == old(self).elements.storage@,
            final(self).roots@ == old(self).roots@,
    {
        self.arrays.set(idx.0 as usize, Some(data));
        proof {
            lemma_wf_update(old(self), self, HeapRef::Array(idx.0));
        }
    }

    /// Replace the entity behind an occupied slot; the index-then-mutate
    /// pattern for entities too large to edit through a reference.
    pub fn set_map(&mut self, m: JsMap, data: MapHeapData)
        requires
            old(self).wf(),
            old(self).slot_full(HeapRef::JsMap(m.0.0)),
            old(self).data_refs_ok(&data),
        ensures
            final(self).wf(),
            final(self).maps@ == old(self).maps@.update(m.0.0 as int, Some(data)),
            final(self).objects@ == old(self).objects@,
            final(self).arrays@ == old(self).arrays@,
            final(self).weak_maps@ == old(self).weak_maps@,
            final(self).modules@ == old(self).modules@,
            final(self).strings@ == old(self).strings@,
            final(self).realms@ == old(self).realms@,
            final(self).elements.storage@ == old(self).elements.storage@,
            final(self).roots@ == old(self).roots@,
    {
        self.maps.set(m.0.0 as usize, Some(data));
        proof {
            lemma_wf_update(old(self), self, HeapRef::JsMap(m.0.0));
        }
    }

    /// Replace the entity behind an occupied slot; the index-then-mutate
    /// pattern for entities too large to edit through a reference.
    pub fn set_weak_map(&mut self, w: WeakMap, data: WeakMapHeapData)
        requires
            old(self).wf(),
            old(self).slot_full(HeapRef::WeakMap(w.0.0)),
            old(self).data_refs_ok(&data),
            data.keys@.len() == data.values@.len(),
            forall|j: int|
                0 <= j < data.keys@.len() ==> old(self).value_in_bounds(
                    #[trigger] data.keys@[j],
                ) && old(self).value_in_bounds(data.values@[j]),
        ensures
            final(self).wf(),
            final(self).weak_maps@ == old(self).weak_maps@.update(w.0.0 as int, Some(data)),
            final(self).objects@ == old(self).objects@,
            final(self).arrays@ == old(self).arrays@,
            final(self).maps@ == old(self).maps@,
            final(self).modules@ == old(self).modules@,
            final(self).strings@ == old(self).strings@,
            final(self).realms@ == old(self).realms@,
            final(self).elements.storage@ == old(self).elements.storage@,
            final(self).roots@ == old(self).roots@,
    {
        self.weak_maps.set(w.0.0 as usize, Some(data));
        proof {
            lemma_wf_update(old(self), self, HeapRef::WeakMap(w.0.0));
        }
    }

    /// Replace the entity behind an occupied slot; the index-then-mutate
    /// pattern for entities too large to edit through a reference.
    pub fn set_realm(&mut self, idx: RealmIndex, data: RealmHeapData)
        requires
            old(self).wf(),
            old(self).slot_full(HeapRef::Realm(idx.0)),
            old(self).data_refs_ok(&data),
        ensures
            final(self).wf(),
            final(self).realms@ == old(self).realms@.update(idx.0 as int, Some(data)),
            final(self).objects@ == old(self).objects@,
            final(self).arrays@ == old(self).arrays@,
            final(self).maps@ == old(self).maps@,
            final(self).weak_maps@ == old(self).weak_maps@,
            final(self).modules@ == old(self).modules@,
            final(self).strings@ == old(self).strings@,
            final(self).elements.storage@ == old(self).elements.storage@,
            final(self).roots@ == old(self).roots@,
    {
        self.realms.set(idx.0 as usize, Some(data));
        proof {
            lemma_wf_update(old(self), self, HeapRef::Realm(idx.0));
        }
    }

    /// Register a value in the root set: it survives every collection until
    /// the handle is released. The handle stays resolvable to the current,
    /// possibly relocated, value across any number of collections.
    pub fn root(&mut self, value: Value) -> (h: RootHandle)
        requires
            old(self).wf(),
            old(self).value_in_bounds(value),
            old(self).roots@.len() < u32::MAX,
        ensures
            final(self).wf(),
            h.0 == old(self).roots@.len(),
            final(self).roots@ == old(self).roots@.push(Some(value)),
            final(self).objects@ == old(self).objects@,
            final(self).arrays@ == old(self).arrays@,
            final(self).maps@ == old(self).maps@,
            final(self).weak_maps@ == old(self).weak_maps@,
            final(self).modules@ == old(self).modules@,
            final(self).strings@ == old(self).strings@,
            final(self).elements.storage@ == old(self).elements.storage@,
            final(self).realms@ == old(self).realms@,
    {
        let h = RootHandle(self.roots.len() as u32);
        self.roots.push(Some(value));
        proof {
            assert forall|i: int|
                0 <= i < self.roots@.len() implies match opt_value_ref(
                #[trigger] self.roots@[i],
            ) {
                Some(r) => self.in_bounds(r),
                None => true,
            } by {
                if i < old(self).roots@.len() {
                    assert(self.roots@[i] == old(self).roots@[i]);
                    match opt_value_ref(old(self).roots@[i]) {
                        Some(r) => {
                            assert(old(self).in_bounds(r));
                        },
                        None => (),
                    }
                }
            }
            lemma_wf_roots_changed(old(self), self);
        }
        h
    }

    /// Release a root registration. A handle never released keeps its value
    /// alive forever: a permanent leak, not a collector fault.
    pub fn unroot(&mut self, handle: RootHandle)
        requires
            old(self).wf(),
            handle.0 < old(self).roots@.len(),
        ensures
            final(self).wf(),
            final(self).roots@ == old(self).roots@.update(handle.0 as int, None),
            final(self).objects@ == old(self).objects@,
            final(self).arrays@ == old(self).arrays@,
            final(self).maps@ == old(self).maps@,
            final(self).weak_maps@ == old(self).weak_maps@,
            final(self).modules@ == old(self).modules@,
            final(self).strings@ == old(self).strings@,
            final(self).elements.storage@ == old(self).elements.storage@,
            final(self).realms@ == old(self).realms@,
    {
        self.roots.set(handle.0 as usize, None);
        proof {
            assert forall|i: int|
                0 <= i < self.roots@.len() implies match opt_value_ref(
                #[trigger] self.roots@[i],
            ) {
                Some(r) => self.in_bounds(r),
                None => true,
            } by {
                if i != handle.0 as int {
                    assert(self.roots@[i] == old(self).roots@[i]);
                    match opt_value_ref(old(self).roots@[i]) {
                        Some(r) => {
                            assert(old(self).in_bounds(r));
                        },
                        None => (),
                    }
                }
            }
            lemma_wf_roots_changed(old(self), self);
        }
    }

    /// Resolve a live root registration to its current value.
    pub fn root_value(&self, handle: RootHandle) -> (v: Value)
        requires
            handle.0 < self.roots@.len(),
            self.roots@[handle.0 as int] is Some,
        ensures
            v == self.roots@[handle.0 as int]->Some_0,
    {
        self.roots[handle.0 as usize].unwrap()
    }

    /// The empty heap.
    pub fn new() -> (h: Heap)
        ensures
            h.wf(),
            h.objects@.len() == 0,
            h.arrays@.len() == 0,
            h.maps@.len() == 0,
            h.weak_maps@.len() == 0,
            h.modules@.len() == 0,
            h.strings@.len() == 0,
            h.elements.storage@.len() == 0,
            h.realms@.len() == 0,
            h.roots@.len() == 0,
    {
        Heap {
            objects: Vec::new(),
            arrays: Vec::new(),
            maps: Vec::new(),
            weak_maps: Vec::new(),
            modules: Vec::new(),
            strings: Vec::new(),
            elements: ElementArrays::new(),
            realms: Vec::new(),
            roots: Vec::new(),
        }
    }
}

/// Growing a well-formed heap by appending occupied slots whose edges are in
/// bounds keeps it well-formed: the sole way `wf` is re-established after an
/// allocation.
pub proof fn lemma_wf_grow(pre: &Heap, post: &Heap)
    requires
        pre.wf(),
        post.arenas_bounded(),
        pre.objects@.len() <= post.objects@.len(),
        pre.arrays@.len() <= post.arrays@.len(),
        pre.maps@.len() <= post.maps@.len(),
        pre.weak_maps@.len() <= post.weak_maps@.len(),
        pre.modules@.len() <= post.modules@.len(),
        pre.strings@.len() <= post.strings@.len(),
        pre.elements.storage@.len() <= post.elements.storage@.len(),
        pre.realms@.len() <= post.realms@.len(),
        forall|i: int| 0 <= i < pre.objects@.len() ==> post.objects@[i] == pre.objects@[i],
        forall|i: int| 0 <= i < pre.arrays@.len() ==> post.arrays@[i] == pre.arrays@[i],
        forall|i: int| 0 <= i < pre.maps@.len() ==> post.maps@[i] == pre.maps@[i],
        forall|i: int| 0 <= i < pre.weak_maps@.len() ==> post.weak_maps@[i] == pre.weak_maps@[i],
        forall|i: int| 0 <= i < pre.modules@.len() ==> post.modules@[i] == pre.modules@[i],
        forall|i: int| 0 <= i < pre.strings@.len() ==> post.strings@[i] == pre.strings@[i],
        forall|i: int|
            0 <= i < pre.elements.storage@.len() ==> post.elements.storage@[i]
                == pre.elements.storage@[i],
        forall|i: int| 0 <= i < pre.realms@.len() ==> post.realms@[i] == pre.realms@[i],
        post.roots@ == pre.roots@,
        forall|r: HeapRef|
            post.in_bounds(r) && !pre.in_bounds(r) ==> #[trigger] post.slot_full(r),
        forall|r: HeapRef, r2: HeapRef|
            #[trigger] post.has_edge(r, r2) && !pre.in_bounds(r) ==> post.in_bounds(r2),
        forall|i: int|
            pre.arrays@.len() <= i < post.arrays@.len() && post.arrays@[i] is Some
                ==> #[trigger] post.arrays@[i]->Some_0.elements.wf(&post.elements),
        forall|i: int|
            pre.weak_maps@.len() <= i < post.weak_maps@.len() && post.weak_maps@[i] is Some
                ==> {
                let d = #[trigger] post.weak_maps@[i]->Some_0;
                &&& d.keys@.len() == d.values@.len()
                &&& forall|j: int|
                    0 <= j < d.keys@.len() ==> post.value_in_bounds(#[trigger] d.keys@[j])
                        && post.value_in_bounds(d.values@[j])
            },
    ensures
        post.wf(),
{
    assert forall|r: HeapRef| pre.in_bounds(r) implies post.in_bounds(r) by {}
    assert forall|r: HeapRef| pre.in_bounds(r) implies post.slot_full(r) == pre.slot_full(r)
        && (forall|r2: HeapRef| post.has_edge(r, r2) == pre.has_edge(r, r2)) by {
        match r {
            HeapRef::Object(i) => assert(post.objects@[i as int] == pre.objects@[i as int]),
            HeapRef::Array(i) => assert(post.arrays@[i as int] == pre.arrays@[i as int]),
            HeapRef::JsMap(i) => assert(post.maps@[i as int] == pre.maps@[i as int]),
            HeapRef::WeakMap(i) => assert(post.weak_maps@[i as int] == pre.weak_maps@[i as int]),
            HeapRef::Module(i) => assert(post.modules@[i as int] == pre.modules@[i as int]),
            HeapRef::Str(i) => assert(post.strings@[i as int] == pre.strings@[i as int]),
            HeapRef::Elems(i) => assert(post.elements.storage@[i as int]
                == pre.elements.storage@[i as int]),
            HeapRef::Realm(i) => assert(post.realms@[i as int] == pre.realms@[i as int]),
        }
    }
    assert forall|r: HeapRef| post.in_bounds(r) implies #[trigger] post.slot_full(r) by {
        if pre.in_bounds(r) {
            assert(pre.slot_full(r));
        }
    }
    assert forall|r: HeapRef, r2: HeapRef| #[trigger] post.has_edge(r, r2) implies post.in_bounds(
        r2,
    ) by {
        if pre.in_bounds(r) {
            assert(pre.has_edge(r, r2));
            assert(pre.in_bounds(r2));
        }
    }
    assert forall|i: int|
        0 <= i < post.arrays@.len() && post.arrays@[i] is Some implies #[trigger] post
        .arrays@[i]->Some_0.elements.wf(&post.elements) by {
        if i < pre.arrays@.len() {
            assert(pre.arrays@[i]->Some_0.elements.wf(&pre.elements));
        }
    }
    assert forall|i: int|
        0 <= i < post.weak_maps@.len() && post.weak_maps@[i] is Some implies {
        let d = #[trigger] post.weak_maps@[i]->Some_0;
        &&& d.keys@.len() == d.values@.len()
        &&& forall|j: int|
            0 <= j < d.keys@.len() ==> post.value_in_bounds(#[trigger] d.keys@[j])
                && post.value_in_bounds(d.values@[j])
    } by {
        if i < pre.weak_maps@.len() {
            let d = pre.weak_maps@[i]->Some_0;
            assert(d.keys@.len() == d.values@.len());
            assert forall|j: int| 0 <= j < d.keys@.len() implies post.value_in_bounds(
                #[trigger] d.keys@[j],
            ) && post.value_in_bounds(d.values@[j]) by {
                assert(pre.value_in_bounds(d.keys@[j]) && pre.value_in_bounds(d.values@[j]));
            }
        }
    }
    assert forall|i: int| 0 <= i < post.roots@.len() implies match opt_value_ref(
        #[trigger] post.roots@[i],
    ) {
        Some(r) => post.in_bounds(r),
        None => true,
    } by {
        assert(post.roots@[i] == pre.roots@[i]);
        match opt_value_ref(pre.roots@[i]) {
            Some(r) => {
                assert(pre.in_bounds(r));
            },
            None => (),
        }
    }
}

/// Replacing the data of one occupied slot, with edges in bounds, keeps the
/// heap well-formed.
pub proof fn lemma_wf_update(pre: &Heap, post: &Heap, changed: HeapRef)
    requires
        pre.wf(),
        post.arenas_bounded(),
        pre.same_arena_lens(post),
        post.roots@ == pre.roots@,
        forall|i: int|
            0 <= i < pre.objects@.len() && HeapRef::Object(i as u32) != changed
                ==> post.objects@[i] == pre.objects@[i],
        forall|i: int|
            0 <= i < pre.arrays@.len() && HeapRef::Array(i as u32) != changed
                ==> post.arrays@[i] == pre.arrays@[i],
        forall|i: int|
            0 <= i < pre.maps@.len() && HeapRef::JsMap(i as u32) != changed ==> post.maps@[i]
                == pre.maps@[i],
        forall|i: int|
            0 <= i < pre.weak_maps@.len() && HeapRef::WeakMap(i as u32) != changed
                ==> post.weak_maps@[i] == pre.weak_maps@[i],
        forall|i: int|
            0 <= i < pre.modules@.len() && HeapRef::Module(i as u32) != changed
                ==> post.modules@[i] == pre.modules@[i],
        forall|i: int|
            0 <= i < pre.strings@.len() && HeapRef::Str(i as u32) != changed
                ==> post.strings@[i] == pre.strings@[i],
        forall|i: int|
            0 <= i < pre.elements.storage@.len() && HeapRef::Elems(i as u32) != changed
                ==> post.elements.storage@[i] == pre.elements.storage@[i],
        forall|i: int|
            0 <= i < pre.realms@.len() && HeapRef::Realm(i as u32) != changed
                ==> post.realms@[i] == pre.realms@[i],
        pre.in_bounds(changed),
        post.slot_full(changed),
        forall|r2: HeapRef| #[trigger] post.has_edge(changed, r2) ==> post.in_bounds(r2),
        forall|i: int|
            0 <= i < post.arrays@.len() && HeapRef::Array(i as u32) == changed
                && post.arrays@[i] is Some ==> #[trigger] post.arrays@[i]->Some_0.elements.wf(
                &post.elements,
            ),
        forall|i: int|
            0 <= i < post.weak_maps@.len() && HeapRef::WeakMap(i as u32) == changed
                && post.weak_maps@[i] is Some ==> {
                let d = #[trigger] post.weak_maps@[i]->Some_0;
                &&& d.keys@.len() == d.values@.len()
                &&& forall|j: int|
                    0 <= j < d.keys@.len() ==> post.value_in_bounds(#[trigger] d.keys@[j])
                        && post.value_in_bounds(d.values@[j])
            },
        // an elements buffer may only change where every array stays
        // consistent with it
        forall|i: int|
            0 <= i < post.arrays@.len() && post.arrays@[i] is Some && (exists|k: u32|
                changed == HeapRef::Elems(k)) ==> #[trigger] post.arrays@[i]->Some_0.elements.wf(
                &post.elements,
            ),
    ensures
        post.wf(),
{
    assert forall|r: HeapRef| pre.in_bounds(r) implies post.in_bounds(r) by {}
    assert forall|r: HeapRef| pre.in_bounds(r) && r != changed implies post.slot_full(r)
        == pre.slot_full(r) && (forall|r2: HeapRef| post.has_edge(r, r2) == pre.has_edge(
        r,
        r2,
    )) by {
        match r {
            HeapRef::Object(i) => assert(post.objects@[i as int] == pre.objects@[i as int]),
            HeapRef::Array(i) => assert(post.arrays@[i as int] == pre.arrays@[i as int]),
            HeapRef::JsMap(i) => assert(post.maps@[i as int] == pre.maps@[i as int]),
            HeapRef::WeakMap(i) => assert(post.weak_maps@[i as int] == pre.weak_maps@[i as int]),
            HeapRef::Module(i) => assert(post.modules@[i as int] == pre.modules@[i as int]),
            HeapRef::Str(i) => assert(post.strings@[i as int] == pre.strings@[i as int]),
            HeapRef::Elems(i) => assert(post.elements.storage@[i as int]
                == pre.elements.storage@[i as int]),
            HeapRef::Realm(i) => assert(post.realms@[i as int] == pre.realms@[i as int]),
        }
    }
    assert forall|r: HeapRef| post.in_bounds(r) implies #[trigger] post.slot_full(r) by {
        if r != changed {
            assert(pre.slot_full(r));
        }
    }
    assert forall|r: HeapRef, r2: HeapRef| #[trigger] post.has_edge(r, r2) implies post.in_bounds(
        r2,
    ) by {
        if r != changed {
            assert(pre.has_edge(r, r2));
            assert(pre.in_bounds(r2));
        }
    }
    assert forall|i: int|
        0 <= i < post.arrays@.len() && post.arrays@[i] is Some implies #[trigger] post
        .arrays@[i]->Some_0.elements.wf(&post.elements) by {
        if HeapRef::Array(i as u32) != changed && !(exists|k: u32| changed == HeapRef::Elems(k))
            && 0 <= i < pre.arrays@.len() {
            assert(pre.arrays@[i]->Some_0.elements.wf(&pre.elements));
            assert forall|j: int|
                0 <= j < pre.elements.storage@.len() implies post.elements.storage@[j]
                == pre.elements.storage@[j] by {
                assert(HeapRef::Elems(j as u32) != changed);
            }
        }
    }
    assert forall|i: int|
        0 <= i < post.weak_maps@.len() && post.weak_maps@[i] is Some implies {
        let d = #[trigger] post.weak_maps@[i]->Some_0;
        &&& d.keys@.len() == d.values@.len()
        &&& forall|j: int|
            0 <= j < d.keys@.len() ==> post.value_in_bounds(#[trigger] d.keys@[j])
                && post.value_in_bounds(d.values@[j])
    } by {
        if HeapRef::WeakMap(i as u32) != changed {
            let d = pre.weak_maps@[i]->Some_0;
            assert(post.weak_maps@[i] == pre.weak_maps@[i]);
            assert forall|j: int| 0 <= j < d.keys@.len() implies post.value_in_bounds(
                #[trigger] d.keys@[j],
            ) && post.value_in_bounds(d.values@[j]) by {
                assert(pre.value_in_bounds(d.keys@[j]) && pre.value_in_bounds(d.values@[j]));
            }
        }
    }
    assert forall|i: int| 0 <= i < post.roots@.len() implies match opt_value_ref(
        #[trigger] post.roots@[i],
    ) {
        Some(r) => post.in_bounds(r),
        None => true,
    } by {
        assert(post.roots@[i] == pre.roots@[i]);
        match opt_value_ref(pre.roots@[i]) {
            Some(r) => {
                assert(pre.in_bounds(r));
            },
            None => (),
        }
    }
}

/// Changing the root set alone, to roots whose referents are in bounds,
/// keeps the heap well-formed.
pub proof fn lemma_wf_roots_changed(pre: &Heap, post: &Heap)
    requires
        pre.wf(),
        post.roots@.len() <= u32::MAX,
        post.objects@ == pre.objects@,
        post.arrays@ == pre.arrays@,
        post.maps@ == pre.maps@,
        post.weak_maps@ == pre.weak_maps@,
        post.modules@ == pre.modules@,
        post.strings@ == pre.strings@,
        post.elements.storage@ == pre.elements.storage@,
        post.realms@ == pre.realms@,
        forall|i: int|
            0 <= i < post.roots@.len() ==> match opt_value_ref(#[trigger] post.roots@[i]) {
                Some(r) => post.in_bounds(r),
                None => true,
            },
    ensures
        post.wf(),
{
    assert forall|r: HeapRef| post.in_bounds(r) implies #[trigger] post.slot_full(r) by {
        assert(pre.slot_full(r));
        match r {
            HeapRef::Object(i) => assert(post.objects@[i as int] == pre.objects@[i as int]),
            HeapRef::Array(i) => assert(post.arrays@[i as int] == pre.arrays@[i as int]),
            HeapRef::JsMap(i) => assert(post.maps@[i as int] == pre.maps@[i as int]),
            HeapRef::WeakMap(i) => assert(post.weak_maps@[i as int] == pre.weak_maps@[i as int]),
            HeapRef::Module(i) => assert(post.modules@[i as int] == pre.modules@[i as int]),
            HeapRef::Str(i) => assert(post.strings@[i as int] == pre.strings@[i as int]),
            HeapRef::Elems(i) => assert(post.elements.storage@[i as int]
                == pre.elements.storage@[i as int]),
            HeapRef::Realm(i) => assert(post.realms@[i as int] == pre.realms@[i as int]),
        }
    }
    assert forall|r: HeapRef, r2: HeapRef| #[trigger] post.has_edge(r, r2) implies post.in_bounds(
        r2,
    ) by {
        match r {
            HeapRef::Object(i) => assert(post.objects@[i as int] == pre.objects@[i as int]),
            HeapRef::Array(i) => assert(post.arrays@[i as int] == pre.arrays@[i as int]),
            HeapRef::JsMap(i) => assert(post.maps@[i as int] == pre.maps@[i as int]),
            HeapRef::WeakMap(i) => assert(post.weak_maps@[i as int] == pre.weak_maps@[i as int]),
            HeapRef::Module(i) => assert(post.modules@[i as int] == pre.modules@[i as int]),
            HeapRef::Str(i) => assert(post.strings@[i as int] == pre.strings@[i as int]),
            HeapRef::Elems(i) => assert(post.elements.storage@[i as int]
                == pre.elements.storage@[i as int]),
            HeapRef::Realm(i) => assert(post.realms@[i as int] == pre.realms@[i as int]),
        }
        assert(pre.has_edge(r, r2));
        assert(pre.in_bounds(r2));
    }
    assert forall|i: int|
        0 <= i < post.arrays@.len() && post.arrays@[i] is Some implies #[trigger] post
        .arrays@[i]->Some_0.elements.wf(&post.elements) by {
        assert(post.arrays@[i] == pre.arrays@[i]);
        assert(pre.arrays@[i]->Some_0.elements.wf(&pre.elements));
    }
    assert forall|i: int|
        0 <= i < post.weak_maps@.len() && post.weak_maps@[i] is Some implies {
        let d = #[trigger] post.weak_maps@[i]->Some_0;
        &&& d.keys@.len() == d.values@.len()
        &&& forall|j: int|
            0 <= j < d.keys@.len() ==> post.value_in_bounds(#[trigger] d.keys@[j])
                && post.value_in_bounds(d.values@[j])
    } by {
        let d = pre.weak_maps@[i]->Some_0;
        assert(post.weak_maps@[i] == pre.weak_maps@[i]);
        assert forall|j: int| 0 <= j < d.keys@.len() implies post.value_in_bounds(
            #[trigger] d.keys@[j],
        ) && post.value_in_bounds(d.values@[j]) by {
            assert(pre.value_in_bounds(d.keys@[j]) && pre.value_in_bounds(d.values@[j]));
        }
    }
}

} // verus!
