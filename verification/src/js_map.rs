//! Maps: keyed collections whose keys and values are both strong edges.

use vstd::prelude::*;
use crate::gc::{CompactionLists, HeapMarkAndSweep, RelocMap, WorkQueues};
use crate::heap::Heap;
use crate::indexes::{HeapRef, MapIndex, ObjectIndex};
use crate::value::{Object, Value};

verus! {

/// Handle to a map entity: a typed index into the map arena.
#[derive(Debug, Clone, Copy, PartialEq, Eq, Structural, Hash)]
pub struct JsMap(pub MapIndex);

/// Heap data of one map. Keys and values are kept alive by the map itself.
#[derive(Debug, Clone, PartialEq, Eq)]
pub struct MapHeapData {
    pub object_index: Option<ObjectIndex>,
    pub keys: Vec<Value>,
    pub values: Vec<Value>,
}

impl JsMap {
    /// The default (first-slot) handle.
    pub fn _def() -> (r: Self)
        ensures
            r.0.0 == 0,
    {
        Self(MapIndex(0))
    }

    pub fn get_index(self) -> (r: usize)
        ensures
            r == self.0.0 as usize,
    {
        self.0.0 as usize
    }

    pub fn into_value(self) -> (r: Value)
        ensures
            r == Value::JsMap(self.0),
    {
        Value::JsMap(self.0)
    }

    pub fn into_object(self) -> (r: Object)
        ensures
            r == Object::JsMap(self),
    {
        Object::JsMap(self)
    }

    /// The map behind an object handle, if it is one.
    pub fn try_from(value: Object) -> (r: Result<Self, ()>)
        ensures
            match value {
                Object::JsMap(m) => r == Ok::<JsMap, ()>(m),
                _ => r == Err::<JsMap, ()>(()),
            },
    {
        match value {
            Object::JsMap(data) => Ok(data),
            _ => Err(()),
        }
    }

    /// The backing object of this map, if one has been attached.
    pub fn get_backing_object(self, heap: &Heap) -> (r: Option<ObjectIndex>)
        requires
            heap.slot_full(HeapRef::JsMap(self.0.0)),
        ensures
            r == heap.maps@[self.0.0 as int]->Some_0.object_index,
    {
        let slot = &heap.maps[self.0.0 as usize];
        match slot {
            Some(data) => data.object_index,
            None => None,
        }
    }

    /// Attach a backing object; the map must not have one yet.
    pub fn set_backing_object(self, heap: &mut Heap, backing_object: ObjectIndex)
        requires
            old(heap).slot_full(HeapRef::JsMap(self.0.0)),
            old(heap).maps@[self.0.0 as int]->Some_0.object_index is None,
        ensures
            final(heap).maps@.len() == old(heap).maps@.len(),
            final(heap).maps@[self.0.0 as int] is Some,
            final(heap).maps@[self.0.0 as int]->Some_0.object_index == Some(backing_object),
            final(heap).maps@[self.0.0 as int]->Some_0.keys == old(heap).maps@[self.0.0 as int]->Some_0.keys,
            final(heap).maps@[self.0.0 as int]->Some_0.values == old(heap).maps@[self.0.0 as int]->Some_0.values,
            forall|i: int|
                0 <= i < old(heap).maps@.len() && i != self.0.0 as int ==> final(heap).maps@[i] == old(heap).maps@[i],
            final(heap).objects@ == old(heap).objects@,
            final(heap).arrays@ == old(heap).arrays@,
            final(heap).weak_maps@ == old(heap).weak_maps@,
            final(heap).modules@ == old(heap).modules@,
            final(heap).strings@ == old(heap).strings@,
            final(heap).elements.storage@ == old(heap).elements.storage@,
            final(heap).realms@ == old(heap).realms@,
            final(heap).roots@ == old(heap).roots@,
    {
        let i = self.0.0 as usize;
        let mut slot = heap.maps.remove(i);
        match &mut slot {
            Some(data) => {
                data.object_index = Some(backing_object);
            },
            None => (),
        }
        heap.maps.insert(i, slot);
        proof {
            assert forall|j: int|
                0 <= j < old(heap).maps@.len() && j != self.0.0 as int implies heap.maps@[j]
                == old(heap).maps@[j] by {}
        }
    }
}

impl From<JsMap> for MapIndex {
    fn from(val: JsMap) -> (r: Self) {
        val.0
    }
}

impl vstd::std_specs::convert::FromSpecImpl<JsMap> for MapIndex {
    open spec fn obeys_from_spec() -> bool {
        true
    }

    open spec fn from_spec(t: JsMap) -> Self {
        t.0
    }
}

impl From<MapIndex> for JsMap {
    fn from(value: MapIndex) -> (r: Self) {
        Self(value)
    }
}

impl vstd::std_specs::convert::FromSpecImpl<MapIndex> for JsMap {
    open spec fn obeys_from_spec() -> bool {
        true
    }

    open spec fn from_spec(t: MapIndex) -> Self {
        JsMap(t)
    }
}

impl HeapMarkAndSweep for JsMap {
    open spec fn edge_has(&self, r: HeapRef) -> bool {
        r == HeapRef::JsMap(self.0.0)
    }

    open spec fn reloc_ok(&self, m: RelocMap) -> bool {
        m.is_live(HeapRef::JsMap(self.0.0))
    }

    open spec fn is_relocated(&self, new: &Self, m: RelocMap) -> bool {
        HeapRef::JsMap(new.0.0) == m.shifted(HeapRef::JsMap(self.0.0))
    }

    fn mark_values(&self, queues: &mut WorkQueues) {
        queues.push_ref(HeapRef::JsMap(self.0.0));
    }

    fn sweep_values(&mut self, compactions: &CompactionLists) {
        compactions.maps.shift_index(&mut self.0.0);
    }
}

impl HeapMarkAndSweep for MapHeapData {
    open spec fn edge_has(&self, r: HeapRef) -> bool {
        self.object_index.edge_has(r) || self.keys.edge_has(r) || self.values.edge_has(r)
    }

    open spec fn reloc_ok(&self, m: RelocMap) -> bool {
        self.object_index.reloc_ok(m) && self.keys.reloc_ok(m)
            && self.values.reloc_ok(m)
    }

    open spec fn is_relocated(&self, new: &Self, m: RelocMap) -> bool {
        &&& self.object_index.is_relocated(&new.object_index, m)
        &&& self.keys.is_relocated(&new.keys, m)
        &&& self.values.is_relocated(&new.values, m)
    }

    fn mark_values(&self, queues: &mut WorkQueues) {
        self.object_index.mark_values(queues);
        self.keys.mark_values(queues);
        self.values.mark_values(queues);
    }

    fn sweep_values(&mut self, compactions: &CompactionLists) {
        self.object_index.sweep_values(compactions);
        self.keys.sweep_values(compactions);
        self.values.sweep_values(compactions);
    }
}

} // verus!
