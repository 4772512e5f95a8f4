//! Realms: the execution context's global world. For the heap core a realm
//! is a handle to its global object.

use vstd::prelude::*;
use crate::gc::{CompactionLists, HeapMarkAndSweep, RelocMap, WorkQueues};
use crate::indexes::{HeapRef, ObjectIndex};

verus! {

/// Heap data of one realm.
#[derive(Debug, Clone, Copy, PartialEq, Eq)]
pub struct RealmHeapData {
    pub global_object: Option<ObjectIndex>,
}

impl HeapMarkAndSweep for RealmHeapData {
    open spec fn edge_has(&self, r: HeapRef) -> bool {
        self.global_object.edge_has(r)
    }

    open spec fn reloc_ok(&self, m: RelocMap) -> bool {
        self.global_object.reloc_ok(m)
    }

    open spec fn is_relocated(&self, new: &Self, m: RelocMap) -> bool {
        self.global_object.is_relocated(&new.global_object, m)
    }

    fn mark_values(&self, queues: &mut WorkQueues) {
        self.global_object.mark_values(queues);
    }

    fn sweep_values(&mut self, compactions: &CompactionLists) {
        self.global_object.sweep_values(compactions);
    }
}

} // verus!
