//! Ordinary objects: the backing storage primitive every other entity kind
//! may point at. The full property model lives outside this core; here an
//! object is a prototype link and a vector of property values — enough to
//! form an arbitrary reference graph.

use vstd::prelude::*;
use crate::gc::{CompactionLists, HeapMarkAndSweep, RelocMap, WorkQueues};
use crate::indexes::{HeapRef, ObjectIndex};
use crate::value::Value;

verus! {

/// Heap data of one ordinary object.
#[derive(Debug, Clone, PartialEq, Eq)]
pub struct ObjectHeapData {
    pub prototype: Option<ObjectIndex>,
    pub properties: Vec<Value>,
}

impl HeapMarkAndSweep for ObjectHeapData {
    open spec fn edge_has(&self, r: HeapRef) -> bool {
        self.prototype.edge_has(r) || self.properties.edge_has(r)
    }

    open spec fn reloc_ok(&self, m: RelocMap) -> bool {
        self.prototype.reloc_ok(m) && self.properties.reloc_ok(m)
    }

    open spec fn is_relocated(&self, new: &Self, m: RelocMap) -> bool {
        self.prototype.is_relocated(&new.prototype, m) && self.properties.is_relocated(&new.properties, m)
    }

    fn mark_values(&self, queues: &mut WorkQueues) {
        self.prototype.mark_values(queues);
        self.properties.mark_values(queues);
    }

    fn sweep_values(&mut self, compactions: &CompactionLists) {
        self.prototype.sweep_values(compactions);
        self.properties.sweep_values(compactions);
    }
}

} // verus!
