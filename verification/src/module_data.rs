//! Modules: the heap entity behind a linked module, with its realm, its
//! optional namespace object, and its exported names. Export resolution
//! belongs to the module-linking layer, not to this core.

use vstd::prelude::*;
use crate::gc::{CompactionLists, HeapMarkAndSweep, RelocMap, WorkQueues};
use crate::indexes::{HeapRef, ModuleIndex, ObjectIndex, RealmIndex};
use crate::value::JsString;

verus! {

/// The record of one module.
#[derive(Debug, Clone, Copy, PartialEq, Eq)]
pub struct ModuleRecord {
    /// The realm within which this module was created.
    pub realm: RealmIndex,
    /// The module namespace object, if one has been created for this module.
    pub namespace: Option<ModuleIndex>,
}

/// Heap data of one module.
#[derive(Debug, Clone, PartialEq, Eq)]
pub struct ModuleHeapData {
    pub object_index: Option<ObjectIndex>,
    pub module: ModuleRecord,
    pub exports: Vec<JsString>,
}

impl HeapMarkAndSweep for ModuleHeapData {
    open spec fn edge_has(&self, r: HeapRef) -> bool {
        ||| self.exports.edge_has(r)
        ||| self.module.realm.edge_has(r)
        ||| self.module.namespace.edge_has(r)
        ||| self.object_index.edge_has(r)
    }

    open spec fn reloc_ok(&self, m: RelocMap) -> bool {
        &&& self.exports.reloc_ok(m)
        &&& self.module.realm.reloc_ok(m)
        &&& self.module.namespace.reloc_ok(m)
        &&& self.object_index.reloc_ok(m)
    }

    open spec fn is_relocated(&self, new: &Self, m: RelocMap) -> bool {
        &&& self.exports.is_relocated(&new.exports, m)
        &&& self.module.realm.is_relocated(&new.module.realm, m)
        &&& self.module.namespace.is_relocated(&new.module.namespace, m)
        &&& self.object_index.is_relocated(&new.object_index, m)
    }

    fn mark_values(&self, queues: &mut WorkQueues) {
        self.exports.mark_values(queues);
        self.module.realm.mark_values(queues);
        self.module.namespace.mark_values(queues);
        self.object_index.mark_values(queues);
    }

    fn sweep_values(&mut self, compactions: &CompactionLists) {
        self.exports.sweep_values(compactions);
        self.module.realm.sweep_values(compactions);
        self.module.namespace.sweep_values(compactions);
        self.object_index.sweep_values(compactions);
    }
}

} // verus!
