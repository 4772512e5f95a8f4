//! Heap strings: immutable text owned by the string arena, a leaf of the
//! reference graph.

use vstd::prelude::*;
use crate::gc::{CompactionLists, HeapMarkAndSweep, RelocMap, WorkQueues};
use crate::indexes::HeapRef;

verus! {

/// Heap data of one string: the text itself, a leaf of the reference graph.
#[derive(Debug, Clone, PartialEq, Eq)]
pub struct StringHeapData {
    pub text: Vec<u8>,
}

impl HeapMarkAndSweep for StringHeapData {
    open spec fn edge_has(&self, r: HeapRef) -> bool {
        false
    }

    open spec fn reloc_ok(&self, m: RelocMap) -> bool {
        true
    }

    open spec fn is_relocated(&self, new: &Self, m: RelocMap) -> bool {
        new.text@ == self.text@
    }

    fn mark_values(&self, queues: &mut WorkQueues) {
    }

    fn sweep_values(&mut self, compactions: &CompactionLists) {
    }
}

} // verus!
