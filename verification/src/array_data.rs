//! Arrays: an elements vector whose length can be sealed, plus an optional
//! backing object for non-index properties.

use vstd::prelude::*;
use crate::elements::{
    ElementArrayKey, ElementArrays, ElementDescriptor, ElementsError, ElementsVector,
};
use crate::gc::{CompactionLists, HeapMarkAndSweep, RelocMap, WorkQueues};
use crate::indexes::{ElementIndex, HeapRef, ObjectIndex};
use crate::value::Value;

verus! {

/// An elements vector whose length can be made unwritable: sealing
/// permanently forbids further growth, though not element mutation.
#[derive(Debug, Clone, Copy, PartialEq, Eq)]
pub struct SealableElementsVector {
    pub elements_index: ElementIndex,
    pub cap: ElementArrayKey,
    pub len: u32,
    /// Array length property can be set to unwritable.
    pub len_writable: bool,
}

impl SealableElementsVector {
    /// The plain elements vector this descriptor denotes.
    pub open spec fn spec_elements_vector(self) -> ElementsVector {
        ElementsVector { elements_index: self.elements_index, cap: self.cap, len: self.len }
    }

    pub open spec fn wf(self, arenas: &ElementArrays) -> bool {
        self.spec_elements_vector().wf(arenas)
    }

    pub open spec fn spec_values(self, arenas: &ElementArrays) -> Seq<Option<Value>> {
        self.spec_elements_vector().spec_values(arenas)
    }

    pub open spec fn spec_descriptors(self, arenas: &ElementArrays) -> Seq<
        Option<ElementDescriptor>,
    > {
        self.spec_elements_vector().spec_descriptors(arenas)
    }

    /// Capacity of the current tier.
    pub fn cap(&self) -> (r: u32)
        ensures
            r == self.cap.spec_cap(),
    {
        self.cap.cap()
    }

    pub fn len(&self) -> (r: u32)
        ensures
            r == self.len,
    {
        self.len
    }

    pub fn is_empty(&self) -> (r: bool)
        ensures
            r == (self.len == 0),
    {
        self.len == 0
    }

    pub fn is_full(&self) -> (r: bool)
        ensures
            r == (self.len == self.cap.spec_cap()),
    {
        self.len == self.cap.cap()
    }

    pub fn writable(&self) -> (r: bool)
        ensures
            r == self.len_writable,
    {
        self.len_writable
    }

    /// A sealable elements vector is simple if it contains no accessor
    /// descriptors.
    pub fn is_simple(&self, elements: &ElementArrays) -> (r: bool)
        requires
            self.wf(elements),
        ensures
            r == self.spec_elements_vector().spec_is_simple(elements),
    {
        let elements_vector: ElementsVector = (*self).into();
        elements_vector.is_simple(elements)
    }

    /// A sealable elements vector is trivial if it contains no descriptors.
    pub fn is_trivial(&self, elements: &ElementArrays) -> (r: bool)
        requires
            self.wf(elements),
        ensures
            r == self.spec_elements_vector().spec_is_trivial(elements),
    {
        let elements_vector: ElementsVector = (*self).into();
        elements_vector.is_trivial(elements)
    }

    pub fn is_dense(&self, elements: &ElementArrays) -> (r: bool)
        requires
            self.wf(elements),
        ensures
            r == self.spec_elements_vector().spec_is_dense(elements),
    {
        let elements_vector: ElementsVector = (*self).into();
        elements_vector.is_dense(elements)
    }

    /// Adopt a plain elements vector, with a writable length.
    pub fn from_elements_vector(elements: ElementsVector) -> (r: Self)
        ensures
            r.elements_index == elements.elements_index,
            r.cap == elements.cap,
            r.len == elements.len,
            r.len_writable,
    {
        Self {
            elements_index: elements.elements_index,
            cap: elements.cap,
            len: elements.len,
            len_writable: true,
        }
    }

    /// Ensure capacity for `new_len` elements; a no-op when the tier already
    /// suffices. Reserving changes capacity, never length, so a sealed
    /// vector may still reserve.
    pub fn reserve(&mut self, elements: &mut ElementArrays, new_len: u32)
        requires
            old(self).wf(old(elements)),
            old(elements).storage@.len() < u32::MAX,
        ensures
            final(self).wf(final(elements)),
            final(self).len == old(self).len,
            final(self).len_writable == old(self).len_writable,
            new_len <= final(self).cap.spec_cap(),
            new_len <= old(self).cap.spec_cap() ==> *final(self) == *old(self) && final(elements).storage@ == old(elements).storage@,
            final(self).spec_values(final(elements)) == old(self).spec_values(old(elements)),
            final(self).spec_descriptors(final(elements)) == old(self).spec_descriptors(
                old(elements),
            ),
            old(elements).storage@.len() <= final(elements).storage@.len(),
            forall|i: int|
                0 <= i < old(elements).storage@.len() ==> final(elements).storage@[i] == old(elements).storage@[i],
            old(self).cap.spec_cap() < new_len ==> {
                &&& final(self).cap == ElementArrayKey::spec_key_for(new_len as int)
                &&& final(self).elements_index.0 == old(elements).storage@.len()
            },
    {
        let mut elements_vector: ElementsVector = (*self).into();
        elements_vector.reserve(elements, new_len);
        self.cap = elements_vector.cap;
        self.elements_index = elements_vector.elements_index;
    }

    /// Append one element. Fails with `Sealed`, changing nothing, when the
    /// length is not writable; fails with `CapacityExceeded`, changing
    /// nothing, at the maximum representable element count. Never grows
    /// when the current tier still has room.
    pub fn push(
        &mut self,
        elements: &mut ElementArrays,
        value: Option<Value>,
        descriptor: Option<ElementDescriptor>,
    ) -> (r: Result<(), ElementsError>)
        requires
            old(self).wf(old(elements)),
            old(elements).storage@.len() < u32::MAX,
        ensures
            final(self).wf(final(elements)),
            final(self).len_writable == old(self).len_writable,
            r is Err <==> !old(self).len_writable || old(self).len == u32::MAX,
            !old(self).len_writable ==> r == Err::<(), ElementsError>(ElementsError::Sealed),
            old(self).len_writable && old(self).len == u32::MAX ==> r == Err::<(
            ), ElementsError>(ElementsError::CapacityExceeded),
            r is Err ==> *final(self) == *old(self) && final(elements).storage@ == old(elements).storage@,
            r is Ok ==> {
                &&& final(self).len == old(self).len + 1
                &&& final(self).spec_values(final(elements)) == old(self).spec_values(
                    old(elements),
                ).push(value)
                &&& final(self).spec_descriptors(final(elements)) == old(self).spec_descriptors(old(elements)).push(descriptor)
                &&& old(self).len < old(self).cap.spec_cap() ==> final(self).elements_index
                    == old(self).elements_index && final(self).cap == old(self).cap
                &&& old(self).len == old(self).cap.spec_cap() ==> final(self).cap
                    == ElementArrayKey::spec_key_for(old(self).len + 1)
                &&& forall|i: int|
                    0 <= i < old(elements).storage@.len() && i != final(self).elements_index.0
                        as int ==> final(elements).storage@[i] == old(elements).storage@[i]
                &&& old(elements).storage@.len() <= final(elements).storage@.len()
            },
    {
        if !self.len_writable {
            return Err(ElementsError::Sealed);
        }
        let mut elements_vector: ElementsVector = (*self).into();
        let r = elements_vector.push(elements, value, descriptor);
        self.cap = elements_vector.cap;
        self.len = elements_vector.len;
        self.elements_index = elements_vector.elements_index;
        r
    }

    /// Whether the vector is sealed against length changes.
    pub fn is_sealed(&self) -> (r: bool)
        ensures
            r == !self.len_writable,
    {
        !self.len_writable
    }

    /// Seal the vector: its length can no longer change.
    pub fn seal(&mut self)
        ensures
            !final(self).len_writable,
            final(self).elements_index == old(self).elements_index,
            final(self).cap == old(self).cap,
            final(self).len == old(self).len,
    {
        self.len_writable = false;
    }
}

impl Default for SealableElementsVector {
    /// The empty, writable vector of the empty tier.
    fn default() -> (r: Self)
        ensures
            r.elements_index.0 == 0,
            r.cap == ElementArrayKey::Empty,
            r.len == 0,
            r.len_writable,
    {
        Self {
            elements_index: ElementIndex(0),
            cap: ElementArrayKey::Empty,
            len: 0,
            len_writable: true,
        }
    }
}

impl From<SealableElementsVector> for ElementsVector {
    fn from(value: SealableElementsVector) -> (r: Self) {
        Self { elements_index: value.elements_index, cap: value.cap, len: value.len }
    }
}

impl vstd::std_specs::convert::FromSpecImpl<SealableElementsVector> for ElementsVector {
    open spec fn obeys_from_spec() -> bool {
        true
    }

    open spec fn from_spec(t: SealableElementsVector) -> Self {
        t.spec_elements_vector()
    }
}

/// An Array is an exotic object that gives special treatment to array index
/// property keys. Every Array has a non-configurable length whose value is
/// always a non-negative integral number below 2^32.
#[derive(Debug, Clone, Copy, PartialEq, Eq)]
pub struct ArrayHeapData {
    pub object_index: Option<ObjectIndex>,
    pub elements: SealableElementsVector,
}

impl Default for ArrayHeapData {
    /// No backing object, empty writable elements.
    fn default() -> (r: Self)
        ensures
            r.object_index is None,
            r.elements.cap == ElementArrayKey::Empty,
            r.elements.len == 0,
            r.elements.len_writable,
    {
        Self { object_index: None, elements: SealableElementsVector::default() }
    }
}

impl HeapMarkAndSweep for SealableElementsVector {
    open spec fn edge_has(&self, r: HeapRef) -> bool {
        self.spec_elements_vector().edge_has(r)
    }

    open spec fn reloc_ok(&self, m: RelocMap) -> bool {
        self.spec_elements_vector().reloc_ok(m)
    }

    open spec fn is_relocated(&self, new: &Self, m: RelocMap) -> bool {
        self.spec_elements_vector().is_relocated(&new.spec_elements_vector(), m)
            && new.len_writable == self.len_writable
    }

    fn mark_values(&self, queues: &mut WorkQueues) {
        let elements: ElementsVector = (*self).into();
        elements.mark_values(queues)
    }

    fn sweep_values(&mut self, compactions: &CompactionLists) {
        let mut elements: ElementsVector = (*self).into();
        elements.sweep_values(compactions);
        self.elements_index = elements.elements_index;
    }
}

impl HeapMarkAndSweep for ArrayHeapData {
    open spec fn edge_has(&self, r: HeapRef) -> bool {
        self.object_index.edge_has(r) || self.elements.edge_has(r)
    }

    open spec fn reloc_ok(&self, m: RelocMap) -> bool {
        self.object_index.reloc_ok(m) && self.elements.reloc_ok(m)
    }

    open spec fn is_relocated(&self, new: &Self, m: RelocMap) -> bool {
        self.object_index.is_relocated(&new.object_index, m)
            && self.elements.is_relocated(&new.elements, m)
    }

    fn mark_values(&self, queues: &mut WorkQueues) {
        let Self { object_index, elements } = self;
        object_index.mark_values(queues);
        elements.mark_values(queues);
    }

    fn sweep_values(&mut self, compactions: &CompactionLists) {
        self.object_index.sweep_values(compactions);
        self.elements.sweep_values(compactions);
    }
}

} // verus!
