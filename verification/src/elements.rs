//! Element storage: the growable, tiered-capacity backing of indexable
//! collections.
//!
//! An elements vector is a small descriptor `{ index, capacity class, length }`
//! pointing at a buffer in the element arena. Capacity classes form discrete
//! tiers; growing to a new tier allocates a buffer at the smallest class that
//! fits, copies the live prefix, and repoints the descriptor — the abandoned
//! buffer is reclaimed by the next collection like any other unreachable
//! entity.

use vstd::prelude::*;
use crate::gc::{CompactionLists, HeapMarkAndSweep, RelocMap, WorkQueues};
use crate::indexes::{ElementIndex, HeapRef};
use crate::value::Value;

verus! {

/// Discrete capacity tiers of element buffers. The numeric suffix is the
/// power of two of the tier's capacity; the largest tier is capped at the
/// maximum representable element count.
#[derive(Debug, Clone, Copy, PartialEq, Eq, Structural)]
pub enum ElementArrayKey {
    Empty,
    E4,
    E6,
    E8,
    E10,
    E12,
    E16,
    E24,
    E32,
}

impl ElementArrayKey {
    /// Capacity of a buffer of this tier.
    pub open spec fn spec_cap(self) -> u32 {
        match self {
            ElementArrayKey::Empty => 0,
            ElementArrayKey::E4 => 16,
            ElementArrayKey::E6 => 64,
            ElementArrayKey::E8 => 256,
            ElementArrayKey::E10 => 1024,
            ElementArrayKey::E12 => 4096,
            ElementArrayKey::E16 => 65536,
            ElementArrayKey::E24 => 16777216,
            ElementArrayKey::E32 => 4294967295,
        }
    }

    #[verifier::when_used_as_spec(spec_cap)]
    pub fn cap(self) -> (r: u32)
        ensures
            r == self.spec_cap(),
    {
        match self {
            ElementArrayKey::Empty => 0,
            ElementArrayKey::E4 => 16,
            ElementArrayKey::E6 => 64,
            ElementArrayKey::E8 => 256,
            ElementArrayKey::E10 => 1024,
            ElementArrayKey::E12 => 4096,
            ElementArrayKey::E16 => 65536,
            ElementArrayKey::E24 => 16777216,
            ElementArrayKey::E32 => 4294967295,
        }
    }

    /// The smallest tier whose capacity holds `n` elements.
    pub open spec fn spec_key_for(n: int) -> ElementArrayKey {
        if n == 0 {
            ElementArrayKey::Empty
        } else if n <= 16 {
            ElementArrayKey::E4
        } else if n <= 64 {
            ElementArrayKey::E6
        } else if n <= 256 {
            ElementArrayKey::E8
        } else if n <= 1024 {
            ElementArrayKey::E10
        } else if n <= 4096 {
            ElementArrayKey::E12
        } else if n <= 65536 {
            ElementArrayKey::E16
        } else if n <= 16777216 {
            ElementArrayKey::E24
        } else {
            ElementArrayKey::E32
        }
    }

    pub fn key_for(n: u32) -> (r: ElementArrayKey)
        ensures
            r == ElementArrayKey::spec_key_for(n as int),
            n <= r.spec_cap(),
    {
        if n == 0 {
            ElementArrayKey::Empty
        } else if n <= 16 {
            ElementArrayKey::E4
        } else if n <= 64 {
            ElementArrayKey::E6
        } else if n <= 256 {
            ElementArrayKey::E8
        } else if n <= 1024 {
            ElementArrayKey::E10
        } else if n <= 4096 {
            ElementArrayKey::E12
        } else if n <= 65536 {
            ElementArrayKey::E16
        } else if n <= 16777216 {
            ElementArrayKey::E24
        } else {
            ElementArrayKey::E32
        }
    }
}

/// Property metadata attached to one element position. An accessor
/// descriptor's getter and setter are ordinary values and therefore edges in
/// the reachability graph.
#[derive(Debug, Clone, Copy, PartialEq, Eq)]
pub enum ElementDescriptor {
    Data { writable: bool, enumerable: bool, configurable: bool },
    Accessor {
        getter: Option<Value>,
        setter: Option<Value>,
        enumerable: bool,
        configurable: bool,
    },
}

impl ElementDescriptor {
    pub open spec fn spec_is_accessor(self) -> bool {
        self is Accessor
    }

    pub fn is_accessor(&self) -> (r: bool)
        ensures
            r == self.spec_is_accessor(),
    {
        match self {
            ElementDescriptor::Accessor { .. } => true,
            ElementDescriptor::Data { .. } => false,
        }
    }
}

impl HeapMarkAndSweep for ElementDescriptor {
    open spec fn edge_has(&self, r: HeapRef) -> bool {
        match *self {
            ElementDescriptor::Data { .. } => false,
            ElementDescriptor::Accessor { getter, setter, .. } => getter.edge_has(r)
                || setter.edge_has(r),
        }
    }

    open spec fn reloc_ok(&self, m: RelocMap) -> bool {
        match *self {
            ElementDescriptor::Data { .. } => true,
            ElementDescriptor::Accessor { getter, setter, .. } => getter.reloc_ok(m)
                && setter.reloc_ok(m),
        }
    }

    open spec fn is_relocated(&self, new: &Self, m: RelocMap) -> bool {
        match (*self, *new) {
            (ElementDescriptor::Data { .. }, _) => *new == *self,
            (
                ElementDescriptor::Accessor { getter, setter, enumerable, configurable },
                ElementDescriptor::Accessor {
                    getter: new_getter,
                    setter: new_setter,
                    enumerable: new_enumerable,
                    configurable: new_configurable,
                },
            ) => {
                &&& getter.is_relocated(&new_getter, m)
                &&& setter.is_relocated(&new_setter, m)
                &&& enumerable == new_enumerable
                &&& configurable == new_configurable
            },
            _ => false,
        }
    }

    fn mark_values(&self, queues: &mut WorkQueues) {
        match self {
            ElementDescriptor::Data { .. } => (),
            ElementDescriptor::Accessor { getter, setter, .. } => {
                getter.mark_values(queues);
                setter.mark_values(queues);
            },
        }
    }

    fn sweep_values(&mut self, compactions: &CompactionLists) {
        match self {
            ElementDescriptor::Data { .. } => (),
            ElementDescriptor::Accessor { getter, setter, .. } => {
                getter.sweep_values(compactions);
                setter.sweep_values(compactions);
            },
        }
    }
}

/// One backing buffer: a value and a descriptor slot for every position up
/// to the buffer's capacity. Positions at or beyond the owning vector's
/// length hold nothing.
#[derive(Debug, Clone, PartialEq, Eq)]
pub struct ElementBuf {
    pub values: Vec<Option<Value>>,
    pub descriptors: Vec<Option<ElementDescriptor>>,
}

impl HeapMarkAndSweep for ElementBuf {
    open spec fn edge_has(&self, r: HeapRef) -> bool {
        self.values.edge_has(r) || self.descriptors.edge_has(r)
    }

    open spec fn reloc_ok(&self, m: RelocMap) -> bool {
        self.values.reloc_ok(m) && self.descriptors.reloc_ok(m)
    }

    open spec fn is_relocated(&self, new: &Self, m: RelocMap) -> bool {
        self.values.is_relocated(&new.values, m) && self.descriptors.is_relocated(&new.descriptors, m)
    }

    fn mark_values(&self, queues: &mut WorkQueues) {
        self.values.mark_values(queues);
        self.descriptors.mark_values(queues);
    }

    fn sweep_values(&mut self, compactions: &CompactionLists) {
        self.values.sweep_values(compactions);
        self.descriptors.sweep_values(compactions);
    }
}

/// The element arena: every element buffer of the heap, addressed by
/// `ElementIndex`.
#[derive(Debug)]
pub struct ElementArrays {
    pub storage: Vec<Option<ElementBuf>>,
}

impl ElementArrays {
    pub fn new() -> (e: ElementArrays)
        ensures
            e.storage@.len() == 0,
    {
        ElementArrays { storage: Vec::new() }
    }

    /// Append a fresh all-empty buffer of the given tier and return its
    /// index.
    pub fn alloc_buffer(&mut self, key: ElementArrayKey) -> (idx: ElementIndex)
        requires
            old(self).storage@.len() < u32::MAX,
        ensures
            idx.0 == old(self).storage@.len(),
            final(self).storage@.len() == old(self).storage@.len() + 1,
            forall|i: int|
                0 <= i < old(self).storage@.len() ==> final(self).storage@[i] == old(self).storage@[i],
            final(self).storage@[idx.0 as int] is Some,
            final(self).storage@[idx.0 as int]->Some_0.values@.len() == key.spec_cap(),
            final(self).storage@[idx.0 as int]->Some_0.descriptors@.len() == key.spec_cap(),
            forall|j: int|
                0 <= j < key.spec_cap() ==> final(self).storage@[idx.0 as int]->Some_0.values@[j] is None,
            forall|j: int|
                0 <= j < key.spec_cap() ==> final(self).storage@[idx.0 as int]->Some_0.descriptors@[j] is None,
    {
        let cap = key.cap() as usize;
        let mut values: Vec<Option<Value>> = Vec::new();
        let mut descriptors: Vec<Option<ElementDescriptor>> = Vec::new();
        let mut k: usize = 0;
        while k < cap
            invariant
                k <= cap,
                values@.len() == k,
                descriptors@.len() == k,
                forall|j: int| 0 <= j < k ==> values@[j] is None,
                forall|j: int| 0 <= j < k ==> descriptors@[j] is None,
            decreases cap - k,
        {
            values.push(None);
            descriptors.push(None);
            k = k + 1;
        }
        let idx = ElementIndex(self.storage.len() as u32);
        self.storage.push(Some(ElementBuf { values, descriptors }));
        idx
    }

    /// Read one position of one buffer.
    pub fn read_slot(&self, idx: ElementIndex, pos: u32) -> (r: (
        Option<Value>,
        Option<ElementDescriptor>,
    ))
        requires
            idx.0 < self.storage@.len(),
            self.storage@[idx.0 as int] is Some,
            pos < self.storage@[idx.0 as int]->Some_0.values@.len(),
            pos < self.storage@[idx.0 as int]->Some_0.descriptors@.len(),
        ensures
            r.0 == self.storage@[idx.0 as int]->Some_0.values@[pos as int],
            r.1 == self.storage@[idx.0 as int]->Some_0.descriptors@[pos as int],
    {
        let slot = &self.storage[idx.0 as usize];
        match slot {
            Some(buf) => (buf.values[pos as usize], buf.descriptors[pos as usize]),
            None => (None, None),
        }
    }

    /// Write one position of one buffer, leaving every other buffer and
    /// every other position untouched.
    pub fn write_slot(
        &mut self,
        idx: ElementIndex,
        pos: u32,
        value: Option<Value>,
        descriptor: Option<ElementDescriptor>,
    )
        requires
            idx.0 < old(self).storage@.len(),
            old(self).storage@[idx.0 as int] is Some,
            pos < old(self).storage@[idx.0 as int]->Some_0.values@.len(),
            pos < old(self).storage@[idx.0 as int]->Some_0.descriptors@.len(),
        ensures
            final(self).storage@.len() == old(self).storage@.len(),
            forall|i: int|
                0 <= i < old(self).storage@.len() && i != idx.0 as int ==> final(self).storage@[i] == old(self).storage@[i],
            final(self).storage@[idx.0 as int] is Some,
            final(self).storage@[idx.0 as int]->Some_0.values@ == old(self).storage@[idx.0 as int]->Some_0.values@.update(pos as int, value),
            final(self).storage@[idx.0 as int]->Some_0.descriptors@ == old(self).storage@[idx.0 as int]->Some_0.descriptors@.update(pos as int, descriptor),
    {
        let ghost pre = self.storage@;
        let i = idx.0 as usize;
        let mut slot = self.storage.remove(i);
        match &mut slot {
            Some(buf) => {
                buf.values.set(pos as usize, value);
                buf.descriptors.set(pos as usize, descriptor);
            },
            None => (),
        }
        self.storage.insert(i, slot);
        proof {
            assert(self.storage@ =~= pre.update(idx.0 as int, slot));
        }
    }
}

/// What `reserve` guarantees: capacity now covers `new_len` (at the
/// smallest sufficient tier, at a fresh buffer, when it had to grow), the
/// length and live contents are untouched, nothing already in the arena
/// moved, and a sufficient tier makes it a no-op.
pub open spec fn reserve_post(
    pre_v: ElementsVector,
    pre_a: &ElementArrays,
    post_v: ElementsVector,
    post_a: &ElementArrays,
    new_len: u32,
) -> bool {
    &&& post_v.wf(post_a)
    &&& post_v.len == pre_v.len
    &&& new_len <= post_v.cap.spec_cap()
    &&& new_len <= pre_v.cap.spec_cap() ==> post_v == pre_v && post_a.storage@
        == pre_a.storage@
    &&& post_v.spec_values(post_a) == pre_v.spec_values(pre_a)
    &&& post_v.spec_descriptors(post_a) == pre_v.spec_descriptors(pre_a)
    &&& pre_a.storage@.len() <= post_a.storage@.len()
    &&& forall|i: int|
        0 <= i < pre_a.storage@.len() ==> post_a.storage@[i] == pre_a.storage@[i]
    &&& pre_v.cap.spec_cap() < new_len ==> {
        &&& post_v.cap == ElementArrayKey::spec_key_for(new_len as int)
        &&& post_v.elements_index.0 == pre_a.storage@.len()
        &&& post_a.storage@.len() == pre_a.storage@.len() + 1
    }
}

/// What `push` guarantees: failure exactly at the maximum representable
/// element count (and then no change at all); on success one more live
/// position holding the pushed value and descriptor, no reallocation while
/// the tier has room, growth to the smallest tier that fits otherwise, and
/// no other buffer touched.
pub open spec fn push_post(
    pre_v: ElementsVector,
    pre_a: &ElementArrays,
    post_v: ElementsVector,
    post_a: &ElementArrays,
    value: Option<Value>,
    descriptor: Option<ElementDescriptor>,
    r: Result<(), ElementsError>,
) -> bool {
    &&& post_v.wf(post_a)
    &&& (r is Err <==> pre_v.len == u32::MAX)
    &&& r is Err ==> r == Err::<(), ElementsError>(ElementsError::CapacityExceeded) && post_v
        == pre_v && post_a.storage@ == pre_a.storage@
    &&& r is Ok ==> {
        &&& post_v.len == pre_v.len + 1
        &&& post_v.spec_values(post_a) == pre_v.spec_values(pre_a).push(value)
        &&& post_v.spec_descriptors(post_a) == pre_v.spec_descriptors(pre_a).push(descriptor)
        &&& pre_v.len < pre_v.cap.spec_cap() ==> post_v.elements_index == pre_v.elements_index
            && post_v.cap == pre_v.cap
        &&& pre_v.len == pre_v.cap.spec_cap() ==> post_v.cap == ElementArrayKey::spec_key_for(
            pre_v.len + 1,
        ) && post_v.elements_index.0 == pre_a.storage@.len()
        &&& forall|i: int|
            0 <= i < pre_a.storage@.len() && i != post_v.elements_index.0 as int
                ==> post_a.storage@[i] == pre_a.storage@[i]
        &&& pre_a.storage@.len() <= post_a.storage@.len()
    }
}

/// Elements-vector growth, as a law: reserving capacity for `new_len` and
/// then pushing while still below `new_len` succeeds without reallocating —
/// the buffer index and the tier stay put.
pub proof fn lemma_reserved_pushes_do_not_reallocate(
    v0: ElementsVector,
    a0: &ElementArrays,
    v1: ElementsVector,
    a1: &ElementArrays,
    v2: ElementsVector,
    a2: &ElementArrays,
    new_len: u32,
    value: Option<Value>,
    descriptor: Option<ElementDescriptor>,
    r: Result<(), ElementsError>,
)
    requires
        reserve_post(v0, a0, v1, a1, new_len),
        push_post(v1, a1, v2, a2, value, descriptor, r),
        v1.len < new_len,
    ensures
        r is Ok,
        v2.elements_index == v1.elements_index,
        v2.cap == v1.cap,
        v2.len == v1.len + 1,
{
}

/// Failure of an elements-vector operation that must not silently truncate:
/// either the vector is sealed against length changes, or the maximum
/// representable element count is reached. Both are reported to the caller,
/// never absorbed.
#[derive(Debug, Clone, Copy, PartialEq, Eq)]
pub enum ElementsError {
    Sealed,
    CapacityExceeded,
}

/// A growable elements vector: a typed index into the element arena, the
/// capacity class of the buffer there, and the number of live positions.
#[derive(Debug, Clone, Copy, PartialEq, Eq)]
pub struct ElementsVector {
    pub elements_index: ElementIndex,
    pub cap: ElementArrayKey,
    pub len: u32,
}

impl ElementsVector {
    /// The vector's descriptor is consistent with the arena: its length fits
    /// its tier, and (unless empty-tier) it points at a buffer of exactly
    /// that tier whose positions past `len` hold nothing.
    pub open spec fn wf(self, arenas: &ElementArrays) -> bool {
        &&& self.len <= self.cap.spec_cap()
        &&& self.cap != ElementArrayKey::Empty ==> {
            &&& self.elements_index.0 < arenas.storage@.len()
            &&& arenas.storage@[self.elements_index.0 as int] is Some
            &&& arenas.storage@[self.elements_index.0 as int]->Some_0.values@.len()
                == self.cap.spec_cap()
            &&& arenas.storage@[self.elements_index.0 as int]->Some_0.descriptors@.len()
                == self.cap.spec_cap()
            &&& forall|j: int|
                self.len <= j < self.cap.spec_cap() ==> arenas.storage@[self.elements_index.0
                    as int]->Some_0.values@[j] is None
            &&& forall|j: int|
                self.len <= j < self.cap.spec_cap() ==> arenas.storage@[self.elements_index.0
                    as int]->Some_0.descriptors@[j] is None
        }
    }

    /// The live values, position by position.
    pub open spec fn spec_values(self, arenas: &ElementArrays) -> Seq<Option<Value>> {
        if self.cap == ElementArrayKey::Empty {
            Seq::empty()
        } else {
            arenas.storage@[self.elements_index.0 as int]->Some_0.values@.take(self.len as int)
        }
    }

    /// The live descriptors, position by position.
    pub open spec fn spec_descriptors(self, arenas: &ElementArrays) -> Seq<
        Option<ElementDescriptor>,
    > {
        if self.cap == ElementArrayKey::Empty {
            Seq::empty()
        } else {
            arenas.storage@[self.elements_index.0 as int]->Some_0.descriptors@.take(
                self.len as int,
            )
        }
    }

    /// An empty vector of the empty tier, pointing nowhere.
    pub fn new_empty() -> (r: ElementsVector)
        ensures
            r.elements_index.0 == 0,
            r.cap == ElementArrayKey::Empty,
            r.len == 0,
            forall|a: &ElementArrays| r.wf(a) && r.spec_values(a) =~= Seq::empty(),
    {
        ElementsVector {
            elements_index: ElementIndex(0),
            cap: ElementArrayKey::Empty,
            len: 0,
        }
    }

    /// Ensure capacity for `new_len` elements. A no-op when the current tier
    /// already suffices; otherwise allocates a fresh buffer at the smallest
    /// sufficient tier, copies the live prefix, and repoints the descriptor.
    /// The abandoned buffer is left for the collector.
    pub fn reserve(&mut self, elements: &mut ElementArrays, new_len: u32)
        requires
            old(self).wf(old(elements)),
            old(elements).storage@.len() < u32::MAX,
        ensures
            reserve_post(*old(self), old(elements), *final(self), final(elements), new_len),
    {
        if new_len <= self.cap.cap() {
            return ;
        }
        let ghost pre_self = *self;
        let ghost pre_elems = *elements;
        let key = ElementArrayKey::key_for(new_len);
        let new_idx = elements.alloc_buffer(key);
        let mut j: u32 = 0;
        while j < self.len
            invariant
                j <= self.len,
                *self == pre_self,
                pre_self.wf(&pre_elems),
                self.len <= key.spec_cap(),
                pre_self.len > 0 ==> pre_self.cap != ElementArrayKey::Empty,
                new_idx.0 as int == pre_elems.storage@.len(),
                elements.storage@.len() == pre_elems.storage@.len() + 1,
                forall|i: int|
                    0 <= i < pre_elems.storage@.len() ==> elements.storage@[i]
                        == pre_elems.storage@[i],
                elements.storage@[new_idx.0 as int] is Some,
                elements.storage@[new_idx.0 as int]->Some_0.values@.len() == key.spec_cap(),
                elements.storage@[new_idx.0 as int]->Some_0.descriptors@.len()
                    == key.spec_cap(),
                forall|i: int|
                    0 <= i < j ==> elements.storage@[new_idx.0 as int]->Some_0.values@[i]
                        == pre_self.spec_values(&pre_elems)[i],
                forall|i: int|
                    0 <= i < j ==> elements.storage@[new_idx.0 as int]->Some_0.descriptors@[i]
                        == pre_self.spec_descriptors(&pre_elems)[i],
                forall|i: int|
                    j <= i < key.spec_cap() ==> elements.storage@[new_idx.0
                        as int]->Some_0.values@[i] is None,
                forall|i: int|
                    j <= i < key.spec_cap() ==> elements.storage@[new_idx.0
                        as int]->Some_0.descriptors@[i] is None,
            decreases self.len - j,
        {
            let (v, d) = elements.read_slot(self.elements_index, j);
            elements.write_slot(new_idx, j, v, d);
            proof {
                assert(elements.storage@[new_idx.0 as int]->Some_0.values@[j as int] == v);
            }
            j = j + 1;
        }
        self.cap = key;
        self.elements_index = new_idx;
        proof {
            assert(self.spec_values(elements) =~= pre_self.spec_values(&pre_elems));
            assert(self.spec_descriptors(elements) =~= pre_self.spec_descriptors(&pre_elems));
        }
    }

    /// Append one element. Grows first when full (to the next tier that
    /// fits); fails only at the maximum representable element count, and
    /// then changes nothing.
    pub fn push(
        &mut self,
        elements: &mut ElementArrays,
        value: Option<Value>,
        descriptor: Option<ElementDescriptor>,
    ) -> (r: Result<(), ElementsError>)
        requires
            old(self).wf(old(elements)),
            old(elements).storage@.len() < u32::MAX,
        ensures
            push_post(
                *old(self),
                old(elements),
                *final(self),
                final(elements),
                value,
                descriptor,
                r,
            ),
    {
        if self.len == u32::MAX {
            return Err(ElementsError::CapacityExceeded);
        }
        let ghost pre_self = *self;
        let ghost pre_elems = *elements;
        if self.len >= self.cap.cap() {
            self.reserve(elements, self.len + 1);
        }
        let ghost mid_self = *self;
        let ghost mid_elems = *elements;
        elements.write_slot(self.elements_index, self.len, value, descriptor);
        self.len = self.len + 1;
        proof {
            assert(self.spec_values(elements) =~= mid_self.spec_values(&mid_elems).push(value));
            assert(self.spec_descriptors(elements) =~= mid_self.spec_descriptors(
                &mid_elems,
            ).push(descriptor));
        }
        Ok(())
    }

    /// No position up to `len` lacks a value or carries a descriptor.
    pub open spec fn spec_is_dense(self, arenas: &ElementArrays) -> bool {
        forall|j: int|
            0 <= j < self.len ==> #[trigger] self.spec_values(arenas)[j] is Some
                && self.spec_descriptors(arenas)[j] is None
    }

    /// No position up to `len` carries an accessor descriptor.
    pub open spec fn spec_is_simple(self, arenas: &ElementArrays) -> bool {
        forall|j: int|
            0 <= j < self.len ==> match #[trigger] self.spec_descriptors(arenas)[j] {
                Some(d) => !d.spec_is_accessor(),
                None => true,
            }
    }

    /// No position up to `len` carries any descriptor.
    pub open spec fn spec_is_trivial(self, arenas: &ElementArrays) -> bool {
        forall|j: int| 0 <= j < self.len ==> #[trigger] self.spec_descriptors(arenas)[j] is None
    }

    /// Read-only scan: every live position holds a plain value with no
    /// descriptor. Recomputed on demand, reflecting the current contents.
    pub fn is_dense(&self, elements: &ElementArrays) -> (r: bool)
        requires
            self.wf(elements),
        ensures
            r == self.spec_is_dense(elements),
    {
        let mut j: u32 = 0;
        while j < self.len
            invariant
                j <= self.len,
                self.wf(elements),
                forall|i: int|
                    0 <= i < j ==> #[trigger] self.spec_values(elements)[i] is Some
                        && self.spec_descriptors(elements)[i] is None,
            decreases self.len - j,
        {
            let (v, d) = elements.read_slot(self.elements_index, j);
            if v.is_none() || d.is_some() {
                proof {
                    assert(self.spec_values(elements)[j as int] == v);
                    assert(self.spec_descriptors(elements)[j as int] == d);
                }
                return false;
            }
            j = j + 1;
        }
        true
    }

    /// Read-only scan: no live position carries an accessor descriptor.
    pub fn is_simple(&self, elements: &ElementArrays) -> (r: bool)
        requires
            self.wf(elements),
        ensures
            r == self.spec_is_simple(elements),
    {
        let mut j: u32 = 0;
        while j < self.len
            invariant
                j <= self.len,
                self.wf(elements),
                forall|i: int|
                    0 <= i < j ==> match #[trigger] self.spec_descriptors(elements)[i] {
                        Some(d) => !d.spec_is_accessor(),
                        None => true,
                    },
            decreases self.len - j,
        {
            let (_, d) = elements.read_slot(self.elements_index, j);
            match d {
                Some(desc) => if desc.is_accessor() {
                    proof {
                        assert(self.spec_descriptors(elements)[j as int] == d);
                    }
                    return false;
                },
                None => (),
            }
            j = j + 1;
        }
        true
    }

    /// Read-only scan: no live position carries any descriptor.
    pub fn is_trivial(&self, elements: &ElementArrays) -> (r: bool)
        requires
            self.wf(elements),
        ensures
            r == self.spec_is_trivial(elements),
    {
        let mut j: u32 = 0;
        while j < self.len
            invariant
                j <= self.len,
                self.wf(elements),
                forall|i: int|
                    0 <= i < j ==> #[trigger] self.spec_descriptors(elements)[i] is None,
            decreases self.len - j,
        {
            let (_, d) = elements.read_slot(self.elements_index, j);
            if d.is_some() {
                proof {
                    assert(self.spec_descriptors(elements)[j as int] == d);
                }
                return false;
            }
            j = j + 1;
        }
        true
    }
}

impl HeapMarkAndSweep for ElementsVector {
    open spec fn edge_has(&self, r: HeapRef) -> bool {
        self.cap != ElementArrayKey::Empty && r == HeapRef::Elems(self.elements_index.0)
    }

    open spec fn reloc_ok(&self, m: RelocMap) -> bool {
        self.cap != ElementArrayKey::Empty ==> m.is_live(
            HeapRef::Elems(self.elements_index.0),
        )
    }

    open spec fn is_relocated(&self, new: &Self, m: RelocMap) -> bool {
        &&& new.cap == self.cap
        &&& new.len == self.len
        &&& if self.cap == ElementArrayKey::Empty {
            new.elements_index == self.elements_index
        } else {
            HeapRef::Elems(new.elements_index.0) == m.shifted(
                HeapRef::Elems(self.elements_index.0),
            )
        }
    }

    fn mark_values(&self, queues: &mut WorkQueues) {
        if self.cap != ElementArrayKey::Empty {
            queues.push_ref(HeapRef::Elems(self.elements_index.0));
        }
    }

    fn sweep_values(&mut self, compactions: &CompactionLists) {
        if self.cap != ElementArrayKey::Empty {
            compactions.elements.shift_index(&mut self.elements_index.0);
        }
    }
}

} // verus!
