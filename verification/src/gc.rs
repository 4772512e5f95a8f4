//! Shared machinery of the mark-and-sweep collector.
//!
//! `WorkQueues` holds one worklist of indices per entity kind for the mark
//! phase; `HeapBits` records which slots have been reached; `CompactionLists`
//! is the per-kind compaction plan — for every slot, whether it survives and
//! how many removed slots precede it. Every heap entity type implements
//! `HeapMarkAndSweep`: `mark_values` enumerates its outgoing edges into the
//! work queues, `sweep_values` rewrites its stored indices through the plan.

use vstd::prelude::*;
use crate::counts::{count_true, live_below};
use crate::indexes::{
    ArrayIndex, ElementIndex, HeapRef, MapIndex, ModuleIndex, ObjectIndex, RealmIndex,
    StringIndex, WeakMapIndex,
};
use crate::value::{value_ref, JsString, Value};

verus! {

/// Per-type worklists of indices discovered reachable during marking.
pub struct WorkQueues {
    pub objects: Vec<u32>,
    pub arrays: Vec<u32>,
    pub maps: Vec<u32>,
    pub weak_maps: Vec<u32>,
    pub modules: Vec<u32>,
    pub strings: Vec<u32>,
    pub elements: Vec<u32>,
    pub realms: Vec<u32>,
}

impl WorkQueues {
    /// Whether some worklist holds the given reference.
    pub open spec fn contains_ref(&self, r: HeapRef) -> bool {
        match r {
            HeapRef::Object(i) => self.objects@.contains(i),
            HeapRef::Array(i) => self.arrays@.contains(i),
            HeapRef::JsMap(i) => self.maps@.contains(i),
            HeapRef::WeakMap(i) => self.weak_maps@.contains(i),
            HeapRef::Module(i) => self.modules@.contains(i),
            HeapRef::Str(i) => self.strings@.contains(i),
            HeapRef::Elems(i) => self.elements@.contains(i),
            HeapRef::Realm(i) => self.realms@.contains(i),
        }
    }

    /// Total number of queued indices, over all worklists.
    pub open spec fn total(&self) -> int {
        self.objects@.len() as int + self.arrays@.len() + self.maps@.len()
            + self.weak_maps@.len() + self.modules@.len() + self.strings@.len()
            + self.elements@.len() + self.realms@.len()
    }

    pub fn new() -> (q: WorkQueues)
        ensures
            q.total() == 0,
            forall|r: HeapRef| !q.contains_ref(r),
    {
        WorkQueues {
            objects: Vec::new(),
            arrays: Vec::new(),
            maps: Vec::new(),
            weak_maps: Vec::new(),
            modules: Vec::new(),
            strings: Vec::new(),
            elements: Vec::new(),
            realms: Vec::new(),
        }
    }

    /// Queue one reference.
    pub fn push_ref(&mut self, r: HeapRef)
        ensures
            forall|r2: HeapRef|
                final(self).contains_ref(r2) <==> old(self).contains_ref(r2) || r2 == r,
            final(self).total() == old(self).total() + 1,
    {
        let ghost pre = *self;
        match r {
            HeapRef::Object(i) => {
                self.objects.push(i);
                proof { lemma_push_contains(pre.objects@, i); }
            },
            HeapRef::Array(i) => {
                self.arrays.push(i);
                proof { lemma_push_contains(pre.arrays@, i); }
            },
            HeapRef::JsMap(i) => {
                self.maps.push(i);
                proof { lemma_push_contains(pre.maps@, i); }
            },
            HeapRef::WeakMap(i) => {
                self.weak_maps.push(i);
                proof { lemma_push_contains(pre.weak_maps@, i); }
            },
            HeapRef::Module(i) => {
                self.modules.push(i);
                proof { lemma_push_contains(pre.modules@, i); }
            },
            HeapRef::Str(i) => {
                self.strings.push(i);
                proof { lemma_push_contains(pre.strings@, i); }
            },
            HeapRef::Elems(i) => {
                self.elements.push(i);
                proof { lemma_push_contains(pre.elements@, i); }
            },
            HeapRef::Realm(i) => {
                self.realms.push(i);
                proof { lemma_push_contains(pre.realms@, i); }
            },
        }
    }

    /// Remove and return some queued reference; `None` exactly when every
    /// worklist is empty. The order is unspecified and must not be relied
    /// upon beyond "every reachable entity gets processed".
    pub fn pop_any(&mut self) -> (r: Option<HeapRef>)
        ensures
            match r {
                None => {
                    &&& old(self).total() == 0
                    &&& final(self).total() == 0
                    &&& forall|r2: HeapRef| !final(self).contains_ref(r2)
                },
                Some(p) => {
                    &&& old(self).contains_ref(p)
                    &&& final(self).total() == old(self).total() - 1
                    &&& forall|r2: HeapRef|
                        #[trigger] final(self).contains_ref(r2) ==> old(self).contains_ref(r2)
                    &&& forall|r2: HeapRef|
                        old(self).contains_ref(r2) && r2 != p
                            ==> #[trigger] final(self).contains_ref(r2)
                },
            },
    {
        let ghost pre = *self;
        if let Some(i) = self.objects.pop() {
            proof { lemma_pop_contains(pre.objects@); }
            return Some(HeapRef::Object(i));
        }
        if let Some(i) = self.arrays.pop() {
            proof { lemma_pop_contains(pre.arrays@); }
            return Some(HeapRef::Array(i));
        }
        if let Some(i) = self.maps.pop() {
            proof { lemma_pop_contains(pre.maps@); }
            return Some(HeapRef::JsMap(i));
        }
        if let Some(i) = self.weak_maps.pop() {
            proof { lemma_pop_contains(pre.weak_maps@); }
            return Some(HeapRef::WeakMap(i));
        }
        if let Some(i) = self.modules.pop() {
            proof { lemma_pop_contains(pre.modules@); }
            return Some(HeapRef::Module(i));
        }
        if let Some(i) = self.strings.pop() {
            proof { lemma_pop_contains(pre.strings@); }
            return Some(HeapRef::Str(i));
        }
        if let Some(i) = self.elements.pop() {
            proof { lemma_pop_contains(pre.elements@); }
            return Some(HeapRef::Elems(i));
        }
        if let Some(i) = self.realms.pop() {
            proof { lemma_pop_contains(pre.realms@); }
            return Some(HeapRef::Realm(i));
        }
        None
    }
}

/// After a push, a sequence contains exactly what it did plus the new last
/// element.
proof fn lemma_push_contains(pre: Seq<u32>, x: u32)
    ensures
        forall|y: u32| #[trigger] pre.push(x).contains(y) <==> pre.contains(y) || y == x,
{
    assert forall|y: u32|
        #[trigger] pre.push(x).contains(y) <==> pre.contains(y) || y == x by {
        if pre.push(x).contains(y) {
            let i = choose|i: int| 0 <= i < pre.push(x).len() && pre.push(x)[i] == y;
            if i < pre.len() {
                assert(pre[i] == y);
            }
        }
        if pre.contains(y) {
            let i = choose|i: int| 0 <= i < pre.len() && pre[i] == y;
            assert(pre.push(x)[i] == y);
        }
        assert(pre.push(x)[pre.len() as int] == x);
    }
}

/// After a pop, everything still contained was contained before, and
/// everything but the popped element is still contained.
proof fn lemma_pop_contains(pre: Seq<u32>)
    requires
        pre.len() > 0,
    ensures
        pre.contains(pre.last()),
        forall|y: u32|
            #[trigger] pre.subrange(0, pre.len() - 1).contains(y) ==> pre.contains(y),
        forall|y: u32|
            pre.contains(y) && y != pre.last() ==> #[trigger] pre.subrange(
                0,
                pre.len() - 1,
            ).contains(y),
{
    let post = pre.subrange(0, pre.len() - 1);
    assert(pre[pre.len() - 1] == pre.last());
    assert forall|y: u32| #[trigger] post.contains(y) implies pre.contains(y) by {
        let i = choose|i: int| 0 <= i < post.len() && post[i] == y;
        assert(pre[i] == y);
    }
    assert forall|y: u32| pre.contains(y) && y != pre.last() implies #[trigger] post.contains(
        y,
    ) by {
        let i = choose|i: int| 0 <= i < pre.len() && pre[i] == y;
        assert(i < pre.len() - 1);
        assert(post[i] == y);
    }
}

/// One bit per arena slot: set once the slot has been reached by marking.
pub struct HeapBits {
    pub objects: Vec<bool>,
    pub arrays: Vec<bool>,
    pub maps: Vec<bool>,
    pub weak_maps: Vec<bool>,
    pub modules: Vec<bool>,
    pub strings: Vec<bool>,
    pub elements: Vec<bool>,
    pub realms: Vec<bool>,
}

impl HeapBits {
    /// Whether the slot the reference names is within the recorded arena
    /// bounds.
    pub open spec fn in_range(&self, r: HeapRef) -> bool {
        match r {
            HeapRef::Object(i) => i < self.objects@.len(),
            HeapRef::Array(i) => i < self.arrays@.len(),
            HeapRef::JsMap(i) => i < self.maps@.len(),
            HeapRef::WeakMap(i) => i < self.weak_maps@.len(),
            HeapRef::Module(i) => i < self.modules@.len(),
            HeapRef::Str(i) => i < self.strings@.len(),
            HeapRef::Elems(i) => i < self.elements@.len(),
            HeapRef::Realm(i) => i < self.realms@.len(),
        }
    }

    /// Whether the slot the reference names has been reached.
    pub open spec fn marked(&self, r: HeapRef) -> bool {
        self.in_range(r) && match r {
            HeapRef::Object(i) => self.objects@[i as int],
            HeapRef::Array(i) => self.arrays@[i as int],
            HeapRef::JsMap(i) => self.maps@[i as int],
            HeapRef::WeakMap(i) => self.weak_maps@[i as int],
            HeapRef::Module(i) => self.modules@[i as int],
            HeapRef::Str(i) => self.strings@[i as int],
            HeapRef::Elems(i) => self.elements@[i as int],
            HeapRef::Realm(i) => self.realms@[i as int],
        }
    }

    /// Total number of in-range slots not yet reached: the mark engine's
    /// termination measure.
    pub open spec fn unmarked_total(&self) -> int {
        (self.objects@.len() - count_true(self.objects@)) + (self.arrays@.len() - count_true(
            self.arrays@,
        )) + (self.maps@.len() - count_true(self.maps@)) + (self.weak_maps@.len() - count_true(
            self.weak_maps@,
        )) + (self.modules@.len() - count_true(self.modules@)) + (self.strings@.len()
            - count_true(self.strings@)) + (self.elements@.len() - count_true(self.elements@))
            + (self.realms@.len() - count_true(self.realms@))
    }

    /// The lengths of all bit vectors, unchanged by marking.
    pub open spec fn same_shape(&self, other: &HeapBits) -> bool {
        &&& self.objects@.len() == other.objects@.len()
        &&& self.arrays@.len() == other.arrays@.len()
        &&& self.maps@.len() == other.maps@.len()
        &&& self.weak_maps@.len() == other.weak_maps@.len()
        &&& self.modules@.len() == other.modules@.len()
        &&& self.strings@.len() == other.strings@.len()
        &&& self.elements@.len() == other.elements@.len()
        &&& self.realms@.len() == other.realms@.len()
    }

    pub fn is_marked(&self, r: HeapRef) -> (m: bool)
        requires
            self.in_range(r),
        ensures
            m == self.marked(r),
    {
        match r {
            HeapRef::Object(i) => self.objects[i as usize],
            HeapRef::Array(i) => self.arrays[i as usize],
            HeapRef::JsMap(i) => self.maps[i as usize],
            HeapRef::WeakMap(i) => self.weak_maps[i as usize],
            HeapRef::Module(i) => self.modules[i as usize],
            HeapRef::Str(i) => self.strings[i as usize],
            HeapRef::Elems(i) => self.elements[i as usize],
            HeapRef::Realm(i) => self.realms[i as usize],
        }
    }

    /// Record the slot as reached. Idempotent at the level of `marked`,
    /// called only on unreached slots so the termination measure drops.
    pub fn set_marked(&mut self, r: HeapRef)
        requires
            old(self).in_range(r),
            !old(self).marked(r),
        ensures
            final(self).same_shape(old(self)),
            final(self).marked(r),
            forall|r2: HeapRef|
                r2 != r ==> #[trigger] final(self).marked(r2) == old(self).marked(r2),
            final(self).unmarked_total() == old(self).unmarked_total() - 1,
    {
        let ghost pre = *self;
        match r {
            HeapRef::Object(i) => self.objects.set(i as usize, true),
            HeapRef::Array(i) => self.arrays.set(i as usize, true),
            HeapRef::JsMap(i) => self.maps.set(i as usize, true),
            HeapRef::WeakMap(i) => self.weak_maps.set(i as usize, true),
            HeapRef::Module(i) => self.modules.set(i as usize, true),
            HeapRef::Str(i) => self.strings.set(i as usize, true),
            HeapRef::Elems(i) => self.elements.set(i as usize, true),
            HeapRef::Realm(i) => self.realms.set(i as usize, true),
        }
        proof {
            match r {
                HeapRef::Object(i) => crate::counts::lemma_count_true_set(pre.objects@, i as int),
                HeapRef::Array(i) => crate::counts::lemma_count_true_set(pre.arrays@, i as int),
                HeapRef::JsMap(i) => crate::counts::lemma_count_true_set(pre.maps@, i as int),
                HeapRef::WeakMap(i) => crate::counts::lemma_count_true_set(
                    pre.weak_maps@,
                    i as int,
                ),
                HeapRef::Module(i) => crate::counts::lemma_count_true_set(pre.modules@, i as int),
                HeapRef::Str(i) => crate::counts::lemma_count_true_set(pre.strings@, i as int),
                HeapRef::Elems(i) => crate::counts::lemma_count_true_set(pre.elements@, i as int),
                HeapRef::Realm(i) => crate::counts::lemma_count_true_set(pre.realms@, i as int),
            }
        }
    }

    /// All-clear bits for arenas of the given lengths.
    pub fn new_cleared(
        n_objects: usize,
        n_arrays: usize,
        n_maps: usize,
        n_weak_maps: usize,
        n_modules: usize,
        n_strings: usize,
        n_elements: usize,
        n_realms: usize,
    ) -> (b: HeapBits)
        ensures
            b.objects@.len() == n_objects,
            b.arrays@.len() == n_arrays,
            b.maps@.len() == n_maps,
            b.weak_maps@.len() == n_weak_maps,
            b.modules@.len() == n_modules,
            b.strings@.len() == n_strings,
            b.elements@.len() == n_elements,
            b.realms@.len() == n_realms,
            forall|r: HeapRef| !b.marked(r),
    {
        let b = HeapBits {
            objects: cleared_bits(n_objects),
            arrays: cleared_bits(n_arrays),
            maps: cleared_bits(n_maps),
            weak_maps: cleared_bits(n_weak_maps),
            modules: cleared_bits(n_modules),
            strings: cleared_bits(n_strings),
            elements: cleared_bits(n_elements),
            realms: cleared_bits(n_realms),
        };
        b
    }
}

/// A vector of `n` clear bits.
fn cleared_bits(n: usize) -> (v: Vec<bool>)
    ensures
        v@.len() == n,
        forall|i: int| 0 <= i < n ==> !v@[i],
{
    let mut v: Vec<bool> = Vec::new();
    let mut k: usize = 0;
    while k < n
        invariant
            k <= n,
            v@.len() == k,
            forall|i: int| 0 <= i < k ==> !v@[i],
        decreases n - k,
    {
        v.push(false);
        k = k + 1;
    }
    v
}

/// One type's compaction plan: for every old slot, whether it survives, and
/// the number of removed slots preceding it (a monotonically non-decreasing
/// shift).
pub struct CompactionList {
    pub live: Vec<bool>,
    pub shifts: Vec<u32>,
}

impl CompactionList {
    pub open spec fn wf(&self) -> bool {
        &&& self.shifts@.len() == self.live@.len()
        &&& forall|i: int|
            0 <= i < self.live@.len() ==> #[trigger] self.shifts@[i] as int == i - live_below(
                self.live@,
                i,
            )
    }

    /// New position of a surviving old index.
    pub open spec fn spec_new_index(&self, i: int) -> int {
        live_below(self.live@, i)
    }

    /// Rewrite one stored index in place: `new = old - shift(old)`.
    pub fn shift_index(&self, i: &mut u32)
        requires
            self.wf(),
            *old(i) < self.live@.len(),
            self.live@[*old(i) as int],
        ensures
            *final(i) as int == self.spec_new_index(*old(i) as int),
    {
        proof {
            crate::counts::lemma_live_below_bounds(self.live@, *i as int);
        }
        *i = *i - self.shifts[*i as usize];
    }

    /// Build the plan for one arena from its mark bits: a single scan
    /// accumulating, for each slot, the count of removed slots before it.
    pub fn build(bits: &Vec<bool>) -> (c: CompactionList)
        requires
            bits@.len() <= u32::MAX,
        ensures
            c.live@ == bits@,
            c.wf(),
    {
        let n = bits.len();
        let mut shifts: Vec<u32> = Vec::new();
        let mut dead: u32 = 0;
        let mut k: usize = 0;
        while k < n
            invariant
                k <= n,
                n == bits@.len(),
                n <= u32::MAX,
                shifts@.len() == k,
                dead as int == k - live_below(bits@, k as int),
                0 <= live_below(bits@, k as int) <= k,
                forall|i: int|
                    0 <= i < k ==> #[trigger] shifts@[i] as int == i - live_below(bits@, i),
            decreases n - k,
        {
            proof {
                crate::counts::lemma_live_below_step(bits@, k as int);
                crate::counts::lemma_live_below_bounds(bits@, k as int + 1);
            }
            shifts.push(dead);
            if !bits[k] {
                dead = dead + 1;
            }
            k = k + 1;
        }
        CompactionList { live: bits.clone(), shifts }
    }
}

/// The per-type compaction plans for one collection.
pub struct CompactionLists {
    pub objects: CompactionList,
    pub arrays: CompactionList,
    pub maps: CompactionList,
    pub weak_maps: CompactionList,
    pub modules: CompactionList,
    pub strings: CompactionList,
    pub elements: CompactionList,
    pub realms: CompactionList,
}

impl CompactionLists {
    pub open spec fn wf(&self) -> bool {
        &&& self.objects.wf()
        &&& self.arrays.wf()
        &&& self.maps.wf()
        &&& self.weak_maps.wf()
        &&& self.modules.wf()
        &&& self.strings.wf()
        &&& self.elements.wf()
        &&& self.realms.wf()
    }

    /// Whether the reference names a slot within the plan's bounds.
    pub open spec fn in_range(&self, r: HeapRef) -> bool {
        match r {
            HeapRef::Object(i) => i < self.objects.live@.len(),
            HeapRef::Array(i) => i < self.arrays.live@.len(),
            HeapRef::JsMap(i) => i < self.maps.live@.len(),
            HeapRef::WeakMap(i) => i < self.weak_maps.live@.len(),
            HeapRef::Module(i) => i < self.modules.live@.len(),
            HeapRef::Str(i) => i < self.strings.live@.len(),
            HeapRef::Elems(i) => i < self.elements.live@.len(),
            HeapRef::Realm(i) => i < self.realms.live@.len(),
        }
    }

    /// The specification-level content of this plan.
    pub open spec fn reloc_map(&self) -> RelocMap {
        RelocMap {
            objects: self.objects.live@,
            arrays: self.arrays.live@,
            maps: self.maps.live@,
            weak_maps: self.weak_maps.live@,
            modules: self.modules.live@,
            strings: self.strings.live@,
            elements: self.elements.live@,
            realms: self.realms.live@,
        }
    }
}

/// Which slot of a bit sequence ranks `i`-th among the set positions: the
/// new index of old position `i` after compaction removes the clear ones.
pub open spec fn rank(s: Seq<bool>, i: u32) -> u32 {
    live_below(s, i as int) as u32
}

/// The specification-level content of a compaction plan: one liveness mask
/// per entity kind. Everything a relocation means is determined by these
/// masks, so contracts speak of this map rather than of the runtime tables.
#[verifier::ext_equal]
pub struct RelocMap {
    pub objects: Seq<bool>,
    pub arrays: Seq<bool>,
    pub maps: Seq<bool>,
    pub weak_maps: Seq<bool>,
    pub modules: Seq<bool>,
    pub strings: Seq<bool>,
    pub elements: Seq<bool>,
    pub realms: Seq<bool>,
}

impl RelocMap {
    /// Whether the reference names a slot within the mask's bounds.
    pub open spec fn in_range(self, r: HeapRef) -> bool {
        match r {
            HeapRef::Object(i) => i < self.objects.len(),
            HeapRef::Array(i) => i < self.arrays.len(),
            HeapRef::JsMap(i) => i < self.maps.len(),
            HeapRef::WeakMap(i) => i < self.weak_maps.len(),
            HeapRef::Module(i) => i < self.modules.len(),
            HeapRef::Str(i) => i < self.strings.len(),
            HeapRef::Elems(i) => i < self.elements.len(),
            HeapRef::Realm(i) => i < self.realms.len(),
        }
    }

    /// Whether the slot the reference names survives the collection.
    pub open spec fn is_live(self, r: HeapRef) -> bool {
        self.in_range(r) && match r {
            HeapRef::Object(i) => self.objects[i as int],
            HeapRef::Array(i) => self.arrays[i as int],
            HeapRef::JsMap(i) => self.maps[i as int],
            HeapRef::WeakMap(i) => self.weak_maps[i as int],
            HeapRef::Module(i) => self.modules[i as int],
            HeapRef::Str(i) => self.strings[i as int],
            HeapRef::Elems(i) => self.elements[i as int],
            HeapRef::Realm(i) => self.realms[i as int],
        }
    }

    /// The reference after compaction: same kind, old index replaced by its
    /// rank among the surviving slots.
    pub open spec fn shifted(self, r: HeapRef) -> HeapRef {
        match r {
            HeapRef::Object(i) => HeapRef::Object(rank(self.objects, i)),
            HeapRef::Array(i) => HeapRef::Array(rank(self.arrays, i)),
            HeapRef::JsMap(i) => HeapRef::JsMap(rank(self.maps, i)),
            HeapRef::WeakMap(i) => HeapRef::WeakMap(rank(self.weak_maps, i)),
            HeapRef::Module(i) => HeapRef::Module(rank(self.modules, i)),
            HeapRef::Str(i) => HeapRef::Str(rank(self.strings, i)),
            HeapRef::Elems(i) => HeapRef::Elems(rank(self.elements, i)),
            HeapRef::Realm(i) => HeapRef::Realm(rank(self.realms, i)),
        }
    }
}

/// The capability every heap entity type implements for the collector.
///
/// `edge_has` is the entity's outgoing-edge relation: the references it keeps
/// alive. `mark_values` enumerates exactly those references into the work
/// queues. `sweep_values` rewrites every stored reference through the
/// compaction plan; `reloc_ok` says when that is possible (every reference
/// the entity must keep points to a surviving slot), and `is_relocated`
/// relates the entity before and after the rewrite.
pub trait HeapMarkAndSweep: Sized {
    spec fn edge_has(&self, r: HeapRef) -> bool;

    spec fn reloc_ok(&self, m: RelocMap) -> bool;

    spec fn is_relocated(&self, new: &Self, m: RelocMap) -> bool;

    fn mark_values(&self, queues: &mut WorkQueues)
        ensures
            forall|r: HeapRef|
                #[trigger] final(queues).contains_ref(r) <==> old(queues).contains_ref(r)
                    || self.edge_has(r),
    ;

    fn sweep_values(&mut self, compactions: &CompactionLists)
        requires
            old(self).reloc_ok(compactions.reloc_map()),
            compactions.wf(),
        ensures
            old(self).is_relocated(final(self), compactions.reloc_map()),
    ;
}

impl HeapMarkAndSweep for ObjectIndex {
    open spec fn edge_has(&self, r: HeapRef) -> bool {
        r == HeapRef::Object(self.0)
    }

    open spec fn reloc_ok(&self, m: RelocMap) -> bool {
        m.is_live(HeapRef::Object(self.0))
    }

    open spec fn is_relocated(&self, new: &Self, m: RelocMap) -> bool {
        HeapRef::Object(new.0) == m.shifted(HeapRef::Object(self.0))
    }

    fn mark_values(&self, queues: &mut WorkQueues) {
        queues.push_ref(HeapRef::Object(self.0));
    }

    fn sweep_values(&mut self, compactions: &CompactionLists) {
        compactions.objects.shift_index(&mut self.0);
    }
}

impl HeapMarkAndSweep for ArrayIndex {
    open spec fn edge_has(&self, r: HeapRef) -> bool {
        r == HeapRef::Array(self.0)
    }

    open spec fn reloc_ok(&self, m: RelocMap) -> bool {
        m.is_live(HeapRef::Array(self.0))
    }

    open spec fn is_relocated(&self, new: &Self, m: RelocMap) -> bool {
        HeapRef::Array(new.0) == m.shifted(HeapRef::Array(self.0))
    }

    fn mark_values(&self, queues: &mut WorkQueues) {
        queues.push_ref(HeapRef::Array(self.0));
    }

    fn sweep_values(&mut self, compactions: &CompactionLists) {
        compactions.arrays.shift_index(&mut self.0);
    }
}

impl HeapMarkAndSweep for MapIndex {
    open spec fn edge_has(&self, r: HeapRef) -> bool {
        r == HeapRef::JsMap(self.0)
    }

    open spec fn reloc_ok(&self, m: RelocMap) -> bool {
        m.is_live(HeapRef::JsMap(self.0))
    }

    open spec fn is_relocated(&self, new: &Self, m: RelocMap) -> bool {
        HeapRef::JsMap(new.0) == m.shifted(HeapRef::JsMap(self.0))
    }

    fn mark_values(&self, queues: &mut WorkQueues) {
        queues.push_ref(HeapRef::JsMap(self.0));
    }

    fn sweep_values(&mut self, compactions: &CompactionLists) {
        compactions.maps.shift_index(&mut self.0);
    }
}

impl HeapMarkAndSweep for WeakMapIndex {
    open spec fn edge_has(&self, r: HeapRef) -> bool {
        r == HeapRef::WeakMap(self.0)
    }

    open spec fn reloc_ok(&self, m: RelocMap) -> bool {
        m.is_live(HeapRef::WeakMap(self.0))
    }

    open spec fn is_relocated(&self, new: &Self, m: RelocMap) -> bool {
        HeapRef::WeakMap(new.0) == m.shifted(HeapRef::WeakMap(self.0))
    }

    fn mark_values(&self, queues: &mut WorkQueues) {
        queues.push_ref(HeapRef::WeakMap(self.0));
    }

    fn sweep_values(&mut self, compactions: &CompactionLists) {
        compactions.weak_maps.shift_index(&mut self.0);
    }
}

impl HeapMarkAndSweep for ModuleIndex {
    open spec fn edge_has(&self, r: HeapRef) -> bool {
        r == HeapRef::Module(self.0)
    }

    open spec fn reloc_ok(&self, m: RelocMap) -> bool {
        m.is_live(HeapRef::Module(self.0))
    }

    open spec fn is_relocated(&self, new: &Self, m: RelocMap) -> bool {
        HeapRef::Module(new.0) == m.shifted(HeapRef::Module(self.0))
    }

    fn mark_values(&self, queues: &mut WorkQueues) {
        queues.push_ref(HeapRef::Module(self.0));
    }

    fn sweep_values(&mut self, compactions: &CompactionLists) {
        compactions.modules.shift_index(&mut self.0);
    }
}

impl HeapMarkAndSweep for StringIndex {
    open spec fn edge_has(&self, r: HeapRef) -> bool {
        r == HeapRef::Str(self.0)
    }

    open spec fn reloc_ok(&self, m: RelocMap) -> bool {
        m.is_live(HeapRef::Str(self.0))
    }

    open spec fn is_relocated(&self, new: &Self, m: RelocMap) -> bool {
        HeapRef::Str(new.0) == m.shifted(HeapRef::Str(self.0))
    }

    fn mark_values(&self, queues: &mut WorkQueues) {
        queues.push_ref(HeapRef::Str(self.0));
    }

    fn sweep_values(&mut self, compactions: &CompactionLists) {
        compactions.strings.shift_index(&mut self.0);
    }
}

impl HeapMarkAndSweep for ElementIndex {
    open spec fn edge_has(&self, r: HeapRef) -> bool {
        r == HeapRef::Elems(self.0)
    }

    open spec fn reloc_ok(&self, m: RelocMap) -> bool {
        m.is_live(HeapRef::Elems(self.0))
    }

    open spec fn is_relocated(&self, new: &Self, m: RelocMap) -> bool {
        HeapRef::Elems(new.0) == m.shifted(HeapRef::Elems(self.0))
    }

    fn mark_values(&self, queues: &mut WorkQueues) {
        queues.push_ref(HeapRef::Elems(self.0));
    }

    fn sweep_values(&mut self, compactions: &CompactionLists) {
        compactions.elements.shift_index(&mut self.0);
    }
}

impl HeapMarkAndSweep for RealmIndex {
    open spec fn edge_has(&self, r: HeapRef) -> bool {
        r == HeapRef::Realm(self.0)
    }

    open spec fn reloc_ok(&self, m: RelocMap) -> bool {
        m.is_live(HeapRef::Realm(self.0))
    }

    open spec fn is_relocated(&self, new: &Self, m: RelocMap) -> bool {
        HeapRef::Realm(new.0) == m.shifted(HeapRef::Realm(self.0))
    }

    fn mark_values(&self, queues: &mut WorkQueues) {
        queues.push_ref(HeapRef::Realm(self.0));
    }

    fn sweep_values(&mut self, compactions: &CompactionLists) {
        compactions.realms.shift_index(&mut self.0);
    }
}

/// A value after its stored index, if any, has been rewritten through the
/// plan.
pub open spec fn shift_value(m: RelocMap, v: Value) -> Value {
    match v {
        Value::Object(o) => Value::Object(ObjectIndex(rank(m.objects, o.0))),
        Value::Array(a) => Value::Array(ArrayIndex(rank(m.arrays, a.0))),
        Value::JsMap(mi) => Value::JsMap(MapIndex(rank(m.maps, mi.0))),
        Value::WeakMap(w) => Value::WeakMap(WeakMapIndex(rank(m.weak_maps, w.0))),
        Value::Module(mi) => Value::Module(ModuleIndex(rank(m.modules, mi.0))),
        Value::Str(JsString::Heap(s)) => Value::Str(JsString::Heap(StringIndex(rank(m.strings, s.0)))),
        _ => v,
    }
}

impl HeapMarkAndSweep for Value {
    open spec fn edge_has(&self, r: HeapRef) -> bool {
        value_ref(*self) == Some(r)
    }

    open spec fn reloc_ok(&self, m: RelocMap) -> bool {
        match value_ref(*self) {
            Some(r) => m.is_live(r),
            None => true,
        }
    }

    open spec fn is_relocated(&self, new: &Self, m: RelocMap) -> bool {
        *new == shift_value(m, *self)
    }

    fn mark_values(&self, queues: &mut WorkQueues) {
        match self {
            Value::Object(o) => queues.push_ref(HeapRef::Object(o.0)),
            Value::Array(a) => queues.push_ref(HeapRef::Array(a.0)),
            Value::JsMap(m) => queues.push_ref(HeapRef::JsMap(m.0)),
            Value::WeakMap(w) => queues.push_ref(HeapRef::WeakMap(w.0)),
            Value::Module(m) => queues.push_ref(HeapRef::Module(m.0)),
            Value::Str(JsString::Heap(s)) => queues.push_ref(HeapRef::Str(s.0)),
            _ => (),
        }
    }

    fn sweep_values(&mut self, compactions: &CompactionLists) {
        match self {
            Value::Object(o) => compactions.objects.shift_index(&mut o.0),
            Value::Array(a) => compactions.arrays.shift_index(&mut a.0),
            Value::JsMap(m) => compactions.maps.shift_index(&mut m.0),
            Value::WeakMap(w) => compactions.weak_maps.shift_index(&mut w.0),
            Value::Module(m) => compactions.modules.shift_index(&mut m.0),
            Value::Str(JsString::Heap(s)) => compactions.strings.shift_index(&mut s.0),
            _ => (),
        }
    }
}

impl HeapMarkAndSweep for JsString {
    open spec fn edge_has(&self, r: HeapRef) -> bool {
        self.spec_heap_ref() == Some(r)
    }

    open spec fn reloc_ok(&self, m: RelocMap) -> bool {
        match self.spec_heap_ref() {
            Some(r) => m.is_live(r),
            None => true,
        }
    }

    open spec fn is_relocated(&self, new: &Self, m: RelocMap) -> bool {
        match *self {
            JsString::Heap(s) => *new == JsString::Heap(StringIndex(rank(m.strings, s.0))),
            JsString::Small(_) => *new == *self,
        }
    }

    fn mark_values(&self, queues: &mut WorkQueues) {
        match self {
            JsString::Heap(s) => queues.push_ref(HeapRef::Str(s.0)),
            JsString::Small(_) => (),
        }
    }

    fn sweep_values(&mut self, compactions: &CompactionLists) {
        match self {
            JsString::Heap(s) => compactions.strings.shift_index(&mut s.0),
            JsString::Small(_) => (),
        }
    }
}

impl<T: HeapMarkAndSweep> HeapMarkAndSweep for Option<T> {
    open spec fn edge_has(&self, r: HeapRef) -> bool {
        match self {
            Some(x) => x.edge_has(r),
            None => false,
        }
    }

    open spec fn reloc_ok(&self, m: RelocMap) -> bool {
        match self {
            Some(x) => x.reloc_ok(m),
            None => true,
        }
    }

    open spec fn is_relocated(&self, new: &Self, m: RelocMap) -> bool {
        match (self, new) {
            (Some(x), Some(y)) => x.is_relocated(y, m),
            (None, None) => true,
            _ => false,
        }
    }

    fn mark_values(&self, queues: &mut WorkQueues) {
        match self {
            Some(x) => x.mark_values(queues),
            None => (),
        }
    }

    fn sweep_values(&mut self, compactions: &CompactionLists) {
        match self {
            Some(x) => x.sweep_values(compactions),
            None => (),
        }
    }
}

impl<T: HeapMarkAndSweep> HeapMarkAndSweep for Vec<T> {
    open spec fn edge_has(&self, r: HeapRef) -> bool {
        exists|i: int| 0 <= i < self@.len() && #[trigger] self@[i].edge_has(r)
    }

    open spec fn reloc_ok(&self, m: RelocMap) -> bool {
        forall|i: int| 0 <= i < self@.len() ==> #[trigger] self@[i].reloc_ok(m)
    }

    open spec fn is_relocated(&self, new: &Self, m: RelocMap) -> bool {
        &&& new@.len() == self@.len()
        &&& forall|i: int|
            0 <= i < self@.len() ==> #[trigger] self@[i].is_relocated(&new@[i], m)
    }

    fn mark_values(&self, queues: &mut WorkQueues) {
        let ghost pre = *queues;
        let mut k: usize = 0;
        while k < self.len()
            invariant
                k <= self@.len(),
                forall|r: HeapRef|
                    #[trigger] queues.contains_ref(r) <==> pre.contains_ref(r) || exists|i: int|
                        0 <= i < k && #[trigger] self@[i].edge_has(r),
            decreases self@.len() - k,
        {
            self[k].mark_values(queues);
            k = k + 1;
        }
    }

    fn sweep_values(&mut self, compactions: &CompactionLists)
    {
        let ghost pre = *self;
        let n = self.len();
        let mut k: usize = 0;
        while k < n
            invariant
                k <= n,
                n == self@.len(),
                self@.len() == pre@.len(),
                compactions.wf(),
                forall|i: int|
                    0 <= i < pre@.len() ==> #[trigger] pre@[i].reloc_ok(compactions.reloc_map()),
                forall|i: int| k <= i < self@.len() ==> #[trigger] self@[i] == pre@[i],
                forall|i: int|
                    0 <= i < k ==> #[trigger] pre@[i].is_relocated(&self@[i], compactions.reloc_map()),
            decreases n - k,
        {
            let ghost before = self@;
            let mut elem = self.remove(k);
            elem.sweep_values(compactions);
            self.insert(k, elem);
            proof {
                assert(self@ =~= before.update(k as int, self@[k as int]));
            }
            k = k + 1;
        }
    }
}

/// Whether a weak-map entry with this key survives: a key with no heap
/// reference is always alive; a key naming a heap slot survives exactly when
/// that slot does.
pub open spec fn keep_entry(m: RelocMap, k: Value) -> bool {
    match value_ref(k) {
        Some(r) => m.is_live(r),
        None => true,
    }
}

impl CompactionLists {
    /// Whether the value's referent, if any, survives the collection.
    pub fn value_live(&self, v: Value) -> (r: bool)
        requires
            match value_ref(v) {
                Some(rf) => self.in_range(rf),
                None => true,
            },
        ensures
            r == keep_entry(self.reloc_map(), v),
    {
        match v {
            Value::Object(o) => self.objects.live[o.0 as usize],
            Value::Array(a) => self.arrays.live[a.0 as usize],
            Value::JsMap(m) => self.maps.live[m.0 as usize],
            Value::WeakMap(w) => self.weak_maps.live[w.0 as usize],
            Value::Module(m) => self.modules.live[m.0 as usize],
            Value::Str(JsString::Heap(s)) => self.strings.live[s.0 as usize],
            _ => true,
        }
    }
}

} // verus!
