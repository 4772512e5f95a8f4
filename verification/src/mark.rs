//! The mark engine.
//!
//! Marking seeds one worklist per entity type with every root reference,
//! then repeatedly pops a reference, marks its slot (idempotently — an
//! already-reached slot is skipped, which bounds the work and terminates on
//! cycles), and traces the entity's outgoing edges back into the worklists.
//! Weak maps are handled by alternating: whenever a drained mark state shows
//! a live weak map whose entry's key is live, the entry's value is fed back
//! into the worklists, until nothing new appears. The result is proved to be
//! exactly the live set.

use vstd::prelude::*;
use crate::gc::{HeapBits, HeapMarkAndSweep, WorkQueues};
use crate::heap::Heap;
use crate::indexes::HeapRef;
use crate::reachability::{
    is_root_ref, lemma_live_edge, lemma_live_least, lemma_live_root, lemma_live_weak, live,
};
use crate::value::{opt_value_ref, value_ref, Value};

verus! {

/// The bit vectors cover exactly the heap's arenas.
pub open spec fn bits_match(h: &Heap, b: &HeapBits) -> bool {
    &&& b.objects@.len() == h.objects@.len()
    &&& b.arrays@.len() == h.arrays@.len()
    &&& b.maps@.len() == h.maps@.len()
    &&& b.weak_maps@.len() == h.weak_maps@.len()
    &&& b.modules@.len() == h.modules@.len()
    &&& b.strings@.len() == h.strings@.len()
    &&& b.elements@.len() == h.elements.storage@.len()
    &&& b.realms@.len() == h.realms@.len()
}

/// Only live slots ever get marked.
pub open spec fn bits_sound(h: &Heap, b: &HeapBits) -> bool {
    forall|r: HeapRef| #[trigger] b.marked(r) ==> live(h, r)
}

/// Every queued reference is live and within bounds.
pub open spec fn queue_ok(h: &Heap, q: &WorkQueues) -> bool {
    forall|r: HeapRef|
        #[trigger] q.contains_ref(r) ==> live(h, r) && h.in_bounds(r)
}

/// Every strong edge out of a marked slot is marked or still queued.
pub open spec fn closure_inv(h: &Heap, b: &HeapBits, q: &WorkQueues) -> bool {
    forall|p: HeapRef, r: HeapRef|
        b.marked(p) && #[trigger] h.has_edge(p, r) ==> b.marked(r) || q.contains_ref(r)
}

/// A weak-map key counts as alive under the current mark state.
pub open spec fn key_live_bits(b: &HeapBits, k: Value) -> bool {
    match value_ref(k) {
        Some(kr) => b.marked(kr),
        None => true,
    }
}

/// In every marked weak map, every entry whose key is alive has a marked
/// value: nothing remains for the weak pass to feed back.
pub open spec fn weak_closed(h: &Heap, b: &HeapBits) -> bool {
    forall|w: u32, j: int|
        {
            &&& b.marked(HeapRef::WeakMap(w))
            &&& h.slot_full(HeapRef::WeakMap(w))
            &&& 0 <= j < h.weak_maps@[w as int]->Some_0.keys@.len()
            &&& j < h.weak_maps@[w as int]->Some_0.values@.len()
            &&& key_live_bits(b, #[trigger] h.weak_maps@[w as int]->Some_0.keys@[j])
        } ==> match value_ref(h.weak_maps@[w as int]->Some_0.values@[j]) {
            Some(vr) => b.marked(vr),
            None => true,
        }
}

impl HeapBits {
    /// Whether the value's referent, if any, is marked.
    pub fn value_live(&self, v: Value) -> (r: bool)
        requires
            match value_ref(v) {
                Some(rf) => self.in_range(rf),
                None => true,
            },
        ensures
            r == key_live_bits(self, v),
    {
        match v.heap_ref() {
            Some(rf) => self.is_marked(rf),
            None => true,
        }
    }
}

/// A non-empty set of worklists holds some reference.
proof fn lemma_queues_nonempty(q: &WorkQueues)
    requires
        q.total() > 0,
    ensures
        exists|r: HeapRef| #[trigger] q.contains_ref(r),
{
    if q.objects@.len() > 0 {
        assert(q.objects@.contains(q.objects@.last()));
        assert(q.contains_ref(HeapRef::Object(q.objects@.last())));
    } else if q.arrays@.len() > 0 {
        assert(q.arrays@.contains(q.arrays@.last()));
        assert(q.contains_ref(HeapRef::Array(q.arrays@.last())));
    } else if q.maps@.len() > 0 {
        assert(q.maps@.contains(q.maps@.last()));
        assert(q.contains_ref(HeapRef::JsMap(q.maps@.last())));
    } else if q.weak_maps@.len() > 0 {
        assert(q.weak_maps@.contains(q.weak_maps@.last()));
        assert(q.contains_ref(HeapRef::WeakMap(q.weak_maps@.last())));
    } else if q.modules@.len() > 0 {
        assert(q.modules@.contains(q.modules@.last()));
        assert(q.contains_ref(HeapRef::Module(q.modules@.last())));
    } else if q.strings@.len() > 0 {
        assert(q.strings@.contains(q.strings@.last()));
        assert(q.contains_ref(HeapRef::Str(q.strings@.last())));
    } else if q.elements@.len() > 0 {
        assert(q.elements@.contains(q.elements@.last()));
        assert(q.contains_ref(HeapRef::Elems(q.elements@.last())));
    } else {
        assert(q.realms@.len() > 0);
        assert(q.realms@.contains(q.realms@.last()));
        assert(q.contains_ref(HeapRef::Realm(q.realms@.last())));
    }
}

/// Marking one more slot strictly shrinks the count of unmarked slots.
proof fn lemma_unmarked_strict(pre: &HeapBits, post: &HeapBits, w: HeapRef)
    requires
        pre.same_shape(post),
        pre.objects@.len() <= u32::MAX,
        pre.arrays@.len() <= u32::MAX,
        pre.maps@.len() <= u32::MAX,
        pre.weak_maps@.len() <= u32::MAX,
        pre.modules@.len() <= u32::MAX,
        pre.strings@.len() <= u32::MAX,
        pre.elements@.len() <= u32::MAX,
        pre.realms@.len() <= u32::MAX,
        forall|r: HeapRef| #[trigger] pre.marked(r) ==> post.marked(r),
        pre.in_range(w),
        !pre.marked(w),
        post.marked(w),
    ensures
        post.unmarked_total() < pre.unmarked_total(),
{
    assert forall|i: int|
        0 <= i < pre.objects@.len() && pre.objects@[i] implies post.objects@[i] by {
        assert(pre.marked(HeapRef::Object(i as u32)));
    }
    assert forall|i: int|
        0 <= i < pre.arrays@.len() && pre.arrays@[i] implies post.arrays@[i] by {
        assert(pre.marked(HeapRef::Array(i as u32)));
    }
    assert forall|i: int| 0 <= i < pre.maps@.len() && pre.maps@[i] implies post.maps@[i] by {
        assert(pre.marked(HeapRef::JsMap(i as u32)));
    }
    assert forall|i: int|
        0 <= i < pre.weak_maps@.len() && pre.weak_maps@[i] implies post.weak_maps@[i] by {
        assert(pre.marked(HeapRef::WeakMap(i as u32)));
    }
    assert forall|i: int|
        0 <= i < pre.modules@.len() && pre.modules@[i] implies post.modules@[i] by {
        assert(pre.marked(HeapRef::Module(i as u32)));
    }
    assert forall|i: int|
        0 <= i < pre.strings@.len() && pre.strings@[i] implies post.strings@[i] by {
        assert(pre.marked(HeapRef::Str(i as u32)));
    }
    assert forall|i: int|
        0 <= i < pre.elements@.len() && pre.elements@[i] implies post.elements@[i] by {
        assert(pre.marked(HeapRef::Elems(i as u32)));
    }
    assert forall|i: int|
        0 <= i < pre.realms@.len() && pre.realms@[i] implies post.realms@[i] by {
        assert(pre.marked(HeapRef::Realm(i as u32)));
    }
    crate::counts::lemma_count_true_pointwise_le(pre.objects@, post.objects@);
    crate::counts::lemma_count_true_pointwise_le(pre.arrays@, post.arrays@);
    crate::counts::lemma_count_true_pointwise_le(pre.maps@, post.maps@);
    crate::counts::lemma_count_true_pointwise_le(pre.weak_maps@, post.weak_maps@);
    crate::counts::lemma_count_true_pointwise_le(pre.modules@, post.modules@);
    crate::counts::lemma_count_true_pointwise_le(pre.strings@, post.strings@);
    crate::counts::lemma_count_true_pointwise_le(pre.elements@, post.elements@);
    crate::counts::lemma_count_true_pointwise_le(pre.realms@, post.realms@);
    match w {
        HeapRef::Object(i) => crate::counts::lemma_count_true_pointwise_lt(
            pre.objects@,
            post.objects@,
            i as int,
        ),
        HeapRef::Array(i) => crate::counts::lemma_count_true_pointwise_lt(
            pre.arrays@,
            post.arrays@,
            i as int,
        ),
        HeapRef::JsMap(i) => crate::counts::lemma_count_true_pointwise_lt(
            pre.maps@,
            post.maps@,
            i as int,
        ),
        HeapRef::WeakMap(i) => crate::counts::lemma_count_true_pointwise_lt(
            pre.weak_maps@,
            post.weak_maps@,
            i as int,
        ),
        HeapRef::Module(i) => crate::counts::lemma_count_true_pointwise_lt(
            pre.modules@,
            post.modules@,
            i as int,
        ),
        HeapRef::Str(i) => crate::counts::lemma_count_true_pointwise_lt(
            pre.strings@,
            post.strings@,
            i as int,
        ),
        HeapRef::Elems(i) => crate::counts::lemma_count_true_pointwise_lt(
            pre.elements@,
            post.elements@,
            i as int,
        ),
        HeapRef::Realm(i) => crate::counts::lemma_count_true_pointwise_lt(
            pre.realms@,
            post.realms@,
            i as int,
        ),
    }
}

/// The count of unmarked slots is never negative.
proof fn lemma_unmarked_nonneg(b: &HeapBits)
    ensures
        b.unmarked_total() >= 0,
{
    crate::counts::lemma_count_true_bounds(b.objects@);
    crate::counts::lemma_count_true_bounds(b.arrays@);
    crate::counts::lemma_count_true_bounds(b.maps@);
    crate::counts::lemma_count_true_bounds(b.weak_maps@);
    crate::counts::lemma_count_true_bounds(b.modules@);
    crate::counts::lemma_count_true_bounds(b.strings@);
    crate::counts::lemma_count_true_bounds(b.elements@);
    crate::counts::lemma_count_true_bounds(b.realms@);
}

/// Trace one occupied slot: enqueue exactly its outgoing edges.
fn trace_entity(heap: &Heap, r: HeapRef, queues: &mut WorkQueues)
    requires
        heap.wf(),
        heap.slot_full(r),
    ensures
        forall|r2: HeapRef|
            #[trigger] final(queues).contains_ref(r2) <==> old(queues).contains_ref(r2)
                || heap.has_edge(r, r2),
{
    match r {
        HeapRef::Object(i) => {
            heap.objects[i as usize].as_ref().unwrap().mark_values(queues);
        },
        HeapRef::Array(i) => {
            heap.arrays[i as usize].as_ref().unwrap().mark_values(queues);
        },
        HeapRef::JsMap(i) => {
            heap.maps[i as usize].as_ref().unwrap().mark_values(queues);
        },
        HeapRef::WeakMap(i) => {
            heap.weak_maps[i as usize].as_ref().unwrap().mark_values(queues);
        },
        HeapRef::Module(i) => {
            heap.modules[i as usize].as_ref().unwrap().mark_values(queues);
        },
        HeapRef::Str(i) => {
            heap.strings[i as usize].as_ref().unwrap().mark_values(queues);
        },
        HeapRef::Elems(i) => {
            heap.elements.storage[i as usize].as_ref().unwrap().mark_values(queues);
        },
        HeapRef::Realm(i) => {
            heap.realms[i as usize].as_ref().unwrap().mark_values(queues);
        },
    }
}

/// Seed the worklists with every reference the root set names.
fn seed_roots(heap: &Heap, queues: &mut WorkQueues)
    requires
        heap.wf(),
        forall|r: HeapRef| !old(queues).contains_ref(r),
    ensures
        forall|r: HeapRef|
            #[trigger] final(queues).contains_ref(r) <==> is_root_ref(heap, r),
{
    let n = heap.roots.len();
    let mut k: usize = 0;
    while k < n
        invariant
            k <= n,
            n == heap.roots@.len(),
            forall|r: HeapRef|
                #[trigger] queues.contains_ref(r) <==> exists|i: int|
                    0 <= i < k && opt_value_ref(#[trigger] heap.roots@[i]) == Some(r),
        decreases n - k,
    {
        let ghost mid = *queues;
        match &heap.roots[k] {
            Some(v) => {
                match v.heap_ref() {
                    Some(rf) => {
                        queues.push_ref(rf);
                    },
                    None => (),
                }
            },
            None => (),
        }
        proof {
            assert forall|r: HeapRef|
                #[trigger] queues.contains_ref(r) <==> exists|i: int|
                    0 <= i < k + 1 && opt_value_ref(#[trigger] heap.roots@[i]) == Some(r) by {
                if queues.contains_ref(r) {
                    if mid.contains_ref(r) {
                        let i = choose|i: int|
                            0 <= i < k && opt_value_ref(#[trigger] heap.roots@[i]) == Some(r);
                        assert(opt_value_ref(heap.roots@[i]) == Some(r));
                    } else {
                        assert(opt_value_ref(heap.roots@[k as int]) == Some(r));
                    }
                }
                if exists|i: int|
                    0 <= i < k + 1 && opt_value_ref(#[trigger] heap.roots@[i]) == Some(r) {
                    let i = choose|i: int|
                        0 <= i < k + 1 && opt_value_ref(#[trigger] heap.roots@[i]) == Some(r);
                    if i < k {
                        assert(mid.contains_ref(r));
                    }
                    assert(queues.contains_ref(r));
                }
            }
        }
        k = k + 1;
    }
}

/// Drive the worklists to empty, marking every popped slot and tracing it.
fn drain(heap: &Heap, bits: &mut HeapBits, queues: &mut WorkQueues)
    requires
        heap.wf(),
        bits_match(heap, old(bits)),
        bits_sound(heap, old(bits)),
        queue_ok(heap, old(queues)),
        closure_inv(heap, old(bits), old(queues)),
    ensures
        bits_match(heap, final(bits)),
        bits_sound(heap, final(bits)),
        final(queues).total() == 0,
        forall|r: HeapRef| !final(queues).contains_ref(r),
        closure_inv(heap, final(bits), final(queues)),
        forall|r: HeapRef| old(bits).marked(r) ==> final(bits).marked(r),
        forall|r: HeapRef| old(queues).contains_ref(r) ==> final(bits).marked(r),
{
    let ghost pre_bits = *bits;
    let ghost pre_queues = *queues;
    loop
        invariant_except_break
            heap.wf(),
            bits_match(heap, bits),
            bits_sound(heap, bits),
            queue_ok(heap, queues),
            closure_inv(heap, bits, queues),
            forall|r: HeapRef| pre_bits.marked(r) ==> bits.marked(r),
            forall|r: HeapRef|
                pre_queues.contains_ref(r) ==> bits.marked(r) || queues.contains_ref(r),
        ensures
            bits_match(heap, bits),
            bits_sound(heap, bits),
            queues.total() == 0,
            forall|r: HeapRef| !queues.contains_ref(r),
            closure_inv(heap, bits, queues),
            forall|r: HeapRef| pre_bits.marked(r) ==> bits.marked(r),
            forall|r: HeapRef| pre_queues.contains_ref(r) ==> bits.marked(r),
        decreases bits.unmarked_total(), queues.total(),
    {
        let ghost it_bits = *bits;
        let ghost it_queues = *queues;
        let popped = queues.pop_any();
        match popped {
            None => {
                break;
            },
            Some(r) => {
                let ghost q1 = *queues;
                proof {
                    assert(heap.in_bounds(r));
                    assert(heap.slot_full(r));
                }
                if !bits.is_marked(r) {
                    bits.set_marked(r);
                    trace_entity(heap, r, queues);
                    proof {
                        assert forall|r2: HeapRef|
                            #[trigger] queues.contains_ref(r2) implies live(heap, r2)
                            && heap.in_bounds(r2) by {
                            if q1.contains_ref(r2) {
                                assert(it_queues.contains_ref(r2));
                            } else {
                                assert(heap.has_edge(r, r2));
                                lemma_live_edge(heap, r, r2);
                            }
                        }
                        assert forall|p: HeapRef, r2: HeapRef|
                            bits.marked(p) && #[trigger] heap.has_edge(p, r2) implies bits
                            .marked(r2) || queues.contains_ref(r2) by {
                            if p == r {
                                assert(queues.contains_ref(r2));
                            } else {
                                assert(it_bits.marked(p));
                                if it_bits.marked(r2) {
                                    assert(bits.marked(r2));
                                } else {
                                    assert(it_queues.contains_ref(r2));
                                    if r2 == r {
                                        assert(bits.marked(r2));
                                    } else {
                                        assert(q1.contains_ref(r2));
                                        assert(queues.contains_ref(r2));
                                    }
                                }
                            }
                        }
                        assert forall|rr: HeapRef|
                            pre_queues.contains_ref(rr) implies bits.marked(rr)
                            || queues.contains_ref(rr) by {
                            if it_queues.contains_ref(rr) && !it_bits.marked(rr) && rr != r {
                                assert(q1.contains_ref(rr));
                                assert(queues.contains_ref(rr));
                            }
                        }
                    }
                } else {
                    proof {
                        assert forall|p: HeapRef, r2: HeapRef|
                            bits.marked(p) && #[trigger] heap.has_edge(p, r2) implies bits
                            .marked(r2) || queues.contains_ref(r2) by {
                            if !it_bits.marked(r2) {
                                assert(it_queues.contains_ref(r2));
                                if r2 != r {
                                    assert(queues.contains_ref(r2));
                                }
                            }
                        }
                        assert forall|rr: HeapRef|
                            pre_queues.contains_ref(rr) implies bits.marked(rr)
                            || queues.contains_ref(rr) by {
                            if it_queues.contains_ref(rr) && !it_bits.marked(rr) && rr != r {
                                assert(queues.contains_ref(rr));
                            }
                        }
                    }
                }
                proof {
                    lemma_unmarked_nonneg(bits);
                }
            },
        }
    }
}

/// One pass over the weak maps: feed the value of every entry whose weak map
/// and key are both marked, but whose value is not yet, back into the
/// worklists. Reports whether anything was fed back.
fn weak_scan(heap: &Heap, bits: &HeapBits, queues: &mut WorkQueues) -> (progress: bool)
    requires
        heap.wf(),
        bits_match(heap, bits),
        bits_sound(heap, bits),
        forall|r: HeapRef| !old(queues).contains_ref(r),
        old(queues).total() == 0,
    ensures
        forall|r: HeapRef|
            #[trigger] final(queues).contains_ref(r) ==> live(heap, r) && heap.in_bounds(r)
                && !bits.marked(r),
        progress <==> final(queues).total() > 0,
        !progress ==> forall|r: HeapRef| !final(queues).contains_ref(r),
        !progress ==> weak_closed(heap, bits),
{
    let mut progress = false;
    let n = heap.weak_maps.len();
    let mut w: usize = 0;
    while w < n
        invariant
            w <= n,
            n == heap.weak_maps@.len(),
            heap.wf(),
            bits_match(heap, bits),
            bits_sound(heap, bits),
            forall|r: HeapRef|
                #[trigger] queues.contains_ref(r) ==> live(heap, r) && heap.in_bounds(r)
                    && !bits.marked(r),
            progress <==> queues.total() > 0,
            !progress ==> forall|r: HeapRef| !queues.contains_ref(r),
            forall|w2: u32, j: int|
                {
                    &&& w2 < w
                    &&& bits.marked(HeapRef::WeakMap(w2))
                    &&& heap.slot_full(HeapRef::WeakMap(w2))
                    &&& 0 <= j < heap.weak_maps@[w2 as int]->Some_0.keys@.len()
                    &&& j < heap.weak_maps@[w2 as int]->Some_0.values@.len()
                    &&& key_live_bits(
                        bits,
                        #[trigger] heap.weak_maps@[w2 as int]->Some_0.keys@[j],
                    )
                } ==> match value_ref(heap.weak_maps@[w2 as int]->Some_0.values@[j]) {
                    Some(vr) => bits.marked(vr) || queues.contains_ref(vr),
                    None => true,
                },
        decreases n - w,
    {
        if bits.is_marked(HeapRef::WeakMap(w as u32)) {
            proof {
                assert(heap.in_bounds(HeapRef::WeakMap(w as u32)));
                assert(heap.slot_full(HeapRef::WeakMap(w as u32)));
            }
            let d = heap.weak_maps[w].as_ref().unwrap();
            let m = d.keys.len();
            let mut j: usize = 0;
            while j < m
                invariant
                    j <= m,
                    w < n,
                    n == heap.weak_maps@.len(),
                    m == heap.weak_maps@[w as int]->Some_0.keys@.len(),
                    heap.wf(),
                    bits_match(heap, bits),
                    bits_sound(heap, bits),
                    bits.marked(HeapRef::WeakMap(w as u32)),
                    heap.slot_full(HeapRef::WeakMap(w as u32)),
                    *d == heap.weak_maps@[w as int]->Some_0,
                    forall|r: HeapRef|
                        #[trigger] queues.contains_ref(r) ==> live(heap, r) && heap.in_bounds(
                            r,
                        ) && !bits.marked(r),
                    progress <==> queues.total() > 0,
                    !progress ==> forall|r: HeapRef| !queues.contains_ref(r),
                    forall|w2: u32, j2: int|
                        {
                            &&& w2 < w
                            &&& bits.marked(HeapRef::WeakMap(w2))
                            &&& heap.slot_full(HeapRef::WeakMap(w2))
                            &&& 0 <= j2 < heap.weak_maps@[w2 as int]->Some_0.keys@.len()
                            &&& j2 < heap.weak_maps@[w2 as int]->Some_0.values@.len()
                            &&& key_live_bits(
                                bits,
                                #[trigger] heap.weak_maps@[w2 as int]->Some_0.keys@[j2],
                            )
                        } ==> match value_ref(heap.weak_maps@[w2 as int]->Some_0.values@[j2]) {
                            Some(vr) => bits.marked(vr) || queues.contains_ref(vr),
                            None => true,
                        },
                    forall|j2: int|
                        {
                            &&& 0 <= j2 < j
                            &&& j2 < heap.weak_maps@[w as int]->Some_0.values@.len()
                            &&& key_live_bits(
                                bits,
                                #[trigger] heap.weak_maps@[w as int]->Some_0.keys@[j2],
                            )
                        } ==> match value_ref(heap.weak_maps@[w as int]->Some_0.values@[j2]) {
                            Some(vr) => bits.marked(vr) || queues.contains_ref(vr),
                            None => true,
                        },
                decreases m - j,
            {
                proof {
                    assert(heap.weak_maps@[w as int]->Some_0.keys@.len()
                        == heap.weak_maps@[w as int]->Some_0.values@.len());
                    assert(heap.value_in_bounds(d.keys@[j as int]));
                    assert(heap.value_in_bounds(d.values@[j as int]));
                }
                let k = d.keys[j];
                if bits.value_live(k) {
                    let v = d.values[j];
                    match v.heap_ref() {
                        Some(vr) => {
                            if !bits.is_marked(vr) {
                                proof {
                                    assert(live(heap, HeapRef::WeakMap(w as u32)));
                                    match value_ref(k) {
                                        Some(kr) => {
                                            assert(live(heap, kr));
                                        },
                                        None => (),
                                    }
                                    lemma_live_weak(heap, w as u32, j as int, vr);
                                }
                                queues.push_ref(vr);
                                progress = true;
                            }
                        },
                        None => (),
                    }
                }
                j = j + 1;
            }
        }
        w = w + 1;
    }
    proof {
        if !progress {
            assert forall|w2: u32, j: int|
                {
                    &&& bits.marked(HeapRef::WeakMap(w2))
                    &&& heap.slot_full(HeapRef::WeakMap(w2))
                    &&& 0 <= j < heap.weak_maps@[w2 as int]->Some_0.keys@.len()
                    &&& j < heap.weak_maps@[w2 as int]->Some_0.values@.len()
                    &&& key_live_bits(
                        bits,
                        #[trigger] heap.weak_maps@[w2 as int]->Some_0.keys@[j],
                    )
                } implies match value_ref(heap.weak_maps@[w2 as int]->Some_0.values@[j]) {
                Some(vr) => bits.marked(vr),
                None => true,
            } by {
                assert(w2 < n);
            }
        }
    }
    progress
}

/// Compute the mark state of one collection: exactly the live set.
pub fn mark(heap: &Heap) -> (bits: HeapBits)
    requires
        heap.wf(),
    ensures
        bits_match(heap, &bits),
        forall|r: HeapRef| #[trigger] bits.marked(r) <==> live(heap, r),
{
    let mut bits = HeapBits::new_cleared(
        heap.objects.len(),
        heap.arrays.len(),
        heap.maps.len(),
        heap.weak_maps.len(),
        heap.modules.len(),
        heap.strings.len(),
        heap.elements.storage.len(),
        heap.realms.len(),
    );
    let mut queues = WorkQueues::new();
    seed_roots(heap, &mut queues);
    proof {
        assert forall|r: HeapRef|
            #[trigger] queues.contains_ref(r) implies live(heap, r) && heap.in_bounds(r) by {
            lemma_live_root(heap, r);
            crate::reachability::lemma_live_in_bounds(heap, r);
        }
    }
    let ghost seeded = queues;
    drain(heap, &mut bits, &mut queues);
    loop
        invariant_except_break
            heap.wf(),
            bits_match(heap, &bits),
            bits_sound(heap, &bits),
            queues.total() == 0,
            forall|r: HeapRef| !queues.contains_ref(r),
            closure_inv(heap, &bits, &queues),
            forall|r: HeapRef| seeded.contains_ref(r) ==> bits.marked(r),
        ensures
            bits_match(heap, &bits),
            bits_sound(heap, &bits),
            queues.total() == 0,
            forall|r: HeapRef| !queues.contains_ref(r),
            closure_inv(heap, &bits, &queues),
            forall|r: HeapRef| seeded.contains_ref(r) ==> bits.marked(r),
            weak_closed(heap, &bits),
        decreases bits.unmarked_total(),
    {
        let ghost round_bits = bits;
        let progress = weak_scan(heap, &bits, &mut queues);
        if !progress {
            break;
        }
        proof {
            lemma_queues_nonempty(&queues);
        }
        let ghost witness = choose|r: HeapRef| #[trigger] queues.contains_ref(r);
        drain(heap, &mut bits, &mut queues);
        proof {
            crate::reachability::lemma_live_in_bounds(heap, witness);
            lemma_unmarked_strict(&round_bits, &bits, witness);
            lemma_unmarked_nonneg(&bits);
        }
    }
    proof {
        let keep = |r: HeapRef| bits.marked(r);
        assert forall|r: HeapRef| is_root_ref(heap, r) implies #[trigger] keep(r) by {
            assert(seeded.contains_ref(r));
            assert(bits.marked(r));
        }
        assert forall|p: HeapRef, r: HeapRef|
            keep(p) && #[trigger] heap.has_edge(p, r) implies keep(r) by {
            assert(bits.marked(p));
            assert(bits.marked(r) || queues.contains_ref(r));
            assert(bits.marked(r));
        }
        assert forall|w: u32, j: int|
            {
                &&& keep(HeapRef::WeakMap(w))
                &&& heap.slot_full(HeapRef::WeakMap(w))
                &&& 0 <= j < heap.weak_maps@[w as int]->Some_0.keys@.len()
                &&& j < heap.weak_maps@[w as int]->Some_0.values@.len()
                &&& match value_ref(#[trigger] heap.weak_maps@[w as int]->Some_0.keys@[j]) {
                    Some(kr) => keep(kr),
                    None => true,
                }
            } implies match value_ref(heap.weak_maps@[w as int]->Some_0.values@[j]) {
            Some(vr) => keep(vr),
            None => true,
        } by {
            assert(bits.marked(HeapRef::WeakMap(w)));
            assert(key_live_bits(&bits, heap.weak_maps@[w as int]->Some_0.keys@[j]));
            match value_ref(heap.weak_maps@[w as int]->Some_0.values@[j]) {
                Some(vr) => {
                    assert(bits.marked(vr));
                },
                None => (),
            }
        }
        lemma_live_least(heap, keep);
        assert forall|r: HeapRef| #[trigger] bits.marked(r) <==> live(heap, r) by {
            if bits.marked(r) {
                assert(live(heap, r));
            }
            if live(heap, r) {
                assert(keep(r));
            }
        }
    }
    bits
}

} // verus!
