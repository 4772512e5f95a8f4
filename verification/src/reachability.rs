//! The live set: what a collection must keep.
//!
//! A slot is live when it is reachable from the root set through strong
//! edges, together with the weak-map rule: once a weak map and one of its
//! keys are both live, that entry's value is live too. `live_set_at` is the
//! stage-indexed approximation of this least fixed point; `live` is its
//! union. The mark engine computes exactly this set.

use vstd::prelude::*;
use crate::heap::Heap;
use crate::indexes::HeapRef;
use crate::value::{opt_value_ref, value_ref, Value};

verus! {

broadcast use vstd::set::group_set_axioms;

/// A root names this reference directly.
pub open spec fn is_root_ref(h: &Heap, r: HeapRef) -> bool {
    exists|i: int|
        0 <= i < h.roots@.len() && opt_value_ref(#[trigger] h.roots@[i]) == Some(r)
}

/// Whether, when `prev` approximates the live set, the value (a weak-map
/// key) counts as alive: a value with no heap referent always does.
pub open spec fn key_live(prev: Set<HeapRef>, k: Value) -> bool {
    match value_ref(k) {
        Some(kr) => prev.contains(kr),
        None => true,
    }
}

/// A strong edge from the approximation reaches `r`.
pub open spec fn edge_pull(h: &Heap, prev: Set<HeapRef>, r: HeapRef) -> bool {
    exists|p: HeapRef| #[trigger] prev.contains(p) && h.has_edge(p, r)
}

/// The weak-map rule reaches `r`: some weak map in the approximation has an
/// entry whose key is alive under the approximation and whose value names
/// `r`.
pub open spec fn weak_pull(h: &Heap, prev: Set<HeapRef>, r: HeapRef) -> bool {
    exists|w: u32, j: int|
        {
            &&& prev.contains(HeapRef::WeakMap(w))
            &&& h.slot_full(HeapRef::WeakMap(w))
            &&& 0 <= j < h.weak_maps@[w as int]->Some_0.keys@.len()
            &&& j < h.weak_maps@[w as int]->Some_0.values@.len()
            &&& key_live(prev, #[trigger] h.weak_maps@[w as int]->Some_0.keys@[j])
            &&& value_ref(h.weak_maps@[w as int]->Some_0.values@[j]) == Some(r)
        }
}

/// The stage-`n` approximation of the live set: roots at stage zero, then
/// one application of strong edges and the weak-map rule per stage.
pub open spec fn live_set_at(h: &Heap, n: nat) -> Set<HeapRef>
    decreases n,
{
    if n == 0 {
        Set::new(|r: HeapRef| is_root_ref(h, r))
    } else {
        let prev = live_set_at(h, (n - 1) as nat);
        prev.union(Set::new(|r: HeapRef| edge_pull(h, prev, r) || weak_pull(h, prev, r)))
    }
}

/// The live set itself: reachable from the roots through strong edges and
/// the weak-map rule.
pub open spec fn live(h: &Heap, r: HeapRef) -> bool {
    exists|n: nat| #[trigger] live_set_at(h, n).contains(r)
}

/// Stages are cumulative.
pub proof fn lemma_live_mono(h: &Heap, m: nat, n: nat, r: HeapRef)
    requires
        m <= n,
        live_set_at(h, m).contains(r),
    ensures
        live_set_at(h, n).contains(r),
    decreases n,
{
    if m < n {
        lemma_live_mono(h, m, (n - 1) as nat, r);
    }
}

/// Every root reference is live.
pub proof fn lemma_live_root(h: &Heap, r: HeapRef)
    requires
        is_root_ref(h, r),
    ensures
        live(h, r),
{
    assert(live_set_at(h, 0).contains(r));
}

/// The live set is closed under strong edges.
pub proof fn lemma_live_edge(h: &Heap, p: HeapRef, r: HeapRef)
    requires
        live(h, p),
        h.has_edge(p, r),
    ensures
        live(h, r),
{
    let n = choose|n: nat| #[trigger] live_set_at(h, n).contains(p);
    let prev = live_set_at(h, n);
    assert(prev.contains(p));
    assert(edge_pull(h, prev, r));
    let n1: nat = (n + 1) as nat;
    assert((n1 - 1) as nat == n);
    assert(live_set_at(h, n1).contains(r));
}

/// The live set is closed under the weak-map rule: a live weak map whose
/// entry has a live (or referent-free) key keeps that entry's value live.
pub proof fn lemma_live_weak(h: &Heap, w: u32, j: int, r: HeapRef)
    requires
        live(h, HeapRef::WeakMap(w)),
        h.slot_full(HeapRef::WeakMap(w)),
        0 <= j < h.weak_maps@[w as int]->Some_0.keys@.len(),
        j < h.weak_maps@[w as int]->Some_0.values@.len(),
        match value_ref(h.weak_maps@[w as int]->Some_0.keys@[j]) {
            Some(kr) => live(h, kr),
            None => true,
        },
        value_ref(h.weak_maps@[w as int]->Some_0.values@[j]) == Some(r),
    ensures
        live(h, r),
{
    let nw = choose|n: nat| #[trigger] live_set_at(h, n).contains(HeapRef::WeakMap(w));
    let k = h.weak_maps@[w as int]->Some_0.keys@[j];
    let n = match value_ref(k) {
        Some(kr) => {
            let nk = choose|n: nat| #[trigger] live_set_at(h, n).contains(kr);
            if nw >= nk {
                nw
            } else {
                nk
            }
        },
        None => nw,
    };
    let prev = live_set_at(h, n);
    lemma_live_mono(h, nw, n, HeapRef::WeakMap(w));
    match value_ref(k) {
        Some(kr) => {
            let nk = choose|n: nat| #[trigger] live_set_at(h, n).contains(kr);
            lemma_live_mono(h, nk, n, kr);
        },
        None => (),
    }
    assert(key_live(prev, k));
    assert(weak_pull(h, prev, r));
    let n1: nat = (n + 1) as nat;
    assert((n1 - 1) as nat == n);
    assert(live_set_at(h, n1).contains(r));
}

/// Everything live at some stage belongs to every set that contains the
/// root references and is closed under strong edges and the weak-map rule.
proof fn lemma_live_at_least(h: &Heap, keep: spec_fn(HeapRef) -> bool, n: nat)
    requires
        forall|r: HeapRef| is_root_ref(h, r) ==> #[trigger] keep(r),
        forall|p: HeapRef, r: HeapRef|
            keep(p) && #[trigger] h.has_edge(p, r) ==> keep(r),
        forall|w: u32, j: int|
            {
                &&& keep(HeapRef::WeakMap(w))
                &&& h.slot_full(HeapRef::WeakMap(w))
                &&& 0 <= j < h.weak_maps@[w as int]->Some_0.keys@.len()
                &&& j < h.weak_maps@[w as int]->Some_0.values@.len()
                &&& match value_ref(#[trigger] h.weak_maps@[w as int]->Some_0.keys@[j]) {
                    Some(kr) => keep(kr),
                    None => true,
                }
            } ==> match value_ref(h.weak_maps@[w as int]->Some_0.values@[j]) {
                Some(vr) => keep(vr),
                None => true,
            },
    ensures
        forall|r: HeapRef| live_set_at(h, n).contains(r) ==> #[trigger] keep(r),
    decreases n,
{
    if n > 0 {
        lemma_live_at_least(h, keep, (n - 1) as nat);
        let prev = live_set_at(h, (n - 1) as nat);
        assert forall|r: HeapRef| live_set_at(h, n).contains(r) implies #[trigger] keep(r) by {
            if prev.contains(r) {
            } else if edge_pull(h, prev, r) {
                let p = choose|p: HeapRef| #[trigger] prev.contains(p) && h.has_edge(p, r);
                assert(keep(p));
            } else {
                assert(weak_pull(h, prev, r));
                let (w, j) = choose|w: u32, j: int|
                    {
                        &&& prev.contains(HeapRef::WeakMap(w))
                        &&& h.slot_full(HeapRef::WeakMap(w))
                        &&& 0 <= j < h.weak_maps@[w as int]->Some_0.keys@.len()
                        &&& j < h.weak_maps@[w as int]->Some_0.values@.len()
                        &&& key_live(prev, #[trigger] h.weak_maps@[w as int]->Some_0.keys@[j])
                        &&& value_ref(h.weak_maps@[w as int]->Some_0.values@[j]) == Some(r)
                    };
                assert(keep(HeapRef::WeakMap(w)));
                let k = h.weak_maps@[w as int]->Some_0.keys@[j];
                match value_ref(k) {
                    Some(kr) => {
                        assert(prev.contains(kr));
                        assert(keep(kr));
                    },
                    None => (),
                }
            }
        }
    }
}

/// Everything live belongs to every set that contains the root references
/// and is closed under strong edges and the weak-map rule: `live` is the
/// least such set.
pub proof fn lemma_live_least(h: &Heap, keep: spec_fn(HeapRef) -> bool)
    requires
        forall|r: HeapRef| is_root_ref(h, r) ==> #[trigger] keep(r),
        forall|p: HeapRef, r: HeapRef|
            keep(p) && #[trigger] h.has_edge(p, r) ==> keep(r),
        forall|w: u32, j: int|
            {
                &&& keep(HeapRef::WeakMap(w))
                &&& h.slot_full(HeapRef::WeakMap(w))
                &&& 0 <= j < h.weak_maps@[w as int]->Some_0.keys@.len()
                &&& j < h.weak_maps@[w as int]->Some_0.values@.len()
                &&& match value_ref(#[trigger] h.weak_maps@[w as int]->Some_0.keys@[j]) {
                    Some(kr) => keep(kr),
                    None => true,
                }
            } ==> match value_ref(h.weak_maps@[w as int]->Some_0.values@[j]) {
                Some(vr) => keep(vr),
                None => true,
            },
    ensures
        forall|r: HeapRef| live(h, r) ==> #[trigger] keep(r),
{
    assert forall|r: HeapRef| live(h, r) implies #[trigger] keep(r) by {
        let n = choose|n: nat| #[trigger] live_set_at(h, n).contains(r);
        lemma_live_at_least(h, keep, n);
    }
}

/// Everything live is within bounds, on a well-formed heap.
pub proof fn lemma_live_in_bounds(h: &Heap, r: HeapRef)
    requires
        h.wf(),
        live(h, r),
    ensures
        h.in_bounds(r),
{
    let keep = |r2: HeapRef| h.in_bounds(r2);
    assert forall|r2: HeapRef| is_root_ref(h, r2) implies #[trigger] keep(r2) by {
        let i = choose|i: int|
            0 <= i < h.roots@.len() && opt_value_ref(#[trigger] h.roots@[i]) == Some(r2);
        assert(match opt_value_ref(h.roots@[i]) {
            Some(rr) => h.in_bounds(rr),
            None => true,
        });
    }
    assert forall|p: HeapRef, r2: HeapRef|
        keep(p) && #[trigger] h.has_edge(p, r2) implies keep(r2) by {
        assert(h.in_bounds(r2));
    }
    assert forall|w: u32, j: int|
        {
            &&& keep(HeapRef::WeakMap(w))
            &&& h.slot_full(HeapRef::WeakMap(w))
            &&& 0 <= j < h.weak_maps@[w as int]->Some_0.keys@.len()
            &&& j < h.weak_maps@[w as int]->Some_0.values@.len()
            &&& match value_ref(#[trigger] h.weak_maps@[w as int]->Some_0.keys@[j]) {
                Some(kr) => keep(kr),
                None => true,
            }
        } implies match value_ref(h.weak_maps@[w as int]->Some_0.values@[j]) {
        Some(vr) => keep(vr),
        None => true,
    } by {
        let d = h.weak_maps@[w as int]->Some_0;
        assert(h.value_in_bounds(d.values@[j]));
    }
    lemma_live_least(h, keep);
    assert(keep(r));
}

/// Cycle safety, the reclamation direction: a region of entities that no
/// root names, that no strong edge enters from outside, and whose weak-map
/// rule never produces a member from outside, is entirely unreachable — a
/// cycle among its members keeps nothing alive. A collection reclaims all
/// of it.
pub proof fn lemma_unreachable_region(h: &Heap, c: Set<HeapRef>)
    requires
        forall|r: HeapRef| is_root_ref(h, r) ==> !(#[trigger] c.contains(r)),
        forall|p: HeapRef, r: HeapRef|
            !c.contains(p) && #[trigger] h.has_edge(p, r) ==> !c.contains(r),
        forall|w: u32, j: int|
            {
                &&& !c.contains(HeapRef::WeakMap(w))
                &&& h.slot_full(HeapRef::WeakMap(w))
                &&& 0 <= j < h.weak_maps@[w as int]->Some_0.keys@.len()
                &&& j < h.weak_maps@[w as int]->Some_0.values@.len()
                &&& match value_ref(#[trigger] h.weak_maps@[w as int]->Some_0.keys@[j]) {
                    Some(kr) => !c.contains(kr),
                    None => true,
                }
            } ==> match value_ref(h.weak_maps@[w as int]->Some_0.values@[j]) {
                Some(vr) => !c.contains(vr),
                None => true,
            },
    ensures
        forall|r: HeapRef| c.contains(r) ==> !live(h, r),
{
    let keep = |r: HeapRef| !c.contains(r);
    assert forall|r: HeapRef| is_root_ref(h, r) implies #[trigger] keep(r) by {
        assert(!c.contains(r));
    }
    assert forall|p: HeapRef, r: HeapRef|
        keep(p) && #[trigger] h.has_edge(p, r) implies keep(r) by {
        assert(!c.contains(r));
    }
    assert forall|w: u32, j: int|
        {
            &&& keep(HeapRef::WeakMap(w))
            &&& h.slot_full(HeapRef::WeakMap(w))
            &&& 0 <= j < h.weak_maps@[w as int]->Some_0.keys@.len()
            &&& j < h.weak_maps@[w as int]->Some_0.values@.len()
            &&& match value_ref(#[trigger] h.weak_maps@[w as int]->Some_0.keys@[j]) {
                Some(kr) => keep(kr),
                None => true,
            }
        } implies match value_ref(h.weak_maps@[w as int]->Some_0.values@[j]) {
        Some(vr) => keep(vr),
        None => true,
    } by {
        match value_ref(h.weak_maps@[w as int]->Some_0.values@[j]) {
            Some(vr) => {
                assert(!c.contains(vr));
            },
            None => (),
        }
    }
    lemma_live_least(h, keep);
    assert forall|r: HeapRef| c.contains(r) implies !live(h, r) by {
        if live(h, r) {
            assert(keep(r));
        }
    }
}

} // verus!
