//! Weak maps: keyed collections whose entries do not keep their keys alive.
//!
//! A weak map's own trace enumerates only its backing object. A key's
//! liveness is determined solely by reachability from elsewhere; an entry
//! whose key was not reached by the time marking completes is logically dead
//! and is removed by the sweep. The value of a surviving entry is kept alive
//! (the collector feeds it back into marking once the key is known live).

use vstd::prelude::*;
use crate::gc::{keep_entry, shift_value, CompactionLists, HeapMarkAndSweep, RelocMap, WorkQueues};
use crate::heap::Heap;
use crate::indexes::{HeapRef, ObjectIndex, WeakMapIndex};
use crate::value::{Object, Value};

verus! {

/// Handle to a weak-map entity: a typed index into the weak-map arena.
#[derive(Debug, Clone, Copy, PartialEq, Eq, Structural, Hash)]
pub struct WeakMap(pub WeakMapIndex);

/// Heap data of one weak map: paired key and value slots.
#[derive(Debug, Clone, PartialEq, Eq)]
pub struct WeakMapHeapData {
    pub object_index: Option<ObjectIndex>,
    pub keys: Vec<Value>,
    pub values: Vec<Value>,
}

/// The keys of the entries that survive a collection, in order: those whose
/// key is alive (or has no heap referent at all).
pub open spec fn surviving_keys(m: RelocMap, keys: Seq<Value>) -> Seq<Value>
    decreases keys.len(),
{
    if keys.len() == 0 {
        Seq::empty()
    } else {
        let rest = surviving_keys(m, keys.drop_last());
        if keep_entry(m, keys.last()) {
            rest.push(keys.last())
        } else {
            rest
        }
    }
}

/// The values of the surviving entries, in order, paired with
/// `surviving_keys`.
pub open spec fn surviving_values(m: RelocMap, keys: Seq<Value>, values: Seq<Value>) -> Seq<Value>
    decreases keys.len(),
{
    if keys.len() == 0 || values.len() == 0 {
        Seq::empty()
    } else {
        let rest = surviving_values(m, keys.drop_last(), values.drop_last());
        if keep_entry(m, keys.last()) {
            rest.push(values.last())
        } else {
            rest
        }
    }
}

/// Surviving keys and values stay paired: one value per surviving key.
pub proof fn lemma_surviving_lens(m: RelocMap, keys: Seq<Value>, values: Seq<Value>)
    requires
        keys.len() == values.len(),
    ensures
        surviving_values(m, keys, values).len() == surviving_keys(m, keys).len(),
        surviving_keys(m, keys).len() <= keys.len(),
    decreases keys.len(),
{
    if keys.len() > 0 {
        lemma_surviving_lens(m, keys.drop_last(), values.drop_last());
    }
}

impl WeakMap {
    /// The default (first-slot) handle.
    pub fn _def() -> (r: Self)
        ensures
            r.0.0 == 0,
    {
        Self(WeakMapIndex(0))
    }

    pub fn get_index(self) -> (r: usize)
        ensures
            r == self.0.0 as usize,
    {
        self.0.0 as usize
    }

    pub fn into_value(self) -> (r: Value)
        ensures
            r == Value::WeakMap(self.0),
    {
        Value::WeakMap(self.0)
    }

    pub fn into_object(self) -> (r: Object)
        ensures
            r == Object::WeakMap(self),
    {
        Object::WeakMap(self)
    }

    /// The backing object of this weak map, if one has been attached.
    pub fn get_backing_object(self, heap: &Heap) -> (r: Option<ObjectIndex>)
        requires
            heap.slot_full(HeapRef::WeakMap(self.0.0)),
        ensures
            r == heap.weak_maps@[self.0.0 as int]->Some_0.object_index,
    {
        let slot = &heap.weak_maps[self.0.0 as usize];
        match slot {
            Some(data) => data.object_index,
            None => None,
        }
    }

    /// Attach a backing object; the weak map must not have one yet.
    pub fn set_backing_object(self, heap: &mut Heap, backing_object: ObjectIndex)
        requires
            old(heap).slot_full(HeapRef::WeakMap(self.0.0)),
            old(heap).weak_maps@[self.0.0 as int]->Some_0.object_index is None,
        ensures
            final(heap).weak_maps@.len() == old(heap).weak_maps@.len(),
            final(heap).weak_maps@[self.0.0 as int] is Some,
            final(heap).weak_maps@[self.0.0 as int]->Some_0.object_index == Some(
                backing_object,
            ),
            final(heap).weak_maps@[self.0.0 as int]->Some_0.keys == old(heap).weak_maps@[self.0.0 as int]->Some_0.keys,
            final(heap).weak_maps@[self.0.0 as int]->Some_0.values == old(heap).weak_maps@[self.0.0 as int]->Some_0.values,
            forall|i: int|
                0 <= i < old(heap).weak_maps@.len() && i != self.0.0 as int ==> final(heap).weak_maps@[i] == old(heap).weak_maps@[i],
            final(heap).objects@ == old(heap).objects@,
            final(heap).arrays@ == old(heap).arrays@,
            final(heap).maps@ == old(heap).maps@,
            final(heap).modules@ == old(heap).modules@,
            final(heap).strings@ == old(heap).strings@,
            final(heap).elements.storage@ == old(heap).elements.storage@,
            final(heap).realms@ == old(heap).realms@,
            final(heap).roots@ == old(heap).roots@,
    {
        let i = self.0.0 as usize;
        let mut slot = heap.weak_maps.remove(i);
        match &mut slot {
            Some(data) => {
                data.object_index = Some(backing_object);
            },
            None => (),
        }
        heap.weak_maps.insert(i, slot);
        proof {
            assert forall|j: int|
                0 <= j < old(heap).weak_maps@.len() && j != self.0.0 as int implies heap
                .weak_maps@[j] == old(heap).weak_maps@[j] by {}
        }
    }
}

impl From<WeakMap> for WeakMapIndex {
    fn from(val: WeakMap) -> (r: Self) {
        val.0
    }
}

impl vstd::std_specs::convert::FromSpecImpl<WeakMap> for WeakMapIndex {
    open spec fn obeys_from_spec() -> bool {
        true
    }

    open spec fn from_spec(t: WeakMap) -> Self {
        t.0
    }
}

impl From<WeakMapIndex> for WeakMap {
    fn from(value: WeakMapIndex) -> (r: Self) {
        Self(value)
    }
}

impl vstd::std_specs::convert::FromSpecImpl<WeakMapIndex> for WeakMap {
    open spec fn obeys_from_spec() -> bool {
        true
    }

    open spec fn from_spec(t: WeakMapIndex) -> Self {
        WeakMap(t)
    }
}

impl HeapMarkAndSweep for WeakMap {
    open spec fn edge_has(&self, r: HeapRef) -> bool {
        r == HeapRef::WeakMap(self.0.0)
    }

    open spec fn reloc_ok(&self, m: RelocMap) -> bool {
        m.is_live(HeapRef::WeakMap(self.0.0))
    }

    open spec fn is_relocated(&self, new: &Self, m: RelocMap) -> bool {
        HeapRef::WeakMap(new.0.0) == m.shifted(HeapRef::WeakMap(self.0.0))
    }

    fn mark_values(&self, queues: &mut WorkQueues) {
        queues.push_ref(HeapRef::WeakMap(self.0.0));
    }

    fn sweep_values(&mut self, compactions: &CompactionLists) {
        compactions.weak_maps.shift_index(&mut self.0.0);
    }
}

impl HeapMarkAndSweep for WeakMapHeapData {
    /// Only the backing object is a strong edge: key-to-value edges are
    /// deliberately not enumerated here.
    open spec fn edge_has(&self, r: HeapRef) -> bool {
        self.object_index.edge_has(r)
    }

    open spec fn reloc_ok(&self, m: RelocMap) -> bool {
        &&& self.object_index.reloc_ok(m)
        &&& self.keys@.len() == self.values@.len()
        &&& forall|j: int|
            0 <= j < self.keys@.len() ==> match #[trigger] crate::value::value_ref(
                self.keys@[j],
            ) {
                Some(r) => m.in_range(r),
                None => true,
            }
        &&& forall|j: int|
            0 <= j < self.keys@.len() && keep_entry(m, self.keys@[j])
                ==> #[trigger] self.values@[j].reloc_ok(m)
    }

    /// After a sweep the entries are exactly those whose key survived, in
    /// order, with key and value rewritten through the plan.
    open spec fn is_relocated(&self, new: &Self, m: RelocMap) -> bool {
        &&& self.object_index.is_relocated(&new.object_index, m)
        &&& new.keys@.len() == surviving_keys(m, self.keys@).len()
        &&& new.values@.len() == new.keys@.len()
        &&& forall|i: int|
            0 <= i < new.keys@.len() ==> #[trigger] new.keys@[i] == shift_value(
                m,
                surviving_keys(m, self.keys@)[i],
            )
        &&& forall|i: int|
            0 <= i < new.keys@.len() ==> #[trigger] new.values@[i] == shift_value(
                m,
                surviving_values(m, self.keys@, self.values@)[i],
            )
    }

    fn mark_values(&self, queues: &mut WorkQueues) {
        self.object_index.mark_values(queues);
    }

    fn sweep_values(&mut self, compactions: &CompactionLists) {
        let ghost m = compactions.reloc_map();
        self.object_index.sweep_values(compactions);
        let ghost pre_keys = self.keys@;
        let ghost pre_values = self.values@;
        let n = self.keys.len();
        let mut new_keys: Vec<Value> = Vec::new();
        let mut new_values: Vec<Value> = Vec::new();
        let mut j: usize = 0;
        while j < n
            invariant
                j <= n,
                n == self.keys@.len(),
                self.keys@ == pre_keys,
                self.values@ == pre_values,
                pre_values.len() == pre_keys.len(),
                compactions.wf(),
                m == compactions.reloc_map(),
                forall|i: int|
                    0 <= i < pre_keys.len() ==> match #[trigger] crate::value::value_ref(
                        pre_keys[i],
                    ) {
                        Some(r) => m.in_range(r),
                        None => true,
                    },
                forall|i: int|
                    0 <= i < pre_keys.len() && keep_entry(m, pre_keys[i])
                        ==> #[trigger] pre_values[i].reloc_ok(m),
                new_keys@.len() == surviving_keys(m, pre_keys.take(j as int)).len(),
                new_values@.len() == new_keys@.len(),
                forall|i: int|
                    0 <= i < new_keys@.len() ==> #[trigger] new_keys@[i] == shift_value(
                        m,
                        surviving_keys(m, pre_keys.take(j as int))[i],
                    ),
                forall|i: int|
                    0 <= i < new_keys@.len() ==> #[trigger] new_values@[i] == shift_value(
                        m,
                        surviving_values(
                            m,
                            pre_keys.take(j as int),
                            pre_values.take(j as int),
                        )[i],
                    ),
            decreases n - j,
        {
            let k = self.keys[j];
            let v = self.values[j];
            proof {
                lemma_surviving_lens(m, pre_keys.take(j as int), pre_values.take(j as int));
                lemma_surviving_lens(
                    m,
                    pre_keys.take(j as int + 1),
                    pre_values.take(j as int + 1),
                );
                assert(pre_keys.take(j as int + 1).drop_last() =~= pre_keys.take(j as int));
                assert(pre_values.take(j as int + 1).drop_last() =~= pre_values.take(j as int));
                assert(pre_keys.take(j as int + 1).last() == k);
                assert(pre_values.take(j as int + 1).last() == v);
            }
            if compactions.value_live(k) {
                let mut kk = k;
                let mut vv = v;
                kk.sweep_values(compactions);
                vv.sweep_values(compactions);
                new_keys.push(kk);
                new_values.push(vv);
            }
            j = j + 1;
        }
        proof {
            assert(pre_keys.take(n as int) =~= pre_keys);
            assert(pre_values.take(n as int) =~= pre_values);
        }
        self.keys = new_keys;
        self.values = new_values;
    }
}

/// The surviving position of a kept entry: the number of kept entries
/// strictly before it.
pub open spec fn surviving_pos(m: RelocMap, keys: Seq<Value>, j: int) -> int
    decreases keys.len(),
{
    if keys.len() == 0 {
        0
    } else if j >= keys.len() - 1 {
        surviving_keys(m, keys.drop_last()).len() as int
    } else {
        surviving_pos(m, keys.drop_last(), j)
    }
}

/// Weak-reference semantics, the survival direction: an entry whose key is
/// kept is present after the sweep, at its surviving position, with its
/// value intact.
pub proof fn lemma_surviving_complete(m: RelocMap, keys: Seq<Value>, values: Seq<Value>, j: int)
    requires
        keys.len() == values.len(),
        0 <= j < keys.len(),
        keep_entry(m, keys[j]),
    ensures
        0 <= surviving_pos(m, keys, j) < surviving_keys(m, keys).len(),
        surviving_keys(m, keys)[surviving_pos(m, keys, j)] == keys[j],
        surviving_values(m, keys, values)[surviving_pos(m, keys, j)] == values[j],
    decreases keys.len(),
{
    lemma_surviving_lens(m, keys, values);
    lemma_surviving_lens(m, keys.drop_last(), values.drop_last());
    let sk = surviving_keys(m, keys);
    let sv = surviving_values(m, keys, values);
    let skp = surviving_keys(m, keys.drop_last());
    let svp = surviving_values(m, keys.drop_last(), values.drop_last());
    if j == keys.len() - 1 {
        assert(keep_entry(m, keys.last()));
        assert(sk[skp.len() as int] == keys.last());
        assert(sv[skp.len() as int] == values.last());
    } else {
        assert(keys.drop_last()[j] == keys[j]);
        assert(values.drop_last()[j] == values[j]);
        lemma_surviving_complete(m, keys.drop_last(), values.drop_last(), j);
        let pos = surviving_pos(m, keys.drop_last(), j);
        if keep_entry(m, keys.last()) {
            assert(sk[pos] == skp[pos]);
            assert(sv[pos] == svp[pos]);
        }
    }
}

} // verus!
