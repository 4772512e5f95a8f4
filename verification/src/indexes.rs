//! Typed indices: lightweight, copyable handles naming one slot in one
//! specific arena. An index carries no generation counter; once compaction
//! has moved its slot, the stale index must never be used again.

use vstd::prelude::*;

verus! {

/// Index of an ordinary object in the object arena.
#[derive(Debug, Clone, Copy, PartialEq, Eq, Structural, Hash)]
pub struct ObjectIndex(pub u32);

/// Index of an array in the array arena.
#[derive(Debug, Clone, Copy, PartialEq, Eq, Structural, Hash)]
pub struct ArrayIndex(pub u32);

/// Index of a map in the map arena.
#[derive(Debug, Clone, Copy, PartialEq, Eq, Structural, Hash)]
pub struct MapIndex(pub u32);

/// Index of a weak map in the weak-map arena.
#[derive(Debug, Clone, Copy, PartialEq, Eq, Structural, Hash)]
pub struct WeakMapIndex(pub u32);

/// Index of a module in the module arena.
#[derive(Debug, Clone, Copy, PartialEq, Eq, Structural, Hash)]
pub struct ModuleIndex(pub u32);

/// Index of a heap string in the string arena.
#[derive(Debug, Clone, Copy, PartialEq, Eq, Structural, Hash)]
pub struct StringIndex(pub u32);

/// Index of an element-storage buffer in the element arena.
#[derive(Debug, Clone, Copy, PartialEq, Eq, Structural, Hash)]
pub struct ElementIndex(pub u32);

/// Index of a realm in the realm arena.
#[derive(Debug, Clone, Copy, PartialEq, Eq, Structural, Hash)]
pub struct RealmIndex(pub u32);

impl ObjectIndex {
    pub fn from_u32_index(i: u32) -> (r: Self)
        ensures
            r.0 == i,
    {
        ObjectIndex(i)
    }

    pub fn into_index(self) -> (r: usize)
        ensures
            r == self.0 as usize,
    {
        self.0 as usize
    }
}

impl ElementIndex {
    pub fn from_u32_index(i: u32) -> (r: Self)
        ensures
            r.0 == i,
    {
        ElementIndex(i)
    }

    pub fn into_index(self) -> (r: usize)
        ensures
            r == self.0 as usize,
    {
        self.0 as usize
    }
}

/// A tagged reference into one of the heap's arenas: the unit of work of the
/// mark engine and the key of the reachability relation.
#[derive(Debug, Clone, Copy, PartialEq, Eq, Structural, Hash)]
pub enum HeapRef {
    Object(u32),
    Array(u32),
    JsMap(u32),
    WeakMap(u32),
    Module(u32),
    Str(u32),
    Elems(u32),
    Realm(u32),
}

} // verus!
