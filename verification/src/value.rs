//! Runtime values and string handles.
//!
//! A `Value` either carries its data inline (undefined, null, booleans,
//! integers, short strings) or names a heap entity through a typed index.
//! Only the latter kind contributes an edge to the reachability graph.

use vstd::prelude::*;
use crate::indexes::{
    ArrayIndex, HeapRef, MapIndex, ModuleIndex, ObjectIndex, StringIndex, WeakMapIndex,
};

verus! {

/// A string short enough to live inline in a `Value`: at most seven bytes,
/// stored with its length. It names no heap slot, so the collector ignores it.
#[derive(Debug, Clone, Copy, PartialEq, Eq)]
pub struct SmallInline {
    pub bytes: [u8; 7],
    pub len: u8,
}

impl SmallInline {
    pub open spec fn wf(self) -> bool {
        self.len <= 7
    }

    pub fn new(bytes: [u8; 7], len: u8) -> (r: SmallInline)
        requires
            len <= 7,
        ensures
            r.bytes == bytes,
            r.len == len,
            r.wf(),
    {
        SmallInline { bytes, len }
    }
}

/// A language-level string: either a slot in the string arena or an inline
/// short string.
#[derive(Debug, Clone, Copy, PartialEq, Eq)]
pub enum JsString {
    Heap(StringIndex),
    Small(SmallInline),
}

impl JsString {
    /// The heap slot this string keeps alive, if any.
    pub open spec fn spec_heap_ref(self) -> Option<HeapRef> {
        match self {
            JsString::Heap(si) => Some(HeapRef::Str(si.0)),
            JsString::Small(_) => None,
        }
    }
}

/// A runtime value. Heap-allocated values are named through typed indices;
/// everything else is carried inline.
#[derive(Debug, Clone, Copy, PartialEq, Eq)]
pub enum Value {
    Undefined,
    Null,
    Boolean(bool),
    Integer(i64),
    Str(JsString),
    Object(ObjectIndex),
    Array(ArrayIndex),
    JsMap(MapIndex),
    WeakMap(WeakMapIndex),
    Module(ModuleIndex),
}

/// The heap slot a value keeps alive, if any: the value's outgoing edge in
/// the reachability graph.
pub open spec fn value_ref(v: Value) -> Option<HeapRef> {
    match v {
        Value::Undefined => None,
        Value::Null => None,
        Value::Boolean(_) => None,
        Value::Integer(_) => None,
        Value::Str(s) => s.spec_heap_ref(),
        Value::Object(o) => Some(HeapRef::Object(o.0)),
        Value::Array(a) => Some(HeapRef::Array(a.0)),
        Value::JsMap(m) => Some(HeapRef::JsMap(m.0)),
        Value::WeakMap(w) => Some(HeapRef::WeakMap(w.0)),
        Value::Module(m) => Some(HeapRef::Module(m.0)),
    }
}

/// The heap slot an optional value keeps alive, if any.
pub open spec fn opt_value_ref(v: Option<Value>) -> Option<HeapRef> {
    match v {
        Some(inner) => value_ref(inner),
        None => None,
    }
}

impl Value {
    /// The heap slot this value keeps alive, if any.
    pub fn heap_ref(self) -> (r: Option<HeapRef>)
        ensures
            r == value_ref(self),
    {
        match self {
            Value::Object(o) => Some(HeapRef::Object(o.0)),
            Value::Array(a) => Some(HeapRef::Array(a.0)),
            Value::JsMap(m) => Some(HeapRef::JsMap(m.0)),
            Value::WeakMap(w) => Some(HeapRef::WeakMap(w.0)),
            Value::Module(m) => Some(HeapRef::Module(m.0)),
            Value::Str(JsString::Heap(s)) => Some(HeapRef::Str(s.0)),
            _ => None,
        }
    }
}

/// A handle to any object-like heap entity.
#[derive(Debug, Clone, Copy, PartialEq, Eq)]
pub enum Object {
    Ordinary(ObjectIndex),
    Array(ArrayIndex),
    JsMap(crate::js_map::JsMap),
    WeakMap(crate::weak_map::WeakMap),
    Module(ModuleIndex),
}

impl Object {
    /// The same handle as a value.
    pub fn into_value(self) -> (r: Value)
        ensures
            r == match self {
                Object::Ordinary(o) => Value::Object(o),
                Object::Array(a) => Value::Array(a),
                Object::JsMap(m) => Value::JsMap(m.0),
                Object::WeakMap(w) => Value::WeakMap(w.0),
                Object::Module(m) => Value::Module(m),
            },
    {
        match self {
            Object::Ordinary(o) => Value::Object(o),
            Object::Array(a) => Value::Array(a),
            Object::JsMap(m) => Value::JsMap(m.0),
            Object::WeakMap(w) => Value::WeakMap(w.0),
            Object::Module(m) => Value::Module(m),
        }
    }
}

} // verus!
