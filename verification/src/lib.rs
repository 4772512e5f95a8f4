//! Heap and garbage-collection substrate of a dynamic-language runtime.
//!
//! Every heap-allocated value (objects, arrays, maps, weak maps, strings,
//! modules, element storage) lives in a type-segregated arena addressed by a
//! typed index. A tracing mark-and-sweep collector reclaims unreachable
//! values and compacts the arenas, rewriting every surviving reference
//! through per-type shift tables.

pub mod array_data;
pub mod collect;
pub mod counts;
pub mod elements;
pub mod gc;
pub mod heap;
pub mod indexes;
pub mod js_map;
pub mod mark;
pub mod module_data;
pub mod object_data;
pub mod reachability;
pub mod realm_data;
pub mod string_data;
pub mod value;
pub mod weak_map;
