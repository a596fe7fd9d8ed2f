//! Core data types of the aggregation engine.
//!
//! A method is identified by an opaque handle owned by the host runtime;
//! the engine only ever uses it as an equality key, so it is carried here
//! as a plain integer wrapped in a thin value type.

use vstd::prelude::*;

verus! {

/// Opaque, runtime-scoped identifier of a method.  The engine never
/// dereferences it; it is only an equality/hash key.
#[derive(Clone, Copy, PartialEq, Eq, Structural, Hash, Debug)]
pub struct MethodId(pub u64);

/// Cumulative per-method statistics across all threads and calls.
#[derive(Clone, Copy, PartialEq, Eq, Structural, Debug)]
pub struct MethodStats {
    pub count: u64,
    pub total_nanos: u64,
    pub self_nanos: u64,
}

/// A directed caller -> callee relationship in the call graph.
#[derive(Clone, Copy, PartialEq, Eq, Structural, Hash, Debug)]
pub struct CallEdge {
    pub caller: MethodId,
    pub callee: MethodId,
}

/// Aggregated statistics of one call-graph edge.
#[derive(Clone, Copy, PartialEq, Eq, Structural, Debug)]
pub struct CallRelation {
    pub call_count: u64,
    pub total_time_nanos: u64,
}

/// Per-method (or per-class) allocation statistics.
#[derive(Clone, Copy, PartialEq, Eq, Structural, Debug)]
pub struct AllocationStats {
    pub object_count: u64,
    pub total_bytes: u64,
}

/// An active call on some thread's stack.  `child_total` accumulates the
/// total duration of the *completed* direct children of this frame, so
/// that self time can be credited exactly when the frame itself exits.
#[derive(Clone, Copy, PartialEq, Eq, Structural, Debug)]
pub struct CallFrame {
    pub method: MethodId,
    pub entry_time: u64,
    pub child_total: u64,
}

} // verus!
