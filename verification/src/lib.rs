//! Aggregation core of an instrumentation-driven profiler.
//!
//! The library turns a stream of method-entry, method-exit and
//! object-allocation events into aggregated timing, call-graph and
//! allocation statistics, a flamegraph-ready sample collection, and
//! textual reports.  Per-thread call-stack state (`ThreadState`) is
//! kept separate from the shared tables (`Profiler`), so a host can
//! drive one `ThreadState` per worker thread against a single
//! `Profiler` behind a lock; entry and exit events of one thread must
//! arrive in nesting order, while events of different threads may
//! interleave arbitrarily.
//!
//! At shutdown the report functions read the tables and render the
//! folded-stack flamegraph file, its summary, and four ranked console
//! tables; every report is a function of the tables alone.


mod stats;
pub mod table;
pub mod names;
pub mod engine;
pub mod laws;
pub mod numfmt;
pub mod sort;
pub mod flame;
pub mod report;
pub mod config;

pub use stats::{MethodId, MethodStats, CallEdge, CallRelation, AllocationStats, CallFrame};
pub use engine::{Profiler, ThreadState, StackSample, Event};
pub use names::{NameTable, get_method_name_safe, format_class_signature, format_declaring_class};
pub use numfmt::{format_bytes, format_time, u64_to_dec};
pub use flame::{FlameSample, resolve_samples, generate_flamegraph_svg, flamegraph_summary};
pub use report::{top_methods_by_self_time, top_call_edges, top_methods_by_allocation,
    top_classes_by_allocation};
pub use config::{ProfilerConfig, agent_path_candidates, detect_agent_path, parse_u64,
    build_config};

