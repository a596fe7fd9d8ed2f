//! The event-aggregation engine.
//!
//! A `Profiler` owns the shared aggregation tables: per-method timing
//! statistics, the call graph, per-method and per-class allocation
//! statistics, and the collected flamegraph samples.  A `ThreadState`
//! owns one thread's stack of active call frames; each event is handled
//! against the `Profiler` and the `ThreadState` of the thread that
//! produced it.  Entry/exit events of one thread arrive in nesting
//! order; nothing is assumed about the interleaving across threads.
//!
//! Every handler is total and never panics: an exit without a matching
//! entry is discarded without touching the tables, and all accumulation
//! saturates instead of overflowing.

use vstd::prelude::*;

use crate::stats::{MethodId, MethodStats, CallEdge, CallRelation, AllocationStats, CallFrame};
use crate::table::{upsert, update_if_present, unique_keys, lemma_upsert_found,
    lemma_upsert_absent, lemma_update_if_present_found, lemma_update_if_present_absent};
use crate::names::{format_class_signature, spec_format_class_signature, spec_unknown_class};

verus! {

/// One thread's stack of active call frames, root first.
pub struct ThreadState {
    pub frames: Vec<CallFrame>,
}

impl View for ThreadState {
    type V = Seq<CallFrame>;

    open spec fn view(&self) -> Seq<CallFrame> {
        self.frames@
    }
}

impl ThreadState {
    pub fn new() -> (r: ThreadState)
        ensures
            r@ == Seq::<CallFrame>::empty(),
    {
        let r = ThreadState { frames: Vec::new() };
        proof {
            assert(r@ =~= Seq::<CallFrame>::empty());
        }
        r
    }
}

/// A flamegraph sample: the methods of one completed call's stack, root
/// to leaf, and the self time credited to the leaf.
pub struct StackSample {
    pub stack: Vec<MethodId>,
    pub self_time: u64,
}

/// The mathematical state of a `Profiler`: each table as a sequence of
/// key/value pairs in insertion order, and the samples in collection
/// order.
#[verifier::ext_equal]
pub struct ProfilerModel {
    pub method_stats: Seq<(MethodId, MethodStats)>,
    pub call_graph: Seq<(CallEdge, CallRelation)>,
    pub alloc_stats: Seq<(MethodId, AllocationStats)>,
    pub class_alloc: Seq<(Seq<char>, AllocationStats)>,
    pub samples: Seq<(Seq<MethodId>, u64)>,
}

/// The shared aggregation tables.
pub struct Profiler {
    pub method_stats: Vec<(MethodId, MethodStats)>,
    pub call_graph: Vec<(CallEdge, CallRelation)>,
    pub alloc_stats: Vec<(MethodId, AllocationStats)>,
    pub class_alloc: Vec<(String, AllocationStats)>,
    pub samples: Vec<StackSample>,
}

impl View for Profiler {
    type V = ProfilerModel;

    open spec fn view(&self) -> ProfilerModel {
        ProfilerModel {
            method_stats: self.method_stats@,
            call_graph: self.call_graph@,
            alloc_stats: self.alloc_stats@,
            class_alloc: self.class_alloc@.map_values(
                |p: (String, AllocationStats)| (p.0@, p.1),
            ),
            samples: self.samples@.map_values(|s: StackSample| (s.stack@, s.self_time)),
        }
    }
}

// Spec-level table updates.
/// A traversal of an edge: one more call, time recorded at exit.
pub open spec fn bump_relation(r: CallRelation) -> CallRelation {
    CallRelation { call_count: r.call_count.saturating_add(1), total_time_nanos: r.total_time_nanos }
}

/// `duration` more nanoseconds attributed to an edge.
pub open spec fn add_relation_time(r: CallRelation, duration: u64) -> CallRelation {
    CallRelation {
        call_count: r.call_count,
        total_time_nanos: r.total_time_nanos.saturating_add(duration),
    }
}

/// First observation of a method: one completed call.
pub open spec fn init_stats(duration: u64, self_time: u64) -> MethodStats {
    MethodStats { count: 1, total_nanos: duration, self_nanos: self_time }
}

/// One more completed call of an already observed method.
pub open spec fn add_stats(st: MethodStats, duration: u64, self_time: u64) -> MethodStats {
    MethodStats {
        count: st.count.saturating_add(1),
        total_nanos: st.total_nanos.saturating_add(duration),
        self_nanos: st.self_nanos.saturating_add(self_time),
    }
}

/// First allocation observed for a key.
pub open spec fn init_alloc(size: u64) -> AllocationStats {
    AllocationStats { object_count: 1, total_bytes: size }
}

/// One more allocation of `size` bytes.
pub open spec fn add_alloc(a: AllocationStats, size: u64) -> AllocationStats {
    AllocationStats {
        object_count: a.object_count.saturating_add(1),
        total_bytes: a.total_bytes.saturating_add(size),
    }
}

/// Wall-clock duration of a frame popped at `ts`, clamped at zero
/// against clock anomalies.
pub open spec fn spec_duration(ts: u64, frame: CallFrame) -> u64 {
    ts.saturating_sub(frame.entry_time)
}

/// Self time of a frame popped at `ts`: its duration less the total
/// duration of its completed children.
pub open spec fn spec_self_time(ts: u64, frame: CallFrame) -> u64 {
    spec_duration(ts, frame).saturating_sub(frame.child_total)
}

// Spec-level event transitions.
/// Table effect of a method entry: when a caller is on the stack, the
/// caller->callee edge gains one traversal; nothing else changes.
pub open spec fn spec_on_entry(
    m: ProfilerModel,
    stack: Seq<CallFrame>,
    method: MethodId,
    ts: u64,
) -> ProfilerModel {
    if stack.len() > 0 {
        ProfilerModel {
            call_graph: upsert(
                m.call_graph,
                CallEdge { caller: stack.last().method, callee: method },
                bump_relation(CallRelation { call_count: 0, total_time_nanos: 0 }),
                |r: CallRelation| bump_relation(r),
            ),
            ..m
        }
    } else {
        m
    }
}

/// Stack effect of a method entry: a fresh frame is pushed.
pub open spec fn spec_entry_stack(stack: Seq<CallFrame>, method: MethodId, ts: u64) -> Seq<
    CallFrame,
> {
    stack.push(CallFrame { method, entry_time: ts, child_total: 0 })
}

/// Table effect of a method exit.  An exit with no frame to match, or
/// whose popped frame names another method, changes no table.  A
/// matching exit adds one completed call to the method's statistics,
/// credits the duration to the caller's edge where one is recorded, and
/// appends a flamegraph sample when the self time is positive.
pub open spec fn spec_on_exit(
    m: ProfilerModel,
    stack: Seq<CallFrame>,
    method: MethodId,
    ts: u64,
) -> ProfilerModel {
    if stack.len() == 0 || stack.last().method != method {
        m
    } else {
        let top = stack.last();
        let duration = spec_duration(ts, top);
        let self_time = spec_self_time(ts, top);
        ProfilerModel {
            method_stats: upsert(
                m.method_stats,
                method,
                init_stats(duration, self_time),
                |st: MethodStats| add_stats(st, duration, self_time),
            ),
            call_graph: if stack.len() >= 2 {
                update_if_present(
                    m.call_graph,
                    CallEdge { caller: stack[stack.len() - 2].method, callee: method },
                    |r: CallRelation| add_relation_time(r, duration),
                )
            } else {
                m.call_graph
            },
            samples: if self_time > 0 {
                m.samples.push((stack.map_values(|f: CallFrame| f.method), self_time))
            } else {
                m.samples
            },
            ..m
        }
    }
}

/// Stack effect of a method exit: the top frame is popped whether or
/// not it matches; a matching exit also credits the call's duration to
/// the caller frame's completed-children total.
pub open spec fn spec_exit_stack(stack: Seq<CallFrame>, method: MethodId, ts: u64) -> Seq<
    CallFrame,
> {
    if stack.len() == 0 {
        stack
    } else {
        let top = stack.last();
        let popped = stack.drop_last();
        if top.method == method && popped.len() > 0 {
            let pi = popped.len() - 1;
            let parent = popped.last();
            popped.update(
                pi,
                CallFrame {
                    method: parent.method,
                    entry_time: parent.entry_time,
                    child_total: parent.child_total.saturating_add(spec_duration(ts, top)),
                },
            )
        } else {
            popped
        }
    }
}

/// Table effect of an allocation of `size` bytes of class `class_name`
/// (already in display form): the class table always gains the
/// allocation; the method table gains it only when a tracked call is
/// active on the allocating thread.
pub open spec fn spec_on_alloc(
    m: ProfilerModel,
    stack: Seq<CallFrame>,
    class_name: Seq<char>,
    size: u64,
) -> ProfilerModel {
    ProfilerModel {
        class_alloc: upsert(
            m.class_alloc,
            class_name,
            init_alloc(size),
            |a: AllocationStats| add_alloc(a, size),
        ),
        alloc_stats: if stack.len() > 0 {
            upsert(
                m.alloc_stats,
                stack.last().method,
                init_alloc(size),
                |a: AllocationStats| add_alloc(a, size),
            )
        } else {
            m.alloc_stats
        },
        ..m
    }
}

/// Display class name of an allocation event: the formatted signature,
/// or the unresolved marker where the host could not resolve one.
pub open spec fn spec_alloc_class_name(class_signature: Option<String>) -> Seq<char> {
    match class_signature {
        Some(s) => spec_format_class_signature(s@),
        None => spec_unknown_class(),
    }
}

// Table well-formedness.
/// Per-method statistics are well formed: distinct keys, every entry
/// records at least one call, and self time never exceeds total time.
pub open spec fn method_stats_ok(s: Seq<(MethodId, MethodStats)>) -> bool {
    &&& unique_keys(s)
    &&& forall|i: int|
        0 <= i < s.len() ==> (#[trigger] s[i]).1.count >= 1 && s[i].1.self_nanos
            <= s[i].1.total_nanos
}

/// Call-graph entries are well formed: distinct edges, each traversed
/// at least once.
pub open spec fn call_graph_ok(s: Seq<(CallEdge, CallRelation)>) -> bool {
    &&& unique_keys(s)
    &&& forall|i: int| 0 <= i < s.len() ==> (#[trigger] s[i]).1.call_count >= 1
}

/// Allocation entries are well formed: distinct keys, each with at
/// least one object.
pub open spec fn alloc_table_ok<K>(s: Seq<(K, AllocationStats)>) -> bool {
    &&& unique_keys(s)
    &&& forall|i: int| 0 <= i < s.len() ==> (#[trigger] s[i]).1.object_count >= 1
}

/// Samples carry positive self time: zero-self-time frames are
/// suppressed at collection.
pub open spec fn samples_ok(s: Seq<(Seq<MethodId>, u64)>) -> bool {
    forall|i: int| 0 <= i < s.len() ==> (#[trigger] s[i]).1 > 0
}

impl Profiler {
    /// All tables well formed.
    pub open spec fn inv(&self) -> bool {
        &&& method_stats_ok(self@.method_stats)
        &&& call_graph_ok(self@.call_graph)
        &&& alloc_table_ok(self@.alloc_stats)
        &&& alloc_table_ok(self@.class_alloc)
        &&& samples_ok(self@.samples)
    }

    /// The model of an engine before any event.
    pub open spec fn empty_model() -> ProfilerModel {
        ProfilerModel {
            method_stats: Seq::empty(),
            call_graph: Seq::empty(),
            alloc_stats: Seq::empty(),
            class_alloc: Seq::empty(),
            samples: Seq::empty(),
        }
    }

    pub fn new() -> (r: Profiler)
        ensures
            r@ == Self::empty_model(),
            r.inv(),
    {
        let r = Profiler {
            method_stats: Vec::new(),
            call_graph: Vec::new(),
            alloc_stats: Vec::new(),
            class_alloc: Vec::new(),
            samples: Vec::new(),
        };
        proof {
            assert(r@ =~= Self::empty_model());
        }
        r
    }
}

/// Index of the first pair keyed by `m`, scanning from the front.
fn find_by_method<V>(entries: &Vec<(MethodId, V)>, m: MethodId) -> (r: Option<usize>)
    ensures
        r matches Some(i) ==> i < entries@.len() && entries@[i as int].0 == m && (forall|j: int|
            0 <= j < i ==> (#[trigger] entries@[j]).0 != m),
        r is None ==> forall|j: int| 0 <= j < entries@.len() ==> (#[trigger] entries@[j]).0 != m,
{
    let n = entries.len();
    let mut i: usize = 0;
    while i < n
        invariant
            i <= n,
            n == entries@.len(),
            forall|j: int| 0 <= j < i ==> (#[trigger] entries@[j]).0 != m,
        decreases n - i,
    {
        if entries[i].0 == m {
            return Some(i);
        }
        i += 1;
    }
    None
}

/// Index of the first pair keyed by `e`, scanning from the front.
fn find_by_edge<V>(entries: &Vec<(CallEdge, V)>, e: CallEdge) -> (r: Option<usize>)
    ensures
        r matches Some(i) ==> i < entries@.len() && entries@[i as int].0 == e && (forall|j: int|
            0 <= j < i ==> (#[trigger] entries@[j]).0 != e),
        r is None ==> forall|j: int| 0 <= j < entries@.len() ==> (#[trigger] entries@[j]).0 != e,
{
    let n = entries.len();
    let mut i: usize = 0;
    while i < n
        invariant
            i <= n,
            n == entries@.len(),
            forall|j: int| 0 <= j < i ==> (#[trigger] entries@[j]).0 != e,
        decreases n - i,
    {
        if entries[i].0 == e {
            return Some(i);
        }
        i += 1;
    }
    None
}

/// Index of the first pair whose string key equals `name`, scanning
/// from the front.
pub(crate) fn find_by_name<V>(entries: &Vec<(String, V)>, name: &str) -> (r: Option<usize>)
    ensures
        r matches Some(i) ==> i < entries@.len() && entries@[i as int].0@ == name@ && (forall|
            j: int,
        |
            0 <= j < i ==> (#[trigger] entries@[j]).0@ != name@),
        r is None ==> forall|j: int| 0 <= j < entries@.len() ==> (#[trigger] entries@[j]).0@
            != name@,
{
    let n = entries.len();
    let mut i: usize = 0;
    while i < n
        invariant
            i <= n,
            n == entries@.len(),
            forall|j: int| 0 <= j < i ==> (#[trigger] entries@[j]).0@ != name@,
        decreases n - i,
    {
        if crate::names::str_eq(entries[i].0.as_str(), name) {
            return Some(i);
        }
        i += 1;
    }
    None
}

impl Profiler {
    /// One more completed call of `method` with the given duration and
    /// self time.
    fn bump_method_stats(&mut self, method: MethodId, duration: u64, self_time: u64)
        requires
            method_stats_ok(old(self)@.method_stats),
            self_time <= duration,
        ensures
            final(self)@.method_stats == upsert(
                old(self)@.method_stats,
                method,
                init_stats(duration, self_time),
                |st: MethodStats| add_stats(st, duration, self_time),
            ),
            method_stats_ok(final(self)@.method_stats),
            final(self).call_graph == old(self).call_graph,
            final(self).alloc_stats == old(self).alloc_stats,
            final(self).class_alloc == old(self).class_alloc,
            final(self).samples == old(self).samples,
    {
        let ghost old_tab = self@.method_stats;
        match find_by_method(&self.method_stats, method) {
            Some(i) => {
                let cur = self.method_stats[i].1;
                self.method_stats[i].1 = MethodStats {
                    count: cur.count.saturating_add(1),
                    total_nanos: cur.total_nanos.saturating_add(duration),
                    self_nanos: cur.self_nanos.saturating_add(self_time),
                };
                proof {
                    lemma_upsert_found(
                        old_tab,
                        method,
                        init_stats(duration, self_time),
                        |st: MethodStats| add_stats(st, duration, self_time),
                        i as int,
                    );
                    assert(self@.method_stats =~= old_tab.update(
                        i as int,
                        (method, add_stats(cur, duration, self_time)),
                    ));
                }
            },
            None => {
                self.method_stats.push((method, MethodStats {
                    count: 1,
                    total_nanos: duration,
                    self_nanos: self_time,
                }));
                proof {
                    lemma_upsert_absent(
                        old_tab,
                        method,
                        init_stats(duration, self_time),
                        |st: MethodStats| add_stats(st, duration, self_time),
                    );
                    assert(self@.method_stats =~= old_tab.push(
                        (method, init_stats(duration, self_time)),
                    ));
                }
            },
        }
    }

    /// One more traversal of the edge `e`.
    fn bump_edge_count(&mut self, e: CallEdge)
        requires
            call_graph_ok(old(self)@.call_graph),
        ensures
            final(self)@.call_graph == upsert(
                old(self)@.call_graph,
                e,
                bump_relation(CallRelation { call_count: 0, total_time_nanos: 0 }),
                |r: CallRelation| bump_relation(r),
            ),
            call_graph_ok(final(self)@.call_graph),
            final(self).method_stats == old(self).method_stats,
            final(self).alloc_stats == old(self).alloc_stats,
            final(self).class_alloc == old(self).class_alloc,
            final(self).samples == old(self).samples,
    {
        let ghost old_tab = self@.call_graph;
        match find_by_edge(&self.call_graph, e) {
            Some(i) => {
                let cur = self.call_graph[i].1;
                self.call_graph[i].1 = CallRelation {
                    call_count: cur.call_count.saturating_add(1),
                    total_time_nanos: cur.total_time_nanos,
                };
                proof {
                    lemma_upsert_found(
                        old_tab,
                        e,
                        bump_relation(CallRelation { call_count: 0, total_time_nanos: 0 }),
                        |r: CallRelation| bump_relation(r),
                        i as int,
                    );
                    assert(self@.call_graph =~= old_tab.update(i as int, (e, bump_relation(cur))));
                }
            },
            None => {
                self.call_graph.push((e, CallRelation { call_count: 1, total_time_nanos: 0 }));
                proof {
                    lemma_upsert_absent(
                        old_tab,
                        e,
                        bump_relation(CallRelation { call_count: 0, total_time_nanos: 0 }),
                        |r: CallRelation| bump_relation(r),
                    );
                    assert(self@.call_graph =~= old_tab.push(
                        (e, bump_relation(CallRelation { call_count: 0, total_time_nanos: 0 })),
                    ));
                }
            },
        }
    }

    /// `duration` more nanoseconds on the edge `e`, where that edge was
    /// already recorded by an entry event.
    fn add_edge_time(&mut self, e: CallEdge, duration: u64)
        requires
            call_graph_ok(old(self)@.call_graph),
        ensures
            final(self)@.call_graph == update_if_present(
                old(self)@.call_graph,
                e,
                |r: CallRelation| add_relation_time(r, duration),
            ),
            call_graph_ok(final(self)@.call_graph),
            final(self).method_stats == old(self).method_stats,
            final(self).alloc_stats == old(self).alloc_stats,
            final(self).class_alloc == old(self).class_alloc,
            final(self).samples == old(self).samples,
    {
        let ghost old_tab = self@.call_graph;
        match find_by_edge(&self.call_graph, e) {
            Some(i) => {
                let cur = self.call_graph[i].1;
                self.call_graph[i].1 = CallRelation {
                    call_count: cur.call_count,
                    total_time_nanos: cur.total_time_nanos.saturating_add(duration),
                };
                proof {
                    lemma_update_if_present_found(
                        old_tab,
                        e,
                        |r: CallRelation| add_relation_time(r, duration),
                        i as int,
                    );
                    assert(self@.call_graph =~= old_tab.update(
                        i as int,
                        (e, add_relation_time(cur, duration)),
                    ));
                }
            },
            None => {
                proof {
                    lemma_update_if_present_absent(
                        old_tab,
                        e,
                        |r: CallRelation| add_relation_time(r, duration),
                    );
                }
            },
        }
    }

    /// One allocation of `size` bytes attributed to `method`.
    fn bump_method_alloc(&mut self, method: MethodId, size: u64)
        requires
            alloc_table_ok(old(self)@.alloc_stats),
        ensures
            final(self)@.alloc_stats == upsert(
                old(self)@.alloc_stats,
                method,
                init_alloc(size),
                |a: AllocationStats| add_alloc(a, size),
            ),
            alloc_table_ok(final(self)@.alloc_stats),
            final(self).method_stats == old(self).method_stats,
            final(self).call_graph == old(self).call_graph,
            final(self).class_alloc == old(self).class_alloc,
            final(self).samples == old(self).samples,
    {
        let ghost old_tab = self@.alloc_stats;
        match find_by_method(&self.alloc_stats, method) {
            Some(i) => {
                let cur = self.alloc_stats[i].1;
                self.alloc_stats[i].1 = AllocationStats {
                    object_count: cur.object_count.saturating_add(1),
                    total_bytes: cur.total_bytes.saturating_add(size),
                };
                proof {
                    lemma_upsert_found(
                        old_tab,
                        method,
                        init_alloc(size),
                        |a: AllocationStats| add_alloc(a, size),
                        i as int,
                    );
                    assert(self@.alloc_stats =~= old_tab.update(
                        i as int,
                        (method, add_alloc(cur, size)),
                    ));
                }
            },
            None => {
                self.alloc_stats.push((method, AllocationStats { object_count: 1, total_bytes: size }));
                proof {
                    lemma_upsert_absent(
                        old_tab,
                        method,
                        init_alloc(size),
                        |a: AllocationStats| add_alloc(a, size),
                    );
                    assert(self@.alloc_stats =~= old_tab.push((method, init_alloc(size))));
                }
            },
        }
    }

    /// One allocation of `size` bytes of class `class_name`.
    fn bump_class_alloc(&mut self, class_name: String, size: u64)
        requires
            alloc_table_ok(old(self)@.class_alloc),
        ensures
            final(self)@.class_alloc == upsert(
                old(self)@.class_alloc,
                class_name@,
                init_alloc(size),
                |a: AllocationStats| add_alloc(a, size),
            ),
            alloc_table_ok(final(self)@.class_alloc),
            final(self).method_stats == old(self).method_stats,
            final(self).call_graph == old(self).call_graph,
            final(self).alloc_stats == old(self).alloc_stats,
            final(self).samples == old(self).samples,
    {
        let ghost old_tab = self@.class_alloc;
        match find_by_name(&self.class_alloc, class_name.as_str()) {
            Some(i) => {
                let cur = self.class_alloc[i].1;
                self.class_alloc[i].1 = AllocationStats {
                    object_count: cur.object_count.saturating_add(1),
                    total_bytes: cur.total_bytes.saturating_add(size),
                };
                proof {
                    assert forall|j: int| 0 <= j < i implies (#[trigger] old_tab[j]).0
                        != class_name@ by {
                        assert(old_tab[j].0 == old(self).class_alloc@[j].0@);
                    }
                    assert(old_tab[i as int].0 == class_name@);
                    lemma_upsert_found(
                        old_tab,
                        class_name@,
                        init_alloc(size),
                        |a: AllocationStats| add_alloc(a, size),
                        i as int,
                    );
                    assert(self@.class_alloc =~= old_tab.update(
                        i as int,
                        (class_name@, add_alloc(cur, size)),
                    ));
                }
            },
            None => {
                self.class_alloc.push((class_name, AllocationStats { object_count: 1, total_bytes: size }));
                proof {
                    assert forall|j: int| 0 <= j < old_tab.len() implies (#[trigger] old_tab[j]).0
                        != class_name@ by {
                        assert(old_tab[j].0 == old(self).class_alloc@[j].0@);
                    }
                    lemma_upsert_absent(
                        old_tab,
                        class_name@,
                        init_alloc(size),
                        |a: AllocationStats| add_alloc(a, size),
                    );
                    assert(self@.class_alloc =~= old_tab.push((class_name@, init_alloc(size))));
                }
            },
        }
    }

    /// A method was entered on the thread owning `th` at time `ts`.
    pub fn on_entry(&mut self, th: &mut ThreadState, method: MethodId, ts: u64)
        requires
            old(self).inv(),
        ensures
            final(self).inv(),
            final(self)@ == spec_on_entry(old(self)@, old(th)@, method, ts),
            final(th)@ == spec_entry_stack(old(th)@, method, ts),
    {
        let n = th.frames.len();
        if n > 0 {
            let caller = th.frames[n - 1].method;
            self.bump_edge_count(CallEdge { caller, callee: method });
        }
        th.frames.push(CallFrame { method, entry_time: ts, child_total: 0 });
        proof {
            assert(final(self)@ =~= spec_on_entry(old(self)@, old(th)@, method, ts));
        }
    }

    /// A method was exited on the thread owning `th` at time `ts`.
    pub fn on_exit(&mut self, th: &mut ThreadState, method: MethodId, ts: u64)
        requires
            old(self).inv(),
        ensures
            final(self).inv(),
            final(self)@ == spec_on_exit(old(self)@, old(th)@, method, ts),
            final(th)@ == spec_exit_stack(old(th)@, method, ts),
    {
        let ghost old_stack = th@;
        if th.frames.len() == 0 {
            return ;
        }
        let top = match th.frames.pop() {
            Some(f) => f,
            None => {
                // unreachable: the stack was just tested non-empty
                proof {
                    assert(false);
                }
                return ;
            },
        };
        if top.method != method {
            // A mismatch: the popped frame's statistics are unreliable,
            // so this call's update is abandoned.
            proof {
                assert(final(self)@ =~= spec_on_exit(old(self)@, old_stack, method, ts));
            }
            return ;
        }
        let duration = ts.saturating_sub(top.entry_time);
        let self_time = duration.saturating_sub(top.child_total);
        self.bump_method_stats(method, duration, self_time);
        let remaining = th.frames.len();
        if remaining > 0 {
            let parent = th.frames[remaining - 1];
            th.frames[remaining - 1].child_total = parent.child_total.saturating_add(duration);
            self.add_edge_time(CallEdge { caller: parent.method, callee: method }, duration);
        }
        if self_time > 0 {
            let mut stack: Vec<MethodId> = Vec::new();
            let mut i: usize = 0;
            let frame_count = th.frames.len();
            while i < frame_count
                invariant
                    i <= frame_count,
                    frame_count == th.frames@.len(),
                    stack@ == th.frames@.subrange(0, i as int).map_values(
                        |f: CallFrame| f.method,
                    ),
                decreases frame_count - i,
            {
                stack.push(th.frames[i].method);
                proof {
                    assert(stack@ =~= th.frames@.subrange(0, i + 1 as int).map_values(
                        |f: CallFrame| f.method,
                    ));
                }
                i += 1;
            }
            stack.push(method);
            proof {
                assert(th.frames@.subrange(0, frame_count as int) =~= th.frames@);
                // the popped frames' methods are those of the old stack
                // below the top; the leaf is the popped method itself
                assert(stack@ =~= old_stack.map_values(|f: CallFrame| f.method));
            }
            self.samples.push(StackSample { stack, self_time });
        }
        proof {
            assert(final(self)@.samples =~= spec_on_exit(old(self)@, old_stack, method, ts).samples);
            assert(final(self)@ =~= spec_on_exit(old(self)@, old_stack, method, ts));
            assert(final(th)@ =~= spec_exit_stack(old_stack, method, ts));
        }
    }

    /// An object of `size` bytes was allocated on the thread owning
    /// `th`; `class_signature` is the host's signature of its class, or
    /// nothing where resolution failed.
    pub fn on_alloc(&mut self, th: &ThreadState, class_signature: Option<String>, size: u64)
        requires
            old(self).inv(),
        ensures
            final(self).inv(),
            final(self)@ == spec_on_alloc(
                old(self)@,
                th@,
                spec_alloc_class_name(class_signature),
                size,
            ),
    {
        let class_name = match class_signature {
            Some(s) => format_class_signature(s.as_str()),
            None => String::from_str("<unknown>"),
        };
        self.bump_class_alloc(class_name, size);
        let n = th.frames.len();
        if n > 0 {
            let method = th.frames[n - 1].method;
            self.bump_method_alloc(method, size);
        }
        proof {
            assert(final(self)@ =~= spec_on_alloc(
                old(self)@,
                th@,
                spec_alloc_class_name(class_signature),
                size,
            ));
        }
    }
}

/// One instrumentation event, as delivered by the host runtime for a
/// particular thread.
pub enum Event {
    Entry { method: MethodId, timestamp: u64 },
    Exit { method: MethodId, timestamp: u64 },
    Alloc { class_signature: Option<String>, size: u64 },
}

impl Profiler {
    /// Handle one event against the state of the thread it occurred on.
    pub fn handle_event(&mut self, th: &mut ThreadState, event: Event)
        requires
            old(self).inv(),
        ensures
            final(self).inv(),
            event matches Event::Entry { method, timestamp } ==> final(self)@ == spec_on_entry(
                old(self)@,
                old(th)@,
                method,
                timestamp,
            ) && final(th)@ == spec_entry_stack(old(th)@, method, timestamp),
            event matches Event::Exit { method, timestamp } ==> final(self)@ == spec_on_exit(
                old(self)@,
                old(th)@,
                method,
                timestamp,
            ) && final(th)@ == spec_exit_stack(old(th)@, method, timestamp),
            event matches Event::Alloc { class_signature, size } ==> final(self)@ == spec_on_alloc(
                old(self)@,
                old(th)@,
                spec_alloc_class_name(class_signature),
                size,
            ) && final(th)@ == old(th)@,
    {
        match event {
            Event::Entry { method, timestamp } => self.on_entry(th, method, timestamp),
            Event::Exit { method, timestamp } => self.on_exit(th, method, timestamp),
            Event::Alloc { class_signature, size } => self.on_alloc(th, class_signature, size),
        }
    }
}

} // verus!
