//! Global laws of the aggregation engine, proved over its model.
//!
//! The event handlers' contracts pin each step down exactly
//! (`spec_on_entry`, `spec_on_exit`, `spec_on_alloc`); the lemmas here
//! state what follows for whole event sequences and for single events.

use vstd::prelude::*;

use crate::stats::{MethodId, MethodStats, CallFrame};
use crate::table::{lookup, upsert, lemma_lookup_upsert_same};
use crate::engine::{ProfilerModel, Profiler, spec_on_entry, spec_entry_stack, spec_on_exit,
    spec_exit_stack, spec_on_alloc, init_stats, add_stats, init_alloc, add_alloc};

verus! {

/// One entry or exit event on a single thread.
pub enum CallEvent {
    Entry(MethodId, u64),
    Exit(MethodId, u64),
}

/// The engine state after one entry/exit event.
pub open spec fn step_model(m: ProfilerModel, stack: Seq<CallFrame>, e: CallEvent) -> (
    ProfilerModel,
    Seq<CallFrame>,
) {
    match e {
        CallEvent::Entry(method, ts) => (
            spec_on_entry(m, stack, method, ts),
            spec_entry_stack(stack, method, ts),
        ),
        CallEvent::Exit(method, ts) => (
            spec_on_exit(m, stack, method, ts),
            spec_exit_stack(stack, method, ts),
        ),
    }
}

/// The engine state after a sequence of entry/exit events on one
/// thread.
pub open spec fn replay(m: ProfilerModel, stack: Seq<CallFrame>, events: Seq<CallEvent>) -> (
    ProfilerModel,
    Seq<CallFrame>,
)
    decreases events.len(),
{
    if events.len() == 0 {
        (m, stack)
    } else {
        let next = step_model(m, stack, events[0]);
        replay(next.0, next.1, events.drop_first())
    }
}

/// The stack alone after one entry/exit event.
pub open spec fn step_stack(stack: Seq<CallFrame>, e: CallEvent) -> Seq<CallFrame> {
    match e {
        CallEvent::Entry(method, ts) => spec_entry_stack(stack, method, ts),
        CallEvent::Exit(method, ts) => spec_exit_stack(stack, method, ts),
    }
}

/// An exit event is matched when the top of the stack is a frame of
/// the same method, pushed by a prior entry.
pub open spec fn is_matched_exit(stack: Seq<CallFrame>, e: CallEvent) -> bool {
    e matches CallEvent::Exit(method, ts) && stack.len() > 0 && stack.last().method == method
}

/// How many exits of an event sequence are matched, replaying from the
/// given stack.
pub open spec fn matched_exits(stack: Seq<CallFrame>, events: Seq<CallEvent>) -> int
    decreases events.len(),
{
    if events.len() == 0 {
        0int
    } else {
        let here: int = if is_matched_exit(stack, events[0]) {
            1int
        } else {
            0int
        };
        here + matched_exits(step_stack(stack, events[0]), events.drop_first())
    }
}

/// Total number of completed calls recorded across all methods.
pub open spec fn total_calls(s: Seq<(MethodId, MethodStats)>) -> int
    decreases s.len(),
{
    if s.len() == 0 {
        0int
    } else {
        s[0].1.count + total_calls(s.drop_first())
    }
}

proof fn lemma_total_nonneg(s: Seq<(MethodId, MethodStats)>)
    ensures
        total_calls(s) >= 0,
    decreases s.len(),
{
    if s.len() > 0 {
        lemma_total_nonneg(s.drop_first());
    }
}

/// A completed call adds exactly one to the total, as long as the
/// method's own counter has not saturated.
proof fn lemma_total_calls_upsert(
    s: Seq<(MethodId, MethodStats)>,
    k: MethodId,
    duration: u64,
    self_time: u64,
)
    requires
        (lookup(s, k) matches Some(v) ==> v.count < u64::MAX),
    ensures
        total_calls(
            upsert(s, k, init_stats(duration, self_time), |st: MethodStats| add_stats(st, duration, self_time)),
        ) == total_calls(s) + 1,
    decreases s.len(),
{
    let f = |st: MethodStats| add_stats(st, duration, self_time);
    let r = upsert(s, k, init_stats(duration, self_time), f);
    if s.len() == 0 {
        assert(r =~= seq![(k, init_stats(duration, self_time))]);
        assert(r.drop_first() =~= Seq::<(MethodId, MethodStats)>::empty());
        assert(total_calls(Seq::<(MethodId, MethodStats)>::empty()) == 0int);
    } else if s[0].0 == k {
        assert(r =~= seq![(s[0].0, f(s[0].1))] + s.drop_first());
        assert(r[0].1.count == s[0].1.count + 1);
        assert(r.drop_first() =~= s.drop_first());
    } else {
        lemma_total_calls_upsert(s.drop_first(), k, duration, self_time);
        assert(r =~= seq![s[0]] + upsert(s.drop_first(), k, init_stats(duration, self_time), f));
        assert(r[0] == s[0]);
        assert(r.drop_first() =~= upsert(s.drop_first(), k, init_stats(duration, self_time), f));
    }
}

/// An exit with no matching entry alters no table at all: the
/// statistics after it are the statistics before it.
pub proof fn lemma_unmatched_exit_is_noop(
    m: ProfilerModel,
    stack: Seq<CallFrame>,
    method: MethodId,
    ts: u64,
)
    requires
        stack.len() == 0 || stack.last().method != method,
    ensures
        spec_on_exit(m, stack, method, ts) == m,
{
}

/// Stack discipline: replaying any sequence of entry/exit events of one
/// thread on a fresh engine records exactly one completed call per exit
/// that matches the entry on top of the stack.  (The bound on the
/// number of events keeps every per-method counter below its
/// saturation point.)
pub proof fn lemma_stack_discipline(events: Seq<CallEvent>)
    requires
        events.len() < u64::MAX,
    ensures
        total_calls(replay(Profiler::empty_model(), Seq::empty(), events).0.method_stats)
            == matched_exits(Seq::empty(), events),
{
    lemma_stack_discipline_rec(Profiler::empty_model(), Seq::empty(), events);
}

/// Generalisation of `lemma_stack_discipline` to a replay from any
/// state whose total stays clear of saturation.
proof fn lemma_stack_discipline_rec(
    m: ProfilerModel,
    stack: Seq<CallFrame>,
    events: Seq<CallEvent>,
)
    requires
        total_calls(m.method_stats) + events.len() < u64::MAX,
    ensures
        total_calls(replay(m, stack, events).0.method_stats) == total_calls(m.method_stats)
            + matched_exits(stack, events),
    decreases events.len(),
{
    if events.len() > 0 {
        let e = events[0];
        let next = step_model(m, stack, e);
        let rest = events.drop_first();
        match e {
            CallEvent::Entry(method, ts) => {
                // an entry touches only the call graph
                assert(next.0.method_stats == m.method_stats);
                lemma_stack_discipline_rec(next.0, next.1, rest);
            },
            CallEvent::Exit(method, ts) => {
                if is_matched_exit(stack, e) {
                    let top = stack.last();
                    let duration = ts.saturating_sub(top.entry_time);
                    let self_time = duration.saturating_sub(top.child_total);
                    if lookup(m.method_stats, method) matches Some(v) {
                        lemma_lookup_is_count_bounded(m.method_stats, method);
                    }
                    lemma_total_calls_upsert(m.method_stats, method, duration, self_time);
                    lemma_stack_discipline_rec(next.0, next.1, rest);
                } else {
                    lemma_unmatched_exit_is_noop(m, stack, method, ts);
                    lemma_stack_discipline_rec(next.0, next.1, rest);
                }
            },
        }
    }
}

/// Any value found by lookup is one of the entries, so its count is
/// bounded by the total.
proof fn lemma_lookup_is_count_bounded(s: Seq<(MethodId, MethodStats)>, k: MethodId)
    requires
        lookup(s, k) is Some,
    ensures
        lookup(s, k).unwrap().count <= total_calls(s),
    decreases s.len(),
{
    lemma_total_nonneg(s.drop_first());
    if s.len() > 0 && s[0].0 != k {
        lemma_lookup_is_count_bounded(s.drop_first(), k);
    }
}

/// Timing correctness: a single unnested call of `method` entered at
/// `t0` and exited at `t1 >= t0`, on a thread with an empty stack and
/// with no earlier record of the method, leaves exactly one completed
/// call with total and self time both `t1 - t0`, and an empty stack.
pub proof fn lemma_timing_correctness(m: ProfilerModel, method: MethodId, t0: u64, t1: u64)
    requires
        t1 >= t0,
        lookup(m.method_stats, method) is None,
    ensures
        ({
            let stack0 = Seq::<CallFrame>::empty();
            let m1 = spec_on_entry(m, stack0, method, t0);
            let stack1 = spec_entry_stack(stack0, method, t0);
            let m2 = spec_on_exit(m1, stack1, method, t1);
            let stack2 = spec_exit_stack(stack1, method, t1);
            lookup(m2.method_stats, method) == Some(
                MethodStats {
                    count: 1,
                    total_nanos: (t1 - t0) as u64,
                    self_nanos: (t1 - t0) as u64,
                },
            ) && stack2 == Seq::<CallFrame>::empty()
        }),
{
    let stack0 = Seq::<CallFrame>::empty();
    let m1 = spec_on_entry(m, stack0, method, t0);
    let stack1 = spec_entry_stack(stack0, method, t0);
    let duration = (t1 - t0) as u64;
    lemma_lookup_upsert_same(
        m1.method_stats,
        method,
        init_stats(duration, duration),
        |st: MethodStats| add_stats(st, duration, duration),
    );
    assert(spec_exit_stack(stack1, method, t1) =~= Seq::<CallFrame>::empty());
}

/// Allocation attribution: an allocation increments the class table
/// entry of its class name by one object and `size` bytes, increments
/// the method table entry of the stack's top method the same way when a
/// call is active, and touches nothing else.
pub proof fn lemma_allocation_attribution(
    m: ProfilerModel,
    stack: Seq<CallFrame>,
    class_name: Seq<char>,
    size: u64,
)
    ensures
        ({
            let m2 = spec_on_alloc(m, stack, class_name, size);
            &&& lookup(m2.class_alloc, class_name) == Some(
                match lookup(m.class_alloc, class_name) {
                    Some(a) => add_alloc(a, size),
                    None => init_alloc(size),
                },
            )
            &&& (stack.len() > 0 ==> lookup(m2.alloc_stats, stack.last().method) == Some(
                match lookup(m.alloc_stats, stack.last().method) {
                    Some(a) => add_alloc(a, size),
                    None => init_alloc(size),
                },
            ))
            &&& (stack.len() == 0 ==> m2.alloc_stats == m.alloc_stats)
            &&& m2.method_stats == m.method_stats
            &&& m2.call_graph == m.call_graph
            &&& m2.samples == m.samples
        }),
{
    lemma_lookup_upsert_same(
        m.class_alloc,
        class_name,
        init_alloc(size),
        |a: crate::stats::AllocationStats| add_alloc(a, size),
    );
    if stack.len() > 0 {
        lemma_lookup_upsert_same(
            m.alloc_stats,
            stack.last().method,
            init_alloc(size),
            |a: crate::stats::AllocationStats| add_alloc(a, size),
        );
    }
}

} // verus!
