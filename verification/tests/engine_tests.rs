use rjprof::{Event, MethodId, Profiler, ThreadState};

fn mid(x: u64) -> MethodId {
    MethodId(x)
}

#[test]
fn timing_single_call() {
    let mut p = Profiler::new();
    let mut th = ThreadState::new();
    p.on_entry(&mut th, mid(1), 100);
    p.on_exit(&mut th, mid(1), 250);
    assert_eq!(p.method_stats.len(), 1);
    let (m, st) = p.method_stats[0];
    assert_eq!(m, mid(1));
    assert_eq!(st.count, 1);
    assert_eq!(st.total_nanos, 150);
    assert_eq!(st.self_nanos, 150);
    assert!(th.frames.is_empty());
}

#[test]
fn nesting_and_call_edges() {
    let mut p = Profiler::new();
    let mut th = ThreadState::new();
    let a = mid(10);
    let b = mid(20);
    p.on_entry(&mut th, a, 0);
    p.on_entry(&mut th, b, 10);
    p.on_exit(&mut th, b, 40);
    p.on_exit(&mut th, a, 100);

    assert_eq!(p.call_graph.len(), 1);
    let (edge, rel) = p.call_graph[0];
    assert_eq!(edge.caller, a);
    assert_eq!(edge.callee, b);
    assert_eq!(rel.call_count, 1);
    assert_eq!(rel.total_time_nanos, 30);

    let stats_b = p.method_stats[0];
    assert_eq!(stats_b.0, b);
    assert_eq!(stats_b.1.total_nanos, 30);
    assert_eq!(stats_b.1.self_nanos, 30);

    let stats_a = p.method_stats[1];
    assert_eq!(stats_a.0, a);
    assert_eq!(stats_a.1.total_nanos, 100);
    assert_eq!(stats_a.1.self_nanos, 70);
}

#[test]
fn unmatched_exit_alters_nothing() {
    let mut p = Profiler::new();
    let mut th = ThreadState::new();
    // exit with an empty stack
    p.on_exit(&mut th, mid(1), 50);
    assert!(p.method_stats.is_empty());
    assert!(p.call_graph.is_empty());
    assert!(p.samples.is_empty());
    // exit whose popped frame names another method: the frame is
    // discarded, the tables stay
    p.on_entry(&mut th, mid(1), 0);
    p.on_exit(&mut th, mid(2), 10);
    assert!(p.method_stats.is_empty());
    assert!(th.frames.is_empty());
}

#[test]
fn clock_anomaly_saturates_to_zero() {
    let mut p = Profiler::new();
    let mut th = ThreadState::new();
    p.on_entry(&mut th, mid(1), 100);
    p.on_exit(&mut th, mid(1), 40);
    let (_, st) = p.method_stats[0];
    assert_eq!(st.count, 1);
    assert_eq!(st.total_nanos, 0);
    assert_eq!(st.self_nanos, 0);
    // zero self time contributes no flamegraph sample
    assert!(p.samples.is_empty());
}

#[test]
fn allocation_attribution() {
    let mut p = Profiler::new();
    let mut th = ThreadState::new();
    p.on_entry(&mut th, mid(7), 0);
    p.on_alloc(&th, Some(String::from("Ljava/lang/String;")), 24);
    assert_eq!(p.class_alloc.len(), 1);
    assert_eq!(p.class_alloc[0].0, "java.lang.String");
    assert_eq!(p.class_alloc[0].1.object_count, 1);
    assert_eq!(p.class_alloc[0].1.total_bytes, 24);
    assert_eq!(p.alloc_stats.len(), 1);
    assert_eq!(p.alloc_stats[0].0, mid(7));
    assert_eq!(p.alloc_stats[0].1.object_count, 1);
    assert_eq!(p.alloc_stats[0].1.total_bytes, 24);

    // an allocation outside any tracked call reaches only the class table
    let idle = ThreadState::new();
    p.on_alloc(&idle, Some(String::from("Ljava/lang/String;")), 8);
    assert_eq!(p.class_alloc[0].1.object_count, 2);
    assert_eq!(p.class_alloc[0].1.total_bytes, 32);
    assert_eq!(p.alloc_stats[0].1.object_count, 1);
}

#[test]
fn allocation_with_unresolved_class() {
    let mut p = Profiler::new();
    let th = ThreadState::new();
    p.on_alloc(&th, None, 16);
    assert_eq!(p.class_alloc[0].0, "<unknown>");
    assert_eq!(p.class_alloc[0].1.total_bytes, 16);
}

#[test]
fn concurrent_threads_scenario() {
    // two threads, each 1000 calls of the same method: with the engine
    // behind a lock the interleaving is a sequence of events, and no
    // update is lost
    let mut p = Profiler::new();
    let mut t1 = ThreadState::new();
    let mut t2 = ThreadState::new();
    let m = mid(42);
    for i in 0..1000u64 {
        let t = i * 20;
        p.on_entry(&mut t1, m, t);
        p.on_entry(&mut t2, m, t);
        p.on_exit(&mut t1, m, t + 5);
        p.on_exit(&mut t2, m, t + 5);
    }
    assert_eq!(p.method_stats.len(), 1);
    let (_, st) = p.method_stats[0];
    assert_eq!(st.count, 2000);
    assert_eq!(st.total_nanos, 10000);
}

#[test]
fn dangling_entries_never_count() {
    // a thread that dies mid-call leaves frames behind; no statistics
    // are recorded for them
    let mut p = Profiler::new();
    let mut th = ThreadState::new();
    p.on_entry(&mut th, mid(1), 0);
    p.on_entry(&mut th, mid(2), 10);
    drop(th);
    assert!(p.method_stats.is_empty());
    assert!(p.samples.is_empty());
    // the edge traversal was recorded at entry, with no time attributed
    assert_eq!(p.call_graph.len(), 1);
    assert_eq!(p.call_graph[0].1.call_count, 1);
    assert_eq!(p.call_graph[0].1.total_time_nanos, 0);
}

#[test]
fn handle_event_dispatches() {
    let mut p = Profiler::new();
    let mut th = ThreadState::new();
    p.handle_event(&mut th, Event::Entry { method: mid(1), timestamp: 0 });
    p.handle_event(
        &mut th,
        Event::Alloc { class_signature: Some(String::from("[I")), size: 40 },
    );
    p.handle_event(&mut th, Event::Exit { method: mid(1), timestamp: 90 });
    assert_eq!(p.method_stats[0].1.total_nanos, 90);
    assert_eq!(p.class_alloc[0].0, "Array: [I");
    assert_eq!(p.samples.len(), 1);
    assert_eq!(p.samples[0].stack, vec![mid(1)]);
    assert_eq!(p.samples[0].self_time, 90);
}

#[test]
fn self_time_subtracts_completed_children() {
    let mut p = Profiler::new();
    let mut th = ThreadState::new();
    let a = mid(1);
    let b = mid(2);
    let c = mid(3);
    p.on_entry(&mut th, a, 0);
    p.on_entry(&mut th, b, 10);
    p.on_exit(&mut th, b, 30);
    p.on_entry(&mut th, c, 40);
    p.on_exit(&mut th, c, 70);
    p.on_exit(&mut th, a, 100);
    // a ran 100ns, its completed children 20 + 30
    let stats_a = p.method_stats.iter().find(|e| e.0 == a).unwrap().1;
    assert_eq!(stats_a.total_nanos, 100);
    assert_eq!(stats_a.self_nanos, 50);
    // the samples carry full root-to-leaf stacks
    assert_eq!(p.samples.len(), 3);
    assert_eq!(p.samples[0].stack, vec![a, b]);
    assert_eq!(p.samples[1].stack, vec![a, c]);
    assert_eq!(p.samples[2].stack, vec![a]);
    assert_eq!(p.samples[2].self_time, 50);
}
