use rjprof::{
    top_call_edges, top_classes_by_allocation, top_methods_by_allocation,
    top_methods_by_self_time, MethodId, NameTable, Profiler, ThreadState,
};

fn profiler_with_two_methods() -> (Profiler, NameTable) {
    let mut p = Profiler::new();
    let mut th = ThreadState::new();
    // slow: one call, 9000ns all self time
    p.on_entry(&mut th, MethodId(1), 0);
    p.on_exit(&mut th, MethodId(1), 9000);
    // fast: two calls of 100ns each
    p.on_entry(&mut th, MethodId(2), 10000);
    p.on_exit(&mut th, MethodId(2), 10100);
    p.on_entry(&mut th, MethodId(2), 20000);
    p.on_exit(&mut th, MethodId(2), 20100);
    let mut names = NameTable::new();
    names.insert(MethodId(1), String::from("App.slow"));
    names.insert(MethodId(2), String::from("App.fast"));
    (p, names)
}

#[test]
fn methods_ranked_by_self_time() {
    let (p, names) = profiler_with_two_methods();
    let lines = top_methods_by_self_time(&p, &names, 10);
    assert_eq!(lines.len(), 2);
    let expected_first = format!(
        "{:<50} {:>6} calls | Self: {:>8} avg | Total: {:>8} avg",
        "App.slow", 1, "9.0us", "9.0us"
    );
    assert_eq!(lines[0], expected_first);
    let expected_second = format!(
        "{:<50} {:>6} calls | Self: {:>8} avg | Total: {:>8} avg",
        "App.fast", 2, "100ns", "100ns"
    );
    assert_eq!(lines[1], expected_second);
}

#[test]
fn top_n_truncates() {
    let (p, names) = profiler_with_two_methods();
    let lines = top_methods_by_self_time(&p, &names, 1);
    assert_eq!(lines.len(), 1);
    assert!(lines[0].starts_with("App.slow"));
}

#[test]
fn unresolved_methods_get_placeholder() {
    let (p, _) = profiler_with_two_methods();
    let empty = NameTable::new();
    let lines = top_methods_by_self_time(&p, &empty, 10);
    assert!(lines[0].starts_with("<unknown-class>.<unknown>"));
}

#[test]
fn edges_ranked_by_total_time() {
    let mut p = Profiler::new();
    let mut th = ThreadState::new();
    let a = MethodId(1);
    let b = MethodId(2);
    let c = MethodId(3);
    p.on_entry(&mut th, a, 0);
    p.on_entry(&mut th, b, 100);
    p.on_exit(&mut th, b, 200);
    p.on_entry(&mut th, c, 300);
    p.on_exit(&mut th, c, 900);
    p.on_exit(&mut th, a, 1000);
    let mut names = NameTable::new();
    names.insert(a, String::from("A.run"));
    names.insert(b, String::from("B.run"));
    names.insert(c, String::from("C.run"));
    let lines = top_call_edges(&p, &names, 15);
    assert_eq!(lines.len(), 2);
    let expected_first = format!(
        "{:<35} -> {:<35} {:>6} calls, {:>8} avg",
        "A.run", "C.run", 1, "600ns"
    );
    assert_eq!(lines[0], expected_first);
    assert!(lines[1].starts_with("A.run"));
    assert!(lines[1].contains("-> B.run"));
}

#[test]
fn allocations_ranked_by_bytes() {
    let mut p = Profiler::new();
    let mut th = ThreadState::new();
    p.on_entry(&mut th, MethodId(1), 0);
    p.on_alloc(&th, Some(String::from("Ljava/lang/String;")), 100);
    p.on_alloc(&th, Some(String::from("[B")), 4000);
    let mut names = NameTable::new();
    names.insert(MethodId(1), String::from("App.main"));
    let method_lines = top_methods_by_allocation(&p, &names, 8);
    assert_eq!(method_lines.len(), 1);
    let expected = format!(
        "{:<50} {:>6} objects, {:>10}",
        "App.main", 2, "4.0KB"
    );
    assert_eq!(method_lines[0], expected);

    let class_lines = top_classes_by_allocation(&p, 10);
    assert_eq!(class_lines.len(), 2);
    let expected_first = format!("{:<40} {:>8} objects, {:>10}", "Array: [B", 1, "3.9KB");
    assert_eq!(class_lines[0], expected_first);
    let expected_second = format!(
        "{:<40} {:>8} objects, {:>10}",
        "java.lang.String", 1, "100B"
    );
    assert_eq!(class_lines[1], expected_second);
}
