use rjprof::{
    flamegraph_summary, generate_flamegraph_svg, resolve_samples, FlameSample, MethodId,
    NameTable, StackSample,
};

fn sample(stack: &[&str], self_time: u64) -> FlameSample {
    FlameSample { stack: stack.iter().map(|s| s.to_string()).collect(), self_time }
}

#[test]
fn flamegraph_folding() {
    // two identical stacks fold into one line with the summed time
    let samples = vec![sample(&["A", "B"], 5), sample(&["A", "B"], 7)];
    let out = generate_flamegraph_svg(&samples);
    assert_eq!(out, "A;B 12\n");
}

#[test]
fn folded_output_sorted_descending() {
    let samples = vec![sample(&["A", "B"], 5), sample(&["C"], 10), sample(&["A", "B"], 7)];
    let out = generate_flamegraph_svg(&samples);
    assert_eq!(out, "A;B 12\nC 10\n");
}

#[test]
fn folded_ties_keep_first_appearance_order() {
    let samples = vec![sample(&["X"], 4), sample(&["Y"], 4)];
    let out = generate_flamegraph_svg(&samples);
    assert_eq!(out, "X 4\nY 4\n");
}

#[test]
fn report_idempotent() {
    let samples = vec![sample(&["A", "B"], 5), sample(&["C"], 10), sample(&["A", "B"], 7)];
    let first = generate_flamegraph_svg(&samples);
    let second = generate_flamegraph_svg(&samples);
    assert_eq!(first, second);
}

#[test]
fn empty_samples_empty_output() {
    let samples: Vec<FlameSample> = Vec::new();
    assert_eq!(generate_flamegraph_svg(&samples), "");
}

#[test]
fn resolution_skips_unresolved_frames() {
    let mut names = NameTable::new();
    names.insert(MethodId(1), String::from("Main.run"));
    names.insert(MethodId(3), String::from("Util.work"));
    let raw = vec![StackSample { stack: vec![MethodId(1), MethodId(2), MethodId(3)], self_time: 9 }];
    let resolved = resolve_samples(&raw, &names);
    assert_eq!(resolved.len(), 1);
    assert_eq!(resolved[0].stack, vec!["Main.run".to_string(), "Util.work".to_string()]);
    assert_eq!(resolved[0].self_time, 9);
}

#[test]
fn engine_to_folded_output() {
    // collect samples through the engine, resolve them, and render
    let mut p = rjprof::Profiler::new();
    let mut th = rjprof::ThreadState::new();
    let a = MethodId(1);
    let b = MethodId(2);
    for i in 0..2u64 {
        let t = i * 1000;
        p.on_entry(&mut th, a, t);
        p.on_entry(&mut th, b, t + 10);
        p.on_exit(&mut th, b, t + 40);
        p.on_exit(&mut th, a, t + 100);
    }
    let mut names = NameTable::new();
    names.insert(a, String::from("A"));
    names.insert(b, String::from("B"));
    let resolved = resolve_samples(&p.samples, &names);
    let out = generate_flamegraph_svg(&resolved);
    // each iteration: B with 30ns self under A, then A with 70ns self
    assert_eq!(out, "A 140\nA;B 60\n");
}

#[test]
fn summary_lines() {
    let samples = vec![sample(&["A", "B"], 1500), sample(&["C"], 500), sample(&["A", "B"], 500)];
    let lines = flamegraph_summary(&samples);
    assert_eq!(lines[0], "Flamegraph Summary");
    assert_eq!(lines[1], "==================");
    assert_eq!(lines[2], "Total samples: 3");
    assert_eq!(lines[3], "Total time: 2.5us");
    assert_eq!(lines[4], "");
    assert_eq!(lines[5], "Top 10 methods by self-time:");
    // leaf B gathered 2000ns, leaf C 500ns
    assert_eq!(lines[6], "B: 2.0us");
    assert_eq!(lines[7], "C: 500ns");
    assert_eq!(lines.len(), 8);
}
