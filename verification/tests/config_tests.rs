use rjprof::{agent_path_candidates, build_config, detect_agent_path, parse_u64, ProfilerConfig};

#[test]
fn test_agent_path_detection() {
    // detection must not crash; whether a candidate is present depends
    // on the machine, so nothing is asserted of the outcome
    let _result = detect_agent_path(&vec![false, false, false]);
}

#[test]
fn detection_picks_first_present_candidate() {
    let r = detect_agent_path(&vec![false, true, true]);
    assert_eq!(r, Ok(String::from("./target/release/librjprof.so")));
    let r = detect_agent_path(&vec![true, false, false]);
    assert_eq!(r, Ok(String::from("./target/release/librjprof.dylib")));
    let r = detect_agent_path(&vec![false, false, false]);
    assert!(r.is_err());
}

#[test]
fn candidate_list() {
    let c = agent_path_candidates();
    assert_eq!(
        c,
        vec![
            String::from("./target/release/librjprof.dylib"),
            String::from("./target/release/librjprof.so"),
            String::from("./target/release/rjprof.dll"),
        ]
    );
}

#[test]
fn default_configuration() {
    let c = ProfilerConfig::default();
    assert_eq!(c.jar_file, "");
    assert!(c.java_opts.is_empty());
    assert_eq!(c.stack_size, "256k");
    assert_eq!(c.output_dir, "./profiler_output");
    assert_eq!(c.agent_path, "");
    assert!(c.flamegraph);
    assert!(c.allocation_tracking);
    assert!(c.call_graph);
    assert_eq!(c.sampling_interval, None);
    assert_eq!(c.java_executable, "java");
}

#[test]
fn parsing_unsigned_decimals() {
    assert_eq!(parse_u64("123"), Some(123));
    assert_eq!(parse_u64("+7"), Some(7));
    assert_eq!(parse_u64("0"), Some(0));
    assert_eq!(parse_u64(""), None);
    assert_eq!(parse_u64("+"), None);
    assert_eq!(parse_u64("12a"), None);
    assert_eq!(parse_u64("-3"), None);
    assert_eq!(parse_u64("18446744073709551615"), Some(u64::MAX));
    assert_eq!(parse_u64("18446744073709551616"), None);
}

fn ok_inputs() -> (
    Option<String>,
    bool,
    Vec<String>,
    String,
    String,
    String,
    Result<String, String>,
    bool,
    bool,
    bool,
    bool,
    Option<String>,
) {
    (
        Some(String::from("app.jar")),
        true,
        vec![String::from("-Xmx1g")],
        String::from("256k"),
        String::from("./out"),
        String::from("java"),
        Ok(String::from("./agent.so")),
        true,
        false,
        false,
        false,
        Some(String::from("250")),
    )
}

#[test]
fn build_config_accepts_valid_inputs() {
    let (jar, je, opts, ss, out, jx, ap, ae, nf, na, nc, si) = ok_inputs();
    let c = build_config(jar, je, opts, ss, out, jx, ap, ae, nf, na, nc, si).unwrap();
    assert_eq!(c.jar_file, "app.jar");
    assert_eq!(c.java_opts, vec![String::from("-Xmx1g")]);
    assert_eq!(c.agent_path, "./agent.so");
    assert!(c.flamegraph);
    assert_eq!(c.sampling_interval, Some(250));
}

#[test]
fn build_config_reports_each_error() {
    let (_, je, opts, ss, out, jx, ap, ae, nf, na, nc, si) = ok_inputs();
    let e = build_config(None, je, opts, ss, out, jx, ap, ae, nf, na, nc, si).unwrap_err();
    assert_eq!(e, "JAR file is required");

    let (jar, _, opts, ss, out, jx, ap, ae, nf, na, nc, si) = ok_inputs();
    let e = build_config(jar, false, opts, ss, out, jx, ap, ae, nf, na, nc, si).unwrap_err();
    assert_eq!(e, "JAR file not found: app.jar");

    let (jar, je, opts, ss, out, jx, _, ae, nf, na, nc, si) = ok_inputs();
    let e = build_config(
        jar,
        je,
        opts,
        ss,
        out,
        jx,
        Err(String::from("no agent anywhere")),
        ae,
        nf,
        na,
        nc,
        si,
    )
    .unwrap_err();
    assert_eq!(e, "no agent anywhere");

    let (jar, je, opts, ss, out, jx, ap, _, nf, na, nc, si) = ok_inputs();
    let e = build_config(jar, je, opts, ss, out, jx, ap, false, nf, na, nc, si).unwrap_err();
    assert_eq!(e, "Agent library not found: ./agent.so");

    let (jar, je, opts, ss, out, jx, ap, ae, nf, na, nc, _) = ok_inputs();
    let e = build_config(
        jar,
        je,
        opts,
        ss,
        out,
        jx,
        ap,
        ae,
        nf,
        na,
        nc,
        Some(String::from("fast")),
    )
    .unwrap_err();
    assert_eq!(e, "Invalid sampling interval");
}

#[test]
fn build_config_flags_invert_switches() {
    let (jar, je, opts, ss, out, jx, ap, ae, _, _, _, _) = ok_inputs();
    let c = build_config(jar, je, opts, ss, out, jx, ap, ae, true, true, false, None).unwrap();
    assert!(!c.flamegraph);
    assert!(!c.allocation_tracking);
    assert!(c.call_graph);
    assert_eq!(c.sampling_interval, None);
}
