//! Launcher configuration: the settings of one profiling run and the
//! decisions behind assembling them.
//!
//! Reading command-line arguments and testing whether files exist are
//! the caller's business; the functions here take those observations as
//! plain values and make the decisions: which agent-library candidate
//! to use, whether the settings are acceptable, and which error to
//! report first when they are not.

use vstd::prelude::*;

verus! {

/// Settings of one profiling run.
#[derive(Debug)]
pub struct ProfilerConfig {
    pub jar_file: String,
    pub java_opts: Vec<String>,
    pub stack_size: String,
    pub output_dir: String,
    pub agent_path: String,
    pub flamegraph: bool,
    pub allocation_tracking: bool,
    pub call_graph: bool,
    pub sampling_interval: Option<u64>,
    pub java_executable: String,
}

impl Default for ProfilerConfig {
    /// The defaults: everything on, a 256k stack, output beside the
    /// working directory, `java` from the search path.
    fn default() -> (r: ProfilerConfig)
        ensures
            r.jar_file@ == Seq::<char>::empty(),
            r.java_opts@ == Seq::<String>::empty(),
            r.stack_size@ == "256k"@,
            r.output_dir@ == "./profiler_output"@,
            r.agent_path@ == Seq::<char>::empty(),
            r.flamegraph,
            r.allocation_tracking,
            r.call_graph,
            r.sampling_interval is None,
            r.java_executable@ == "java"@,
    {
        ProfilerConfig {
            jar_file: String::new(),
            java_opts: Vec::new(),
            stack_size: String::from_str("256k"),
            output_dir: String::from_str("./profiler_output"),
            agent_path: String::new(),
            flamegraph: true,
            allocation_tracking: true,
            call_graph: true,
            sampling_interval: None,
            java_executable: String::from_str("java"),
        }
    }
}

/// The known locations of the agent library, in search order.
pub open spec fn spec_agent_candidates() -> Seq<Seq<char>> {
    seq![
        "./target/release/librjprof.dylib"@,
        "./target/release/librjprof.so"@,
        "./target/release/rjprof.dll"@,
    ]
}

/// The index of the first candidate that is present.
pub open spec fn spec_first_present(present: Seq<bool>) -> Option<int> {
    if exists|i: int| 0 <= i < present.len() && present[i] {
        Some(choose|i: int| 0 <= i < present.len() && present[i] && (forall|j: int| 0 <= j < i ==> !present[j]))
    } else {
        None
    }
}

/// The known locations of the agent library, in search order.
pub fn agent_path_candidates() -> (r: Vec<String>)
    ensures
        r@.map_values(|s: String| s@) == spec_agent_candidates(),
{
    let mut v: Vec<String> = Vec::new();
    v.push(String::from_str("./target/release/librjprof.dylib"));
    v.push(String::from_str("./target/release/librjprof.so"));
    v.push(String::from_str("./target/release/rjprof.dll"));
    proof {
        assert(v@.map_values(|s: String| s@) =~= spec_agent_candidates());
    }
    v
}

/// Pick the first agent-library candidate that is present; `present`
/// answers, for each candidate in order, whether it exists on disk.
pub fn detect_agent_path(present: &Vec<bool>) -> (r: Result<String, String>)
    requires
        present@.len() == spec_agent_candidates().len(),
    ensures
        r matches Ok(p) ==> spec_first_present(present@) matches Some(i) && p@
            == spec_agent_candidates()[i],
        r matches Err(e) ==> spec_first_present(present@) is None && e@
            == "Could not find profiler agent library. Please specify with --agent-path"@,
{
    let candidates = agent_path_candidates();
    let n = candidates.len();
    let mut i: usize = 0;
    while i < n
        invariant
            i <= n,
            n == candidates@.len(),
            n == present@.len(),
            candidates@.map_values(|s: String| s@) == spec_agent_candidates(),
            forall|j: int| 0 <= j < i ==> !present@[j],
        decreases n - i,
    {
        if present[i] {
            proof {
                let w = choose|w: int|
                    0 <= w < present@.len() && present@[w] && (forall|j: int|
                        0 <= j < w ==> !present@[j]);
                assert(present@[i as int]);
                assert(spec_first_present(present@) == Some(i as int));
                assert(candidates@[i as int]@ == spec_agent_candidates()[i as int]);
            }
            return Ok(candidates[i].clone());
        }
        i += 1;
    }
    Err(String::from_str("Could not find profiler agent library. Please specify with --agent-path"))
}

/// A decimal digit.
pub open spec fn spec_is_digit(c: char) -> bool {
    '0' <= c && c <= '9'
}

pub open spec fn spec_digit_val(c: char) -> nat {
    (c as nat - '0' as nat) as nat
}

/// The value of a digit string, most significant first.
pub open spec fn spec_digits_val(s: Seq<char>) -> nat
    decreases s.len(),
{
    if s.len() == 0 {
        0
    } else {
        spec_digits_val(s.drop_last()) * 10 + spec_digit_val(s.last())
    }
}

/// Every character a decimal digit.
pub open spec fn spec_all_digits(s: Seq<char>) -> bool {
    forall|i: int| 0 <= i < s.len() ==> spec_is_digit(#[trigger] s[i])
}

/// The digits of a decimal literal: everything behind an optional
/// leading plus sign.
pub open spec fn spec_body_of(s: Seq<char>) -> Seq<char> {
    if s.len() > 0 && s[0] == '+' {
        s.drop_first()
    } else {
        s
    }
}

/// What parsing an unsigned decimal accepts: an optional leading plus
/// sign, then at least one digit, and a value that fits.
pub open spec fn spec_parse_u64(s: Seq<char>) -> Option<u64> {
    let body = spec_body_of(s);
    if body.len() > 0 && spec_all_digits(body) && spec_digits_val(body) <= u64::MAX {
        Some(spec_digits_val(body) as u64)
    } else {
        None
    }
}

/// A longer digit string is worth at least as much.
proof fn lemma_digits_val_prefix_le(s: Seq<char>, k: int)
    requires
        0 <= k <= s.len(),
    ensures
        spec_digits_val(s.subrange(0, k)) <= spec_digits_val(s),
    decreases s.len() - k,
{
    if k < s.len() {
        lemma_digits_val_prefix_le(s, k + 1);
        assert(s.subrange(0, k + 1).drop_last() =~= s.subrange(0, k));
        assert(spec_digits_val(s.subrange(0, k + 1)) == spec_digits_val(s.subrange(0, k)) * 10
            + spec_digit_val(s.subrange(0, k + 1).last()));
    } else {
        assert(s.subrange(0, k) =~= s);
    }
}

/// Parse an unsigned decimal: an optional leading plus sign, then at
/// least one digit; nothing where a character is no digit or the value
/// does not fit.
pub fn parse_u64(s: &str) -> (r: Option<u64>)
    ensures
        r == spec_parse_u64(s@),
{
    let n = s.unicode_len();
    let start: usize = if n > 0 && s.get_char(0) == '+' {
        1
    } else {
        0
    };
    let ghost body = spec_body_of(s@);
    proof {
        assert(body =~= s@.subrange(start as int, n as int));
    }
    if start >= n {
        proof {
            assert(body.len() == 0);
        }
        return None;
    }
    let mut acc: u64 = 0;
    let mut i: usize = start;
    proof {
        assert(body.subrange(0, 0) =~= Seq::<char>::empty());
    }
    while i < n
        invariant
            start <= i <= n,
            n == s@.len(),
            body == s@.subrange(start as int, n as int),
            start == 0 || (s@.len() > 0 && s@[0] == '+' && start == 1),
            start == 1 ==> s@.len() > 0 && s@[0] == '+',
            start == 0 ==> !(s@.len() > 0 && s@[0] == '+'),
            forall|j: int| 0 <= j < i - start ==> spec_is_digit(#[trigger] body[j]),
            acc == spec_digits_val(body.subrange(0, i - start)),
        decreases n - i,
    {
        let c = s.get_char(i);
        let cv = c as u32;
        proof {
            assert(body[i - start] == s@[i as int]);
            assert(spec_is_digit(c) <==> 48 <= cv <= 57);
        }
        if cv < 48 || cv > 57 {
            proof {
                assert(body == spec_body_of(s@));
                assert(0 <= i - start < body.len());
                assert(!spec_is_digit(body[i - start]));
                assert(!spec_all_digits(body));
                assert(spec_parse_u64(s@) is None);
            }
            return None;
        }
        let d: u64 = (cv - 48) as u64;
        proof {
            assert(spec_digit_val(body[i - start]) == d);
        }
        if acc > (u64::MAX - d) / 10 {
            // the value of this prefix no longer fits, so the whole
            // string's value cannot fit either
            proof {
                let pref = body.subrange(0, i - start + 1);
                assert(pref.drop_last() =~= body.subrange(0, i - start));
                assert(spec_digits_val(pref) == acc * 10 + d);
                assert(acc * 10 + d > u64::MAX) by (nonlinear_arith)
                    requires
                        acc > (u64::MAX - d) / 10,
                        d <= 9,
                ;
                lemma_digits_val_prefix_le(body, i - start + 1);
                assert(body.subrange(0, body.len() as int) =~= body);
                assert(spec_digits_val(body) > u64::MAX);
                assert(body == spec_body_of(s@));
            }
            return None;
        }
        proof {
            assert(acc * 10 + d <= u64::MAX) by (nonlinear_arith)
                requires
                    acc <= (u64::MAX - d) / 10,
                    d <= 9,
            ;
            let pref = body.subrange(0, i - start + 1);
            assert(pref.drop_last() =~= body.subrange(0, i - start));
            assert(pref.last() == body[i - start]);
        }
        acc = acc * 10 + d;
        i += 1;
    }
    proof {
        assert(body.subrange(0, n - start) =~= body);
        assert(spec_digits_val(body) == acc);
        assert(body == spec_body_of(s@));
        assert(spec_all_digits(body));
        assert(spec_parse_u64(s@) == Some(acc));
    }
    Some(acc)
}

/// Assemble and validate a configuration from the observed inputs: the
/// requested JAR and whether it exists, the agent library path (or the
/// error from failing to detect one) and whether it exists, the feature
/// switches, and the raw sampling-interval argument.  Errors are
/// reported in this order: missing JAR, JAR not on disk, no agent
/// library, agent library not on disk, unparsable sampling interval.
pub fn build_config(
    jar_file: Option<String>,
    jar_exists: bool,
    java_opts: Vec<String>,
    stack_size: String,
    output_dir: String,
    java_executable: String,
    agent_path: Result<String, String>,
    agent_exists: bool,
    no_flamegraph: bool,
    no_allocation: bool,
    no_call_graph: bool,
    sampling_interval: Option<String>,
) -> (r: Result<ProfilerConfig, String>)
    ensures
        jar_file is None ==> (r matches Err(e) && e@ == "JAR file is required"@),
        jar_file matches Some(j) ==> !jar_exists ==> (r matches Err(e) && e@
            == "JAR file not found: "@ + j@),
        jar_file is Some && jar_exists ==> (agent_path matches Err(ae) ==> (r matches Err(e) && e@
            == ae@)),
        jar_file is Some && jar_exists ==> (agent_path matches Ok(ap) ==> !agent_exists ==> (
        r matches Err(e) && e@ == "Agent library not found: "@ + ap@)),
        jar_file is Some && jar_exists && agent_path is Ok && agent_exists && (
        match sampling_interval {
            Some(si) => spec_parse_u64(si@) is None,
            None => false,
        }) ==> (r matches Err(e) && e@ == "Invalid sampling interval"@),
        jar_file matches Some(j) ==> jar_exists ==> (agent_path matches Ok(ap) ==> agent_exists
            ==> (match sampling_interval {
            Some(si) => spec_parse_u64(si@) is Some,
            None => true,
        }) ==> (r matches Ok(c) && c.jar_file@ == j@ && c.java_opts == java_opts && c.stack_size@
            == stack_size@ && c.output_dir@ == output_dir@ && c.agent_path@ == ap@ && c.flamegraph
            == !no_flamegraph && c.allocation_tracking == !no_allocation && c.call_graph
            == !no_call_graph && c.java_executable@ == java_executable@ && c.sampling_interval == (
        match sampling_interval {
            Some(si) => spec_parse_u64(si@),
            None => None,
        }))),
{
    let jar = match jar_file {
        Some(j) => j,
        None => {
            return Err(String::from_str("JAR file is required"));
        },
    };
    if !jar_exists {
        let mut e = String::from_str("JAR file not found: ");
        e.append(jar.as_str());
        return Err(e);
    }
    let agent = match agent_path {
        Ok(a) => a,
        Err(ae) => {
            return Err(ae);
        },
    };
    if !agent_exists {
        let mut e = String::from_str("Agent library not found: ");
        e.append(agent.as_str());
        return Err(e);
    }
    let parsed: Option<u64> = match &sampling_interval {
        Some(si) => {
            match parse_u64(si.as_str()) {
                Some(v) => Some(v),
                None => {
                    return Err(String::from_str("Invalid sampling interval"));
                },
            }
        },
        None => None,
    };
    Ok(
        ProfilerConfig {
            jar_file: jar,
            java_opts,
            stack_size,
            output_dir,
            agent_path: agent,
            flamegraph: !no_flamegraph,
            allocation_tracking: !no_allocation,
            call_graph: !no_call_graph,
            sampling_interval: parsed,
            java_executable,
        },
    )
}

} // verus!
