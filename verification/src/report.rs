//! The ranked report tables printed at shutdown: methods by self time,
//! call-graph edges by total time, methods and classes by allocated
//! bytes.
//!
//! Each function reads the tables, never writes them, and renders a
//! fixed number of lines: rows ranked descending by the table's key,
//! ties broken by insertion order.  Every line is a function of the
//! tables and the name table, so re-rendering unchanged tables gives
//! identical lines.

use vstd::prelude::*;

use crate::stats::{MethodId, MethodStats, CallEdge, CallRelation, AllocationStats};
use crate::engine::{Profiler, method_stats_ok, call_graph_ok, alloc_table_ok};
use crate::names::NameTable;
use crate::table::lookup;
use crate::numfmt::{spec_dec, spec_format_time, spec_format_bytes, u64_to_dec, format_time,
    format_bytes};
use crate::sort::{spec_sort_desc, sort_pairs_desc, lemma_sort_desc_membership};

verus! {

/// `n` spaces.
pub open spec fn spec_spaces(n: nat) -> Seq<char>
    decreases n,
{
    if n == 0 {
        Seq::empty()
    } else {
        spec_spaces((n - 1) as nat).push(' ')
    }
}

/// `s` padded with trailing spaces to width `w`.
pub open spec fn spec_pad_right(s: Seq<char>, w: nat) -> Seq<char> {
    if s.len() >= w {
        s
    } else {
        s + spec_spaces((w - s.len()) as nat)
    }
}

/// `s` padded with leading spaces to width `w`.
pub open spec fn spec_pad_left(s: Seq<char>, w: nat) -> Seq<char> {
    if s.len() >= w {
        s
    } else {
        spec_spaces((w - s.len()) as nat) + s
    }
}

/// `n` spaces.
fn spaces(n: usize) -> (r: String)
    ensures
        r@ == spec_spaces(n as nat),
{
    let mut out = String::new();
    let mut i: usize = 0;
    proof {
        assert(out@ =~= spec_spaces(0));
    }
    while i < n
        invariant
            i <= n,
            out@ == spec_spaces(i as nat),
        decreases n - i,
    {
        out.append(" ");
        proof {
            reveal_strlit(" ");
            assert(out@ =~= spec_spaces((i + 1) as nat));
        }
        i += 1;
    }
    out
}

/// `s` padded with trailing spaces to width `w`.
pub fn pad_right(s: String, w: usize) -> (r: String)
    ensures
        r@ == spec_pad_right(s@, w as nat),
{
    let len = s.as_str().unicode_len();
    if len >= w {
        s
    } else {
        let mut r = s;
        let pad = spaces(w - len);
        r.append(pad.as_str());
        r
    }
}

/// `s` padded with leading spaces to width `w`.
pub fn pad_left(s: String, w: usize) -> (r: String)
    ensures
        r@ == spec_pad_left(s@, w as nat),
{
    let len = s.as_str().unicode_len();
    if len >= w {
        s
    } else {
        let mut r = spaces(w - len);
        r.append(s.as_str());
        r
    }
}

/// The display name recorded for `m`, or the unresolved placeholder.
pub open spec fn spec_display_name(names: Seq<(MethodId, Seq<char>)>, m: MethodId) -> Seq<char> {
    match lookup(names, m) {
        Some(n) => n,
        None => "<unknown-class>.<unknown>"@,
    }
}

/// The display name recorded for `m`, or the unresolved placeholder.
pub fn display_name(names: &NameTable, m: MethodId) -> (r: String)
    requires
        names.inv(),
    ensures
        r@ == spec_display_name(names@, m),
{
    match names.get(m) {
        Some(s) => s,
        None => String::from_str("<unknown-class>.<unknown>"),
    }
}

/// One line of the methods-by-self-time table: name, calls, average
/// self and total time per call.
pub open spec fn spec_method_line(
    names: Seq<(MethodId, Seq<char>)>,
    e: (MethodId, MethodStats),
) -> Seq<char> {
    spec_pad_right(spec_display_name(names, e.0), 50) + " "@ + spec_pad_left(
        spec_dec(e.1.count as nat),
        6,
    ) + " calls | Self: "@ + spec_pad_left(
        spec_format_time(((e.1.self_nanos as int) / (e.1.count as int)) as u64),
        8,
    ) + " avg | Total: "@ + spec_pad_left(
        spec_format_time(((e.1.total_nanos as int) / (e.1.count as int)) as u64),
        8,
    ) + " avg"@
}

/// The ranking pairs of a method-statistics table, keyed by self time.
pub open spec fn spec_method_keys(tab: Seq<(MethodId, MethodStats)>) -> Seq<(u64, usize)> {
    Seq::new(tab.len(), |i: int| (tab[i].1.self_nanos, i as usize))
}

/// The top `n` lines of the methods-by-self-time table.
pub open spec fn spec_top_methods(
    tab: Seq<(MethodId, MethodStats)>,
    names: Seq<(MethodId, Seq<char>)>,
    n: int,
) -> Seq<Seq<char>> {
    let order = spec_sort_desc(spec_method_keys(tab));
    let count = if order.len() < n {
        order.len() as int
    } else {
        n
    };
    Seq::new(count as nat, |j: int| spec_method_line(names, tab[order[j].1 as int]))
}

/// The top `n` methods ranked by self time, one rendered line each.
pub fn top_methods_by_self_time(p: &Profiler, names: &NameTable, n: usize) -> (r: Vec<String>)
    requires
        p.inv(),
        names.inv(),
    ensures
        r@.map_values(|s: String| s@) == spec_top_methods(p@.method_stats, names@, n as int),
{
    let ghost tab = p@.method_stats;
    let tn = p.method_stats.len();
    let mut keys: Vec<(u64, usize)> = Vec::new();
    let mut i: usize = 0;
    while i < tn
        invariant
            i <= tn,
            tn == p.method_stats@.len(),
            keys@.len() == i,
            forall|j: int| 0 <= j < i ==> keys@[j] == (p.method_stats@[j].1.self_nanos, j as usize),
        decreases tn - i,
    {
        keys.push((p.method_stats[i].1.self_nanos, i));
        i += 1;
    }
    proof {
        assert(keys@ =~= spec_method_keys(tab));
    }
    let order = sort_pairs_desc(&keys);
    let count = if order.len() < n {
        order.len()
    } else {
        n
    };
    let mut out: Vec<String> = Vec::new();
    let mut j: usize = 0;
    while j < count
        invariant
            j <= count,
            count <= order@.len(),
            tn == p.method_stats@.len(),
            tab == p@.method_stats,
            p.inv(),
            names.inv(),
            order@ == spec_sort_desc(spec_method_keys(tab)),
            count as int == if order@.len() < n as int {
                order@.len() as int
            } else {
                n as int
            },
            out@.len() == j,
            forall|w: int| 0 <= w < j ==> (#[trigger] out@[w])@ == spec_method_line(
                names@,
                tab[order@[w].1 as int],
            ),
        decreases count - j,
    {
        proof {
            lemma_sort_desc_membership(spec_method_keys(tab), j as int);
            let w = choose|w: int|
                0 <= w < spec_method_keys(tab).len() && spec_method_keys(tab)[w] == order@[j as int];
            assert(order@[j as int].1 == w as usize);
        }
        let idx = order[j].1;
        let st = p.method_stats[idx].1;
        proof {
            assert(tab[idx as int].1.count >= 1);
        }
        let avg_self = st.self_nanos / st.count;
        let avg_total = st.total_nanos / st.count;
        let mut line = pad_right(display_name(names, p.method_stats[idx].0), 50);
        line.append(" ");
        let c = pad_left(u64_to_dec(st.count), 6);
        line.append(c.as_str());
        line.append(" calls | Self: ");
        let ts = pad_left(format_time(avg_self), 8);
        line.append(ts.as_str());
        line.append(" avg | Total: ");
        let tt = pad_left(format_time(avg_total), 8);
        line.append(tt.as_str());
        line.append(" avg");
        out.push(line);
        proof {
            assert(out@[j as int]@ == spec_method_line(names@, tab[order@[j as int].1 as int]));
        }
        j += 1;
    }
    proof {
        let mapped = out@.map_values(|s: String| s@);
        let lines = spec_top_methods(tab, names@, n as int);
        assert forall|w: int| 0 <= w < mapped.len() implies mapped[w] == lines[w] by {
            assert(out@[w]@ == spec_method_line(names@, tab[order@[w].1 as int]));
        }
        assert(mapped =~= lines);
    }
    out
}

/// One line of the call-edges table: caller, callee, calls, average
/// time per call.
pub open spec fn spec_edge_line(
    names: Seq<(MethodId, Seq<char>)>,
    e: (CallEdge, CallRelation),
) -> Seq<char> {
    spec_pad_right(spec_display_name(names, e.0.caller), 35) + " -> "@ + spec_pad_right(
        spec_display_name(names, e.0.callee),
        35,
    ) + " "@ + spec_pad_left(spec_dec(e.1.call_count as nat), 6) + " calls, "@ + spec_pad_left(
        spec_format_time(((e.1.total_time_nanos as int) / (e.1.call_count as int)) as u64),
        8,
    ) + " avg"@
}

/// The ranking pairs of the call-graph table, keyed by total time.
pub open spec fn spec_edge_keys(tab: Seq<(CallEdge, CallRelation)>) -> Seq<(u64, usize)> {
    Seq::new(tab.len(), |i: int| (tab[i].1.total_time_nanos, i as usize))
}

/// The top `n` lines of the call-edges table.
pub open spec fn spec_top_edges(
    tab: Seq<(CallEdge, CallRelation)>,
    names: Seq<(MethodId, Seq<char>)>,
    n: int,
) -> Seq<Seq<char>> {
    let order = spec_sort_desc(spec_edge_keys(tab));
    let count = if order.len() < n {
        order.len() as int
    } else {
        n
    };
    Seq::new(count as nat, |j: int| spec_edge_line(names, tab[order[j].1 as int]))
}

/// The top `n` call-graph edges ranked by total time, one rendered line
/// each.
pub fn top_call_edges(p: &Profiler, names: &NameTable, n: usize) -> (r: Vec<String>)
    requires
        p.inv(),
        names.inv(),
    ensures
        r@.map_values(|s: String| s@) == spec_top_edges(p@.call_graph, names@, n as int),
{
    let ghost tab = p@.call_graph;
    let tn = p.call_graph.len();
    let mut keys: Vec<(u64, usize)> = Vec::new();
    let mut i: usize = 0;
    while i < tn
        invariant
            i <= tn,
            tn == p.call_graph@.len(),
            keys@.len() == i,
            forall|j: int| 0 <= j < i ==> keys@[j] == (
                p.call_graph@[j].1.total_time_nanos,
                j as usize,
            ),
        decreases tn - i,
    {
        keys.push((p.call_graph[i].1.total_time_nanos, i));
        i += 1;
    }
    proof {
        assert(keys@ =~= spec_edge_keys(tab));
    }
    let order = sort_pairs_desc(&keys);
    let count = if order.len() < n {
        order.len()
    } else {
        n
    };
    let mut out: Vec<String> = Vec::new();
    let mut j: usize = 0;
    while j < count
        invariant
            j <= count,
            count <= order@.len(),
            tn == p.call_graph@.len(),
            tab == p@.call_graph,
            p.inv(),
            names.inv(),
            order@ == spec_sort_desc(spec_edge_keys(tab)),
            out@.len() == j,
            forall|w: int| 0 <= w < j ==> (#[trigger] out@[w])@ == spec_edge_line(
                names@,
                tab[order@[w].1 as int],
            ),
        decreases count - j,
    {
        proof {
            lemma_sort_desc_membership(spec_edge_keys(tab), j as int);
            let w = choose|w: int|
                0 <= w < spec_edge_keys(tab).len() && spec_edge_keys(tab)[w] == order@[j as int];
            assert(order@[j as int].1 == w as usize);
        }
        let idx = order[j].1;
        let edge = p.call_graph[idx].0;
        let rel = p.call_graph[idx].1;
        proof {
            assert(tab[idx as int].1.call_count >= 1);
        }
        let avg = rel.total_time_nanos / rel.call_count;
        let mut line = pad_right(display_name(names, edge.caller), 35);
        line.append(" -> ");
        let callee = pad_right(display_name(names, edge.callee), 35);
        line.append(callee.as_str());
        line.append(" ");
        let c = pad_left(u64_to_dec(rel.call_count), 6);
        line.append(c.as_str());
        line.append(" calls, ");
        let ts = pad_left(format_time(avg), 8);
        line.append(ts.as_str());
        line.append(" avg");
        out.push(line);
        proof {
            assert(out@[j as int]@ == spec_edge_line(names@, tab[order@[j as int].1 as int]));
        }
        j += 1;
    }
    proof {
        let mapped = out@.map_values(|s: String| s@);
        let lines = spec_top_edges(tab, names@, n as int);
        assert forall|w: int| 0 <= w < mapped.len() implies mapped[w] == lines[w] by {
            assert(out@[w]@ == spec_edge_line(names@, tab[order@[w].1 as int]));
        }
        assert(mapped =~= lines);
    }
    out
}

/// One line of the methods-by-allocation table: name, objects, bytes.
pub open spec fn spec_method_alloc_line(
    names: Seq<(MethodId, Seq<char>)>,
    e: (MethodId, AllocationStats),
) -> Seq<char> {
    spec_pad_right(spec_display_name(names, e.0), 50) + " "@ + spec_pad_left(
        spec_dec(e.1.object_count as nat),
        6,
    ) + " objects, "@ + spec_pad_left(spec_format_bytes(e.1.total_bytes), 10)
}

/// The ranking pairs of an allocation table, keyed by total bytes.
pub open spec fn spec_alloc_keys<K>(tab: Seq<(K, AllocationStats)>) -> Seq<(u64, usize)> {
    Seq::new(tab.len(), |i: int| (tab[i].1.total_bytes, i as usize))
}

/// The top `n` lines of the methods-by-allocation table.
pub open spec fn spec_top_method_allocs(
    tab: Seq<(MethodId, AllocationStats)>,
    names: Seq<(MethodId, Seq<char>)>,
    n: int,
) -> Seq<Seq<char>> {
    let order = spec_sort_desc(spec_alloc_keys(tab));
    let count = if order.len() < n {
        order.len() as int
    } else {
        n
    };
    Seq::new(count as nat, |j: int| spec_method_alloc_line(names, tab[order[j].1 as int]))
}

/// The top `n` methods ranked by allocated bytes, one rendered line
/// each.
pub fn top_methods_by_allocation(p: &Profiler, names: &NameTable, n: usize) -> (r: Vec<String>)
    requires
        p.inv(),
        names.inv(),
    ensures
        r@.map_values(|s: String| s@) == spec_top_method_allocs(p@.alloc_stats, names@, n as int),
{
    let ghost tab = p@.alloc_stats;
    let tn = p.alloc_stats.len();
    let mut keys: Vec<(u64, usize)> = Vec::new();
    let mut i: usize = 0;
    while i < tn
        invariant
            i <= tn,
            tn == p.alloc_stats@.len(),
            keys@.len() == i,
            forall|j: int| 0 <= j < i ==> keys@[j] == (p.alloc_stats@[j].1.total_bytes, j as usize),
        decreases tn - i,
    {
        keys.push((p.alloc_stats[i].1.total_bytes, i));
        i += 1;
    }
    proof {
        assert(keys@ =~= spec_alloc_keys(tab));
    }
    let order = sort_pairs_desc(&keys);
    let count = if order.len() < n {
        order.len()
    } else {
        n
    };
    let mut out: Vec<String> = Vec::new();
    let mut j: usize = 0;
    while j < count
        invariant
            j <= count,
            count <= order@.len(),
            tn == p.alloc_stats@.len(),
            tab == p@.alloc_stats,
            p.inv(),
            names.inv(),
            order@ == spec_sort_desc(spec_alloc_keys(tab)),
            out@.len() == j,
            forall|w: int| 0 <= w < j ==> (#[trigger] out@[w])@ == spec_method_alloc_line(
                names@,
                tab[order@[w].1 as int],
            ),
        decreases count - j,
    {
        proof {
            lemma_sort_desc_membership(spec_alloc_keys(tab), j as int);
            let w = choose|w: int|
                0 <= w < spec_alloc_keys(tab).len() && spec_alloc_keys(tab)[w] == order@[j as int];
            assert(order@[j as int].1 == w as usize);
        }
        let idx = order[j].1;
        let st = p.alloc_stats[idx].1;
        let mut line = pad_right(display_name(names, p.alloc_stats[idx].0), 50);
        line.append(" ");
        let c = pad_left(u64_to_dec(st.object_count), 6);
        line.append(c.as_str());
        line.append(" objects, ");
        let b = pad_left(format_bytes(st.total_bytes), 10);
        line.append(b.as_str());
        out.push(line);
        proof {
            assert(out@[j as int]@ == spec_method_alloc_line(
                names@,
                tab[order@[j as int].1 as int],
            ));
        }
        j += 1;
    }
    proof {
        let mapped = out@.map_values(|s: String| s@);
        let lines = spec_top_method_allocs(tab, names@, n as int);
        assert forall|w: int| 0 <= w < mapped.len() implies mapped[w] == lines[w] by {
            assert(out@[w]@ == spec_method_alloc_line(names@, tab[order@[w].1 as int]));
        }
        assert(mapped =~= lines);
    }
    out
}

/// One line of the classes-by-allocation table: class name, objects,
/// bytes.
pub open spec fn spec_class_alloc_line(e: (Seq<char>, AllocationStats)) -> Seq<char> {
    spec_pad_right(e.0, 40) + " "@ + spec_pad_left(spec_dec(e.1.object_count as nat), 8)
        + " objects, "@ + spec_pad_left(spec_format_bytes(e.1.total_bytes), 10)
}

/// The top `n` lines of the classes-by-allocation table.
pub open spec fn spec_top_class_allocs(tab: Seq<(Seq<char>, AllocationStats)>, n: int) -> Seq<
    Seq<char>,
> {
    let order = spec_sort_desc(spec_alloc_keys(tab));
    let count = if order.len() < n {
        order.len() as int
    } else {
        n
    };
    Seq::new(count as nat, |j: int| spec_class_alloc_line(tab[order[j].1 as int]))
}

/// The top `n` classes ranked by allocated bytes, one rendered line
/// each.
pub fn top_classes_by_allocation(p: &Profiler, n: usize) -> (r: Vec<String>)
    requires
        p.inv(),
    ensures
        r@.map_values(|s: String| s@) == spec_top_class_allocs(p@.class_alloc, n as int),
{
    let ghost tab = p@.class_alloc;
    let tn = p.class_alloc.len();
    let mut keys: Vec<(u64, usize)> = Vec::new();
    let mut i: usize = 0;
    while i < tn
        invariant
            i <= tn,
            tn == p.class_alloc@.len(),
            keys@.len() == i,
            forall|j: int| 0 <= j < i ==> keys@[j] == (
                (#[trigger] p.class_alloc@[j]).1.total_bytes,
                j as usize,
            ),
        decreases tn - i,
    {
        keys.push((p.class_alloc[i].1.total_bytes, i));
        i += 1;
    }
    proof {
        assert forall|j: int| 0 <= j < tn implies keys@[j] == ((#[trigger] tab[j]).1.total_bytes, j as usize) by {
            assert(tab[j].1 == p.class_alloc@[j].1);
        }
        assert(keys@ =~= spec_alloc_keys(tab));
    }
    let order = sort_pairs_desc(&keys);
    let count = if order.len() < n {
        order.len()
    } else {
        n
    };
    let mut out: Vec<String> = Vec::new();
    let mut j: usize = 0;
    while j < count
        invariant
            j <= count,
            count <= order@.len(),
            tn == p.class_alloc@.len(),
            tab == p@.class_alloc,
            p.inv(),
            order@ == spec_sort_desc(spec_alloc_keys(tab)),
            out@.len() == j,
            forall|w: int| 0 <= w < j ==> (#[trigger] out@[w])@ == spec_class_alloc_line(
                tab[order@[w].1 as int],
            ),
        decreases count - j,
    {
        proof {
            lemma_sort_desc_membership(spec_alloc_keys(tab), j as int);
            let w = choose|w: int|
                0 <= w < spec_alloc_keys(tab).len() && spec_alloc_keys(tab)[w] == order@[j as int];
            assert(order@[j as int].1 == w as usize);
        }
        let idx = order[j].1;
        let st = p.class_alloc[idx].1;
        let name = String::from_str(p.class_alloc[idx].0.as_str());
        let mut line = pad_right(name, 40);
        line.append(" ");
        let c = pad_left(u64_to_dec(st.object_count), 8);
        line.append(c.as_str());
        line.append(" objects, ");
        let b = pad_left(format_bytes(st.total_bytes), 10);
        line.append(b.as_str());
        out.push(line);
        proof {
            assert(tab[order@[j as int].1 as int].0 == p.class_alloc@[order@[j as int].1 as int].0@);
            assert(tab[order@[j as int].1 as int].1 == p.class_alloc@[order@[j as int].1 as int].1);
            assert(out@[j as int]@ == spec_class_alloc_line(tab[order@[j as int].1 as int]));
        }
        j += 1;
    }
    proof {
        let mapped = out@.map_values(|s: String| s@);
        let lines = spec_top_class_allocs(tab, n as int);
        assert forall|w: int| 0 <= w < mapped.len() implies mapped[w] == lines[w] by {
            assert(out@[w]@ == spec_class_alloc_line(tab[order@[w].1 as int]));
        }
        assert(mapped =~= lines);
    }
    out
}

} // verus!
