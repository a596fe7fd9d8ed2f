//! Flamegraph export: resolving collected samples to display names,
//! folding equal stacks together, and rendering the folded-stack text.
//!
//! The folded-stack format has one line per distinct stack,
//! `frame1;frame2;...;frameN <self_time_ns>`, lines ordered by
//! descending time, ties by first appearance.  The whole rendering is a
//! function of the samples, so regenerating a report from unchanged
//! samples yields byte-identical output.

use vstd::prelude::*;

use crate::stats::MethodId;
use crate::engine::StackSample;
use crate::names::NameTable;
use crate::numfmt::{spec_dec, u64_to_dec};
use crate::table::{lookup, upsert, lemma_upsert_found, lemma_upsert_absent};

verus! {

/// One flamegraph sample ready for export: resolved frame names, root
/// to leaf, and the self time of the leaf.
pub struct FlameSample {
    pub stack: Vec<String>,
    pub self_time: u64,
}

/// The names of a stack, as sequences of characters.
pub open spec fn stack_names(stack: Seq<String>) -> Seq<Seq<char>> {
    stack.map_values(|s: String| s@)
}

impl View for FlameSample {
    type V = (Seq<Seq<char>>, u64);

    open spec fn view(&self) -> (Seq<Seq<char>>, u64) {
        (stack_names(self.stack@), self.self_time)
    }
}

/// The views of a vector of flame samples.
pub open spec fn samples_view(samples: Seq<FlameSample>) -> Seq<(Seq<Seq<char>>, u64)> {
    samples.map_values(|f: FlameSample| f@)
}

/// The display names of a stack of method handles, in order, resolved
/// against `names`; frames without a resolved name are left out.
pub open spec fn spec_resolve_stack(
    stack: Seq<MethodId>,
    names: Seq<(MethodId, Seq<char>)>,
) -> Seq<Seq<char>>
    decreases stack.len(),
{
    if stack.len() == 0 {
        Seq::empty()
    } else {
        let rest = spec_resolve_stack(stack.drop_first(), names);
        match lookup(names, stack[0]) {
            Some(n) => seq![n] + rest,
            None => rest,
        }
    }
}

/// Every collected sample resolved to frame names.
pub open spec fn spec_resolve_samples(
    samples: Seq<(Seq<MethodId>, u64)>,
    names: Seq<(MethodId, Seq<char>)>,
) -> Seq<(Seq<Seq<char>>, u64)> {
    samples.map_values(|s: (Seq<MethodId>, u64)| (spec_resolve_stack(s.0, names), s.1))
}

/// Folding: equal stacks aggregated by saturating addition of their
/// times, in order of first appearance.
pub open spec fn spec_fold_into(
    acc: Seq<(Seq<Seq<char>>, u64)>,
    samples: Seq<(Seq<Seq<char>>, u64)>,
) -> Seq<(Seq<Seq<char>>, u64)>
    decreases samples.len(),
{
    if samples.len() == 0 {
        acc
    } else {
        spec_fold_into(
            upsert(
                acc,
                samples[0].0,
                samples[0].1,
                |t: u64| t.saturating_add(samples[0].1),
            ),
            samples.drop_first(),
        )
    }
}

pub open spec fn spec_fold_samples(samples: Seq<(Seq<Seq<char>>, u64)>) -> Seq<
    (Seq<Seq<char>>, u64),
> {
    spec_fold_into(Seq::empty(), samples)
}

/// Frame names joined with semicolons.
pub open spec fn spec_join_semi(stack: Seq<Seq<char>>) -> Seq<char>
    decreases stack.len(),
{
    if stack.len() == 0 {
        Seq::empty()
    } else if stack.len() == 1 {
        stack[0]
    } else {
        stack[0] + ";"@ + spec_join_semi(stack.drop_first())
    }
}

/// One folded-stack line.
pub open spec fn spec_folded_line(stack: Seq<Seq<char>>, time: u64) -> Seq<char> {
    spec_join_semi(stack) + " "@ + spec_dec(time as nat) + "\n"@
}

/// The `(key, index)` ranking pairs of the folded entries, keyed by
/// aggregated time.
pub open spec fn spec_fold_keys(folded: Seq<(Seq<Seq<char>>, u64)>) -> Seq<(u64, usize)> {
    Seq::new(folded.len(), |i: int| (folded[i].1, i as usize))
}

/// The lines of the folded entries read off in the given order.
pub open spec fn spec_lines_in_order(
    folded: Seq<(Seq<Seq<char>>, u64)>,
    order: Seq<(u64, usize)>,
) -> Seq<char>
    decreases order.len(),
{
    if order.len() == 0 {
        Seq::empty()
    } else {
        spec_folded_line(folded[order[0].1 as int].0, folded[order[0].1 as int].1)
            + spec_lines_in_order(folded, order.drop_first())
    }
}

/// The complete folded-stack text of a sample collection: folded,
/// ranked by descending time, one line per distinct stack.
pub open spec fn spec_folded_output(samples: Seq<(Seq<Seq<char>>, u64)>) -> Seq<char> {
    let folded = spec_fold_samples(samples);
    spec_lines_in_order(folded, crate::sort::spec_sort_desc(spec_fold_keys(folded)))
}

/// Character-exact equality of two stacks of frame names.
fn stack_eq(a: &Vec<String>, b: &Vec<String>) -> (r: bool)
    ensures
        r == (stack_names(a@) == stack_names(b@)),
{
    let na = a.len();
    let nb = b.len();
    if na != nb {
        proof {
            assert(stack_names(a@).len() != stack_names(b@).len());
        }
        return false;
    }
    let mut i: usize = 0;
    while i < na
        invariant
            i <= na,
            na == a@.len(),
            na == b@.len(),
            forall|j: int| 0 <= j < i ==> a@[j]@ == b@[j]@,
        decreases na - i,
    {
        if !crate::names::str_eq(a[i].as_str(), b[i].as_str()) {
            proof {
                assert(stack_names(a@)[i as int] != stack_names(b@)[i as int]);
            }
            return false;
        }
        i += 1;
    }
    proof {
        assert(stack_names(a@) =~= stack_names(b@));
    }
    true
}

/// A deep copy of a stack of frame names.
fn clone_stack(v: &Vec<String>) -> (r: Vec<String>)
    ensures
        stack_names(r@) == stack_names(v@),
{
    let n = v.len();
    let mut out: Vec<String> = Vec::new();
    let mut i: usize = 0;
    while i < n
        invariant
            i <= n,
            n == v@.len(),
            out@.len() == i,
            forall|j: int| 0 <= j < i ==> out@[j]@ == v@[j]@,
        decreases n - i,
    {
        out.push(v[i].clone());
        i += 1;
    }
    proof {
        assert(stack_names(out@) =~= stack_names(v@));
    }
    out
}

/// Index of the first folded entry with this stack.
fn find_stack(entries: &Vec<(Vec<String>, u64)>, key: &Vec<String>) -> (r: Option<usize>)
    ensures
        r matches Some(i) ==> i < entries@.len() && stack_names(entries@[i as int].0@)
            == stack_names(key@) && (forall|j: int|
            0 <= j < i ==> stack_names((#[trigger] entries@[j]).0@) != stack_names(key@)),
        r is None ==> forall|j: int|
            0 <= j < entries@.len() ==> stack_names((#[trigger] entries@[j]).0@) != stack_names(
                key@,
            ),
{
    let n = entries.len();
    let mut i: usize = 0;
    while i < n
        invariant
            i <= n,
            n == entries@.len(),
            forall|j: int| 0 <= j < i ==> stack_names((#[trigger] entries@[j]).0@) != stack_names(
                key@,
            ),
        decreases n - i,
    {
        if stack_eq(&entries[i].0, key) {
            return Some(i);
        }
        i += 1;
    }
    None
}

/// The folded view of an aggregation vector.
pub open spec fn folded_view(entries: Seq<(Vec<String>, u64)>) -> Seq<(Seq<Seq<char>>, u64)> {
    entries.map_values(|p: (Vec<String>, u64)| (stack_names(p.0@), p.1))
}

/// Aggregate the samples by stack, in order of first appearance.
fn fold_samples(samples: &Vec<FlameSample>) -> (r: Vec<(Vec<String>, u64)>)
    ensures
        folded_view(r@) == spec_fold_samples(samples_view(samples@)),
{
    let n = samples.len();
    let mut out: Vec<(Vec<String>, u64)> = Vec::new();
    let mut i: usize = 0;
    proof {
        assert(folded_view(out@) =~= Seq::<(Seq<Seq<char>>, u64)>::empty());
        assert(samples_view(samples@).skip(0) =~= samples_view(samples@));
    }
    while i < n
        invariant
            i <= n,
            n == samples@.len(),
            spec_fold_into(folded_view(out@), samples_view(samples@).skip(i as int))
                == spec_fold_samples(samples_view(samples@)),
        decreases n - i,
    {
        let ghost out_pre = out@;
        let ghost pre = folded_view(out@);
        let ghost svs = samples_view(samples@);
        let sample = &samples[i];
        proof {
            assert(svs[i as int] == samples@[i as int]@);
            assert(svs[i as int].0 == stack_names(samples@[i as int].stack@));
        }
        match find_stack(&out, &sample.stack) {
            Some(k) => {
                let cur = out[k].1;
                out[k].1 = cur.saturating_add(sample.self_time);
                proof {
                    assert forall|j: int| 0 <= j < k implies (#[trigger] pre[j]).0 != svs[i as int].0 by {
                        assert(pre[j].0 == stack_names(out_pre[j].0@));
                    }
                    assert(pre[k as int].0 == stack_names(out_pre[k as int].0@));
                    lemma_upsert_found(
                        pre,
                        svs[i as int].0,
                        svs[i as int].1,
                        |t: u64| t.saturating_add(svs[i as int].1),
                        k as int,
                    );
                    assert(folded_view(out@) =~= upsert(
                        pre,
                        svs[i as int].0,
                        svs[i as int].1,
                        |t: u64| t.saturating_add(svs[i as int].1),
                    ));
                }
            },
            None => {
                let copied = clone_stack(&sample.stack);
                out.push((copied, sample.self_time));
                proof {
                    assert forall|j: int| 0 <= j < pre.len() implies (#[trigger] pre[j]).0 != svs[i as int].0 by {
                        assert(pre[j].0 == stack_names(out_pre[j].0@));
                    }
                    lemma_upsert_absent(
                        pre,
                        svs[i as int].0,
                        svs[i as int].1,
                        |t: u64| t.saturating_add(svs[i as int].1),
                    );
                    assert(folded_view(out@) =~= upsert(
                        pre,
                        svs[i as int].0,
                        svs[i as int].1,
                        |t: u64| t.saturating_add(svs[i as int].1),
                    ));
                }
            },
        }
        proof {
            assert(svs.skip(i as int).drop_first() =~= svs.skip(i + 1 as int));
            assert(svs.skip(i as int)[0] == svs[i as int]);
        }
        i += 1;
    }
    proof {
        assert(samples_view(samples@).skip(n as int) =~= Seq::<(Seq<Seq<char>>, u64)>::empty());
    }
    out
}

/// The raw view of collected samples: method-handle stacks and times.
pub open spec fn raw_samples_view(samples: Seq<StackSample>) -> Seq<(Seq<MethodId>, u64)> {
    samples.map_values(|s: StackSample| (s.stack@, s.self_time))
}

/// Appending one more handle resolves it at the end.
proof fn lemma_resolve_push(stack: Seq<MethodId>, x: MethodId, names: Seq<(MethodId, Seq<char>)>)
    ensures
        spec_resolve_stack(stack.push(x), names) == spec_resolve_stack(stack, names) + (
        match lookup(names, x) {
            Some(n) => seq![n],
            None => Seq::<Seq<char>>::empty(),
        }),
    decreases stack.len(),
{
    if stack.len() == 0 {
        assert(stack.push(x)[0] == x);
        assert(stack.push(x).drop_first() =~= Seq::<MethodId>::empty());
        assert(spec_resolve_stack(Seq::<MethodId>::empty(), names) == Seq::<Seq<char>>::empty());
        match lookup(names, x) {
            Some(n) => {
                assert(spec_resolve_stack(stack.push(x), names) =~= spec_resolve_stack(stack, names)
                    + seq![n]);
            },
            None => {
                assert(spec_resolve_stack(stack.push(x), names) =~= spec_resolve_stack(
                    stack,
                    names,
                ) + Seq::<Seq<char>>::empty());
            },
        }
    } else {
        assert(stack.push(x)[0] == stack[0]);
        assert(stack.push(x).drop_first() =~= stack.drop_first().push(x));
        lemma_resolve_push(stack.drop_first(), x, names);
        match lookup(names, x) {
            Some(n) => {
                assert(spec_resolve_stack(stack.push(x), names) =~= spec_resolve_stack(stack, names)
                    + seq![n]);
            },
            None => {
                assert(spec_resolve_stack(stack.push(x), names) =~= spec_resolve_stack(
                    stack,
                    names,
                ) + Seq::<Seq<char>>::empty());
            },
        }
    }
}

/// The display names of one collected stack, unresolved frames left
/// out.
fn resolve_stack(stack: &Vec<MethodId>, names: &NameTable) -> (r: Vec<String>)
    requires
        names.inv(),
    ensures
        stack_names(r@) == spec_resolve_stack(stack@, names@),
{
    let n = stack.len();
    let mut out: Vec<String> = Vec::new();
    proof {
        assert(stack_names(out@) =~= Seq::<Seq<char>>::empty());
        assert(stack@.subrange(0, 0) =~= Seq::<MethodId>::empty());
        assert(spec_resolve_stack(Seq::<MethodId>::empty(), names@) == Seq::<Seq<char>>::empty());
    }
    let mut i: usize = 0;
    while i < n
        invariant
            i <= n,
            n == stack@.len(),
            names.inv(),
            stack_names(out@) == spec_resolve_stack(stack@.subrange(0, i as int), names@),
        decreases n - i,
    {
        proof {
            lemma_resolve_push(stack@.subrange(0, i as int), stack@[i as int], names@);
            assert(stack@.subrange(0, i + 1 as int) =~= stack@.subrange(0, i as int).push(
                stack@[i as int],
            ));
        }
        match names.get(stack[i]) {
            Some(name) => {
                out.push(name);
                proof {
                    assert(stack_names(out@) =~= spec_resolve_stack(
                        stack@.subrange(0, i + 1 as int),
                        names@,
                    ));
                }
            },
            None => {
                proof {
                    assert(stack_names(out@) =~= spec_resolve_stack(
                        stack@.subrange(0, i + 1 as int),
                        names@,
                    ));
                }
            },
        }
        i += 1;
    }
    proof {
        assert(stack@.subrange(0, n as int) =~= stack@);
    }
    out
}

/// Every collected sample resolved against the name table.
pub fn resolve_samples(samples: &Vec<StackSample>, names: &NameTable) -> (r: Vec<FlameSample>)
    requires
        names.inv(),
    ensures
        samples_view(r@) == spec_resolve_samples(raw_samples_view(samples@), names@),
{
    let n = samples.len();
    let mut out: Vec<FlameSample> = Vec::new();
    let mut i: usize = 0;
    while i < n
        invariant
            i <= n,
            n == samples@.len(),
            names.inv(),
            out@.len() == i,
            forall|j: int| 0 <= j < i ==> (#[trigger] out@[j])@ == (spec_resolve_stack(
                samples@[j].stack@,
                names@,
            ), samples@[j].self_time),
        decreases n - i,
    {
        let stack = resolve_stack(&samples[i].stack, names);
        out.push(FlameSample { stack, self_time: samples[i].self_time });
        i += 1;
    }
    proof {
        assert(samples_view(out@) =~= spec_resolve_samples(raw_samples_view(samples@), names@));
    }
    out
}

/// Frame names joined with semicolons.
proof fn lemma_join_push(stack: Seq<Seq<char>>, x: Seq<char>)
    requires
        stack.len() >= 1,
    ensures
        spec_join_semi(stack.push(x)) == spec_join_semi(stack) + ";"@ + x,
    decreases stack.len(),
{
    if stack.len() == 1 {
        assert(stack.push(x)[0] == stack[0]);
        assert(stack.push(x).drop_first() =~= seq![x]);
        assert(spec_join_semi(seq![x]) == x);
        assert(spec_join_semi(stack.push(x)) =~= spec_join_semi(stack) + ";"@ + x);
    } else {
        assert(stack.push(x)[0] == stack[0]);
        assert(stack.push(x).drop_first() =~= stack.drop_first().push(x));
        lemma_join_push(stack.drop_first(), x);
        assert(spec_join_semi(stack.push(x)) =~= spec_join_semi(stack) + ";"@ + x);
    }
}

/// The frame names of `stack` joined with semicolons.
fn join_semi(stack: &Vec<String>) -> (r: String)
    ensures
        r@ == spec_join_semi(stack_names(stack@)),
{
    let n = stack.len();
    if n == 0 {
        let r = String::new();
        proof {
            assert(stack_names(stack@).len() == 0);
        }
        return r;
    }
    let mut out = String::from_str(stack[0].as_str());
    proof {
        assert(stack_names(stack@.subrange(0, 1)) =~= seq![stack@[0]@]);
        assert(spec_join_semi(seq![stack@[0]@]) == stack@[0]@);
    }
    let mut i: usize = 1;
    while i < n
        invariant
            1 <= i <= n,
            n == stack@.len(),
            out@ == spec_join_semi(stack_names(stack@.subrange(0, i as int))),
        decreases n - i,
    {
        out.append(";");
        out.append(stack[i].as_str());
        proof {
            reveal_strlit(";");
            assert(stack_names(stack@.subrange(0, i as int)).len() >= 1);
            lemma_join_push(stack_names(stack@.subrange(0, i as int)), stack@[i as int]@);
            assert(stack_names(stack@.subrange(0, i + 1 as int)) =~= stack_names(
                stack@.subrange(0, i as int),
            ).push(stack@[i as int]@));
        }
        i += 1;
    }
    proof {
        assert(stack@.subrange(0, n as int) =~= stack@);
    }
    out
}

/// One more order entry appends one more line.
proof fn lemma_lines_push(
    folded: Seq<(Seq<Seq<char>>, u64)>,
    order: Seq<(u64, usize)>,
    x: (u64, usize),
)
    ensures
        spec_lines_in_order(folded, order.push(x)) == spec_lines_in_order(folded, order)
            + spec_folded_line(folded[x.1 as int].0, folded[x.1 as int].1),
    decreases order.len(),
{
    if order.len() == 0 {
        assert(order.push(x)[0] == x);
        assert(order.push(x).drop_first() =~= Seq::<(u64, usize)>::empty());
        assert(spec_lines_in_order(folded, Seq::<(u64, usize)>::empty()) == Seq::<char>::empty());
        assert(spec_lines_in_order(folded, order.push(x)) =~= spec_lines_in_order(folded, order)
            + spec_folded_line(folded[x.1 as int].0, folded[x.1 as int].1));
    } else {
        assert(order.push(x)[0] == order[0]);
        assert(order.push(x).drop_first() =~= order.drop_first().push(x));
        lemma_lines_push(folded, order.drop_first(), x);
        assert(spec_lines_in_order(folded, order.push(x)) =~= spec_lines_in_order(folded, order)
            + spec_folded_line(folded[x.1 as int].0, folded[x.1 as int].1));
    }
}

/// The folded-stack text of the samples: equal stacks folded together,
/// one line per distinct stack, ordered by descending aggregated time,
/// ties by first appearance.
pub fn generate_flamegraph_svg(samples: &Vec<FlameSample>) -> (r: String)
    ensures
        r@ == spec_folded_output(samples_view(samples@)),
{
    let folded = fold_samples(samples);
    let ghost fv = folded_view(folded@);
    let n = folded.len();
    let mut keys: Vec<(u64, usize)> = Vec::new();
    let mut i: usize = 0;
    while i < n
        invariant
            i <= n,
            n == folded@.len(),
            keys@.len() == i,
            forall|j: int| 0 <= j < i ==> keys@[j] == (folded@[j].1, j as usize),
        decreases n - i,
    {
        keys.push((folded[i].1, i));
        i += 1;
    }
    proof {
        assert forall|j: int| 0 <= j < n implies keys@[j] == (#[trigger] fv[j].1, j as usize) by {
            assert(fv[j].1 == folded@[j].1);
        }
        assert(keys@ =~= spec_fold_keys(fv));
    }
    let order = crate::sort::sort_pairs_desc(&keys);
    let m = order.len();
    let mut out = String::new();
    let mut j: usize = 0;
    proof {
        assert(order@.subrange(0, 0) =~= Seq::<(u64, usize)>::empty());
    }
    while j < m
        invariant
            j <= m,
            m == order@.len(),
            n == folded@.len(),
            fv == folded_view(folded@),
            order@ == crate::sort::spec_sort_desc(spec_fold_keys(fv)),
            out@ == spec_lines_in_order(fv, order@.subrange(0, j as int)),
        decreases m - j,
    {
        proof {
            crate::sort::lemma_sort_desc_membership(spec_fold_keys(fv), j as int);
            let w = choose|w: int|
                0 <= w < spec_fold_keys(fv).len() && spec_fold_keys(fv)[w] == order@[j as int];
            assert(order@[j as int].1 == w as usize);
        }
        let idx = order[j].1;
        let line = join_semi(&folded[idx].0);
        out.append(line.as_str());
        out.append(" ");
        let dec = u64_to_dec(folded[idx].1);
        out.append(dec.as_str());
        out.append("\n");
        proof {
            reveal_strlit(" ");
            reveal_strlit("\n");
            assert(fv[idx as int].0 == stack_names(folded@[idx as int].0@));
            assert(fv[idx as int].1 == folded@[idx as int].1);
            lemma_lines_push(fv, order@.subrange(0, j as int), order@[j as int]);
            assert(order@.subrange(0, j + 1 as int) =~= order@.subrange(0, j as int).push(
                order@[j as int],
            ));
            assert(out@ =~= spec_lines_in_order(fv, order@.subrange(0, j + 1 as int)));
        }
        j += 1;
    }
    proof {
        assert(order@.subrange(0, m as int) =~= order@);
    }
    out
}

/// Idempotent reporting: the folded-stack text is a function of the
/// samples alone.  `generate_flamegraph_svg` returns exactly
/// `spec_folded_output` of its input, so rendering an unchanged sample
/// collection twice yields byte-identical output; this lemma records
/// that the specification itself carries no other dependency.
pub proof fn lemma_report_deterministic(
    s1: Seq<(Seq<Seq<char>>, u64)>,
    s2: Seq<(Seq<Seq<char>>, u64)>,
)
    requires
        s1 == s2,
    ensures
        spec_folded_output(s1) == spec_folded_output(s2),
{
}

/// Total self time of all samples, saturating.
pub open spec fn spec_total_time(samples: Seq<(Seq<Seq<char>>, u64)>) -> u64
    decreases samples.len(),
{
    if samples.len() == 0 {
        0u64
    } else {
        spec_total_time(samples.drop_last()).saturating_add(samples.last().1)
    }
}

/// Self time aggregated per leaf method name, in order of first
/// appearance; samples with an empty stack have no leaf and are left
/// out.
pub open spec fn spec_leaf_times(samples: Seq<(Seq<Seq<char>>, u64)>) -> Seq<(Seq<char>, u64)>
    decreases samples.len(),
{
    if samples.len() == 0 {
        Seq::empty()
    } else {
        let prev = spec_leaf_times(samples.drop_last());
        let s = samples.last();
        if s.0.len() > 0 {
            upsert(prev, s.0.last(), s.1, |t: u64| t.saturating_add(s.1))
        } else {
            prev
        }
    }
}

/// The `(key, index)` ranking pairs of the leaf entries, keyed by time.
pub open spec fn spec_leaf_keys(leaves: Seq<(Seq<char>, u64)>) -> Seq<(u64, usize)> {
    Seq::new(leaves.len(), |i: int| (leaves[i].1, i as usize))
}

/// The plain-text summary of a sample collection: sample count, total
/// time, and the ten largest leaf methods by self time.
pub open spec fn spec_summary_lines(samples: Seq<(Seq<Seq<char>>, u64)>) -> Seq<Seq<char>> {
    let leaves = spec_leaf_times(samples);
    let order = crate::sort::spec_sort_desc(spec_leaf_keys(leaves));
    let count = if order.len() < 10 {
        order.len() as int
    } else {
        10int
    };
    seq![
        "Flamegraph Summary"@,
        "=================="@,
        "Total samples: "@ + spec_dec(samples.len()),
        "Total time: "@ + crate::numfmt::spec_format_time(spec_total_time(samples)),
        Seq::<char>::empty(),
        "Top 10 methods by self-time:"@,
    ] + Seq::new(
        count as nat,
        |j: int|
            leaves[order[j].1 as int].0 + ": "@ + crate::numfmt::spec_format_time(
                leaves[order[j].1 as int].1,
            ),
    )
}

/// The leaf-aggregation view of an entry vector.
pub open spec fn leaf_view(entries: Seq<(String, u64)>) -> Seq<(Seq<char>, u64)> {
    entries.map_values(|p: (String, u64)| (p.0@, p.1))
}

/// Self time aggregated per leaf method name.
fn leaf_times(samples: &Vec<FlameSample>) -> (r: Vec<(String, u64)>)
    ensures
        leaf_view(r@) == spec_leaf_times(samples_view(samples@)),
{
    let n = samples.len();
    let mut out: Vec<(String, u64)> = Vec::new();
    let mut i: usize = 0;
    proof {
        assert(leaf_view(out@) =~= Seq::<(Seq<char>, u64)>::empty());
        assert(samples_view(samples@).subrange(0, 0) =~= Seq::<(Seq<Seq<char>>, u64)>::empty());
        assert(spec_leaf_times(Seq::<(Seq<Seq<char>>, u64)>::empty()) == Seq::<(
            Seq<char>,
            u64,
        )>::empty());
    }
    while i < n
        invariant
            i <= n,
            n == samples@.len(),
            leaf_view(out@) == spec_leaf_times(samples_view(samples@).subrange(0, i as int)),
        decreases n - i,
    {
        let ghost out_pre = out@;
        let ghost pre = leaf_view(out@);
        let ghost svs = samples_view(samples@);
        let sample = &samples[i];
        proof {
            assert(svs.subrange(0, i + 1 as int).drop_last() =~= svs.subrange(0, i as int));
            assert(svs.subrange(0, i + 1 as int).last() == svs[i as int]);
            assert(svs[i as int] == samples@[i as int]@);
            assert(svs[i as int].0 == stack_names(samples@[i as int].stack@));
        }
        let stack_len = sample.stack.len();
        if stack_len > 0 {
            let leaf = &sample.stack[stack_len - 1];
            proof {
                assert(svs[i as int].0.last() == leaf@);
            }
            match crate::engine::find_by_name(&out, leaf.as_str()) {
                Some(k) => {
                    let cur = out[k].1;
                    out[k].1 = cur.saturating_add(sample.self_time);
                    proof {
                        assert forall|j: int| 0 <= j < k implies (#[trigger] pre[j]).0
                            != leaf@ by {
                            assert(pre[j].0 == out_pre[j].0@);
                        }
                        assert(pre[k as int].0 == out_pre[k as int].0@);
                        lemma_upsert_found(
                            pre,
                            svs[i as int].0.last(),
                            svs[i as int].1,
                            |t: u64| t.saturating_add(svs[i as int].1),
                            k as int,
                        );
                        assert(leaf_view(out@) =~= upsert(
                            pre,
                            svs[i as int].0.last(),
                            svs[i as int].1,
                            |t: u64| t.saturating_add(svs[i as int].1),
                        ));
                    }
                },
                None => {
                    out.push((leaf.clone(), sample.self_time));
                    proof {
                        assert forall|j: int| 0 <= j < pre.len() implies (#[trigger] pre[j]).0
                            != leaf@ by {
                            assert(pre[j].0 == out_pre[j].0@);
                        }
                        lemma_upsert_absent(
                            pre,
                            svs[i as int].0.last(),
                            svs[i as int].1,
                            |t: u64| t.saturating_add(svs[i as int].1),
                        );
                        assert(leaf_view(out@) =~= upsert(
                            pre,
                            svs[i as int].0.last(),
                            svs[i as int].1,
                            |t: u64| t.saturating_add(svs[i as int].1),
                        ));
                    }
                },
            }
        } else {
            proof {
                assert(svs[i as int].0.len() == 0);
            }
        }
        i += 1;
    }
    proof {
        assert(samples_view(samples@).subrange(0, n as int) =~= samples_view(samples@));
    }
    out
}

/// The plain-text summary of the samples: counts, total time, largest
/// leaves.
pub fn flamegraph_summary(samples: &Vec<FlameSample>) -> (r: Vec<String>)
    ensures
        r@.map_values(|s: String| s@) == spec_summary_lines(samples_view(samples@)),
{
    let ghost svs = samples_view(samples@);
    let n = samples.len();
    // total self time
    let mut total: u64 = 0;
    let mut i: usize = 0;
    proof {
        assert(svs.subrange(0, 0) =~= Seq::<(Seq<Seq<char>>, u64)>::empty());
    }
    while i < n
        invariant
            i <= n,
            n == samples@.len(),
            svs == samples_view(samples@),
            total == spec_total_time(svs.subrange(0, i as int)),
        decreases n - i,
    {
        total = total.saturating_add(samples[i].self_time);
        proof {
            assert(svs.subrange(0, i + 1 as int).drop_last() =~= svs.subrange(0, i as int));
            assert(svs.subrange(0, i + 1 as int).last() == svs[i as int]);
            assert(svs[i as int].1 == samples@[i as int].self_time);
        }
        i += 1;
    }
    proof {
        assert(svs.subrange(0, n as int) =~= svs);
    }
    // leaves ranked by time
    let leaves = leaf_times(samples);
    let ghost lv = leaf_view(leaves@);
    let ln = leaves.len();
    let mut keys: Vec<(u64, usize)> = Vec::new();
    let mut k: usize = 0;
    while k < ln
        invariant
            k <= ln,
            ln == leaves@.len(),
            keys@.len() == k,
            forall|j: int| 0 <= j < k ==> keys@[j] == (leaves@[j].1, j as usize),
        decreases ln - k,
    {
        keys.push((leaves[k].1, k));
        k += 1;
    }
    proof {
        assert forall|j: int| 0 <= j < ln implies keys@[j] == (#[trigger] lv[j].1, j as usize) by {
            assert(lv[j].1 == leaves@[j].1);
        }
        assert(keys@ =~= spec_leaf_keys(lv));
    }
    let order = crate::sort::sort_pairs_desc(&keys);
    let shown = if order.len() < 10 {
        order.len()
    } else {
        10
    };
    let mut out: Vec<String> = Vec::new();
    out.push(String::from_str("Flamegraph Summary"));
    out.push(String::from_str("=================="));
    let mut count_line = String::from_str("Total samples: ");
    let dec = u64_to_dec(n as u64);
    count_line.append(dec.as_str());
    out.push(count_line);
    let mut time_line = String::from_str("Total time: ");
    let t = crate::numfmt::format_time(total);
    time_line.append(t.as_str());
    out.push(time_line);
    out.push(String::new());
    out.push(String::from_str("Top 10 methods by self-time:"));
    let mut j: usize = 0;
    while j < shown
        invariant
            j <= shown,
            shown <= order@.len(),
            ln == leaves@.len(),
            lv == leaf_view(leaves@),
            lv == spec_leaf_times(svs),
            order@ == crate::sort::spec_sort_desc(spec_leaf_keys(lv)),
            out@.len() == 6 + j,
            out@.map_values(|s: String| s@).subrange(0, 6) == spec_summary_lines(svs).subrange(
                0,
                6,
            ),
            forall|w: int| 0 <= w < j ==> (#[trigger] out@[6 + w])@ == spec_summary_lines(svs)[6
                + w],
            spec_summary_lines(svs).len() == 6 + shown,
            svs == samples_view(samples@),
        decreases shown - j,
    {
        proof {
            crate::sort::lemma_sort_desc_membership(spec_leaf_keys(lv), j as int);
            let w = choose|w: int|
                0 <= w < spec_leaf_keys(lv).len() && spec_leaf_keys(lv)[w] == order@[j as int];
            assert(order@[j as int].1 == w as usize);
        }
        let idx = order[j].1;
        let mut line = String::from_str(leaves[idx].0.as_str());
        line.append(": ");
        let t = crate::numfmt::format_time(leaves[idx].1);
        line.append(t.as_str());
        out.push(line);
        proof {
            reveal_strlit(": ");
            assert(lv[idx as int].0 == leaves@[idx as int].0@);
            assert(lv[idx as int].1 == leaves@[idx as int].1);
            assert(out@[6 + j as int]@ == spec_summary_lines(svs)[6 + j as int]);
        }
        j += 1;
    }
    proof {
        let mapped = out@.map_values(|s: String| s@);
        let lines = spec_summary_lines(svs);
        assert forall|w: int| 0 <= w < mapped.len() implies mapped[w] == lines[w] by {
            if w < 6 {
                assert(mapped.subrange(0, 6)[w] == mapped[w]);
                assert(lines.subrange(0, 6)[w] == lines[w]);
            } else {
                assert(out@[6 + (w - 6)]@ == lines[6 + (w - 6)]);
            }
        }
        assert(out@.map_values(|s: String| s@) =~= spec_summary_lines(svs));
    }
    out
}

} // verus!
