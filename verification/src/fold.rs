//! Relational descriptions of left-to-right accumulations driven by
//! caller-supplied element operations.
//!
//! The kernels of this crate are generic over the element type: the caller
//! hands in the scalar operations (addition, division by a count,
//! comparison, multiply-accumulate) as closures. A contract therefore says
//! which operations were applied, to which operands and in which order, by
//! naming a *trace*: the sequence of accumulator values, where each value is
//! one the supplied operation may return for the previous value and the next
//! step's operand. A step of `None` leaves the accumulator unchanged.
use vstd::prelude::*;

verus! {

/// One step of an accumulation with a two-argument operation.
pub open spec fn add_step<T, F: Fn(T, T) -> T>(f: F, before: T, step: Option<T>, after: T) -> bool {
    match step {
        Option::None => after == before,
        Option::Some(v) => call_ensures(f, (before, v), after),
    }
}

/// `trace` records an accumulation of `steps` with `f`, starting at `init`.
pub open spec fn add_trace<T, F: Fn(T, T) -> T>(
    f: F,
    init: T,
    steps: Seq<Option<T>>,
    trace: Seq<T>,
) -> bool {
    &&& trace.len() == steps.len() + 1
    &&& trace[0] == init
    &&& forall|i: int| 0 <= i < steps.len() ==> #[trigger] add_step(f, trace[i], steps[i], trace[i + 1])
}

/// `res` is a value that accumulating `steps` with `f` from `init` can yield.
pub open spec fn folds_to<T, F: Fn(T, T) -> T>(f: F, init: T, steps: Seq<Option<T>>, res: T) -> bool {
    exists|trace: Seq<T>| #[trigger] add_trace(f, init, steps, trace) && trace.last() == res
}

/// One step of a multiply-accumulate: the operand is a (weight, input) pair.
pub open spec fn mac_step<T, F: Fn(T, T, T) -> T>(f: F, before: T, step: Option<(T, T)>, after: T) -> bool {
    match step {
        Option::None => after == before,
        Option::Some(p) => call_ensures(f, (before, p.0, p.1), after),
    }
}

pub open spec fn mac_trace<T, F: Fn(T, T, T) -> T>(
    f: F,
    init: T,
    steps: Seq<Option<(T, T)>>,
    trace: Seq<T>,
) -> bool {
    &&& trace.len() == steps.len() + 1
    &&& trace[0] == init
    &&& forall|i: int| 0 <= i < steps.len() ==> #[trigger] mac_step(f, trace[i], steps[i], trace[i + 1])
}

/// `res` is a value that multiply-accumulating `steps` with `f` from `init` can yield.
pub open spec fn macs_to<T, F: Fn(T, T, T) -> T>(f: F, init: T, steps: Seq<Option<(T, T)>>, res: T) -> bool {
    exists|trace: Seq<T>| #[trigger] mac_trace(f, init, steps, trace) && trace.last() == res
}

pub proof fn lemma_add_trace_push<T, F: Fn(T, T) -> T>(
    f: F,
    init: T,
    steps: Seq<Option<T>>,
    trace: Seq<T>,
    step: Option<T>,
    res: T,
)
    requires
        add_trace(f, init, steps, trace),
        add_step(f, trace.last(), step, res),
    ensures
        add_trace(f, init, steps.push(step), trace.push(res)),
{
    let s2 = steps.push(step);
    let t2 = trace.push(res);
    assert forall|i: int| 0 <= i < s2.len() implies #[trigger] add_step(f, t2[i], s2[i], t2[i + 1]) by {
        if i < steps.len() {
            assert(add_step(f, trace[i], steps[i], trace[i + 1]));
        }
    }
}

pub proof fn lemma_mac_trace_push<T, F: Fn(T, T, T) -> T>(
    f: F,
    init: T,
    steps: Seq<Option<(T, T)>>,
    trace: Seq<T>,
    step: Option<(T, T)>,
    res: T,
)
    requires
        mac_trace(f, init, steps, trace),
        mac_step(f, trace.last(), step, res),
    ensures
        mac_trace(f, init, steps.push(step), trace.push(res)),
{
    let s2 = steps.push(step);
    let t2 = trace.push(res);
    assert forall|i: int| 0 <= i < s2.len() implies #[trigger] mac_step(f, t2[i], s2[i], t2[i + 1]) by {
        if i < steps.len() {
            assert(mac_step(f, trace[i], steps[i], trace[i + 1]));
        }
    }
}

/// A multiply-accumulate over `a` followed by one over `b` is one over `a + b`.
pub proof fn lemma_macs_concat<T, F: Fn(T, T, T) -> T>(
    f: F,
    init: T,
    a: Seq<Option<(T, T)>>,
    mid: T,
    b: Seq<Option<(T, T)>>,
    res: T,
)
    requires
        macs_to(f, init, a, mid),
        macs_to(f, mid, b, res),
    ensures
        macs_to(f, init, a + b, res),
{
    let ta = choose|t: Seq<T>| #[trigger] mac_trace(f, init, a, t) && t.last() == mid;
    let tb = choose|t: Seq<T>| #[trigger] mac_trace(f, mid, b, t) && t.last() == res;
    let t = ta + tb.drop_first();
    let s = a + b;
    assert forall|i: int| 0 <= i < s.len() implies #[trigger] mac_step(f, t[i], s[i], t[i + 1]) by {
        if i < a.len() {
            assert(mac_step(f, ta[i], a[i], ta[i + 1]));
        } else {
            let j = i - a.len();
            assert(mac_step(f, tb[j], b[j], tb[j + 1]));
        }
    }
    assert(mac_trace(f, init, s, t));
}

/// One more step: a value a multiply-accumulation can yield, advanced by one
/// step, is one the longer accumulation can yield.
pub proof fn lemma_macs_to_push<T, F: Fn(T, T, T) -> T>(
    f: F,
    init: T,
    steps: Seq<Option<(T, T)>>,
    v: T,
    step: Option<(T, T)>,
    res: T,
)
    requires
        macs_to(f, init, steps, v),
        mac_step(f, v, step, res),
    ensures
        macs_to(f, init, steps.push(step), res),
{
    let t = choose|t: Seq<T>| #[trigger] mac_trace(f, init, steps, t) && t.last() == v;
    lemma_mac_trace_push(f, init, steps, t, step, res);
    assert(t.push(res).last() == res);
}

/// Nothing accumulated yet: the initial value.
pub proof fn lemma_macs_to_empty<T, F: Fn(T, T, T) -> T>(f: F, init: T)
    ensures
        macs_to(f, init, Seq::<Option<(T, T)>>::empty(), init),
{
    assert(mac_trace(f, init, Seq::<Option<(T, T)>>::empty(), seq![init]));
}

/// Absent steps leave an accumulation where it is: a prefix followed only by
/// `None` steps yields what the prefix yields.
pub proof fn lemma_macs_to_skip<T, F: Fn(T, T, T) -> T>(f: F, init: T, steps: Seq<Option<(T, T)>>, n: int, m: int, v: T)
    requires
        0 <= n <= m <= steps.len(),
        macs_to(f, init, steps.take(n), v),
        forall|i: int| n <= i < m ==> (#[trigger] steps[i]) is None,
    ensures
        macs_to(f, init, steps.take(m), v),
    decreases m - n,
{
    if n < m {
        lemma_macs_to_push(f, init, steps.take(n), v, steps[n], v);
        assert(steps.take(n).push(steps[n]) =~= steps.take(n + 1));
        lemma_macs_to_skip(f, init, steps, n + 1, m, v);
    }
}

/// Whether `f` returns at most one value for each argument triple.
pub open spec fn mac_deterministic<T, F: Fn(T, T, T) -> T>(f: F) -> bool {
    forall|a: T, b: T, c: T, r1: T, r2: T|
        call_ensures(f, (a, b, c), r1) && call_ensures(f, (a, b, c), r2) ==> r1 == r2
}

/// With a deterministic operation, an accumulation has exactly one result.
pub proof fn lemma_macs_to_unique<T, F: Fn(T, T, T) -> T>(f: F, init: T, steps: Seq<Option<(T, T)>>, r1: T, r2: T)
    requires
        mac_deterministic(f),
        macs_to(f, init, steps, r1),
        macs_to(f, init, steps, r2),
    ensures
        r1 == r2,
{
    let t1 = choose|t: Seq<T>| #[trigger] mac_trace(f, init, steps, t) && t.last() == r1;
    let t2 = choose|t: Seq<T>| #[trigger] mac_trace(f, init, steps, t) && t.last() == r2;
    lemma_mac_traces_agree(f, init, steps, t1, t2, steps.len() as int);
}

proof fn lemma_mac_traces_agree<T, F: Fn(T, T, T) -> T>(
    f: F,
    init: T,
    steps: Seq<Option<(T, T)>>,
    t1: Seq<T>,
    t2: Seq<T>,
    k: int,
)
    requires
        mac_deterministic(f),
        mac_trace(f, init, steps, t1),
        mac_trace(f, init, steps, t2),
        0 <= k <= steps.len(),
    ensures
        t1[k] == t2[k],
    decreases k,
{
    if k > 0 {
        lemma_mac_traces_agree(f, init, steps, t1, t2, k - 1);
        let j = k - 1;
        assert(mac_step(f, t1[j], steps[j], t1[j + 1]));
        assert(mac_step(f, t2[j], steps[j], t2[j + 1]));
    }
}


/// Whether a comparison gives at most one answer for each pair.
pub open spec fn gt_deterministic<T, G: Fn(T, T) -> bool>(gt: G) -> bool {
    forall|a: T, b: T, r1: bool, r2: bool| call_ensures(gt, (a, b), r1) && call_ensures(gt, (a, b), r2) ==> r1 == r2
}

/// With a deterministic comparison, a maximum scan has exactly one result.
pub proof fn lemma_max_scans_to_unique<T, G: Fn(T, T) -> bool>(
    gt: G,
    init: (T, i64),
    steps: Seq<Option<(T, i64)>>,
    r1: (T, i64),
    r2: (T, i64),
)
    requires
        gt_deterministic(gt),
        max_scans_to(gt, init, steps, r1),
        max_scans_to(gt, init, steps, r2),
    ensures
        r1 == r2,
{
    let t1 = choose|t: Seq<(T, i64)>| #[trigger] max_trace(gt, init, steps, t) && t.last() == r1;
    let t2 = choose|t: Seq<(T, i64)>| #[trigger] max_trace(gt, init, steps, t) && t.last() == r2;
    lemma_max_traces_agree(gt, init, steps, t1, t2, steps.len() as int);
}

proof fn lemma_max_traces_agree<T, G: Fn(T, T) -> bool>(
    gt: G,
    init: (T, i64),
    steps: Seq<Option<(T, i64)>>,
    t1: Seq<(T, i64)>,
    t2: Seq<(T, i64)>,
    k: int,
)
    requires
        gt_deterministic(gt),
        max_trace(gt, init, steps, t1),
        max_trace(gt, init, steps, t2),
        0 <= k <= steps.len(),
    ensures
        t1[k] == t2[k],
    decreases k,
{
    if k > 0 {
        lemma_max_traces_agree(gt, init, steps, t1, t2, k - 1);
        let j = k - 1;
        assert(max_step(gt, t1[j], steps[j], t1[j + 1]));
        assert(max_step(gt, t2[j], steps[j], t2[j + 1]));
    }
}

/// Whether a two-argument operation returns at most one value for each pair.
pub open spec fn op_deterministic<T, F: Fn(T, T) -> T>(f: F) -> bool {
    forall|a: T, b: T, r1: T, r2: T| call_ensures(f, (a, b), r1) && call_ensures(f, (a, b), r2) ==> r1 == r2
}

/// With a deterministic operation, an accumulation has exactly one result.
pub proof fn lemma_folds_to_unique<T, F: Fn(T, T) -> T>(f: F, init: T, steps: Seq<Option<T>>, r1: T, r2: T)
    requires
        op_deterministic(f),
        folds_to(f, init, steps, r1),
        folds_to(f, init, steps, r2),
    ensures
        r1 == r2,
{
    let t1 = choose|t: Seq<T>| #[trigger] add_trace(f, init, steps, t) && t.last() == r1;
    let t2 = choose|t: Seq<T>| #[trigger] add_trace(f, init, steps, t) && t.last() == r2;
    lemma_add_traces_agree(f, init, steps, t1, t2, steps.len() as int);
}

proof fn lemma_add_traces_agree<T, F: Fn(T, T) -> T>(
    f: F,
    init: T,
    steps: Seq<Option<T>>,
    t1: Seq<T>,
    t2: Seq<T>,
    k: int,
)
    requires
        op_deterministic(f),
        add_trace(f, init, steps, t1),
        add_trace(f, init, steps, t2),
        0 <= k <= steps.len(),
    ensures
        t1[k] == t2[k],
    decreases k,
{
    if k > 0 {
        lemma_add_traces_agree(f, init, steps, t1, t2, k - 1);
        let j = k - 1;
        assert(add_step(f, t1[j], steps[j], t1[j + 1]));
        assert(add_step(f, t2[j], steps[j], t2[j + 1]));
    }
}

/// A sequence of only `true` counts its length.
pub proof fn lemma_count_true_all(s: Seq<bool>)
    requires
        forall|i: int| 0 <= i < s.len() ==> #[trigger] s[i],
    ensures
        count_true(s) == s.len(),
    decreases s.len(),
{
    if s.len() > 0 {
        lemma_count_true_all(s.drop_last());
    }
}

} // verus!

verus! {

/// One step of a running maximum with its position. The first present
/// candidate is always taken; later ones replace the current maximum when
/// `gt(candidate, current)` holds.
pub open spec fn max_step<T, G: Fn(T, T) -> bool>(
    gt: G,
    before: (T, i64),
    step: Option<(T, i64)>,
    after: (T, i64),
) -> bool {
    match step {
        Option::None => after == before,
        Option::Some(c) => if before.1 < 0 {
            after == c
        } else {
            ||| (call_ensures(gt, (c.0, before.0), true) && after == c)
            ||| (call_ensures(gt, (c.0, before.0), false) && after == before)
        },
    }
}

pub open spec fn max_trace<T, G: Fn(T, T) -> bool>(
    gt: G,
    init: (T, i64),
    steps: Seq<Option<(T, i64)>>,
    trace: Seq<(T, i64)>,
) -> bool {
    &&& trace.len() == steps.len() + 1
    &&& trace[0] == init
    &&& forall|i: int| 0 <= i < steps.len() ==> #[trigger] max_step(gt, trace[i], steps[i], trace[i + 1])
}

/// `res` is a (maximum, position) pair that scanning `steps` from `init` can yield.
pub open spec fn max_scans_to<T, G: Fn(T, T) -> bool>(
    gt: G,
    init: (T, i64),
    steps: Seq<Option<(T, i64)>>,
    res: (T, i64),
) -> bool {
    exists|trace: Seq<(T, i64)>| #[trigger] max_trace(gt, init, steps, trace) && trace.last() == res
}

pub proof fn lemma_max_trace_push<T, G: Fn(T, T) -> bool>(
    gt: G,
    init: (T, i64),
    steps: Seq<Option<(T, i64)>>,
    trace: Seq<(T, i64)>,
    step: Option<(T, i64)>,
    res: (T, i64),
)
    requires
        max_trace(gt, init, steps, trace),
        max_step(gt, trace.last(), step, res),
    ensures
        max_trace(gt, init, steps.push(step), trace.push(res)),
{
    let s2 = steps.push(step);
    let t2 = trace.push(res);
    assert forall|i: int| 0 <= i < s2.len() implies #[trigger] max_step(gt, t2[i], s2[i], t2[i + 1]) by {
        if i < steps.len() {
            assert(max_step(gt, trace[i], steps[i], trace[i + 1]));
        }
    }
}

/// Every state of a running-maximum trace is the initial state or one of the
/// present candidates; and once a candidate has been seen, the position is
/// that of a candidate.
pub proof fn lemma_max_trace_origin<T, G: Fn(T, T) -> bool>(
    gt: G,
    init: (T, i64),
    steps: Seq<Option<(T, i64)>>,
    trace: Seq<(T, i64)>,
    k: int,
)
    requires
        max_trace(gt, init, steps, trace),
        0 <= k <= steps.len(),
        init.1 < 0,
        forall|i: int| 0 <= i < steps.len() && (#[trigger] steps[i]) is Some ==> (steps[i]->0).1 >= 0,
    ensures
        trace[k] == init <==> (forall|i: int| 0 <= i < k ==> (#[trigger] steps[i]) is None),
        trace[k] != init ==> exists|i: int| 0 <= i < k && #[trigger] steps[i] == Option::Some(trace[k]),
    decreases k,
{
    if k > 0 {
        lemma_max_trace_origin(gt, init, steps, trace, k - 1);
        let j = k - 1;
        assert(max_step(gt, trace[j], steps[j], trace[j + 1]));
        assert(j + 1 == k);
        if trace[k] != init && trace[k] != trace[k - 1] {
            assert(steps[k - 1] == Option::Some(trace[k]));
        }
        if steps[k - 1] is Some {
            assert(trace[k].1 >= 0 || trace[k] == trace[k - 1]);
            if trace[k - 1] == init {
                assert(trace[k] == steps[k - 1]->0);
            }
        }
    }
}

} // verus!

verus! {

/// Number of `true` entries.
pub open spec fn count_true(s: Seq<bool>) -> nat
    decreases s.len(),
{
    if s.len() == 0 {
        0
    } else {
        count_true(s.drop_last()) + if s.last() { 1nat } else { 0nat }
    }
}

pub proof fn lemma_count_true_push(s: Seq<bool>, b: bool)
    ensures
        count_true(s.push(b)) == count_true(s) + if b { 1nat } else { 0nat },
{
    assert(s.push(b).drop_last() =~= s);
}

pub proof fn lemma_count_true_le(s: Seq<bool>)
    ensures
        count_true(s) <= s.len(),
    decreases s.len(),
{
    if s.len() > 0 {
        lemma_count_true_le(s.drop_last());
    }
}

} // verus!

verus! {

/// The steps position `l` sees of a sequence of scatter events: each event
/// adds its value to its target position.
pub open spec fn scatter_steps<T>(events: Seq<Option<(int, T)>>, l: int) -> Seq<Option<T>> {
    Seq::new(
        events.len(),
        |k: int|
            match events[k] {
                Option::Some(e) => if e.0 == l { Option::Some(e.1) } else { Option::None },
                Option::None => Option::None,
            },
    )
}

/// `out` is what applying the scatter `events` with `f` to `init` can yield:
/// every position accumulates, in event order, the values aimed at it.
pub open spec fn scatters_to<T, F: Fn(T, T) -> T>(f: F, init: Seq<T>, events: Seq<Option<(int, T)>>, out: Seq<T>) -> bool {
    &&& out.len() == init.len()
    &&& forall|l: int| 0 <= l < init.len() ==> #[trigger] folds_to(f, init[l], scatter_steps(events, l), out[l])
}

pub proof fn lemma_folds_to_push<T, F: Fn(T, T) -> T>(f: F, init: T, steps: Seq<Option<T>>, v: T, step: Option<T>, res: T)
    requires
        folds_to(f, init, steps, v),
        add_step(f, v, step, res),
    ensures
        folds_to(f, init, steps.push(step), res),
{
    let t = choose|t: Seq<T>| #[trigger] add_trace(f, init, steps, t) && t.last() == v;
    lemma_add_trace_push(f, init, steps, t, step, res);
    assert(trace_last_push(t, res));
}

spec fn trace_last_push<T>(t: Seq<T>, res: T) -> bool {
    t.push(res).last() == res
}

pub proof fn lemma_folds_to_empty<T, F: Fn(T, T) -> T>(f: F, init: T)
    ensures
        folds_to(f, init, Seq::<Option<T>>::empty(), init),
{
    assert(add_trace(f, init, Seq::<Option<T>>::empty(), seq![init]));
}

/// Nothing scattered: every position keeps its initial value.
pub proof fn lemma_scatters_to_empty<T, F: Fn(T, T) -> T>(f: F, init: Seq<T>)
    ensures
        scatters_to(f, init, Seq::<Option<(int, T)>>::empty(), init),
{
    assert forall|l: int| 0 <= l < init.len() implies #[trigger] folds_to(f, init[l], scatter_steps(Seq::<Option<(int, T)>>::empty(), l), init[l]) by {
        lemma_folds_to_empty(f, init[l]);
        assert(scatter_steps(Seq::<Option<(int, T)>>::empty(), l) =~= Seq::<Option<T>>::empty());
    }
}

/// One more event: its target position takes one accumulation step, the
/// others none.
pub proof fn lemma_scatters_to_push<T, F: Fn(T, T) -> T>(
    f: F,
    init: Seq<T>,
    events: Seq<Option<(int, T)>>,
    out: Seq<T>,
    e: Option<(int, T)>,
    out2: Seq<T>,
)
    requires
        scatters_to(f, init, events, out),
        match e {
            Option::Some(ev) => 0 <= ev.0 < out.len() && call_ensures(f, (out[ev.0], ev.1), out2[ev.0])
                && out2 == out.update(ev.0, out2[ev.0]),
            Option::None => out2 == out,
        },
    ensures
        scatters_to(f, init, events.push(e), out2),
{
    let ev2 = events.push(e);
    assert forall|l: int| 0 <= l < init.len() implies #[trigger] folds_to(f, init[l], scatter_steps(ev2, l), out2[l]) by {
        let step: Option<T> = match e {
            Option::Some(ev) => if ev.0 == l { Option::Some(ev.1) } else { Option::None },
            Option::None => Option::None,
        };
        assert(scatter_steps(ev2, l) =~= scatter_steps(events, l).push(step));
        assert(folds_to(f, init[l], scatter_steps(events, l), out[l]));
        lemma_folds_to_push(f, init[l], scatter_steps(events, l), out[l], step, out2[l]);
    }
}

} // verus!
