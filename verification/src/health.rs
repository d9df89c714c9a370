//! Step health of a step matrix: the latest sample of each rank, the median
//! and 95th percentile of their durations, the slowest rank, and the trend
//! of the most recent steps. Durations are thousandths of a millisecond.

use vstd::prelude::*;

use crate::api::{StepDurationSample, StepMatrixResponse};
use crate::model::{coordinate_of, sample_coordinate};
use crate::text::{i32_text, i64_text, int_text, join, join_seq, nat_text, owned, usize_text, views};

verus! {

/// Inserts a value after every value not greater than it.
pub open spec fn insert_int(s: Seq<i64>, x: i64) -> Seq<i64>
    decreases s.len(),
{
    if s.len() == 0 {
        seq![x]
    } else if x < s[0] {
        seq![x] + s
    } else {
        seq![s[0]] + insert_int(s.drop_first(), x)
    }
}

/// The values in increasing order.
pub open spec fn sorted_ints(s: Seq<i64>) -> Seq<i64>
    decreases s.len(),
{
    if s.len() == 0 {
        seq![]
    } else {
        insert_int(sorted_ints(s.drop_last()), s.last())
    }
}

proof fn lemma_insert_int(s: Seq<i64>, x: i64, p: int)
    requires
        0 <= p <= s.len(),
        forall|j: int| 0 <= j < p ==> !(x < #[trigger] s[j]),
        p < s.len() ==> x < s[p],
    ensures
        insert_int(s, x) == s.insert(p, x),
    decreases p,
{
    if p == 0 {
        if s.len() == 0 {
            assert(s.insert(0, x) =~= seq![x]);
        } else {
            assert(s.insert(0, x) =~= seq![x] + s);
        }
    } else {
        let rest = s.drop_first();
        assert(!(x < s[0]));
        assert forall|j: int| 0 <= j < p - 1 implies !(x < #[trigger] rest[j]) by {
            assert(rest[j] == s[j + 1]);
        }
        if p - 1 < rest.len() {
            assert(rest[p - 1] == s[p]);
        }
        lemma_insert_int(rest, x, p - 1);
        assert(s.insert(p, x) =~= seq![s[0]] + rest.insert(p - 1, x));
    }
}

/// The values sorted in increasing order.
fn sort_ints(v: &Vec<i64>) -> (r: Vec<i64>)
    ensures
        r@ == sorted_ints(v@),
{
    let mut sorted: Vec<i64> = Vec::new();
    let mut i: usize = 0;
    assert(v@.take(0) =~= Seq::<i64>::empty());
    while i < v.len()
        invariant
            i <= v@.len(),
            sorted@ == sorted_ints(v@.take(i as int)),
        decreases v@.len() - i,
    {
        let x = v[i];
        let mut p: usize = 0;
        while p < sorted.len() && !(x < sorted[p])
            invariant
                p <= sorted@.len(),
                forall|j: int| 0 <= j < p ==> !(x < #[trigger] sorted@[j]),
            decreases sorted@.len() - p,
        {
            p = p + 1;
        }
        proof {
            lemma_insert_int(sorted@, x, p as int);
            assert(v@.take(i + 1).drop_last() =~= v@.take(i as int));
            assert(v@.take(i + 1).last() == x);
        }
        sorted.insert(p, x);
        i = i + 1;
    }
    assert(v@.take(v@.len() as int) =~= v@);
    sorted
}

/// The position a percentile `num / den` reads in `n` sorted values:
/// `ceil(n · num / den) − 1`, kept inside the list.
pub open spec fn percentile_index(n: nat, num: nat, den: nat) -> int {
    let c: int = ((n * num + den - 1) as int) / (den as int);
    let i = if c >= 1 {
        c - 1
    } else {
        0
    };
    if i < n - 1 {
        i
    } else {
        n - 1
    }
}

/// The percentile `num / den` of sorted values: the value at its position,
/// none of no value.
pub open spec fn percentile_of(sorted: Seq<i64>, num: nat, den: nat) -> Option<i64> {
    if sorted.len() == 0 {
        None
    } else {
        Some(sorted[percentile_index(sorted.len(), num, den)])
    }
}

/// The position of a percentile in `n` sorted values.
pub(crate) fn percentile_position(n: usize, num: u64, den: u64) -> (r: usize)
    requires
        n > 0,
        0 < den,
        num <= den,
        den <= 100,
    ensures
        r == percentile_index(n as nat, num as nat, den as nat),
        r < n,
{
    let wide_n = n as u128;
    let wide_num = num as u128;
    assert(wide_n * wide_num <= 0x1_0000_0000_0000_0000u128 * 100) by (nonlinear_arith)
        requires
            wide_n <= 0x1_0000_0000_0000_0000u128,
            wide_num <= 100,
    ;
    let c: u128 = (wide_n * wide_num + (den as u128) - 1) / (den as u128);
    assert(c <= n) by (nonlinear_arith)
        requires
            c as int == ((n as int) * (num as int) + (den as int) - 1) / (den as int),
            num <= den,
            0 < den,
    ;
    let i: usize = if c >= 1 {
        (c - 1) as usize
    } else {
        0
    };
    if i < n - 1 {
        i
    } else {
        n - 1
    }
}

fn percentile(sorted: &Vec<i64>, num: u64, den: u64) -> (r: Option<i64>)
    requires
        0 < den,
        num <= den,
        den <= 100,
    ensures
        r == percentile_of(sorted@, num as nat, den as nat),
{
    if sorted.len() == 0 {
        return None;
    }
    Some(sorted[percentile_position(sorted.len(), num, den)])
}

/// The ranks of the samples, each once, in the order they first appear.
pub open spec fn rank_order(s: Seq<StepDurationSample>) -> Seq<i32>
    decreases s.len(),
{
    if s.len() == 0 {
        seq![]
    } else {
        let r = rank_order(s.drop_last());
        if r.contains(s.last().rank) {
            r
        } else {
            r.push(s.last().rank)
        }
    }
}

/// The sample a rank keeps: the first of its samples at its largest step.
pub open spec fn latest_of(s: Seq<StepDurationSample>, rank: i32) -> StepDurationSample
    decreases s.len(),
{
    if s.len() == 0 {
        arbitrary()
    } else {
        let prev = latest_of(s.drop_last(), rank);
        if s.last().rank == rank && (!rank_order(s.drop_last()).contains(rank) || coordinate_of(
            s.last(),
        ) > coordinate_of(prev)) {
            s.last()
        } else {
            prev
        }
    }
}

/// Each rank with the duration of the sample it keeps, in rank order.
pub open spec fn latest_pairs(s: Seq<StepDurationSample>) -> Seq<(i32, i64)> {
    rank_order(s).map_values(|r: i32| (r, latest_of(s, r).duration_ms))
}

/// The durations of the kept samples that are not negative, in rank order.
pub open spec fn kept_durations(ps: Seq<(i32, i64)>) -> Seq<i64>
    decreases ps.len(),
{
    if ps.len() == 0 {
        seq![]
    } else {
        let d = kept_durations(ps.drop_last());
        if ps.last().1 >= 0 {
            d.push(ps.last().1)
        } else {
            d
        }
    }
}

/// The first rank whose kept sample is the slowest.
pub open spec fn slowest_of(ps: Seq<(i32, i64)>) -> Option<(i32, i64)>
    decreases ps.len(),
{
    if ps.len() == 0 {
        None
    } else {
        match slowest_of(ps.drop_last()) {
            Some(best) => if ps.last().1 > best.1 {
                Some(ps.last())
            } else {
                Some(best)
            },
            None => Some(ps.last()),
        }
    }
}

/// Inserts a rank after every rank that is not faster.
pub open spec fn insert_slower(s: Seq<(i32, i64)>, x: (i32, i64)) -> Seq<(i32, i64)>
    decreases s.len(),
{
    if s.len() == 0 {
        seq![x]
    } else if x.1 > s[0].1 {
        seq![x] + s
    } else {
        seq![s[0]] + insert_slower(s.drop_first(), x)
    }
}

/// The ranks from slowest to fastest; ranks as fast as each other in rank
/// order.
pub open spec fn slowest_first(s: Seq<(i32, i64)>) -> Seq<(i32, i64)>
    decreases s.len(),
{
    if s.len() == 0 {
        seq![]
    } else {
        insert_slower(slowest_first(s.drop_last()), s.last())
    }
}

proof fn lemma_insert_slower(s: Seq<(i32, i64)>, x: (i32, i64), p: int)
    requires
        0 <= p <= s.len(),
        forall|j: int| 0 <= j < p ==> !(x.1 > (#[trigger] s[j]).1),
        p < s.len() ==> x.1 > s[p].1,
    ensures
        insert_slower(s, x) == s.insert(p, x),
    decreases p,
{
    if p == 0 {
        if s.len() == 0 {
            assert(s.insert(0, x) =~= seq![x]);
        } else {
            assert(s.insert(0, x) =~= seq![x] + s);
        }
    } else {
        let rest = s.drop_first();
        assert(!(x.1 > s[0].1));
        assert forall|j: int| 0 <= j < p - 1 implies !(x.1 > (#[trigger] rest[j]).1) by {
            assert(rest[j] == s[j + 1]);
        }
        if p - 1 < rest.len() {
            assert(rest[p - 1] == s[p]);
        }
        lemma_insert_slower(rest, x, p - 1);
        assert(s.insert(p, x) =~= seq![s[0]] + rest.insert(p - 1, x));
    }
}

pub(crate) proof fn lemma_rank_order_unique(s: Seq<StepDurationSample>)
    ensures
        rank_order(s).no_duplicates(),
        forall|r: i32| rank_order(s).contains(r) <==> exists|k: int| 0 <= k < s.len() && (#[trigger] s[k]).rank == r,
    decreases s.len(),
{
    if s.len() > 0 {
        let d = s.drop_last();
        lemma_rank_order_unique(d);
        assert forall|r: i32| rank_order(s).contains(r) <==> exists|k: int|
            0 <= k < s.len() && (#[trigger] s[k]).rank == r by {
            if rank_order(s).contains(r) {
                if rank_order(d).contains(r) {
                    let k = choose|k: int| 0 <= k < d.len() && (#[trigger] d[k]).rank == r;
                    assert(s[k] == d[k]);
                } else {
                    assert(s[s.len() - 1].rank == r);
                }
            }
            if exists|k: int| 0 <= k < s.len() && (#[trigger] s[k]).rank == r {
                let k = choose|k: int| 0 <= k < s.len() && (#[trigger] s[k]).rank == r;
                if k < d.len() {
                    assert(d[k] == s[k]);
                    assert(rank_order(d).contains(r));
                } else {
                    assert(s.last().rank == r);
                }
                if !rank_order(d).contains(s.last().rank) {
                    assert(rank_order(s) == rank_order(d).push(s.last().rank));
                    if k < d.len() {
                        assert(rank_order(s)[rank_order(d).index_of(r)] == r);
                    } else {
                        assert(rank_order(s)[rank_order(d).len() as int] == r);
                    }
                }
            }
        }
    }
}

/// The step health the dashboard and the distributed page show.
#[derive(Clone, Copy, Debug, Default, PartialEq, Eq)]
pub struct StepTrendPoint {
    pub step: i64,
    pub median_ms: i64,
    pub p95_ms: i64,
}

#[derive(Clone, Debug, Default, PartialEq, Eq)]
pub struct StepHealth {
    pub latest_step: Option<i64>,
    pub median_ms: Option<i64>,
    pub p95_ms: Option<i64>,
    pub slowest_rank: Option<i32>,
    pub slowest_ms: Option<i64>,
    pub observed_ranks: usize,
    pub expected_ranks: usize,
    pub nodes_failed: Vec<String>,
    pub rank_durations: Vec<(i32, i64)>,
    pub trend: Vec<StepTrendPoint>,
}

/// The kept sample of each rank, in rank order, as indexes into the samples.
fn latest_by_rank(samples: &Vec<StepDurationSample>) -> (r: Vec<(i32, usize)>)
    ensures
        r@.len() == rank_order(samples@).len(),
        forall|a: int|
            0 <= a < r@.len() ==> (#[trigger] r@[a]).0 == rank_order(samples@)[a] && r@[a].1
                < samples@.len() && samples@[r@[a].1 as int] == latest_of(samples@, r@[a].0),
{
    let mut order: Vec<(i32, usize)> = Vec::new();
    let mut i: usize = 0;
    assert(samples@.take(0) =~= Seq::<StepDurationSample>::empty());
    while i < samples.len()
        invariant
            i <= samples@.len(),
            order@.len() == rank_order(samples@.take(i as int)).len(),
            forall|a: int|
                0 <= a < order@.len() ==> (#[trigger] order@[a]).0 == rank_order(
                    samples@.take(i as int),
                )[a] && order@[a].1 < i && samples@[order@[a].1 as int] == latest_of(
                    samples@.take(i as int),
                    order@[a].0,
                ),
        decreases samples@.len() - i,
    {
        let ghost cur = samples@.take(i as int);
        let ghost next = samples@.take(i + 1);
        proof {
            assert(next.drop_last() =~= cur);
            assert(next.last() == samples@[i as int]);
            lemma_rank_order_unique(cur);
        }
        let rank = samples[i].rank;
        let mut a: usize = 0;
        while a < order.len() && order[a].0 != rank
            invariant
                a <= order@.len(),
                forall|b: int| 0 <= b < a ==> (#[trigger] order@[b]).0 != rank,
            decreases order@.len() - a,
        {
            a = a + 1;
        }
        if a < order.len() {
            let kept = order[a].1;
            proof {
                assert(rank_order(cur)[a as int] == rank);
                assert(rank_order(cur).contains(rank));
            }
            if sample_coordinate(&samples[i]) > sample_coordinate(&samples[kept]) {
                let ghost old_order = order@;
                order.set(a, (rank, i));
                assert forall|b: int| 0 <= b < order@.len() implies (#[trigger] order@[b]).0
                    == rank_order(next)[b] && order@[b].1 < i + 1 && samples@[order@[b].1 as int]
                    == latest_of(next, order@[b].0) by {
                    if b != a {
                        assert(order@[b] == old_order[b]);
                        assert(rank_order(cur)[b] != rank_order(cur)[a as int]);
                    }
                }
            } else {
                assert forall|b: int| 0 <= b < order@.len() implies (#[trigger] order@[b]).0
                    == rank_order(next)[b] && order@[b].1 < i + 1 && samples@[order@[b].1 as int]
                    == latest_of(next, order@[b].0) by {
                    if b != a {
                        assert(rank_order(cur)[b] != rank_order(cur)[a as int]);
                    }
                }
            }
        } else {
            proof {
                assert(!rank_order(cur).contains(rank)) by {
                    if rank_order(cur).contains(rank) {
                        let b = rank_order(cur).index_of(rank);
                        assert(order@[b].0 == rank);
                    }
                }
            }
            let ghost old_order = order@;
            order.push((rank, i));
            assert forall|b: int| 0 <= b < order@.len() implies (#[trigger] order@[b]).0
                == rank_order(next)[b] && order@[b].1 < i + 1 && samples@[order@[b].1 as int]
                == latest_of(next, order@[b].0) by {
                if b < old_order.len() {
                    assert(order@[b] == old_order[b]);
                    assert(rank_order(cur).contains(order@[b].0));
                }
            }
        }
        i = i + 1;
    }
    assert(samples@.take(samples@.len() as int) =~= samples@);
    order
}


/// The largest step of the samples.
pub open spec fn max_step(s: Seq<StepDurationSample>) -> Option<i64>
    decreases s.len(),
{
    if s.len() == 0 {
        None
    } else {
        let c = coordinate_of(s.last());
        match max_step(s.drop_last()) {
            None => Some(c),
            Some(m) => Some(
                if c > m {
                    c
                } else {
                    m
                },
            ),
        }
    }
}

/// Inserts a step into a list of steps unless it is there.
pub open spec fn insert_step(l: Seq<i64>, c: i64) -> Seq<i64>
    decreases l.len(),
{
    if l.len() == 0 {
        seq![c]
    } else if c < l[0] {
        seq![c] + l
    } else if c == l[0] {
        l
    } else {
        seq![l[0]] + insert_step(l.drop_first(), c)
    }
}

/// A sample counts toward the trend when its duration is not negative.
pub open spec fn trend_sample(x: StepDurationSample) -> bool {
    x.duration_ms >= 0
}

/// The steps of the trend samples, each once, in increasing order.
pub open spec fn step_list(s: Seq<StepDurationSample>) -> Seq<i64>
    decreases s.len(),
{
    if s.len() == 0 {
        seq![]
    } else if trend_sample(s.last()) {
        insert_step(step_list(s.drop_last()), coordinate_of(s.last()))
    } else {
        step_list(s.drop_last())
    }
}

/// The durations of the trend samples of a step, in sample order.
pub open spec fn step_durations(s: Seq<StepDurationSample>, step: i64) -> Seq<i64>
    decreases s.len(),
{
    if s.len() == 0 {
        seq![]
    } else {
        let d = step_durations(s.drop_last(), step);
        if trend_sample(s.last()) && coordinate_of(s.last()) == step {
            d.push(s.last().duration_ms)
        } else {
            d
        }
    }
}

/// The trend point of a step: the median and 95th percentile of its
/// durations.
pub open spec fn trend_point(s: Seq<StepDurationSample>, step: i64) -> StepTrendPoint {
    let sorted = sorted_ints(step_durations(s, step));
    StepTrendPoint {
        step,
        median_ms: sorted[percentile_index(sorted.len(), 1, 2)],
        p95_ms: sorted[percentile_index(sorted.len(), 19, 20)],
    }
}

/// The trend of every step, in step order.
pub open spec fn full_trend(s: Seq<StepDurationSample>) -> Seq<StepTrendPoint> {
    step_list(s).map_values(|c: i64| trend_point(s, c))
}

/// The trend of the 40 most recent steps.
pub open spec fn recent_trend(s: Seq<StepDurationSample>) -> Seq<StepTrendPoint> {
    let t = full_trend(s);
    if t.len() > 40 {
        t.skip(t.len() - 40)
    } else {
        t
    }
}

proof fn lemma_insert_step(l: Seq<i64>, c: i64, p: int)
    requires
        0 <= p <= l.len(),
        forall|j: int| 0 <= j < p ==> (#[trigger] l[j]) < c,
        p < l.len() ==> c <= l[p],
    ensures
        insert_step(l, c) == (if p < l.len() && l[p] == c {
            l
        } else {
            l.insert(p, c)
        }),
    decreases p,
{
    if p == 0 {
        if l.len() == 0 {
            assert(l.insert(0, c) =~= seq![c]);
        } else if c < l[0] {
            assert(l.insert(0, c) =~= seq![c] + l);
        }
    } else {
        let rest = l.drop_first();
        assert forall|j: int| 0 <= j < p - 1 implies (#[trigger] rest[j]) < c by {
            assert(rest[j] == l[j + 1]);
        }
        if p - 1 < rest.len() {
            assert(rest[p - 1] == l[p]);
        }
        lemma_insert_step(rest, c, p - 1);
        if !(p < l.len() && l[p] == c) {
            assert(l.insert(p, c) =~= seq![l[0]] + rest.insert(p - 1, c));
        } else {
            assert(l =~= seq![l[0]] + rest);
        }
    }
}

pub(crate) proof fn lemma_insert_step_contains(l: Seq<i64>, c: i64, x: i64)
    ensures
        insert_step(l, c).contains(x) <==> (l.contains(x) || x == c),
    decreases l.len(),
{
    let t = insert_step(l, c);
    if l.len() == 0 {
        assert(t =~= seq![c]);
        assert(t[0] == c);
        assert(t.contains(x) ==> t[0] == x);
    } else if c < l[0] {
        assert(t =~= seq![c] + l);
        assert(t[0] == c);
        if l.contains(x) {
            let k = choose|k: int| 0 <= k < l.len() && l[k] == x;
            assert(t[k + 1] == x);
        }
        if t.contains(x) && x != c {
            let k = choose|k: int| 0 <= k < t.len() && t[k] == x;
            assert(k > 0);
            assert(l[k - 1] == x);
        }
    } else if c == l[0] {
        assert(t =~= l);
        assert(l[0] == c);
    } else {
        let rest = l.drop_first();
        let u = insert_step(rest, c);
        lemma_insert_step_contains(rest, c, x);
        assert(t =~= seq![l[0]] + u);
        assert(t[0] == l[0]);
        if l.contains(x) {
            let k = choose|k: int| 0 <= k < l.len() && l[k] == x;
            if k > 0 {
                assert(rest[k - 1] == x);
                assert(rest.contains(x));
                let m = choose|m: int| 0 <= m < u.len() && u[m] == x;
                assert(t[m + 1] == x);
            }
        }
        if x == c {
            assert(u.contains(c));
            let m = choose|m: int| 0 <= m < u.len() && u[m] == c;
            assert(t[m + 1] == c);
        }
        if t.contains(x) {
            let k = choose|k: int| 0 <= k < t.len() && t[k] == x;
            if k > 0 {
                assert(u[k - 1] == x);
                assert(u.contains(x));
                if rest.contains(x) {
                    let m = choose|m: int| 0 <= m < rest.len() && rest[m] == x;
                    assert(l[m + 1] == x);
                }
            }
        }
    }
}

/// A step is listed exactly when it has a trend sample.
proof fn lemma_step_listed(s: Seq<StepDurationSample>, c: i64)
    ensures
        step_list(s).contains(c) <==> step_durations(s, c).len() > 0,
    decreases s.len(),
{
    if s.len() > 0 {
        let d = s.drop_last();
        lemma_step_listed(d, c);
        if trend_sample(s.last()) {
            lemma_insert_step_contains(step_list(d), coordinate_of(s.last()), c);
        }
    }
}

/// Groups the trend samples by step: the steps in increasing order, each
/// with its durations in sample order.
fn durations_by_step(samples: &Vec<StepDurationSample>) -> (r: Vec<(i64, Vec<i64>)>)
    ensures
        r@.len() == step_list(samples@).len(),
        forall|a: int|
            0 <= a < r@.len() ==> (#[trigger] r@[a]).0 == step_list(samples@)[a] && r@[a].1@
                == step_durations(samples@, r@[a].0) && r@[a].1@.len() > 0,
{
    let mut groups: Vec<(i64, Vec<i64>)> = Vec::new();
    let mut i: usize = 0;
    assert(samples@.take(0) =~= Seq::<StepDurationSample>::empty());
    while i < samples.len()
        invariant
            i <= samples@.len(),
            groups@.len() == step_list(samples@.take(i as int)).len(),
            forall|a: int, b: int| 0 <= a < b < groups@.len() ==> groups@[a].0 < groups@[b].0,
            forall|a: int|
                0 <= a < groups@.len() ==> (#[trigger] groups@[a]).0 == step_list(
                    samples@.take(i as int),
                )[a] && groups@[a].1@ == step_durations(samples@.take(i as int), groups@[a].0)
                    && groups@[a].1@.len() > 0,
        decreases samples@.len() - i,
    {
        let ghost cur = samples@.take(i as int);
        let ghost next = samples@.take(i + 1);
        proof {
            assert(next.drop_last() =~= cur);
            assert(next.last() == samples@[i as int]);
        }
        let duration = samples[i].duration_ms;
        if duration >= 0 {
            let c = sample_coordinate(&samples[i]);
            let mut p: usize = 0;
            while p < groups.len() && groups[p].0 < c
                invariant
                    p <= groups@.len(),
                    forall|a: int| 0 <= a < p ==> (#[trigger] groups@[a]).0 < c,
                decreases groups@.len() - p,
            {
                p = p + 1;
            }
            proof {
                assert forall|j: int| 0 <= j < p implies (#[trigger] step_list(cur)[j]) < c by {
                    assert(groups@[j].0 == step_list(cur)[j]);
                }
                if p < groups@.len() {
                    assert(groups@[p as int].0 == step_list(cur)[p as int]);
                }
                lemma_insert_step(step_list(cur), c, p as int);
            }
            let ghost old_groups = groups@;
            if p < groups.len() && groups[p].0 == c {
                let (step, mut ds) = groups.remove(p);
                ds.push(duration);
                groups.insert(p, (step, ds));
                assert(groups@ =~= old_groups.update(p as int, (step, ds)));
                assert forall|a: int| 0 <= a < groups@.len() implies (#[trigger] groups@[a]).0
                    == step_list(next)[a] && groups@[a].1@ == step_durations(next, groups@[a].0)
                    && groups@[a].1@.len() > 0 by {
                    if a != p {
                        assert(groups@[a] == old_groups[a]);
                        assert(old_groups[a].0 != c);
                    }
                }
            } else {
                proof {
                    assert(!step_list(cur).contains(c)) by {
                        if step_list(cur).contains(c) {
                            let k = step_list(cur).index_of(c);
                            assert(groups@[k].0 == c);
                            if k < p {
                            } else if k > p {
                                assert(groups@[p as int].0 < groups@[k].0);
                            }
                        }
                    }
                    lemma_step_listed(cur, c);
                }
                let mut ds: Vec<i64> = Vec::new();
                ds.push(duration);
                groups.insert(p, (c, ds));
                assert(step_durations(next, c) =~= seq![duration]);
                assert forall|a: int, b: int| 0 <= a < b < groups@.len() implies groups@[a].0
                    < groups@[b].0 by {
                    if b < p {
                        assert(groups@[a] == old_groups[a]);
                        assert(groups@[b] == old_groups[b]);
                    } else if b == p {
                        assert(groups@[a] == old_groups[a]);
                    } else if a < p {
                        assert(groups@[a] == old_groups[a]);
                        assert(groups@[b] == old_groups[b - 1]);
                        assert(old_groups[p as int].0 <= old_groups[b - 1].0);
                    } else if a == p {
                        assert(groups@[b] == old_groups[b - 1]);
                        assert(old_groups[p as int].0 <= old_groups[b - 1].0);
                    } else {
                        assert(groups@[a] == old_groups[a - 1]);
                        assert(groups@[b] == old_groups[b - 1]);
                    }
                }
                assert forall|a: int| 0 <= a < groups@.len() implies (#[trigger] groups@[a]).0
                    == step_list(next)[a] && groups@[a].1@ == step_durations(next, groups@[a].0)
                    && groups@[a].1@.len() > 0 by {
                    if a < p {
                        assert(groups@[a] == old_groups[a]);
                    } else if a > p {
                        assert(groups@[a] == old_groups[a - 1]);
                        assert(old_groups[p as int].0 <= old_groups[a - 1].0);
                    }
                }
            }
        } else {
            assert forall|a: int| 0 <= a < groups@.len() implies (#[trigger] groups@[a]).0
                == step_list(next)[a] && groups@[a].1@ == step_durations(next, groups@[a].0)
                && groups@[a].1@.len() > 0 by {
            }
        }
        i = i + 1;
    }
    assert(samples@.take(samples@.len() as int) =~= samples@);
    groups
}


pub open spec fn pair_rank(p: Option<(i32, i64)>) -> Option<i32> {
    match p {
        Some(x) => Some(x.0),
        None => None,
    }
}

pub open spec fn pair_duration(p: Option<(i32, i64)>) -> Option<i64> {
    match p {
        Some(x) => Some(x.1),
        None => None,
    }
}

fn copy_texts(v: &Vec<String>) -> (r: Vec<String>)
    ensures
        r@ == v@,
{
    let mut out: Vec<String> = Vec::new();
    let mut i: usize = 0;
    while i < v.len()
        invariant
            i <= v@.len(),
            out@ == v@.take(i as int),
        decreases v@.len() - i,
    {
        out.push(v[i].clone());
        assert(out@ =~= v@.take(i + 1));
        i = i + 1;
    }
    assert(v@.take(v@.len() as int) =~= v@);
    out
}

impl StepHealth {
    /// The health of a step matrix. Each rank keeps the first of its samples
    /// at its largest step; the median and 95th percentile are those of the
    /// kept durations that are not negative; the slowest rank is the first
    /// rank, in the order ranks appear, with the longest kept duration; the
    /// trend lists the median and 95th percentile of each of the 40 most
    /// recent steps. The expected rank count is never below the observed one.
    pub fn from_matrix(matrix: &StepMatrixResponse) -> (r: Self)
        ensures
            r.latest_step == max_step(matrix.samples@),
            r.median_ms == percentile_of(
                sorted_ints(kept_durations(latest_pairs(matrix.samples@))),
                1,
                2,
            ),
            r.p95_ms == percentile_of(
                sorted_ints(kept_durations(latest_pairs(matrix.samples@))),
                19,
                20,
            ),
            r.slowest_rank == pair_rank(slowest_of(latest_pairs(matrix.samples@))),
            r.slowest_ms == pair_duration(slowest_of(latest_pairs(matrix.samples@))),
            r.observed_ranks == rank_order(matrix.samples@).len(),
            r.expected_ranks == (if matrix.rank_count > rank_order(matrix.samples@).len() {
                matrix.rank_count as int
            } else {
                rank_order(matrix.samples@).len() as int
            }),
            r.nodes_failed@ == matrix.nodes_failed@,
            r.rank_durations@ == slowest_first(latest_pairs(matrix.samples@)),
            r.trend@ == recent_trend(matrix.samples@),
            (r.slowest_rank is None) <==> matrix.samples@.len() == 0,
            (r.slowest_ms is None) <==> matrix.samples@.len() == 0,
            r.slowest_ms matches Some(m) ==> latest_pairs(matrix.samples@).contains((r.slowest_rank->0, m)),
            r.slowest_ms matches Some(m) ==> forall|k: int|
                0 <= k < latest_pairs(matrix.samples@).len() ==> (#[trigger] latest_pairs(matrix.samples@)[k]).1 <= m,
            r.median_ms matches Some(m) ==> m >= 0 && exists|k: int|
                0 <= k < latest_pairs(matrix.samples@).len() && (#[trigger] latest_pairs(matrix.samples@)[k]).1 == m,
            r.p95_ms matches Some(m) ==> m >= 0 && exists|k: int|
                0 <= k < latest_pairs(matrix.samples@).len() && (#[trigger] latest_pairs(matrix.samples@)[k]).1 == m,
    {
        proof {
            crate::laws::law_step_percentiles_are_kept_durations(matrix.samples@);
            crate::laws::law_slowest_is_the_longest(latest_pairs(matrix.samples@));
            lemma_rank_order_unique(matrix.samples@);
            if matrix.samples@.len() > 0 {
                assert(rank_order(matrix.samples@).contains(matrix.samples@[0].rank));
            }
        }
        let samples = &matrix.samples;
        let ghost s = samples@;
        let order = latest_by_rank(samples);
        let mut pairs: Vec<(i32, i64)> = Vec::new();
        let mut a: usize = 0;
        while a < order.len()
            invariant
                s == samples@,
                a <= order@.len(),
                order@.len() == rank_order(s).len(),
                forall|b: int|
                    0 <= b < order@.len() ==> (#[trigger] order@[b]).0 == rank_order(s)[b]
                        && order@[b].1 < s.len() && s[order@[b].1 as int] == latest_of(
                        s,
                        order@[b].0,
                    ),
                pairs@ == latest_pairs(s).take(a as int),
            decreases order@.len() - a,
        {
            let (rank, k) = order[a];
            pairs.push((rank, samples[k].duration_ms));
            assert(pairs@ =~= latest_pairs(s).take(a + 1));
            a = a + 1;
        }
        assert(latest_pairs(s).take(order@.len() as int) =~= latest_pairs(s));
        let ghost ps = pairs@;
        let mut durations: Vec<i64> = Vec::new();
        let mut best: Option<(i32, i64)> = None;
        let mut by_duration: Vec<(i32, i64)> = Vec::new();
        let mut a: usize = 0;
        assert(ps.take(0) =~= Seq::<(i32, i64)>::empty());
        while a < pairs.len()
            invariant
                ps == pairs@,
                a <= ps.len(),
                durations@ == kept_durations(ps.take(a as int)),
                best == slowest_of(ps.take(a as int)),
                by_duration@ == slowest_first(ps.take(a as int)),
            decreases ps.len() - a,
        {
            let x = pairs[a];
            proof {
                assert(ps.take(a + 1).drop_last() =~= ps.take(a as int));
                assert(ps.take(a + 1).last() == x);
            }
            if x.1 >= 0 {
                durations.push(x.1);
            }
            best = match best {
                Some(b) => if x.1 > b.1 {
                    Some(x)
                } else {
                    Some(b)
                },
                None => Some(x),
            };
            let mut p: usize = 0;
            while p < by_duration.len() && !(x.1 > by_duration[p].1)
                invariant
                    p <= by_duration@.len(),
                    forall|j: int| 0 <= j < p ==> !(x.1 > (#[trigger] by_duration@[j]).1),
                decreases by_duration@.len() - p,
            {
                p = p + 1;
            }
            proof {
                lemma_insert_slower(by_duration@, x, p as int);
            }
            by_duration.insert(p, x);
            a = a + 1;
        }
        assert(ps.take(ps.len() as int) =~= ps);
        let sorted = sort_ints(&durations);
        let median_ms = percentile(&sorted, 1, 2);
        let p95_ms = percentile(&sorted, 19, 20);
        let mut latest_step: Option<i64> = None;
        let mut i: usize = 0;
        assert(s.take(0) =~= Seq::<StepDurationSample>::empty());
        while i < samples.len()
            invariant
                s == samples@,
                i <= s.len(),
                latest_step == max_step(s.take(i as int)),
            decreases s.len() - i,
        {
            proof {
                assert(s.take(i + 1).drop_last() =~= s.take(i as int));
                assert(s.take(i + 1).last() == s[i as int]);
            }
            let c = sample_coordinate(&samples[i]);
            latest_step = match latest_step {
                None => Some(c),
                Some(m) => Some(
                    if c > m {
                        c
                    } else {
                        m
                    },
                ),
            };
            i = i + 1;
        }
        assert(s.take(s.len() as int) =~= s);
        let groups = durations_by_step(samples);
        let ghost full = full_trend(s);
        let mut trend: Vec<StepTrendPoint> = Vec::new();
        let mut g: usize = 0;
        while g < groups.len()
            invariant
                s == samples@,
                full == full_trend(s),
                g <= groups@.len(),
                groups@.len() == step_list(s).len(),
                forall|a: int|
                    0 <= a < groups@.len() ==> (#[trigger] groups@[a]).0 == step_list(s)[a]
                        && groups@[a].1@ == step_durations(s, groups@[a].0) && groups@[a].1@.len()
                        > 0,
                trend@ == full.take(g as int),
            decreases groups@.len() - g,
        {
            let ds = sort_ints(&groups[g].1);
            let step = groups[g].0;
            proof {
                lemma_sorted_len(groups@[g as int].1@);
            }
            let median = match percentile(&ds, 1, 2) {
                Some(v) => v,
                None => 0,
            };
            let p95 = match percentile(&ds, 19, 20) {
                Some(v) => v,
                None => 0,
            };
            trend.push(StepTrendPoint { step, median_ms: median, p95_ms: p95 });
            assert(trend@ =~= full.take(g + 1));
            g = g + 1;
        }
        assert(full.take(groups@.len() as int) =~= full);
        let n = trend.len();
        let recent = if n > 40 {
            let mut kept: Vec<StepTrendPoint> = Vec::new();
            let mut j: usize = n - 40;
            while j < n
                invariant
                    n == trend@.len(),
                    n > 40,
                    n - 40 <= j <= n,
                    kept@ == trend@.subrange(n - 40, j as int),
                decreases n - j,
            {
                kept.push(trend[j]);
                assert(kept@ =~= trend@.subrange(n - 40, j + 1));
                j = j + 1;
            }
            assert(kept@ =~= trend@.skip(n - 40));
            kept
        } else {
            trend
        };
        let observed = order.len();
        StepHealth {
            latest_step,
            median_ms,
            p95_ms,
            slowest_rank: match best {
                Some(b) => Some(b.0),
                None => None,
            },
            slowest_ms: match best {
                Some(b) => Some(b.1),
                None => None,
            },
            observed_ranks: observed,
            expected_ranks: if matrix.rank_count > observed {
                matrix.rank_count
            } else {
                observed
            },
            nodes_failed: copy_texts(&matrix.nodes_failed),
            rank_durations: by_duration,
            trend: recent,
        }
    }
}

proof fn lemma_insert_int_len(s: Seq<i64>, x: i64)
    ensures
        insert_int(s, x).len() == s.len() + 1,
    decreases s.len(),
{
    if s.len() > 0 && !(x < s[0]) {
        lemma_insert_int_len(s.drop_first(), x);
    }
}

proof fn lemma_sorted_len(s: Seq<i64>)
    ensures
        sorted_ints(s).len() == s.len(),
    decreases s.len(),
{
    if s.len() > 0 {
        lemma_sorted_len(s.drop_last());
        lemma_insert_int_len(sorted_ints(s.drop_last()), s.last());
    }
}

/// Ranks the latency panel draws at most.
pub const SHOWN_RANKS: usize = 12;

/// The labels of the rank-latency panel.
pub struct RankPanelLabels {
    /// The slowest rank as `R<rank>`, or a dash.
    pub slowest: String,
    /// `Slowest <shown> of <observed> observed ranks`.
    pub shown: String,
    /// How many peers returned no samples, or nothing when all did.
    pub failed_summary: Option<String>,
    /// The peers that returned no samples, comma-separated.
    pub failed_peers: String,
}

/// The labels of the rank-latency panel of a step health.
pub fn rank_panel_labels(health: &StepHealth) -> (r: RankPanelLabels)
    ensures
        r.slowest@ == (match health.slowest_rank {
            Some(rank) => "R"@ + int_text(rank as int),
            None => "—"@,
        }),
        r.shown@ == "Slowest "@ + nat_text(
            if health.rank_durations@.len() < SHOWN_RANKS { health.rank_durations@.len() } else { SHOWN_RANKS as nat },
        ) + " of "@ + nat_text(health.rank_durations@.len()) + " observed ranks"@,
        r.failed_summary is None <==> health.nodes_failed@.len() == 0,
        r.failed_summary matches Some(t) ==> t@ == nat_text(health.nodes_failed@.len())
            + " peer endpoint(s) did not return step samples · show peers"@,
        r.failed_peers@ == join_seq(views(health.nodes_failed@), ", "@),
{
    let slowest = match health.slowest_rank {
        Some(rank) => {
            let mut t = owned("R");
            t.append(i32_text(rank).as_str());
            t
        },
        None => owned("—"),
    };
    let n = health.rank_durations.len();
    let shown_count = if n < SHOWN_RANKS {
        n
    } else {
        SHOWN_RANKS
    };
    let mut shown = owned("Slowest ");
    shown.append(usize_text(shown_count).as_str());
    shown.append(" of ");
    shown.append(usize_text(n).as_str());
    shown.append(" observed ranks");
    let failed_summary = if health.nodes_failed.len() == 0 {
        None
    } else {
        let mut t = usize_text(health.nodes_failed.len());
        t.append(" peer endpoint(s) did not return step samples · show peers");
        Some(t)
    };
    RankPanelLabels { slowest, shown, failed_summary, failed_peers: join(&health.nodes_failed, ", ") }
}

/// The label of the button that pins a rank at the step shown, or at the
/// latest step when none is known.
pub fn pin_rank_label(rank: i32, local_step: Option<i64>) -> (r: String)
    ensures
        r@ == "Pin rank "@ + int_text(rank as int) + " at step "@ + match local_step {
            Some(step) => int_text(step as int),
            None => "latest"@,
        },
{
    let mut t = owned("Pin rank ");
    t.append(i32_text(rank).as_str());
    t.append(" at step ");
    match local_step {
        Some(step) => t.append(i64_text(step).as_str()),
        None => t.append("latest"),
    }
    t
}

} // verus!
