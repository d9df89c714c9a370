//! The span tree of the spans page: searches and context filters over it,
//! trace groups, how much of the visible window their root spans cover, the
//! counts of spans, events, running spans and threads, and the merging of
//! the span lists of several processes.

use vstd::prelude::*;

use vstd::set_lib::{lemma_int_range, lemma_len_subset, lemma_set_disjoint_lens, set_int_range};

use crate::context::InvestigationContext;
use crate::text::{
    contains_chars, contains_seq, decimal_i64, lower_chars, lower_seq, parse_i64, str_eq, trim_seq,
    trimmed,
};

verus! {

/// One event recorded inside a span.
#[derive(Clone, Debug, Default, PartialEq, Eq)]
pub struct SpanEvent {
    pub name: String,
    pub timestamp: i64,
}

/// A span with its children.
#[derive(Debug, Default, PartialEq, Eq)]
pub struct SpanInfo {
    pub span_id: i64,
    pub trace_id: i64,
    pub parent_id: Option<i64>,
    pub name: String,
    pub start_timestamp: i64,
    /// `None` while the span is still running.
    pub end_timestamp: Option<i64>,
    pub thread_id: i64,
    pub phase: Option<String>,
    pub location: Option<String>,
    pub attributes: Option<String>,
    pub children: Vec<SpanInfo>,
    pub events: Vec<SpanEvent>,
}

/// The visible time range, in nanoseconds.
#[derive(Clone, Copy, Debug, Default, PartialEq, Eq)]
pub struct TraceTimeWindow {
    pub start_ns: i64,
    pub end_ns: i64,
}

/// Whether any coordinate that the span tree can be filtered by is pinned.
pub fn trace_context_active(context: &InvestigationContext) -> (r: bool)
    ensures
        r == (context.tid is Some || context.rank is Some || context.trace_id is Some
            || context.span_name is Some || context.local_step is Some),
{
    context.tid.is_some() || context.rank.is_some() || context.trace_id.is_some()
        || context.span_name.is_some() || context.local_step.is_some()
}

/// The part of a finished span inside the window, when it is not empty.
pub open spec fn clipped(s: SpanInfo, w: TraceTimeWindow) -> Option<(i64, i64)> {
    match s.end_timestamp {
        Some(e) => {
            let a = if s.start_timestamp > w.start_ns {
                s.start_timestamp
            } else {
                w.start_ns
            };
            let b = if e < w.end_ns {
                e
            } else {
                w.end_ns
            };
            if b > a {
                Some((a, b))
            } else {
                None
            }
        },
        None => None,
    }
}

/// The instant lies in the part of the span inside the window.
pub open spec fn in_clip(s: SpanInfo, w: TraceTimeWindow, t: int) -> bool {
    match clipped(s, w) {
        Some(iv) => iv.0 <= t < iv.1,
        None => false,
    }
}

/// The instants of the window that some finished span covers.
pub open spec fn covered_points(spans: Seq<SpanInfo>, w: TraceTimeWindow) -> Set<int> {
    Set::new(|t: int| exists|k: int| 0 <= k < spans.len() && #[trigger] in_clip(spans[k], w, t))
}

/// The instants covered by a list of half-open intervals.
pub open spec fn interval_points(ivs: Seq<(i64, i64)>) -> Set<int> {
    Set::new(|t: int| exists|k: int| 0 <= k < ivs.len() && #[trigger] ivs[k].0 <= t < ivs[k].1)
}

pub open spec fn inside(ivs: Seq<(i64, i64)>, w: TraceTimeWindow) -> bool {
    forall|k: int|
        0 <= k < ivs.len() ==> w.start_ns <= #[trigger] ivs[k].0 < ivs[k].1 <= w.end_ns
}

pub open spec fn sorted_by_start(ivs: Seq<(i64, i64)>) -> bool {
    forall|i: int, j: int| 0 <= i < j < ivs.len() ==> ivs[i].0 <= ivs[j].0
}

proof fn lemma_points_push(ivs: Seq<(i64, i64)>, x: (i64, i64))
    ensures
        interval_points(ivs.push(x)) == interval_points(ivs) + set_int_range(x.0 as int, x.1 as int),
{
    let t = ivs.push(x);
    assert forall|p: int| #[trigger] interval_points(t).contains(p) implies (interval_points(ivs)
        + set_int_range(x.0 as int, x.1 as int)).contains(p) by {
        let k = choose|k: int| 0 <= k < t.len() && #[trigger] t[k].0 <= p < t[k].1;
        if k < ivs.len() {
            assert(ivs[k] == t[k]);
        }
    }
    assert forall|p: int| (interval_points(ivs) + set_int_range(x.0 as int, x.1 as int)).contains(
        p,
    ) implies #[trigger] interval_points(t).contains(p) by {
        if interval_points(ivs).contains(p) {
            let k = choose|k: int| 0 <= k < ivs.len() && #[trigger] ivs[k].0 <= p < ivs[k].1;
            assert(t[k] == ivs[k]);
        } else {
            assert(t[ivs.len() as int] == x);
        }
    }
    assert(interval_points(t) =~= interval_points(ivs) + set_int_range(x.0 as int, x.1 as int));
}

proof fn lemma_points_insert(ivs: Seq<(i64, i64)>, p: int, x: (i64, i64))
    requires
        0 <= p <= ivs.len(),
    ensures
        interval_points(ivs.insert(p, x)) == interval_points(ivs) + set_int_range(
            x.0 as int,
            x.1 as int,
        ),
{
    let t = ivs.insert(p, x);
    assert forall|q: int| #[trigger] interval_points(t).contains(q) implies (interval_points(ivs)
        + set_int_range(x.0 as int, x.1 as int)).contains(q) by {
        let k = choose|k: int| 0 <= k < t.len() && #[trigger] t[k].0 <= q < t[k].1;
        if k < p {
            assert(ivs[k] == t[k]);
        } else if k > p {
            assert(ivs[k - 1] == t[k]);
        }
    }
    assert forall|q: int| (interval_points(ivs) + set_int_range(x.0 as int, x.1 as int)).contains(
        q,
    ) implies #[trigger] interval_points(t).contains(q) by {
        if interval_points(ivs).contains(q) {
            let k = choose|k: int| 0 <= k < ivs.len() && #[trigger] ivs[k].0 <= q < ivs[k].1;
            if k < p {
                assert(t[k] == ivs[k]);
            } else {
                assert(t[k + 1] == ivs[k]);
            }
        } else {
            assert(t[p] == x);
        }
    }
    assert(interval_points(t) =~= interval_points(ivs) + set_int_range(x.0 as int, x.1 as int));
}

proof fn lemma_covered_push(spans: Seq<SpanInfo>, s: SpanInfo, w: TraceTimeWindow)
    ensures
        covered_points(spans.push(s), w) == (match clipped(s, w) {
            Some(iv) => covered_points(spans, w) + set_int_range(iv.0 as int, iv.1 as int),
            None => covered_points(spans, w),
        }),
{
    let t = spans.push(s);
    let target = match clipped(s, w) {
        Some(iv) => covered_points(spans, w) + set_int_range(iv.0 as int, iv.1 as int),
        None => covered_points(spans, w),
    };
    assert forall|p: int| #[trigger] covered_points(t, w).contains(p) implies target.contains(p) by {
        let k = choose|k: int| 0 <= k < t.len() && #[trigger] in_clip(t[k], w, p);
        if k < spans.len() {
            assert(spans[k] == t[k]);
        }
    }
    assert forall|p: int| target.contains(p) implies #[trigger] covered_points(t, w).contains(p) by {
        if covered_points(spans, w).contains(p) {
            let k = choose|k: int| 0 <= k < spans.len() && #[trigger] in_clip(spans[k], w, p);
            assert(t[k] == spans[k]);
        } else {
            assert(t[spans.len() as int] == s);
            assert(in_clip(t[spans.len() as int], w, p));
        }
    }
    assert(covered_points(t, w) =~= target);
}

/// The clipped intervals of the finished spans, in order.
fn clip_intervals(spans: &Vec<SpanInfo>, window: TraceTimeWindow) -> (r: Vec<(i64, i64)>)
    ensures
        interval_points(r@) == covered_points(spans@, window),
        inside(r@, window),
{
    let mut ivs: Vec<(i64, i64)> = Vec::new();
    let mut i: usize = 0;
    assert(interval_points(ivs@) =~= Set::<int>::empty());
    assert(covered_points(spans@.take(0), window) =~= Set::<int>::empty());
    while i < spans.len()
        invariant
            i <= spans@.len(),
            interval_points(ivs@) == covered_points(spans@.take(i as int), window),
            inside(ivs@, window),
        decreases spans@.len() - i,
    {
        let s = &spans[i];
        assert(spans@.take(i + 1) == spans@.take(i as int).push(spans@[i as int]));
        proof {
            lemma_covered_push(spans@.take(i as int), spans@[i as int], window);
        }
        if let Some(e) = s.end_timestamp {
            let a = if s.start_timestamp > window.start_ns {
                s.start_timestamp
            } else {
                window.start_ns
            };
            let b = if e < window.end_ns {
                e
            } else {
                window.end_ns
            };
            if b > a {
                proof {
                    lemma_points_push(ivs@, (a, b));
                }
                ivs.push((a, b));
            }
        }
        i = i + 1;
    }
    assert(spans@.take(spans@.len() as int) == spans@);
    ivs
}

/// The same intervals ordered by their start.
fn sort_by_start(ivs: &Vec<(i64, i64)>, window: TraceTimeWindow) -> (r: Vec<(i64, i64)>)
    requires
        inside(ivs@, window),
    ensures
        interval_points(r@) == interval_points(ivs@),
        inside(r@, window),
        sorted_by_start(r@),
{
    let mut sorted: Vec<(i64, i64)> = Vec::new();
    let mut i: usize = 0;
    assert(interval_points(sorted@) =~= Set::<int>::empty());
    assert(interval_points(ivs@.take(0)) =~= Set::<int>::empty());
    while i < ivs.len()
        invariant
            i <= ivs@.len(),
            inside(ivs@, window),
            interval_points(sorted@) == interval_points(ivs@.take(i as int)),
            inside(sorted@, window),
            sorted_by_start(sorted@),
        decreases ivs@.len() - i,
    {
        let x = ivs[i];
        let mut p: usize = 0;
        while p < sorted.len() && sorted[p].0 <= x.0
            invariant
                p <= sorted@.len(),
                forall|j: int| 0 <= j < p ==> sorted@[j].0 <= x.0,
            decreases sorted@.len() - p,
        {
            p = p + 1;
        }
        let ghost before = sorted@;
        proof {
            lemma_points_insert(before, p as int, x);
            assert(ivs@.take(i + 1) == ivs@.take(i as int).push(x));
            lemma_points_push(ivs@.take(i as int), x);
        }
        sorted.insert(p, x);
        assert(sorted_by_start(sorted@)) by {
            assert forall|a: int, b: int| 0 <= a < b < sorted@.len() implies sorted@[a].0
                <= sorted@[b].0 by {
                if b < p {
                    assert(sorted@[a] == before[a]);
                    assert(sorted@[b] == before[b]);
                } else if b == p {
                    assert(sorted@[a] == before[a]);
                } else if a < p {
                    assert(sorted@[a] == before[a]);
                    assert(sorted@[b] == before[b - 1]);
                } else if a == p {
                    assert(sorted@[b] == before[b - 1]);
                } else {
                    assert(sorted@[a] == before[a - 1]);
                    assert(sorted@[b] == before[b - 1]);
                }
            }
        }
        assert(inside(sorted@, window)) by {
            assert forall|k: int| 0 <= k < sorted@.len() implies window.start_ns
                <= #[trigger] sorted@[k].0 < sorted@[k].1 <= window.end_ns by {
                if k < p {
                    assert(sorted@[k] == before[k]);
                } else if k > p {
                    assert(sorted@[k] == before[k - 1]);
                } else {
                    assert(ivs@[i as int] == x);
                }
            }
        }
        i = i + 1;
    }
    assert(ivs@.take(ivs@.len() as int) == ivs@);
    sorted
}

proof fn lemma_range_union(cs: int, ce: int, s: int, e: int)
    requires
        cs <= s <= ce,
        s <= e,
    ensures
        set_int_range(cs, ce) + set_int_range(s, e) == set_int_range(
            cs,
            if e > ce {
                e
            } else {
                ce
            },
        ),
{
    assert(set_int_range(cs, ce) + set_int_range(s, e) =~= set_int_range(
        cs,
        if e > ce {
            e
        } else {
            ce
        },
    ));
}

/// The instants the finished spans cover lie inside the window.
proof fn lemma_covered_in_window(spans: Seq<SpanInfo>, w: TraceTimeWindow)
    ensures
        covered_points(spans, w).subset_of(
            set_int_range(w.start_ns as int, if w.end_ns > w.start_ns { w.end_ns as int } else { w.start_ns as int }),
        ),
{
    assert forall|t: int| #[trigger] covered_points(spans, w).contains(t) implies set_int_range(
        w.start_ns as int,
        if w.end_ns > w.start_ns { w.end_ns as int } else { w.start_ns as int },
    ).contains(t) by {
        let k = choose|k: int| 0 <= k < spans.len() && #[trigger] in_clip(spans[k], w, t);
    }
}

/// However many finished spans there are, the instants they cover in a
/// window are finite in number and no more than the window is long; so a
/// window no longer than `i64::MAX` nanoseconds always meets the bound of
/// `covered_root_ns`.
pub proof fn lemma_short_window_coverage_fits(spans: Seq<SpanInfo>, window: TraceTimeWindow)
    requires
        window.end_ns - window.start_ns <= i64::MAX,
    ensures
        covered_points(spans, window).finite(),
        covered_points(spans, window).len() <= i64::MAX,
{
    let hi: int = if window.end_ns > window.start_ns { window.end_ns as int } else { window.start_ns as int };
    lemma_covered_in_window(spans, window);
    lemma_int_range(window.start_ns as int, hi);
    lemma_len_subset(covered_points(spans, window), set_int_range(window.start_ns as int, hi));
}

/// The points of a prefix of intervals are among the points of them all.
proof fn lemma_points_take(ivs: Seq<(i64, i64)>, k: int)
    requires
        0 <= k <= ivs.len(),
    ensures
        interval_points(ivs.take(k)).subset_of(interval_points(ivs)),
{
    assert forall|t: int| #[trigger] interval_points(ivs.take(k)).contains(t) implies interval_points(ivs).contains(t) by {
        let j = choose|j: int| 0 <= j < ivs.take(k).len() && #[trigger] ivs.take(k)[j].0 <= t < ivs.take(k)[j].1;
        assert(ivs.take(k)[j] == ivs[j]);
    }
}

/// The nanoseconds of the window that the finished root spans cover, each
/// instant counted once however many spans overlap it.
pub fn covered_root_ns(spans: &Vec<SpanInfo>, window: TraceTimeWindow) -> (r: i64)
    requires
        covered_points(spans@, window).len() <= i64::MAX,
    ensures
        covered_points(spans@, window).finite(),
        r == covered_points(spans@, window).len(),
{
    let clipped_ivs = clip_intervals(spans, window);
    let ivs = sort_by_start(&clipped_ivs, window);
    let ghost pts = covered_points(spans@, window);
    proof {
        let hi: int = if window.end_ns > window.start_ns { window.end_ns as int } else { window.start_ns as int };
        lemma_covered_in_window(spans@, window);
        lemma_int_range(window.start_ns as int, hi);
        lemma_len_subset(pts, set_int_range(window.start_ns as int, hi));
    }
    if ivs.len() == 0 {
        assert(interval_points(ivs@) =~= Set::<int>::empty());
        return 0;
    }
    let mut cs: i64 = ivs[0].0;
    let mut ce: i64 = ivs[0].1;
    let mut covered: i64 = 0;
    let ghost mut done: Set<int> = Set::empty();
    let ghost mut m: int = 0;
    proof {
        assert(ivs@.take(1) == seq![ivs@[0]]);
        assert(seq![ivs@[0]] == Seq::<(i64, i64)>::empty().push(ivs@[0]));
        lemma_points_push(Seq::<(i64, i64)>::empty(), ivs@[0]);
        assert(interval_points(Seq::<(i64, i64)>::empty()) =~= Set::<int>::empty());
        assert(done + set_int_range(cs as int, ce as int) =~= set_int_range(cs as int, ce as int));
    }
    let mut k: usize = 1;
    while k < ivs.len()
        invariant
            1 <= k <= ivs@.len(),
            inside(ivs@, window),
            sorted_by_start(ivs@),
            pts.finite(),
            pts.len() <= i64::MAX,
            interval_points(ivs@) == pts,
            0 <= m < k,
            cs == ivs@[m].0,
            window.start_ns <= cs <= ce <= window.end_ns,
            done.finite(),
            done.subset_of(set_int_range(window.start_ns as int, cs as int)),
            done.len() == covered,
            interval_points(ivs@.take(k as int)) == done + set_int_range(cs as int, ce as int),
        decreases ivs@.len() - k,
    {
        let (s, e) = ivs[k];
        assert(ivs@[m].0 <= ivs@[k as int].0);
        proof {
            assert(ivs@.take(k + 1) == ivs@.take(k as int).push(ivs@[k as int]));
            lemma_points_push(ivs@.take(k as int), ivs@[k as int]);
        }
        if s <= ce {
            let ne = if e > ce {
                e
            } else {
                ce
            };
            proof {
                lemma_range_union(cs as int, ce as int, s as int, e as int);
                assert(done + set_int_range(cs as int, ce as int) + set_int_range(s as int, e as int)
                    =~= done + (set_int_range(cs as int, ce as int) + set_int_range(
                    s as int,
                    e as int,
                )));
            }
            ce = ne;
        } else {
            proof {
                lemma_int_range(cs as int, ce as int);
                lemma_int_range(window.start_ns as int, cs as int);
                lemma_len_subset(done, set_int_range(window.start_ns as int, cs as int));
                assert(done.disjoint(set_int_range(cs as int, ce as int)));
                lemma_set_disjoint_lens(done, set_int_range(cs as int, ce as int));
                lemma_points_take(ivs@, k as int);
                lemma_len_subset(done + set_int_range(cs as int, ce as int), pts);
            }
            covered = covered + (ce - cs);
            proof {
                done = done + set_int_range(cs as int, ce as int);
                assert(done.subset_of(set_int_range(window.start_ns as int, s as int)));
                m = k as int;
            }
            cs = s;
            ce = e;
        }
        k = k + 1;
    }
    proof {
        assert(ivs@.take(ivs@.len() as int) == ivs@);
        lemma_int_range(cs as int, ce as int);
        lemma_int_range(window.start_ns as int, cs as int);
        lemma_len_subset(done, set_int_range(window.start_ns as int, cs as int));
        assert(done.disjoint(set_int_range(cs as int, ce as int)));
        lemma_set_disjoint_lens(done, set_int_range(cs as int, ce as int));
        lemma_len_subset(done + set_int_range(cs as int, ce as int), pts);
    }
    covered + (ce - cs)
}


/// What a span holds, its children included.
pub struct SpanView {
    pub span_id: i64,
    pub trace_id: i64,
    pub parent_id: Option<i64>,
    pub name: Seq<char>,
    pub start_timestamp: i64,
    pub end_timestamp: Option<i64>,
    pub thread_id: i64,
    pub phase: Option<Seq<char>>,
    pub location: Option<Seq<char>>,
    pub attributes: Option<Seq<char>>,
    pub children: Seq<SpanView>,
    pub events: Seq<(Seq<char>, i64)>,
}

pub open spec fn text_view(s: Option<String>) -> Option<Seq<char>> {
    match s {
        Some(t) => Some(t@),
        None => None,
    }
}

pub open spec fn events_view(es: Seq<SpanEvent>) -> Seq<(Seq<char>, i64)> {
    es.map_values(|e: SpanEvent| (e.name@, e.timestamp))
}

pub open spec fn span_view(s: SpanInfo) -> SpanView
    decreases s, 1int,
{
    SpanView {
        span_id: s.span_id,
        trace_id: s.trace_id,
        parent_id: s.parent_id,
        name: s.name@,
        start_timestamp: s.start_timestamp,
        end_timestamp: s.end_timestamp,
        thread_id: s.thread_id,
        phase: text_view(s.phase),
        location: text_view(s.location),
        attributes: text_view(s.attributes),
        children: spans_view(s.children@),
        events: events_view(s.events@),
    }
}

/// The views of a list of spans.
pub open spec fn spans_view(cs: Seq<SpanInfo>) -> Seq<SpanView>
    decreases cs, 0int,
{
    if cs.len() == 0 {
        seq![]
    } else {
        seq![span_view(cs[0])] + spans_view(cs.drop_first())
    }
}

proof fn lemma_spans_view_push(cs: Seq<SpanInfo>, x: SpanInfo)
    ensures
        spans_view(cs.push(x)) == spans_view(cs).push(span_view(x)),
    decreases cs.len(),
{
    if cs.len() == 0 {
        assert(cs.push(x).drop_first() =~= Seq::<SpanInfo>::empty());
        assert(cs.push(x)[0] == x);
        let e = cs.push(x).drop_first();
        assert(spans_view(e) =~= Seq::<SpanView>::empty());
        assert(spans_view(cs.push(x)) == seq![span_view(x)] + spans_view(e));
        assert(spans_view(cs) =~= Seq::<SpanView>::empty());
        assert(spans_view(cs.push(x)) =~= spans_view(cs).push(span_view(x)));
    } else {
        assert(cs.push(x).drop_first() =~= cs.drop_first().push(x));
        assert(cs.push(x)[0] == cs[0]);
        lemma_spans_view_push(cs.drop_first(), x);
        assert(spans_view(cs.push(x)) =~= spans_view(cs).push(span_view(x)));
    }
}


/// The views of two span lists one after the other.
pub proof fn lemma_spans_view_concat(a: Seq<SpanInfo>, b: Seq<SpanInfo>)
    ensures
        spans_view(a + b) == spans_view(a) + spans_view(b),
    decreases b.len(),
{
    if b.len() == 0 {
        assert(a + b =~= a);
        assert(spans_view(b) =~= Seq::<SpanView>::empty());
        assert(spans_view(a) + spans_view(b) =~= spans_view(a));
    } else {
        let c = b.drop_last();
        lemma_spans_view_concat(a, c);
        assert(a + b =~= (a + c).push(b.last()));
        assert(b =~= c.push(b.last()));
        lemma_spans_view_push(a + c, b.last());
        lemma_spans_view_push(c, b.last());
        assert(spans_view(a + b) =~= spans_view(a) + spans_view(b));
    }
}

fn copy_text(s: &Option<String>) -> (r: Option<String>)
    ensures
        text_view(r) == text_view(*s),
{
    match s {
        Some(t) => Some(t.clone()),
        None => None,
    }
}

fn copy_events(es: &Vec<SpanEvent>) -> (r: Vec<SpanEvent>)
    ensures
        events_view(r@) == events_view(es@),
{
    let mut out: Vec<SpanEvent> = Vec::new();
    let mut i: usize = 0;
    while i < es.len()
        invariant
            i <= es@.len(),
            out@.len() == i,
            forall|k: int|
                0 <= k < i ==> (#[trigger] out@[k]).name@ == es@[k].name@ && out@[k].timestamp
                    == es@[k].timestamp,
        decreases es@.len() - i,
    {
        let e = SpanEvent { name: es[i].name.clone(), timestamp: es[i].timestamp };
        out.push(e);
        i = i + 1;
    }
    assert(events_view(out@) =~= events_view(es@));
    out
}

/// A copy of a span and everything under it.
fn copy_span(s: &SpanInfo) -> (r: SpanInfo)
    ensures
        span_view(r) == span_view(*s),
    decreases s, 1int,
{
    let children = copy_spans(&s.children);
    SpanInfo {
        span_id: s.span_id,
        trace_id: s.trace_id,
        parent_id: s.parent_id,
        name: s.name.clone(),
        start_timestamp: s.start_timestamp,
        end_timestamp: s.end_timestamp,
        thread_id: s.thread_id,
        phase: copy_text(&s.phase),
        location: copy_text(&s.location),
        attributes: copy_text(&s.attributes),
        children,
        events: copy_events(&s.events),
    }
}

/// A copy of a list of spans.
pub(crate) fn copy_spans(cs: &Vec<SpanInfo>) -> (r: Vec<SpanInfo>)
    ensures
        spans_view(r@) == spans_view(cs@),
    decreases cs, 0int,
{
    let mut out: Vec<SpanInfo> = Vec::new();
    let mut i: usize = 0;
    while i < cs.len()
        invariant
            i <= cs@.len(),
            spans_view(out@) == spans_view(cs@.take(i as int)),
        decreases cs@.len() - i,
    {
        let c = copy_span(&cs[i]);
        let ghost before = out@;
        out.push(c);
        proof {
            lemma_spans_view_push(before, c);
            lemma_spans_view_push(cs@.take(i as int), cs@[i as int]);
            assert(cs@.take(i + 1) =~= cs@.take(i as int).push(cs@[i as int]));
        }
        i = i + 1;
    }
    assert(cs@.take(cs@.len() as int) =~= cs@);
    out
}


proof fn lemma_spans_view_len(cs: Seq<SpanInfo>)
    ensures
        spans_view(cs).len() == cs.len(),
    decreases cs.len(),
{
    if cs.len() > 0 {
        lemma_spans_view_len(cs.drop_first());
    }
}

/// The optional text contains the needle once lowered.
pub open spec fn opt_contains(v: Option<Seq<char>>, needle: Seq<char>) -> bool {
    match v {
        Some(t) => contains_seq(lower_seq(t), needle),
        None => false,
    }
}

/// The span's name, phase or location contains the needle once lowered.
pub open spec fn span_found(s: SpanView, needle: Seq<char>) -> bool {
    contains_seq(lower_seq(s.name), needle) || opt_contains(s.phase, needle) || opt_contains(
        s.location,
        needle,
    )
}

/// What a search keeps of one span: the span with the matching part of its
/// subtree, when it matches itself or something under it does.
pub open spec fn search_one(v: SpanView, needle: Seq<char>) -> Seq<SpanView>
    decreases v, 1int,
{
    let kids = search_views(v.children, needle);
    if span_found(v, needle) || kids.len() > 0 {
        seq![SpanView { children: kids, ..v }]
    } else {
        seq![]
    }
}

/// What a search keeps of a list of spans, in order.
pub open spec fn search_views(vs: Seq<SpanView>, needle: Seq<char>) -> Seq<SpanView>
    decreases vs, 0int,
{
    if vs.len() == 0 {
        seq![]
    } else {
        search_one(vs[0], needle) + search_views(vs.drop_first(), needle)
    }
}

proof fn lemma_search_push(vs: Seq<SpanView>, x: SpanView, needle: Seq<char>)
    ensures
        search_views(vs.push(x), needle) == search_views(vs, needle) + search_one(x, needle),
    decreases vs.len(),
{
    let t = vs.push(x);
    assert(t[0] == if vs.len() == 0 { x } else { vs[0] });
    if vs.len() == 0 {
        assert(t.drop_first() =~= Seq::<SpanView>::empty());
        assert(search_views(t.drop_first(), needle) =~= Seq::<SpanView>::empty());
        assert(search_views(vs, needle) =~= Seq::<SpanView>::empty());
        assert(search_views(t, needle) =~= search_views(vs, needle) + search_one(x, needle));
    } else {
        assert(t.drop_first() =~= vs.drop_first().push(x));
        lemma_search_push(vs.drop_first(), x, needle);
        assert(search_views(t, needle) =~= search_views(vs, needle) + search_one(x, needle));
    }
}

fn text_has(v: &Option<String>, needle: &Vec<char>) -> (r: bool)
    ensures
        r == opt_contains(text_view(*v), needle@),
{
    match v {
        Some(t) => contains_chars(&lower_chars(t.as_str()), needle),
        None => false,
    }
}

fn search_span(s: &SpanInfo, needle: &Vec<char>) -> (r: Option<SpanInfo>)
    ensures
        match r {
            Some(k) => search_one(span_view(*s), needle@) == seq![span_view(k)],
            None => search_one(span_view(*s), needle@) == Seq::<SpanView>::empty(),
        },
        crate::laws::span_text_hit(span_view(*s), needle@) ==> r is Some,
    decreases s, 1int,
{
    proof {
        crate::laws::law_search_keeps_matching_spans(span_view(*s), needle@);
    }
    let kids = search_spans(&s.children, needle);
    proof {
        lemma_spans_view_len(kids@);
    }
    let direct = contains_chars(&lower_chars(s.name.as_str()), needle) || text_has(&s.phase, needle)
        || text_has(&s.location, needle);
    if direct || kids.len() > 0 {
        let k = SpanInfo {
            span_id: s.span_id,
            trace_id: s.trace_id,
            parent_id: s.parent_id,
            name: s.name.clone(),
            start_timestamp: s.start_timestamp,
            end_timestamp: s.end_timestamp,
            thread_id: s.thread_id,
            phase: copy_text(&s.phase),
            location: copy_text(&s.location),
            attributes: copy_text(&s.attributes),
            children: kids,
            events: copy_events(&s.events),
        };
        assert(span_view(k) == SpanView {
            children: search_views(span_view(*s).children, needle@),
            ..span_view(*s)
        });
        Some(k)
    } else {
        None
    }
}

fn search_spans(cs: &Vec<SpanInfo>, needle: &Vec<char>) -> (r: Vec<SpanInfo>)
    ensures
        spans_view(r@) == search_views(spans_view(cs@), needle@),
    decreases cs, 0int,
{
    let mut out: Vec<SpanInfo> = Vec::new();
    let mut i: usize = 0;
    assert(spans_view(cs@.take(0)) =~= Seq::<SpanView>::empty());
    assert(search_views(Seq::<SpanView>::empty(), needle@) =~= Seq::<SpanView>::empty());
    while i < cs.len()
        invariant
            i <= cs@.len(),
            spans_view(out@) == search_views(spans_view(cs@.take(i as int)), needle@),
        decreases cs@.len() - i,
    {
        let kept = search_span(&cs[i], needle);
        proof {
            assert(cs@.take(i + 1) =~= cs@.take(i as int).push(cs@[i as int]));
            lemma_spans_view_push(cs@.take(i as int), cs@[i as int]);
            lemma_search_push(spans_view(cs@.take(i as int)), span_view(cs@[i as int]), needle@);
        }
        match kept {
            Some(k) => {
                let ghost before = out@;
                out.push(k);
                proof {
                    lemma_spans_view_push(before, k);
                }
            },
            None => {},
        }
        assert(spans_view(out@) =~= search_views(spans_view(cs@.take(i + 1)), needle@));
        i = i + 1;
    }
    assert(cs@.take(cs@.len() as int) =~= cs@);
    out
}

/// The search needle: the query trimmed and lowered.
pub open spec fn search_needle(query: Seq<char>) -> Seq<char> {
    lower_seq(trim_seq(query))
}

/// The spans whose name, phase or location contains the query (trimmed,
/// ASCII case ignored), each with the path of ancestors that leads to it;
/// every span when the query is blank.
pub fn filter_span_tree(spans: &Vec<SpanInfo>, query: &str) -> (r: Vec<SpanInfo>)
    ensures
        spans_view(r@) == (if search_needle(query@).len() == 0 {
            spans_view(spans@)
        } else {
            search_views(spans_view(spans@), search_needle(query@))
        }),
{
    let t = trimmed(query);
    let needle = lower_chars(t.as_str());
    if needle.len() == 0 {
        return copy_spans(spans);
    }
    search_spans(spans, &needle)
}


/// What a JSON object holds under a key, as the span filters read it.
pub enum JsonScalar {
    /// The text is not JSON.
    Unreadable,
    /// The value has no such key, or is not an object.
    Absent,
    /// A number, as `i64` and as `u64` where it is an integer that fits.
    Number(Option<i64>, Option<u64>),
    Text(String),
    /// Any other JSON value.
    Other,
}

pub enum JsonScalarView {
    Unreadable,
    Absent,
    Number(Option<i64>, Option<u64>),
    Text(Seq<char>),
    Other,
}

impl View for JsonScalar {
    type V = JsonScalarView;

    open spec fn view(&self) -> JsonScalarView {
        match self {
            JsonScalar::Unreadable => JsonScalarView::Unreadable,
            JsonScalar::Absent => JsonScalarView::Absent,
            JsonScalar::Number(i, u) => JsonScalarView::Number(*i, *u),
            JsonScalar::Text(s) => JsonScalarView::Text(s@),
            JsonScalar::Other => JsonScalarView::Other,
        }
    }
}

/// What `serde_json` reads under `key` in the JSON text `attributes`.
pub uninterp spec fn json_attribute_of(attributes: Seq<char>, key: Seq<char>) -> JsonScalarView;

/// Parses `attributes` with `serde_json::from_str::<serde_json::Value>`,
/// looks `key` up with `Value::get`, and hands back what it finds, a number
/// through `Number::as_i64` and `Number::as_u64`. The contract says only that
/// the result is a function of the two texts.
#[verifier::external_body]
fn json_attribute(attributes: &str, key: &str) -> (r: JsonScalar)
    ensures
        r@ == json_attribute_of(attributes@, key@),
{
    match serde_json::from_str::<serde_json::Value>(attributes) {
        Err(_) => JsonScalar::Unreadable,
        Ok(value) => match value.get(key) {
            None => JsonScalar::Absent,
            Some(serde_json::Value::Number(n)) => JsonScalar::Number(n.as_i64(), n.as_u64()),
            Some(serde_json::Value::String(s)) => JsonScalar::Text(s.clone()),
            Some(_) => JsonScalar::Other,
        },
    }
}

/// The integer an attribute holds: a number that fits in `i64`, or text
/// that parses as one.
pub open spec fn json_integer(v: JsonScalarView) -> Option<int> {
    match v {
        JsonScalarView::Number(Some(i), _) => Some(i as int),
        JsonScalarView::Number(None, Some(u)) => if u <= i64::MAX {
            Some(u as int)
        } else {
            None
        },
        JsonScalarView::Text(t) => decimal_i64(t),
        _ => None,
    }
}

/// The integer an attribute holds.
pub fn attribute_integer(v: &JsonScalar) -> (r: Option<i64>)
    ensures
        match r {
            Some(x) => json_integer(v@) == Some(x as int),
            None => json_integer(v@) is None,
        },
{
    match v {
        JsonScalar::Number(Some(i), _) => Some(*i),
        JsonScalar::Number(None, Some(u)) => if *u <= 9223372036854775807 {
            Some(*u as i64)
        } else {
            None
        },
        JsonScalar::Text(t) => parse_i64(t.as_str()),
        _ => None,
    }
}

/// The integer attribute of a span under a key.
pub open spec fn span_attribute(v: SpanView, key: Seq<char>) -> Option<int> {
    match v.attributes {
        Some(a) => json_integer(json_attribute_of(a, key)),
        None => None,
    }
}

/// The integer attribute of a span under a key, read from its JSON
/// attributes.
pub fn span_attribute_i64(span: &SpanInfo, key: &str) -> (r: Option<i64>)
    ensures
        match r {
            Some(x) => span_attribute(span_view(*span), key@) == Some(x as int),
            None => span_attribute(span_view(*span), key@) is None,
        },
{
    match &span.attributes {
        Some(a) => attribute_integer(&json_attribute(a.as_str(), key)),
        None => None,
    }
}

/// The span has every pinned coordinate that a span can have: its trace,
/// thread and name, and the rank and step of its attributes.
pub open spec fn span_in_context(v: SpanView, c: InvestigationContext) -> bool {
    &&& (c.trace_id matches Some(t) ==> v.trace_id == t)
    &&& (c.tid matches Some(t) ==> v.thread_id == t as i64)
    &&& (c.span_name matches Some(n) ==> v.name == n@)
    &&& (c.rank matches Some(r) ==> span_attribute(v, "rank"@) == Some(r as int))
    &&& (c.local_step matches Some(st) ==> span_attribute(v, "local_step"@) == Some(st as int))
}

/// Whether a span has every pinned coordinate.
pub fn span_matches_context(span: &SpanInfo, context: &InvestigationContext) -> (r: bool)
    ensures
        r == span_in_context(span_view(*span), *context),
{
    proof {
        reveal_strlit("rank");
        reveal_strlit("local_step");
    }
    if let Some(trace_id) = context.trace_id {
        if span.trace_id != trace_id {
            return false;
        }
    }
    if let Some(tid) = context.tid {
        if tid as i64 != span.thread_id {
            return false;
        }
    }
    if let Some(name) = &context.span_name {
        if !str_eq(name.as_str(), span.name.as_str()) {
            return false;
        }
    }
    if let Some(rank) = context.rank {
        match span_attribute_i64(span, "rank") {
            Some(v) => if v != rank as i64 {
                return false;
            },
            None => {
                return false;
            },
        }
    }
    if let Some(step) = context.local_step {
        match span_attribute_i64(span, "local_step") {
            Some(v) => if v != step {
                return false;
            },
            None => {
                return false;
            },
        }
    }
    true
}

/// What the pinned coordinates keep of one span: the whole span when it
/// has them, else the span with the part of its subtree that has them.
pub open spec fn context_one(v: SpanView, c: InvestigationContext) -> Seq<SpanView>
    decreases v, 1int,
{
    if span_in_context(v, c) {
        seq![v]
    } else {
        let kids = context_views(v.children, c);
        if kids.len() > 0 {
            seq![SpanView { children: kids, ..v }]
        } else {
            seq![]
        }
    }
}

pub open spec fn context_views(vs: Seq<SpanView>, c: InvestigationContext) -> Seq<SpanView>
    decreases vs, 0int,
{
    if vs.len() == 0 {
        seq![]
    } else {
        context_one(vs[0], c) + context_views(vs.drop_first(), c)
    }
}

proof fn lemma_context_push(vs: Seq<SpanView>, x: SpanView, c: InvestigationContext)
    ensures
        context_views(vs.push(x), c) == context_views(vs, c) + context_one(x, c),
    decreases vs.len(),
{
    let t = vs.push(x);
    assert(t[0] == if vs.len() == 0 { x } else { vs[0] });
    if vs.len() == 0 {
        assert(t.drop_first() =~= Seq::<SpanView>::empty());
        assert(context_views(t.drop_first(), c) =~= Seq::<SpanView>::empty());
        assert(context_views(vs, c) =~= Seq::<SpanView>::empty());
        assert(context_views(t, c) =~= context_views(vs, c) + context_one(x, c));
    } else {
        assert(t.drop_first() =~= vs.drop_first().push(x));
        lemma_context_push(vs.drop_first(), x, c);
        assert(context_views(t, c) =~= context_views(vs, c) + context_one(x, c));
    }
}

fn context_span(s: &SpanInfo, context: &InvestigationContext) -> (r: Option<SpanInfo>)
    ensures
        match r {
            Some(k) => context_one(span_view(*s), *context) == seq![span_view(k)],
            None => context_one(span_view(*s), *context) == Seq::<SpanView>::empty(),
        },
    decreases s, 1int,
{
    if span_matches_context(s, context) {
        return Some(copy_span(s));
    }
    let kids = context_spans(&s.children, context);
    proof {
        lemma_spans_view_len(kids@);
    }
    if kids.len() > 0 {
        let k = SpanInfo {
            span_id: s.span_id,
            trace_id: s.trace_id,
            parent_id: s.parent_id,
            name: s.name.clone(),
            start_timestamp: s.start_timestamp,
            end_timestamp: s.end_timestamp,
            thread_id: s.thread_id,
            phase: copy_text(&s.phase),
            location: copy_text(&s.location),
            attributes: copy_text(&s.attributes),
            children: kids,
            events: copy_events(&s.events),
        };
        assert(span_view(k) == SpanView {
            children: context_views(span_view(*s).children, *context),
            ..span_view(*s)
        });
        Some(k)
    } else {
        None
    }
}

fn context_spans(cs: &Vec<SpanInfo>, context: &InvestigationContext) -> (r: Vec<SpanInfo>)
    ensures
        spans_view(r@) == context_views(spans_view(cs@), *context),
    decreases cs, 0int,
{
    let mut out: Vec<SpanInfo> = Vec::new();
    let mut i: usize = 0;
    assert(spans_view(cs@.take(0)) =~= Seq::<SpanView>::empty());
    assert(context_views(Seq::<SpanView>::empty(), *context) =~= Seq::<SpanView>::empty());
    while i < cs.len()
        invariant
            i <= cs@.len(),
            spans_view(out@) == context_views(spans_view(cs@.take(i as int)), *context),
        decreases cs@.len() - i,
    {
        let kept = context_span(&cs[i], context);
        proof {
            assert(cs@.take(i + 1) =~= cs@.take(i as int).push(cs@[i as int]));
            lemma_spans_view_push(cs@.take(i as int), cs@[i as int]);
            lemma_context_push(spans_view(cs@.take(i as int)), span_view(cs@[i as int]), *context);
        }
        match kept {
            Some(k) => {
                let ghost before = out@;
                out.push(k);
                proof {
                    lemma_spans_view_push(before, k);
                }
            },
            None => {},
        }
        assert(spans_view(out@) =~= context_views(spans_view(cs@.take(i + 1)), *context));
        i = i + 1;
    }
    assert(cs@.take(cs@.len() as int) =~= cs@);
    out
}

/// The span tree under the pinned coordinates: spans that have them, whole,
/// and the ancestors that lead to them, so the tree is never flattened;
/// every span when no span coordinate is pinned.
pub fn filter_span_context_tree(spans: &Vec<SpanInfo>, context: &InvestigationContext) -> (r: Vec<
    SpanInfo,
>)
    ensures
        spans_view(r@) == (if context.tid is None && context.rank is None && context.trace_id is None
            && context.span_name is None && context.local_step is None {
            spans_view(spans@)
        } else {
            context_views(spans_view(spans@), *context)
        }),
{
    if !trace_context_active(context) {
        return copy_spans(spans);
    }
    context_spans(spans, context)
}


/// The root spans of one trace.
#[derive(Debug, PartialEq, Eq)]
pub struct TraceGroup {
    pub trace_id: i64,
    pub roots: Vec<SpanInfo>,
}

/// The spans of a trace, in list order.
pub open spec fn roots_of(vs: Seq<SpanView>, t: i64) -> Seq<SpanView>
    decreases vs.len(),
{
    if vs.len() == 0 {
        seq![]
    } else {
        let r = roots_of(vs.drop_last(), t);
        if vs.last().trace_id == t {
            r.push(vs.last())
        } else {
            r
        }
    }
}

/// Some span of the list belongs to the trace.
pub open spec fn has_trace(vs: Seq<SpanView>, t: i64) -> bool {
    exists|k: int| 0 <= k < vs.len() && (#[trigger] vs[k]).trace_id == t
}

/// Inserts a span after every span that does not start later.
pub open spec fn insert_by_start(s: Seq<SpanView>, x: SpanView) -> Seq<SpanView>
    decreases s.len(),
{
    if s.len() == 0 {
        seq![x]
    } else if x.start_timestamp < s[0].start_timestamp {
        seq![x] + s
    } else {
        seq![s[0]] + insert_by_start(s.drop_first(), x)
    }
}

/// The spans by start time, spans that start together in list order.
pub open spec fn start_order(s: Seq<SpanView>) -> Seq<SpanView>
    decreases s.len(),
{
    if s.len() == 0 {
        seq![]
    } else {
        insert_by_start(start_order(s.drop_last()), s.last())
    }
}

proof fn lemma_insert_by_start(s: Seq<SpanView>, x: SpanView, p: int)
    requires
        0 <= p <= s.len(),
        forall|j: int| 0 <= j < p ==> !(x.start_timestamp < (#[trigger] s[j]).start_timestamp),
        p < s.len() ==> x.start_timestamp < s[p].start_timestamp,
    ensures
        insert_by_start(s, x) == s.insert(p, x),
    decreases p,
{
    if p == 0 {
        if s.len() == 0 {
            assert(s.insert(0, x) =~= seq![x]);
        } else {
            assert(s.insert(0, x) =~= seq![x] + s);
        }
    } else {
        let rest = s.drop_first();
        assert(!(x.start_timestamp < s[0].start_timestamp));
        assert forall|j: int| 0 <= j < p - 1 implies !(x.start_timestamp < (
        #[trigger] rest[j]).start_timestamp) by {
            assert(rest[j] == s[j + 1]);
        }
        if p - 1 < rest.len() {
            assert(rest[p - 1] == s[p]);
        }
        lemma_insert_by_start(rest, x, p - 1);
        assert(s.insert(p, x) =~= seq![s[0]] + rest.insert(p - 1, x));
    }
}

/// The spans sorted by start time, stably.
fn sort_by_start_time(spans: &Vec<SpanInfo>) -> (r: Vec<SpanInfo>)
    ensures
        spans_view(r@) == start_order(spans_view(spans@)),
{
    let ghost all = spans_view(spans@);
    proof {
        lemma_spans_view_len(spans@);
    }
    let mut sorted: Vec<SpanInfo> = Vec::new();
    let mut i: usize = 0;
    assert(all.take(0) =~= Seq::<SpanView>::empty());
    while i < spans.len()
        invariant
            i <= spans@.len(),
            all == spans_view(spans@),
            all.len() == spans@.len(),
            spans_view(sorted@) == start_order(all.take(i as int)),
        decreases spans@.len() - i,
    {
        let x = copy_span(&spans[i]);
        proof {
            lemma_spans_view_len(sorted@);
            assert(all[i as int] == span_view(spans@[i as int])) by {
                lemma_view_index(spans@, i as int);
            }
        }
        let mut p: usize = 0;
        while p < sorted.len() && !(x.start_timestamp < sorted[p].start_timestamp)
            invariant
                p <= sorted@.len(),
                spans_view(sorted@).len() == sorted@.len(),
                forall|j: int|
                    0 <= j < p ==> !(x.start_timestamp < (#[trigger] spans_view(sorted@)[j]).start_timestamp),
            decreases sorted@.len() - p,
        {
            proof {
                lemma_view_index(sorted@, p as int);
            }
            p = p + 1;
        }
        let ghost before = spans_view(sorted@);
        proof {
            if p < sorted@.len() {
                lemma_view_index(sorted@, p as int);
            }
            lemma_insert_by_start(before, span_view(x), p as int);
            assert(all.take(i + 1).drop_last() =~= all.take(i as int));
            assert(all.take(i + 1).last() == span_view(x));
        }
        let ghost old_sorted = sorted@;
        sorted.insert(p, x);
        proof {
            lemma_view_insert(old_sorted, p as int, x);
        }
        i = i + 1;
    }
    assert(all.take(spans@.len() as int) =~= all);
    sorted
}

proof fn lemma_view_index(cs: Seq<SpanInfo>, k: int)
    requires
        0 <= k < cs.len(),
    ensures
        spans_view(cs).len() == cs.len(),
        spans_view(cs)[k] == span_view(cs[k]),
    decreases k,
{
    lemma_spans_view_len(cs);
    if k > 0 {
        lemma_view_index(cs.drop_first(), k - 1);
    }
}

proof fn lemma_view_insert(cs: Seq<SpanInfo>, p: int, x: SpanInfo)
    requires
        0 <= p <= cs.len(),
    ensures
        spans_view(cs.insert(p, x)) == spans_view(cs).insert(p, span_view(x)),
{
    let t = cs.insert(p, x);
    lemma_spans_view_len(t);
    lemma_spans_view_len(cs);
    assert forall|k: int| 0 <= k < t.len() implies #[trigger] spans_view(t)[k] == spans_view(cs).insert(
        p,
        span_view(x),
    )[k] by {
        lemma_view_index(t, k);
        if k < p {
            lemma_view_index(cs, k);
        } else if k > p {
            lemma_view_index(cs, k - 1);
        }
    }
    assert(spans_view(t) =~= spans_view(cs).insert(p, span_view(x)));
}


/// The traces of the groups.
pub open spec fn group_ids(gs: Seq<TraceGroup>) -> Set<i64> {
    Set::new(|t: i64| exists|a: int| 0 <= a < gs.len() && (#[trigger] gs[a]).trace_id == t)
}

/// The traces of the spans.
pub open spec fn span_trace_ids(vs: Seq<SpanView>) -> Set<i64> {
    Set::new(|t: i64| has_trace(vs, t))
}

proof fn lemma_roots_absent(vs: Seq<SpanView>, t: i64)
    requires
        !has_trace(vs, t),
    ensures
        roots_of(vs, t) == Seq::<SpanView>::empty(),
    decreases vs.len(),
{
    if vs.len() > 0 {
        let d = vs.drop_last();
        assert(!has_trace(d, t)) by {
            if has_trace(d, t) {
                let k = choose|k: int| 0 <= k < d.len() && (#[trigger] d[k]).trace_id == t;
                assert(vs[k] == d[k]);
            }
        }
        assert(vs[vs.len() - 1].trace_id != t);
        lemma_roots_absent(d, t);
    }
}

/// The root spans grouped by trace: one group per trace, in increasing
/// trace order, the roots of each by start time and, when they start
/// together, in list order.
pub fn group_traces(spans: Vec<SpanInfo>) -> (r: Vec<TraceGroup>)
    ensures
        forall|a: int, b: int| 0 <= a < b < r@.len() ==> r@[a].trace_id < r@[b].trace_id,
        forall|a: int|
            0 <= a < r@.len() ==> spans_view((#[trigger] r@[a]).roots@) == start_order(
                roots_of(spans_view(spans@), r@[a].trace_id),
            ),
        group_ids(r@) == span_trace_ids(spans_view(spans@)),
{
    let ghost all = spans_view(spans@);
    proof {
        lemma_spans_view_len(spans@);
    }
    let mut groups: Vec<TraceGroup> = Vec::new();
    let mut i: usize = 0;
    assert(group_ids(groups@) =~= span_trace_ids(all.take(0)));
    while i < spans.len()
        invariant
            i <= spans@.len(),
            all == spans_view(spans@),
            all.len() == spans@.len(),
            forall|a: int, b: int|
                0 <= a < b < groups@.len() ==> groups@[a].trace_id < groups@[b].trace_id,
            forall|a: int|
                0 <= a < groups@.len() ==> spans_view((#[trigger] groups@[a]).roots@) == roots_of(
                    all.take(i as int),
                    groups@[a].trace_id,
                ),
            group_ids(groups@) == span_trace_ids(all.take(i as int)),
        decreases spans@.len() - i,
    {
        let t = spans[i].trace_id;
        let x = copy_span(&spans[i]);
        let ghost cur = all.take(i as int);
        let ghost next = all.take(i + 1);
        proof {
            lemma_view_index(spans@, i as int);
            assert(next.drop_last() =~= cur);
            assert(next.last() == span_view(x));
            assert(span_view(x).trace_id == t);
        }
        let mut p: usize = 0;
        while p < groups.len() && groups[p].trace_id < t
            invariant
                p <= groups@.len(),
                forall|a: int| 0 <= a < p ==> (#[trigger] groups@[a]).trace_id < t,
            decreases groups@.len() - p,
        {
            p = p + 1;
        }
        let ghost old_groups = groups@;
        if p < groups.len() && groups[p].trace_id == t {
            let mut g = groups.remove(p);
            let ghost old_roots = g.roots@;
            g.roots.push(x);
            proof {
                lemma_spans_view_push(old_roots, x);
            }
            groups.insert(p, g);
            assert(groups@ =~= old_groups.update(p as int, g));
            assert forall|a: int| 0 <= a < groups@.len() implies spans_view(
                (#[trigger] groups@[a]).roots@,
            ) == roots_of(next, groups@[a].trace_id) by {
                if a != p {
                    assert(groups@[a] == old_groups[a]);
                    assert(old_groups[a].trace_id != t);
                }
            }
            assert(group_ids(groups@) =~= span_trace_ids(next)) by {
                assert forall|u: i64| group_ids(groups@).contains(u) implies span_trace_ids(
                    next,
                ).contains(u) by {
                    let a = choose|a: int| 0 <= a < groups@.len() && (#[trigger] groups@[a]).trace_id == u;
                    assert(groups@[a].trace_id == old_groups[a].trace_id);
                    assert(group_ids(old_groups).contains(u));
                    assert(span_trace_ids(cur).contains(u));
                    let k = choose|k: int| 0 <= k < cur.len() && (#[trigger] cur[k]).trace_id == u;
                    assert(next[k] == cur[k]);
                }
                assert forall|u: i64| span_trace_ids(next).contains(u) implies group_ids(
                    groups@,
                ).contains(u) by {
                    let k = choose|k: int| 0 <= k < next.len() && (#[trigger] next[k]).trace_id == u;
                    if k < cur.len() {
                        assert(cur[k] == next[k]);
                        assert(span_trace_ids(cur).contains(u));
                        assert(group_ids(old_groups).contains(u));
                        let a = choose|a: int|
                            0 <= a < old_groups.len() && (#[trigger] old_groups[a]).trace_id == u;
                        assert(groups@[a].trace_id == old_groups[a].trace_id);
                    } else {
                        assert(groups@[p as int].trace_id == u);
                    }
                }
            }
        } else {
            let mut roots: Vec<SpanInfo> = Vec::new();
            roots.push(x);
            proof {
                lemma_spans_view_push(Seq::<SpanInfo>::empty(), x);
                assert(Seq::<SpanInfo>::empty().push(x) =~= roots@);
                assert(spans_view(Seq::<SpanInfo>::empty()) =~= Seq::<SpanView>::empty());
                assert(!has_trace(cur, t)) by {
                    if has_trace(cur, t) {
                        assert(span_trace_ids(cur).contains(t));
                        assert(group_ids(old_groups).contains(t));
                        let a = choose|a: int|
                            0 <= a < old_groups.len() && (#[trigger] old_groups[a]).trace_id == t;
                        if a < p {
                        } else if a == p {
                        } else {
                            assert(old_groups[p as int].trace_id < old_groups[a].trace_id);
                        }
                    }
                }
                lemma_roots_absent(cur, t);
            }
            let g = TraceGroup { trace_id: t, roots };
            groups.insert(p, g);
            assert forall|a: int, b: int| 0 <= a < b < groups@.len() implies groups@[a].trace_id
                < groups@[b].trace_id by {
                if b < p {
                    assert(groups@[a] == old_groups[a]);
                    assert(groups@[b] == old_groups[b]);
                } else if b == p {
                    assert(groups@[a] == old_groups[a]);
                } else if a < p {
                    assert(groups@[a] == old_groups[a]);
                    assert(groups@[b] == old_groups[b - 1]);
                    assert(old_groups[p as int].trace_id <= old_groups[b - 1].trace_id);
                } else if a == p {
                    assert(groups@[b] == old_groups[b - 1]);
                    assert(old_groups[p as int].trace_id <= old_groups[b - 1].trace_id);
                } else {
                    assert(groups@[a] == old_groups[a - 1]);
                    assert(groups@[b] == old_groups[b - 1]);
                }
            }
            assert forall|a: int| 0 <= a < groups@.len() implies spans_view(
                (#[trigger] groups@[a]).roots@,
            ) == roots_of(next, groups@[a].trace_id) by {
                if a < p {
                    assert(groups@[a] == old_groups[a]);
                } else if a > p {
                    assert(groups@[a] == old_groups[a - 1]);
                    assert(old_groups[p as int].trace_id <= old_groups[a - 1].trace_id);
                } else {
                    assert(spans_view(roots@) =~= seq![span_view(x)]);
                }
            }
            assert(group_ids(groups@) =~= span_trace_ids(next)) by {
                assert forall|u: i64| group_ids(groups@).contains(u) implies span_trace_ids(
                    next,
                ).contains(u) by {
                    let a = choose|a: int| 0 <= a < groups@.len() && (#[trigger] groups@[a]).trace_id == u;
                    if a == p {
                        assert(next[i as int].trace_id == u);
                    } else {
                        let oa = if a < p { a } else { a - 1 };
                        assert(groups@[a] == old_groups[oa]);
                        assert(group_ids(old_groups).contains(u));
                        assert(span_trace_ids(cur).contains(u));
                        let k = choose|k: int| 0 <= k < cur.len() && (#[trigger] cur[k]).trace_id == u;
                        assert(next[k] == cur[k]);
                    }
                }
                assert forall|u: i64| span_trace_ids(next).contains(u) implies group_ids(
                    groups@,
                ).contains(u) by {
                    let k = choose|k: int| 0 <= k < next.len() && (#[trigger] next[k]).trace_id == u;
                    if k < cur.len() {
                        assert(cur[k] == next[k]);
                        assert(span_trace_ids(cur).contains(u));
                        assert(group_ids(old_groups).contains(u));
                        let a = choose|a: int|
                            0 <= a < old_groups.len() && (#[trigger] old_groups[a]).trace_id == u;
                        if a < p {
                            assert(groups@[a] == old_groups[a]);
                        } else {
                            assert(groups@[a + 1] == old_groups[a]);
                        }
                    } else {
                        assert(groups@[p as int].trace_id == u);
                    }
                }
            }
        }
        i = i + 1;
    }
    assert(all.take(spans@.len() as int) =~= all);
    let mut out: Vec<TraceGroup> = Vec::new();
    let mut a: usize = 0;
    while a < groups.len()
        invariant
            a <= groups@.len(),
            out@.len() == a,
            forall|x: int| 0 <= x < a ==> (#[trigger] out@[x]).trace_id == groups@[x].trace_id,
            forall|x: int|
                0 <= x < a ==> spans_view((#[trigger] out@[x]).roots@) == start_order(
                    spans_view(groups@[x].roots@),
                ),
        decreases groups@.len() - a,
    {
        let roots = sort_by_start_time(&groups[a].roots);
        out.push(TraceGroup { trace_id: groups[a].trace_id, roots });
        a = a + 1;
    }
    assert(group_ids(out@) =~= group_ids(groups@)) by {
        assert forall|u: i64| group_ids(out@).contains(u) implies group_ids(groups@).contains(u) by {
            let x = choose|x: int| 0 <= x < out@.len() && (#[trigger] out@[x]).trace_id == u;
            assert(groups@[x].trace_id == u);
        }
        assert forall|u: i64| group_ids(groups@).contains(u) implies group_ids(out@).contains(u) by {
            let x = choose|x: int| 0 <= x < groups@.len() && (#[trigger] groups@[x]).trace_id == u;
            assert(out@[x].trace_id == u);
        }
    }
    out
}


/// How many spans a forest holds, nested ones included.
pub open spec fn tree_count(vs: Seq<SpanView>) -> nat
    decreases vs, 0int,
{
    if vs.len() == 0 {
        0
    } else {
        1 + tree_count(vs[0].children) + tree_count(vs.drop_first())
    }
}

/// How many events a forest holds, nested spans' included.
pub open spec fn tree_events(vs: Seq<SpanView>) -> nat
    decreases vs, 0int,
{
    if vs.len() == 0 {
        0
    } else {
        vs[0].events.len() + tree_events(vs[0].children) + tree_events(vs.drop_first())
    }
}

/// How many spans of a forest are still running.
pub open spec fn tree_active(vs: Seq<SpanView>) -> nat
    decreases vs, 0int,
{
    if vs.len() == 0 {
        0
    } else {
        (if vs[0].end_timestamp is None {
            1nat
        } else {
            0nat
        }) + tree_active(vs[0].children) + tree_active(vs.drop_first())
    }
}

proof fn lemma_tree_push(vs: Seq<SpanView>, x: SpanView)
    ensures
        tree_count(vs.push(x)) == tree_count(vs) + 1 + tree_count(x.children),
        tree_events(vs.push(x)) == tree_events(vs) + x.events.len() + tree_events(x.children),
        tree_active(vs.push(x)) == tree_active(vs) + (if x.end_timestamp is None {
            1nat
        } else {
            0nat
        }) + tree_active(x.children),
    decreases vs.len(),
{
    let t = vs.push(x);
    if vs.len() == 0 {
        let e = t.drop_first();
        assert(e =~= Seq::<SpanView>::empty());
        assert(t[0] == x);
        assert(tree_count(e) == 0);
        assert(tree_events(e) == 0);
        assert(tree_active(e) == 0);
        assert(tree_count(vs) == 0);
        assert(tree_events(vs) == 0);
        assert(tree_active(vs) == 0);
    } else {
        assert(t.drop_first() =~= vs.drop_first().push(x));
        assert(t[0] == vs[0]);
        lemma_tree_push(vs.drop_first(), x);
    }
}

/// The span count, the event count and the running-span count of a forest.
fn tree_totals(cs: &Vec<SpanInfo>) -> (r: (usize, usize, usize))
    requires
        tree_count(spans_view(cs@)) <= usize::MAX,
        tree_events(spans_view(cs@)) <= usize::MAX,
    ensures
        r.0 == tree_count(spans_view(cs@)),
        r.1 == tree_events(spans_view(cs@)),
        r.2 == tree_active(spans_view(cs@)),
    decreases cs, 0int,
{
    let ghost all = spans_view(cs@);
    let mut spans: usize = 0;
    let mut events: usize = 0;
    let mut active: usize = 0;
    let mut i: usize = 0;
    proof {
        lemma_spans_view_len(cs@);
        assert(spans_view(cs@.take(0)) =~= Seq::<SpanView>::empty());
        lemma_tree_prefix(cs@, 0);
    }
    while i < cs.len()
        invariant
            i <= cs@.len(),
            all == spans_view(cs@),
            tree_count(all) <= usize::MAX,
            tree_events(all) <= usize::MAX,
            spans == tree_count(spans_view(cs@.take(i as int))),
            events == tree_events(spans_view(cs@.take(i as int))),
            active == tree_active(spans_view(cs@.take(i as int))),
        decreases cs@.len() - i,
    {
        proof {
            assert(cs@.take(i + 1) =~= cs@.take(i as int).push(cs@[i as int]));
            lemma_spans_view_push(cs@.take(i as int), cs@[i as int]);
            lemma_tree_push(spans_view(cs@.take(i as int)), span_view(cs@[i as int]));
            lemma_tree_prefix(cs@, i + 1);
            lemma_tree_active_bound(spans_view(cs@[i as int].children@));
            lemma_tree_active_bound(spans_view(cs@.take(i + 1)));
        }
        let s = &cs[i];
        let (c, e, a) = tree_totals(&s.children);
        spans = spans + 1 + c;
        events = events + s.events.len() + e;
        active = active + if s.end_timestamp.is_none() {
            1
        } else {
            0
        } + a;
        i = i + 1;
    }
    assert(cs@.take(cs@.len() as int) =~= cs@);
    (spans, events, active)
}

proof fn lemma_tree_prefix(cs: Seq<SpanInfo>, k: int)
    requires
        0 <= k <= cs.len(),
    ensures
        tree_count(spans_view(cs.take(k))) <= tree_count(spans_view(cs)),
        tree_events(spans_view(cs.take(k))) <= tree_events(spans_view(cs)),
    decreases cs.len() - k,
{
    if k < cs.len() {
        lemma_tree_prefix(cs, k + 1);
        assert(cs.take(k + 1) =~= cs.take(k).push(cs[k]));
        lemma_spans_view_push(cs.take(k), cs[k]);
        lemma_tree_push(spans_view(cs.take(k)), span_view(cs[k]));
    } else {
        assert(cs.take(k) =~= cs);
    }
}

proof fn lemma_tree_active_bound(vs: Seq<SpanView>)
    ensures
        tree_active(vs) <= tree_count(vs),
    decreases vs, 0int,
{
    if vs.len() > 0 {
        lemma_tree_active_bound(vs[0].children);
        lemma_tree_active_bound(vs.drop_first());
    }
}

/// How many spans a forest holds, nested ones included.
pub fn count_spans(spans: &Vec<SpanInfo>) -> (r: usize)
    requires
        tree_count(spans_view(spans@)) <= usize::MAX,
        tree_events(spans_view(spans@)) <= usize::MAX,
    ensures
        r == tree_count(spans_view(spans@)),
{
    tree_totals(spans).0
}

/// How many events a forest holds, nested spans' included.
pub fn count_events(spans: &Vec<SpanInfo>) -> (r: usize)
    requires
        tree_count(spans_view(spans@)) <= usize::MAX,
        tree_events(spans_view(spans@)) <= usize::MAX,
    ensures
        r == tree_events(spans_view(spans@)),
{
    tree_totals(spans).1
}

/// How many spans of a forest are still running.
pub fn count_active(spans: &Vec<SpanInfo>) -> (r: usize)
    requires
        tree_count(spans_view(spans@)) <= usize::MAX,
        tree_events(spans_view(spans@)) <= usize::MAX,
    ensures
        r == tree_active(spans_view(spans@)),
{
    tree_totals(spans).2
}


/// The threads a forest's spans ran on, nested spans' included.
pub open spec fn tree_threads(vs: Seq<SpanView>) -> Set<i64>
    decreases vs, 0int,
{
    if vs.len() == 0 {
        Set::empty()
    } else {
        tree_threads(vs[0].children).insert(vs[0].thread_id) + tree_threads(vs.drop_first())
    }
}

proof fn lemma_threads_push(vs: Seq<SpanView>, x: SpanView)
    ensures
        tree_threads(vs.push(x)) == tree_threads(vs) + tree_threads(x.children).insert(x.thread_id),
    decreases vs.len(),
{
    let t = vs.push(x);
    if vs.len() == 0 {
        let e = t.drop_first();
        assert(e =~= Seq::<SpanView>::empty());
        assert(t[0] == x);
        assert(tree_threads(e) == Set::<i64>::empty());
        assert(tree_threads(vs) == Set::<i64>::empty());
        assert(tree_threads(t) =~= tree_threads(vs) + tree_threads(x.children).insert(x.thread_id));
    } else {
        assert(t.drop_first() =~= vs.drop_first().push(x));
        assert(t[0] == vs[0]);
        lemma_threads_push(vs.drop_first(), x);
        assert(tree_threads(t) =~= tree_threads(vs) + tree_threads(x.children).insert(x.thread_id));
    }
}

/// Lists a thread once.
fn note_thread(threads: &mut Vec<i64>, t: i64)
    requires
        old(threads)@.no_duplicates(),
    ensures
        final(threads)@.no_duplicates(),
        final(threads)@.to_set() == old(threads)@.to_set().insert(t),
{
    let mut k: usize = 0;
    while k < threads.len()
        invariant
            threads@ == old(threads)@,
            old(threads)@.no_duplicates(),
            k <= threads@.len(),
            forall|y: int| 0 <= y < k ==> threads@[y] != t,
        decreases threads@.len() - k,
    {
        if threads[k] == t {
            assert(threads@.to_set().contains(t));
            assert(threads@.to_set().insert(t) =~= threads@.to_set());
            return;
        }
        k = k + 1;
    }
    let ghost before = threads@;
    threads.push(t);
    proof {
        before.lemma_push_to_set_commute(t);
        assert forall|a: int, b: int| 0 <= a < b < threads@.len() implies threads@[a] != threads@[b] by {
            if b == before.len() {
                assert(threads@[a] == before[a]);
            } else {
                assert(threads@[a] == before[a]);
                assert(threads@[b] == before[b]);
            }
        }
    }
}

fn collect_threads(cs: &Vec<SpanInfo>, threads: &mut Vec<i64>)
    requires
        old(threads)@.no_duplicates(),
    ensures
        final(threads)@.no_duplicates(),
        final(threads)@.to_set() == old(threads)@.to_set() + tree_threads(spans_view(cs@)),
    decreases cs, 0int,
{
    let ghost start = threads@.to_set();
    let mut i: usize = 0;
    proof {
        assert(spans_view(cs@.take(0)) =~= Seq::<SpanView>::empty());
        assert(start + tree_threads(spans_view(cs@.take(0))) =~= start);
    }
    while i < cs.len()
        invariant
            i <= cs@.len(),
            start == old(threads)@.to_set(),
            threads@.no_duplicates(),
            threads@.to_set() == start + tree_threads(spans_view(cs@.take(i as int))),
        decreases cs@.len() - i,
    {
        proof {
            assert(cs@.take(i + 1) =~= cs@.take(i as int).push(cs@[i as int]));
            lemma_spans_view_push(cs@.take(i as int), cs@[i as int]);
            lemma_threads_push(spans_view(cs@.take(i as int)), span_view(cs@[i as int]));
        }
        note_thread(threads, cs[i].thread_id);
        collect_threads(&cs[i].children, threads);
        assert(threads@.to_set() =~= start + tree_threads(spans_view(cs@.take(i + 1))));
        i = i + 1;
    }
    assert(cs@.take(cs@.len() as int) =~= cs@);
}

/// How many different threads a forest's spans ran on, nested spans'
/// included.
pub fn thread_count(spans: &Vec<SpanInfo>) -> (r: usize)
    ensures
        r == tree_threads(spans_view(spans@)).len(),
{
    let mut threads: Vec<i64> = Vec::new();
    assert(threads@.to_set() =~= Set::<i64>::empty());
    collect_threads(spans, &mut threads);
    proof {
        threads@.unique_seq_to_set();
        assert(threads@.to_set() =~= tree_threads(spans_view(spans@)));
    }
    threads.len()
}

/// What identifies a span among the answers of several processes: its id,
/// its thread and its start.
pub open spec fn span_key(v: SpanView) -> (i64, i64, i64) {
    (v.span_id, v.thread_id, v.start_timestamp)
}

/// Some span of the list has the key.
pub open spec fn has_key(vs: Seq<SpanView>, key: (i64, i64, i64)) -> bool {
    exists|k: int| 0 <= k < vs.len() && span_key(#[trigger] vs[k]) == key
}

/// The first span of each key, in list order.
pub open spec fn first_of_each(vs: Seq<SpanView>) -> Seq<SpanView>
    decreases vs.len(),
{
    if vs.len() == 0 {
        seq![]
    } else {
        let r = first_of_each(vs.drop_last());
        if has_key(vs.drop_last(), span_key(vs.last())) {
            r
        } else {
            r.push(vs.last())
        }
    }
}

/// Keeps the first span of each key and orders the spans by start time,
/// spans that start together in list order.
pub fn dedupe_and_sort_spans(spans: &mut Vec<SpanInfo>)
    ensures
        spans_view(final(spans)@) == start_order(first_of_each(spans_view(old(spans)@))),
{
    let ghost all = spans_view(spans@);
    proof {
        lemma_spans_view_len(spans@);
    }
    let mut kept: Vec<SpanInfo> = Vec::new();
    let mut i: usize = 0;
    assert(all.take(0) =~= Seq::<SpanView>::empty());
    while i < spans.len()
        invariant
            i <= spans@.len(),
            all == spans_view(spans@),
            all.len() == spans@.len(),
            spans_view(kept@) == first_of_each(all.take(i as int)),
            forall|key: (i64, i64, i64)|
                has_key(all.take(i as int), key) <==> has_key(spans_view(kept@), key),
        decreases spans@.len() - i,
    {
        let ghost cur = all.take(i as int);
        let ghost next = all.take(i + 1);
        proof {
            lemma_view_index(spans@, i as int);
            assert(next.drop_last() =~= cur);
            assert(next.last() == span_view(spans@[i as int]));
            lemma_spans_view_len(kept@);
        }
        let s = &spans[i];
        let mut j: usize = 0;
        let mut seen = false;
        while j < kept.len() && !seen
            invariant
                j <= kept@.len(),
                spans_view(kept@).len() == kept@.len(),
                !seen ==> forall|m: int|
                    0 <= m < j ==> span_key(#[trigger] spans_view(kept@)[m]) != span_key(span_view(*s)),
                seen ==> has_key(spans_view(kept@), span_key(span_view(*s))),
            decreases kept@.len() - j + (if seen { 0int } else { 1int }),
        {
            proof {
                lemma_view_index(kept@, j as int);
            }
            if kept[j].span_id == s.span_id && kept[j].thread_id == s.thread_id
                && kept[j].start_timestamp == s.start_timestamp {
                seen = true;
            } else {
                j = j + 1;
            }
        }
        let ghost before = kept@;
        proof {
            if !seen {
                assert(!has_key(spans_view(before), span_key(span_view(*s)))) by {
                    if has_key(spans_view(before), span_key(span_view(*s))) {
                        let m = choose|m: int|
                            0 <= m < spans_view(before).len() && span_key(
                                #[trigger] spans_view(before)[m],
                            ) == span_key(span_view(*s));
                        assert(span_key(spans_view(kept@)[m]) != span_key(span_view(*s)));
                    }
                }
            }
        }
        if !seen {
            let c = copy_span(s);
            kept.push(c);
            proof {
                lemma_spans_view_push(before, c);
            }
        }
        proof {
            lemma_spans_view_len(before);
            lemma_spans_view_len(kept@);
            assert forall|key: (i64, i64, i64)| has_key(next, key) <==> has_key(spans_view(kept@), key) by {
                if has_key(next, key) {
                    let k = choose|k: int| 0 <= k < next.len() && span_key(#[trigger] next[k]) == key;
                    if k < cur.len() {
                        assert(cur[k] == next[k]);
                        assert(has_key(cur, key));
                        assert(has_key(spans_view(before), key));
                        let m = choose|m: int| 0 <= m < spans_view(before).len() && span_key(#[trigger] spans_view(before)[m]) == key;
                        if !seen {
                            assert(spans_view(kept@)[m] == spans_view(before)[m]);
                        }
                    } else if !seen {
                        assert(spans_view(kept@)[spans_view(before).len() as int] == span_view(*s));
                    }
                }
                if has_key(spans_view(kept@), key) {
                    let m = choose|m: int| 0 <= m < spans_view(kept@).len() && span_key(#[trigger] spans_view(kept@)[m]) == key;
                    if !seen && m == spans_view(before).len() {
                        assert(next[i as int] == span_view(*s));
                    } else {
                        if !seen {
                            assert(spans_view(kept@)[m] == spans_view(before)[m]);
                        }
                        assert(has_key(spans_view(before), key));
                        assert(has_key(cur, key));
                        let k = choose|k: int| 0 <= k < cur.len() && span_key(#[trigger] cur[k]) == key;
                        assert(next[k] == cur[k]);
                    }
                }
            }
            if seen {
                assert(has_key(cur, span_key(span_view(*s))));
            } else {
                assert(!has_key(cur, span_key(span_view(*s))));
            }
        }
        i = i + 1;
    }
    assert(all.take(spans@.len() as int) =~= all);
    let sorted = sort_by_start_time(&kept);
    *spans = sorted;
}

} // verus!
