//! Properties that hold across the functions of the library, proved over the
//! specifications that those functions' contracts use.

use vstd::prelude::*;

use crate::context::{context_empty, summary_parts, summary_text, unused_names, InvestigationContext};
use crate::evidence::{context_match_of, ContextMatch, EvidenceScope};
use crate::model::{
    host_set, lemma_host_set_push, lemma_rank_set_push, rank_set, world_size_set, RegistryHealth,
};
use crate::registry::{
    cluster_route, page_of, page_spec_of, snapshot_id_of, support_of,
    NextRoute, Page, WorkspaceKind,
};
use crate::snapshot::{route_scope, route_window, SnapshotSettings};
use crate::api::{Node, StepDurationSample};
use crate::catalog::{catalog_hits, catalog_match, catalog_routes, catalog_text};
use crate::health::{
    insert_int, insert_slower, insert_step, latest_of, latest_pairs, lemma_rank_order_unique,
    max_step, percentile_of, rank_order, slowest_of, kept_durations, recent_trend, slowest_first, sorted_ints, step_list,
    full_trend, trend_point,
};
use crate::model::coordinate_of;
use crate::text::{all_digits, decimal_i64, digit_char, digits_value, int_text, nat_text};
use crate::tracing::{first_of_each, has_key, insert_by_start, search_one, search_views, span_key, start_order, SpanView};
use crate::rl::{dedup_messages, event_before, event_order, insert_event, merged_events, RlEvent, EVENTS_LIMIT};
use crate::text::{contains_seq, lemma_text_less_irreflexive, lemma_text_less_transitive, lower_seq, text_less};
use crate::investigate::{add_skill, line_len, skill_ids_from, skill_in_line};
use crate::pulsing::{
    explicit_error, insert_by_p95, insert_wide, key_durations, key_errors, key_list, row_key, lemma_key_listed, op_of, ops_by_key, p95_first, sorted_wide,
    OpView, SpanRow,
};
use crate::health::percentile_index;
use crate::cluster::{node_query_match, query_fields};
use crate::memory::{device_selected, memory_pinned, DeviceMemory};
use crate::cluster::{insert_node, kept_rows, node_before, node_order, rank_key};
use crate::inference::{palette_color, key_names, line_listed, lines_sorted, listed_color};

verus! {

/// Routes that show the same page have the same page specification, so a
/// compatibility alias cannot drift from its canonical route.
pub proof fn law_aliases_share_page_spec(a: NextRoute, b: NextRoute)
    requires
        page_of(a) == page_of(b),
    ensures
        page_spec_of(page_of(a)) == page_spec_of(page_of(b)),
{
}

/// Each legacy route shows the page of its canonical route.
pub proof fn law_legacy_routes_are_aliases()
    ensures
        page_of(NextRoute::RolloutLegacy {}) == page_of(NextRoute::Rollout {}),
        page_of(NextRoute::TracesLegacy {}) == page_of(NextRoute::Spans {}),
        page_of(NextRoute::ProfilingLegacy {}) == page_of(NextRoute::Profiles {}),
{
}

/// A page fills the viewport exactly when it is the profiling or the Perfetto
/// page: the full-height workspace is declared in one place.
pub proof fn law_full_height_is_declared_once(r: NextRoute)
    ensures
        (page_spec_of(page_of(r)).workspace == WorkspaceKind::FullHeight) <==> (page_of(r)
            == Page::Profiles || page_of(r) == Page::Perfetto),
{
}

/// Only the dashboard, training and memory pages publish their evidence.
pub proof fn law_publishing_pages(r: NextRoute)
    ensures
        page_spec_of(page_of(r)).publishes_evidence <==> (r is Dashboard || r is Training
            || r is Memory),
{
}

/// The snapshot of a route is named after its page, except for the views
/// of a page that capture evidence of their own.
pub proof fn law_snapshot_ids_follow_pages(r: NextRoute)
    requires
        !(r is StackThread || r is DistributedStack || r is DistributedPythonStack
            || r is ProfileView || r is ChromeTrace),
    ensures
        snapshot_id_of(r) == page_spec_of(page_of(r)).id,
{
}

/// A route that reads cluster data always sends its snapshot requests to the
/// cluster, whatever the page settings say; a route that is neither a
/// cluster route nor the training or memory page always reads locally.
pub proof fn law_cluster_routes_fan_out(r: NextRoute, s: SnapshotSettings)
    ensures
        cluster_route(r) ==> route_scope(r, s) == EvidenceScope::ClusterFanout,
        !cluster_route(r) && !(r is Training) && !(r is Memory) ==> route_scope(r, s)
            == EvidenceScope::LocalProcess,
        route_window(r, s) is Some <==> r is Memory,
{
}

/// The distributed status page reads the local process only.
pub proof fn law_runtime_status_is_local(s: SnapshotSettings)
    ensures
        route_scope(NextRoute::DistributedStatus {}, s) == EvidenceScope::LocalProcess,
{
}

/// A route that uses every coordinate leaves none unused; a route that uses
/// none names every pinned coordinate as unused.
pub proof fn law_unused_fields_complement_support(c: InvestigationContext, r: NextRoute)
    ensures
        r is Investigate ==> unused_names(c, support_of(r)).len() == 0,
        context_empty(c) ==> unused_names(c, support_of(r)).len() == 0,
{
}

/// A context with nothing pinned is summarised as unpinned, and one with a
/// coordinate pinned never is.
pub proof fn law_summary_names_pins(c: InvestigationContext)
    ensures
        context_empty(c) <==> summary_parts(c).len() == 0,
        context_empty(c) ==> summary_text(c) == "unpinned"@,
{
}

/// Evidence that was searched for a pinned coordinate is never reported as
/// matching unless it matched, and a miss is never relabelled: a local miss
/// is out of scope, a cluster miss is no match.
pub proof fn law_context_match_is_honest(
    c: InvestigationContext,
    scope: EvidenceScope,
    matched: bool,
)
    ensures
        context_match_of(c, scope, matched) == ContextMatch::Matched ==> matched,
        context_match_of(c, scope, matched) == ContextMatch::Unpinned <==> context_empty(c),
        !context_empty(c) && !matched ==> (context_match_of(c, scope, matched)
            == ContextMatch::OutOfScope <==> scope == EvidenceScope::LocalProcess),
{
}

proof fn lemma_host_set_bound(ns: Seq<Node>)
    ensures
        host_set(ns).finite(),
        host_set(ns).len() <= ns.len(),
    decreases ns.len(),
{
    if ns.len() == 0 {
        assert(host_set(ns) =~= Set::<Seq<char>>::empty());
    } else {
        let init = ns.drop_last();
        lemma_host_set_bound(init);
        assert(ns == init.push(ns.last()));
        lemma_host_set_push(init, ns.last());
    }
}

proof fn lemma_rank_set_bound(ns: Seq<Node>)
    ensures
        rank_set(ns).finite(),
        rank_set(ns).len() <= ns.len(),
    decreases ns.len(),
{
    if ns.len() == 0 {
        assert(rank_set(ns) =~= Set::<i32>::empty());
    } else {
        let init = ns.drop_last();
        lemma_rank_set_bound(init);
        assert(ns == init.push(ns.last()));
        lemma_rank_set_push(init, ns.last());
    }
}

/// The registry never counts more hosts or ranks than processes, and an
/// expected rank count is only reported for a single positive world size.
pub proof fn law_registry_counts_are_bounded(nodes: Seq<Node>, h: RegistryHealth)
    requires
        h.processes == nodes.len(),
        h.hosts == host_set(nodes).len(),
        h.observed_ranks == rank_set(nodes).len(),
        h.world_sizes@.to_set() == world_size_set(nodes),
        h.expected_ranks == (if h.world_sizes@.len() == 1 {
            Some(h.world_sizes@[0] as usize)
        } else {
            None
        }),
    ensures
        h.hosts <= h.processes,
        h.observed_ranks <= h.processes,
        h.expected_ranks is Some ==> world_size_set(nodes) == set![h.world_sizes@[0]],
{
    lemma_host_set_bound(nodes);
    lemma_rank_set_bound(nodes);
    if h.world_sizes@.len() == 1 {
        assert(h.world_sizes@.to_set() =~= set![h.world_sizes@[0]]);
    }
}


/// The capability catalog lists canonical workspaces only: never the
/// catalog itself and never the fallback of unknown paths.
pub proof fn law_catalog_lists_only_canonical_workspaces(i: int)
    requires
        0 <= i < catalog_routes().len(),
    ensures
        page_of(catalog_routes()[i]) != Page::Explore,
        !(catalog_routes()[i] is ClassicFallback),
{
}

/// Each rank keeps the first of its samples at its largest step: the kept
/// sample is a sample of the rank, no sample of the rank has a larger step,
/// and every earlier sample of the rank has a smaller one.
pub proof fn law_latest_sample_per_rank(s: Seq<StepDurationSample>, rank: i32)
    requires
        exists|k: int| 0 <= k < s.len() && (#[trigger] s[k]).rank == rank,
    ensures
        exists|k: int|
            0 <= k < s.len() && s[k] == latest_of(s, rank) && (#[trigger] s[k]).rank == rank
                && forall|j: int|
                0 <= j < s.len() && (#[trigger] s[j]).rank == rank ==> coordinate_of(s[j])
                    <= coordinate_of(s[k]) && (j < k ==> coordinate_of(s[j]) < coordinate_of(s[k])),
    decreases s.len(),
{
    let d = s.drop_last();
    let n = s.len() - 1;
    lemma_rank_order_unique(d);
    if exists|k: int| 0 <= k < d.len() && (#[trigger] d[k]).rank == rank {
        law_latest_sample_per_rank(d, rank);
        let k0 = choose|k: int|
            0 <= k < d.len() && d[k] == latest_of(d, rank) && (#[trigger] d[k]).rank == rank
                && forall|j: int|
                0 <= j < d.len() && (#[trigger] d[j]).rank == rank ==> coordinate_of(d[j])
                    <= coordinate_of(d[k]) && (j < k ==> coordinate_of(d[j]) < coordinate_of(d[k]));
        assert(rank_order(d).contains(rank));
        if s[n].rank == rank && coordinate_of(s[n]) > coordinate_of(latest_of(d, rank)) {
            assert forall|j: int| 0 <= j < s.len() && (#[trigger] s[j]).rank == rank implies coordinate_of(s[j])
                <= coordinate_of(s[n]) && (j < n ==> coordinate_of(s[j]) < coordinate_of(s[n])) by {
                if j < n {
                    assert(s[j] == d[j]);
                }
            }
        } else {
            assert(s[k0] == d[k0]);
            assert forall|j: int| 0 <= j < s.len() && (#[trigger] s[j]).rank == rank implies coordinate_of(s[j])
                <= coordinate_of(s[k0]) && (j < k0 ==> coordinate_of(s[j]) < coordinate_of(s[k0])) by {
                if j < n {
                    assert(s[j] == d[j]);
                }
            }
        }
    } else {
        assert(!rank_order(d).contains(rank));
        assert(s[n].rank == rank) by {
            let k = choose|k: int| 0 <= k < s.len() && (#[trigger] s[k]).rank == rank;
            if k < n {
                assert(d[k] == s[k]);
            }
        }
        assert forall|j: int| 0 <= j < s.len() && (#[trigger] s[j]).rank == rank implies coordinate_of(s[j])
            <= coordinate_of(s[n]) && (j < n ==> coordinate_of(s[j]) < coordinate_of(s[n])) by {
            if j < n {
                assert(d[j] == s[j]);
            }
        }
    }
}

proof fn lemma_insert_int_sorted(s: Seq<i64>, x: i64)
    requires
        forall|i: int, j: int| 0 <= i < j < s.len() ==> s[i] <= s[j],
    ensures
        forall|i: int, j: int|
            0 <= i < j < insert_int(s, x).len() ==> insert_int(s, x)[i] <= insert_int(s, x)[j],
        insert_int(s, x).len() == s.len() + 1,
        forall|i: int| 0 <= i < insert_int(s, x).len() ==> (insert_int(s, x)[i] == x || s.contains(
            #[trigger] insert_int(s, x)[i],
        )),
    decreases s.len(),
{
    let t = insert_int(s, x);
    if s.len() == 0 {
    } else if x < s[0] {
        assert(t =~= seq![x] + s);
        assert forall|i: int| 0 <= i < t.len() implies (t[i] == x || s.contains(#[trigger] t[i])) by {
            if i > 0 {
                assert(t[i] == s[i - 1]);
            }
        }
    } else {
        let rest = s.drop_first();
        lemma_insert_int_sorted(rest, x);
        let u = insert_int(rest, x);
        assert(t =~= seq![s[0]] + u);
        assert forall|i: int| 0 <= i < t.len() implies (t[i] == x || s.contains(#[trigger] t[i])) by {
            if i == 0 {
                assert(s[0] == t[0]);
            } else {
                assert(t[i] == u[i - 1]);
                if u[i - 1] != x {
                    let k = choose|k: int| 0 <= k < rest.len() && rest[k] == u[i - 1];
                    assert(s[k + 1] == rest[k]);
                }
            }
        }
        assert forall|i: int, j: int| 0 <= i < j < t.len() implies t[i] <= t[j] by {
            if i == 0 {
                assert(t[j] == u[j - 1]);
                if u[j - 1] != x {
                    let k = choose|k: int| 0 <= k < rest.len() && rest[k] == u[j - 1];
                    assert(s[k + 1] == rest[k]);
                }
            } else {
                assert(t[i] == u[i - 1]);
                assert(t[j] == u[j - 1]);
            }
        }
    }
}

proof fn lemma_sorted_ints_sorted(s: Seq<i64>)
    ensures
        forall|i: int, j: int|
            0 <= i < j < sorted_ints(s).len() ==> sorted_ints(s)[i] <= sorted_ints(s)[j],
        sorted_ints(s).len() == s.len(),
    decreases s.len(),
{
    if s.len() > 0 {
        lemma_sorted_ints_sorted(s.drop_last());
        lemma_insert_int_sorted(sorted_ints(s.drop_last()), s.last());
    }
}

/// The median of a list of durations is never above its 95th percentile,
/// and neither is above the longest duration.
pub proof fn law_median_not_above_p95(durations: Seq<i64>)
    requires
        durations.len() > 0,
    ensures
        percentile_of(sorted_ints(durations), 1, 2) matches Some(median) && percentile_of(
            sorted_ints(durations),
            19,
            20,
        ) matches Some(p95) && median <= p95 && p95 <= sorted_ints(durations).last(),
{
    lemma_sorted_ints_sorted(durations);
    let n = durations.len();
    let a = ((n * 1 + 2 - 1) as int) / 2;
    let b = ((n * 19 + 20 - 1) as int) / 20;
    assert(a <= b) by (nonlinear_arith)
        requires
            a == ((n * 1 + 2 - 1) as int) / 2,
            b == ((n * 19 + 20 - 1) as int) / 20,
            n > 0,
    ;
}

proof fn lemma_insert_by_start_sorted(s: Seq<SpanView>, x: SpanView)
    requires
        forall|i: int, j: int| 0 <= i < j < s.len() ==> s[i].start_timestamp <= s[j].start_timestamp,
    ensures
        forall|i: int, j: int|
            0 <= i < j < insert_by_start(s, x).len() ==> insert_by_start(s, x)[i].start_timestamp
                <= insert_by_start(s, x)[j].start_timestamp,
        forall|i: int|
            0 <= i < insert_by_start(s, x).len() ==> (insert_by_start(s, x)[i] == x || s.contains(
                #[trigger] insert_by_start(s, x)[i],
            )),
    decreases s.len(),
{
    let t = insert_by_start(s, x);
    if s.len() == 0 {
    } else if x.start_timestamp < s[0].start_timestamp {
        assert(t =~= seq![x] + s);
        assert forall|i: int| 0 <= i < t.len() implies (t[i] == x || s.contains(#[trigger] t[i])) by {
            if i > 0 {
                assert(t[i] == s[i - 1]);
            }
        }
    } else {
        let rest = s.drop_first();
        lemma_insert_by_start_sorted(rest, x);
        let u = insert_by_start(rest, x);
        assert(t =~= seq![s[0]] + u);
        assert forall|i: int| 0 <= i < t.len() implies (t[i] == x || s.contains(#[trigger] t[i])) by {
            if i == 0 {
                assert(s[0] == t[0]);
            } else {
                assert(t[i] == u[i - 1]);
                if u[i - 1] != x {
                    let k = choose|k: int| 0 <= k < rest.len() && rest[k] == u[i - 1];
                    assert(s[k + 1] == rest[k]);
                }
            }
        }
        assert forall|i: int, j: int| 0 <= i < j < t.len() implies t[i].start_timestamp
            <= t[j].start_timestamp by {
            if i == 0 {
                assert(t[j] == u[j - 1]);
                if u[j - 1] != x {
                    let k = choose|k: int| 0 <= k < rest.len() && rest[k] == u[j - 1];
                    assert(s[k + 1] == rest[k]);
                }
            } else {
                assert(t[i] == u[i - 1]);
                assert(t[j] == u[j - 1]);
            }
        }
    }
}

/// The roots of a trace group are ordered by start time.
pub proof fn law_roots_ordered_by_start(s: Seq<SpanView>)
    ensures
        forall|i: int, j: int|
            0 <= i < j < start_order(s).len() ==> start_order(s)[i].start_timestamp
                <= start_order(s)[j].start_timestamp,
    decreases s.len(),
{
    if s.len() > 0 {
        law_roots_ordered_by_start(s.drop_last());
        lemma_insert_by_start_sorted(start_order(s.drop_last()), s.last());
    }
}

proof fn lemma_first_of_each_from(vs: Seq<SpanView>)
    ensures
        forall|i: int|
            0 <= i < first_of_each(vs).len() ==> has_key(vs, span_key(#[trigger] first_of_each(vs)[i])),
    decreases vs.len(),
{
    if vs.len() > 0 {
        let d = vs.drop_last();
        lemma_first_of_each_from(d);
        let r = first_of_each(vs);
        assert forall|i: int| 0 <= i < r.len() implies has_key(vs, span_key(#[trigger] r[i])) by {
            if i < first_of_each(d).len() {
                assert(r[i] == first_of_each(d)[i]);
                let k = choose|k: int| 0 <= k < d.len() && span_key(#[trigger] d[k]) == span_key(r[i]);
                assert(vs[k] == d[k]);
            } else {
                assert(r[i] == vs.last());
                assert(vs[vs.len() - 1] == vs.last());
            }
        }
    }
}

/// Merged span lists keep one span of each key: no two kept spans share
/// an id, a thread and a start.
pub proof fn law_merged_spans_have_distinct_keys(vs: Seq<SpanView>)
    ensures
        forall|i: int, j: int|
            0 <= i < j < first_of_each(vs).len() ==> span_key(first_of_each(vs)[i]) != span_key(
                first_of_each(vs)[j],
            ),
    decreases vs.len(),
{
    if vs.len() > 0 {
        let d = vs.drop_last();
        law_merged_spans_have_distinct_keys(d);
        lemma_first_of_each_from(d);
        let r = first_of_each(vs);
        let rd = first_of_each(d);
        if !has_key(d, span_key(vs.last())) {
            assert forall|i: int, j: int| 0 <= i < j < r.len() implies span_key(r[i]) != span_key(r[j]) by {
                if j < rd.len() {
                    assert(r[i] == rd[i]);
                    assert(r[j] == rd[j]);
                } else {
                    assert(r[i] == rd[i]);
                    assert(r[j] == vs.last());
                    assert(has_key(d, span_key(rd[i])));
                }
            }
        }
    }
}

proof fn lemma_digits_of_nat_text(n: nat)
    ensures
        all_digits(nat_text(n)),
        digits_value(nat_text(n)) == n,
        nat_text(n).len() > 0,
        nat_text(n)[0] != '-' && nat_text(n)[0] != '+',
    decreases n,
{
    let t = nat_text(n);
    assert(digit_char(n % 10) as int == 48 + n % 10);
    assert('0' as int == 48);
    if n >= 10 {
        lemma_digits_of_nat_text(n / 10);
        assert(t.drop_last() =~= nat_text(n / 10));
        assert(t.last() == digit_char(n % 10));
        assert(t[0] == nat_text(n / 10)[0]);
        assert(n == (n / 10) * 10 + n % 10);
        assert(digits_value(t) == digits_value(t.drop_last()) * 10 + (t.last() as int - '0' as int));
        assert(digits_value(t.drop_last()) == n / 10);
    } else {
        assert(t.drop_last() =~= Seq::<char>::empty());
        assert(t.last() == digit_char(n));
        assert(digit_char(n) as int == 48 + n);
        assert(digits_value(t) == digits_value(t.drop_last()) * 10 + (t.last() as int - '0' as int));
        assert(digits_value(t.drop_last()) == 0);
    }
}

/// Reading back a written integer gives the integer: what `i64_text`
/// writes, `parse_i64` reads as the same value.
pub proof fn law_integer_text_reads_back(v: i64)
    ensures
        decimal_i64(int_text(v as int)) == Some(v as int),
{
    if v < 0 {
        let m = (-(v as int)) as nat;
        lemma_digits_of_nat_text(m);
        let t = int_text(v as int);
        assert(t =~= seq!['-'] + nat_text(m));
        assert(t.drop_first() =~= nat_text(m));
    } else {
        lemma_digits_of_nat_text(v as nat);
    }
}

/// No event of the list comes before an event listed ahead of it.
pub open spec fn events_ordered(s: Seq<RlEvent>) -> bool {
    forall|i: int, j: int| 0 <= i < j < s.len() ==> !event_before(s[j], s[i])
}

proof fn lemma_event_before_order(a: RlEvent, b: RlEvent, c: RlEvent)
    ensures
        !event_before(a, a),
        event_before(a, b) && event_before(b, c) ==> event_before(a, c),
{
    lemma_text_less_irreflexive(a.message@);
    if event_before(a, b) && event_before(b, c) && a.timestamp_ns == b.timestamp_ns
        && b.timestamp_ns == c.timestamp_ns {
        lemma_text_less_transitive(a.message@, b.message@, c.message@);
    }
}

proof fn lemma_insert_event_ordered(s: Seq<RlEvent>, x: RlEvent)
    requires
        events_ordered(s),
    ensures
        events_ordered(insert_event(s, x)),
        forall|i: int|
            0 <= i < insert_event(s, x).len() ==> (insert_event(s, x)[i] == x || s.contains(
                #[trigger] insert_event(s, x)[i],
            )),
    decreases s.len(),
{
    let t = insert_event(s, x);
    if s.len() == 0 {
    } else if event_before(x, s[0]) {
        assert(t =~= seq![x] + s);
        assert forall|i: int| 0 <= i < t.len() implies (t[i] == x || s.contains(#[trigger] t[i])) by {
            if i > 0 {
                assert(t[i] == s[i - 1]);
            }
        }
        assert forall|i: int, j: int| 0 <= i < j < t.len() implies !event_before(t[j], t[i]) by {
            assert(t[j] == s[j - 1]);
            if i == 0 {
                lemma_event_before_order(s[j - 1], x, s[0]);
                lemma_event_before_order(s[0], s[0], s[0]);
            } else {
                assert(t[i] == s[i - 1]);
            }
        }
    } else {
        let rest = s.drop_first();
        assert(events_ordered(rest)) by {
            assert forall|i: int, j: int| 0 <= i < j < rest.len() implies !event_before(rest[j], rest[i]) by {
                assert(rest[i] == s[i + 1]);
                assert(rest[j] == s[j + 1]);
            }
        }
        lemma_insert_event_ordered(rest, x);
        let u = insert_event(rest, x);
        assert(t =~= seq![s[0]] + u);
        assert forall|i: int| 0 <= i < t.len() implies (t[i] == x || s.contains(#[trigger] t[i])) by {
            if i == 0 {
                assert(s[0] == t[0]);
            } else {
                assert(t[i] == u[i - 1]);
                if u[i - 1] != x {
                    let k = choose|k: int| 0 <= k < rest.len() && rest[k] == u[i - 1];
                    assert(s[k + 1] == rest[k]);
                }
            }
        }
        assert forall|i: int, j: int| 0 <= i < j < t.len() implies !event_before(t[j], t[i]) by {
            assert(t[j] == u[j - 1]);
            if i == 0 {
                if u[j - 1] != x {
                    assert(u.contains(u[j - 1]));
                    let k = choose|k: int| 0 <= k < rest.len() && rest[k] == u[j - 1];
                    assert(s[k + 1] == rest[k]);
                }
            } else {
                assert(t[i] == u[i - 1]);
            }
        }
    }
}

proof fn lemma_event_order_ordered(s: Seq<RlEvent>)
    ensures
        events_ordered(event_order(s)),
        forall|i: int| 0 <= i < event_order(s).len() ==> s.contains(#[trigger] event_order(s)[i]),
    decreases s.len(),
{
    if s.len() > 0 {
        let p = s.drop_last();
        lemma_event_order_ordered(p);
        lemma_insert_event_ordered(event_order(p), s.last());
        let o = event_order(s);
        assert forall|i: int| 0 <= i < o.len() implies s.contains(#[trigger] o[i]) by {
            if o[i] == s.last() {
                assert(s[s.len() - 1] == s.last());
            } else {
                assert(event_order(p).contains(o[i]));
                let j = choose|j: int| 0 <= j < event_order(p).len() && event_order(p)[j] == o[i];
                assert(p.contains(event_order(p)[j]));
                let k = choose|k: int| 0 <= k < p.len() && p[k] == o[i];
                assert(s[k] == p[k]);
            }
        }
    }
}

proof fn lemma_dedup_messages(s: Seq<RlEvent>)
    requires
        events_ordered(s),
    ensures
        events_ordered(dedup_messages(s)),
        forall|i: int| 0 <= i < dedup_messages(s).len() ==> s.contains(#[trigger] dedup_messages(s)[i]),
        forall|i: int|
            0 <= i < dedup_messages(s).len() - 1 ==> (#[trigger] dedup_messages(s)[i]).message@
                != dedup_messages(s)[i + 1].message@,
        s.len() > 0 ==> dedup_messages(s).len() > 0 && dedup_messages(s).last().message@
            == s.last().message@,
    decreases s.len(),
{
    let d = dedup_messages(s);
    if s.len() <= 1 {
        assert forall|i: int| 0 <= i < d.len() implies s.contains(#[trigger] d[i]) by {
            assert(s[i] == d[i]);
        }
    } else {
        let p = s.drop_last();
        assert(events_ordered(p)) by {
            assert forall|i: int, j: int| 0 <= i < j < p.len() implies !event_before(p[j], p[i]) by {
                assert(p[i] == s[i]);
                assert(p[j] == s[j]);
            }
        }
        lemma_dedup_messages(p);
        let e = dedup_messages(p);
        assert(p.last() == s[s.len() - 2]);
        assert forall|i: int| 0 <= i < e.len() implies s.contains(#[trigger] e[i]) by {
            let k = choose|k: int| 0 <= k < p.len() && p[k] == e[i];
            assert(s[k] == p[k]);
        }
        if s.last().message@ == s[s.len() - 2].message@ {
            assert(d == e);
        } else {
            assert(d == e.push(s.last()));
            assert forall|i: int| 0 <= i < d.len() implies s.contains(#[trigger] d[i]) by {
                if i < e.len() {
                    assert(d[i] == e[i]);
                } else {
                    assert(d[i] == s[s.len() - 1]);
                }
            }
            assert forall|i: int, j: int| 0 <= i < j < d.len() implies !event_before(d[j], d[i]) by {
                assert(d[i] == e[i]);
                if j < e.len() {
                    assert(d[j] == e[j]);
                } else {
                    assert(s.contains(e[i]));
                    let k = choose|k: int| 0 <= k < p.len() && p[k] == e[i];
                    assert(s[k] == p[k]);
                    assert(d[j] == s[s.len() - 1]);
                }
            }
            assert forall|i: int| 0 <= i < d.len() - 1 implies (#[trigger] d[i]).message@ != d[i + 1].message@ by {
                assert(d[i] == e[i]);
                if i + 1 < e.len() {
                    assert(d[i + 1] == e[i + 1]);
                } else {
                    assert(d[i + 1] == s.last());
                }
            }
        }
    }
}

/// The overview lists only events that the runs reported, newest first (by
/// message among events of the same instant), never lists an event next to
/// one with the same message, and lists at most `EVENTS_LIMIT` of them.
pub proof fn law_events_newest_first(all: Seq<RlEvent>)
    ensures
        forall|i: int| 0 <= i < merged_events(all).len() ==> all.contains(#[trigger] merged_events(all)[i]),
        events_ordered(merged_events(all)),
        forall|i: int|
            0 <= i < merged_events(all).len() - 1 ==> (#[trigger] merged_events(all)[i]).message@
                != merged_events(all)[i + 1].message@,
        merged_events(all).len() <= EVENTS_LIMIT,
{
    lemma_event_order_ordered(all);
    lemma_dedup_messages(event_order(all));
    let d = dedup_messages(event_order(all));
    let m = merged_events(all);
    assert forall|i: int| 0 <= i < m.len() implies all.contains(#[trigger] m[i]) by {
        assert(m[i] == d[i]);
        assert(event_order(all).contains(d[i]));
        let j = choose|j: int| 0 <= j < event_order(all).len() && event_order(all)[j] == d[i];
        assert(all.contains(event_order(all)[j]));
    }
    if d.len() > EVENTS_LIMIT {
        assert forall|i: int, j: int| 0 <= i < j < m.len() implies !event_before(m[j], m[i]) by {
            assert(m[i] == d[i]);
            assert(m[j] == d[j]);
        }
        assert forall|i: int| 0 <= i < m.len() - 1 implies (#[trigger] m[i]).message@ != m[i + 1].message@ by {
            assert(m[i] == d[i]);
            assert(m[i + 1] == d[i + 1]);
        }
    }
}

/// The ids are known, non-empty, and none is listed twice.
pub open spec fn skills_sound(ids: Seq<Seq<char>>, known: Seq<Seq<char>>) -> bool {
    &&& ids.no_duplicates()
    &&& forall|i: int| 0 <= i < ids.len() ==> known.contains(#[trigger] ids[i]) && ids[i].len() > 0
}

proof fn lemma_skills_sound(t: Seq<char>, known: Seq<Seq<char>>, acc: Seq<Seq<char>>)
    requires
        skills_sound(acc, known),
    ensures
        skills_sound(skill_ids_from(t, known, acc), known),
    decreases t.len(),
{
    if t.len() > 0 {
        let n = line_len(t);
        let id = skill_in_line(t.take(n as int));
        let next = add_skill(acc, id, known);
        if id.len() > 0 && known.contains(id) && !acc.contains(id) {
            assert(next == acc.push(id));
            assert forall|i: int, j: int| 0 <= i < next.len() && 0 <= j < next.len() && i != j implies next[i]
                != next[j] by {
                if i < acc.len() && j < acc.len() {
                    assert(next[i] == acc[i]);
                    assert(next[j] == acc[j]);
                } else if i < acc.len() {
                    assert(next[i] == acc[i]);
                    assert(next[j] == id);
                } else {
                    assert(next[j] == acc[j]);
                    assert(next[i] == id);
                }
            }
            assert forall|i: int| 0 <= i < next.len() implies known.contains(#[trigger] next[i]) && next[i].len() > 0 by {
                if i < acc.len() {
                    assert(next[i] == acc[i]);
                }
            }
        }
        if n < t.len() {
            lemma_skills_sound(t.skip(n + 1int), known, next);
        }
    }
}

/// The skills an assistant message suggests are skills that can be loaded,
/// each suggested once.
pub proof fn law_suggested_skills_are_known_and_distinct(text: Seq<char>, known: Seq<Seq<char>>)
    ensures
        skills_sound(skill_ids_from(text, known, Seq::empty()), known),
{
    lemma_skills_sound(text, known, Seq::empty());
}

proof fn lemma_listed_color_at(colors: Seq<(String, &'static str)>, x: Seq<char>, k: int)
    requires
        0 <= k < colors.len(),
        colors[k].0@ == x,
        forall|j: int| 0 <= j < k ==> (#[trigger] colors[j]).0@ != x,
    ensures
        listed_color(colors, x) == colors[k].1@,
    decreases k,
{
    if k > 0 {
        let rest = colors.drop_first();
        assert forall|j: int| 0 <= j < k - 1 implies (#[trigger] rest[j]).0@ != x by {
            assert(rest[j] == colors[j + 1]);
        }
        lemma_listed_color_at(rest, x, k - 1);
    }
}

/// With the colours that the legend gives the engines of a history, every
/// line of a metric's chart is drawn in its engine's legend colour, never in
/// the fallback grey.
pub proof fn law_chart_lines_keep_legend_colours(
    keys: Seq<(String, String)>,
    colors: Seq<(String, &'static str)>,
    metric: Seq<char>,
    engine: Seq<char>,
)
    requires
        lines_sorted(colors),
        forall|k: int| 0 <= k < colors.len() ==> (#[trigger] colors[k]).1@ == palette_color(k),
        forall|x: Seq<char>| #[trigger] line_listed(colors, x) <==> key_names(keys, None, x),
        key_names(keys, Some(metric), engine),
    ensures
        exists|k: int|
            0 <= k < colors.len() && (#[trigger] colors[k]).0@ == engine && listed_color(colors, engine)
                == palette_color(k),
{
    let j = choose|j: int|
        0 <= j < keys.len() && (#[trigger] keys[j]).1@ == engine && (Some(metric) matches Some(m)
            ==> keys[j].0@ == m);
    assert(key_names(keys, None, engine));
    assert(line_listed(colors, engine));
    let k = choose|k: int| 0 <= k < colors.len() && (#[trigger] colors[k]).0@ == engine;
    assert forall|i: int| 0 <= i < k implies (#[trigger] colors[i]).0@ != engine by {
        lemma_text_less_irreflexive(engine);
        assert(text_less(colors[i].0@, colors[k].0@));
    }
    lemma_listed_color_at(colors, engine, k);
}

/// No registry row of the list sorts before a row listed ahead of it.
pub open spec fn rows_ordered(s: Seq<Node>) -> bool {
    forall|i: int, j: int| 0 <= i < j < s.len() ==> !node_before(s[j], s[i])
}

proof fn lemma_node_before_order(a: Node, b: Node, c: Node)
    ensures
        !node_before(a, a),
        node_before(a, b) && node_before(b, c) ==> node_before(a, c),
{
    lemma_text_less_irreflexive(a.host@);
    if node_before(a, b) && node_before(b, c) && rank_key(a) == rank_key(b) && rank_key(b)
        == rank_key(c) {
        if text_less(a.host@, b.host@) && text_less(b.host@, c.host@) {
            lemma_text_less_transitive(a.host@, b.host@, c.host@);
        }
    }
}

proof fn lemma_insert_node_ordered(s: Seq<Node>, x: Node)
    requires
        rows_ordered(s),
    ensures
        rows_ordered(insert_node(s, x)),
        forall|i: int|
            0 <= i < insert_node(s, x).len() ==> (insert_node(s, x)[i] == x || s.contains(
                #[trigger] insert_node(s, x)[i],
            )),
    decreases s.len(),
{
    let t = insert_node(s, x);
    if s.len() == 0 {
    } else if node_before(x, s[0]) {
        assert(t =~= seq![x] + s);
        assert forall|i: int| 0 <= i < t.len() implies (t[i] == x || s.contains(#[trigger] t[i])) by {
            if i > 0 {
                assert(t[i] == s[i - 1]);
            }
        }
        assert forall|i: int, j: int| 0 <= i < j < t.len() implies !node_before(t[j], t[i]) by {
            assert(t[j] == s[j - 1]);
            if i == 0 {
                lemma_node_before_order(s[j - 1], x, s[0]);
                lemma_node_before_order(s[0], s[0], s[0]);
            } else {
                assert(t[i] == s[i - 1]);
            }
        }
    } else {
        let rest = s.drop_first();
        assert(rows_ordered(rest)) by {
            assert forall|i: int, j: int| 0 <= i < j < rest.len() implies !node_before(rest[j], rest[i]) by {
                assert(rest[i] == s[i + 1]);
                assert(rest[j] == s[j + 1]);
            }
        }
        lemma_insert_node_ordered(rest, x);
        let u = insert_node(rest, x);
        assert(t =~= seq![s[0]] + u);
        assert forall|i: int| 0 <= i < t.len() implies (t[i] == x || s.contains(#[trigger] t[i])) by {
            if i == 0 {
                assert(s[0] == t[0]);
            } else {
                assert(t[i] == u[i - 1]);
                if u[i - 1] != x {
                    let k = choose|k: int| 0 <= k < rest.len() && rest[k] == u[i - 1];
                    assert(s[k + 1] == rest[k]);
                }
            }
        }
        assert forall|i: int, j: int| 0 <= i < j < t.len() implies !node_before(t[j], t[i]) by {
            assert(t[j] == u[j - 1]);
            if i == 0 {
                if u[j - 1] != x {
                    assert(u.contains(u[j - 1]));
                    let k = choose|k: int| 0 <= k < rest.len() && rest[k] == u[j - 1];
                    assert(s[k + 1] == rest[k]);
                }
            } else {
                assert(t[i] == u[i - 1]);
            }
        }
    }
}

proof fn lemma_node_order_ordered(s: Seq<Node>)
    ensures
        rows_ordered(node_order(s)),
    decreases s.len(),
{
    if s.len() > 0 {
        lemma_node_order_ordered(s.drop_last());
        lemma_insert_node_ordered(node_order(s.drop_last()), s.last());
    }
}

proof fn lemma_kept_rows_ordered(s: Seq<Node>, c: InvestigationContext, q: Seq<char>, pinned: bool)
    requires
        rows_ordered(s),
    ensures
        rows_ordered(kept_rows(s, c, q, pinned)),
        forall|i: int| 0 <= i < kept_rows(s, c, q, pinned).len() ==> s.contains(#[trigger] kept_rows(s, c, q, pinned)[i]),
    decreases s.len(),
{
    if s.len() > 0 {
        let p = s.drop_last();
        assert(rows_ordered(p)) by {
            assert forall|i: int, j: int| 0 <= i < j < p.len() implies !node_before(p[j], p[i]) by {
                assert(p[i] == s[i]);
                assert(p[j] == s[j]);
            }
        }
        lemma_kept_rows_ordered(p, c, q, pinned);
        let e = kept_rows(p, c, q, pinned);
        let d = kept_rows(s, c, q, pinned);
        assert forall|i: int| 0 <= i < e.len() implies s.contains(#[trigger] e[i]) by {
            let k = choose|k: int| 0 <= k < p.len() && p[k] == e[i];
            assert(s[k] == p[k]);
        }
        if d != e {
            assert(d == e.push(s.last()));
            assert forall|i: int| 0 <= i < d.len() implies s.contains(#[trigger] d[i]) by {
                if i < e.len() {
                    assert(d[i] == e[i]);
                } else {
                    assert(d[i] == s[s.len() - 1]);
                }
            }
            assert forall|i: int, j: int| 0 <= i < j < d.len() implies !node_before(d[j], d[i]) by {
                assert(d[i] == e[i]);
                if j < e.len() {
                    assert(d[j] == e[j]);
                } else {
                    assert(s.contains(e[i]));
                    let k = choose|k: int| 0 <= k < p.len() && p[k] == e[i];
                    assert(s[k] == p[k]);
                    assert(d[j] == s[s.len() - 1]);
                }
            }
        }
    }
}

/// The registry table lists its rows in rank order, unranked rows last,
/// then by host and GPU index, whatever the search and the pin keep.
pub proof fn law_registry_rows_in_rank_order(
    nodes: Seq<Node>,
    c: InvestigationContext,
    q: Seq<char>,
    pinned: bool,
)
    ensures
        rows_ordered(kept_rows(node_order(nodes), c, q, pinned)),
{
    lemma_node_order_ordered(nodes);
    lemma_kept_rows_ordered(node_order(nodes), c, q, pinned);
}

/// A text that holds `mid` holds whatever `mid` holds.
proof fn lemma_contains_transitive(hay: Seq<char>, mid: Seq<char>, small: Seq<char>)
    requires
        contains_seq(hay, mid),
        contains_seq(mid, small),
    ensures
        contains_seq(hay, small),
{
    let i = choose|i: int|
        0 <= i && i + mid.len() <= hay.len() && #[trigger] hay.subrange(i, i + mid.len()) == mid;
    let j = choose|j: int|
        0 <= j && j + small.len() <= mid.len() && #[trigger] mid.subrange(j, j + small.len()) == small;
    assert forall|k: int| 0 <= k < small.len() implies hay.subrange(i + j, i + j + small.len())[k] == small[k] by {
        assert(small[k] == mid.subrange(j, j + small.len())[k]);
        assert(mid[j + k] == hay.subrange(i, i + mid.len())[j + k]);
    }
    assert(hay.subrange(i + j, i + j + small.len()) =~= small);
}

/// Narrowing the explore page's search never lists a workspace that the
/// wider search left out: when the narrower text holds the wider one, every
/// workspace it finds, the wider search finds too.
pub proof fn law_narrower_search_finds_no_more(routes: Seq<NextRoute>, wide: Seq<char>, narrow: Seq<char>)
    requires
        contains_seq(narrow, wide),
    ensures
        forall|k: int|
            0 <= k < catalog_hits(routes, narrow).len() ==> catalog_hits(routes, wide).contains(
                #[trigger] catalog_hits(routes, narrow)[k],
            ),
    decreases routes.len(),
{
    if routes.len() > 0 {
        let p = routes.drop_last();
        law_narrower_search_finds_no_more(p, wide, narrow);
        let spec = page_spec_of(page_of(routes.last()));
        let hn = catalog_hits(routes, narrow);
        let hw = catalog_hits(routes, wide);
        let pn = catalog_hits(p, narrow);
        let pw = catalog_hits(p, wide);
        if catalog_match(spec, narrow) {
            if narrow.len() == 0 {
                assert(wide.len() == 0) by {
                    let i = choose|i: int|
                        0 <= i && i + wide.len() <= narrow.len() && #[trigger] narrow.subrange(i, i + wide.len()) == wide;
                }
            } else {
                lemma_contains_transitive(lower_seq(catalog_text(spec)), narrow, wide);
            }
            assert(catalog_match(spec, wide));
        }
        assert forall|k: int| 0 <= k < hn.len() implies hw.contains(#[trigger] hn[k]) by {
            if k < pn.len() {
                assert(hn[k] == pn[k]);
                assert(pw.contains(pn[k]));
                let m = choose|m: int| 0 <= m < pw.len() && pw[m] == pn[k];
                assert(hw[m] == pw[m]);
            } else {
                assert(hn[k] == spec);
                assert(hw[hw.len() - 1] == spec);
            }
        }
    }
}

/// An empty search lists every workspace of the catalog, in catalog order.
pub proof fn law_empty_search_lists_every_workspace(routes: Seq<NextRoute>)
    ensures
        catalog_hits(routes, Seq::empty()).len() == routes.len(),
        forall|k: int|
            0 <= k < routes.len() ==> #[trigger] catalog_hits(routes, Seq::empty())[k] == page_spec_of(
                page_of(routes[k]),
            ),
    decreases routes.len(),
{
    if routes.len() > 0 {
        let p = routes.drop_last();
        law_empty_search_lists_every_workspace(p);
        let h = catalog_hits(routes, Seq::empty());
        assert forall|k: int| 0 <= k < routes.len() implies #[trigger] h[k] == page_spec_of(page_of(routes[k])) by {
            if k < p.len() {
                assert(routes[k] == p[k]);
            }
        }
    }
}


/// Durations never grow along the sequence.
pub open spec fn durations_non_increasing(s: Seq<(i32, i64)>) -> bool {
    forall|i: int, j: int| 0 <= i < j < s.len() ==> s[i].1 >= s[j].1
}

/// No rank appears twice.
pub open spec fn ranks_distinct(s: Seq<(i32, i64)>) -> bool {
    forall|i: int, j: int| 0 <= i < j < s.len() ==> s[i].0 != s[j].0
}

proof fn lemma_insert_slower_at(s: Seq<(i32, i64)>, x: (i32, i64)) -> (p: int)
    ensures
        0 <= p <= s.len(),
        insert_slower(s, x) == s.insert(p, x),
        durations_non_increasing(s) ==> durations_non_increasing(insert_slower(s, x)),
    decreases s.len(),
{
    if s.len() == 0 {
        assert(s.insert(0, x) =~= seq![x]);
        0
    } else if x.1 > s[0].1 {
        assert(s.insert(0, x) =~= seq![x] + s);
        let t = insert_slower(s, x);
        if durations_non_increasing(s) {
            assert forall|i: int, j: int| 0 <= i < j < t.len() implies t[i].1 >= t[j].1 by {
                if i > 0 {
                    assert(t[i] == s[i - 1]);
                }
                assert(t[j] == s[j - 1]);
            }
        }
        0
    } else {
        let rest = s.drop_first();
        let q = lemma_insert_slower_at(rest, x);
        let t = insert_slower(s, x);
        assert(t == seq![s[0]] + rest.insert(q, x));
        assert(s.insert(q + 1, x) =~= seq![s[0]] + rest.insert(q, x));
        if durations_non_increasing(s) {
            assert(durations_non_increasing(rest)) by {
                assert forall|i: int, j: int| 0 <= i < j < rest.len() implies rest[i].1 >= rest[j].1 by {
                    assert(rest[i] == s[i + 1]);
                    assert(rest[j] == s[j + 1]);
                }
            }
            assert forall|i: int, j: int| 0 <= i < j < t.len() implies t[i].1 >= t[j].1 by {
                let u = insert_slower(rest, x);
                assert(t[j] == u[j - 1]);
                if i > 0 {
                    assert(t[i] == u[i - 1]);
                } else {
                    assert(t[0] == s[0]);
                    let k = j - 1;
                    if k < q {
                        assert(u[k] == rest[k]);
                        assert(rest[k] == s[k + 1]);
                    } else if k > q {
                        assert(u[k] == rest[k - 1]);
                        assert(rest[k - 1] == s[k]);
                    } else {
                        assert(u[k] == x);
                    }
                }
            }
        }
        q + 1
    }
}

proof fn lemma_slowest_first(s: Seq<(i32, i64)>)
    ensures
        slowest_first(s).len() == s.len(),
        durations_non_increasing(slowest_first(s)),
        forall|y: (i32, i64)| slowest_first(s).contains(y) <==> s.contains(y),
        ranks_distinct(s) ==> ranks_distinct(slowest_first(s)),
    decreases s.len(),
{
    if s.len() > 0 {
        let d = s.drop_last();
        let x = s.last();
        lemma_slowest_first(d);
        let t = slowest_first(d);
        let p = lemma_insert_slower_at(t, x);
        let r = slowest_first(s);
        assert(r == t.insert(p, x));
        assert forall|y: (i32, i64)| r.contains(y) <==> s.contains(y) by {
            if r.contains(y) {
                let k = choose|k: int| 0 <= k < r.len() && r[k] == y;
                if k < p {
                    assert(t[k] == y);
                    assert(d.contains(y));
                    let m = choose|m: int| 0 <= m < d.len() && d[m] == y;
                    assert(s[m] == y);
                } else if k > p {
                    assert(t[k - 1] == y);
                    assert(d.contains(y));
                    let m = choose|m: int| 0 <= m < d.len() && d[m] == y;
                    assert(s[m] == y);
                } else {
                    assert(s[s.len() - 1] == y);
                }
            }
            if s.contains(y) {
                let k = choose|k: int| 0 <= k < s.len() && s[k] == y;
                if k < d.len() {
                    assert(d[k] == y);
                    assert(d.contains(y));
                    assert(slowest_first(d).contains(y) <==> d.contains(y));
                    assert(t.contains(y));
                    let m = choose|m: int| 0 <= m < t.len() && t[m] == y;
                    if m < p {
                        assert(r[m] == y);
                    } else {
                        assert(r[m + 1] == y);
                    }
                } else {
                    assert(r[p] == y);
                }
            }
        }
        if ranks_distinct(s) {
            assert(ranks_distinct(d)) by {
                assert forall|i: int, j: int| 0 <= i < j < d.len() implies d[i].0 != d[j].0 by {
                    assert(d[i] == s[i]);
                    assert(d[j] == s[j]);
                }
            }
            assert forall|m: int| 0 <= m < t.len() implies t[m].0 != x.0 by {
                assert(t.contains(t[m]));
                assert(d.contains(t[m]));
                let k = choose|k: int| 0 <= k < d.len() && d[k] == t[m];
                assert(s[k] == d[k]);
                assert(s[s.len() - 1] == x);
            }
            assert forall|i: int, j: int| 0 <= i < j < r.len() implies r[i].0 != r[j].0 by {
                if i < p {
                    assert(r[i] == t[i]);
                    if j < p {
                        assert(r[j] == t[j]);
                    } else if j > p {
                        assert(r[j] == t[j - 1]);
                    }
                } else if i == p {
                    assert(r[j] == t[j - 1]);
                } else {
                    assert(r[i] == t[i - 1]);
                    assert(r[j] == t[j - 1]);
                }
            }
        }
    } else {
        assert(slowest_first(s) =~= s);
    }
}

/// Steps strictly increase along the sequence.
pub open spec fn steps_increasing(l: Seq<i64>) -> bool {
    forall|i: int, j: int| 0 <= i < j < l.len() ==> l[i] < l[j]
}

proof fn lemma_insert_step_increasing(l: Seq<i64>, c: i64)
    requires
        steps_increasing(l),
    ensures
        steps_increasing(insert_step(l, c)),
    decreases l.len(),
{
    if l.len() == 0 {
    } else if c < l[0] {
        let t = insert_step(l, c);
        assert(t == seq![c] + l);
        assert forall|i: int, j: int| 0 <= i < j < t.len() implies t[i] < t[j] by {
            if i > 0 {
                assert(t[i] == l[i - 1]);
            }
            assert(t[j] == l[j - 1]);
        }
    } else if c == l[0] {
    } else {
        let rest = l.drop_first();
        assert(steps_increasing(rest)) by {
            assert forall|i: int, j: int| 0 <= i < j < rest.len() implies rest[i] < rest[j] by {
                assert(rest[i] == l[i + 1]);
                assert(rest[j] == l[j + 1]);
            }
        }
        lemma_insert_step_increasing(rest, c);
        let u = insert_step(rest, c);
        let t = insert_step(l, c);
        assert(t == seq![l[0]] + u);
        assert forall|i: int, j: int| 0 <= i < j < t.len() implies t[i] < t[j] by {
            assert(t[j] == u[j - 1]);
            if i > 0 {
                assert(t[i] == u[i - 1]);
            } else {
                crate::health::lemma_insert_step_contains(rest, c, u[j - 1]);
                assert(u.contains(u[j - 1]));
                if rest.contains(u[j - 1]) {
                    let k = choose|k: int| 0 <= k < rest.len() && rest[k] == u[j - 1];
                    assert(rest[k] == l[k + 1]);
                }
            }
        }
    }
}

proof fn lemma_step_list_increasing(s: Seq<StepDurationSample>)
    ensures
        steps_increasing(step_list(s)),
    decreases s.len(),
{
    if s.len() > 0 {
        lemma_step_list_increasing(s.drop_last());
        if crate::health::trend_sample(s.last()) {
            lemma_insert_step_increasing(step_list(s.drop_last()), coordinate_of(s.last()));
        }
    }
}

/// The step health of a set of samples: it has a latest step exactly when
/// there are samples; it observes each rank of the samples once; its rank
/// durations hold one pair per observed rank (the duration of the sample
/// that rank keeps), the slowest first; and its trend holds at most forty
/// steps, in strictly increasing order.
pub proof fn law_step_health_shape(samples: Seq<StepDurationSample>)
    ensures
        (max_step(samples) is None) <==> samples.len() == 0,
        rank_order(samples).no_duplicates(),
        forall|r: i32| rank_order(samples).contains(r) <==> exists|k: int|
            0 <= k < samples.len() && (#[trigger] samples[k]).rank == r,
        slowest_first(latest_pairs(samples)).len() == rank_order(samples).len(),
        durations_non_increasing(slowest_first(latest_pairs(samples))),
        ranks_distinct(slowest_first(latest_pairs(samples))),
        forall|p: (i32, i64)| #[trigger] slowest_first(latest_pairs(samples)).contains(p) <==> (
            rank_order(samples).contains(p.0) && p.1 == latest_of(samples, p.0).duration_ms),
        recent_trend(samples).len() <= 40,
        forall|i: int, j: int| 0 <= i < j < recent_trend(samples).len()
            ==> recent_trend(samples)[i].step < recent_trend(samples)[j].step,
{
    lemma_rank_order_unique(samples);
    let ro = rank_order(samples);
    let lp = latest_pairs(samples);
    assert(ranks_distinct(lp)) by {
        assert forall|i: int, j: int| 0 <= i < j < lp.len() implies lp[i].0 != lp[j].0 by {
            assert(lp[i].0 == ro[i]);
            assert(lp[j].0 == ro[j]);
        }
    }
    lemma_slowest_first(lp);
    assert forall|p: (i32, i64)| #[trigger] slowest_first(lp).contains(p) <==> (ro.contains(p.0)
        && p.1 == latest_of(samples, p.0).duration_ms) by {
        if lp.contains(p) {
            let k = choose|k: int| 0 <= k < lp.len() && lp[k] == p;
            assert(ro[k] == p.0);
        }
        if ro.contains(p.0) && p.1 == latest_of(samples, p.0).duration_ms {
            let k = choose|k: int| 0 <= k < ro.len() && ro[k] == p.0;
            assert(lp[k] == p);
        }
    }
    lemma_step_list_increasing(samples);
    let full = full_trend(samples);
    let l = step_list(samples);
    assert forall|i: int| 0 <= i < full.len() implies (#[trigger] full[i]).step == l[i] by {
        assert(full[i] == trend_point(samples, l[i]));
    }
    let t = recent_trend(samples);
    assert forall|i: int, j: int| 0 <= i < j < t.len() implies t[i].step < t[j].step by {
        if full.len() > 40 {
            let off = full.len() - 40;
            assert(t[i] == full[i + off]);
            assert(t[j] == full[j + off]);
            assert(full[i + off].step == l[i + off]);
            assert(full[j + off].step == l[j + off]);
        } else {
            assert(full[i].step == l[i]);
            assert(full[j].step == l[j]);
        }
    }
}

/// The page whose catalog id is `s`, if any.
pub open spec fn page_with_id(s: Seq<char>) -> Option<Page> {
    if s == "dashboard"@ {
        Some(Page::Dashboard)
    } else if s == "investigate"@ {
        Some(Page::Investigate)
    } else if s == "training"@ {
        Some(Page::Training)
    } else if s == "rl-rollout"@ {
        Some(Page::Rollout)
    } else if s == "rl-train"@ {
        Some(Page::RlTrain)
    } else if s == "rl-spans"@ {
        Some(Page::RlSpans)
    } else if s == "process-timeline"@ {
        Some(Page::ProcessTimeline)
    } else if s == "perfetto"@ {
        Some(Page::Perfetto)
    } else if s == "inference"@ {
        Some(Page::Inference)
    } else if s == "cluster-overview"@ {
        Some(Page::ClusterOverview)
    } else if s == "cluster-nodes"@ {
        Some(Page::ClusterNodes)
    } else if s == "distributed-status"@ {
        Some(Page::DistributedStatus)
    } else if s == "stacks"@ {
        Some(Page::Stacks)
    } else if s == "spans"@ {
        Some(Page::Spans)
    } else if s == "memory"@ {
        Some(Page::Memory)
    } else if s == "profiles"@ {
        Some(Page::Profiles)
    } else if s == "analytics"@ {
        Some(Page::Analytics)
    } else if s == "python"@ {
        Some(Page::Python)
    } else if s == "pulsing"@ {
        Some(Page::Pulsing)
    } else if s == "system"@ {
        Some(Page::System)
    } else if s == "explore"@ {
        Some(Page::Explore)
    } else {
        None
    }
}

/// The page whose canonical path is `s`, if any.
pub open spec fn page_at_path(s: Seq<char>) -> Option<Page> {
    if s == "/"@ {
        Some(Page::Dashboard)
    } else if s == "/agent"@ {
        Some(Page::Investigate)
    } else if s == "/training"@ {
        Some(Page::Training)
    } else if s == "/rl"@ {
        Some(Page::Rollout)
    } else if s == "/rl/train"@ {
        Some(Page::RlTrain)
    } else if s == "/rl/spans"@ {
        Some(Page::RlSpans)
    } else if s == "/rl/process-timeline"@ {
        Some(Page::ProcessTimeline)
    } else if s == "/rl/perfetto"@ {
        Some(Page::Perfetto)
    } else if s == "/rl/inference"@ {
        Some(Page::Inference)
    } else if s == "/distributed"@ {
        Some(Page::ClusterOverview)
    } else if s == "/cluster"@ {
        Some(Page::ClusterNodes)
    } else if s == "/cluster/status"@ {
        Some(Page::DistributedStatus)
    } else if s == "/stacks"@ {
        Some(Page::Stacks)
    } else if s == "/spans"@ {
        Some(Page::Spans)
    } else if s == "/memory"@ {
        Some(Page::Memory)
    } else if s == "/profiles"@ {
        Some(Page::Profiles)
    } else if s == "/analytics"@ {
        Some(Page::Analytics)
    } else if s == "/python"@ {
        Some(Page::Python)
    } else if s == "/pulsing"@ {
        Some(Page::Pulsing)
    } else if s == "/system"@ {
        Some(Page::System)
    } else if s == "/explore"@ {
        Some(Page::Explore)
    } else {
        None
    }
}

/// Each page's id and canonical path lead back to that page.
proof fn lemma_page_keys_decode(p: Page)
    ensures
        page_with_id(page_spec_of(p).id@) == Some(p),
        page_at_path(page_spec_of(p).canonical_path@) == Some(p),
{
    reveal_strlit("dashboard");
    reveal_strlit("/");
    reveal_strlit("investigate");
    reveal_strlit("/agent");
    reveal_strlit("training");
    reveal_strlit("/training");
    reveal_strlit("rl-rollout");
    reveal_strlit("/rl");
    reveal_strlit("rl-train");
    reveal_strlit("/rl/train");
    reveal_strlit("rl-spans");
    reveal_strlit("/rl/spans");
    reveal_strlit("process-timeline");
    reveal_strlit("/rl/process-timeline");
    reveal_strlit("perfetto");
    reveal_strlit("/rl/perfetto");
    reveal_strlit("inference");
    reveal_strlit("/rl/inference");
    reveal_strlit("cluster-overview");
    reveal_strlit("/distributed");
    reveal_strlit("cluster-nodes");
    reveal_strlit("/cluster");
    reveal_strlit("distributed-status");
    reveal_strlit("/cluster/status");
    reveal_strlit("stacks");
    reveal_strlit("/stacks");
    reveal_strlit("spans");
    reveal_strlit("/spans");
    reveal_strlit("memory");
    reveal_strlit("/memory");
    reveal_strlit("profiles");
    reveal_strlit("/profiles");
    reveal_strlit("analytics");
    reveal_strlit("/analytics");
    reveal_strlit("python");
    reveal_strlit("/python");
    reveal_strlit("pulsing");
    reveal_strlit("/pulsing");
    reveal_strlit("system");
    reveal_strlit("/system");
    reveal_strlit("explore");
    reveal_strlit("/explore");
    match p {
        Page::Dashboard => {
            assert(page_spec_of(p).id@ == "dashboard"@);
            assert(page_spec_of(p).canonical_path@ == "/"@);
        },
        Page::Investigate => {
            assert(page_spec_of(p).id@ == "investigate"@);
            assert(page_spec_of(p).canonical_path@ == "/agent"@);
            assert("investigate"@.len() != "dashboard"@.len());
            assert("/agent"@.len() != "/"@.len());
        },
        Page::Training => {
            assert(page_spec_of(p).id@ == "training"@);
            assert(page_spec_of(p).canonical_path@ == "/training"@);
            assert("training"@.len() != "dashboard"@.len());
            assert("/training"@.len() != "/"@.len());
            assert("training"@.len() != "investigate"@.len());
            assert("/training"@.len() != "/agent"@.len());
        },
        Page::Rollout => {
            assert(page_spec_of(p).id@ == "rl-rollout"@);
            assert(page_spec_of(p).canonical_path@ == "/rl"@);
            assert("rl-rollout"@.len() != "dashboard"@.len());
            assert("/rl"@.len() != "/"@.len());
            assert("rl-rollout"@.len() != "investigate"@.len());
            assert("/rl"@.len() != "/agent"@.len());
            assert("rl-rollout"@.len() != "training"@.len());
            assert("/rl"@.len() != "/training"@.len());
        },
        Page::RlTrain => {
            assert(page_spec_of(p).id@ == "rl-train"@);
            assert(page_spec_of(p).canonical_path@ == "/rl/train"@);
            assert("rl-train"@.len() != "dashboard"@.len());
            assert("/rl/train"@.len() != "/"@.len());
            assert("rl-train"@.len() != "investigate"@.len());
            assert("/rl/train"@.len() != "/agent"@.len());
            assert("rl-train"@[0] != "training"@[0]);
            assert("/rl/train"@[1] != "/training"@[1]);
            assert("rl-train"@.len() != "rl-rollout"@.len());
            assert("/rl/train"@.len() != "/rl"@.len());
        },
        Page::RlSpans => {
            assert(page_spec_of(p).id@ == "rl-spans"@);
            assert(page_spec_of(p).canonical_path@ == "/rl/spans"@);
            assert("rl-spans"@.len() != "dashboard"@.len());
            assert("/rl/spans"@.len() != "/"@.len());
            assert("rl-spans"@.len() != "investigate"@.len());
            assert("/rl/spans"@.len() != "/agent"@.len());
            assert("rl-spans"@[0] != "training"@[0]);
            assert("/rl/spans"@[1] != "/training"@[1]);
            assert("rl-spans"@.len() != "rl-rollout"@.len());
            assert("/rl/spans"@.len() != "/rl"@.len());
            assert("rl-spans"@[3] != "rl-train"@[3]);
            assert("/rl/spans"@[4] != "/rl/train"@[4]);
        },
        Page::ProcessTimeline => {
            assert(page_spec_of(p).id@ == "process-timeline"@);
            assert(page_spec_of(p).canonical_path@ == "/rl/process-timeline"@);
            assert("process-timeline"@.len() != "dashboard"@.len());
            assert("/rl/process-timeline"@.len() != "/"@.len());
            assert("process-timeline"@.len() != "investigate"@.len());
            assert("/rl/process-timeline"@.len() != "/agent"@.len());
            assert("process-timeline"@.len() != "training"@.len());
            assert("/rl/process-timeline"@.len() != "/training"@.len());
            assert("process-timeline"@.len() != "rl-rollout"@.len());
            assert("/rl/process-timeline"@.len() != "/rl"@.len());
            assert("process-timeline"@.len() != "rl-train"@.len());
            assert("/rl/process-timeline"@.len() != "/rl/train"@.len());
            assert("process-timeline"@.len() != "rl-spans"@.len());
            assert("/rl/process-timeline"@.len() != "/rl/spans"@.len());
        },
        Page::Perfetto => {
            assert(page_spec_of(p).id@ == "perfetto"@);
            assert(page_spec_of(p).canonical_path@ == "/rl/perfetto"@);
            assert("perfetto"@.len() != "dashboard"@.len());
            assert("/rl/perfetto"@.len() != "/"@.len());
            assert("perfetto"@.len() != "investigate"@.len());
            assert("/rl/perfetto"@.len() != "/agent"@.len());
            assert("perfetto"@[0] != "training"@[0]);
            assert("/rl/perfetto"@.len() != "/training"@.len());
            assert("perfetto"@.len() != "rl-rollout"@.len());
            assert("/rl/perfetto"@.len() != "/rl"@.len());
            assert("perfetto"@[0] != "rl-train"@[0]);
            assert("/rl/perfetto"@.len() != "/rl/train"@.len());
            assert("perfetto"@[0] != "rl-spans"@[0]);
            assert("/rl/perfetto"@.len() != "/rl/spans"@.len());
            assert("perfetto"@.len() != "process-timeline"@.len());
            assert("/rl/perfetto"@.len() != "/rl/process-timeline"@.len());
        },
        Page::Inference => {
            assert(page_spec_of(p).id@ == "inference"@);
            assert(page_spec_of(p).canonical_path@ == "/rl/inference"@);
            assert("inference"@[0] != "dashboard"@[0]);
            assert("/rl/inference"@.len() != "/"@.len());
            assert("inference"@.len() != "investigate"@.len());
            assert("/rl/inference"@.len() != "/agent"@.len());
            assert("inference"@.len() != "training"@.len());
            assert("/rl/inference"@.len() != "/training"@.len());
            assert("inference"@.len() != "rl-rollout"@.len());
            assert("/rl/inference"@.len() != "/rl"@.len());
            assert("inference"@.len() != "rl-train"@.len());
            assert("/rl/inference"@.len() != "/rl/train"@.len());
            assert("inference"@.len() != "rl-spans"@.len());
            assert("/rl/inference"@.len() != "/rl/spans"@.len());
            assert("inference"@.len() != "process-timeline"@.len());
            assert("/rl/inference"@.len() != "/rl/process-timeline"@.len());
            assert("inference"@.len() != "perfetto"@.len());
            assert("/rl/inference"@.len() != "/rl/perfetto"@.len());
        },
        Page::ClusterOverview => {
            assert(page_spec_of(p).id@ == "cluster-overview"@);
            assert(page_spec_of(p).canonical_path@ == "/distributed"@);
            assert("cluster-overview"@.len() != "dashboard"@.len());
            assert("/distributed"@.len() != "/"@.len());
            assert("cluster-overview"@.len() != "investigate"@.len());
            assert("/distributed"@.len() != "/agent"@.len());
            assert("cluster-overview"@.len() != "training"@.len());
            assert("/distributed"@.len() != "/training"@.len());
            assert("cluster-overview"@.len() != "rl-rollout"@.len());
            assert("/distributed"@.len() != "/rl"@.len());
            assert("cluster-overview"@.len() != "rl-train"@.len());
            assert("/distributed"@.len() != "/rl/train"@.len());
            assert("cluster-overview"@.len() != "rl-spans"@.len());
            assert("/distributed"@.len() != "/rl/spans"@.len());
            assert("cluster-overview"@[0] != "process-timeline"@[0]);
            assert("/distributed"@.len() != "/rl/process-timeline"@.len());
            assert("cluster-overview"@.len() != "perfetto"@.len());
            assert("/distributed"@[1] != "/rl/perfetto"@[1]);
            assert("cluster-overview"@.len() != "inference"@.len());
            assert("/distributed"@.len() != "/rl/inference"@.len());
        },
        Page::ClusterNodes => {
            assert(page_spec_of(p).id@ == "cluster-nodes"@);
            assert(page_spec_of(p).canonical_path@ == "/cluster"@);
            assert("cluster-nodes"@.len() != "dashboard"@.len());
            assert("/cluster"@.len() != "/"@.len());
            assert("cluster-nodes"@.len() != "investigate"@.len());
            assert("/cluster"@.len() != "/agent"@.len());
            assert("cluster-nodes"@.len() != "training"@.len());
            assert("/cluster"@.len() != "/training"@.len());
            assert("cluster-nodes"@.len() != "rl-rollout"@.len());
            assert("/cluster"@.len() != "/rl"@.len());
            assert("cluster-nodes"@.len() != "rl-train"@.len());
            assert("/cluster"@.len() != "/rl/train"@.len());
            assert("cluster-nodes"@.len() != "rl-spans"@.len());
            assert("/cluster"@.len() != "/rl/spans"@.len());
            assert("cluster-nodes"@.len() != "process-timeline"@.len());
            assert("/cluster"@.len() != "/rl/process-timeline"@.len());
            assert("cluster-nodes"@.len() != "perfetto"@.len());
            assert("/cluster"@.len() != "/rl/perfetto"@.len());
            assert("cluster-nodes"@.len() != "inference"@.len());
            assert("/cluster"@.len() != "/rl/inference"@.len());
            assert("cluster-nodes"@.len() != "cluster-overview"@.len());
            assert("/cluster"@.len() != "/distributed"@.len());
        },
        Page::DistributedStatus => {
            assert(page_spec_of(p).id@ == "distributed-status"@);
            assert(page_spec_of(p).canonical_path@ == "/cluster/status"@);
            assert("distributed-status"@.len() != "dashboard"@.len());
            assert("/cluster/status"@.len() != "/"@.len());
            assert("distributed-status"@.len() != "investigate"@.len());
            assert("/cluster/status"@.len() != "/agent"@.len());
            assert("distributed-status"@.len() != "training"@.len());
            assert("/cluster/status"@.len() != "/training"@.len());
            assert("distributed-status"@.len() != "rl-rollout"@.len());
            assert("/cluster/status"@.len() != "/rl"@.len());
            assert("distributed-status"@.len() != "rl-train"@.len());
            assert("/cluster/status"@.len() != "/rl/train"@.len());
            assert("distributed-status"@.len() != "rl-spans"@.len());
            assert("/cluster/status"@.len() != "/rl/spans"@.len());
            assert("distributed-status"@.len() != "process-timeline"@.len());
            assert("/cluster/status"@.len() != "/rl/process-timeline"@.len());
            assert("distributed-status"@.len() != "perfetto"@.len());
            assert("/cluster/status"@.len() != "/rl/perfetto"@.len());
            assert("distributed-status"@.len() != "inference"@.len());
            assert("/cluster/status"@.len() != "/rl/inference"@.len());
            assert("distributed-status"@.len() != "cluster-overview"@.len());
            assert("/cluster/status"@.len() != "/distributed"@.len());
            assert("distributed-status"@.len() != "cluster-nodes"@.len());
            assert("/cluster/status"@.len() != "/cluster"@.len());
        },
        Page::Stacks => {
            assert(page_spec_of(p).id@ == "stacks"@);
            assert(page_spec_of(p).canonical_path@ == "/stacks"@);
            assert("stacks"@.len() != "dashboard"@.len());
            assert("/stacks"@.len() != "/"@.len());
            assert("stacks"@.len() != "investigate"@.len());
            assert("/stacks"@.len() != "/agent"@.len());
            assert("stacks"@.len() != "training"@.len());
            assert("/stacks"@.len() != "/training"@.len());
            assert("stacks"@.len() != "rl-rollout"@.len());
            assert("/stacks"@.len() != "/rl"@.len());
            assert("stacks"@.len() != "rl-train"@.len());
            assert("/stacks"@.len() != "/rl/train"@.len());
            assert("stacks"@.len() != "rl-spans"@.len());
            assert("/stacks"@.len() != "/rl/spans"@.len());
            assert("stacks"@.len() != "process-timeline"@.len());
            assert("/stacks"@.len() != "/rl/process-timeline"@.len());
            assert("stacks"@.len() != "perfetto"@.len());
            assert("/stacks"@.len() != "/rl/perfetto"@.len());
            assert("stacks"@.len() != "inference"@.len());
            assert("/stacks"@.len() != "/rl/inference"@.len());
            assert("stacks"@.len() != "cluster-overview"@.len());
            assert("/stacks"@.len() != "/distributed"@.len());
            assert("stacks"@.len() != "cluster-nodes"@.len());
            assert("/stacks"@.len() != "/cluster"@.len());
            assert("stacks"@.len() != "distributed-status"@.len());
            assert("/stacks"@.len() != "/cluster/status"@.len());
        },
        Page::Spans => {
            assert(page_spec_of(p).id@ == "spans"@);
            assert(page_spec_of(p).canonical_path@ == "/spans"@);
            assert("spans"@.len() != "dashboard"@.len());
            assert("/spans"@.len() != "/"@.len());
            assert("spans"@.len() != "investigate"@.len());
            assert("/spans"@[1] != "/agent"@[1]);
            assert("spans"@.len() != "training"@.len());
            assert("/spans"@.len() != "/training"@.len());
            assert("spans"@.len() != "rl-rollout"@.len());
            assert("/spans"@.len() != "/rl"@.len());
            assert("spans"@.len() != "rl-train"@.len());
            assert("/spans"@.len() != "/rl/train"@.len());
            assert("spans"@.len() != "rl-spans"@.len());
            assert("/spans"@.len() != "/rl/spans"@.len());
            assert("spans"@.len() != "process-timeline"@.len());
            assert("/spans"@.len() != "/rl/process-timeline"@.len());
            assert("spans"@.len() != "perfetto"@.len());
            assert("/spans"@.len() != "/rl/perfetto"@.len());
            assert("spans"@.len() != "inference"@.len());
            assert("/spans"@.len() != "/rl/inference"@.len());
            assert("spans"@.len() != "cluster-overview"@.len());
            assert("/spans"@.len() != "/distributed"@.len());
            assert("spans"@.len() != "cluster-nodes"@.len());
            assert("/spans"@.len() != "/cluster"@.len());
            assert("spans"@.len() != "distributed-status"@.len());
            assert("/spans"@.len() != "/cluster/status"@.len());
            assert("spans"@.len() != "stacks"@.len());
            assert("/spans"@.len() != "/stacks"@.len());
        },
        Page::Memory => {
            assert(page_spec_of(p).id@ == "memory"@);
            assert(page_spec_of(p).canonical_path@ == "/memory"@);
            assert("memory"@.len() != "dashboard"@.len());
            assert("/memory"@.len() != "/"@.len());
            assert("memory"@.len() != "investigate"@.len());
            assert("/memory"@.len() != "/agent"@.len());
            assert("memory"@.len() != "training"@.len());
            assert("/memory"@.len() != "/training"@.len());
            assert("memory"@.len() != "rl-rollout"@.len());
            assert("/memory"@.len() != "/rl"@.len());
            assert("memory"@.len() != "rl-train"@.len());
            assert("/memory"@.len() != "/rl/train"@.len());
            assert("memory"@.len() != "rl-spans"@.len());
            assert("/memory"@.len() != "/rl/spans"@.len());
            assert("memory"@.len() != "process-timeline"@.len());
            assert("/memory"@.len() != "/rl/process-timeline"@.len());
            assert("memory"@.len() != "perfetto"@.len());
            assert("/memory"@.len() != "/rl/perfetto"@.len());
            assert("memory"@.len() != "inference"@.len());
            assert("/memory"@.len() != "/rl/inference"@.len());
            assert("memory"@.len() != "cluster-overview"@.len());
            assert("/memory"@.len() != "/distributed"@.len());
            assert("memory"@.len() != "cluster-nodes"@.len());
            assert("/memory"@.len() != "/cluster"@.len());
            assert("memory"@.len() != "distributed-status"@.len());
            assert("/memory"@.len() != "/cluster/status"@.len());
            assert("memory"@[0] != "stacks"@[0]);
            assert("/memory"@[1] != "/stacks"@[1]);
            assert("memory"@.len() != "spans"@.len());
            assert("/memory"@.len() != "/spans"@.len());
        },
        Page::Profiles => {
            assert(page_spec_of(p).id@ == "profiles"@);
            assert(page_spec_of(p).canonical_path@ == "/profiles"@);
            assert("profiles"@.len() != "dashboard"@.len());
            assert("/profiles"@.len() != "/"@.len());
            assert("profiles"@.len() != "investigate"@.len());
            assert("/profiles"@.len() != "/agent"@.len());
            assert("profiles"@[0] != "training"@[0]);
            assert("/profiles"@[1] != "/training"@[1]);
            assert("profiles"@.len() != "rl-rollout"@.len());
            assert("/profiles"@.len() != "/rl"@.len());
            assert("profiles"@[0] != "rl-train"@[0]);
            assert("/profiles"@[1] != "/rl/train"@[1]);
            assert("profiles"@[0] != "rl-spans"@[0]);
            assert("/profiles"@[1] != "/rl/spans"@[1]);
            assert("profiles"@.len() != "process-timeline"@.len());
            assert("/profiles"@.len() != "/rl/process-timeline"@.len());
            assert("profiles"@[1] != "perfetto"@[1]);
            assert("/profiles"@.len() != "/rl/perfetto"@.len());
            assert("profiles"@.len() != "inference"@.len());
            assert("/profiles"@.len() != "/rl/inference"@.len());
            assert("profiles"@.len() != "cluster-overview"@.len());
            assert("/profiles"@.len() != "/distributed"@.len());
            assert("profiles"@.len() != "cluster-nodes"@.len());
            assert("/profiles"@.len() != "/cluster"@.len());
            assert("profiles"@.len() != "distributed-status"@.len());
            assert("/profiles"@.len() != "/cluster/status"@.len());
            assert("profiles"@.len() != "stacks"@.len());
            assert("/profiles"@.len() != "/stacks"@.len());
            assert("profiles"@.len() != "spans"@.len());
            assert("/profiles"@.len() != "/spans"@.len());
            assert("profiles"@.len() != "memory"@.len());
            assert("/profiles"@.len() != "/memory"@.len());
        },
        Page::Analytics => {
            assert(page_spec_of(p).id@ == "analytics"@);
            assert(page_spec_of(p).canonical_path@ == "/analytics"@);
            assert("analytics"@[0] != "dashboard"@[0]);
            assert("/analytics"@.len() != "/"@.len());
            assert("analytics"@.len() != "investigate"@.len());
            assert("/analytics"@.len() != "/agent"@.len());
            assert("analytics"@.len() != "training"@.len());
            assert("/analytics"@.len() != "/training"@.len());
            assert("analytics"@.len() != "rl-rollout"@.len());
            assert("/analytics"@.len() != "/rl"@.len());
            assert("analytics"@.len() != "rl-train"@.len());
            assert("/analytics"@.len() != "/rl/train"@.len());
            assert("analytics"@.len() != "rl-spans"@.len());
            assert("/analytics"@.len() != "/rl/spans"@.len());
            assert("analytics"@.len() != "process-timeline"@.len());
            assert("/analytics"@.len() != "/rl/process-timeline"@.len());
            assert("analytics"@.len() != "perfetto"@.len());
            assert("/analytics"@.len() != "/rl/perfetto"@.len());
            assert("analytics"@[0] != "inference"@[0]);
            assert("/analytics"@.len() != "/rl/inference"@.len());
            assert("analytics"@.len() != "cluster-overview"@.len());
            assert("/analytics"@.len() != "/distributed"@.len());
            assert("analytics"@.len() != "cluster-nodes"@.len());
            assert("/analytics"@.len() != "/cluster"@.len());
            assert("analytics"@.len() != "distributed-status"@.len());
            assert("/analytics"@.len() != "/cluster/status"@.len());
            assert("analytics"@.len() != "stacks"@.len());
            assert("/analytics"@.len() != "/stacks"@.len());
            assert("analytics"@.len() != "spans"@.len());
            assert("/analytics"@.len() != "/spans"@.len());
            assert("analytics"@.len() != "memory"@.len());
            assert("/analytics"@.len() != "/memory"@.len());
            assert("analytics"@.len() != "profiles"@.len());
            assert("/analytics"@.len() != "/profiles"@.len());
        },
        Page::Python => {
            assert(page_spec_of(p).id@ == "python"@);
            assert(page_spec_of(p).canonical_path@ == "/python"@);
            assert("python"@.len() != "dashboard"@.len());
            assert("/python"@.len() != "/"@.len());
            assert("python"@.len() != "investigate"@.len());
            assert("/python"@.len() != "/agent"@.len());
            assert("python"@.len() != "training"@.len());
            assert("/python"@.len() != "/training"@.len());
            assert("python"@.len() != "rl-rollout"@.len());
            assert("/python"@.len() != "/rl"@.len());
            assert("python"@.len() != "rl-train"@.len());
            assert("/python"@.len() != "/rl/train"@.len());
            assert("python"@.len() != "rl-spans"@.len());
            assert("/python"@.len() != "/rl/spans"@.len());
            assert("python"@.len() != "process-timeline"@.len());
            assert("/python"@.len() != "/rl/process-timeline"@.len());
            assert("python"@.len() != "perfetto"@.len());
            assert("/python"@.len() != "/rl/perfetto"@.len());
            assert("python"@.len() != "inference"@.len());
            assert("/python"@.len() != "/rl/inference"@.len());
            assert("python"@.len() != "cluster-overview"@.len());
            assert("/python"@.len() != "/distributed"@.len());
            assert("python"@.len() != "cluster-nodes"@.len());
            assert("/python"@.len() != "/cluster"@.len());
            assert("python"@.len() != "distributed-status"@.len());
            assert("/python"@.len() != "/cluster/status"@.len());
            assert("python"@[0] != "stacks"@[0]);
            assert("/python"@[1] != "/stacks"@[1]);
            assert("python"@.len() != "spans"@.len());
            assert("/python"@.len() != "/spans"@.len());
            assert("python"@[0] != "memory"@[0]);
            assert("/python"@[1] != "/memory"@[1]);
            assert("python"@.len() != "profiles"@.len());
            assert("/python"@.len() != "/profiles"@.len());
            assert("python"@.len() != "analytics"@.len());
            assert("/python"@.len() != "/analytics"@.len());
        },
        Page::Pulsing => {
            assert(page_spec_of(p).id@ == "pulsing"@);
            assert(page_spec_of(p).canonical_path@ == "/pulsing"@);
            assert("pulsing"@.len() != "dashboard"@.len());
            assert("/pulsing"@.len() != "/"@.len());
            assert("pulsing"@.len() != "investigate"@.len());
            assert("/pulsing"@.len() != "/agent"@.len());
            assert("pulsing"@.len() != "training"@.len());
            assert("/pulsing"@.len() != "/training"@.len());
            assert("pulsing"@.len() != "rl-rollout"@.len());
            assert("/pulsing"@.len() != "/rl"@.len());
            assert("pulsing"@.len() != "rl-train"@.len());
            assert("/pulsing"@.len() != "/rl/train"@.len());
            assert("pulsing"@.len() != "rl-spans"@.len());
            assert("/pulsing"@.len() != "/rl/spans"@.len());
            assert("pulsing"@.len() != "process-timeline"@.len());
            assert("/pulsing"@.len() != "/rl/process-timeline"@.len());
            assert("pulsing"@.len() != "perfetto"@.len());
            assert("/pulsing"@.len() != "/rl/perfetto"@.len());
            assert("pulsing"@.len() != "inference"@.len());
            assert("/pulsing"@.len() != "/rl/inference"@.len());
            assert("pulsing"@.len() != "cluster-overview"@.len());
            assert("/pulsing"@.len() != "/distributed"@.len());
            assert("pulsing"@.len() != "cluster-nodes"@.len());
            assert("/pulsing"@[1] != "/cluster"@[1]);
            assert("pulsing"@.len() != "distributed-status"@.len());
            assert("/pulsing"@.len() != "/cluster/status"@.len());
            assert("pulsing"@.len() != "stacks"@.len());
            assert("/pulsing"@.len() != "/stacks"@.len());
            assert("pulsing"@.len() != "spans"@.len());
            assert("/pulsing"@.len() != "/spans"@.len());
            assert("pulsing"@.len() != "memory"@.len());
            assert("/pulsing"@.len() != "/memory"@.len());
            assert("pulsing"@.len() != "profiles"@.len());
            assert("/pulsing"@.len() != "/profiles"@.len());
            assert("pulsing"@.len() != "analytics"@.len());
            assert("/pulsing"@.len() != "/analytics"@.len());
            assert("pulsing"@.len() != "python"@.len());
            assert("/pulsing"@.len() != "/python"@.len());
        },
        Page::System => {
            assert(page_spec_of(p).id@ == "system"@);
            assert(page_spec_of(p).canonical_path@ == "/system"@);
            assert("system"@.len() != "dashboard"@.len());
            assert("/system"@.len() != "/"@.len());
            assert("system"@.len() != "investigate"@.len());
            assert("/system"@.len() != "/agent"@.len());
            assert("system"@.len() != "training"@.len());
            assert("/system"@.len() != "/training"@.len());
            assert("system"@.len() != "rl-rollout"@.len());
            assert("/system"@.len() != "/rl"@.len());
            assert("system"@.len() != "rl-train"@.len());
            assert("/system"@.len() != "/rl/train"@.len());
            assert("system"@.len() != "rl-spans"@.len());
            assert("/system"@.len() != "/rl/spans"@.len());
            assert("system"@.len() != "process-timeline"@.len());
            assert("/system"@.len() != "/rl/process-timeline"@.len());
            assert("system"@.len() != "perfetto"@.len());
            assert("/system"@.len() != "/rl/perfetto"@.len());
            assert("system"@.len() != "inference"@.len());
            assert("/system"@.len() != "/rl/inference"@.len());
            assert("system"@.len() != "cluster-overview"@.len());
            assert("/system"@.len() != "/distributed"@.len());
            assert("system"@.len() != "cluster-nodes"@.len());
            assert("/system"@.len() != "/cluster"@.len());
            assert("system"@.len() != "distributed-status"@.len());
            assert("/system"@.len() != "/cluster/status"@.len());
            assert("system"@[1] != "stacks"@[1]);
            assert("/system"@[2] != "/stacks"@[2]);
            assert("system"@.len() != "spans"@.len());
            assert("/system"@.len() != "/spans"@.len());
            assert("system"@[0] != "memory"@[0]);
            assert("/system"@[1] != "/memory"@[1]);
            assert("system"@.len() != "profiles"@.len());
            assert("/system"@.len() != "/profiles"@.len());
            assert("system"@.len() != "analytics"@.len());
            assert("/system"@.len() != "/analytics"@.len());
            assert("system"@[0] != "python"@[0]);
            assert("/system"@[1] != "/python"@[1]);
            assert("system"@.len() != "pulsing"@.len());
            assert("/system"@.len() != "/pulsing"@.len());
        },
        Page::Explore => {
            assert(page_spec_of(p).id@ == "explore"@);
            assert(page_spec_of(p).canonical_path@ == "/explore"@);
            assert("explore"@.len() != "dashboard"@.len());
            assert("/explore"@.len() != "/"@.len());
            assert("explore"@.len() != "investigate"@.len());
            assert("/explore"@.len() != "/agent"@.len());
            assert("explore"@.len() != "training"@.len());
            assert("/explore"@.len() != "/training"@.len());
            assert("explore"@.len() != "rl-rollout"@.len());
            assert("/explore"@.len() != "/rl"@.len());
            assert("explore"@.len() != "rl-train"@.len());
            assert("/explore"@.len() != "/rl/train"@.len());
            assert("explore"@.len() != "rl-spans"@.len());
            assert("/explore"@.len() != "/rl/spans"@.len());
            assert("explore"@.len() != "process-timeline"@.len());
            assert("/explore"@.len() != "/rl/process-timeline"@.len());
            assert("explore"@.len() != "perfetto"@.len());
            assert("/explore"@.len() != "/rl/perfetto"@.len());
            assert("explore"@.len() != "inference"@.len());
            assert("/explore"@.len() != "/rl/inference"@.len());
            assert("explore"@.len() != "cluster-overview"@.len());
            assert("/explore"@.len() != "/distributed"@.len());
            assert("explore"@.len() != "cluster-nodes"@.len());
            assert("/explore"@[1] != "/cluster"@[1]);
            assert("explore"@.len() != "distributed-status"@.len());
            assert("/explore"@.len() != "/cluster/status"@.len());
            assert("explore"@.len() != "stacks"@.len());
            assert("/explore"@.len() != "/stacks"@.len());
            assert("explore"@.len() != "spans"@.len());
            assert("/explore"@.len() != "/spans"@.len());
            assert("explore"@.len() != "memory"@.len());
            assert("/explore"@.len() != "/memory"@.len());
            assert("explore"@.len() != "profiles"@.len());
            assert("/explore"@.len() != "/profiles"@.len());
            assert("explore"@.len() != "analytics"@.len());
            assert("/explore"@.len() != "/analytics"@.len());
            assert("explore"@.len() != "python"@.len());
            assert("/explore"@.len() != "/python"@.len());
            assert("explore"@[0] != "pulsing"@[0]);
            assert("/explore"@[1] != "/pulsing"@[1]);
            assert("explore"@.len() != "system"@.len());
            assert("/explore"@.len() != "/system"@.len());
        },
    }
}

/// Distinct pages have distinct ids and distinct canonical paths.
pub proof fn law_page_keys_are_distinct(p: Page, q: Page)
    requires
        p != q,
    ensures
        page_spec_of(p).id@ != page_spec_of(q).id@,
        page_spec_of(p).canonical_path@ != page_spec_of(q).canonical_path@,
{
    lemma_page_keys_decode(p);
    lemma_page_keys_decode(q);
}

/// One specification per page id: routes whose specifications share an id
/// share the whole specification, so a compatibility name cannot drift into
/// other page behaviour; and two routes' specifications share an id exactly
/// when they share a canonical path.
pub proof fn law_one_spec_per_page_id(a: NextRoute, b: NextRoute)
    ensures
        page_spec_of(page_of(a)).id@ == page_spec_of(page_of(b)).id@ ==> page_spec_of(page_of(a))
            == page_spec_of(page_of(b)),
        (page_spec_of(page_of(a)).id@ == page_spec_of(page_of(b)).id@) <==> (page_spec_of(
            page_of(a),
        ).canonical_path@ == page_spec_of(page_of(b)).canonical_path@),
{
    if page_of(a) != page_of(b) {
        law_page_keys_are_distinct(page_of(a), page_of(b));
    }
}

/// The slowest of a list of ranks and durations is the slowest of them: it
/// is present exactly when the list is not empty, it is one of the pairs,
/// no pair takes longer, and every pair before it is strictly faster (the
/// first of equally slow ranks wins).
pub proof fn law_slowest_is_the_longest(ps: Seq<(i32, i64)>)
    ensures
        (slowest_of(ps) is None) <==> ps.len() == 0,
        slowest_of(ps) matches Some(b) ==> ps.contains(b),
        slowest_of(ps) matches Some(b) ==> forall|k: int| 0 <= k < ps.len() ==> (#[trigger] ps[k]).1 <= b.1,
        slowest_of(ps) matches Some(b) ==> exists|k: int|
            0 <= k < ps.len() && ps[k] == b && forall|j: int| 0 <= j < k ==> (#[trigger] ps[j]).1 < b.1,
    decreases ps.len(),
{
    if ps.len() > 0 {
        let d = ps.drop_last();
        let x = ps.last();
        law_slowest_is_the_longest(d);
        let n = ps.len() - 1;
        assert(ps[n] == x);
        assert forall|k: int| 0 <= k < d.len() implies d[k] == ps[k] by {}
        match slowest_of(d) {
            Some(b) => {
                let k0 = choose|k: int|
                    0 <= k < d.len() && d[k] == b && forall|j: int| 0 <= j < k ==> (#[trigger] d[j]).1 < b.1;
                if x.1 > b.1 {
                    assert forall|j: int| 0 <= j < n implies (#[trigger] ps[j]).1 < x.1 by {
                        assert(d[j] == ps[j]);
                    }
                    assert forall|k: int| 0 <= k < ps.len() implies (#[trigger] ps[k]).1 <= x.1 by {
                        if k < n {
                            assert(d[k] == ps[k]);
                        }
                    }
                } else {
                    assert(ps[k0] == b);
                    assert forall|j: int| 0 <= j < k0 implies (#[trigger] ps[j]).1 < b.1 by {
                        assert(d[j] == ps[j]);
                    }
                    assert forall|k: int| 0 <= k < ps.len() implies (#[trigger] ps[k]).1 <= b.1 by {
                        if k < n {
                            assert(d[k] == ps[k]);
                        }
                    }
                }
            },
            None => {
                assert(d.len() == 0);
            },
        }
    }
}

/// The search matches a span on its own name, phase or location: the
/// text, lower-cased, contains the needle.
pub open spec fn span_text_hit(v: SpanView, needle: Seq<char>) -> bool {
    ||| contains_seq(lower_seq(v.name), needle)
    ||| (v.phase matches Some(p) && contains_seq(lower_seq(p), needle))
    ||| (v.location matches Some(l) && contains_seq(lower_seq(l), needle))
}

/// A span tree search keeps a span, with its own fields and only the kept
/// part of its subtree, exactly when its name, phase or location contains
/// the needle or something under it is kept; it never keeps a span twice.
pub proof fn law_search_keeps_matching_spans(v: SpanView, needle: Seq<char>)
    ensures
        search_one(v, needle).len() <= 1,
        (search_one(v, needle).len() == 1) <==> (span_text_hit(v, needle) || search_views(
            v.children,
            needle,
        ).len() > 0),
        search_one(v, needle).len() == 1 ==> search_one(v, needle)[0] == (SpanView {
            children: search_views(v.children, needle),
            ..v
        }),
{
}

/// Durations never shrink along the sequence.
pub open spec fn wide_ascending(s: Seq<i128>) -> bool {
    forall|i: int, j: int| 0 <= i < j < s.len() ==> s[i] <= s[j]
}

proof fn lemma_insert_wide_at(s: Seq<i128>, x: i128) -> (p: int)
    ensures
        0 <= p <= s.len(),
        insert_wide(s, x) == s.insert(p, x),
        wide_ascending(s) ==> wide_ascending(insert_wide(s, x)),
    decreases s.len(),
{
    if s.len() == 0 {
        assert(s.insert(0, x) =~= seq![x]);
        0
    } else if x < s[0] {
        assert(s.insert(0, x) =~= seq![x] + s);
        let t = insert_wide(s, x);
        if wide_ascending(s) {
            assert forall|i: int, j: int| 0 <= i < j < t.len() implies t[i] <= t[j] by {
                if i > 0 {
                    assert(t[i] == s[i - 1]);
                }
                assert(t[j] == s[j - 1]);
            }
        }
        0
    } else {
        let rest = s.drop_first();
        let q = lemma_insert_wide_at(rest, x);
        let t = insert_wide(s, x);
        assert(t == seq![s[0]] + rest.insert(q, x));
        assert(s.insert(q + 1, x) =~= seq![s[0]] + rest.insert(q, x));
        if wide_ascending(s) {
            assert(wide_ascending(rest)) by {
                assert forall|i: int, j: int| 0 <= i < j < rest.len() implies rest[i] <= rest[j] by {
                    assert(rest[i] == s[i + 1]);
                    assert(rest[j] == s[j + 1]);
                }
            }
            assert forall|i: int, j: int| 0 <= i < j < t.len() implies t[i] <= t[j] by {
                let u = insert_wide(rest, x);
                assert(t[j] == u[j - 1]);
                if i > 0 {
                    assert(t[i] == u[i - 1]);
                } else {
                    let k = j - 1;
                    if k < q {
                        assert(u[k] == rest[k]);
                        assert(rest[k] == s[k + 1]);
                    } else if k > q {
                        assert(u[k] == rest[k - 1]);
                        assert(rest[k - 1] == s[k]);
                    } else {
                        assert(u[k] == x);
                    }
                }
            }
        }
        q + 1
    }
}

proof fn lemma_sorted_wide(s: Seq<i128>)
    ensures
        sorted_wide(s).len() == s.len(),
        wide_ascending(sorted_wide(s)),
        forall|y: i128| sorted_wide(s).contains(y) <==> s.contains(y),
    decreases s.len(),
{
    if s.len() > 0 {
        let d = s.drop_last();
        let x = s.last();
        lemma_sorted_wide(d);
        let t = sorted_wide(d);
        let p = lemma_insert_wide_at(t, x);
        let r = sorted_wide(s);
        assert(r == t.insert(p, x));
        assert forall|y: i128| r.contains(y) <==> s.contains(y) by {
            if r.contains(y) {
                let k = choose|k: int| 0 <= k < r.len() && r[k] == y;
                if k != p {
                    let m = if k < p { k } else { k - 1 };
                    assert(t[m] == y);
                    assert(t.contains(y));
                    assert(d.contains(y));
                    let z = choose|z: int| 0 <= z < d.len() && d[z] == y;
                    assert(s[z] == y);
                } else {
                    assert(s[s.len() - 1] == y);
                }
            }
            if s.contains(y) {
                let k = choose|k: int| 0 <= k < s.len() && s[k] == y;
                if k < d.len() {
                    assert(d[k] == y);
                    assert(d.contains(y));
                    assert(t.contains(y));
                    let m = choose|m: int| 0 <= m < t.len() && t[m] == y;
                    if m < p {
                        assert(r[m] == y);
                    } else {
                        assert(r[m + 1] == y);
                    }
                } else {
                    assert(r[p] == y);
                }
            }
        }
    } else {
        assert(sorted_wide(s) =~= s);
    }
}

/// An actor's operation, when it has samples, reports how many it has,
/// a longest duration that is one of its durations and not exceeded by
/// any, and a 95th percentile that is one of its durations and not above
/// the longest.
pub proof fn law_operation_max_is_longest(rs: Seq<SpanRow>, k: (Seq<char>, Seq<char>))
    requires
        key_durations(rs, k).len() > 0,
    ensures
        op_of(rs, k).actor == k.0,
        op_of(rs, k).operation == k.1,
        op_of(rs, k).samples == key_durations(rs, k).len(),
        key_durations(rs, k).contains(op_of(rs, k).max_us),
        forall|j: int| 0 <= j < key_durations(rs, k).len() ==> #[trigger] key_durations(rs, k)[j]
            <= op_of(rs, k).max_us,
        key_durations(rs, k).contains(op_of(rs, k).p95_us),
        op_of(rs, k).p95_us <= op_of(rs, k).max_us,
{
    let ds = key_durations(rs, k);
    let d = sorted_wide(ds);
    lemma_sorted_wide(ds);
    let n = d.len();
    let last = n - 1;
    assert(d.contains(d[last]));
    let pi = percentile_index(n, 19, 20);
    assert(0 <= pi < n);
    assert(d.contains(d[pi]));
    assert forall|j: int| 0 <= j < ds.len() implies #[trigger] ds[j] <= d[last] by {
        assert(ds.contains(ds[j]));
        assert(d.contains(ds[j]));
        let m = choose|m: int| 0 <= m < d.len() && d[m] == ds[j];
    }
}

/// Every operation of a span summary has samples, and its figures are
/// those of its own durations as the law above states them.
pub proof fn law_operations_summarise_their_spans(rs: Seq<SpanRow>, i: int)
    requires
        0 <= i < ops_by_key(rs).len(),
    ensures
        key_durations(rs, (ops_by_key(rs)[i].actor, ops_by_key(rs)[i].operation)).len() > 0,
        ops_by_key(rs)[i] == op_of(rs, (ops_by_key(rs)[i].actor, ops_by_key(rs)[i].operation)),
{
    let k = key_list(rs)[i];
    assert(key_list(rs).contains(k));
    lemma_key_listed(rs, k);
    assert(ops_by_key(rs)[i] == op_of(rs, k));
}

/// An operation's figures fit its durations: it has samples, as many as
/// durations, a longest duration that is one of them and exceeded by none,
/// a 95th percentile that is one of them and not above the longest, and no
/// more errors than samples.
pub open spec fn summarises_durations(o: OpView, ds: Seq<i128>) -> bool {
    &&& ds.len() > 0
    &&& o.samples == ds.len()
    &&& ds.contains(o.max_us)
    &&& forall|j: int| 0 <= j < ds.len() ==> #[trigger] ds[j] <= o.max_us
    &&& ds.contains(o.p95_us)
    &&& o.p95_us <= o.max_us
    &&& o.errors <= o.samples
}

proof fn lemma_insert_by_p95_at(s: Seq<OpView>, x: OpView) -> (p: int)
    ensures
        0 <= p <= s.len(),
        insert_by_p95(s, x) == s.insert(p, x),
    decreases s.len(),
{
    if s.len() == 0 {
        assert(s.insert(0, x) =~= seq![x]);
        0
    } else if x.p95_us > s[0].p95_us {
        assert(s.insert(0, x) =~= seq![x] + s);
        0
    } else {
        let rest = s.drop_first();
        let q = lemma_insert_by_p95_at(rest, x);
        assert(s.insert(q + 1, x) =~= seq![s[0]] + rest.insert(q, x));
        q + 1
    }
}

/// Ordering operations by their 95th percentile keeps exactly the same
/// operations.
pub proof fn lemma_p95_first_members(s: Seq<OpView>)
    ensures
        p95_first(s).len() == s.len(),
        forall|y: OpView| p95_first(s).contains(y) <==> s.contains(y),
    decreases s.len(),
{
    if s.len() > 0 {
        let d = s.drop_last();
        let x = s.last();
        lemma_p95_first_members(d);
        let t = p95_first(d);
        let p = lemma_insert_by_p95_at(t, x);
        let r = p95_first(s);
        assert(r == t.insert(p, x));
        assert forall|y: OpView| r.contains(y) <==> s.contains(y) by {
            if r.contains(y) {
                let k = choose|k: int| 0 <= k < r.len() && r[k] == y;
                if k != p {
                    let m = if k < p { k } else { k - 1 };
                    assert(t[m] == y);
                    assert(t.contains(y));
                    assert(d.contains(y));
                    let z = choose|z: int| 0 <= z < d.len() && d[z] == y;
                    assert(s[z] == y);
                } else {
                    assert(s[s.len() - 1] == y);
                }
            }
            if s.contains(y) {
                let k = choose|k: int| 0 <= k < s.len() && s[k] == y;
                if k < d.len() {
                    assert(d[k] == y);
                    assert(d.contains(y));
                    assert(t.contains(y));
                    let m = choose|m: int| 0 <= m < t.len() && t[m] == y;
                    if m < p {
                        assert(r[m] == y);
                    } else {
                        assert(r[m + 1] == y);
                    }
                } else {
                    assert(r[p] == y);
                }
            }
        }
    } else {
        assert(p95_first(s) =~= s);
    }
}

/// Every operation a span summary lists fits the durations of its own
/// actor and operation.
pub proof fn law_listed_operations_fit_their_durations(rs: Seq<SpanRow>, o: OpView)
    requires
        p95_first(ops_by_key(rs)).contains(o),
    ensures
        summarises_durations(o, key_durations(rs, (o.actor, o.operation))),
{
    lemma_p95_first_members(ops_by_key(rs));
    assert(p95_first(ops_by_key(rs)).contains(o) <==> ops_by_key(rs).contains(o));
    assert(ops_by_key(rs).contains(o));
    let i = choose|i: int| 0 <= i < ops_by_key(rs).len() && ops_by_key(rs)[i] == o;
    law_operations_summarise_their_spans(rs, i);
    law_operation_max_is_longest(rs, (o.actor, o.operation));
    law_operation_errors_are_its_own(rs, (o.actor, o.operation));
}

/// The registry search reads a row's host, endpoint, rank, GPU (as
/// `gpu N`), role, role name and status: a non-empty query matches a row
/// exactly when one of these, lower-cased, contains it; an empty query
/// matches every row.
pub proof fn law_registry_search_reads_every_field(n: Node, q: Seq<char>)
    ensures
        q.len() == 0 ==> node_query_match(n, q),
        q.len() > 0 ==> (node_query_match(n, q) <==> {
            ||| contains_seq(lower_seq(n.host@), q)
            ||| contains_seq(lower_seq(n.addr@), q)
            ||| (n.rank matches Some(r) && contains_seq(lower_seq(int_text(r as int)), q))
            ||| (n.local_rank matches Some(d) && contains_seq(lower_seq("gpu "@ + int_text(d as int)), q))
            ||| (n.role matches Some(s) && contains_seq(lower_seq(s@), q))
            ||| (n.role_name matches Some(s) && contains_seq(lower_seq(s@), q))
            ||| (n.status matches Some(s) && contains_seq(lower_seq(s@), q))
        }),
{
    let f = query_fields(n);
    if q.len() > 0 {
        assert forall|t: Seq<char>| t.len() == 0 implies !contains_seq(lower_seq(t), q) by {
            assert(lower_seq(t).len() == 0);
        }
        if node_query_match(n, q) {
            let k = choose|k: int| 0 <= k < 7 && #[trigger] contains_seq(lower_seq(f[k]), q);
            assert(k == 0 || k == 1 || k == 2 || k == 3 || k == 4 || k == 5 || k == 6);
            if k == 2 && n.rank is None {
                assert(f[2] == Seq::<char>::empty());
            }
            if k == 3 && n.local_rank is None {
                assert(f[3] == Seq::<char>::empty());
            }
            if k == 4 && n.role is None {
                assert(f[4] == Seq::<char>::empty());
            }
            if k == 5 && n.role_name is None {
                assert(f[5] == Seq::<char>::empty());
            }
            if k == 6 && n.status is None {
                assert(f[6] == Seq::<char>::empty());
            }
        }
        if contains_seq(lower_seq(n.host@), q) {
            assert(contains_seq(lower_seq(f[0]), q));
        }
        if contains_seq(lower_seq(n.addr@), q) {
            assert(contains_seq(lower_seq(f[1]), q));
        }
        if n.rank matches Some(r) && contains_seq(lower_seq(int_text(r as int)), q) {
            assert(contains_seq(lower_seq(f[2]), q));
        }
        if n.local_rank matches Some(d) && contains_seq(lower_seq("gpu "@ + int_text(d as int)), q) {
            assert(contains_seq(lower_seq(f[3]), q));
        }
        if n.role matches Some(s) && contains_seq(lower_seq(s@), q) {
            assert(contains_seq(lower_seq(f[4]), q));
        }
        if n.role_name matches Some(s) && contains_seq(lower_seq(s@), q) {
            assert(contains_seq(lower_seq(f[5]), q));
        }
        if n.status matches Some(s) && contains_seq(lower_seq(s@), q) {
            assert(contains_seq(lower_seq(f[6]), q));
        }
    }
}

/// The device the memory page picks for pinned coordinates carries every
/// one of them, the rank included: a device of another rank, host or GPU
/// is never selected, and with nothing pinned any device qualifies.
pub proof fn law_selected_device_carries_every_pin(d: DeviceMemory, c: InvestigationContext)
    ensures
        device_selected(d, c) <==> {
            &&& (c.rank matches Some(k) ==> d.rank == Some(k))
            &&& (c.host matches Some(h) ==> d.host@ == h@)
            &&& (c.device_id matches Some(x) ==> d.device_id == x)
        },
        !memory_pinned(c) ==> device_selected(d, c),
{
}

proof fn lemma_insert_int_at(s: Seq<i64>, x: i64) -> (p: int)
    ensures
        0 <= p <= s.len(),
        insert_int(s, x) == s.insert(p, x),
    decreases s.len(),
{
    if s.len() == 0 {
        assert(s.insert(0, x) =~= seq![x]);
        0
    } else if x < s[0] {
        assert(s.insert(0, x) =~= seq![x] + s);
        0
    } else {
        let rest = s.drop_first();
        let q = lemma_insert_int_at(rest, x);
        assert(s.insert(q + 1, x) =~= seq![s[0]] + rest.insert(q, x));
        q + 1
    }
}

/// Sorting durations keeps exactly the same durations.
pub proof fn lemma_sorted_ints_members(s: Seq<i64>)
    ensures
        sorted_ints(s).len() == s.len(),
        forall|y: i64| sorted_ints(s).contains(y) <==> s.contains(y),
    decreases s.len(),
{
    if s.len() > 0 {
        let d = s.drop_last();
        let x = s.last();
        lemma_sorted_ints_members(d);
        let t = sorted_ints(d);
        let p = lemma_insert_int_at(t, x);
        let r = sorted_ints(s);
        assert(r == t.insert(p, x));
        assert forall|y: i64| r.contains(y) <==> s.contains(y) by {
            if r.contains(y) {
                let k = choose|k: int| 0 <= k < r.len() && r[k] == y;
                if k != p {
                    let m = if k < p { k } else { k - 1 };
                    assert(t[m] == y);
                    assert(t.contains(y));
                    assert(d.contains(y));
                    let z = choose|z: int| 0 <= z < d.len() && d[z] == y;
                    assert(s[z] == y);
                } else {
                    assert(s[s.len() - 1] == y);
                }
            }
            if s.contains(y) {
                let k = choose|k: int| 0 <= k < s.len() && s[k] == y;
                if k < d.len() {
                    assert(d[k] == y);
                    assert(d.contains(y));
                    assert(t.contains(y));
                    let m = choose|m: int| 0 <= m < t.len() && t[m] == y;
                    if m < p {
                        assert(r[m] == y);
                    } else {
                        assert(r[m + 1] == y);
                    }
                } else {
                    assert(r[p] == y);
                }
            }
        }
    } else {
        assert(sorted_ints(s) =~= s);
    }
}

/// The durations a step health summarises are the non-negative durations
/// of the kept pairs: a value is among them exactly when some rank keeps
/// a sample of that duration and it is not negative.
pub proof fn law_kept_durations_are_the_usable_ones(ps: Seq<(i32, i64)>)
    ensures
        forall|x: i64| kept_durations(ps).contains(x) <==> (x >= 0 && exists|k: int|
            0 <= k < ps.len() && (#[trigger] ps[k]).1 == x),
    decreases ps.len(),
{
    if ps.len() > 0 {
        let d = ps.drop_last();
        law_kept_durations_are_the_usable_ones(d);
        let kd = kept_durations(d);
        assert forall|x: i64| kept_durations(ps).contains(x) <==> (x >= 0 && exists|k: int|
            0 <= k < ps.len() && (#[trigger] ps[k]).1 == x) by {
            if kept_durations(ps).contains(x) {
                if kd.contains(x) {
                    let k = choose|k: int| 0 <= k < d.len() && (#[trigger] d[k]).1 == x;
                    assert(ps[k] == d[k]);
                } else {
                    let t = kept_durations(ps);
                    let m = choose|m: int| 0 <= m < t.len() && t[m] == x;
                    assert(ps.last().1 >= 0 && t == kd.push(ps.last().1));
                    assert(m == kd.len());
                    assert(ps[ps.len() - 1].1 == x);
                }
            }
            if x >= 0 && exists|k: int| 0 <= k < ps.len() && (#[trigger] ps[k]).1 == x {
                let k = choose|k: int| 0 <= k < ps.len() && (#[trigger] ps[k]).1 == x;
                if k < d.len() {
                    assert(d[k] == ps[k]);
                    assert(kd.contains(x));
                    let m = choose|m: int| 0 <= m < kd.len() && kd[m] == x;
                    assert(kept_durations(ps)[m] == x);
                } else {
                    assert(kept_durations(ps) == kd.push(x));
                    assert(kept_durations(ps)[kd.len() as int] == x);
                }
            }
        }
    }
}

/// The median and the 95th percentile of a step health are durations that
/// some rank's kept sample took (and not negative), and they exist exactly
/// when some rank keeps a sample that is not negative.
pub proof fn law_step_percentiles_are_kept_durations(samples: Seq<StepDurationSample>)
    ensures
        (percentile_of(sorted_ints(kept_durations(latest_pairs(samples))), 1, 2) is Some) <==> exists|k: int|
            0 <= k < latest_pairs(samples).len() && (#[trigger] latest_pairs(samples)[k]).1 >= 0,
        percentile_of(sorted_ints(kept_durations(latest_pairs(samples))), 1, 2) matches Some(m) ==> m >= 0
            && exists|k: int| 0 <= k < latest_pairs(samples).len() && (#[trigger] latest_pairs(samples)[k]).1 == m,
        percentile_of(sorted_ints(kept_durations(latest_pairs(samples))), 19, 20) matches Some(m) ==> m >= 0
            && exists|k: int| 0 <= k < latest_pairs(samples).len() && (#[trigger] latest_pairs(samples)[k]).1 == m,
{
    let lp = latest_pairs(samples);
    let kd = kept_durations(lp);
    let st = sorted_ints(kd);
    law_kept_durations_are_the_usable_ones(lp);
    lemma_sorted_ints_members(kd);
    if st.len() > 0 {
        let n = st.len();
        let a = percentile_index(n, 1, 2);
        let b = percentile_index(n, 19, 20);
        assert(0 <= a < n);
        assert(0 <= b < n);
        assert(st.contains(st[a]));
        assert(kd.contains(st[a]));
        assert(st.contains(st[b]));
        assert(kd.contains(st[b]));
    }
    if exists|k: int| 0 <= k < lp.len() && (#[trigger] lp[k]).1 >= 0 {
        let k = choose|k: int| 0 <= k < lp.len() && (#[trigger] lp[k]).1 >= 0;
        assert(kd.contains(lp[k].1));
        assert(st.contains(lp[k].1));
    }
}

/// An operation's error count counts its own rows whose status is an
/// explicit error: never more than its samples, and above zero exactly
/// when one of its rows reports an explicit error.
pub proof fn law_operation_errors_are_its_own(rs: Seq<SpanRow>, k: (Seq<char>, Seq<char>))
    ensures
        key_errors(rs, k) <= key_durations(rs, k).len(),
        (key_errors(rs, k) > 0) <==> exists|j: int|
            0 <= j < rs.len() && row_key(#[trigger] rs[j]) == k && explicit_error(rs[j].status),
    decreases rs.len(),
{
    if rs.len() > 0 {
        let d = rs.drop_last();
        law_operation_errors_are_its_own(d, k);
        let n = rs.len() - 1;
        if exists|j: int| 0 <= j < d.len() && row_key(#[trigger] d[j]) == k && explicit_error(d[j].status) {
            let j = choose|j: int| 0 <= j < d.len() && row_key(#[trigger] d[j]) == k && explicit_error(d[j].status);
            assert(rs[j] == d[j]);
        }
        if exists|j: int| 0 <= j < rs.len() && row_key(#[trigger] rs[j]) == k && explicit_error(rs[j].status) {
            let j = choose|j: int| 0 <= j < rs.len() && row_key(#[trigger] rs[j]) == k && explicit_error(rs[j].status);
            if j < n {
                assert(d[j] == rs[j]);
            } else {
                assert(rs.last() == rs[j]);
            }
        }
    }
}

} // verus!
