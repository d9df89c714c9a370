//! The distributed page: what the cluster status says about heartbeat and
//! step coverage, where each host's processes, ranks and devices are, and
//! the rank, wait-state and rendezvous-store panels.

use vstd::prelude::*;

use crate::api::{Node, WaitCounter};
use crate::snapshot::{active_counters, calls_fit, total_calls};
use crate::health::StepHealth;
use crate::model::{insert_sorted, rank_set, strictly_sorted, lemma_rank_set_push, RegistryHealth};
use crate::text::{
    blank, is_blank, lemma_text_less_irreflexive, lemma_text_less_total,
    lemma_text_less_transitive, i32_text, int_text, join, join_seq, lemma_views_push, nat_text,
    owned, str_eq, text_less, text_lt, usize_text, views,
};

verus! {

/// Whether a request is still running, answered or failed.
#[derive(Clone, Copy, Debug, PartialEq, Eq, Structural)]
pub enum RequestState {
    Loading,
    Ready,
    Failed,
}

/// The state of a request from what it returned so far.
pub fn request_state<T, E>(state: &Option<Result<T, E>>) -> (r: RequestState)
    ensures
        r == (match state {
            None => RequestState::Loading,
            Some(Ok(_)) => RequestState::Ready,
            Some(Err(_)) => RequestState::Failed,
        }),
{
    match state {
        None => RequestState::Loading,
        Some(Ok(_)) => RequestState::Ready,
        Some(Err(_)) => RequestState::Failed,
    }
}

/// The registry's world size, when it reports one, is the number of ranks
/// the step comparison expects; never fewer than it observed.
pub fn reconcile_step_coverage(health: StepHealth, registry: Option<&RegistryHealth>) -> (r:
    StepHealth)
    ensures
        r == (match registry {
            Some(g) => match g.expected_ranks {
                Some(e) => StepHealth {
                    expected_ranks: if e > health.observed_ranks {
                        e
                    } else {
                        health.observed_ranks
                    },
                    ..health
                },
                None => health,
            },
            None => health,
        }),
{
    let mut health = health;
    if let Some(registry) = registry {
        if let Some(expected) = registry.expected_ranks {
            health.expected_ranks = if expected > health.observed_ranks {
                expected
            } else {
                health.observed_ranks
            };
        }
    }
    health
}

/// How a notice reads.
#[derive(Clone, Copy, Debug, PartialEq, Eq, Structural)]
pub enum NoticeTone {
    Warning,
    Info,
}

impl NoticeTone {
    /// The classes of a notice in this tone.
    pub fn classes(self) -> (r: &'static str)
        ensures
            r@ == (match self {
                NoticeTone::Warning => "border-amber-200 bg-amber-50 text-amber-950"@,
                NoticeTone::Info => "border-blue-200 bg-blue-50 text-blue-950"@,
            }),
    {
        match self {
            NoticeTone::Warning => "border-amber-200 bg-amber-50 text-amber-950",
            NoticeTone::Info => "border-blue-200 bg-blue-50 text-blue-950",
        }
    }
}

/// How an action button reads; neutral unless said otherwise.
#[derive(Clone, Copy, Debug, Default, PartialEq, Eq, Structural)]
pub enum ActionTone {
    Primary,
    #[default]
    Neutral,
    Danger,
}

impl ActionTone {
    /// The classes of a button in this tone.
    pub fn classes(self) -> (r: &'static str)
        ensures
            r@ == (match self {
                ActionTone::Primary => "border-blue-600 bg-blue-600 text-white hover:bg-blue-700"@,
                ActionTone::Neutral => "border-gray-300 bg-white text-gray-700 hover:bg-gray-50"@,
                ActionTone::Danger => "border-red-200 bg-red-50 text-red-700 hover:bg-red-100"@,
            }),
    {
        match self {
            ActionTone::Primary => "border-blue-600 bg-blue-600 text-white hover:bg-blue-700",
            ActionTone::Neutral => "border-gray-300 bg-white text-gray-700 hover:bg-gray-50",
            ActionTone::Danger => "border-red-200 bg-red-50 text-red-700 hover:bg-red-100",
        }
    }
}

/// What the cluster status says.
#[derive(Debug, PartialEq, Eq)]
pub struct ClusterAssessment {
    pub tone: NoticeTone,
    pub title: String,
    pub detail: String,
}

/// The slowest rank takes more than 1.2 times the median: slowest · 5 >
/// median · 6, with a positive median.
pub open spec fn skewed(h: StepHealth) -> bool {
    match (h.median_ms, h.slowest_ms) {
        (Some(m), Some(s)) => m > 0 && 5 * (s as int) > 6 * (m as int),
        _ => false,
    }
}

/// The slowest and the median duration, when the median is positive.
pub open spec fn ratio_terms(h: StepHealth) -> Option<(i64, i64)> {
    match (h.median_ms, h.slowest_ms) {
        (Some(m), Some(s)) => if m > 0 {
            Some((s, m))
        } else {
            None
        },
        _ => None,
    }
}

impl StepHealth {
    /// The slowest and the median duration, when the median is positive:
    /// the two terms of the slowest / median ratio.
    pub fn slowest_ratio_terms(&self) -> (r: Option<(i64, i64)>)
        ensures
            r == ratio_terms(*self),
    {
        match (self.median_ms, self.slowest_ms) {
            (Some(m), Some(s)) => if m > 0 {
                Some((s, m))
            } else {
                None
            },
            _ => None,
        }
    }

    /// Whether the slowest rank is more than 1.2 times the median.
    pub fn is_skewed(&self) -> (r: bool)
        ensures
            r == skewed(*self),
    {
        match (self.median_ms, self.slowest_ms) {
            (Some(m), Some(s)) => m > 0 && 5 * (s as i128) > 6 * (m as i128),
            _ => false,
        }
    }
}

/// The ratio as shown: its two-decimal text and `×`, or `—`.
pub open spec fn ratio_label(t: Option<Seq<char>>) -> Seq<char> {
    match t {
        Some(x) => x + "×"@,
        None => "—"@,
    }
}

/// The cluster status, as tone, title and detail. A failed registry
/// request, an empty registry and a failed step request are said first;
/// then endpoint failures, the absence of comparable ranks, missing ranks
/// and rank skew, in that order; else the coverage.
pub open spec fn assessment_of(
    node_request: RequestState,
    registry: Option<RegistryHealth>,
    step_request: RequestState,
    health: Option<StepHealth>,
    ratio: Option<Seq<char>>,
) -> (NoticeTone, Seq<char>, Seq<char>) {
    if node_request == RequestState::Failed {
        (
            NoticeTone::Info,
            "Heartbeat registry request failed"@,
            "No heartbeat coverage value is available for this refresh."@,
        )
    } else if node_request == RequestState::Ready && (registry matches Some(g) && g.processes == 0) {
        (NoticeTone::Warning, "0 processes reported"@, "The heartbeat registry returned zero rows."@)
    } else if step_request == RequestState::Failed {
        (
            NoticeTone::Info,
            "Rank comparison request failed"@,
            "Heartbeat registry data and comparable train.step data have independent availability."@,
        )
    } else {
        match health {
            Some(h) => {
                let observed = nat_text(h.observed_ranks as nat);
                let expected = nat_text(h.expected_ranks as nat);
                if h.nodes_failed@.len() > 0 {
                    (
                        NoticeTone::Warning,
                        nat_text(h.nodes_failed@.len()) + " peer endpoint(s) failed"@,
                        observed + " of "@ + expected
                            + " registered ranks have a returned step sample; endpoint failures and missing ranks are different counts."@,
                    )
                } else if h.observed_ranks == 0 {
                    (
                        NoticeTone::Info,
                        "0 comparable ranks"@,
                        "No rank returned a comparable train.step sample."@,
                    )
                } else if h.observed_ranks < h.expected_ranks {
                    (
                        NoticeTone::Warning,
                        observed + " / "@ + expected + " ranks represented"@,
                        observed + " of "@ + expected
                            + " ranks are present in the latest step comparison."@,
                    )
                } else if skewed(h) {
                    (
                        NoticeTone::Warning,
                        "Observed slowest / median: "@ + ratio_label(ratio),
                        "The ratio is derived only from the "@ + observed + " returned ranks shown below."@,
                    )
                } else {
                    let (hosts, processes) = match registry {
                        Some(g) => (g.hosts as nat, g.processes as nat),
                        None => (0nat, 0nat),
                    };
                    (
                        NoticeTone::Info,
                        observed + " / "@ + expected + " ranks represented"@,
                        nat_text(hosts) + " host(s), "@ + nat_text(processes)
                            + " process(es); slowest / median is "@ + ratio_label(ratio) + "."@,
                    )
                }
            },
            None => (
                NoticeTone::Info,
                "Loading cluster coverage"@,
                "Node heartbeats and comparable rank timings are requested independently."@,
            ),
        }
    }
}

fn label_text(ratio: Option<&str>) -> (r: String)
    ensures
        r@ == ratio_label(
            match ratio {
                Some(t) => Some(t@),
                None => None,
            },
        ),
{
    proof {
        reveal_strlit("×");
        reveal_strlit("—");
    }
    match ratio {
        Some(t) => {
            let mut s = owned(t);
            s.append("×");
            s
        },
        None => owned("—"),
    }
}

fn counts_text(a: usize, middle: &str, b: usize, tail: &str) -> (r: String)
    ensures
        r@ == nat_text(a as nat) + middle@ + nat_text(b as nat) + tail@,
{
    let mut s = usize_text(a);
    s.append(middle);
    s.append(usize_text(b).as_str());
    s.append(tail);
    s
}

/// The cluster status. `ratio` is the slowest / median ratio written with
/// two decimals, given exactly when the health has one.
pub fn cluster_assessment(
    node_request: RequestState,
    registry: Option<&RegistryHealth>,
    step_request: RequestState,
    health: Option<&StepHealth>,
    ratio: Option<&str>,
) -> (r: ClusterAssessment)
    requires
        (ratio is Some) == (health matches Some(h) && ratio_terms(*h) is Some),
    ensures
        (r.tone, r.title@, r.detail@) == assessment_of(
            node_request,
            match registry {
                Some(g) => Some(*g),
                None => None,
            },
            step_request,
            match health {
                Some(h) => Some(*h),
                None => None,
            },
            match ratio {
                Some(t) => Some(t@),
                None => None,
            },
        ),
{
    proof {
        reveal_strlit("Heartbeat registry request failed");
        reveal_strlit("No heartbeat coverage value is available for this refresh.");
        reveal_strlit("0 processes reported");
        reveal_strlit("The heartbeat registry returned zero rows.");
        reveal_strlit("Rank comparison request failed");
        reveal_strlit(
            "Heartbeat registry data and comparable train.step data have independent availability.",
        );
        reveal_strlit(" peer endpoint(s) failed");
        reveal_strlit(" of ");
        reveal_strlit(
            " registered ranks have a returned step sample; endpoint failures and missing ranks are different counts.",
        );
        reveal_strlit("0 comparable ranks");
        reveal_strlit("No rank returned a comparable train.step sample.");
        reveal_strlit(" / ");
        reveal_strlit(" ranks represented");
        reveal_strlit(" ranks are present in the latest step comparison.");
        reveal_strlit("Observed slowest / median: ");
        reveal_strlit("The ratio is derived only from the ");
        reveal_strlit(" returned ranks shown below.");
        reveal_strlit(" host(s), ");
        reveal_strlit(" process(es); slowest / median is ");
        reveal_strlit(".");
        reveal_strlit("Loading cluster coverage");
        reveal_strlit("Node heartbeats and comparable rank timings are requested independently.");
    }
    if node_request == RequestState::Failed {
        return ClusterAssessment {
            tone: NoticeTone::Info,
            title: owned("Heartbeat registry request failed"),
            detail: owned("No heartbeat coverage value is available for this refresh."),
        };
    }
    if node_request == RequestState::Ready && match registry {
        Some(g) => g.processes == 0,
        None => false,
    } {
        return ClusterAssessment {
            tone: NoticeTone::Warning,
            title: owned("0 processes reported"),
            detail: owned("The heartbeat registry returned zero rows."),
        };
    }
    if step_request == RequestState::Failed {
        return ClusterAssessment {
            tone: NoticeTone::Info,
            title: owned("Rank comparison request failed"),
            detail: owned(
                "Heartbeat registry data and comparable train.step data have independent availability.",
            ),
        };
    }
    match health {
        Some(h) => {
            if h.nodes_failed.len() > 0 {
                let mut title = usize_text(h.nodes_failed.len());
                title.append(" peer endpoint(s) failed");
                return ClusterAssessment {
                    tone: NoticeTone::Warning,
                    title,
                    detail: counts_text(
                        h.observed_ranks,
                        " of ",
                        h.expected_ranks,
                        " registered ranks have a returned step sample; endpoint failures and missing ranks are different counts.",
                    ),
                };
            }
            if h.observed_ranks == 0 {
                return ClusterAssessment {
                    tone: NoticeTone::Info,
                    title: owned("0 comparable ranks"),
                    detail: owned("No rank returned a comparable train.step sample."),
                };
            }
            if h.observed_ranks < h.expected_ranks {
                return ClusterAssessment {
                    tone: NoticeTone::Warning,
                    title: counts_text(h.observed_ranks, " / ", h.expected_ranks, " ranks represented"),
                    detail: counts_text(
                        h.observed_ranks,
                        " of ",
                        h.expected_ranks,
                        " ranks are present in the latest step comparison.",
                    ),
                };
            }
            if h.is_skewed() {
                let mut title = owned("Observed slowest / median: ");
                title.append(label_text(ratio).as_str());
                let mut detail = owned("The ratio is derived only from the ");
                detail.append(usize_text(h.observed_ranks).as_str());
                detail.append(" returned ranks shown below.");
                return ClusterAssessment { tone: NoticeTone::Warning, title, detail };
            }
            let (hosts, processes) = match registry {
                Some(g) => (g.hosts, g.processes),
                None => (0, 0),
            };
            let mut detail = counts_text(
                hosts,
                " host(s), ",
                processes,
                " process(es); slowest / median is ",
            );
            detail.append(label_text(ratio).as_str());
            detail.append(".");
            ClusterAssessment {
                tone: NoticeTone::Info,
                title: counts_text(h.observed_ranks, " / ", h.expected_ranks, " ranks represented"),
                detail,
            }
        },
        None => ClusterAssessment {
            tone: NoticeTone::Info,
            title: owned("Loading cluster coverage"),
            detail: owned("Node heartbeats and comparable rank timings are requested independently."),
        },
    }
}


/// Where a host's processes are: how many, their ranks, their local device
/// indexes and how many report each state.
#[derive(Clone, Debug, Default, PartialEq, Eq)]
pub struct HostPlacement {
    pub host: String,
    pub processes: usize,
    pub ranks: Vec<i32>,
    pub local_devices: Vec<i32>,
    pub states: Vec<(String, usize)>,
}

/// The host a process is listed under: its host, or a placeholder when it
/// reports a blank one.
pub open spec fn host_key(n: Node) -> Seq<char> {
    if is_blank(n.host@) {
        "(host not reported)"@
    } else {
        n.host@
    }
}

/// The state a process is counted under: its status, or `not reported`
/// when it has none or a blank one.
pub open spec fn state_key(n: Node) -> Seq<char> {
    match n.status {
        Some(s) => if is_blank(s@) {
            "not reported"@
        } else {
            s@
        },
        None => "not reported"@,
    }
}

/// The processes listed under a host, in list order.
pub open spec fn on_host(ns: Seq<Node>, h: Seq<char>) -> Seq<Node>
    decreases ns.len(),
{
    if ns.len() == 0 {
        seq![]
    } else {
        let r = on_host(ns.drop_last(), h);
        if host_key(ns.last()) == h {
            r.push(ns.last())
        } else {
            r
        }
    }
}

/// The local device indexes that processes report.
pub open spec fn device_set(ns: Seq<Node>) -> Set<i32> {
    Set::new(|d: i32| exists|i: int| 0 <= i < ns.len() && ns[i].local_rank == Some(d))
}

/// How many processes report a state.
pub open spec fn state_tally(ns: Seq<Node>, k: Seq<char>) -> nat
    decreases ns.len(),
{
    if ns.len() == 0 {
        0
    } else {
        state_tally(ns.drop_last(), k) + if state_key(ns.last()) == k {
            1nat
        } else {
            0nat
        }
    }
}

/// The count a list of states gives a state, 0 when it is not listed.
pub open spec fn state_count(st: Seq<(String, usize)>, k: Seq<char>) -> nat
    decreases st.len(),
{
    if st.len() == 0 {
        0
    } else if st[0].0@ == k {
        st[0].1 as nat
    } else {
        state_count(st.drop_first(), k)
    }
}

/// The states are listed in text order, each once.
pub open spec fn states_sorted(st: Seq<(String, usize)>) -> bool {
    forall|x: int, y: int| 0 <= x < y < st.len() ==> text_less(st[x].0@, st[y].0@)
}

/// The hosts of the processes.
pub open spec fn host_keys(ns: Seq<Node>) -> Set<Seq<char>> {
    Set::new(|h: Seq<char>| exists|i: int| 0 <= i < ns.len() && host_key(ns[i]) == h)
}

/// A placement describes the processes listed under its host.
pub open spec fn placement_ok(p: HostPlacement, on: Seq<Node>) -> bool {
    &&& p.processes == on.len()
    &&& strictly_sorted(p.ranks@)
    &&& p.ranks@.to_set() == rank_set(on)
    &&& strictly_sorted(p.local_devices@)
    &&& p.local_devices@.to_set() == device_set(on)
    &&& states_sorted(p.states@)
    &&& forall|x: int| 0 <= x < p.states@.len() ==> 0 < (#[trigger] p.states@[x]).1 <= p.processes
    &&& forall|k: Seq<char>| #[trigger] state_count(p.states@, k) == state_tally(on, k)
}

proof fn lemma_state_count_at(st: Seq<(String, usize)>, x: int)
    requires
        states_sorted(st),
        0 <= x < st.len(),
    ensures
        state_count(st, st[x].0@) == st[x].1,
    decreases x,
{
    if x > 0 {
        assert(text_less(st[0].0@, st[x].0@));
        lemma_text_less_irreflexive(st[x].0@);
        let rest = st.drop_first();
        assert forall|a: int, b: int| 0 <= a < b < rest.len() implies text_less(rest[a].0@, rest[b].0@) by {
            assert(rest[a] == st[a + 1]);
            assert(rest[b] == st[b + 1]);
        }
        assert(rest[x - 1] == st[x]);
        lemma_state_count_at(rest, x - 1);
    }
}

proof fn lemma_state_absent(st: Seq<(String, usize)>, k: Seq<char>)
    requires
        forall|y: int| 0 <= y < st.len() ==> (#[trigger] st[y]).0@ != k,
    ensures
        state_count(st, k) == 0,
    decreases st.len(),
{
    if st.len() > 0 {
        let rest = st.drop_first();
        assert forall|y: int| 0 <= y < rest.len() implies (#[trigger] rest[y]).0@ != k by {
            assert(rest[y] == st[y + 1]);
        }
        lemma_state_absent(rest, k);
    }
}

proof fn lemma_device_set_push(s: Seq<Node>, n: Node)
    ensures
        device_set(s.push(n)) == (match n.local_rank {
            Some(d) => device_set(s).insert(d),
            None => device_set(s),
        }),
{
    let t = s.push(n);
    let target = match n.local_rank {
        Some(d) => device_set(s).insert(d),
        None => device_set(s),
    };
    assert forall|d: i32| #[trigger] device_set(t).contains(d) implies target.contains(d) by {
        let i = choose|i: int| 0 <= i < t.len() && t[i].local_rank == Some(d);
        if i < s.len() {
            assert(s[i] == t[i]);
        }
    }
    assert forall|d: i32| target.contains(d) implies #[trigger] device_set(t).contains(d) by {
        if device_set(s).contains(d) {
            let i = choose|i: int| 0 <= i < s.len() && s[i].local_rank == Some(d);
            assert(t[i] == s[i]);
        } else {
            assert(t[s.len() as int] == n);
        }
    }
    assert(device_set(t) =~= target);
}

/// Counts one more process in a state.
fn add_state(states: &mut Vec<(String, usize)>, key: String, bound: usize)
    requires
        states_sorted(old(states)@),
        forall|x: int| 0 <= x < old(states)@.len() ==> 0 < (#[trigger] old(states)@[x]).1 <= bound,
        bound < usize::MAX,
    ensures
        states_sorted(final(states)@),
        forall|x: int| 0 <= x < final(states)@.len() ==> 0 < (#[trigger] final(states)@[x]).1 <= bound + 1,
        forall|k: Seq<char>| #[trigger] state_count(final(states)@, k) == state_count(old(states)@, k) + if k == key@ {
            1nat
        } else {
            0nat
        },
{
    let ghost st = states@;
    assert(st == old(states)@);
    let mut x: usize = 0;
    while x < states.len()
        invariant
            states@ == st,
            st == old(states)@,
            states_sorted(st),
            forall|y: int| 0 <= y < st.len() ==> 0 < (#[trigger] st[y]).1 <= bound,
            bound < usize::MAX,
            x <= st.len(),
            forall|y: int| 0 <= y < x ==> (#[trigger] st[y]).0@ != key@,
        decreases st.len() - x,
    {
        if str_eq(states[x].0.as_str(), key.as_str()) {
            let count = states[x].1;
            let name = states[x].0.clone();
            states.set(x, (name, count + 1));
            proof {
                let nt = states@;
                assert forall|a: int, b: int| 0 <= a < b < nt.len() implies text_less(
                    nt[a].0@,
                    nt[b].0@,
                ) by {
                    assert(nt[a].0@ == st[a].0@);
                    assert(nt[b].0@ == st[b].0@);
                }
                assert forall|k: Seq<char>| #[trigger] state_count(nt, k) == state_count(st, k) + if k
                    == key@ {
                    1nat
                } else {
                    0nat
                } by {
                    if k == key@ {
                        lemma_state_count_at(st, x as int);
                        lemma_state_count_at(nt, x as int);
                    } else {
                        if exists|y: int| 0 <= y < st.len() && (#[trigger] st[y]).0@ == k {
                            let y = choose|y: int| 0 <= y < st.len() && (#[trigger] st[y]).0@ == k;
                            lemma_state_count_at(st, y);
                            assert(nt[y] == st[y]);
                            lemma_state_count_at(nt, y);
                        } else {
                            assert forall|y: int| 0 <= y < nt.len() implies (#[trigger] nt[y]).0@ != k by {
                                if y != x {
                                    assert(nt[y] == st[y]);
                                }
                            }
                            lemma_state_absent(nt, k);
                            lemma_state_absent(st, k);
                        }
                    }
                }
                assert(st == old(states)@);
                assert(nt == states@);
            }
            return;
        }
        x = x + 1;
    }
    let mut p: usize = 0;
    while p < states.len() && text_lt(states[p].0.as_str(), key.as_str())
        invariant
            states@ == st,
            st == old(states)@,
            states_sorted(st),
            forall|y: int| 0 <= y < st.len() ==> 0 < (#[trigger] st[y]).1 <= bound,
            bound < usize::MAX,
            forall|y: int| 0 <= y < st.len() ==> (#[trigger] st[y]).0@ != key@,
            p <= st.len(),
            forall|y: int| 0 <= y < p ==> text_less((#[trigger] st[y]).0@, key@),
        decreases st.len() - p,
    {
        p = p + 1;
    }
    proof {
        if p < st.len() {
            lemma_text_less_total(st[p as int].0@, key@);
        }
    }
    let ghost k0 = key@;
    states.insert(p, (key, 1));
    proof {
        let nt = states@;
        assert(nt[p as int].0@ == k0);
        assert forall|a: int, b: int| 0 <= a < b < nt.len() implies text_less(nt[a].0@, nt[b].0@) by {
            if b < p {
                assert(nt[a] == st[a]);
                assert(nt[b] == st[b]);
            } else if b == p {
                assert(nt[a] == st[a]);
            } else if a < p {
                assert(nt[a] == st[a]);
                assert(nt[b] == st[b - 1]);
                if b - 1 > p {
                    assert(text_less(st[p as int].0@, st[b - 1].0@));
                    lemma_text_less_transitive(k0, st[p as int].0@, st[b - 1].0@);
                }
                lemma_text_less_transitive(st[a].0@, k0, st[b - 1].0@);
            } else if a == p {
                assert(nt[b] == st[b - 1]);
                if b - 1 > p {
                    assert(text_less(st[p as int].0@, st[b - 1].0@));
                    lemma_text_less_transitive(k0, st[p as int].0@, st[b - 1].0@);
                }
            } else {
                assert(nt[a] == st[a - 1]);
                assert(nt[b] == st[b - 1]);
            }
        }
        assert forall|k: Seq<char>| #[trigger] state_count(nt, k) == state_count(st, k) + if k == k0 {
            1nat
        } else {
            0nat
        } by {
            if k == k0 {
                lemma_state_count_at(nt, p as int);
                lemma_state_absent(st, k);
            } else {
                if exists|y: int| 0 <= y < st.len() && (#[trigger] st[y]).0@ == k {
                    let y = choose|y: int| 0 <= y < st.len() && (#[trigger] st[y]).0@ == k;
                    lemma_state_count_at(st, y);
                    let z = if y < p { y } else { y + 1 };
                    assert(nt[z] == st[y]);
                    lemma_state_count_at(nt, z);
                } else {
                    assert forall|y: int| 0 <= y < nt.len() implies (#[trigger] nt[y]).0@ != k by {
                        if y < p {
                            assert(nt[y] == st[y]);
                        } else if y > p {
                            assert(nt[y] == st[y - 1]);
                        }
                    }
                    lemma_state_absent(nt, k);
                    lemma_state_absent(st, k);
                }
            }
        }
    }
}


fn host_of(node: &Node) -> (r: String)
    ensures
        r@ == host_key(*node),
{
    proof {
        reveal_strlit("(host not reported)");
    }
    if blank(node.host.as_str()) {
        owned("(host not reported)")
    } else {
        node.host.clone()
    }
}

fn state_of(node: &Node) -> (r: String)
    ensures
        r@ == state_key(*node),
{
    proof {
        reveal_strlit("not reported");
    }
    match &node.status {
        Some(s) => if blank(s.as_str()) {
            owned("not reported")
        } else {
            s.clone()
        },
        None => owned("not reported"),
    }
}

proof fn lemma_on_host_len(ns: Seq<Node>, h: Seq<char>)
    ensures
        on_host(ns, h).len() <= ns.len(),
    decreases ns.len(),
{
    if ns.len() > 0 {
        lemma_on_host_len(ns.drop_last(), h);
    }
}

proof fn lemma_on_host_absent(ns: Seq<Node>, h: Seq<char>)
    requires
        !host_keys(ns).contains(h),
    ensures
        on_host(ns, h) == Seq::<Node>::empty(),
    decreases ns.len(),
{
    if ns.len() > 0 {
        let d = ns.drop_last();
        assert(!host_keys(d).contains(h)) by {
            if host_keys(d).contains(h) {
                let k = choose|k: int| 0 <= k < d.len() && host_key(d[k]) == h;
                assert(ns[k] == d[k]);
            }
        }
        assert(host_key(ns[ns.len() - 1]) != h);
        lemma_on_host_absent(d, h);
    }
}

/// Counts one more process under a placement.
fn add_node(p: &mut HostPlacement, n: &Node, Ghost(on): Ghost<Seq<Node>>)
    requires
        placement_ok(*old(p), on),
        on.len() < usize::MAX,
    ensures
        placement_ok(*final(p), on.push(*n)),
        final(p).host == old(p).host,
{
    let bound = p.processes;
    p.processes = p.processes + 1;
    if let Some(r) = n.rank {
        insert_sorted(&mut p.ranks, r);
    }
    if let Some(d) = n.local_rank {
        insert_sorted(&mut p.local_devices, d);
    }
    let key = state_of(n);
    add_state(&mut p.states, key, bound);
    proof {
        lemma_rank_set_push(on, *n);
        lemma_device_set_push(on, *n);
        let t = on.push(*n);
        assert(t.drop_last() =~= on);
        assert forall|k: Seq<char>| #[trigger] state_count(p.states@, k) == state_tally(t, k) by {
            assert(state_tally(t, k) == state_tally(on, k) + if state_key(*n) == k {
                1nat
            } else {
                0nat
            });
        }
    }
}

fn new_placement(host: String, n: &Node) -> (r: HostPlacement)
    ensures
        placement_ok(r, seq![*n]),
        r.host == host,
{
    let mut p = HostPlacement {
        host,
        processes: 0,
        ranks: Vec::new(),
        local_devices: Vec::new(),
        states: Vec::new(),
    };
    proof {
        let e = Seq::<Node>::empty();
        assert(p.ranks@.to_set() =~= rank_set(e));
        assert(p.local_devices@.to_set() =~= device_set(e));
        assert forall|k: Seq<char>| #[trigger] state_count(p.states@, k) == state_tally(e, k) by {
        }
        assert(e.push(*n) =~= seq![*n]);
    }
    add_node(&mut p, n, Ghost(Seq::<Node>::empty()));
    p
}

/// Where the registry's processes are, host by host in text order: for each
/// host, its process count, its ranks and local device indexes each once in
/// increasing order, and the count of each reported state, in text order.
pub fn host_placements(nodes: &Vec<Node>) -> (r: Vec<HostPlacement>)
    ensures
        forall|a: int, b: int| 0 <= a < b < r@.len() ==> text_less(r@[a].host@, r@[b].host@),
        forall|a: int|
            0 <= a < r@.len() ==> placement_ok(#[trigger] r@[a], on_host(nodes@, r@[a].host@)),
        forall|h: Seq<char>|
            host_keys(nodes@).contains(h) <==> exists|a: int|
                0 <= a < r@.len() && (#[trigger] r@[a]).host@ == h,
{
    let mut hosts: Vec<HostPlacement> = Vec::new();
    let mut i: usize = 0;
    assert(nodes@.take(0) =~= Seq::<Node>::empty());
    while i < nodes.len()
        invariant
            i <= nodes@.len(),
            forall|a: int, b: int|
                0 <= a < b < hosts@.len() ==> text_less(hosts@[a].host@, hosts@[b].host@),
            forall|a: int|
                0 <= a < hosts@.len() ==> placement_ok(
                    #[trigger] hosts@[a],
                    on_host(nodes@.take(i as int), hosts@[a].host@),
                ),
            forall|h: Seq<char>|
                host_keys(nodes@.take(i as int)).contains(h) <==> exists|a: int|
                    0 <= a < hosts@.len() && (#[trigger] hosts@[a]).host@ == h,
        decreases nodes@.len() - i,
    {
        let ghost cur = nodes@.take(i as int);
        let ghost next = nodes@.take(i + 1);
        let n = &nodes[i];
        proof {
            assert(next.drop_last() =~= cur);
            assert(next.last() == *n);
        }
        let key = host_of(n);
        let ghost k0 = key@;
        let mut a: usize = 0;
        while a < hosts.len() && !str_eq(hosts[a].host.as_str(), key.as_str())
            invariant
                a <= hosts@.len(),
                key@ == k0,
                forall|b: int| 0 <= b < a ==> (#[trigger] hosts@[b]).host@ != k0,
            decreases hosts@.len() - a,
        {
            a = a + 1;
        }
        let ghost old_hosts = hosts@;
        if a < hosts.len() {
            let mut pl = hosts.remove(a);
            proof {
                lemma_on_host_len(cur, k0);
            }
            add_node(&mut pl, n, Ghost(on_host(cur, k0)));
            hosts.insert(a, pl);
            assert(hosts@ =~= old_hosts.update(a as int, pl));
            assert forall|b: int| 0 <= b < hosts@.len() implies placement_ok(
                #[trigger] hosts@[b],
                on_host(next, hosts@[b].host@),
            ) by {
                if b != a {
                    assert(hosts@[b] == old_hosts[b]);
                    assert(old_hosts[b].host@ != k0) by {
                        if old_hosts[b].host@ == k0 {
                            if b < a {
                                assert(text_less(old_hosts[b].host@, old_hosts[a as int].host@));
                            } else {
                                assert(text_less(old_hosts[a as int].host@, old_hosts[b].host@));
                            }
                            lemma_text_less_irreflexive(k0);
                        }
                    }
                }
            }
            assert forall|a2: int, b2: int| 0 <= a2 < b2 < hosts@.len() implies text_less(
                hosts@[a2].host@,
                hosts@[b2].host@,
            ) by {
                assert(hosts@[a2].host == old_hosts[a2].host);
                assert(hosts@[b2].host == old_hosts[b2].host);
            }
            assert forall|h: Seq<char>| host_keys(next).contains(h) <==> exists|b: int|
                0 <= b < hosts@.len() && (#[trigger] hosts@[b]).host@ == h by {
                if host_keys(next).contains(h) {
                    let k = choose|k: int| 0 <= k < next.len() && host_key(next[k]) == h;
                    if k < cur.len() {
                        assert(cur[k] == next[k]);
                        assert(host_keys(cur).contains(h));
                        let b = choose|b: int| 0 <= b < old_hosts.len() && (#[trigger] old_hosts[b]).host@ == h;
                        assert(hosts@[b].host == old_hosts[b].host);
                    } else {
                        assert(hosts@[a as int].host@ == h);
                    }
                }
                if exists|b: int| 0 <= b < hosts@.len() && (#[trigger] hosts@[b]).host@ == h {
                    let b = choose|b: int| 0 <= b < hosts@.len() && (#[trigger] hosts@[b]).host@ == h;
                    assert(old_hosts[b].host == hosts@[b].host);
                    assert(host_keys(cur).contains(h));
                    let k = choose|k: int| 0 <= k < cur.len() && host_key(cur[k]) == h;
                    assert(next[k] == cur[k]);
                }
            }
        } else {
            proof {
                assert(!host_keys(cur).contains(k0));
                lemma_on_host_absent(cur, k0);
                assert(on_host(next, k0) =~= seq![*n]);
            }
            let mut p: usize = 0;
            while p < hosts.len() && text_lt(hosts[p].host.as_str(), key.as_str())
                invariant
                    p <= hosts@.len(),
                    key@ == k0,
                    forall|b: int| 0 <= b < p ==> text_less((#[trigger] hosts@[b]).host@, k0),
                decreases hosts@.len() - p,
            {
                p = p + 1;
            }
            proof {
                if p < hosts@.len() {
                    lemma_text_less_total(hosts@[p as int].host@, k0);
                }
            }
            let pl = new_placement(key, n);
            hosts.insert(p, pl);
            proof {
                let nh = hosts@;
                assert(nh[p as int].host@ == k0);
                assert forall|a2: int, b2: int| 0 <= a2 < b2 < nh.len() implies text_less(
                    nh[a2].host@,
                    nh[b2].host@,
                ) by {
                    if b2 < p {
                        assert(nh[a2] == old_hosts[a2]);
                        assert(nh[b2] == old_hosts[b2]);
                    } else if b2 == p {
                        assert(nh[a2] == old_hosts[a2]);
                    } else if a2 < p {
                        assert(nh[a2] == old_hosts[a2]);
                        assert(nh[b2] == old_hosts[b2 - 1]);
                        if b2 - 1 > p {
                            assert(text_less(old_hosts[p as int].host@, old_hosts[b2 - 1].host@));
                            lemma_text_less_transitive(k0, old_hosts[p as int].host@, old_hosts[b2 - 1].host@);
                        }
                        lemma_text_less_transitive(old_hosts[a2].host@, k0, old_hosts[b2 - 1].host@);
                    } else if a2 == p {
                        assert(nh[b2] == old_hosts[b2 - 1]);
                        if b2 - 1 > p {
                            assert(text_less(old_hosts[p as int].host@, old_hosts[b2 - 1].host@));
                            lemma_text_less_transitive(k0, old_hosts[p as int].host@, old_hosts[b2 - 1].host@);
                        }
                    } else {
                        assert(nh[a2] == old_hosts[a2 - 1]);
                        assert(nh[b2] == old_hosts[b2 - 1]);
                    }
                }
                assert forall|b: int| 0 <= b < nh.len() implies placement_ok(
                    #[trigger] nh[b],
                    on_host(next, nh[b].host@),
                ) by {
                    if b < p {
                        assert(nh[b] == old_hosts[b]);
                    } else if b > p {
                        assert(nh[b] == old_hosts[b - 1]);
                    }
                }
                assert forall|h: Seq<char>| host_keys(next).contains(h) <==> exists|b: int|
                    0 <= b < nh.len() && (#[trigger] nh[b]).host@ == h by {
                    if host_keys(next).contains(h) {
                        let k = choose|k: int| 0 <= k < next.len() && host_key(next[k]) == h;
                        if k < cur.len() {
                            assert(cur[k] == next[k]);
                            assert(host_keys(cur).contains(h));
                            let b = choose|b: int| 0 <= b < old_hosts.len() && (#[trigger] old_hosts[b]).host@ == h;
                            if b < p {
                                assert(nh[b] == old_hosts[b]);
                            } else {
                                assert(nh[b + 1] == old_hosts[b]);
                            }
                        } else {
                            assert(nh[p as int].host@ == h);
                        }
                    }
                    if exists|b: int| 0 <= b < nh.len() && (#[trigger] nh[b]).host@ == h {
                        let b = choose|b: int| 0 <= b < nh.len() && (#[trigger] nh[b]).host@ == h;
                        if b == p {
                            assert(host_key(next[i as int]) == h);
                        } else {
                            let ob = if b < p { b } else { b - 1 };
                            assert(nh[b] == old_hosts[ob]);
                            assert(host_keys(cur).contains(h));
                            let k = choose|k: int| 0 <= k < cur.len() && host_key(cur[k]) == h;
                            assert(next[k] == cur[k]);
                        }
                    }
                }
            }
        }
        i = i + 1;
    }
    assert(nodes@.take(nodes@.len() as int) =~= nodes@);
    hosts
}


/// Indexes with their prefix, two spaces apart; `—` when there is none.
pub open spec fn indexes_text(values: Seq<i32>, prefix: Seq<char>) -> Seq<char> {
    if values.len() == 0 {
        "—"@
    } else {
        join_seq(values.map_values(|v: i32| prefix + int_text(v as int)), "  "@)
    }
}

/// The ranks or device indexes of a host as the placement table shows them.
pub fn format_indexes(values: &Vec<i32>, prefix: &str) -> (r: String)
    ensures
        r@ == indexes_text(values@, prefix@),
{
    proof {
        reveal_strlit("—");
        reveal_strlit("  ");
    }
    if values.len() == 0 {
        return owned("—");
    }
    let ghost target = values@.map_values(|v: i32| prefix@ + int_text(v as int));
    let mut parts: Vec<String> = Vec::new();
    let mut i: usize = 0;
    while i < values.len()
        invariant
            i <= values@.len(),
            target == values@.map_values(|v: i32| prefix@ + int_text(v as int)),
            views(parts@) == target.take(i as int),
        decreases values@.len() - i,
    {
        let mut s = owned(prefix);
        s.append(i32_text(values[i]).as_str());
        let ghost before = parts@;
        parts.push(s);
        proof {
            lemma_views_push(before, s);
        }
        i = i + 1;
        assert(views(parts@) =~= target.take(i as int));
    }
    assert(target.take(values@.len() as int) =~= target);
    join(&parts, "  ")
}

/// The reported states with their counts, ` · ` apart.
pub open spec fn states_text(states: Seq<(String, usize)>) -> Seq<char> {
    join_seq(
        states.map_values(|e: (String, usize)| e.0@ + " ×"@ + nat_text(e.1 as nat)),
        " · "@,
    )
}

/// The states of a host as the placement table shows them.
pub fn format_states(states: &Vec<(String, usize)>) -> (r: String)
    ensures
        r@ == states_text(states@),
{
    proof {
        reveal_strlit(" ×");
        reveal_strlit(" · ");
    }
    let ghost target = states@.map_values(
        |e: (String, usize)| e.0@ + " ×"@ + nat_text(e.1 as nat),
    );
    let mut parts: Vec<String> = Vec::new();
    let mut i: usize = 0;
    while i < states.len()
        invariant
            i <= states@.len(),
            target == states@.map_values(|e: (String, usize)| e.0@ + " ×"@ + nat_text(e.1 as nat)),
            views(parts@) == target.take(i as int),
        decreases states@.len() - i,
    {
        let mut s = states[i].0.clone();
        s.append(" ×");
        s.append(usize_text(states[i].1).as_str());
        let ghost before = parts@;
        parts.push(s);
        proof {
            lemma_views_push(before, s);
        }
        i = i + 1;
        assert(views(parts@) =~= target.take(i as int));
    }
    assert(target.take(states@.len() as int) =~= target);
    join(&parts, " · ")
}

/// The subtitle of the rank comparison: the rank coverage when step timing
/// is known, and otherwise that coverage is reported on its own.
pub open spec fn rank_comparison_text(health: Option<StepHealth>) -> Seq<char> {
    match health {
        Some(h) => "Latest duration for returned ranks; coverage is "@ + nat_text(
            h.observed_ranks as nat,
        ) + " / "@ + nat_text(h.expected_ranks as nat) + " registered ranks."@,
        None => "Latest duration for returned ranks; coverage is reported independently."@,
    }
}

/// The subtitle of the rank comparison.
pub fn rank_comparison_subtitle(health: Option<&StepHealth>) -> (r: String)
    ensures
        r@ == rank_comparison_text(
            match health {
                Some(h) => Some(*h),
                None => None,
            },
        ),
{
    match health {
        Some(h) => {
            let mut s = owned("Latest duration for returned ranks; coverage is ");
            s.append(usize_text(h.observed_ranks).as_str());
            s.append(" / ");
            s.append(usize_text(h.expected_ranks).as_str());
            s.append(" registered ranks.");
            s
        },
        None => owned("Latest duration for returned ranks; coverage is reported independently."),
    }
}

/// What the rank-coverage card shows: returned over registered ranks, or a
/// dash without step timing.
pub open spec fn coverage_card_text(health: Option<StepHealth>) -> Seq<char> {
    match health {
        Some(h) => nat_text(h.observed_ranks as nat) + " / "@ + nat_text(h.expected_ranks as nat),
        None => "—"@,
    }
}

/// The value of the rank-coverage card.
pub fn coverage_card_value(health: Option<&StepHealth>) -> (r: String)
    ensures
        r@ == coverage_card_text(
            match health {
                Some(h) => Some(*h),
                None => None,
            },
        ),
{
    match health {
        Some(h) => {
            let mut s = usize_text(h.observed_ranks);
            s.append(" / ");
            s.append(usize_text(h.expected_ranks).as_str());
            s
        },
        None => owned("—"),
    }
}

/// What the skew card says its ratio compares: the slowest rank when one is
/// known.
pub open spec fn skew_detail_text(health: Option<StepHealth>) -> Seq<char> {
    match health {
        Some(h) => match h.slowest_rank {
            Some(rank) => "rank "@ + int_text(rank as int) + " vs observed-rank median"@,
            None => "slowest returned rank vs observed median"@,
        },
        None => "slowest returned rank vs observed median"@,
    }
}

/// The detail line of the skew card.
pub fn skew_detail(health: Option<&StepHealth>) -> (r: String)
    ensures
        r@ == skew_detail_text(
            match health {
                Some(h) => Some(*h),
                None => None,
            },
        ),
{
    let rank = match health {
        Some(h) => h.slowest_rank,
        None => None,
    };
    match rank {
        Some(rank) => {
            let mut s = owned("rank ");
            s.append(i32_text(rank).as_str());
            s.append(" vs observed-rank median");
            s
        },
        None => owned("slowest returned rank vs observed median"),
    }
}

/// The longest wait of any counter, zero when there is none.
pub open spec fn longest_wait(cs: Seq<WaitCounter>) -> i64
    decreases cs.len(),
{
    if cs.len() == 0 {
        0
    } else {
        let rest = longest_wait(cs.drop_last());
        if cs.len() == 1 || cs.last().max_time_us > rest {
            cs.last().max_time_us
        } else {
            rest
        }
    }
}

/// Counter `a` ranks below `b`: fewer waits in progress, then a shorter
/// longest wait.
pub open spec fn counter_below(a: WaitCounter, b: WaitCounter) -> bool {
    a.active_count < b.active_count || (a.active_count == b.active_count && a.max_time_us
        < b.max_time_us)
}

/// Inserts a counter after every counter that does not rank above it.
pub open spec fn insert_counter(s: Seq<WaitCounter>, x: WaitCounter) -> Seq<WaitCounter>
    decreases s.len(),
{
    if s.len() == 0 {
        seq![x]
    } else if counter_below(x, s[0]) {
        seq![x] + s
    } else {
        seq![s[0]] + insert_counter(s.drop_first(), x)
    }
}

/// The counters sorted stably from the lowest rank up.
pub open spec fn counter_order(s: Seq<WaitCounter>) -> Seq<WaitCounter>
    decreases s.len(),
{
    if s.len() == 0 {
        seq![]
    } else {
        insert_counter(counter_order(s.drop_last()), s.last())
    }
}

/// The wait-state panel of a rank: how many counters are waiting, the calls
/// of all counters, the longest wait, and the counters busiest first.
pub struct WaitPanel {
    pub active: usize,
    pub calls: i64,
    pub maximum: i64,
    pub counters: Vec<WaitCounter>,
}

fn copy_counter(c: &WaitCounter) -> (r: WaitCounter)
    ensures
        r == *c,
{
    WaitCounter {
        name: c.name.clone(),
        category: c.category.clone(),
        active_count: c.active_count,
        total_calls: c.total_calls,
        avg_time_us: c.avg_time_us,
        max_time_us: c.max_time_us,
    }
}

proof fn lemma_insert_counter(s: Seq<WaitCounter>, x: WaitCounter, p: int)
    requires
        0 <= p <= s.len(),
        forall|j: int| 0 <= j < p ==> !counter_below(x, #[trigger] s[j]),
        p < s.len() ==> counter_below(x, s[p]),
    ensures
        insert_counter(s, x) == s.insert(p, x),
    decreases p,
{
    if p == 0 {
        if s.len() == 0 {
            assert(s.insert(0, x) =~= seq![x]);
        } else {
            assert(s.insert(0, x) =~= seq![x] + s);
        }
    } else {
        let rest = s.drop_first();
        assert(!counter_below(x, s[0]));
        assert forall|j: int| 0 <= j < p - 1 implies !counter_below(x, #[trigger] rest[j]) by {
            assert(rest[j] == s[j + 1]);
        }
        if p - 1 < rest.len() {
            assert(rest[p - 1] == s[p]);
        }
        lemma_insert_counter(rest, x, p - 1);
        assert(s.insert(p, x) =~= seq![s[0]] + rest.insert(p - 1, x));
    }
}

/// The wait-state panel of the counters a rank reports: the counters sorted
/// by waits in progress and then by longest wait, keeping their order when
/// both are equal, and then reversed, so the busiest come first.
pub fn wait_counter_panel(counters: &Vec<WaitCounter>) -> (r: WaitPanel)
    requires
        calls_fit(counters@),
    ensures
        r.active == active_counters(counters@),
        r.calls == total_calls(counters@),
        r.maximum == longest_wait(counters@),
        r.counters@ == counter_order(counters@).reverse(),
{
    let ghost cs = counters@;
    let mut active: usize = 0;
    let mut calls: i64 = 0;
    let mut maximum: i64 = 0;
    let mut sorted: Vec<WaitCounter> = Vec::new();
    let mut i: usize = 0;
    assert(cs.take(0) =~= Seq::<WaitCounter>::empty());
    while i < counters.len()
        invariant
            cs == counters@,
            calls_fit(cs),
            i <= cs.len(),
            active <= i,
            active == active_counters(cs.take(i as int)),
            calls == total_calls(cs.take(i as int)),
            maximum == longest_wait(cs.take(i as int)),
            sorted@ == counter_order(cs.take(i as int)),
        decreases cs.len() - i,
    {
        let ghost pre = cs.take(i as int);
        let ghost post = cs.take(i + 1);
        assert(post.drop_last() =~= pre);
        assert(post.last() == cs[i as int]);
        assert(i64::MIN <= total_calls(post) <= i64::MAX);
        let c = copy_counter(&counters[i]);
        if c.active_count > 0 {
            active = active + 1;
        }
        calls = calls + c.total_calls;
        if i == 0 || c.max_time_us > maximum {
            maximum = c.max_time_us;
        }
        let mut p: usize = 0;
        while p < sorted.len() && !(c.active_count < sorted[p].active_count || (c.active_count
            == sorted[p].active_count && c.max_time_us < sorted[p].max_time_us))
            invariant
                p <= sorted@.len(),
                forall|j: int| 0 <= j < p ==> !counter_below(c, #[trigger] sorted@[j]),
            decreases sorted@.len() - p,
        {
            p = p + 1;
        }
        proof {
            lemma_insert_counter(sorted@, c, p as int);
        }
        sorted.insert(p, c);
        i = i + 1;
    }
    assert(cs.take(cs.len() as int) =~= cs);
    let ghost ordered = sorted@;
    let mut reversed: Vec<WaitCounter> = Vec::new();
    let mut k: usize = sorted.len();
    while k > 0
        invariant
            k <= sorted@.len(),
            sorted@ == ordered,
            reversed@ == ordered.subrange(k as int, ordered.len() as int).reverse(),
        decreases k,
    {
        reversed.push(copy_counter(&sorted[k - 1]));
        assert(ordered.subrange(k - 1, ordered.len() as int).reverse() =~= ordered.subrange(
            k as int,
            ordered.len() as int,
        ).reverse().push(ordered[k - 1]));
        k = k - 1;
    }
    assert(ordered.subrange(0, ordered.len() as int) =~= ordered);
    WaitPanel { active, calls, maximum, counters: reversed }
}

/// How complete the store's key listing is: every key when the store can
/// list them, only the keys probed by name otherwise.
pub fn store_catalog_label(catalog_available: bool) -> (r: &'static str)
    ensures
        r@ == (if catalog_available {
            "Complete"@
        } else {
            "Known keys"@
        }),
{
    if catalog_available {
        "Complete"
    } else {
        "Known keys"
    }
}

/// How many keys of the store remain unnamed: the keys not identified, zero
/// when the counts disagree.
pub fn unnamed_keys(total_keys: u64, identified_keys: u64) -> (r: u64)
    ensures
        r == (if total_keys >= identified_keys {
            (total_keys - identified_keys) as u64
        } else {
            0
        }),
{
    total_keys.saturating_sub(identified_keys)
}

} // verus!
