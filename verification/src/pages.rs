//! The evidence that the dashboard, training and memory pages publish: each
//! bundle is built from the same payloads the page renders, so the Agent
//! reads what the user sees.

use vstd::prelude::*;

use crate::api::{GpuSnapshot, Node, StepMatrixResponse};
use crate::capabilities::CapabilityStatus;
use crate::context::InvestigationContext;
use crate::evidence::{
    bundle_text, dataframe_preview, preview_text, BundleView, DataFrame, EvidenceBundle,
    EvidencePayload, EvidenceReceipt, EvidenceRequest, EvidenceScope, ContextMatch,
    };
use crate::snapshot::{
    format_nodes, format_step_matrix, nodes_text, step_matrix_text, unavailable_text,
};
use crate::text::{
    chars_of, contains_chars, contains_seq, concat2, fixed_text, fixed_text_exec, i32_text, int_text, join, join_seq, lemma_views_push,
    nat_text, owned, usize_text, views,
};

verus! {

/// A source's payload, or the message of its failure.
pub type Fetched<T> = Result<EvidencePayload<T>, String>;

/// The receipt and preview a fetched payload contributes to a bundle.
pub open spec fn entry_of<T>(r: Fetched<T>, preview: Seq<char>) -> Seq<(EvidenceReceipt, Seq<char>)> {
    match r {
        Ok(p) => seq![(p.receipt, preview)],
        Err(_) => seq![],
    }
}

/// The note a failed source contributes to a bundle.
pub open spec fn failure_of<T>(r: Fetched<T>, source: Seq<char>) -> Seq<Seq<char>> {
    match r {
        Ok(_) => seq![],
        Err(e) => seq![unavailable_text(source, e@)],
    }
}

/// The bundle of a page built from a request, before anything is pushed.
pub open spec fn empty_bundle(page: Seq<char>, q: EvidenceRequest) -> BundleView {
    BundleView {
        page_id: page,
        refresh_epoch: q.refresh_epoch,
        requested_at_ms: q.requested_at_ms,
        context: q.context,
        entries: seq![],
        failures: seq![],
    }
}

/// Adds a fetched payload to a bundle: its receipt and preview when it was
/// read, a note when it failed.
pub fn push_fetched<T>(
    bundle: &mut EvidenceBundle,
    source: &str,
    result: &Fetched<T>,
    preview: String,
)
    ensures
        final(bundle)@ == (BundleView {
            entries: old(bundle)@.entries + entry_of(*result, preview@),
            failures: old(bundle)@.failures + failure_of(*result, source@),
            ..old(bundle)@
        }),
{
    match result {
        Ok(payload) => {
            bundle.push(&payload.receipt, preview);
            assert(bundle@.entries =~= old(bundle)@.entries + entry_of(*result, preview@));
            assert(bundle@.failures =~= old(bundle)@.failures + failure_of(*result, source@));
        },
        Err(error) => {
            bundle.push_failure(source, error.as_str());
            assert(bundle@.entries =~= old(bundle)@.entries + entry_of(*result, preview@));
            assert(bundle@.failures =~= old(bundle)@.failures + failure_of(*result, source@));
        },
    }
}

// ---------------------------------------------------------------------------
// Dashboard

/// The dashboard's refresh key: the poll tick while it refreshes itself,
/// the manual counter otherwise.
pub fn dashboard_refresh_key(auto: bool, poll: u32, manual: u32) -> (r: u32)
    ensures
        r == (if auto {
            poll
        } else {
            manual
        }),
{
    if auto {
        poll
    } else {
        manual
    }
}

/// The dashboard's two requests of one refresh: the step request across the
/// cluster and the same request on the local process for the GPUs.
pub fn dashboard_requests(
    refresh_key: u32,
    context: InvestigationContext,
    requested_at_ms: u64,
) -> (r: (EvidenceRequest, EvidenceRequest))
    ensures
        r.0 == (EvidenceRequest {
            refresh_epoch: refresh_key as u64,
            requested_at_ms,
            scope: EvidenceScope::ClusterFanout,
            window_us: None,
            context,
        }),
        r.1 == (EvidenceRequest { scope: EvidenceScope::LocalProcess, window_us: None, ..r.0 }),
{
    let steps = EvidenceRequest {
        refresh_epoch: refresh_key as u64,
        requested_at_ms,
        scope: EvidenceScope::ClusterFanout,
        window_us: None,
        context,
    };
    let gpus = steps.for_scope(EvidenceScope::LocalProcess, None);
    (steps, gpus)
}

/// What the dashboard's step panels show.
#[derive(Clone, Copy, Debug, PartialEq, Eq, Structural)]
pub enum StepPresentation {
    Loading,
    Ready,
    NotReported,
    Empty,
    Failed,
}

/// One state of the step source drives both dashboard views: still
/// checking or loading, not reported by the process, failed, empty, ready.
pub fn dashboard_step_presentation(
    source: CapabilityStatus,
    state: Option<&Fetched<StepMatrixResponse>>,
) -> (r: StepPresentation)
    ensures
        r == (match source {
            CapabilityStatus::Checking => StepPresentation::Loading,
            CapabilityStatus::Missing => StepPresentation::NotReported,
            _ => match state {
                None => StepPresentation::Loading,
                Some(Err(_)) => StepPresentation::Failed,
                Some(Ok(p)) => if p.value.samples@.len() == 0 {
                    StepPresentation::Empty
                } else {
                    StepPresentation::Ready
                },
            },
        }),
{
    match source {
        CapabilityStatus::Checking => StepPresentation::Loading,
        CapabilityStatus::Missing => StepPresentation::NotReported,
        CapabilityStatus::Available | CapabilityStatus::CatalogUnavailable => match state {
            None => StepPresentation::Loading,
            Some(Err(_)) => StepPresentation::Failed,
            Some(Ok(payload)) => if payload.value.samples.len() == 0 {
                StepPresentation::Empty
            } else {
                StepPresentation::Ready
            },
        },
    }
}

/// One GPU's line: memory share and compute utilisation.
pub open spec fn gpu_line_text(d: GpuSnapshot) -> Seq<char> {
    "GPU "@ + int_text(d.device_id as int) + " · memory "@ + fixed_text(d.mem_used_pct as int, 1)
        + "% · compute "@ + match d.gpu_util_pct {
        Some(v) => fixed_text(v as int, 1) + "%"@,
        None => "not reported"@,
    }
}

/// One line per GPU, or a placeholder when no GPU was sampled.
pub open spec fn gpu_preview_text(ds: Seq<GpuSnapshot>) -> Seq<char> {
    if ds.len() == 0 {
        "(empty)"@
    } else {
        join_seq(ds.map_values(|d: GpuSnapshot| gpu_line_text(d)), "\n"@)
    }
}

fn gpu_line(d: &GpuSnapshot) -> (r: String)
    ensures
        r@ == gpu_line_text(*d),
{
    proof {
        reveal_strlit("GPU ");
        reveal_strlit(" · memory ");
        reveal_strlit("% · compute ");
        reveal_strlit("%");
        reveal_strlit("not reported");
    }
    let mut s = owned("GPU ");
    s.append(i32_text(d.device_id).as_str());
    s.append(" · memory ");
    s.append(fixed_text_exec(d.mem_used_pct, 1).as_str());
    s.append("% · compute ");
    match d.gpu_util_pct {
        Some(v) => {
            s.append(fixed_text_exec(v, 1).as_str());
            s.append("%");
        },
        None => s.append("not reported"),
    }
    s
}

/// The GPU samples as the dashboard publishes them.
pub fn gpu_snapshot_preview(snapshots: &Vec<GpuSnapshot>) -> (r: String)
    ensures
        r@ == gpu_preview_text(snapshots@),
{
    if snapshots.len() == 0 {
        proof {
            reveal_strlit("(empty)");
        }
        return owned("(empty)");
    }
    proof {
        reveal_strlit("\n");
    }
    let ghost target = snapshots@.map_values(|d: GpuSnapshot| gpu_line_text(d));
    let mut lines: Vec<String> = Vec::new();
    let mut i: usize = 0;
    while i < snapshots.len()
        invariant
            i <= snapshots@.len(),
            target == snapshots@.map_values(|d: GpuSnapshot| gpu_line_text(d)),
            views(lines@) == target.take(i as int),
        decreases snapshots@.len() - i,
    {
        let line = gpu_line(&snapshots[i]);
        let ghost before = lines@;
        lines.push(line);
        proof {
            lemma_views_push(before, line);
        }
        i = i + 1;
        assert(views(lines@) =~= target.take(i as int));
    }
    assert(target.take(snapshots@.len() as int) =~= target);
    join(&lines, "\n")
}

/// The dashboard's evidence: step timing and GPU samples, once both sources
/// have answered.
pub fn dashboard_evidence_bundle(
    request: &EvidenceRequest,
    steps: Option<&Fetched<StepMatrixResponse>>,
    gpu: Option<&Fetched<Vec<GpuSnapshot>>>,
) -> (r: Option<String>)
    ensures
        (steps is None || gpu is None) <==> r is None,
        r matches Some(text) ==> text@ == bundle_text(
            BundleView {
                entries: entry_of(
                    *steps->0,
                    match *steps->0 {
                        Ok(p) => step_matrix_text(p.value, request.context.rank),
                        Err(_) => seq![],
                    },
                ) + entry_of(
                    *gpu->0,
                    match *gpu->0 {
                        Ok(p) => gpu_preview_text(p.value@),
                        Err(_) => seq![],
                    },
                ),
                failures: failure_of(*steps->0, "train.step"@) + failure_of(
                    *gpu->0,
                    "gpu.utilization"@,
                ),
                ..empty_bundle("dashboard"@, *request)
            },
        ),
{
    let (steps, gpu) = match (steps, gpu) {
        (Some(s), Some(g)) => (s, g),
        _ => return None,
    };
    proof {
        reveal_strlit("dashboard");
        reveal_strlit("train.step");
        reveal_strlit("gpu.utilization");
    }
    let mut bundle = EvidenceBundle::new("dashboard", request);
    let step_preview = match steps {
        Ok(payload) => format_step_matrix(&payload.value, request),
        Err(_) => String::new(),
    };
    push_fetched(&mut bundle, "train.step", steps, step_preview);
    let gpu_preview = match gpu {
        Ok(payload) => gpu_snapshot_preview(&payload.value),
        Err(_) => String::new(),
    };
    push_fetched(&mut bundle, "gpu.utilization", gpu, gpu_preview);
    Some(bundle.render())
}

/// A step matrix with no sample, as requested from the cluster.
pub fn empty_step_matrix() -> (r: StepMatrixResponse)
    ensures
        r.samples@.len() == 0,
        r.rank_count == 0,
        r.step_count == 0,
        r.cluster,
        !r.partial,
        r.nodes_queried == 0,
        r.nodes_failed@.len() == 0,
{
    StepMatrixResponse {
        samples: Vec::new(),
        rank_count: 0,
        step_count: 0,
        cluster: true,
        partial: false,
        nodes_queried: 0,
        nodes_failed: Vec::new(),
    }
}

/// The scope badge of the step panels: the scope the response reports, not
/// the one requested.
pub fn step_scope_label(matrix: Option<&StepMatrixResponse>) -> (r: String)
    ensures
        r@ == (match matrix {
            Some(m) => if m.cluster {
                "Cluster · "@ + nat_text(m.rank_count as nat) + " observed ranks"@
            } else {
                "Process-local response"@
            },
            None => "Cluster requested"@,
        }),
{
    proof {
        reveal_strlit("Cluster · ");
        reveal_strlit(" observed ranks");
        reveal_strlit("Process-local response");
        reveal_strlit("Cluster requested");
    }
    match matrix {
        Some(m) => if m.cluster {
            let mut s = owned("Cluster · ");
            s.append(usize_text(m.rank_count).as_str());
            s.append(" observed ranks");
            s
        } else {
            owned("Process-local response")
        },
        None => owned("Cluster requested"),
    }
}

// ---------------------------------------------------------------------------
// Training

/// The training page's refresh key: the poll tick plus the manual counter,
/// wrapping at 32 bits.
pub fn training_refresh_key(poll: u32, manual: u32) -> (r: u32)
    ensures
        r == (if poll + manual > u32::MAX {
            poll + manual - (u32::MAX + 1)
        } else {
            poll + manual
        }),
{
    poll.wrapping_add(manual)
}

/// The scope a training refresh reads: the cluster fan-out when the cluster
/// scope is chosen, the local process otherwise.
pub open spec fn training_scope(cluster: bool) -> EvidenceScope {
    if cluster {
        EvidenceScope::ClusterFanout
    } else {
        EvidenceScope::LocalProcess
    }
}

/// The training page's requests of one refresh: the request every query
/// source reads, and the same request re-scoped to the cluster registry for
/// the node list.
pub fn training_requests(
    refresh_key: u32,
    cluster: bool,
    context: InvestigationContext,
    requested_at_ms: u64,
) -> (r: (EvidenceRequest, EvidenceRequest))
    ensures
        r.0 == (EvidenceRequest {
            refresh_epoch: refresh_key as u64,
            requested_at_ms,
            scope: training_scope(cluster),
            window_us: None,
            context,
        }),
        r.1 == (EvidenceRequest { scope: EvidenceScope::ClusterRegistry, window_us: None, ..r.0 }),
{
    let scope = if cluster {
        EvidenceScope::ClusterFanout
    } else {
        EvidenceScope::LocalProcess
    };
    let sources = EvidenceRequest {
        refresh_epoch: refresh_key as u64,
        requested_at_ms,
        scope,
        window_us: None,
        context,
    };
    let nodes = sources.for_scope(EvidenceScope::ClusterRegistry, None);
    (sources, nodes)
}

/// How a gated source is read: its query, across the cluster or on the
/// local process, or an empty payload in that scope when the catalog says
/// its columns are missing (or is still being read).
#[derive(Clone, Copy, Debug, PartialEq, Eq, Structural)]
pub enum SourcePlan {
    Query { cluster: bool },
    Empty { cluster: bool },
}

/// Whether a capability status lets a page query.
pub open spec fn status_allows_query(s: CapabilityStatus) -> bool {
    s == CapabilityStatus::Available || s == CapabilityStatus::CatalogUnavailable
}

/// The plan of one gated source of a request: queried exactly when its
/// status allows a query, in the request's scope either way.
pub fn source_plan(status: CapabilityStatus, request: &EvidenceRequest) -> (r: SourcePlan)
    ensures
        r == (if status_allows_query(status) {
            SourcePlan::Query { cluster: request.scope == EvidenceScope::ClusterFanout }
        } else {
            SourcePlan::Empty { cluster: request.scope == EvidenceScope::ClusterFanout }
        }),
{
    let cluster = request.scope == EvidenceScope::ClusterFanout;
    if status.allows_query() {
        SourcePlan::Query { cluster }
    } else {
        SourcePlan::Empty { cluster }
    }
}

/// A step matrix with no sample, in the scope that was requested.
pub fn training_empty_step_matrix(cluster: bool) -> (r: StepMatrixResponse)
    ensures
        r.samples@.len() == 0,
        r.rank_count == 0,
        r.step_count == 0,
        r.cluster == cluster,
        !r.partial,
        r.nodes_queried == 0,
        r.nodes_failed@.len() == 0,
{
    StepMatrixResponse {
        samples: Vec::new(),
        rank_count: 0,
        step_count: 0,
        cluster,
        partial: false,
        nodes_queried: 0,
        nodes_failed: Vec::new(),
    }
}

pub const MODULE_HOTSPOTS_SQL: &'static str =
    "SELECT module, stage, count(DISTINCT local_step) AS steps, count(*) AS hooks, round(avg(duration), 4) AS avg_sec, round(sum(duration), 4) AS total_sec FROM python.torch_trace WHERE local_step >= GREATEST(COALESCE((SELECT max(local_step) FROM python.torch_trace), 0) - 9, 1) AND stage LIKE 'post %' AND duration > 0 AND module IS NOT NULL AND module != '' AND module != 'None' GROUP BY module, stage ORDER BY total_sec DESC LIMIT 12";

pub const COMM_SUMMARY_SQL: &'static str =
    "SELECT op, count(*) AS calls, round(avg(duration_ms), 2) AS avg_ms, round(max(duration_ms), 2) AS max_ms, sum(bytes) AS total_bytes FROM python.comm_collective GROUP BY op ORDER BY avg_ms DESC LIMIT 12";

pub const GROUP_COMMUNICATION_SQL: &'static str =
    "SELECT rank, op, group_size, participate_ranks, count(*) AS calls, round(avg(duration_ms), 3) AS avg_ms, round(max(duration_ms), 3) AS max_ms, sum(bytes) AS total_bytes FROM python.comm_collective WHERE participate_ranks IS NOT NULL AND participate_ranks != '' AND global_step >= GREATEST(COALESCE((SELECT max(global_step) FROM python.comm_collective), 0) - 19, 0) GROUP BY rank, op, group_size, participate_ranks ORDER BY max_ms DESC LIMIT 768";

pub const RANK_MEMORY_SQL: &'static str =
    "SELECT rank, local_step, allocated, max_allocated, cached FROM python.torch_trace WHERE rank >= 0 AND allocated >= 0 AND stage LIKE 'post %' ORDER BY local_step DESC, seq DESC LIMIT 1";

pub const DEVICE_MEMORY_SQL: &'static str =
    "WITH samples AS ( SELECT device_id, used_bytes, total_bytes, ts, CAST(COALESCE((SELECT value FROM process.envs WHERE name = 'LOCAL_RANK' LIMIT 1), '-1') AS INT) AS local_rank, MAX(used_bytes) OVER (PARTITION BY device_id) AS peak_used_bytes, COUNT(*) OVER (PARTITION BY device_id) AS sample_count, ROW_NUMBER() OVER (PARTITION BY device_id ORDER BY ts DESC) AS recency FROM gpu.utilization WHERE ts >= GREATEST(COALESCE((SELECT MAX(ts) FROM gpu.utilization), 0) - 300000000, 0) ) SELECT CAST(COALESCE((SELECT value FROM process.envs WHERE name = 'RANK' LIMIT 1), '-1') AS INT) AS rank, device_id, used_bytes AS current_used_bytes, peak_used_bytes, total_bytes, sample_count FROM samples WHERE recency = 1 AND (local_rank < 0 OR device_id = local_rank) ORDER BY device_id LIMIT 16";

/// An empty table in the request's scope: a cluster receipt of no peers when
/// the request fans out, a local receipt otherwise.
pub fn empty_dataframe_payload(source: &'static str, request: &EvidenceRequest) -> (r:
    EvidencePayload<DataFrame>)
    ensures
        r.value.names@.len() == 0,
        r.value.cols@.len() == 0,
        r.receipt.source == source,
        r.receipt.refresh_epoch == request.refresh_epoch,
        r.receipt.scope == request.scope,
        r.receipt.rows == 0,
        r.receipt.peers_queried == (if request.scope == EvidenceScope::ClusterFanout {
            0usize
        } else {
            1usize
        }),
        r.receipt.failed_peers == 0,
        !r.receipt.partial,
        r.receipt.context_match == ContextMatch::Unpinned,
{
    let receipt = if request.scope == EvidenceScope::ClusterFanout {
        EvidenceReceipt::cluster(source, request, 0, 0, 0, false)
    } else {
        EvidenceReceipt::local(source, request, 0)
    };
    EvidencePayload::new(DataFrame { names: Vec::new(), cols: Vec::new() }, receipt)
}

/// The note that a table was gathered from part of the cluster: its label
/// and how many peers failed, when the payload is partial or any peer failed.
pub fn partial_source(label: &'static str, state: &Option<Fetched<DataFrame>>) -> (r: Option<
    String,
>)
    ensures
        match *state {
            Some(Ok(p)) => if p.receipt.partial || p.receipt.failed_peers > 0 {
                r matches Some(t) && t@ == label@ + ": "@ + nat_text(p.receipt.failed_peers as nat)
                    + " failed peer(s)"@
            } else {
                r is None
            },
            _ => r is None,
        },
{
    match state {
        Some(Ok(payload)) => {
            if payload.receipt.partial || payload.receipt.failed_peers > 0 {
                proof {
                    reveal_strlit(": ");
                    reveal_strlit(" failed peer(s)");
                }
                let mut s = concat2(label, ": ");
                s.append(usize_text(payload.receipt.failed_peers).as_str());
                s.append(" failed peer(s)");
                Some(s)
            } else {
                None
            }
        },
        _ => None,
    }
}

/// The preview of a fetched table, nothing when it failed.
pub open spec fn frame_preview_of(r: Fetched<DataFrame>, max_rows: nat) -> Seq<char> {
    match r {
        Ok(p) => preview_text(p.value, max_rows),
        Err(_) => seq![],
    }
}

/// Adds a fetched table to a bundle, previewed to `max_rows` rows.
pub fn push_dataframe_result(
    bundle: &mut EvidenceBundle,
    source: &'static str,
    result: &Fetched<DataFrame>,
    max_rows: usize,
)
    ensures
        final(bundle)@ == (BundleView {
            entries: old(bundle)@.entries + entry_of(*result, frame_preview_of(*result, max_rows as nat)),
            failures: old(bundle)@.failures + failure_of(*result, source@),
            ..old(bundle)@
        }),
{
    let preview = match result {
        Ok(payload) => dataframe_preview(&payload.value, max_rows),
        Err(_) => String::new(),
    };
    push_fetched(bundle, source, result, preview);
}

/// The training page's evidence, once every source has answered: step
/// timing, the registry, module hotspots, collectives, communication groups,
/// allocator and device memory.
pub fn training_evidence_bundle(
    request: &EvidenceRequest,
    steps: Option<&Fetched<StepMatrixResponse>>,
    nodes: Option<&Fetched<Vec<Node>>>,
    modules: Option<&Fetched<DataFrame>>,
    collectives: Option<&Fetched<DataFrame>>,
    groups: Option<&Fetched<DataFrame>>,
    rank_memory: Option<&Fetched<DataFrame>>,
    device_memory: Option<&Fetched<DataFrame>>,
) -> (r: Option<String>)
    ensures
        (steps is None || nodes is None || modules is None || collectives is None || groups is None
            || rank_memory is None || device_memory is None) <==> r is None,
        r matches Some(text) ==> text@ == bundle_text(
            BundleView {
                entries: entry_of(
                    *steps->0,
                    match *steps->0 {
                        Ok(p) => step_matrix_text(p.value, request.context.rank),
                        Err(_) => seq![],
                    },
                ) + entry_of(
                    *nodes->0,
                    match *nodes->0 {
                        Ok(p) => nodes_text(p.value@),
                        Err(_) => seq![],
                    },
                ) + entry_of(*modules->0, frame_preview_of(*modules->0, 12)) + entry_of(
                    *collectives->0,
                    frame_preview_of(*collectives->0, 12),
                ) + entry_of(*groups->0, frame_preview_of(*groups->0, 24)) + entry_of(
                    *rank_memory->0,
                    frame_preview_of(*rank_memory->0, 8),
                ) + entry_of(*device_memory->0, frame_preview_of(*device_memory->0, 16)),
                failures: failure_of(*steps->0, "train.step"@) + failure_of(
                    *nodes->0,
                    "cluster.nodes"@,
                ) + failure_of(*modules->0, "python.torch_trace modules"@) + failure_of(
                    *collectives->0,
                    "python.comm_collective summary"@,
                ) + failure_of(*groups->0, "python.comm_collective groups"@) + failure_of(
                    *rank_memory->0,
                    "python.torch_trace allocator"@,
                ) + failure_of(*device_memory->0, "gpu.utilization memory"@),
                ..empty_bundle("training"@, *request)
            },
        ),
{
    let (steps, nodes, modules, collectives, groups, rank_memory, device_memory) = match (
        steps,
        nodes,
        modules,
        collectives,
        groups,
        rank_memory,
        device_memory,
    ) {
        (Some(a), Some(b), Some(c), Some(d), Some(e), Some(f), Some(g)) => (a, b, c, d, e, f, g),
        _ => return None,
    };
    proof {
        reveal_strlit("training");
        reveal_strlit("train.step");
        reveal_strlit("cluster.nodes");
    }
    let mut bundle = EvidenceBundle::new("training", request);
    let step_preview = match steps {
        Ok(payload) => format_step_matrix(&payload.value, request),
        Err(_) => String::new(),
    };
    push_fetched(&mut bundle, "train.step", steps, step_preview);
    let node_preview = match nodes {
        Ok(payload) => format_nodes(&payload.value),
        Err(_) => String::new(),
    };
    push_fetched(&mut bundle, "cluster.nodes", nodes, node_preview);
    push_dataframe_result(&mut bundle, "python.torch_trace modules", modules, 12);
    push_dataframe_result(&mut bundle, "python.comm_collective summary", collectives, 12);
    push_dataframe_result(&mut bundle, "python.comm_collective groups", groups, 24);
    push_dataframe_result(&mut bundle, "python.torch_trace allocator", rank_memory, 8);
    push_dataframe_result(&mut bundle, "gpu.utilization memory", device_memory, 16);
    let ghost b = bundle@;
    assert(b.entries =~= entry_of(
        *steps,
        match *steps {
            Ok(p) => step_matrix_text(p.value, request.context.rank),
            Err(_) => seq![],
        },
    ) + entry_of(
        *nodes,
        match *nodes {
            Ok(p) => nodes_text(p.value@),
            Err(_) => seq![],
        },
    ) + entry_of(*modules, frame_preview_of(*modules, 12)) + entry_of(
        *collectives,
        frame_preview_of(*collectives, 12),
    ) + entry_of(*groups, frame_preview_of(*groups, 24)) + entry_of(
        *rank_memory,
        frame_preview_of(*rank_memory, 8),
    ) + entry_of(*device_memory, frame_preview_of(*device_memory, 16)));
    Some(bundle.render())
}


// ---------------------------------------------------------------------------
// Inference

/// What the inference page says when metric history cannot be read: a
/// schema error means this runtime keeps no history, which is no failure of
/// the engines; any other error is shown as it is.
pub fn metric_history_error_detail(error: &str) -> (r: String)
    ensures
        r@ == (if contains_seq(error@, "Schema error"@) || contains_seq(error@, "No field named"@) {
            "Metric history storage is not available in this runtime; current engine status remains usable."@
        } else {
            error@
        }),
{
    proof {
        reveal_strlit("Schema error");
        reveal_strlit("No field named");
        reveal_strlit("Metric history storage is not available in this runtime; current engine status remains usable.");
    }
    let raw = chars_of(error);
    if contains_chars(&raw, &chars_of("Schema error")) || contains_chars(&raw, &chars_of("No field named")) {
        owned("Metric history storage is not available in this runtime; current engine status remains usable.")
    } else {
        owned(error)
    }
}

/// The value of a fetched payload, without its receipt: still loading,
/// failed with its error, or the value.
pub fn payload_value_state<T>(state: Option<Fetched<T>>) -> (r: Option<Result<T, String>>)
    ensures
        match state {
            None => r is None,
            Some(Ok(p)) => r == Some(Ok::<T, String>(p.value)),
            Some(Err(e)) => r == Some(Err::<T, String>(e)),
        },
{
    match state {
        None => None,
        Some(Ok(payload)) => Some(Ok(payload.value)),
        Some(Err(error)) => Some(Err(error)),
    }
}

} // verus!
