use probing_web::api::{GpuSnapshot, StepMatrixResponse};
use probing_web::capabilities::CapabilityStatus;
use probing_web::context::InvestigationContext;
use probing_web::evidence::{
    cluster_dataframe_payload, step_matrix_payload, Cell, DataFrame, EvidenceRequest,
    EvidenceScope,
};
use probing_web::pages::{
    dashboard_refresh_key, dashboard_requests, source_plan, training_empty_step_matrix,
    training_refresh_key, training_requests, SourcePlan,
    dashboard_evidence_bundle, dashboard_step_presentation, empty_dataframe_payload,
    empty_step_matrix, gpu_snapshot_preview, partial_source, payload_value_state, step_scope_label,
    training_evidence_bundle, Fetched, StepPresentation, COMM_SUMMARY_SQL, DEVICE_MEMORY_SQL,
    GROUP_COMMUNICATION_SQL, MODULE_HOTSPOTS_SQL, RANK_MEMORY_SQL,
};

fn matrix(cluster: bool, rank_count: usize) -> StepMatrixResponse {
    StepMatrixResponse {
        samples: Vec::new(),
        rank_count,
        step_count: 0,
        cluster,
        partial: false,
        nodes_queried: 8,
        nodes_failed: Vec::new(),
    }
}

#[test]
fn scope_label_follows_the_returned_response_scope() {
    let cluster = matrix(true, 64);
    let local = matrix(false, 1);

    assert_eq!(step_scope_label(Some(&cluster)), "Cluster · 64 observed ranks");
    assert_eq!(step_scope_label(Some(&local)), "Process-local response");
    assert_eq!(step_scope_label(None), "Cluster requested");
}

#[test]
fn one_step_source_state_drives_both_dashboard_views() {
    let request =
        EvidenceRequest::new(1, EvidenceScope::ClusterFanout, None, InvestigationContext::default());
    let empty: Fetched<StepMatrixResponse> = Ok(step_matrix_payload(matrix(true, 0), &request));
    let failed: Fetched<StepMatrixResponse> = Err("fan-out failed".to_string());

    assert_eq!(
        dashboard_step_presentation(CapabilityStatus::Missing, None),
        StepPresentation::NotReported
    );
    assert_eq!(
        dashboard_step_presentation(CapabilityStatus::Available, Some(&empty)),
        StepPresentation::Empty
    );
    assert_eq!(
        dashboard_step_presentation(CapabilityStatus::Available, Some(&failed)),
        StepPresentation::Failed
    );
}

#[test]
fn step_presentation_waits_for_the_catalog_and_the_source() {
    let request =
        EvidenceRequest::new(1, EvidenceScope::ClusterFanout, None, InvestigationContext::default());
    let mut ready = matrix(true, 1);
    ready.samples.push(probing_web::api::StepDurationSample {
        rank: 0,
        local_step: 3,
        coord_step: 3,
        duration_ms: 1_000,
        host: "node-0".to_string(),
        addr: "10.0.0.1:9700".to_string(),
    });
    let ready: Fetched<StepMatrixResponse> = Ok(step_matrix_payload(ready, &request));
    assert_eq!(
        dashboard_step_presentation(CapabilityStatus::Checking, Some(&ready)),
        StepPresentation::Loading
    );
    assert_eq!(
        dashboard_step_presentation(CapabilityStatus::Available, None),
        StepPresentation::Loading
    );
    assert_eq!(
        dashboard_step_presentation(CapabilityStatus::CatalogUnavailable, Some(&ready)),
        StepPresentation::Ready
    );
}

#[test]
fn training_queries_remain_bounded() {
    assert!(MODULE_HOTSPOTS_SQL.contains("LIMIT 12"));
    assert!(COMM_SUMMARY_SQL.contains("LIMIT 12"));
    assert!(GROUP_COMMUNICATION_SQL.contains("LIMIT 768"));
    assert!(GROUP_COMMUNICATION_SQL.contains("participate_ranks"));
    assert!(RANK_MEMORY_SQL.contains("ORDER BY local_step DESC, seq DESC LIMIT 1"));
    assert!(RANK_MEMORY_SQL.contains("max_allocated"));
    assert!(RANK_MEMORY_SQL.contains("stage LIKE 'post %'"));
    assert!(DEVICE_MEMORY_SQL.contains("300000000"));
    assert!(DEVICE_MEMORY_SQL.contains("ROW_NUMBER() OVER"));
    assert!(DEVICE_MEMORY_SQL.contains("LIMIT 16"));
    assert!(DEVICE_MEMORY_SQL.contains("process.envs WHERE name = 'RANK'"));
    assert!(DEVICE_MEMORY_SQL.contains("process.envs WHERE name = 'LOCAL_RANK'"));
}

#[test]
fn partial_cluster_payload_remains_visible_after_query_collection() {
    let request =
        EvidenceRequest::new(1, EvidenceScope::ClusterFanout, None, InvestigationContext::default());
    let state = Some(Ok(cluster_dataframe_payload(
        "python.comm_collective groups",
        &request,
        DataFrame { names: Vec::new(), cols: Vec::new() },
        8,
        2,
        true,
    )));

    assert_eq!(
        partial_source("communication groups", &state).as_deref(),
        Some("communication groups: 2 failed peer(s)")
    );
}

#[test]
fn complete_payloads_and_failures_carry_no_partial_note() {
    let request =
        EvidenceRequest::new(1, EvidenceScope::ClusterFanout, None, InvestigationContext::default());
    let complete = Some(Ok(empty_dataframe_payload("python.comm_collective", &request)));
    assert_eq!(partial_source("collectives", &complete), None);
    let failed: Option<Fetched<DataFrame>> = Some(Err("boom".to_string()));
    assert_eq!(partial_source("collectives", &failed), None);
    assert_eq!(partial_source("collectives", &None), None);
}

#[test]
fn empty_payload_follows_the_request_scope() {
    let cluster =
        EvidenceRequest::new(1, EvidenceScope::ClusterFanout, None, InvestigationContext::default());
    let payload = empty_dataframe_payload("gpu.utilization memory", &cluster);
    assert_eq!(payload.receipt.peers_queried, 0);
    assert_eq!(payload.receipt.rows, 0);
    let local =
        EvidenceRequest::new(1, EvidenceScope::LocalProcess, None, InvestigationContext::default());
    let payload = empty_dataframe_payload("gpu.utilization memory", &local);
    assert_eq!(payload.receipt.peers_queried, 1);
    assert_eq!(payload.receipt.scope, EvidenceScope::LocalProcess);
}

#[test]
fn empty_step_matrix_is_a_cluster_response_without_samples() {
    let m = empty_step_matrix();
    assert!(m.cluster);
    assert!(m.samples.is_empty());
    assert_eq!(m.rank_count, 0);
}

#[test]
fn gpu_preview_lists_memory_and_compute_per_device() {
    let devices = vec![
        GpuSnapshot {
            device_id: 0,
            name: "H100".to_string(),
            mem_used_pct: 500,
            used_bytes: 1,
            total_bytes: 2,
            gpu_util_pct: Some(875),
        },
        GpuSnapshot {
            device_id: 1,
            name: "H100".to_string(),
            mem_used_pct: 125,
            used_bytes: 1,
            total_bytes: 8,
            gpu_util_pct: None,
        },
    ];
    assert_eq!(
        gpu_snapshot_preview(&devices),
        "GPU 0 · memory 50.0% · compute 87.5%\nGPU 1 · memory 12.5% · compute not reported"
    );
    assert_eq!(gpu_snapshot_preview(&Vec::new()), "(empty)");
}

#[test]
fn dashboard_bundle_waits_for_both_sources_and_notes_failures() {
    let request =
        EvidenceRequest::new(3, EvidenceScope::ClusterFanout, None, InvestigationContext::default());
    let steps: Fetched<StepMatrixResponse> = Err("fan-out failed".to_string());
    assert_eq!(dashboard_evidence_bundle(&request, Some(&steps), None), None);
    let gpu: Fetched<Vec<GpuSnapshot>> = Err("no gpu".to_string());
    let text = dashboard_evidence_bundle(&request, Some(&steps), Some(&gpu)).unwrap();
    assert!(text.contains("dashboard"));
    assert!(text.contains("train.step"));
    assert!(text.contains("fan-out failed"));
    assert!(text.contains("gpu.utilization"));
}

#[test]
fn training_bundle_needs_every_source() {
    let request =
        EvidenceRequest::new(3, EvidenceScope::LocalProcess, None, InvestigationContext::default());
    let frame: Fetched<DataFrame> = Ok(empty_dataframe_payload("python.torch_trace", &request));
    let steps: Fetched<StepMatrixResponse> = Err("no steps".to_string());
    let nodes: Fetched<Vec<probing_web::api::Node>> = Err("no registry".to_string());
    assert_eq!(
        training_evidence_bundle(
            &request,
            Some(&steps),
            Some(&nodes),
            Some(&frame),
            Some(&frame),
            Some(&frame),
            Some(&frame),
            None,
        ),
        None
    );
    let mut table = DataFrame { names: vec!["module".to_string()], cols: vec![Vec::new()] };
    table.cols[0].push(Cell::Text("layer.0".to_string()));
    let modules: Fetched<DataFrame> =
        Ok(cluster_dataframe_payload("python.torch_trace modules", &request, table, 1, 0, false));
    let text = training_evidence_bundle(
        &request,
        Some(&steps),
        Some(&nodes),
        Some(&modules),
        Some(&frame),
        Some(&frame),
        Some(&frame),
        Some(&frame),
    )
    .unwrap();
    assert!(text.contains("training"));
    assert!(text.contains("layer.0"));
    assert!(text.contains("no registry"));
}

#[test]
fn payload_state_drops_the_receipt() {
    let request = EvidenceRequest::new(1, EvidenceScope::LocalProcess, None, InvestigationContext::default());
    let loaded: Fetched<u32> = Ok(probing_web::evidence::EvidencePayload::new(
        7,
        probing_web::evidence::EvidenceReceipt::local("x", &request, 1),
    ));
    assert_eq!(payload_value_state(Some(loaded)), Some(Ok(7)));
    let failed: Fetched<u32> = Err("down".to_string());
    assert_eq!(payload_value_state(Some(failed)), Some(Err("down".to_string())));
    assert_eq!(payload_value_state::<u32>(None), None);
}

fn pinned() -> InvestigationContext {
    InvestigationContext { rank: Some(3), ..Default::default() }
}

#[test]
fn refresh_keys_follow_the_poll_and_the_manual_counter() {
    assert_eq!(training_refresh_key(5, 2), 7);
    assert_eq!(training_refresh_key(u32::MAX, 3), 2);
    assert_eq!(dashboard_refresh_key(true, 9, 4), 9);
    assert_eq!(dashboard_refresh_key(false, 9, 4), 4);
}

#[test]
fn training_sources_and_nodes_share_one_request() {
    let (sources, nodes) = training_requests(7, true, pinned(), 1_000);
    assert_eq!(sources.refresh_epoch, 7);
    assert_eq!(sources.requested_at_ms, 1_000);
    assert_eq!(sources.scope, EvidenceScope::ClusterFanout);
    assert_eq!(sources.window_us, None);
    assert_eq!(sources.context, pinned());
    assert_eq!(nodes.scope, EvidenceScope::ClusterRegistry);
    assert_eq!(nodes.refresh_epoch, 7);
    assert_eq!(nodes.requested_at_ms, 1_000);
    assert_eq!(nodes.context, pinned());
    let (local, _) = training_requests(7, false, pinned(), 1_000);
    assert_eq!(local.scope, EvidenceScope::LocalProcess);
}

#[test]
fn dashboard_requests_differ_only_in_scope() {
    let (steps, gpus) = dashboard_requests(4, pinned(), 2_000);
    assert_eq!(steps.scope, EvidenceScope::ClusterFanout);
    assert_eq!(gpus.scope, EvidenceScope::LocalProcess);
    assert_eq!(EvidenceRequest { scope: EvidenceScope::ClusterFanout, ..gpus.clone() }, steps);
    assert_eq!(gpus.refresh_epoch, 4);
    assert_eq!(gpus.requested_at_ms, 2_000);
}

#[test]
fn sources_are_queried_only_when_their_columns_allow() {
    let (cluster, _) = training_requests(1, true, InvestigationContext::default(), 0);
    let (local, _) = training_requests(1, false, InvestigationContext::default(), 0);
    assert_eq!(source_plan(CapabilityStatus::Available, &cluster), SourcePlan::Query { cluster: true });
    assert_eq!(source_plan(CapabilityStatus::CatalogUnavailable, &local), SourcePlan::Query { cluster: false });
    assert_eq!(source_plan(CapabilityStatus::Missing, &cluster), SourcePlan::Empty { cluster: true });
    assert_eq!(source_plan(CapabilityStatus::Checking, &local), SourcePlan::Empty { cluster: false });
    let empty = training_empty_step_matrix(false);
    assert!(empty.samples.is_empty());
    assert!(!empty.cluster);
    assert!(training_empty_step_matrix(true).cluster);
}
