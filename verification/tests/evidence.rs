use probing_web::context::InvestigationContext;
use probing_web::evidence::{
    cluster_dataframe_payload, dataframe_preview, evidence_cell, step_matrix_payload, Cell,
    ContextMatch, DataFrame, EvidenceBundle, EvidenceReceipt, EvidenceRequest, EvidenceScope,
};
use probing_web::api::StepMatrixResponse;

#[test]
fn one_refresh_keeps_a_stable_epoch_across_receipts() {
    let request = EvidenceRequest::new(
        42,
        EvidenceScope::ClusterFanout,
        Some(300_000_000),
        InvestigationContext::default(),
    );
    let devices = EvidenceReceipt::cluster("gpu.utilization", &request, 64, 8, 0, false);
    let allocator = EvidenceReceipt::cluster("python.torch_trace", &request, 64, 8, 1, true);

    assert_eq!(devices.refresh_epoch, allocator.refresh_epoch);
    assert_eq!(devices.scope, allocator.scope);
    assert!(!devices.partial);
    assert!(allocator.partial);
}

#[test]
fn unmatched_pins_are_not_silently_relabelled_as_local_data() {
    let context = InvestigationContext {
        rank: Some(57),
        host: Some("node-07".into()),
        device_id: Some(1),
        ..Default::default()
    };
    let local = EvidenceRequest::new(1, EvidenceScope::LocalProcess, None, context.clone());
    let cluster = EvidenceRequest::new(2, EvidenceScope::ClusterFanout, None, context);

    assert_eq!(local.context_match(false), ContextMatch::OutOfScope);
    assert_eq!(cluster.context_match(false), ContextMatch::NoMatch);
    assert_eq!(cluster.context_match(true), ContextMatch::Matched);
}

#[test]
fn bundle_keeps_scope_partial_state_and_sampling_time_with_preview() {
    let request = EvidenceRequest::new(
        9,
        EvidenceScope::ClusterFanout,
        None,
        InvestigationContext::default(),
    );
    let receipt = EvidenceReceipt::cluster("python.comm_collective", &request, 12, 8, 2, true);
    let mut bundle = EvidenceBundle::new("training", &request);
    bundle.push(&receipt, "rank\tmax_ms\n57\t12.4".into());

    let rendered = bundle.render();
    assert!(rendered.contains("page=training · refresh=9"));
    assert!(rendered.contains("cluster fan-out · rows=12 · peers=8 · failed=2 · partial=true"));
    assert!(rendered.contains("rank\tmax_ms\n57\t12.4"));
}

#[test]
fn cluster_dataframe_payload_does_not_discard_partial_metadata() {
    let request = EvidenceRequest::new(
        3,
        EvidenceScope::ClusterFanout,
        None,
        InvestigationContext::default(),
    );
    let dataframe = DataFrame {
        names: vec!["rank".into()],
        cols: vec![vec![Cell::I32(0), Cell::I32(1)]],
    };
    let payload =
        cluster_dataframe_payload("python.comm_collective", &request, dataframe, 8, 2, true);

    assert_eq!(payload.receipt.rows, 2);
    assert_eq!(payload.receipt.peers_queried, 8);
    assert_eq!(payload.receipt.failed_peers, 2);
    assert!(payload.receipt.partial);
}

#[test]
fn unpinned_context_never_reports_a_match_or_a_miss() {
    for scope in [
        EvidenceScope::LocalProcess,
        EvidenceScope::ClusterRegistry,
        EvidenceScope::ClusterFanout,
    ] {
        let request = EvidenceRequest::new(5, scope, None, InvestigationContext::default());
        assert_eq!(request.context_match(true), ContextMatch::Unpinned);
        assert_eq!(request.context_match(false), ContextMatch::Unpinned);
    }
}

#[test]
fn for_scope_keeps_refresh_time_and_coordinates() {
    let context = InvestigationContext { rank: Some(3), ..Default::default() };
    let request = EvidenceRequest::new(11, EvidenceScope::LocalProcess, None, context.clone());
    let widened = request.for_scope(EvidenceScope::ClusterFanout, Some(60_000_000));
    assert_eq!(widened.refresh_epoch, 11);
    assert_eq!(widened.requested_at_ms, request.requested_at_ms);
    assert_eq!(widened.scope, EvidenceScope::ClusterFanout);
    assert_eq!(widened.window_us, Some(60_000_000));
    assert_eq!(widened.context, context);
}

#[test]
fn local_receipt_reports_one_complete_peer() {
    let request =
        EvidenceRequest::new(1, EvidenceScope::LocalProcess, None, InvestigationContext::default());
    let receipt = EvidenceReceipt::local("cpu.utilization", &request, 3)
        .with_context_match(ContextMatch::Matched);
    assert_eq!(receipt.peers_queried, 1);
    assert_eq!(receipt.failed_peers, 0);
    assert!(!receipt.partial);
    assert_eq!(receipt.rows, 3);
    assert_eq!(receipt.context_match, ContextMatch::Matched);
}

#[test]
fn bundle_renders_header_entries_and_failures_in_order() {
    let context = InvestigationContext { rank: Some(7), ..Default::default() };
    let request = EvidenceRequest::new(4, EvidenceScope::LocalProcess, None, context);
    let mut bundle = EvidenceBundle::new("memory", &request);
    let receipt = EvidenceReceipt::local("gpu.utilization", &request, 2);
    bundle.push(&receipt, "a\tb".into());
    bundle.push_failure("python.torch_trace", "timeout");
    let rendered = bundle.render();
    let expected_header = format!(
        "[next evidence]\npage=memory · refresh=4 · requested_at_ms={} · context=rank=7",
        request.requested_at_ms
    );
    let expected_entry = format!(
        "[gpu.utilization · local process · rows=2 · peers=1 · failed=0 · partial=false · collected_at_ms={}]\na\tb",
        receipt.collected_at_ms
    );
    assert_eq!(
        rendered,
        format!(
            "{expected_header}\n\n{expected_entry}\n\n[python.torch_trace]\n(unavailable: timeout)"
        )
    );
}

#[test]
fn step_matrix_payload_follows_the_matrix_scope() {
    let request =
        EvidenceRequest::new(2, EvidenceScope::ClusterFanout, None, InvestigationContext::default());
    let cluster = StepMatrixResponse {
        samples: vec![Default::default(), Default::default()],
        cluster: true,
        partial: true,
        nodes_queried: 4,
        nodes_failed: vec!["peer".into()],
        ..Default::default()
    };
    let payload = step_matrix_payload(cluster, &request);
    assert_eq!(payload.receipt.source, "train.step");
    assert_eq!(payload.receipt.rows, 2);
    assert_eq!(payload.receipt.peers_queried, 4);
    assert_eq!(payload.receipt.failed_peers, 1);
    assert!(payload.receipt.partial);

    let local = StepMatrixResponse { partial: true, nodes_queried: 4, ..Default::default() };
    let payload = step_matrix_payload(local, &request);
    assert_eq!(payload.receipt.peers_queried, 1);
    assert_eq!(payload.receipt.failed_peers, 0);
    assert!(!payload.receipt.partial);
}

#[test]
fn dataframe_preview_lists_names_rows_and_the_remainder() {
    let dataframe = DataFrame {
        names: vec!["rank".into(), "max_ms".into()],
        cols: vec![
            vec![Cell::I32(57), Cell::I32(58), Cell::I32(59)],
            vec![Cell::F64(124_000), Cell::Nil],
        ],
    };
    assert_eq!(
        dataframe_preview(&dataframe, 2),
        "rank\tmax_ms\n57\t12.4000\n58\t—\n… +1 rows"
    );
    assert_eq!(
        dataframe_preview(&dataframe, 10),
        "rank\tmax_ms\n57\t12.4000\n58\t—\n59\t—"
    );
}

#[test]
fn empty_dataframes_preview_as_empty() {
    let no_rows = DataFrame { names: vec!["rank".into()], cols: vec![vec![]] };
    let no_names = DataFrame { names: vec![], cols: vec![vec![Cell::I32(1)]] };
    assert_eq!(dataframe_preview(&no_rows, 4), "(empty)");
    assert_eq!(dataframe_preview(&no_names, 4), "(empty)");
}

#[test]
fn cells_render_like_their_values() {
    assert_eq!(evidence_cell(&Cell::Nil), "—");
    assert_eq!(evidence_cell(&Cell::Bool(true)), "true");
    assert_eq!(evidence_cell(&Cell::I32(-5)), "-5");
    assert_eq!(evidence_cell(&Cell::I64(9_000_000_000)), "9000000000");
    assert_eq!(evidence_cell(&Cell::F32(-5)), "-0.0005");
    assert_eq!(evidence_cell(&Cell::F64(31_415_9)), "31.4159");
    assert_eq!(evidence_cell(&Cell::Text("x".into())), "x");
    assert_eq!(evidence_cell(&Cell::Url("http://h".into())), "http://h");
    assert_eq!(evidence_cell(&Cell::DataTime(17)), "17");
}

#[test]
fn scope_labels_name_the_scope() {
    assert_eq!(EvidenceScope::LocalProcess.label(), "local process");
    assert_eq!(EvidenceScope::ClusterRegistry.label(), "cluster registry");
    assert_eq!(EvidenceScope::ClusterFanout.label(), "cluster fan-out");
}
