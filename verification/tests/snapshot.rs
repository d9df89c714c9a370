use probing_web::api::{
    ClusterQueryMeta, CpuSnapshot, CpuThreadRow, GpuSnapshot, Node, Process,
    RuntimeDebugResponse, StepDurationSample, StepMatrixResponse, TcpStoreEntry, TcpStoreFact,
    TcpStoreSnapshot, WaitCounter, WaitCounterSnapshot,
};
use probing_web::context::InvestigationContext;
use probing_web::evidence::{Cell, DataFrame, EvidenceRequest, EvidenceScope};
use probing_web::registry::NextRoute;
use probing_web::snapshot::{
    assemble_snapshot, empty_if_needed, escape_sql_literal, format_cpu_snapshot,
    format_cpu_threads, format_gpu_devices, format_nodes, format_runtime_debug,
    format_step_matrix, format_system_process, memory_sql, render_source, request_for_route,
    snapshot_failure, snapshot_plan, spans_sql, unavailable, SnapshotSettings, SnapshotSource,
    SourceReply,
};

#[test]
fn snapshot_ids_follow_canonical_routes() {
    assert_eq!(NextRoute::Memory {}.snapshot_id(), "memory");
    assert_eq!(NextRoute::Training {}.snapshot_id(), "training");
    assert_eq!(NextRoute::Cluster {}.snapshot_id(), "cluster-nodes");
}

#[test]
fn distributed_runtime_status_is_local_process_evidence() {
    assert!(!NextRoute::DistributedStatus {}.uses_cluster_scope());
    assert!(NextRoute::Distributed {}.uses_cluster_scope());
}

fn step_sample(rank: i32, coord_step: i64, duration_ms: i64, host: &str) -> StepDurationSample {
    StepDurationSample {
        rank,
        local_step: 0,
        coord_step,
        duration_ms,
        host: host.into(),
        addr: "a".into(),
    }
}

#[test]
fn pinned_rank_filters_step_snapshot_without_relabelling_other_ranks() {
    let matrix = StepMatrixResponse {
        samples: vec![step_sample(0, 10, 8_000, "node-0"), step_sample(1, 10, 12_000, "node-1")],
        rank_count: 2,
        step_count: 1,
        cluster: true,
        partial: false,
        nodes_queried: 2,
        nodes_failed: Vec::new(),
    };
    let request = EvidenceRequest::new(
        7,
        EvidenceScope::ClusterFanout,
        None,
        InvestigationContext { rank: Some(1), ..Default::default() },
    );

    let preview = format_step_matrix(&matrix, &request);
    assert!(preview.contains("rank 1 · step 10 · 12.000ms"));
    assert!(!preview.contains("rank 0 · step 10"));
}

#[test]
fn system_snapshot_describes_the_evidence_visible_on_the_system_page() {
    let process = Process {
        pid: 42,
        exe: "/usr/bin/python".into(),
        cmd: "python train.py".into(),
        cwd: "/workspace".into(),
        main_thread: 42,
        threads: vec![42, 43],
    };
    let cpu = CpuSnapshot {
        platform: "linux".into(),
        cpu_total_pct: 750,
        cpu_user_pct: 600,
        cpu_sys_pct: 150,
        rss_kb: 1024,
        thread_count: 2,
        ..Default::default()
    };
    let threads = vec![CpuThreadRow {
        tid: 43,
        name: "worker".into(),
        state: "R".into(),
        wchan: None,
        delta_user_ns: 7,
        delta_sys_ns: 3,
        delta_total_ns: 10,
    }];

    assert!(format_system_process(&process).contains("pid 42 · main thread 42 · 2 threads"));
    assert!(format_cpu_snapshot(&cpu).contains("CPU 75.0% · user 60.0% · system 15.0%"));
    assert!(format_cpu_threads(&threads).contains("tid 43 · worker · state=R"));
}

#[test]
fn distributed_status_snapshot_keeps_capability_failures_independent() {
    let snapshot = RuntimeDebugResponse {
        wait_counters: WaitCounterSnapshot {
            available: false,
            error: Some("wait handler missing".into()),
            source: String::new(),
            rank: 0,
            counters: Vec::new(),
        },
        tcpstore: TcpStoreSnapshot {
            available: true,
            error: None,
            values_enabled: false,
            catalog_available: true,
            catalog_mode: "complete".into(),
            total_keys: 8,
            identified_keys: 8,
            facts: Vec::new(),
            entries: Vec::new(),
        },
    };

    let preview = format_runtime_debug(&snapshot);
    assert!(preview.contains("[pytorch wait counters]\n(unavailable: wait handler missing)"));
    assert!(preview.contains("[pytorch TCPStore]\n8 keys · 8 identified"));
}

#[test]
fn runtime_debug_counts_active_counters_and_calls() {
    let counter = |name: &str, active: i64, calls: i64| WaitCounter {
        name: name.into(),
        category: "nccl".into(),
        active_count: active,
        total_calls: calls,
        avg_time_us: 125,
        max_time_us: 40,
    };
    let snapshot = RuntimeDebugResponse {
        wait_counters: WaitCounterSnapshot {
            available: true,
            error: None,
            source: "torch".into(),
            rank: 3,
            counters: vec![counter("allreduce", 1, 5), counter("barrier", 0, 7)],
        },
        tcpstore: TcpStoreSnapshot {
            available: false,
            error: None,
            ..Default::default()
        },
    };
    assert_eq!(
        format_runtime_debug(&snapshot),
        "[pytorch wait counters]\nrank 3 · source=torch · 2 counters · 1 active · 12 total calls\n\
allreduce · category=nccl · active=1 · calls=5 · avg_us=12.5 · max_us=40\n\
barrier · category=nccl · active=0 · calls=7 · avg_us=12.5 · max_us=40\n\n\
[pytorch TCPStore]\n(unavailable: capability not reported)"
    );
}

#[test]
fn tcpstore_lists_facts_then_at_most_twelve_keys() {
    let entries = (0..14)
        .map(|i| TcpStoreEntry {
            key: format!("k{i}"),
            category: "rdzv".into(),
            value_size: 4,
            redacted: i % 2 == 0,
        })
        .collect::<Vec<_>>();
    let snapshot = RuntimeDebugResponse {
        wait_counters: WaitCounterSnapshot { available: false, ..Default::default() },
        tcpstore: TcpStoreSnapshot {
            available: true,
            catalog_mode: "partial".into(),
            total_keys: 14,
            identified_keys: 2,
            values_enabled: true,
            facts: vec![TcpStoreFact { label: "world".into(), value: "8".into() }],
            entries,
            ..Default::default()
        },
    };
    let text = format_runtime_debug(&snapshot);
    assert!(text.starts_with("[pytorch wait counters]\n(unavailable: capability not reported)\n\n"));
    assert!(text.contains("[pytorch TCPStore]\n14 keys · 2 identified · catalog=partial · values=true\nworld=8\nk0 · category=rdzv · 4 bytes · redacted=true"));
    assert!(text.contains("k11 · category=rdzv"));
    assert!(!text.contains("k12"));
}

#[test]
fn step_matrix_shows_the_twelve_newest_samples_newest_first() {
    let samples = (0..15)
        .map(|i| step_sample(0, i, 1_500, "h"))
        .collect::<Vec<_>>();
    let matrix = StepMatrixResponse {
        samples,
        rank_count: 1,
        step_count: 15,
        cluster: false,
        partial: false,
        nodes_queried: 1,
        nodes_failed: vec![],
    };
    let request = EvidenceRequest::new(1, EvidenceScope::LocalProcess, None, Default::default());
    let text = format_step_matrix(&matrix, &request);
    let lines = text.lines().collect::<Vec<_>>();
    assert_eq!(lines[0], "[train.step · 1 ranks · 15 steps · 1 peers · 0 failed · partial=false]");
    assert_eq!(lines[1], "rank 0 · step 14 · 1.500ms · h");
    assert_eq!(lines[12], "rank 0 · step 3 · 1.500ms · h");
    assert_eq!(lines.len(), 13);
}

#[test]
fn step_matrix_without_matching_rows_says_so() {
    let matrix = StepMatrixResponse {
        samples: vec![step_sample(0, 1, 1, "h")],
        ..Default::default()
    };
    let request = EvidenceRequest::new(
        1,
        EvidenceScope::LocalProcess,
        None,
        InvestigationContext { rank: Some(5), ..Default::default() },
    );
    assert!(format_step_matrix(&matrix, &request).ends_with("]\n(no matching rows)"));
}

#[test]
fn gpu_devices_follow_the_pinned_device() {
    let devices = vec![
        GpuSnapshot {
            device_id: 0,
            name: "A100".into(),
            mem_used_pct: 505,
            used_bytes: 10,
            total_bytes: 20,
            gpu_util_pct: Some(992),
        },
        GpuSnapshot {
            device_id: 1,
            name: "A100".into(),
            mem_used_pct: 0,
            used_bytes: 0,
            total_bytes: 20,
            gpu_util_pct: None,
        },
    ];
    let all = EvidenceRequest::new(1, EvidenceScope::LocalProcess, None, Default::default());
    assert_eq!(
        format_gpu_devices(&devices, &all),
        "[gpu.utilization]\nGPU 0 · A100 · memory 50.5% (10/20) · compute 99.2%\nGPU 1 · A100 · memory 0.0% (0/20) · compute not reported"
    );
    let pinned = EvidenceRequest::new(
        1,
        EvidenceScope::LocalProcess,
        None,
        InvestigationContext { device_id: Some(1), ..Default::default() },
    );
    assert_eq!(
        format_gpu_devices(&devices, &pinned),
        "[gpu.utilization]\nGPU 1 · A100 · memory 0.0% (0/20) · compute not reported"
    );
    let missing = EvidenceRequest::new(
        1,
        EvidenceScope::LocalProcess,
        None,
        InvestigationContext { device_id: Some(7), ..Default::default() },
    );
    assert_eq!(format_gpu_devices(&devices, &missing), "[gpu.utilization]\n(no matching rows)");
}

#[test]
fn node_listing_is_capped_at_twelve() {
    let nodes = (0..14)
        .map(|i| Node {
            host: format!("h{i}"),
            addr: "a".into(),
            rank: if i == 0 { None } else { Some(i) },
            status: if i == 1 { Some("running".into()) } else { None },
            ..Default::default()
        })
        .collect::<Vec<_>>();
    let text = format_nodes(&nodes);
    assert!(text.starts_with("[cluster.nodes]\n14 registered node(s)\nrank — · h0 · a · status not reported\nrank 1 · h1 · a · running\n"));
    assert!(text.ends_with("rank 11 · h11 · a · status not reported\n… +2 nodes"));
}

#[test]
fn notes_and_empty_lists() {
    assert_eq!(unavailable("cpu.tasks", "boom"), "[cpu.tasks]\n(unavailable: boom)");
    assert_eq!(empty_if_needed(vec![]), "(no matching rows)");
    assert_eq!(empty_if_needed(vec!["a".into(), "b".into()]), "a\nb");
}

#[test]
fn memory_query_uses_the_window_and_the_pinned_device() {
    let sql = memory_sql(Some(60_000_000), Some(3));
    assert!(sql.contains("- 60000000, 0) AND device_id = 3 ORDER BY ts DESC LIMIT 16"));
    let default = memory_sql(None, None);
    assert!(default.contains("- 300000000, 0) ORDER BY ts DESC LIMIT 16"));
}

#[test]
fn span_query_escapes_quotes_and_joins_filters() {
    assert_eq!(escape_sql_literal("it's"), "it''s");
    let context = InvestigationContext {
        tid: Some(17),
        trace_id: Some(9),
        span_name: Some("a'b".into()),
        ..Default::default()
    };
    assert_eq!(
        spans_sql(&context),
        "SELECT record_type, name, thread_id, trace_id, count(*) AS events FROM python.trace_event WHERE thread_id = 17 AND trace_id = 9 AND name = 'a''b' GROUP BY record_type, name, thread_id, trace_id ORDER BY events DESC LIMIT 16"
    );
    assert_eq!(
        spans_sql(&InvestigationContext::default()),
        "SELECT record_type, name, thread_id, trace_id, count(*) AS events FROM python.trace_event GROUP BY record_type, name, thread_id, trace_id ORDER BY events DESC LIMIT 16"
    );
}

#[test]
fn memory_requests_carry_the_window_and_their_scope_setting() {
    let settings = SnapshotSettings {
        training_cluster_scope: false,
        memory_cluster_scope: true,
        memory_window_minutes: 5,
    };
    let memory = request_for_route(&NextRoute::Memory {}, 3, &settings, Default::default());
    assert_eq!(memory.scope, EvidenceScope::ClusterFanout);
    assert_eq!(memory.window_us, Some(300_000_000));
    let training = request_for_route(&NextRoute::Training {}, 3, &settings, Default::default());
    assert_eq!(training.scope, EvidenceScope::LocalProcess);
    assert_eq!(training.window_us, None);
    let dashboard = request_for_route(&NextRoute::Dashboard {}, 3, &settings, Default::default());
    assert_eq!(dashboard.scope, EvidenceScope::ClusterFanout);
}

#[test]
fn plans_name_each_route_s_sources() {
    let request = EvidenceRequest::new(1, EvidenceScope::ClusterFanout, None, Default::default());
    assert_eq!(
        snapshot_plan(&NextRoute::Dashboard {}, &request),
        vec![SnapshotSource::StepMatrix { limit: 40, cluster: true }, SnapshotSource::GpuLatest]
    );
    assert_eq!(
        snapshot_plan(&NextRoute::DistributedStatus {}, &request),
        vec![SnapshotSource::RuntimeDebug]
    );
    assert_eq!(
        snapshot_plan(&NextRoute::StackThread { tid: "12".into() }, &request),
        vec![SnapshotSource::Callstack { tid: Some("12".into()) }]
    );
    let pinned = EvidenceRequest::new(
        1,
        EvidenceScope::LocalProcess,
        None,
        InvestigationContext { tid: Some(5), ..Default::default() },
    );
    assert_eq!(
        snapshot_plan(&NextRoute::Stack {}, &pinned),
        vec![SnapshotSource::Callstack { tid: Some("5".into()) }]
    );
    assert_eq!(snapshot_plan(&NextRoute::Analytics {}, &request), vec![SnapshotSource::NoLiveSource]);
    assert_eq!(snapshot_plan(&NextRoute::System {}, &request).len(), 4);
}

#[test]
fn replies_render_by_source() {
    let request = EvidenceRequest::new(1, EvidenceScope::ClusterFanout, None, Default::default());
    let query = SnapshotSource::Query {
        source: "python.trace_event",
        sql: "SELECT 1".into(),
        max_rows: 1,
    };
    let frame = DataFrame {
        names: vec!["n".into()],
        cols: vec![vec![Cell::I64(1), Cell::I64(2)]],
    };
    let meta = ClusterQueryMeta { nodes_queried: 3, nodes_failed: vec!["x".into()], partial: true };
    assert_eq!(
        render_source(&query, &SourceReply::ClusterFrame(meta, frame.clone()), &request),
        "[python.trace_event · 3 peers · 1 failed · partial=true]\nn\n1\n… +1 rows"
    );
    assert_eq!(
        render_source(&query, &SourceReply::Frame(frame), &request),
        "[python.trace_event]\nn\n1\n… +1 rows"
    );
    assert_eq!(
        render_source(&SnapshotSource::CpuLatest, &SourceReply::Cpu(None), &request),
        "[cpu.utilization]\n(no process-scope row)"
    );
    assert_eq!(
        render_source(&SnapshotSource::Nodes, &SourceReply::Failed("down".into()), &request),
        "[cluster.nodes]\n(unavailable: down)"
    );
    assert_eq!(
        render_source(
            &SnapshotSource::ProfilerConfig,
            &SourceReply::ProfilerConfig(vec![("probing.pprof.frequency".into(), "99".into())]),
            &request
        ),
        "[profiler config]\nprobing.pprof.frequency=99"
    );
    let frames = (0..20).map(|i| format!("f{i}")).collect::<Vec<_>>();
    let stack = render_source(
        &SnapshotSource::Callstack { tid: None },
        &SourceReply::Callstack(frames),
        &request,
    );
    assert!(stack.starts_with("[callstack]\nf0\n"));
    assert!(stack.ends_with("f15"));
    assert_eq!(
        render_source(&SnapshotSource::NoLiveSource, &SourceReply::Failed(String::new()), &request),
        "[page evidence]\nNo page-specific live source is registered."
    );
}

#[test]
fn snapshot_header_and_failure_text() {
    let request = EvidenceRequest::new(
        8,
        EvidenceScope::LocalProcess,
        None,
        InvestigationContext { host: Some("node-1".into()), ..Default::default() },
    );
    assert_eq!(
        assemble_snapshot(&NextRoute::System {}, &request, vec!["a".into(), "b".into()]),
        "[next evidence]\npage=system · snapshot=8 · scope=local process · context=host=node-1\n\na\n\nb"
    );
    assert_eq!(
        snapshot_failure(&request, "offline"),
        "[next evidence]\nsnapshot=8 · local process\n(snapshot unavailable: offline)"
    );
}
