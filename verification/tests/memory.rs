use probing_web::api::{ClusterQueryMeta, Node};
use probing_web::context::InvestigationContext;
use probing_web::evidence::{Cell, ContextMatch, DataFrame, EvidenceRequest, EvidenceScope};
use probing_web::memory::{
    column_index, dataframe_rows, device_history_sql, device_summary_sql, ele_i64, ele_u64,
    empty_memory_query, memory_context_label, memory_context_match, memory_context_requested,
    memory_evidence_bundle, memory_query_payload, parse_devices, parse_history,
    select_device_for_context, DeviceMemory, MemoryPoint, ALLOCATION_EVIDENCE_SQL, ALLOCATOR_SQL, device_map, device_on_map_pinned, memory_totals, device_timeline, timeline_notice};
use probing_web::pages::Fetched;

fn device(rank: Option<i32>, device_id: i32, host: &str) -> DeviceMemory {
    DeviceMemory {
        rank,
        device_id,
        host: host.to_string(),
        current_bytes: 1,
        peak_bytes: 2,
        total_bytes: 4,
        sample_count: 1,
    }
}

fn node(host: &str, rank: i32) -> Node {
    Node {
        host: host.to_string(),
        addr: format!("{host}:9700"),
        rank: Some(rank),
        group_rank: None,
        local_rank: Some(0),
        world_size: Some(4),
        role: None,
        role_name: None,
        status: None,
        timestamp: 0,
    }
}

#[test]
fn memory_queries_are_bounded_and_keep_scope_explicit() {
    let summary = device_summary_sql(300_000_000);
    let history = device_history_sql(300_000_000);
    assert!(summary.contains("LOCAL_RANK"));
    assert!(summary.contains("LIMIT 16"));
    assert!(history.contains("LIMIT 1920"));
    assert!(ALLOCATOR_SQL.contains("LIMIT 1"));
    assert!(ALLOCATION_EVIDENCE_SQL.contains("LIMIT 20"));
}

#[test]
fn memory_queries_embed_the_window() {
    let summary = device_summary_sql(300_000_000);
    assert!(summary.contains("FROM gpu.utilization), 0) - 300000000, 0)"));
    assert!(summary.ends_with("ORDER BY rank, device_id LIMIT 16"));
    let history = device_history_sql(60);
    assert!(history.contains("- 60, 0)"));
    assert!(history.ends_with("ORDER BY ts ASC LIMIT 1920"));
}

#[test]
fn pinned_memory_coordinates_never_fall_back_to_another_device() {
    let devices = vec![device(Some(0), 0, "node-00")];
    let context = InvestigationContext {
        rank: Some(58),
        host: Some("node-07".to_string()),
        device_id: Some(2),
        ..Default::default()
    };

    assert_eq!(select_device_for_context(&devices, &context), None);
}

#[test]
fn memory_defaults_to_first_device_only_without_pinned_coordinates() {
    let d = device(Some(0), 0, "node-00");

    assert_eq!(
        select_device_for_context(&vec![d.clone()], &InvestigationContext::default()),
        Some(d)
    );
}

#[test]
fn pinned_device_is_the_first_with_every_pinned_coordinate() {
    let devices = vec![
        device(Some(0), 0, "node-00"),
        device(Some(1), 1, "node-00"),
        device(Some(2), 1, "node-01"),
    ];
    let context = InvestigationContext { device_id: Some(1), ..Default::default() };
    assert_eq!(select_device_for_context(&devices, &context), Some(devices[1].clone()));
    let context = InvestigationContext {
        device_id: Some(1),
        host: Some("node-01".to_string()),
        ..Default::default()
    };
    assert_eq!(select_device_for_context(&devices, &context), Some(devices[2].clone()));
    assert_eq!(
        select_device_for_context(&Vec::new(), &InvestigationContext::default()),
        None
    );
}

#[test]
fn memory_context_follows_rank_host_and_device_pins_only() {
    let mut context = InvestigationContext { pid: Some(7), ..Default::default() };
    assert!(!memory_context_requested(&context));
    let request = EvidenceRequest::new(1, EvidenceScope::LocalProcess, None, context.clone());
    assert_eq!(memory_context_match(&request, &context, false), ContextMatch::Unpinned);
    context.device_id = Some(3);
    assert!(memory_context_requested(&context));
    let request = EvidenceRequest::new(1, EvidenceScope::LocalProcess, None, context.clone());
    assert_eq!(memory_context_match(&request, &context, true), ContextMatch::Matched);
    assert_eq!(memory_context_match(&request, &context, false), ContextMatch::OutOfScope);
}

#[test]
fn memory_context_label_lists_rank_host_and_gpu() {
    let context = InvestigationContext {
        rank: Some(3),
        host: Some("node-01".to_string()),
        device_id: Some(1),
        ..Default::default()
    };
    assert_eq!(memory_context_label(&context), "rank 3 · node-01 · GPU 1");
    assert_eq!(memory_context_label(&InvestigationContext::default()), "");
    let gpu_only = InvestigationContext { device_id: Some(0), ..Default::default() };
    assert_eq!(memory_context_label(&gpu_only), "GPU 0");
}

#[test]
fn cells_read_as_integers() {
    assert_eq!(ele_i64(Some(&Cell::I64(-5))), Some(-5));
    assert_eq!(ele_i64(Some(&Cell::I32(7))), Some(7));
    assert_eq!(ele_i64(Some(&Cell::F64(29_999))), Some(2));
    assert_eq!(ele_i64(Some(&Cell::F32(-29_999))), Some(-2));
    assert_eq!(ele_i64(Some(&Cell::Text("+42".to_string()))), Some(42));
    assert_eq!(ele_i64(Some(&Cell::Text("-9223372036854775808".to_string()))), Some(i64::MIN));
    assert_eq!(ele_i64(Some(&Cell::Text("9223372036854775808".to_string()))), None);
    assert_eq!(ele_i64(Some(&Cell::Text("4x".to_string()))), None);
    assert_eq!(ele_i64(Some(&Cell::Text("-".to_string()))), None);
    assert_eq!(ele_i64(Some(&Cell::Nil)), None);
    assert_eq!(ele_i64(None), None);
    assert_eq!(ele_u64(Some(&Cell::I64(-1))), None);
    assert_eq!(ele_u64(Some(&Cell::I64(12))), Some(12));
}

#[test]
fn columns_are_found_by_name_or_suffix() {
    let frame = DataFrame {
        names: vec!["Rank".to_string(), "gpu_device_id".to_string(), "device_id".to_string()],
        cols: vec![Vec::new(), Vec::new(), Vec::new()],
    };
    assert_eq!(column_index(&frame, "rank"), Some(0));
    assert_eq!(column_index(&frame, "device_id"), Some(1));
    assert_eq!(column_index(&frame, "ts"), None);
}

#[test]
fn devices_are_sorted_by_host_rank_and_device() {
    let frame = DataFrame {
        names: vec![
            "rank".to_string(),
            "device_id".to_string(),
            "current_used_bytes".to_string(),
            "peak_used_bytes".to_string(),
            "total_bytes".to_string(),
            "sample_count".to_string(),
        ],
        cols: vec![
            vec![Cell::I64(1), Cell::I64(0), Cell::I64(-1), Cell::I64(0)],
            vec![Cell::I64(0), Cell::I64(1), Cell::I64(0), Cell::Nil],
            vec![Cell::I64(10), Cell::I64(20), Cell::I64(30), Cell::I64(40)],
            vec![Cell::I64(15), Cell::Nil, Cell::I64(35), Cell::I64(45)],
            vec![Cell::I64(100), Cell::I64(100), Cell::I64(100), Cell::I64(100)],
            vec![Cell::I64(3), Cell::I64(4), Cell::Text("5".to_string()), Cell::I64(6)],
        ],
    };
    let nodes = vec![node("node-b", 0)];
    let devices = parse_devices(&frame, &nodes);
    assert_eq!(devices.len(), 3);
    assert_eq!(devices[0].host, "local node");
    assert_eq!(devices[0].rank, None);
    assert_eq!(devices[0].sample_count, 5);
    assert_eq!(devices[1].host, "node-b");
    assert_eq!(devices[1].device_id, 1);
    assert_eq!(devices[1].peak_bytes, 20);
    assert_eq!(devices[2].host, "rank 1");
    assert_eq!(devices[2].current_bytes, 10);
}

#[test]
fn history_keeps_complete_rows_in_order() {
    let frame = DataFrame {
        names: vec![
            "rank".to_string(),
            "device_id".to_string(),
            "ts".to_string(),
            "used_bytes".to_string(),
            "total_bytes".to_string(),
        ],
        cols: vec![
            vec![Cell::I64(0), Cell::I64(0), Cell::I64(-1)],
            vec![Cell::I64(0), Cell::I64(0), Cell::I64(1)],
            vec![Cell::I64(5), Cell::Nil, Cell::I64(7)],
            vec![Cell::I64(1), Cell::I64(2), Cell::I64(3)],
            vec![Cell::I64(8), Cell::I64(8), Cell::I64(8)],
        ],
    };
    assert_eq!(
        parse_history(&frame),
        vec![
            MemoryPoint { rank: Some(0), device_id: 0, ts: 5, used_bytes: 1, total_bytes: 8 },
            MemoryPoint { rank: None, device_id: 1, ts: 7, used_bytes: 3, total_bytes: 8 },
        ]
    );
}

#[test]
fn memory_payload_counts_the_longest_column_and_keeps_fanout() {
    let request =
        EvidenceRequest::new(1, EvidenceScope::ClusterFanout, None, InvestigationContext::default());
    let frame = DataFrame {
        names: vec!["a".to_string(), "b".to_string()],
        cols: vec![vec![Cell::I64(1)], vec![Cell::I64(1), Cell::I64(2)]],
    };
    assert_eq!(dataframe_rows(&frame), 2);
    let meta = ClusterQueryMeta {
        nodes_queried: 4,
        nodes_failed: vec!["node-3".to_string()],
        partial: true,
    };
    let payload = memory_query_payload("gpu.utilization.latest", &request, frame.clone(), Some(&meta));
    assert_eq!(payload.receipt.rows, 2);
    assert_eq!(payload.receipt.peers_queried, 4);
    assert_eq!(payload.receipt.failed_peers, 1);
    assert!(payload.receipt.partial);
    let local = memory_query_payload("gpu.utilization.latest", &request, frame, None);
    assert_eq!(local.receipt.peers_queried, 1);
    assert!(!local.receipt.partial);
    let empty = empty_memory_query("gpu.utilization.history", &request);
    assert_eq!(empty.receipt.rows, 0);
}

#[test]
fn memory_bundle_waits_for_every_source() {
    let request =
        EvidenceRequest::new(1, EvidenceScope::LocalProcess, None, InvestigationContext::default());
    let nodes: Fetched<Vec<Node>> = Err("registry down".to_string());
    let frame: Fetched<_> = Ok(empty_memory_query("gpu.utilization.latest", &request));
    assert_eq!(
        memory_evidence_bundle(&request, Some(&nodes), Some(&frame), Some(&frame), None, Some(&frame)),
        None
    );
    let text = memory_evidence_bundle(
        &request,
        Some(&nodes),
        Some(&frame),
        Some(&frame),
        Some(&frame),
        Some(&frame),
    )
    .unwrap();
    assert!(text.contains("memory"));
    assert!(text.contains("registry down"));
    assert!(text.contains("gpu.utilization.latest"));
}

fn map_device(host: &str, rank: Option<i32>, id: i32) -> DeviceMemory {
    DeviceMemory {
        rank,
        device_id: id,
        host: host.to_string(),
        current_bytes: 0,
        peak_bytes: 0,
        total_bytes: 0,
        sample_count: 0,
    }
}

#[test]
fn device_map_groups_devices_by_host_in_rank_order() {
    let devices = vec![
        map_device("node-b", Some(3), 1),
        map_device("node-a", Some(1), 0),
        map_device("node-b", None, 0),
        map_device("node-b", Some(3), 0),
        map_device("node-a", Some(0), 7),
    ];
    let map = device_map(&devices);
    let shape: Vec<(String, Vec<(Option<i32>, i32)>)> = map
        .iter()
        .map(|(host, rows)| (host.clone(), rows.iter().map(|d| (d.rank, d.device_id)).collect()))
        .collect();
    assert_eq!(
        shape,
        vec![
            ("node-a".to_string(), vec![(Some(0), 7), (Some(1), 0)]),
            ("node-b".to_string(), vec![(None, 0), (Some(3), 0), (Some(3), 1)]),
        ]
    );
    let pinned = InvestigationContext { device_id: Some(0), rank: Some(3), ..Default::default() };
    assert!(device_on_map_pinned(&pinned, &map_device("node-b", Some(3), 0)));
    assert!(device_on_map_pinned(&pinned, &map_device("node-b", None, 0)));
    assert!(!device_on_map_pinned(&pinned, &map_device("node-b", Some(2), 0)));
    assert!(!device_on_map_pinned(&pinned, &map_device("node-b", Some(3), 1)));
}

#[test]
fn device_overview_totals_add_up_and_headroom_saturates() {
    let mut a = map_device("h", Some(0), 0);
    a.current_bytes = 30;
    a.peak_bytes = 50;
    a.total_bytes = 100;
    let mut b = map_device("h", Some(1), 1);
    b.current_bytes = 80;
    b.peak_bytes = 90;
    b.total_bytes = 40;
    let totals = memory_totals(&vec![a.clone(), b]);
    assert_eq!((totals.current, totals.peak, totals.capacity, totals.headroom), (110, 140, 140, 30));
    let mut full = a;
    full.current_bytes = 200;
    let over = memory_totals(&vec![full]);
    assert_eq!(over.headroom, 0);
    let none = memory_totals(&Vec::new());
    assert_eq!((none.current, none.capacity, none.headroom), (0, 0, 0));
}

fn sample(rank: Option<i32>, device_id: i32, ts: i64, used: u64) -> MemoryPoint {
    MemoryPoint { rank, device_id, ts, used_bytes: used, total_bytes: 100 }
}

#[test]
fn the_timeline_holds_the_selected_device_by_time() {
    let points = vec![
        sample(Some(0), 1, 30, 1),
        sample(Some(0), 0, 20, 2),
        sample(Some(1), 1, 10, 3),
        sample(Some(0), 1, 10, 4),
        sample(Some(0), 1, 30, 5),
    ];
    let selected = map_device("h", Some(0), 1);
    let used: Vec<u64> = device_timeline(&points, &selected).iter().map(|p| p.used_bytes).collect();
    assert_eq!(used, vec![4, 1, 5]);
    assert!(device_timeline(&points, &map_device("h", None, 1)).is_empty());
    assert_eq!(
        timeline_notice(Some(&selected), &None, 5),
        (
            "No samples for the selected device".to_string(),
            "No GPU 1 samples were returned inside the 5 minute window.".to_string()
        )
    );
    assert_eq!(
        timeline_notice(None, &None, 5),
        (
            "Select a device".to_string(),
            "Choose a device in the physical map to inspect its sampled timeline.".to_string()
        )
    );
    assert_eq!(
        timeline_notice(None, &Some("rank 3 has no GPU 2".to_string()), 5),
        ("No matching device sample".to_string(), "rank 3 has no GPU 2".to_string())
    );
}
