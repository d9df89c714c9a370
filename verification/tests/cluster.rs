use probing_web::api::Node;
use probing_web::cluster::{
    format_heartbeat_age, format_heartbeat_timestamp, node_matches_context, node_matches_query,
    status_classes, registry_rows, node_row_labels,
};
use probing_web::context::InvestigationContext;
use probing_web::model::{sample_coordinate, RegistryHealth};
use probing_web::api::StepDurationSample;
use probing_web::registry::InvestigationSupport;

fn registry_node(host: &str, rank: Option<i32>, world_size: Option<i32>) -> Node {
    Node {
        host: host.to_string(),
        rank,
        world_size,
        ..Default::default()
    }
}

#[test]
fn registry_health_distinguishes_hosts_processes_and_ranks() {
    let nodes = vec![
        registry_node("node-a", Some(0), Some(4)),
        registry_node("node-a", Some(1), Some(4)),
        registry_node("node-b", Some(2), Some(4)),
        registry_node("node-b", Some(3), Some(4)),
    ];
    let health = RegistryHealth::from_nodes(&nodes);
    assert_eq!(health.hosts, 2);
    assert_eq!(health.processes, 4);
    assert_eq!(health.rank_coverage(), "4 / 4");
}

#[test]
fn registry_health_does_not_index_missing_world_size() {
    let nodes = vec![registry_node("node-a", Some(0), None)];
    let health = RegistryHealth::from_nodes(&nodes);
    assert_eq!(health.expected_ranks, None);
    assert_eq!(health.rank_coverage(), "1");
    assert_eq!(health.world_size_label(), "—");
}

fn node(host: &str, rank: i32, world_size: i32) -> Node {
    Node {
        host: host.to_string(),
        rank: Some(rank),
        world_size: Some(world_size),
        ..Default::default()
    }
}

#[test]
fn registry_summary_keeps_reported_counts_separate() {
    let nodes = vec![node("host-a", 0, 4), node("host-a", 1, 4), node("host-b", 3, 4)];
    let summary = RegistryHealth::from_nodes(&nodes);

    assert_eq!(summary.processes, 3);
    assert_eq!(summary.hosts, 2);
    assert_eq!(summary.rank_coverage(), "3 / 4");
    assert_eq!(summary.world_size_label(), "4");
}

#[test]
fn conflicting_world_sizes_remain_visible() {
    let nodes = vec![node("host-a", 0, 8), node("host-b", 1, 16)];
    let summary = RegistryHealth::from_nodes(&nodes);

    assert_eq!(summary.expected_ranks, None);
    assert_eq!(summary.rank_coverage(), "2");
    assert_eq!(summary.world_size_label(), "8, 16");
}

#[test]
fn blank_hosts_duplicate_ranks_and_bad_world_sizes_are_not_counted() {
    let nodes = vec![
        registry_node("  ", Some(1), Some(0)),
        registry_node("", Some(1), Some(-3)),
        registry_node("node-z", None, Some(16)),
        registry_node("node-z", Some(2), Some(8)),
        registry_node("\tnode-y", Some(2), Some(8)),
    ];
    let health = RegistryHealth::from_nodes(&nodes);
    assert_eq!(health.processes, 5);
    assert_eq!(health.hosts, 2);
    assert_eq!(health.observed_ranks, 2);
    assert_eq!(health.world_sizes, vec![8, 16]);
    assert_eq!(health.expected_ranks, None);
}

#[test]
fn heartbeat_age_is_a_direct_time_delta() {
    assert_eq!(format_heartbeat_age(10_000_000, 8_500_000), "1s ago");
    assert_eq!(format_heartbeat_age(120_000_000, 0), "—");
}

#[test]
fn heartbeat_age_units() {
    assert_eq!(format_heartbeat_age(5, 10), "<1s ago");
    assert_eq!(format_heartbeat_age(60_000_001, 1), "1m ago");
    assert_eq!(format_heartbeat_age(7_200_000_001, 1), "2h ago");
    assert_eq!(format_heartbeat_age(259_200_000_001, 1), "3d ago");
}

#[test]
fn heartbeat_timestamps_render_in_utc() {
    assert_eq!(format_heartbeat_timestamp(0), "timestamp not reported");
    assert_eq!(format_heartbeat_timestamp(u64::MAX), "invalid timestamp");
    assert_eq!(format_heartbeat_timestamp(1_662_921_288_000_000), "2022-09-11 18:34:48 UTC");
}

#[test]
fn registry_filter_matches_rank_host_gpu_endpoint_and_role() {
    let node = Node {
        host: "megatron-node-07".to_string(),
        addr: "127.0.0.1:53107".to_string(),
        rank: Some(57),
        local_rank: Some(1),
        role: Some("dp=7,pp=0,tp=1".to_string()),
        role_name: Some("trainer".to_string()),
        ..Default::default()
    };

    for query in ["57", "node-07", "gpu 1", "53107", "tp=1", "trainer"] {
        assert!(node_matches_query(&node, query));
    }
    assert!(!node_matches_query(&node, "rank 2"));
}

#[test]
fn registry_filter_lowers_fields_but_not_the_query() {
    let node = Node { host: "Node-A".into(), ..Default::default() };
    assert!(node_matches_query(&node, "node-a"));
    assert!(!node_matches_query(&node, "Node-A"));
    assert!(node_matches_query(&node, ""));
}

#[test]
fn pinned_process_filter_requires_all_reported_coordinates() {
    let node = Node {
        host: "megatron-node-07".to_string(),
        rank: Some(58),
        local_rank: Some(2),
        ..Default::default()
    };
    let context = InvestigationContext {
        host: Some("megatron-node-07".to_string()),
        rank: Some(58),
        device_id: Some(2),
        ..Default::default()
    };

    assert!(node_matches_context(&node, &context));
    assert!(!node_matches_context(
        &node,
        &InvestigationContext {
            device_id: Some(3),
            ..context
        }
    ));
}

#[test]
fn unpinned_context_selects_no_registry_row() {
    let node = Node { rank: Some(1), ..Default::default() };
    assert!(!node_matches_context(&node, &InvestigationContext::default()));
    let step_only = InvestigationContext { local_step: Some(3), ..Default::default() };
    assert!(!node_matches_context(&node, &step_only));
}

#[test]
fn unused_context_fields_are_named_instead_of_counted() {
    let context = InvestigationContext {
        rank: Some(7),
        host: Some("node-1".to_string()),
        device_id: Some(3),
        local_step: Some(31),
        span_name: Some("train.step".to_string()),
        ..Default::default()
    };
    let support = InvestigationSupport {
        rank: true,
        device: true,
        ..Default::default()
    };

    assert_eq!(context.unused_context_fields(support), vec!["host", "span", "step"]);
}

#[test]
fn coordinates_summary_names_each_pinned_coordinate() {
    assert_eq!(InvestigationContext::default().coordinates_summary(), "unpinned");
    let context = InvestigationContext {
        pid: Some(4),
        tid: Some(-1),
        rank: Some(7),
        host: Some("node-1".into()),
        device_id: Some(3),
        trace_id: Some(99),
        span_name: Some("fwd".into()),
        local_step: Some(31),
    };
    assert_eq!(
        context.coordinates_summary(),
        "pid=4, step=31, rank=7, host=node-1, gpu=3, trace=99, tid=-1, span=fwd"
    );
    assert!(!context.is_empty());
    assert!(InvestigationContext::default().is_empty());
}

#[test]
fn sample_coordinate_prefers_the_coordinated_step() {
    let mut sample = StepDurationSample { local_step: 4, coord_step: 9, ..Default::default() };
    assert_eq!(sample_coordinate(&sample), 9);
    sample.coord_step = 0;
    assert_eq!(sample_coordinate(&sample), 4);
}

#[test]
fn status_badges_read_the_trimmed_lowercase_state() {
    assert_eq!(status_classes(Some(" Running ")), "border-emerald-200 bg-emerald-50 text-emerald-700");
    assert_eq!(status_classes(Some("OK")), "border-emerald-200 bg-emerald-50 text-emerald-700");
    assert_eq!(status_classes(Some("Unhealthy\n")), "border-red-200 bg-red-50 text-red-700");
    assert_eq!(status_classes(Some("  ")), "border-gray-200 bg-gray-100 text-gray-600");
    assert_eq!(status_classes(None), "border-gray-200 bg-gray-100 text-gray-600");
    assert_eq!(status_classes(Some("draining")), "border-amber-200 bg-amber-50 text-amber-700");
}

fn row(host: &str, rank: Option<i32>, gpu: Option<i32>) -> Node {
    Node { host: host.to_string(), rank, local_rank: gpu, ..Default::default() }
}

#[test]
fn registry_rows_sort_by_rank_host_and_gpu_with_unranked_last() {
    let nodes = vec![
        row("b", None, Some(0)),
        row("b", Some(1), Some(1)),
        row("a", Some(1), Some(0)),
        row("a", Some(0), Some(3)),
        row("a", Some(1), None),
    ];
    let rows = registry_rows(&nodes, &InvestigationContext::default(), "", false);
    let keys: Vec<(String, Option<i32>, Option<i32>)> =
        rows.iter().map(|n| (n.host.clone(), n.rank, n.local_rank)).collect();
    assert_eq!(
        keys,
        vec![
            ("a".to_string(), Some(0), Some(3)),
            ("a".to_string(), Some(1), None),
            ("a".to_string(), Some(1), Some(0)),
            ("b".to_string(), Some(1), Some(1)),
            ("b".to_string(), None, Some(0)),
        ]
    );
}

#[test]
fn registry_rows_keep_search_matches_and_the_pinned_process() {
    let nodes = vec![row("node-a", Some(0), Some(0)), row("node-b", Some(1), Some(0))];
    let searched = registry_rows(&nodes, &InvestigationContext::default(), "  NODE-B ", false);
    assert_eq!(searched.len(), 1);
    assert_eq!(searched[0].host, "node-b");
    let pinned = InvestigationContext { rank: Some(0), ..Default::default() };
    assert_eq!(registry_rows(&nodes, &pinned, "", true).len(), 1);
    assert_eq!(registry_rows(&nodes, &pinned, "", false).len(), 2);
    // With no node coordinate pinned, "pinned only" shows every row.
    assert_eq!(registry_rows(&nodes, &InvestigationContext::default(), "", true).len(), 2);
}

#[test]
fn registry_row_labels_fill_dashes_for_missing_fields() {
    let node = Node {
        host: "h".into(),
        addr: "10.0.0.1:9700".into(),
        rank: Some(3),
        world_size: Some(8),
        status: Some("  ".into()),
        ..Default::default()
    };
    let labels = node_row_labels(&node);
    assert_eq!(labels.endpoint, "http://10.0.0.1:9700");
    assert_eq!(labels.rank, "3");
    assert_eq!(labels.world, " / 8");
    assert_eq!(labels.node_rank, "—");
    assert_eq!(labels.local_rank, "—");
    assert_eq!(labels.coordinates, "—");
    assert_eq!(labels.role, "—");
    assert_eq!(labels.state, "not reported");
    assert_eq!(labels.select_label, "Select rank 3 on h GPU —");
}
