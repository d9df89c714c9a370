use probing_web::api::{Node, StepDurationSample, StepMatrixResponse, WaitCounter};
use probing_web::distributed::{
    cluster_assessment, format_indexes, format_states, host_placements, reconcile_step_coverage,
    request_state, ActionTone, NoticeTone, RequestState, rank_comparison_subtitle,
    coverage_card_value, skew_detail, wait_counter_panel, store_catalog_label, unnamed_keys,
};
use probing_web::health::{pin_rank_label, rank_panel_labels, StepHealth, StepTrendPoint};
use probing_web::model::RegistryHealth;

fn sample(rank: i32, step: i64, duration_ms: i64) -> StepDurationSample {
    StepDurationSample {
        rank,
        local_step: step,
        coord_step: step,
        duration_ms,
        host: format!("node-{rank}"),
        addr: String::new(),
    }
}

#[test]
fn step_health_uses_latest_sample_per_rank() {
    let matrix = StepMatrixResponse {
        samples: vec![
            sample(0, 10, 100_000),
            sample(0, 11, 120_000),
            sample(1, 11, 180_000),
            sample(2, 11, 140_000),
        ],
        rank_count: 4,
        step_count: 2,
        cluster: true,
        partial: true,
        nodes_queried: 3,
        nodes_failed: vec!["node-4".into()],
    };
    let health = StepHealth::from_matrix(&matrix);
    assert_eq!(health.latest_step, Some(11));
    assert_eq!(health.median_ms, Some(140_000));
    assert_eq!(health.p95_ms, Some(180_000));
    assert_eq!(health.slowest_rank, Some(1));
    assert_eq!(health.observed_ranks, 3);
    assert_eq!(health.expected_ranks, 4);
    assert_eq!(health.rank_durations[0], (1, 180_000));
    assert_eq!(
        health.trend,
        vec![
            StepTrendPoint { step: 10, median_ms: 100_000, p95_ms: 100_000 },
            StepTrendPoint { step: 11, median_ms: 140_000, p95_ms: 180_000 },
        ]
    );
}

#[test]
fn step_health_keeps_the_first_sample_of_a_repeated_step_and_skips_negative_durations() {
    let matrix = StepMatrixResponse {
        samples: vec![
            sample(3, 5, 50_000),
            sample(3, 5, 90_000),
            sample(4, 5, -1),
            sample(4, 4, 10_000),
        ],
        rank_count: 1,
        step_count: 2,
        cluster: false,
        partial: false,
        nodes_queried: 1,
        nodes_failed: Vec::new(),
    };
    let health = StepHealth::from_matrix(&matrix);
    // rank 3 keeps its first step-5 sample; rank 4 keeps its step-5 sample,
    // whose negative duration is left out of the percentiles.
    assert_eq!(health.observed_ranks, 2);
    assert_eq!(health.expected_ranks, 2);
    assert_eq!(health.median_ms, Some(50_000));
    assert_eq!(health.slowest_rank, Some(3));
    assert_eq!(health.rank_durations, vec![(3, 50_000), (4, -1)]);
    assert_eq!(
        health.trend,
        vec![
            StepTrendPoint { step: 4, median_ms: 10_000, p95_ms: 10_000 },
            StepTrendPoint { step: 5, median_ms: 50_000, p95_ms: 90_000 },
        ]
    );
}

#[test]
fn step_trend_keeps_the_forty_most_recent_steps() {
    let samples = (0..45).map(|step| sample(0, step, 1_000 + step)).collect();
    let matrix = StepMatrixResponse {
        samples,
        rank_count: 1,
        step_count: 45,
        cluster: false,
        partial: false,
        nodes_queried: 1,
        nodes_failed: Vec::new(),
    };
    let health = StepHealth::from_matrix(&matrix);
    assert_eq!(health.trend.len(), 40);
    assert_eq!(health.trend[0].step, 5);
    assert_eq!(health.trend[39].step, 44);
    assert_eq!(health.latest_step, Some(44));
    let empty = StepHealth::from_matrix(&StepMatrixResponse { samples: Vec::new(), ..matrix });
    assert_eq!(empty.median_ms, None);
    assert_eq!(empty.latest_step, None);
    assert_eq!(empty.slowest_rank, None);
}

#[test]
fn assessment_explains_missing_ranks() {
    let registry = RegistryHealth { hosts: 2, processes: 8, ..Default::default() };
    let health = StepHealth { observed_ranks: 6, expected_ranks: 8, ..Default::default() };
    let result = cluster_assessment(
        RequestState::Ready,
        Some(&registry),
        RequestState::Ready,
        Some(&health),
        None,
    );

    assert_eq!(result.tone, NoticeTone::Warning);
    assert_eq!(result.title, "6 / 8 ranks represented");
}

#[test]
fn assessment_explains_rank_skew() {
    let registry = RegistryHealth { hosts: 2, processes: 8, ..Default::default() };
    let health = StepHealth {
        median_ms: Some(10_000),
        slowest_ms: Some(14_000),
        observed_ranks: 8,
        expected_ranks: 8,
        ..Default::default()
    };
    assert_eq!(health.slowest_ratio_terms(), Some((14_000, 10_000)));
    let result = cluster_assessment(
        RequestState::Ready,
        Some(&registry),
        RequestState::Ready,
        Some(&health),
        Some("1.40"),
    );

    assert_eq!(result.tone, NoticeTone::Warning);
    assert_eq!(result.title, "Observed slowest / median: 1.40×");
}

#[test]
fn registry_world_size_overrides_partial_step_matrix_rank_count() {
    let registry = RegistryHealth {
        hosts: 8,
        processes: 64,
        observed_ranks: 64,
        expected_ranks: Some(64),
        ..Default::default()
    };
    let health = StepHealth {
        observed_ranks: 8,
        expected_ranks: 8,
        nodes_failed: vec!["peer-a".to_string()],
        ..Default::default()
    };

    let reconciled = reconcile_step_coverage(health, Some(&registry));
    assert_eq!(reconciled.observed_ranks, 8);
    assert_eq!(reconciled.expected_ranks, 64);

    let assessment = cluster_assessment(
        RequestState::Ready,
        Some(&registry),
        RequestState::Ready,
        Some(&reconciled),
        None,
    );
    assert_eq!(assessment.title, "1 peer endpoint(s) failed");
    assert!(assessment.detail.contains("8 of 64 registered ranks"));
}

#[test]
fn assessment_reports_complete_rank_coverage() {
    let registry = RegistryHealth { hosts: 2, processes: 8, ..Default::default() };
    let health = StepHealth {
        median_ms: Some(10_000),
        slowest_ms: Some(11_000),
        observed_ranks: 8,
        expected_ranks: 8,
        ..Default::default()
    };
    let result = cluster_assessment(
        RequestState::Ready,
        Some(&registry),
        RequestState::Ready,
        Some(&health),
        Some("1.10"),
    );

    assert_eq!(result.tone, NoticeTone::Info);
    assert_eq!(result.title, "8 / 8 ranks represented");
    assert_eq!(result.detail, "2 host(s), 8 process(es); slowest / median is 1.10×.");
}

#[test]
fn assessment_reports_request_failures_and_loading_first() {
    let empty = RegistryHealth::default();
    let failed = cluster_assessment(RequestState::Failed, None, RequestState::Ready, None, None);
    assert_eq!(failed.title, "Heartbeat registry request failed");
    let zero = cluster_assessment(RequestState::Ready, Some(&empty), RequestState::Failed, None, None);
    assert_eq!(zero.title, "0 processes reported");
    assert_eq!(zero.tone, NoticeTone::Warning);
    let steps = cluster_assessment(RequestState::Loading, Some(&empty), RequestState::Failed, None, None);
    assert_eq!(steps.title, "Rank comparison request failed");
    let loading = cluster_assessment(RequestState::Loading, None, RequestState::Loading, None, None);
    assert_eq!(loading.title, "Loading cluster coverage");
    let none = StepHealth::default();
    let no_ranks =
        cluster_assessment(RequestState::Ready, None, RequestState::Ready, Some(&none), None);
    assert_eq!(no_ranks.title, "0 comparable ranks");
}

#[test]
fn skew_needs_more_than_one_point_two_times_the_median() {
    let at_threshold = StepHealth {
        median_ms: Some(10_000),
        slowest_ms: Some(12_000),
        observed_ranks: 2,
        expected_ranks: 2,
        ..Default::default()
    };
    assert!(!at_threshold.is_skewed());
    let above = StepHealth { slowest_ms: Some(12_001), ..at_threshold.clone() };
    assert!(above.is_skewed());
    let result =
        cluster_assessment(RequestState::Ready, None, RequestState::Ready, Some(&at_threshold), None);
    assert_eq!(result.detail, "0 host(s), 0 process(es); slowest / median is —.");
}

#[test]
fn request_state_follows_the_result() {
    let loading: Option<Result<u8, String>> = None;
    assert_eq!(request_state(&loading), RequestState::Loading);
    assert_eq!(request_state(&Some(Ok::<u8, String>(1))), RequestState::Ready);
    assert_eq!(request_state(&Some(Err::<u8, String>("x".into()))), RequestState::Failed);
}

#[test]
fn host_placement_keeps_process_rank_device_and_state_counts_separate() {
    let nodes = vec![
        Node {
            host: "node-a".into(),
            rank: Some(0),
            local_rank: Some(0),
            status: Some("running".into()),
            ..Default::default()
        },
        Node {
            host: "node-a".into(),
            rank: Some(1),
            local_rank: Some(1),
            status: Some("running".into()),
            ..Default::default()
        },
        Node {
            host: "node-b".into(),
            rank: Some(2),
            local_rank: Some(0),
            status: None,
            ..Default::default()
        },
    ];

    let hosts = host_placements(&nodes);
    assert_eq!(hosts.len(), 2);
    assert_eq!(hosts[0].processes, 2);
    assert_eq!(hosts[0].ranks, vec![0, 1]);
    assert_eq!(hosts[0].local_devices, vec![0, 1]);
    assert_eq!(hosts[0].states, vec![("running".to_string(), 2)]);
    assert_eq!(hosts[1].states, vec![("not reported".to_string(), 1)]);
}

#[test]
fn host_placement_sorts_hosts_and_names_blank_ones() {
    let nodes = vec![
        Node { host: "zeta".into(), rank: Some(5), status: Some("idle".into()), ..Default::default() },
        Node { host: "  ".into(), rank: Some(4), status: Some(" ".into()), ..Default::default() },
        Node { host: "alpha".into(), rank: Some(3), status: Some("running".into()), ..Default::default() },
        Node { host: "zeta".into(), rank: Some(5), status: Some("busy".into()), ..Default::default() },
    ];
    let hosts = host_placements(&nodes);
    let names: Vec<&str> = hosts.iter().map(|h| h.host.as_str()).collect();
    assert_eq!(names, vec!["(host not reported)", "alpha", "zeta"]);
    assert_eq!(hosts[0].states, vec![("not reported".to_string(), 1)]);
    assert_eq!(hosts[2].ranks, vec![5]);
    assert_eq!(hosts[2].processes, 2);
    assert_eq!(hosts[2].states, vec![("busy".to_string(), 1), ("idle".to_string(), 1)]);
    assert!(host_placements(&Vec::new()).is_empty());
}

#[test]
fn placement_labels_list_indexes_and_state_counts() {
    assert_eq!(format_indexes(&vec![0, 1, 7], "R"), "R0  R1  R7");
    assert_eq!(format_indexes(&Vec::new(), "GPU "), "—");
    assert_eq!(
        format_states(&vec![("running".to_string(), 2), ("idle".to_string(), 1)]),
        "running ×2 · idle ×1"
    );
}

#[test]
fn tones_carry_their_classes() {
    assert_eq!(NoticeTone::Warning.classes(), "border-amber-200 bg-amber-50 text-amber-950");
    assert_eq!(NoticeTone::Info.classes(), "border-blue-200 bg-blue-50 text-blue-950");
    assert_eq!(ActionTone::default(), ActionTone::Neutral);
    assert_eq!(ActionTone::Primary.classes(), "border-blue-600 bg-blue-600 text-white hover:bg-blue-700");
    assert_eq!(ActionTone::Neutral.classes(), "border-gray-300 bg-white text-gray-700 hover:bg-gray-50");
    assert_eq!(ActionTone::Danger.classes(), "border-red-200 bg-red-50 text-red-700 hover:bg-red-100");
}

#[test]
fn rank_cards_read_the_step_health() {
    let health = StepHealth { observed_ranks: 3, expected_ranks: 4, slowest_rank: Some(2), ..Default::default() };
    assert_eq!(
        rank_comparison_subtitle(Some(&health)),
        "Latest duration for returned ranks; coverage is 3 / 4 registered ranks."
    );
    assert_eq!(
        rank_comparison_subtitle(None),
        "Latest duration for returned ranks; coverage is reported independently."
    );
    assert_eq!(coverage_card_value(Some(&health)), "3 / 4");
    assert_eq!(coverage_card_value(None), "—");
    assert_eq!(skew_detail(Some(&health)), "rank 2 vs observed-rank median");
    let unknown = StepHealth::default();
    assert_eq!(skew_detail(Some(&unknown)), "slowest returned rank vs observed median");
    assert_eq!(skew_detail(None), "slowest returned rank vs observed median");
}

fn counter(name: &str, active: i64, calls: i64, max: i64) -> WaitCounter {
    WaitCounter { name: name.to_string(), active_count: active, total_calls: calls, max_time_us: max, ..Default::default() }
}

#[test]
fn wait_panel_lists_the_busiest_counters_first() {
    let counters = vec![
        counter("a", 0, 5, 90),
        counter("b", 2, 1, 10),
        counter("c", 0, 7, 90),
        counter("d", 2, 3, 40),
    ];
    let panel = wait_counter_panel(&counters);
    assert_eq!(panel.active, 2);
    assert_eq!(panel.calls, 16);
    assert_eq!(panel.maximum, 90);
    let names: Vec<&str> = panel.counters.iter().map(|c| c.name.as_str()).collect();
    // Ascending by (active, max) keeps a before c; reversing puts c first.
    assert_eq!(names, vec!["d", "b", "c", "a"]);
    let empty = wait_counter_panel(&Vec::new());
    assert_eq!((empty.active, empty.calls, empty.maximum, empty.counters.len()), (0, 0, 0, 0));
}

#[test]
fn store_panel_labels() {
    assert_eq!(store_catalog_label(true), "Complete");
    assert_eq!(store_catalog_label(false), "Known keys");
    assert_eq!(unnamed_keys(10, 4), 6);
    assert_eq!(unnamed_keys(3, 4), 0);
}

#[test]
fn rank_latency_panel_labels() {
    let health = StepHealth {
        slowest_rank: Some(7),
        rank_durations: (0..15).map(|r| (r, 1000)).collect(),
        nodes_failed: vec!["10.0.0.2:9700".to_string(), "10.0.0.3:9700".to_string()],
        ..Default::default()
    };
    let labels = rank_panel_labels(&health);
    assert_eq!(labels.slowest, "R7");
    assert_eq!(labels.shown, "Slowest 12 of 15 observed ranks");
    assert_eq!(labels.failed_summary.as_deref(), Some("2 peer endpoint(s) did not return step samples · show peers"));
    assert_eq!(labels.failed_peers, "10.0.0.2:9700, 10.0.0.3:9700");
    let quiet = rank_panel_labels(&StepHealth::default());
    assert_eq!(quiet.slowest, "—");
    assert_eq!(quiet.shown, "Slowest 0 of 0 observed ranks");
    assert!(quiet.failed_summary.is_none());
    assert_eq!(pin_rank_label(3, Some(120)), "Pin rank 3 at step 120");
    assert_eq!(pin_rank_label(3, None), "Pin rank 3 at step latest");
}

#[test]
fn step_health_orders_ranks_slowest_first_and_keeps_forty_steps() {
    let mut samples = Vec::new();
    for step in (1..=50).rev() {
        samples.push(sample(0, step, 1_000 * step));
    }
    samples.push(sample(1, 50, 90_000));
    samples.push(sample(2, 50, 70_000));
    samples.push(sample(3, 49, 10_000));
    let matrix = StepMatrixResponse { samples, rank_count: 2, ..Default::default() };
    let health = StepHealth::from_matrix(&matrix);
    assert_eq!(health.observed_ranks, 4);
    assert_eq!(health.expected_ranks, 4);
    assert_eq!(health.rank_durations, vec![(1, 90_000), (2, 70_000), (0, 50_000), (3, 10_000)]);
    assert_eq!(health.trend.len(), 40);
    assert_eq!(health.trend[0].step, 11);
    assert_eq!(health.trend[39].step, 50);
    assert!(health.trend.windows(2).all(|w| w[0].step < w[1].step));
}
