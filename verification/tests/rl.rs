use probing_web::tracing::SpanInfo;
use probing_web::rl::{
    age_label, benchmark_priority, composition_chart_caption, composition_label_stride,
    composition_shows_label, dimension_label, latest_benchmarks, merge_run_events, RlEvent, latest_telemetry_ns, broadcast_subtitle, failed_pids_text, rl_evidence,
    rl_evidence_request, span_query, SpanQuery, visible_samples, composition_color, overview_metric_names, composition_columns, nth_from_last, format_duration, format_reward, frame_position,
    harness_caption, metric_description, metric_label, metric_tooltip, nonempty,
    notice_level_class, offset_label, pinned_benchmark, run_phase_label, runtime_label,
    default_secondary_run, resolve_compare_run, sample_reason, timeline_level_class, trends_subtitle, RlBenchmarkPoint, RlMode, RlRunSummary, RlSampleSummary,
    HEADLINE_METRICS, OVERVIEW_METRICS,
};

const HOUR_NS: i64 = 3_600_000_000_000;

fn labelled_steps(first_step: i64, columns: usize) -> Vec<i64> {
    let last = columns - 1;
    let stride = composition_label_stride(columns, first_step + last as i64);
    (0..columns)
        .filter(|column| composition_shows_label(*column, last, stride))
        .map(|column| first_step + column as i64)
        .collect()
}

#[test]
fn composition_axis_always_labels_the_newest_step() {
    let labels = labelled_steps(43, 48);
    assert_eq!(labels.last(), Some(&90));
    assert_eq!(labels.len(), 16);
    assert_eq!(&labels[..3], &[45, 48, 51]);
}

#[test]
fn composition_axis_labels_every_column_when_run_is_short() {
    assert_eq!(labelled_steps(1, 9), (1..=9).collect::<Vec<_>>());
    assert_eq!(composition_label_stride(1, 1), 1);
}

#[test]
fn composition_axis_thins_out_for_wider_step_numbers() {
    assert_eq!(composition_label_stride(48, 90), 3);
    assert_eq!(composition_label_stride(48, 2079), 4);
    assert_eq!(composition_label_stride(48, 20790), 5);
    assert_eq!(labelled_steps(2032, 48).last(), Some(&2079));
}

#[test]
fn composition_caption_matches_the_dimension_picker_wording() {
    assert_eq!(composition_chart_caption(3, "task"), "Samples per step, by data source");
    assert_eq!(dimension_label("filter_reason"), "filter reason");
    assert_eq!(dimension_label("category"), "category");
    assert_eq!(
        composition_chart_caption(90, "category"),
        "Samples per step, by category · last 48 of 90 loaded steps"
    );
}

#[test]
fn metric_tooltip_pairs_the_name_with_its_definition() {
    assert_eq!(
        metric_tooltip("reward.mean"),
        "reward.mean — Mean reward over trajectories trained in one step"
    );
    assert_eq!(metric_tooltip("custom.thing"), "custom.thing");
    assert_eq!(metric_description("custom.thing"), "");
}

#[test]
fn every_headline_metric_is_a_known_gauge() {
    for name in HEADLINE_METRICS {
        assert!(
            OVERVIEW_METRICS.iter().any(|(gauge, _, _)| *gauge == name),
            "{name} is charted but absent from OVERVIEW_METRICS"
        );
        assert_ne!(metric_label(name), "RL metric", "{name} has no label");
    }
}

#[test]
fn age_label_counts_back_from_newest_telemetry() {
    let now = 1_000 * HOUR_NS;
    assert_eq!(age_label(now, now - 31 * HOUR_NS), "1d 07h");
    assert_eq!(age_label(now, now - 2 * HOUR_NS), "2h 00m");
    assert_eq!(age_label(now, now - 12 * 60_000_000_000), "12m");
    assert_eq!(age_label(now, now), "just now");
    assert_eq!(age_label(now, now + HOUR_NS), "just now");
    assert_eq!(age_label(0, now), "");
}

#[test]
fn harness_caption_skips_unreported_fields() {
    let point = RlBenchmarkPoint {
        name: "DeepSWE".into(),
        step: 30,
        sample_count: 500,
        version: "v1.1".into(),
        timestamp_ns: 1,
        harness: "mini-swe-agent".into(),
        aggregation: "avg@3".into(),
    };
    assert_eq!(harness_caption(&point), "mini-swe-agent · avg@3 · v1.1 · n=500");

    let bare = RlBenchmarkPoint {
        harness: String::new(),
        aggregation: String::new(),
        version: String::new(),
        sample_count: 0,
        ..point
    };
    assert_eq!(harness_caption(&bare), "");
}

#[test]
fn harness_caption_trims_fields() {
    let point = RlBenchmarkPoint {
        harness: "  h  ".into(),
        aggregation: " \t ".into(),
        version: "v2 ".into(),
        ..Default::default()
    };
    assert_eq!(harness_caption(&point), "h · v2");
}

#[test]
fn offset_label_spans_days_and_hours() {
    let start = 1_000 * HOUR_NS;
    assert_eq!(offset_label(start, start), "T+00:00");
    assert_eq!(offset_label(start, start + 252_000_000_000), "T+04:12");
    assert_eq!(offset_label(start, start + 26 * HOUR_NS), "T+1d 02:00");
    assert_eq!(offset_label(0, start), "");
    assert_eq!(offset_label(start, start - HOUR_NS), "");
}

#[test]
fn pinned_benchmark_prefers_accuracy_then_avg_pass() {
    let latest = vec![
        ("code@live".to_string(), 20),
        ("math@accuracy".to_string(), 10),
        ("agent@online/avg_pass".to_string(), 30),
    ];
    assert_eq!(pinned_benchmark(&latest).map(|i| latest[i].0.clone()), Some("math@accuracy".into()));
    let without_accuracy = vec![
        ("code@live".to_string(), 20),
        ("agent@online/avg_pass".to_string(), 30),
    ];
    assert_eq!(
        pinned_benchmark(&without_accuracy).map(|i| without_accuracy[i].0.clone()),
        Some("agent@online/avg_pass".into())
    );
    assert_eq!(pinned_benchmark(&Vec::new()), None);
}

#[test]
fn pinned_benchmark_breaks_ties_by_step_then_name_then_position() {
    let latest = vec![
        ("b".to_string(), 5),
        ("a".to_string(), 7),
        ("c".to_string(), 7),
        ("c".to_string(), 7),
    ];
    assert_eq!(pinned_benchmark(&latest), Some(3));
}

#[test]
fn benchmark_priorities() {
    assert_eq!(benchmark_priority("Math@ACCURACY"), 400);
    assert_eq!(benchmark_priority("x/avg_pass"), 300);
    assert_eq!(benchmark_priority("online-eval"), 200);
    assert_eq!(benchmark_priority("other"), 100);
}

#[test]
fn sample_reason_prefers_filter_reason() {
    let sample = RlSampleSummary {
        timestamp_ns: 0,
        step: 1,
        rollout_id: "r".into(),
        group_id: "g".into(),
        sample_id: "s".into(),
        task: "math".into(),
        status: "filtered".into(),
        reward: None,
        reward_pass: false,
        filter_reason: "duplicate".into(),
        drop_reason: "late".into(),
        prompt_tokens: 1,
        response_tokens: 2,
        staleness: 0,
    };
    assert_eq!(sample_reason(&sample), "filter: duplicate");
    let dropped = RlSampleSummary { filter_reason: String::new(), ..sample.clone() };
    assert_eq!(sample_reason(&dropped), "drop: late");
    let kept = RlSampleSummary { drop_reason: String::new(), ..dropped };
    assert_eq!(sample_reason(&kept), "—");
    assert_eq!(format_reward(Some(4_000)), "0.4000");
    assert_eq!(format_reward(None), "—");
}

#[test]
fn frame_positions_preserve_root_and_current() {
    assert_eq!(frame_position(0, 3).as_deref(), Some("root"));
    assert_eq!(frame_position(2, 3).as_deref(), Some("current"));
    assert_eq!(frame_position(0, 1).as_deref(), Some("root · current"));
    assert_eq!(frame_position(1, 3), None);
}

#[test]
fn run_labels() {
    let run = RlRunSummary {
        run_id: "run-a".to_string(),
        phase: String::new(),
        start_time_ns: 10 * 1_000_000_000,
        end_time_ns: 0,
        timestamp_ns: 3_735 * 1_000_000_000 + 10 * 1_000_000_000,
    };
    assert_eq!(runtime_label(&run), "1h 2m");
    assert_eq!(run_phase_label(&run), "running");
    let unknown = RlRunSummary { start_time_ns: 0, ..run.clone() };
    assert_eq!(runtime_label(&unknown), "—");
    assert_eq!(format_duration(59), "59s");
    assert_eq!(format_duration(61), "1m 1s");
    assert_eq!(nonempty(""), "unknown");
    assert_eq!(nonempty("x"), "x");
    assert_eq!(timeline_level_class("error"), "text-red-700");
    assert_eq!(timeline_level_class("info"), "text-gray-700");
    assert_eq!(notice_level_class("warning"), "border-amber-200 bg-amber-50 text-amber-950");
    assert_eq!(notice_level_class("info"), "border-blue-200 bg-blue-50 text-blue-950");
}

#[test]
fn trends_caption_admits_when_early_history_has_aged_out() {
    let caption = trends_subtitle(&vec![2550], 8);
    assert!(caption.contains("History starts at step 2550"), "got {caption}");
    assert!(caption.contains("aged out"), "got {caption}");
}

#[test]
fn trends_caption_stays_quiet_near_the_start_of_a_run() {
    assert_eq!(trends_subtitle(&vec![8], 8), "Click a point to open samples at that step.");
    assert_eq!(trends_subtitle(&vec![1], 0), "Click a point to open samples at that step.");
    assert_eq!(trends_subtitle(&Vec::new(), 8), "Click a point to open samples at that step.");
    // The earliest series decides.
    assert_eq!(trends_subtitle(&vec![900, 2], 1), "Click a point to open samples at that step.");
}

fn run(id: &str) -> RlRunSummary {
    RlRunSummary { run_id: id.to_string(), ..Default::default() }
}

#[test]
fn compare_run_defaults_to_the_next_other_run() {
    let runs = vec![run("a"), run("b"), run("c")];
    assert_eq!(default_secondary_run(&runs, "b").as_deref(), Some("c"));
    assert_eq!(default_secondary_run(&runs, "c").as_deref(), Some("a"));
    assert_eq!(default_secondary_run(&runs, "z"), None);
    assert_eq!(default_secondary_run(&vec![run("a")], "a"), None);
    assert_eq!(resolve_compare_run(&runs, "a", "c").as_deref(), Some("c"));
    assert_eq!(resolve_compare_run(&runs, "a", "a").as_deref(), Some("b"));
    assert_eq!(resolve_compare_run(&runs, "a", "  ").as_deref(), Some("b"));
    assert_eq!(resolve_compare_run(&runs, "a", "gone").as_deref(), Some("b"));
}

#[test]
fn rl_views_have_titles_and_subtitles() {
    assert_eq!(RlMode::Rollout.title(), "RL Rollout");
    assert_eq!(RlMode::Train.title(), "Policy Training");
    assert_eq!(RlMode::Perfetto.title(), "RL Perfetto Export");
    assert_eq!(RlMode::ProcessTimeline.subtitle(), "The same span set grouped by its reported process and thread fields.");
    assert_eq!(RlMode::Spans.subtitle(), "Cross-process span trees at the requested event limit.");
}

fn point(name: &str, step: i64) -> RlBenchmarkPoint {
    RlBenchmarkPoint { name: name.to_string(), step, ..Default::default() }
}

#[test]
fn latest_benchmarks_keep_the_newest_point_of_each_name_in_name_order() {
    let points = vec![
        point("math@accuracy", 10),
        point("code@live", 20),
        point("math@accuracy", 30),
        point("code@live", 5),
        point("math@accuracy", 30),
        point("agent@online/avg_pass", 7),
    ];
    assert_eq!(
        latest_benchmarks(&points),
        vec![
            ("agent@online/avg_pass".to_string(), 7, 5),
            ("code@live".to_string(), 20, 1),
            ("math@accuracy".to_string(), 30, 4),
        ]
    );
    assert!(latest_benchmarks(&Vec::new()).is_empty());
}

fn event(ts: i64, message: &str, level: &str) -> RlEvent {
    RlEvent { timestamp_ns: ts, step: -1, level: level.to_string(), message: message.to_string() }
}

#[test]
fn run_events_merge_newest_first_without_repeats() {
    let primary = vec![event(10, "restart", "warning"), event(30, "b", "info"), event(30, "a", "info")];
    let secondary = vec![event(20, "restart", "error"), event(10, "restart", "info")];
    let merged = merge_run_events(&primary, Some(&secondary));
    let rows: Vec<(i64, &str, &str)> =
        merged.iter().map(|e| (e.timestamp_ns, e.message.as_str(), e.level.as_str())).collect();
    // The two events at 10 ns repeat "restart" after the one at 20 ns, so only
    // the newest of that run is shown.
    assert_eq!(rows, vec![(30, "a", "info"), (30, "b", "info"), (20, "restart", "error")]);
    assert_eq!(merge_run_events(&primary, None).len(), 3);
}

#[test]
fn run_events_are_capped() {
    let many: Vec<RlEvent> = (0..50).map(|i| event(i, &format!("m{i}"), "info")).collect();
    let merged = merge_run_events(&many, None);
    assert_eq!(merged.len(), 40);
    assert_eq!(merged[0].timestamp_ns, 49);
    assert_eq!(merged[39].timestamp_ns, 10);
}

#[test]
fn notices_age_against_the_newest_telemetry() {
    let mut a = run("a");
    a.timestamp_ns = 5;
    let mut b = run("b");
    b.timestamp_ns = 9;
    assert_eq!(latest_telemetry_ns(&vec![a.clone(), b, a]), 9);
    assert_eq!(latest_telemetry_ns(&Vec::new()), 0);
    let mut early = run("early");
    early.timestamp_ns = -4;
    assert_eq!(latest_telemetry_ns(&vec![early]), -4);
}

#[test]
fn broadcast_subtitle_names_the_compared_run() {
    assert_eq!(broadcast_subtitle(3, Some("run-7")), "3 reported run(s) · compare run-7");
    assert_eq!(broadcast_subtitle(1, None), "1 reported run(s) · compare auto (next run)");
}

fn root_span(id: i64, thread: i64, start: i64) -> SpanInfo {
    SpanInfo {
        span_id: id,
        trace_id: 1,
        parent_id: None,
        name: format!("s{id}"),
        start_timestamp: start,
        end_timestamp: Some(start + 1),
        thread_id: thread,
        phase: None,
        location: None,
        attributes: None,
        children: Vec::new(),
        events: Vec::new(),
    }
}

#[test]
fn rl_evidence_merges_process_replies_once_by_start() {
    let local = vec![root_span(1, 1, 30), root_span(2, 1, 10)];
    let replies = vec![
        (7, Some(vec![root_span(1, 1, 30), root_span(3, 2, 20)])),
        (8, None),
        (9, Some(vec![root_span(4, 3, 5)])),
    ];
    let evidence = rl_evidence(local, replies);
    let ids: Vec<i64> = evidence.spans.iter().map(|s| s.span_id).collect();
    assert_eq!(ids, vec![4, 2, 3, 1]);
    assert_eq!(evidence.processes_queried, 4);
    assert_eq!(evidence.processes_failed, vec![8]);
    assert_eq!(failed_pids_text(&evidence.processes_failed), "8");
    assert_eq!(failed_pids_text(&vec![8, 12]), "8, 12");
}

#[test]
fn rl_views_choose_their_span_request() {
    assert_eq!(rl_evidence_request(RlMode::Perfetto, 300, "  r-1 "), (2000, "r-1".to_string()));
    assert_eq!(rl_evidence_request(RlMode::Rollout, 300, " r-1"), (300, "r-1".to_string()));
    assert_eq!(rl_evidence_request(RlMode::Spans, 300, "r-1"), (300, String::new()));
    assert!(matches!(span_query(50, ""), SpanQuery::Recent { limit: 50 }));
    assert!(matches!(span_query(50, "r-1"), SpanQuery::Rollout { ref rollout_id } if rollout_id == "r-1"));
}

#[test]
fn the_samples_table_keeps_the_filtered_step() {
    let sample = |step: i64, id: &str| RlSampleSummary { step, sample_id: id.to_string(), ..Default::default() };
    let samples = vec![sample(3, "a"), sample(4, "b"), sample(3, "c")];
    let ids = |v: Vec<RlSampleSummary>| v.into_iter().map(|s| s.sample_id).collect::<Vec<_>>();
    assert_eq!(ids(visible_samples(&samples, Some(3))), vec!["a", "c"]);
    assert_eq!(ids(visible_samples(&samples, None)), vec!["a", "b", "c"]);
    assert!(visible_samples(&samples, Some(9)).is_empty());
}

#[test]
fn composition_buckets_keep_their_legend_colour() {
    let legend: Vec<String> = ["math", "code", "agent", "chat", "tool", "vision", "audio"]
        .iter()
        .map(|s| s.to_string())
        .collect();
    assert_eq!(composition_color(&legend, "math"), "#2563eb");
    assert_eq!(composition_color(&legend, "code"), "#16a34a");
    assert_eq!(composition_color(&legend, "vision"), "#64748b");
    assert_eq!(composition_color(&legend, "audio"), "#2563eb");
    assert_eq!(composition_color(&legend, "unknown"), "#2563eb");
}

#[test]
fn the_overview_asks_for_every_table_metric() {
    let names = overview_metric_names();
    assert_eq!(names.len(), OVERVIEW_METRICS.len());
    assert_eq!(names[0], OVERVIEW_METRICS[0].0);
    assert!(HEADLINE_METRICS.iter().all(|name| names.contains(name)));
}

#[test]
fn the_composition_chart_draws_the_newest_steps() {
    let steps: Vec<i64> = (1..=60).collect();
    let counts: Vec<i64> = (1..=60).map(|i| if i == 20 { 500 } else { i % 7 }).collect();
    let columns = composition_columns(&steps, &counts);
    assert_eq!(columns.first, 12);
    assert_eq!(columns.max_total, 500);
    assert_eq!(columns.widest_step, 60);
    assert_eq!(columns.label_every, 3);
    let few = composition_columns(&vec![1000, 900], &vec![0, 0]);
    assert_eq!((few.first, few.max_total, few.widest_step, few.label_every), (0, 1, 1000, 1));
    let none = composition_columns(&Vec::new(), &Vec::new());
    assert_eq!((none.first, none.max_total, none.widest_step, none.label_every), (0, 1, 0, 1));
}

#[test]
fn nth_from_last_counts_back_from_the_newest() {
    let steps = vec![10, 20, 30];
    assert_eq!(nth_from_last(&steps, 0), Some(30));
    assert_eq!(nth_from_last(&steps, 1), Some(20));
    assert_eq!(nth_from_last(&steps, 3), None);
    assert_eq!(nth_from_last::<i64>(&Vec::new(), 0), None);
}
