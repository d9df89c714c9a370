use probing_web::context::InvestigationContext;
use probing_web::tracing::{
    attribute_integer, count_active, count_events, count_spans, covered_root_ns,
    dedupe_and_sort_spans, filter_span_context_tree, filter_span_tree, group_traces,
    span_attribute_i64, span_matches_context, thread_count, trace_context_active, JsonScalar, SpanEvent,
    SpanInfo, TraceTimeWindow,
};

fn span(id: i64, name: &str, children: Vec<SpanInfo>) -> SpanInfo {
    SpanInfo {
        span_id: id,
        trace_id: 1,
        parent_id: None,
        name: name.to_string(),
        start_timestamp: 0,
        end_timestamp: Some(10),
        thread_id: id,
        phase: None,
        location: None,
        attributes: None,
        children,
        events: Vec::new(),
    }
}

fn timed_span(trace_id: i64, id: i64, start: i64, end: i64) -> SpanInfo {
    SpanInfo {
        span_id: id,
        trace_id,
        name: "span".into(),
        start_timestamp: start,
        end_timestamp: Some(end),
        thread_id: id,
        ..Default::default()
    }
}

#[test]
fn trace_group_coverage_uses_interval_union() {
    let window = TraceTimeWindow { start_ns: 0, end_ns: 100 };
    let roots = vec![timed_span(1, 1, 10, 50), timed_span(1, 2, 40, 80)];
    assert_eq!(covered_root_ns(&roots, window), 70);
}

#[test]
fn active_spans_do_not_claim_coverage() {
    let window = TraceTimeWindow { start_ns: 0, end_ns: 1_000 };
    let active = SpanInfo { end_timestamp: None, ..timed_span(1, 1, 100, 200) };
    assert_eq!(covered_root_ns(&vec![active], window), 0);
}

#[test]
fn coverage_clips_to_the_window_and_counts_gaps_once() {
    let window = TraceTimeWindow { start_ns: 20, end_ns: 90 };
    let roots = vec![
        timed_span(1, 1, 70, 200),
        timed_span(1, 2, 0, 30),
        timed_span(1, 3, 25, 35),
        timed_span(1, 4, 50, 60),
        timed_span(1, 5, 55, 58),
        timed_span(1, 6, 95, 99),
    ];
    // [20,35) + [50,60) + [70,90) = 15 + 10 + 20
    assert_eq!(covered_root_ns(&roots, window), 45);
    assert_eq!(covered_root_ns(&Vec::new(), window), 0);
}

#[test]
fn coverage_in_a_window_longer_than_i64() {
    let window = TraceTimeWindow { start_ns: i64::MIN, end_ns: i64::MAX };
    let roots = vec![timed_span(1, 1, 0, 10), timed_span(1, 2, 5, 12)];
    assert_eq!(covered_root_ns(&roots, window), 12);
}

#[test]
fn trace_context_is_active_for_span_coordinates_only() {
    assert!(!trace_context_active(&InvestigationContext::default()));
    let host_only = InvestigationContext { host: Some("h".into()), device_id: Some(1), ..Default::default() };
    assert!(!trace_context_active(&host_only));
    let step = InvestigationContext { local_step: Some(3), ..Default::default() };
    assert!(trace_context_active(&step));
}

#[test]
fn search_keeps_matching_ancestor_path() {
    let filtered = filter_span_tree(&vec![span(1, "root", vec![span(2, "target", vec![])])], "target");
    assert_eq!(filtered[0].children[0].name, "target");
}

#[test]
fn search_ignores_case_and_surrounding_blanks_and_drops_unrelated_branches() {
    let mut located = span(3, "other", vec![]);
    located.location = Some("Trainer.py:42".to_string());
    let tree = vec![
        span(1, "root", vec![span(2, "forward", vec![]), located]),
        span(4, "idle", vec![]),
    ];
    let filtered = filter_span_tree(&tree, "  TRAINER ");
    assert_eq!(filtered.len(), 1);
    assert_eq!(filtered[0].name, "root");
    assert_eq!(filtered[0].children.len(), 1);
    assert_eq!(filtered[0].children[0].span_id, 3);
    let everything = filter_span_tree(&tree, "   ");
    assert_eq!(everything, tree);
}

#[test]
fn pinned_training_coordinates_filter_trace_tree_without_flattening_it() {
    let mut matching = span(2, "train.step", vec![span(3, "forward", vec![])]);
    matching.thread_id = 17;
    matching.attributes = Some(r#"{"rank":"7","local_step":31}"#.to_string());
    let root = span(1, "root", vec![matching]);
    let context = InvestigationContext {
        tid: Some(17),
        rank: Some(7),
        span_name: Some("train.step".to_string()),
        local_step: Some(31),
        ..Default::default()
    };

    let filtered = filter_span_context_tree(&vec![root], &context);
    assert_eq!(filtered.len(), 1);
    assert_eq!(filtered[0].children[0].name, "train.step");
    assert_eq!(filtered[0].children[0].children[0].name, "forward");
}

#[test]
fn span_context_reads_rank_and_step_from_json_attributes() {
    let mut s = span(2, "train.step", vec![]);
    s.attributes = Some(r#"{"rank":7,"local_step":"31","world":"x"}"#.to_string());
    assert_eq!(span_attribute_i64(&s, "rank"), Some(7));
    assert_eq!(span_attribute_i64(&s, "local_step"), Some(31));
    assert_eq!(span_attribute_i64(&s, "world"), None);
    assert_eq!(span_attribute_i64(&s, "missing"), None);
    s.attributes = Some("not json".to_string());
    assert_eq!(span_attribute_i64(&s, "rank"), None);
    let context = InvestigationContext { rank: Some(7), ..Default::default() };
    assert!(!span_matches_context(&s, &context));
    s.attributes = Some(r#"{"rank":"7"}"#.to_string());
    assert!(span_matches_context(&s, &context));
    let other = InvestigationContext { rank: Some(8), ..Default::default() };
    assert!(!span_matches_context(&s, &other));
}

#[test]
fn attribute_integers_follow_the_json_value() {
    assert_eq!(attribute_integer(&JsonScalar::Number(Some(-3), None)), Some(-3));
    assert_eq!(attribute_integer(&JsonScalar::Number(None, Some(u64::MAX))), None);
    assert_eq!(attribute_integer(&JsonScalar::Number(None, None)), None);
    assert_eq!(attribute_integer(&JsonScalar::Text("12".to_string())), Some(12));
    assert_eq!(attribute_integer(&JsonScalar::Text("1.5".to_string())), None);
    assert_eq!(attribute_integer(&JsonScalar::Absent), None);
}

#[test]
fn unpinned_context_keeps_the_whole_tree() {
    let mut child = span(2, "child", vec![]);
    child.events.push(SpanEvent { name: "mark".to_string(), timestamp: 5 });
    let tree = vec![span(1, "root", vec![child])];
    let filtered = filter_span_context_tree(&tree, &InvestigationContext::default());
    assert_eq!(filtered, tree);
    let pinned = InvestigationContext { trace_id: Some(9), ..Default::default() };
    assert!(filter_span_context_tree(&tree, &pinned).is_empty());
}

#[test]
fn trace_groups_keep_roots_with_their_trace() {
    let groups = group_traces(vec![
        timed_span(7, 1, 20, 30),
        timed_span(3, 2, 10, 40),
        timed_span(7, 3, 5, 15),
    ]);

    assert_eq!(groups.len(), 2);
    assert_eq!(groups[0].trace_id, 3);
    assert_eq!(groups[1].trace_id, 7);
    assert_eq!(groups[1].roots[0].span_id, 3);
}

#[test]
fn trace_group_roots_that_start_together_keep_list_order() {
    let groups = group_traces(vec![
        timed_span(1, 1, 5, 9),
        timed_span(2, 2, 1, 2),
        timed_span(1, 3, 5, 7),
        timed_span(1, 4, 4, 7),
    ]);
    let ids: Vec<i64> = groups[0].roots.iter().map(|s| s.span_id).collect();
    assert_eq!(ids, vec![4, 1, 3]);
    assert_eq!(groups[1].roots.len(), 1);
    assert!(group_traces(Vec::new()).is_empty());
}

fn rl_span(id: i64, children: Vec<SpanInfo>) -> SpanInfo {
    SpanInfo {
        span_id: id,
        trace_id: 1,
        parent_id: None,
        name: format!("span-{id}"),
        start_timestamp: id * 1_000,
        end_timestamp: Some(id * 1_000 + 500),
        thread_id: 3,
        phase: None,
        location: None,
        attributes: None,
        children,
        events: Vec::new(),
    }
}

#[test]
fn collapsed_summary_count_keeps_nested_spans() {
    let spans = vec![rl_span(1, vec![rl_span(2, vec![rl_span(3, vec![])])])];
    assert_eq!(count_spans(&spans), 3);
}

#[test]
fn span_counts_include_nested_events_and_running_spans() {
    let mut inner = rl_span(2, vec![]);
    inner.end_timestamp = None;
    inner.events.push(SpanEvent { name: "a".into(), timestamp: 1 });
    inner.events.push(SpanEvent { name: "b".into(), timestamp: 2 });
    let mut outer = rl_span(1, vec![inner]);
    outer.events.push(SpanEvent { name: "c".into(), timestamp: 3 });
    let spans = vec![outer, rl_span(5, vec![])];
    assert_eq!(count_spans(&spans), 3);
    assert_eq!(count_events(&spans), 3);
    assert_eq!(count_active(&spans), 1);
    assert_eq!(count_spans(&Vec::new()), 0);
}

#[test]
fn merged_spans_keep_the_first_of_each_and_sort_by_start() {
    let mut spans = vec![rl_span(3, vec![]), rl_span(1, vec![]), rl_span(3, vec![]), rl_span(2, vec![])];
    spans[2].name = "duplicate".into();
    let mut other_thread = rl_span(1, vec![]);
    other_thread.thread_id = 9;
    spans.push(other_thread);
    dedupe_and_sort_spans(&mut spans);
    let keys: Vec<(i64, i64)> = spans.iter().map(|s| (s.span_id, s.thread_id)).collect();
    assert_eq!(keys, vec![(1, 3), (1, 9), (2, 3), (3, 3)]);
    assert!(spans.iter().all(|s| s.name != "duplicate"));
}

#[test]
fn thread_count_counts_each_thread_of_a_trace_once() {
    let mut leaf = span(3, "leaf", vec![]);
    leaf.thread_id = 1;
    let mut mid = span(2, "mid", vec![leaf]);
    mid.thread_id = 9;
    let mut root = span(1, "root", vec![mid]);
    root.thread_id = 1;
    let mut other = span(4, "other", vec![]);
    other.thread_id = 9;
    assert_eq!(thread_count(&vec![root, other]), 2);
    assert_eq!(thread_count(&Vec::new()), 0);
}
