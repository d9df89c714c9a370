use probing_web::inference::{chart_series, engine_colors};

fn key(metric: &str, engine: &str) -> (String, String) {
    (metric.to_string(), engine.to_string())
}

#[test]
fn engines_are_coloured_in_name_order_and_the_palette_repeats() {
    let keys = vec![
        key("ttft", "vllm-b"),
        key("tpot", "vllm-a"),
        key("ttft", "vllm-a"),
        key("ttft", "e3"),
        key("ttft", "e4"),
        key("ttft", "e5"),
        key("ttft", "e6"),
        key("ttft", "e7"),
    ];
    let colors = engine_colors(&keys);
    let names: Vec<&str> = colors.iter().map(|(name, _)| name.as_str()).collect();
    assert_eq!(names, vec!["e3", "e4", "e5", "e6", "e7", "vllm-a", "vllm-b"]);
    assert_eq!(colors[0].1, "#2563eb");
    assert_eq!(colors[5].1, "#0891b2");
    assert_eq!(colors[6].1, "#2563eb");
}

#[test]
fn a_metric_chart_holds_the_engines_with_its_history() {
    let keys = vec![key("ttft", "vllm-b"), key("tpot", "vllm-c"), key("ttft", "vllm-a")];
    let colors = vec![("vllm-a".to_string(), "#dc2626"), ("vllm-b".to_string(), "#16a34a")];
    assert_eq!(
        chart_series(&keys, &colors, "ttft"),
        vec![("vllm-a".to_string(), "#dc2626"), ("vllm-b".to_string(), "#16a34a")]
    );
    assert_eq!(chart_series(&keys, &colors, "tpot"), vec![("vllm-c".to_string(), "#64748b")]);
    assert!(chart_series(&keys, &colors, "queue").is_empty());
}

#[test]
fn chart_lines_take_their_legend_colours() {
    let keys = vec![key("ttft", "b"), key("tpot", "a"), key("ttft", "c"), key("tpot", "c")];
    let legend = engine_colors(&keys);
    for metric in ["ttft", "tpot"] {
        for (engine, colour) in chart_series(&keys, &legend, metric) {
            let listed = legend.iter().find(|(name, _)| *name == engine).map(|(_, c)| *c);
            assert_eq!(Some(colour), listed);
            assert_ne!(colour, "#64748b");
        }
    }
}
