use probing_web::evidence::{Cell, DataFrame};
use probing_web::pulsing::{explicit_error_status, row_count, scalar_count, summarize_spans};

fn texts(values: &[&str]) -> Vec<Cell> {
    values.iter().map(|v| Cell::Text(v.to_string())).collect()
}

#[test]
fn span_summary_uses_reported_duration_and_explicit_errors() {
    let dataframe = DataFrame {
        names: vec!["attr_actor_name", "name", "duration_us", "status_code"]
            .into_iter()
            .map(String::from)
            .collect(),
        cols: vec![
            texts(&["worker", "worker", "driver"]),
            texts(&["step", "step", "schedule"]),
            vec![Cell::I64(100), Cell::I64(300), Cell::I64(50)],
            texts(&["OK", "ERROR", "UNSET"]),
        ],
    };

    let summary = summarize_spans(&dataframe);
    assert_eq!(summary.actor_count, 2);
    let step = summary.operations.iter().find(|row| row.operation == "step").unwrap();
    assert_eq!(step.samples, 2);
    // 300 µs, in ten-thousandths of a microsecond.
    assert_eq!(step.p95_us, 3_000_000);
    assert_eq!(step.errors, 1);
}

#[test]
fn empty_success_is_distinct_from_failure() {
    let state = Some(Ok(DataFrame { names: Vec::new(), cols: Vec::new() }));
    assert_eq!(row_count(&state), "0");
    assert_eq!(row_count(&Some(Err("down".to_string()))), "—");
    assert_eq!(row_count(&None), "…");
}

#[test]
fn span_summary_orders_operations_and_names_missing_actors() {
    let dataframe = DataFrame {
        names: vec!["attr_actor_name", "name", "duration_us", "status_code"]
            .into_iter()
            .map(String::from)
            .collect(),
        cols: vec![
            texts(&["", "a", "a", "b"]),
            texts(&["op", "", "x", "x"]),
            vec![Cell::F64(25_000), Cell::I64(-1), Cell::I64(7), Cell::Text("9".into())],
            texts(&[" 2 ", "error", "ok", "ok"]),
        ],
    };
    let summary = summarize_spans(&dataframe);
    // The row with a negative duration and the one with a text duration are left out.
    assert_eq!(summary.recent.len(), 2);
    assert_eq!(summary.recent[0].actor, "(unattributed)");
    assert_eq!(summary.recent[0].duration_us, 25_000);
    assert_eq!(summary.actor_count, 1);
    assert_eq!(summary.operations.len(), 2);
    assert_eq!(summary.operations[0].actor, "a");
    assert_eq!(summary.operations[0].max_us, 70_000);
    assert_eq!(summary.operations[1].operation, "op");
    assert_eq!(summary.operations[1].errors, 1);
}

#[test]
fn explicit_errors_are_error_or_code_two() {
    assert!(explicit_error_status("Error"));
    assert!(explicit_error_status(" 2"));
    assert!(!explicit_error_status("errors"));
    assert!(!explicit_error_status("OK"));
}

#[test]
fn scalar_count_reads_the_first_integer() {
    let frame = DataFrame { names: vec!["n".into()], cols: vec![vec![Cell::I64(42)]] };
    assert_eq!(scalar_count(&Some(Ok(frame))), "42");
    let text = DataFrame { names: vec!["n".into()], cols: vec![vec![Cell::Text("x".into())]] };
    assert_eq!(scalar_count(&Some(Ok(text))), "0");
}
