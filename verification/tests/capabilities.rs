use probing_web::capabilities::{
    capability_status, catalog_needs_refresh, catalog_state_from, CapabilityCatalog,
    CapabilityCatalogState, CapabilityStatus,
};
use probing_web::evidence::{Cell, DataFrame};
use probing_web::pages::metric_history_error_detail;

fn text_column(values: &[&str]) -> Vec<Cell> {
    values.iter().map(|v| Cell::Text(v.to_string())).collect()
}

#[test]
fn required_columns_distinguish_real_tables_from_error_placeholders() {
    let dataframe = DataFrame {
        names: vec![
            "table_schema".to_string(),
            "table_name".to_string(),
            "column_name".to_string(),
        ],
        cols: vec![
            text_column(&["python", "python", "python"]),
            text_column(&["torch_trace", "torch_trace", "comm_collective"]),
            text_column(&["rank", "local_step", "_error"]),
        ],
    };
    let catalog = CapabilityCatalog::from_dataframe(&dataframe);

    assert!(catalog.supports("python", "torch_trace", &["rank", "local_step"]));
    assert!(!catalog.supports("python", "comm_collective", &["rank", "duration_ms"]));
}

#[test]
fn schema_errors_are_presented_as_capability_absence() {
    let error = "API error: Schema error: No field named metric_name. Valid fields are _error";
    assert_eq!(
        metric_history_error_detail(error),
        "Metric history storage is not available in this runtime; current engine status remains usable."
    );
}

#[test]
fn other_metric_history_errors_are_shown_as_they_are() {
    assert_eq!(metric_history_error_detail("connection refused"), "connection refused");
}

#[test]
fn a_failed_catalog_query_leaves_the_catalog_unavailable() {
    let dataframe = DataFrame {
        names: vec!["table_schema".to_string(), "table_name".to_string(), "column_name".to_string()],
        cols: vec![text_column(&["gpu"]), text_column(&["utilization"]), text_column(&["device_id"])],
    };
    let ready = catalog_state_from(&Ok(dataframe));
    assert_eq!(capability_status(&ready, "gpu", "utilization", &["device_id"]), CapabilityStatus::Available);
    assert!(!catalog_needs_refresh(&ready));
    let failed = catalog_state_from(&Err("down".to_string()));
    assert_eq!(failed, CapabilityCatalogState::Unavailable);
    assert_eq!(capability_status(&failed, "gpu", "utilization", &["device_id"]), CapabilityStatus::CatalogUnavailable);
    assert!(catalog_needs_refresh(&CapabilityCatalogState::Checking));
}
