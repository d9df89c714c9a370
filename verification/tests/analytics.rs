use probing_web::analytics::{catalog_sql, filter_tables, parse_tables, scope_class, TableEntry};
use probing_web::evidence::{Cell, DataFrame};

#[test]
fn global_names_keep_catalog_prefix() {
    let entry = TableEntry { schema: "python".into(), table: "trace_event".into() };
    assert_eq!(entry.name(true), "global.python.trace_event");
    assert_eq!(entry.name(false), "python.trace_event");
}

#[test]
fn catalog_queries_keep_the_information_schema_out_of_the_probe_catalog() {
    assert!(catalog_sql(true).contains("table_catalog = 'global'"));
    assert!(catalog_sql(false).contains("table_schema <> 'information_schema'"));
}

#[test]
fn catalog_rows_need_text_schema_and_table() {
    let frame = DataFrame {
        names: vec!["table_name".to_string(), "table_schema".to_string()],
        cols: vec![
            vec![Cell::Text("trace_event".into()), Cell::I64(3), Cell::Text("envs".into())],
            vec![Cell::Text("python".into()), Cell::Text("python".into()), Cell::Text("process".into())],
        ],
    };
    let tables = parse_tables(&frame);
    assert_eq!(
        tables,
        vec![
            TableEntry { schema: "python".into(), table: "trace_event".into() },
            TableEntry { schema: "process".into(), table: "envs".into() },
        ]
    );
    let kept = filter_tables(&tables, "  PROCESS.", false);
    assert_eq!(kept, vec![TableEntry { schema: "process".into(), table: "envs".into() }]);
    assert_eq!(filter_tables(&tables, "global.python", true).len(), 1);
    assert_eq!(filter_tables(&tables, "", true).len(), 2);
}

#[test]
fn scope_switch_fills_the_active_scope() {
    assert_eq!(scope_class(true), "rounded-md bg-blue-600 px-2.5 py-1 text-white");
    assert_eq!(scope_class(false), "rounded-md px-2.5 py-1 text-gray-600 hover:bg-gray-50");
}
