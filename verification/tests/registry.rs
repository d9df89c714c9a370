use probing_web::registry::{InvestigationSupport, NextRoute, Page, SidebarTool, WorkspaceKind};

#[test]
fn compatibility_routes_resolve_to_canonical_page_specs() {
    assert_eq!(
        NextRoute::RolloutLegacy {}.page_spec(),
        NextRoute::Rollout {}.page_spec()
    );
    assert_eq!(
        NextRoute::TracesLegacy {}.page_spec(),
        NextRoute::Spans {}.page_spec()
    );
    assert_eq!(
        NextRoute::ProfilingLegacy {}.page_spec(),
        NextRoute::Profiles {}.page_spec()
    );
}

#[test]
fn runtime_status_keeps_local_scope_and_full_height_is_declared_once() {
    assert!(!NextRoute::DistributedStatus {}.uses_cluster_scope());
    assert_eq!(
        NextRoute::ProfileView {
            view: "trace".into()
        }
        .page_spec()
        .workspace,
        WorkspaceKind::FullHeight
    );
}

#[test]
fn dashboard_spec_publishes_evidence_in_a_standard_workspace() {
    let spec = NextRoute::Dashboard {}.page_spec();
    assert_eq!(spec.id, "dashboard");
    assert_eq!(spec.title, "Dashboard");
    assert_eq!(spec.canonical_path, "/");
    assert_eq!(spec.skills, &["health_overview", "job_health", "slow_rank"]);
    assert_eq!(spec.sidebar_tool, SidebarTool::Dashboard);
    assert_eq!(spec.workspace, WorkspaceKind::Standard);
    assert!(spec.publishes_evidence);
}

#[test]
fn only_dashboard_training_and_memory_publish_evidence() {
    let routes = vec![
        NextRoute::Investigate {},
        NextRoute::Rollout {},
        NextRoute::Distributed {},
        NextRoute::Cluster {},
        NextRoute::System {},
        NextRoute::Explore {},
        NextRoute::Perfetto {},
    ];
    for route in routes {
        assert!(!route.page_spec().publishes_evidence);
    }
    assert!(NextRoute::Training {}.page_spec().publishes_evidence);
    assert!(NextRoute::Memory {}.page_spec().publishes_evidence);
}

#[test]
fn full_height_covers_profiling_views_and_perfetto_only() {
    assert_eq!(NextRoute::Perfetto {}.page_spec().workspace, WorkspaceKind::FullHeight);
    assert_eq!(NextRoute::ChromeTrace {}.page_spec().workspace, WorkspaceKind::FullHeight);
    assert_eq!(NextRoute::Spans {}.page_spec().workspace, WorkspaceKind::Standard);
    assert_eq!(NextRoute::RlSpans {}.page_spec().workspace, WorkspaceKind::Standard);
}

#[test]
fn fallback_routes_land_on_the_capability_catalog() {
    let fallback = NextRoute::ClassicFallback { segments: vec!["legacy".into()] };
    assert_eq!(fallback.page(), Page::Explore);
    assert_eq!(fallback.page_spec(), NextRoute::Explore {}.page_spec());
    assert_eq!(fallback.page_spec().canonical_path, "/explore");
    assert!(fallback.page_spec().skills.is_empty());
}

#[test]
fn workspace_classes_differ_by_kind() {
    assert_eq!(WorkspaceKind::Standard.main_class(), "absolute inset-0 overflow-y-auto");
    assert_eq!(WorkspaceKind::FullHeight.main_class(), "absolute inset-0 overflow-hidden");
    assert_eq!(
        WorkspaceKind::Standard.content_class(),
        "mx-auto w-full max-w-[1600px] p-4 lg:p-5"
    );
    assert_eq!(WorkspaceKind::FullHeight.content_class(), "h-full min-h-0 w-full p-4 lg:p-5");
}

#[test]
fn investigation_support_follows_the_route() {
    assert_eq!(NextRoute::Investigate {}.investigation_support(), InvestigationSupport::all());
    assert_eq!(
        NextRoute::Training {}.investigation_support(),
        InvestigationSupport { rank: true, ..Default::default() }
    );
    assert_eq!(
        NextRoute::ChromeTrace {}.investigation_support(),
        InvestigationSupport::default()
    );
    assert_eq!(
        NextRoute::ProfileView { view: "cpu".into() }.investigation_support(),
        InvestigationSupport { tid: true, ..Default::default() }
    );
    assert_eq!(
        NextRoute::Spans {}.investigation_support(),
        InvestigationSupport {
            tid: true,
            rank: true,
            trace: true,
            span: true,
            step: true,
            ..Default::default()
        }
    );
}

#[test]
fn snapshot_ids_of_views_with_their_own_evidence() {
    assert_eq!(NextRoute::StackThread { tid: "9".into() }.snapshot_id(), "stack-thread");
    assert_eq!(NextRoute::DistributedStack {}.snapshot_id(), "distributed-stacks");
    assert_eq!(NextRoute::DistributedPythonStack {}.snapshot_id(), "distributed-python-stacks");
    assert_eq!(NextRoute::ProfileView { view: "x".into() }.snapshot_id(), "profile-view");
    assert_eq!(NextRoute::ChromeTrace {}.snapshot_id(), "chrome-trace");
    assert_eq!(NextRoute::Stack {}.snapshot_id(), "stacks");
    assert_eq!(NextRoute::RolloutLegacy {}.snapshot_id(), "rl-rollout");
}

#[test]
fn page_ids_and_paths_are_one_to_one() {
    let routes = vec![
        NextRoute::Dashboard {},
        NextRoute::Investigate {},
        NextRoute::Training {},
        NextRoute::Rollout {},
        NextRoute::RolloutLegacy {},
        NextRoute::RlTrain {},
        NextRoute::RlSpans {},
        NextRoute::ProcessTimeline {},
        NextRoute::Perfetto {},
        NextRoute::Inference {},
        NextRoute::Distributed {},
        NextRoute::Cluster {},
        NextRoute::DistributedStatus {},
        NextRoute::Stack {},
        NextRoute::Spans {},
        NextRoute::TracesLegacy {},
        NextRoute::Memory {},
        NextRoute::Profiles {},
        NextRoute::ProfilingLegacy {},
        NextRoute::Analytics {},
        NextRoute::Python {},
        NextRoute::Pulsing {},
        NextRoute::System {},
        NextRoute::Explore {},
    ];
    for a in &routes {
        for b in &routes {
            let (sa, sb) = (a.page_spec(), b.page_spec());
            assert_eq!(sa.id == sb.id, sa.canonical_path == sb.canonical_path);
            if sa.id == sb.id {
                assert_eq!(sa, sb);
            }
        }
    }
    assert_ne!(NextRoute::Rollout {}.page_spec().id, NextRoute::RlTrain {}.page_spec().id);
}
