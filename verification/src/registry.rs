//! Canonical metadata for every Next workspace: which page a route shows,
//! the page's catalog entry, the investigation coordinates it can use, the
//! identifier of its evidence snapshot, and whether it reads cluster data.
//! Compatibility routes resolve to the page of their canonical route, so the
//! rest of the shell cannot drift between aliases.

use vstd::prelude::*;

verus! {

/// The routes of the Next interface.
#[derive(Clone, Debug, PartialEq, Eq)]
pub enum NextRoute {
    Dashboard {},
    Investigate {},
    Training {},
    Rollout {},
    RolloutLegacy {},
    RlTrain {},
    RlSpans {},
    ProcessTimeline {},
    Perfetto {},
    Inference {},
    Distributed {},
    Cluster {},
    DistributedStatus {},
    Stack {},
    StackThread { tid: String },
    DistributedStack {},
    DistributedPythonStack {},
    Spans {},
    TracesLegacy {},
    Memory {},
    Profiles {},
    ProfilingLegacy {},
    ProfileView { view: String },
    ChromeTrace {},
    Analytics {},
    Python {},
    Pulsing {},
    System {},
    Explore {},
    ClassicFallback { segments: Vec<String> },
}

/// The canonical workspaces; several routes may show the same one.
#[derive(Clone, Copy, Debug, PartialEq, Eq, Structural)]
pub enum Page {
    Dashboard,
    Investigate,
    Training,
    Rollout,
    RlTrain,
    RlSpans,
    ProcessTimeline,
    Perfetto,
    Inference,
    ClusterOverview,
    ClusterNodes,
    DistributedStatus,
    Stacks,
    Spans,
    Memory,
    Profiles,
    Analytics,
    Python,
    Pulsing,
    System,
    Explore,
}

/// Investigation coordinates that a page can use to select or filter evidence.
#[derive(Clone, Copy, Debug, Default, PartialEq, Eq, Structural)]
pub struct InvestigationSupport {
    pub pid: bool,
    pub tid: bool,
    pub rank: bool,
    pub host: bool,
    pub device: bool,
    pub trace: bool,
    pub span: bool,
    pub step: bool,
}

/// No coordinate is used.
pub open spec fn no_support() -> InvestigationSupport {
    InvestigationSupport {
        pid: false,
        tid: false,
        rank: false,
        host: false,
        device: false,
        trace: false,
        span: false,
        step: false,
    }
}

/// Every coordinate is used.
pub open spec fn full_support() -> InvestigationSupport {
    InvestigationSupport {
        pid: true,
        tid: true,
        rank: true,
        host: true,
        device: true,
        trace: true,
        span: true,
        step: true,
    }
}

impl InvestigationSupport {
    /// Support for every coordinate.
    pub fn all() -> (r: Self)
        ensures
            r == full_support(),
    {
        InvestigationSupport {
            pid: true,
            tid: true,
            rank: true,
            host: true,
            device: true,
            trace: true,
            span: true,
            step: true,
        }
    }

    /// Support for no coordinate.
    pub fn none() -> (r: Self)
        ensures
            r == no_support(),
    {
        InvestigationSupport {
            pid: false,
            tid: false,
            rank: false,
            host: false,
            device: false,
            trace: false,
            span: false,
            step: false,
        }
    }
}

#[derive(Clone, Copy, Debug, PartialEq, Eq, Structural)]
pub enum WorkspaceKind {
    Standard,
    FullHeight,
}

impl WorkspaceKind {
    /// CSS classes of the scrolling main element.
    pub fn main_class(self) -> (r: &'static str)
        ensures
            r == (match self {
                WorkspaceKind::Standard => "absolute inset-0 overflow-y-auto",
                WorkspaceKind::FullHeight => "absolute inset-0 overflow-hidden",
            }),
    {
        match self {
            WorkspaceKind::Standard => "absolute inset-0 overflow-y-auto",
            WorkspaceKind::FullHeight => "absolute inset-0 overflow-hidden",
        }
    }

    /// CSS classes of the content column.
    pub fn content_class(self) -> (r: &'static str)
        ensures
            r == (match self {
                WorkspaceKind::Standard => "mx-auto w-full max-w-[1600px] p-4 lg:p-5",
                WorkspaceKind::FullHeight => "h-full min-h-0 w-full p-4 lg:p-5",
            }),
    {
        match self {
            WorkspaceKind::Standard => "mx-auto w-full max-w-[1600px] p-4 lg:p-5",
            WorkspaceKind::FullHeight => "h-full min-h-0 w-full p-4 lg:p-5",
        }
    }
}

#[derive(Clone, Copy, Debug, PartialEq, Eq, Structural)]
pub enum SidebarTool {
    Dashboard,
    Investigate,
    Cluster,
    Training,
    Inference,
    Rl,
    Memory,
    Profiling,
    Stacks,
    Tracing,
    DeepTools,
}

#[derive(Clone, Copy, Debug, PartialEq, Eq)]
pub struct PageSpec {
    pub id: &'static str,
    pub title: &'static str,
    pub canonical_path: &'static str,
    pub description: &'static str,
    pub skills: &'static [&'static str],
    pub sidebar_group: &'static str,
    pub sidebar_title: &'static str,
    pub sidebar_tool: SidebarTool,
    pub workspace: WorkspaceKind,
    pub publishes_evidence: bool,
}

/// A catalog entry in a standard workspace that publishes no evidence.
pub open spec fn spec_base(
    id: &'static str,
    title: &'static str,
    canonical_path: &'static str,
    description: &'static str,
    skills: &'static [&'static str],
    sidebar_group: &'static str,
    sidebar_title: &'static str,
    sidebar_tool: SidebarTool,
) -> PageSpec {
    PageSpec {
        id,
        title,
        canonical_path,
        description,
        skills,
        sidebar_group,
        sidebar_title,
        sidebar_tool,
        workspace: WorkspaceKind::Standard,
        publishes_evidence: false,
    }
}

/// The catalog entry of each canonical page.
pub open spec fn page_base(p: Page) -> PageSpec {
    match p {
        Page::Dashboard => spec_base(
            "dashboard",
            "Dashboard",
            "/",
            "Job progress, rank health, and local GPU utilization.",
            &["health_overview", "job_health", "slow_rank"],
            "Workspace",
            "Dashboard",
            SidebarTool::Dashboard,
        ),
        Page::Investigate => spec_base(
            "investigate",
            "Investigate",
            "/agent",
            "Skill-driven evidence collection and diagnostic reasoning.",
            &["health_overview"],
            "Workspace",
            "Investigate",
            SidebarTool::Investigate,
        ),
        Page::Training => spec_base(
            "training",
            "Training",
            "/training",
            "Step timing, placement, module hotspots, and collective latency.",
            &["slow_rank", "module_bottleneck"],
            "Workloads",
            "Training",
            SidebarTool::Training,
        ),
        Page::Rollout => spec_base(
            "rl-rollout",
            "RL Rollout",
            "/rl",
            "Per-trajectory phase timing across rollout workers.",
            &["health_overview", "module_bottleneck"],
            "Workloads",
            "RL",
            SidebarTool::Rl,
        ),
        Page::RlTrain => spec_base(
            "rl-train",
            "RL Train",
            "/rl/train",
            "Training batch phases keyed by train step.",
            &["slow_rank", "module_bottleneck"],
            "Workloads",
            "RL",
            SidebarTool::Rl,
        ),
        Page::RlSpans => spec_base(
            "rl-spans",
            "RL Spans",
            "/rl/spans",
            "Distributed RL span hierarchy with cross-process linking.",
            &["slow_rank", "comm_bottleneck"],
            "Workloads",
            "RL",
            SidebarTool::Rl,
        ),
        Page::ProcessTimeline => spec_base(
            "process-timeline",
            "Process Timeline",
            "/rl/process-timeline",
            "Per-process span timing and batch drill-down.",
            &["module_bottleneck"],
            "Workloads",
            "RL",
            SidebarTool::Rl,
        ),
        Page::Perfetto => spec_base(
            "perfetto",
            "Perfetto",
            "/rl/perfetto",
            "Chrome trace export for the loaded RL span set.",
            &["module_bottleneck", "comm_bottleneck"],
            "Workloads",
            "RL",
            SidebarTool::Rl,
        ),
        Page::Inference => spec_base(
            "inference",
            "Inference",
            "/rl/inference",
            "Inference engine throughput, latency, queue, and cache metrics.",
            &["gpu_pressure"],
            "Workloads",
            "Inference",
            SidebarTool::Inference,
        ),
        Page::ClusterOverview => spec_base(
            "cluster-overview",
            "Cluster Overview",
            "/distributed",
            "Cluster completeness and latest comparable step duration by rank.",
            &["slow_rank", "nccl_culprit_victim"],
            "Workspace",
            "Cluster",
            SidebarTool::Cluster,
        ),
        Page::ClusterNodes => spec_base(
            "cluster-nodes",
            "Cluster Nodes",
            "/cluster",
            "Registered nodes, roles, ranks, status, and heartbeat age.",
            &["job_health", "slow_rank"],
            "Workspace",
            "Cluster",
            SidebarTool::Cluster,
        ),
        Page::DistributedStatus => spec_base(
            "distributed-status",
            "Distributed Status",
            "/cluster/status",
            "PyTorch wait counters and read-only rendezvous store state.",
            &["training_hang", "comm_bottleneck"],
            "Workspace",
            "Cluster",
            SidebarTool::Cluster,
        ),
        Page::Stacks => spec_base(
            "stacks",
            "Stacks",
            "/stacks",
            "Local and distributed Python/native stack evidence.",
            &["training_hang", "module_bottleneck"],
            "Advanced analysis",
            "Stacks",
            SidebarTool::Stacks,
        ),
        Page::Spans => spec_base(
            "spans",
            "Spans",
            "/spans",
            "Hierarchical spans, filters, attributes, and investigation context.",
            &["training_hang", "module_bottleneck"],
            "Advanced analysis",
            "Tracing",
            SidebarTool::Tracing,
        ),
        Page::Memory => spec_base(
            "memory",
            "Memory",
            "/memory",
            "Physical device capacity, sampled peaks, and allocator evidence.",
            &["gpu_pressure", "memory_leak"],
            "Advanced analysis",
            "Memory",
            SidebarTool::Memory,
        ),
        Page::Profiles => spec_base(
            "profiles",
            "Profiling",
            "/profiles",
            "Current-process CPU, Torch, Chrome trace, PyTorch, and Ray capture evidence.",
            &["module_bottleneck", "comm_bottleneck"],
            "Advanced analysis",
            "Profiling",
            SidebarTool::Profiling,
        ),
        Page::Analytics => spec_base(
            "analytics",
            "SQL Explorer",
            "/analytics",
            "Local and federated table catalog, SQL editor, and results.",
            &["health_overview"],
            "Deep tools",
            "Toolbox",
            SidebarTool::DeepTools,
        ),
        Page::Python => spec_base(
            "python",
            "Python Trace",
            "/python",
            "Live function variable watches and historical records.",
            &["module_bottleneck"],
            "Deep tools",
            "Toolbox",
            SidebarTool::DeepTools,
        ),
        Page::Pulsing => spec_base(
            "pulsing",
            "Pulsing",
            "/pulsing",
            "Actor inventory, operation latency, explicit span errors, metrics, and membership.",
            &["health_overview"],
            "Deep tools",
            "Toolbox",
            SidebarTool::DeepTools,
        ),
        Page::System => spec_base(
            "system",
            "Process Snapshot",
            "/system",
            "Single-process identity, current resource samples, recent history, and CPU threads.",
            &["gpu_pressure", "module_bottleneck"],
            "Deep tools",
            "Toolbox",
            SidebarTool::DeepTools,
        ),
        Page::Explore => spec_base(
            "explore",
            "Capability Catalog",
            "/explore",
            "Search canonical Next workspaces and recover unrecognized routes.",
            &[],
            "Deep tools",
            "Toolbox",
            SidebarTool::DeepTools,
        ),
    }
}

/// The pages that fill the viewport instead of scrolling.
pub open spec fn full_height_page(p: Page) -> bool {
    p == Page::Profiles || p == Page::Perfetto
}

/// The pages whose snapshot is built from the same payloads the page renders.
pub open spec fn publishing_page(p: Page) -> bool {
    p == Page::Dashboard || p == Page::Training || p == Page::Memory
}

/// The complete specification of a page.
pub open spec fn page_spec_of(p: Page) -> PageSpec {
    PageSpec {
        workspace: if full_height_page(p) {
            WorkspaceKind::FullHeight
        } else {
            WorkspaceKind::Standard
        },
        publishes_evidence: publishing_page(p),
        ..page_base(p)
    }
}

/// The canonical page that a route shows.
pub open spec fn page_of(r: NextRoute) -> Page {
    match r {
        NextRoute::Dashboard {} => Page::Dashboard,
        NextRoute::Investigate {} => Page::Investigate,
        NextRoute::Training {} => Page::Training,
        NextRoute::Rollout {} | NextRoute::RolloutLegacy {} => Page::Rollout,
        NextRoute::RlTrain {} => Page::RlTrain,
        NextRoute::RlSpans {} => Page::RlSpans,
        NextRoute::ProcessTimeline {} => Page::ProcessTimeline,
        NextRoute::Perfetto {} => Page::Perfetto,
        NextRoute::Inference {} => Page::Inference,
        NextRoute::Distributed {} => Page::ClusterOverview,
        NextRoute::Cluster {} => Page::ClusterNodes,
        NextRoute::DistributedStatus {} => Page::DistributedStatus,
        NextRoute::Stack {}
        | NextRoute::StackThread { .. }
        | NextRoute::DistributedStack {}
        | NextRoute::DistributedPythonStack {} => Page::Stacks,
        NextRoute::Spans {} | NextRoute::TracesLegacy {} => Page::Spans,
        NextRoute::Memory {} => Page::Memory,
        NextRoute::Profiles {}
        | NextRoute::ProfilingLegacy {}
        | NextRoute::ProfileView { .. }
        | NextRoute::ChromeTrace {} => Page::Profiles,
        NextRoute::Analytics {} => Page::Analytics,
        NextRoute::Python {} => Page::Python,
        NextRoute::Pulsing {} => Page::Pulsing,
        NextRoute::System {} => Page::System,
        NextRoute::Explore {} | NextRoute::ClassicFallback { .. } => Page::Explore,
    }
}

/// The coordinates that materially affect selection or filtering on a route.
pub open spec fn support_of(r: NextRoute) -> InvestigationSupport {
    match r {
        NextRoute::Dashboard {} => InvestigationSupport {
            rank: true,
            device: true,
            step: true,
            ..no_support()
        },
        NextRoute::Investigate {} => full_support(),
        NextRoute::Training {} => InvestigationSupport { rank: true, ..no_support() },
        NextRoute::Memory {} => InvestigationSupport {
            rank: true,
            host: true,
            device: true,
            ..no_support()
        },
        NextRoute::Spans {} | NextRoute::TracesLegacy {} => InvestigationSupport {
            tid: true,
            rank: true,
            trace: true,
            span: true,
            step: true,
            ..no_support()
        },
        NextRoute::RlSpans {} => InvestigationSupport {
            tid: true,
            trace: true,
            span: true,
            ..no_support()
        },
        NextRoute::Cluster {} => InvestigationSupport {
            rank: true,
            host: true,
            device: true,
            ..no_support()
        },
        NextRoute::Stack {}
        | NextRoute::StackThread { .. }
        | NextRoute::Profiles {}
        | NextRoute::ProfilingLegacy {}
        | NextRoute::ProfileView { .. } => InvestigationSupport { tid: true, ..no_support() },
        _ => no_support(),
    }
}

/// The identifier of a route's evidence snapshot: the page identifier, except
/// for the views of a page that capture evidence of their own.
pub open spec fn snapshot_id_of(r: NextRoute) -> &'static str {
    match r {
        NextRoute::StackThread { .. } => "stack-thread",
        NextRoute::DistributedStack {} => "distributed-stacks",
        NextRoute::DistributedPythonStack {} => "distributed-python-stacks",
        NextRoute::ProfileView { .. } => "profile-view",
        NextRoute::ChromeTrace {} => "chrome-trace",
        _ => page_spec_of(page_of(r)).id,
    }
}

/// The routes whose evidence is gathered across the cluster.
pub open spec fn cluster_route(r: NextRoute) -> bool {
    match r {
        NextRoute::Dashboard {}
        | NextRoute::Distributed {}
        | NextRoute::Cluster {}
        | NextRoute::DistributedStack {}
        | NextRoute::DistributedPythonStack {} => true,
        _ => false,
    }
}

fn make_base(
    id: &'static str,
    title: &'static str,
    canonical_path: &'static str,
    description: &'static str,
    skills: &'static [&'static str],
    sidebar_group: &'static str,
    sidebar_title: &'static str,
    sidebar_tool: SidebarTool,
) -> (r: PageSpec)
    ensures
        r == spec_base(
            id,
            title,
            canonical_path,
            description,
            skills,
            sidebar_group,
            sidebar_title,
            sidebar_tool,
        ),
{
    PageSpec {
        id,
        title,
        canonical_path,
        description,
        skills,
        sidebar_group,
        sidebar_title,
        sidebar_tool,
        workspace: WorkspaceKind::Standard,
        publishes_evidence: false,
    }
}

impl Page {
    /// The catalog entry of the page, before its workspace and evidence flags.
    pub fn base(self) -> (r: PageSpec)
        ensures
            r == page_base(self),
    {
        match self {
            Page::Dashboard => make_base(
                "dashboard",
                "Dashboard",
                "/",
                "Job progress, rank health, and local GPU utilization.",
                &["health_overview", "job_health", "slow_rank"],
                "Workspace",
                "Dashboard",
                SidebarTool::Dashboard,
            ),
            Page::Investigate => make_base(
                "investigate",
                "Investigate",
                "/agent",
                "Skill-driven evidence collection and diagnostic reasoning.",
                &["health_overview"],
                "Workspace",
                "Investigate",
                SidebarTool::Investigate,
            ),
            Page::Training => make_base(
                "training",
                "Training",
                "/training",
                "Step timing, placement, module hotspots, and collective latency.",
                &["slow_rank", "module_bottleneck"],
                "Workloads",
                "Training",
                SidebarTool::Training,
            ),
            Page::Rollout => make_base(
                "rl-rollout",
                "RL Rollout",
                "/rl",
                "Per-trajectory phase timing across rollout workers.",
                &["health_overview", "module_bottleneck"],
                "Workloads",
                "RL",
                SidebarTool::Rl,
            ),
            Page::RlTrain => make_base(
                "rl-train",
                "RL Train",
                "/rl/train",
                "Training batch phases keyed by train step.",
                &["slow_rank", "module_bottleneck"],
                "Workloads",
                "RL",
                SidebarTool::Rl,
            ),
            Page::RlSpans => make_base(
                "rl-spans",
                "RL Spans",
                "/rl/spans",
                "Distributed RL span hierarchy with cross-process linking.",
                &["slow_rank", "comm_bottleneck"],
                "Workloads",
                "RL",
                SidebarTool::Rl,
            ),
            Page::ProcessTimeline => make_base(
                "process-timeline",
                "Process Timeline",
                "/rl/process-timeline",
                "Per-process span timing and batch drill-down.",
                &["module_bottleneck"],
                "Workloads",
                "RL",
                SidebarTool::Rl,
            ),
            Page::Perfetto => make_base(
                "perfetto",
                "Perfetto",
                "/rl/perfetto",
                "Chrome trace export for the loaded RL span set.",
                &["module_bottleneck", "comm_bottleneck"],
                "Workloads",
                "RL",
                SidebarTool::Rl,
            ),
            Page::Inference => make_base(
                "inference",
                "Inference",
                "/rl/inference",
                "Inference engine throughput, latency, queue, and cache metrics.",
                &["gpu_pressure"],
                "Workloads",
                "Inference",
                SidebarTool::Inference,
            ),
            Page::ClusterOverview => make_base(
                "cluster-overview",
                "Cluster Overview",
                "/distributed",
                "Cluster completeness and latest comparable step duration by rank.",
                &["slow_rank", "nccl_culprit_victim"],
                "Workspace",
                "Cluster",
                SidebarTool::Cluster,
            ),
            Page::ClusterNodes => make_base(
                "cluster-nodes",
                "Cluster Nodes",
                "/cluster",
                "Registered nodes, roles, ranks, status, and heartbeat age.",
                &["job_health", "slow_rank"],
                "Workspace",
                "Cluster",
                SidebarTool::Cluster,
            ),
            Page::DistributedStatus => make_base(
                "distributed-status",
                "Distributed Status",
                "/cluster/status",
                "PyTorch wait counters and read-only rendezvous store state.",
                &["training_hang", "comm_bottleneck"],
                "Workspace",
                "Cluster",
                SidebarTool::Cluster,
            ),
            Page::Stacks => make_base(
                "stacks",
                "Stacks",
                "/stacks",
                "Local and distributed Python/native stack evidence.",
                &["training_hang", "module_bottleneck"],
                "Advanced analysis",
                "Stacks",
                SidebarTool::Stacks,
            ),
            Page::Spans => make_base(
                "spans",
                "Spans",
                "/spans",
                "Hierarchical spans, filters, attributes, and investigation context.",
                &["training_hang", "module_bottleneck"],
                "Advanced analysis",
                "Tracing",
                SidebarTool::Tracing,
            ),
            Page::Memory => make_base(
                "memory",
                "Memory",
                "/memory",
                "Physical device capacity, sampled peaks, and allocator evidence.",
                &["gpu_pressure", "memory_leak"],
                "Advanced analysis",
                "Memory",
                SidebarTool::Memory,
            ),
            Page::Profiles => make_base(
                "profiles",
                "Profiling",
                "/profiles",
                "Current-process CPU, Torch, Chrome trace, PyTorch, and Ray capture evidence.",
                &["module_bottleneck", "comm_bottleneck"],
                "Advanced analysis",
                "Profiling",
                SidebarTool::Profiling,
            ),
            Page::Analytics => make_base(
                "analytics",
                "SQL Explorer",
                "/analytics",
                "Local and federated table catalog, SQL editor, and results.",
                &["health_overview"],
                "Deep tools",
                "Toolbox",
                SidebarTool::DeepTools,
            ),
            Page::Python => make_base(
                "python",
                "Python Trace",
                "/python",
                "Live function variable watches and historical records.",
                &["module_bottleneck"],
                "Deep tools",
                "Toolbox",
                SidebarTool::DeepTools,
            ),
            Page::Pulsing => make_base(
                "pulsing",
                "Pulsing",
                "/pulsing",
                "Actor inventory, operation latency, explicit span errors, metrics, and membership.",
                &["health_overview"],
                "Deep tools",
                "Toolbox",
                SidebarTool::DeepTools,
            ),
            Page::System => make_base(
                "system",
                "Process Snapshot",
                "/system",
                "Single-process identity, current resource samples, recent history, and CPU threads.",
                &["gpu_pressure", "module_bottleneck"],
                "Deep tools",
                "Toolbox",
                SidebarTool::DeepTools,
            ),
            Page::Explore => make_base(
                "explore",
                "Capability Catalog",
                "/explore",
                "Search canonical Next workspaces and recover unrecognized routes.",
                &[],
                "Deep tools",
                "Toolbox",
                SidebarTool::DeepTools,
            ),
        }
    }
}

impl NextRoute {
    /// The canonical page the route shows.
    pub fn page(&self) -> (p: Page)
        ensures
            p == page_of(*self),
    {
        match self {
            NextRoute::Dashboard {} => Page::Dashboard,
            NextRoute::Investigate {} => Page::Investigate,
            NextRoute::Training {} => Page::Training,
            NextRoute::Rollout {} | NextRoute::RolloutLegacy {} => Page::Rollout,
            NextRoute::RlTrain {} => Page::RlTrain,
            NextRoute::RlSpans {} => Page::RlSpans,
            NextRoute::ProcessTimeline {} => Page::ProcessTimeline,
            NextRoute::Perfetto {} => Page::Perfetto,
            NextRoute::Inference {} => Page::Inference,
            NextRoute::Distributed {} => Page::ClusterOverview,
            NextRoute::Cluster {} => Page::ClusterNodes,
            NextRoute::DistributedStatus {} => Page::DistributedStatus,
            NextRoute::Stack {}
            | NextRoute::StackThread { .. }
            | NextRoute::DistributedStack {}
            | NextRoute::DistributedPythonStack {} => Page::Stacks,
            NextRoute::Spans {} | NextRoute::TracesLegacy {} => Page::Spans,
            NextRoute::Memory {} => Page::Memory,
            NextRoute::Profiles {}
            | NextRoute::ProfilingLegacy {}
            | NextRoute::ProfileView { .. }
            | NextRoute::ChromeTrace {} => Page::Profiles,
            NextRoute::Analytics {} => Page::Analytics,
            NextRoute::Python {} => Page::Python,
            NextRoute::Pulsing {} => Page::Pulsing,
            NextRoute::System {} => Page::System,
            NextRoute::Explore {} | NextRoute::ClassicFallback { .. } => Page::Explore,
        }
    }

    /// The page specification: the catalog entry of the canonical page, in a
    /// full-height workspace for the profiling and Perfetto views, and marked
    /// as publishing evidence for the dashboard, training and memory pages.
    pub fn page_spec(&self) -> (r: PageSpec)
        ensures
            r == page_spec_of(page_of(*self)),
    {
        let page = self.page();
        let mut spec = page.base();
        if matches!(page, Page::Profiles | Page::Perfetto) {
            spec.workspace = WorkspaceKind::FullHeight;
        }
        spec.publishes_evidence = matches!(page, Page::Dashboard | Page::Training | Page::Memory);
        spec
    }

    /// Context fields that materially affect selection or filtering on this route.
    pub fn investigation_support(&self) -> (r: InvestigationSupport)
        ensures
            r == support_of(*self),
    {
        match self {
            NextRoute::Dashboard {} => InvestigationSupport {
                rank: true,
                device: true,
                step: true,
                ..InvestigationSupport::none()
            },
            NextRoute::Investigate {} => InvestigationSupport::all(),
            NextRoute::Training {} => InvestigationSupport { rank: true, ..InvestigationSupport::none() },
            NextRoute::Memory {} => InvestigationSupport {
                rank: true,
                host: true,
                device: true,
                ..InvestigationSupport::none()
            },
            NextRoute::Spans {} | NextRoute::TracesLegacy {} => InvestigationSupport {
                tid: true,
                rank: true,
                trace: true,
                span: true,
                step: true,
                ..InvestigationSupport::none()
            },
            NextRoute::RlSpans {} => InvestigationSupport {
                tid: true,
                trace: true,
                span: true,
                ..InvestigationSupport::none()
            },
            NextRoute::Cluster {} => InvestigationSupport {
                rank: true,
                host: true,
                device: true,
                ..InvestigationSupport::none()
            },
            NextRoute::Stack {}
            | NextRoute::StackThread { .. }
            | NextRoute::Profiles {}
            | NextRoute::ProfilingLegacy {}
            | NextRoute::ProfileView { .. } => InvestigationSupport { tid: true, ..InvestigationSupport::none() },
            _ => InvestigationSupport::none(),
        }
    }

    /// The identifier of the route's evidence snapshot.
    pub fn snapshot_id(&self) -> (r: &'static str)
        ensures
            r == snapshot_id_of(*self),
    {
        match self {
            NextRoute::StackThread { .. } => "stack-thread",
            NextRoute::DistributedStack {} => "distributed-stacks",
            NextRoute::DistributedPythonStack {} => "distributed-python-stacks",
            NextRoute::ProfileView { .. } => "profile-view",
            NextRoute::ChromeTrace {} => "chrome-trace",
            _ => self.page_spec().id,
        }
    }

    /// Whether the route's evidence is gathered across the cluster.
    pub fn uses_cluster_scope(&self) -> (r: bool)
        ensures
            r == cluster_route(*self),
    {
        matches!(
            self,
            NextRoute::Dashboard {}
                | NextRoute::Distributed {}
                | NextRoute::Cluster {}
                | NextRoute::DistributedStack {}
                | NextRoute::DistributedPythonStack {}
        )
    }
}

}
