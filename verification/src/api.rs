//! The records that the probing server reports and the pages read.
//!
//! Measurements that the server reports as floating-point numbers are held
//! here as fixed-point integers at the precision at which the interface
//! prints them: percentages and the average wait in tenths, step durations in
//! thousandths of a millisecond.

use vstd::prelude::*;

verus! {

/// A registered process of the cluster registry.
#[derive(Clone, Debug, Default, PartialEq, Eq)]
pub struct Node {
    pub host: String,
    pub addr: String,
    pub rank: Option<i32>,
    /// The rank of the process's node among the nodes.
    pub group_rank: Option<i32>,
    pub local_rank: Option<i32>,
    pub world_size: Option<i32>,
    pub role: Option<String>,
    pub role_name: Option<String>,
    pub status: Option<String>,
    /// Last heartbeat, in microseconds since the Unix epoch; 0 when not reported.
    pub timestamp: u64,
}

/// The identity of the local process.
#[derive(Clone, Debug, Default, PartialEq, Eq)]
pub struct Process {
    pub pid: i32,
    pub main_thread: i32,
    pub threads: Vec<i32>,
    pub exe: String,
    pub cwd: String,
    pub cmd: String,
}

/// The latest CPU sample of the local process.
#[derive(Clone, Debug, Default, PartialEq, Eq)]
pub struct CpuSnapshot {
    pub platform: String,
    /// Percentages, in tenths of a percent.
    pub cpu_total_pct: i64,
    pub cpu_user_pct: i64,
    pub cpu_sys_pct: i64,
    pub rss_kb: u64,
    pub thread_count: u64,
    pub delta_vol_ctxt: i64,
    pub delta_invol_ctxt: i64,
}

/// The latest sample of one GPU.
#[derive(Clone, Debug, Default, PartialEq, Eq)]
pub struct GpuSnapshot {
    pub device_id: i32,
    pub name: String,
    /// Memory in use, in tenths of a percent.
    pub mem_used_pct: i64,
    pub used_bytes: u64,
    pub total_bytes: u64,
    /// Compute utilisation in tenths of a percent, when reported.
    pub gpu_util_pct: Option<i64>,
}

/// The CPU time of one thread over the last sampling interval.
#[derive(Clone, Debug, Default, PartialEq, Eq)]
pub struct CpuThreadRow {
    pub tid: i32,
    pub name: String,
    pub state: String,
    pub wchan: Option<String>,
    pub delta_user_ns: u64,
    pub delta_sys_ns: u64,
    pub delta_total_ns: u64,
}

/// One PyTorch wait counter.
#[derive(Clone, Debug, Default, PartialEq, Eq)]
pub struct WaitCounter {
    pub name: String,
    pub category: String,
    pub active_count: i64,
    pub total_calls: i64,
    /// Average wait in tenths of a microsecond.
    pub avg_time_us: i64,
    pub max_time_us: i64,
}

#[derive(Clone, Debug, Default, PartialEq, Eq)]
pub struct WaitCounterSnapshot {
    pub available: bool,
    pub error: Option<String>,
    pub source: String,
    pub rank: i32,
    pub counters: Vec<WaitCounter>,
}

/// A derived fact about the rendezvous store.
#[derive(Clone, Debug, Default, PartialEq, Eq)]
pub struct TcpStoreFact {
    pub label: String,
    pub value: String,
}

/// One key of the rendezvous store.
#[derive(Clone, Debug, Default, PartialEq, Eq)]
pub struct TcpStoreEntry {
    pub key: String,
    pub category: String,
    pub value_size: u64,
    pub redacted: bool,
}

#[derive(Clone, Debug, Default, PartialEq, Eq)]
pub struct TcpStoreSnapshot {
    pub available: bool,
    pub error: Option<String>,
    pub values_enabled: bool,
    pub catalog_available: bool,
    pub catalog_mode: String,
    pub total_keys: u64,
    pub identified_keys: u64,
    pub facts: Vec<TcpStoreFact>,
    pub entries: Vec<TcpStoreEntry>,
}

/// The PyTorch runtime state of the local process.
#[derive(Clone, Debug, Default, PartialEq, Eq)]
pub struct RuntimeDebugResponse {
    pub wait_counters: WaitCounterSnapshot,
    pub tcpstore: TcpStoreSnapshot,
}

/// The duration of one training step on one rank.
#[derive(Clone, Debug, Default, PartialEq, Eq)]
pub struct StepDurationSample {
    pub rank: i32,
    pub local_step: i64,
    pub coord_step: i64,
    /// Duration in thousandths of a millisecond.
    pub duration_ms: i64,
    pub host: String,
    pub addr: String,
}

/// Recent step durations of the local process or of the whole cluster.
#[derive(Clone, Debug, Default, PartialEq, Eq)]
pub struct StepMatrixResponse {
    pub samples: Vec<StepDurationSample>,
    pub rank_count: usize,
    pub step_count: usize,
    pub cluster: bool,
    pub partial: bool,
    pub nodes_queried: usize,
    pub nodes_failed: Vec<String>,
}

/// How a query fanned out over the cluster.
#[derive(Clone, Debug, Default, PartialEq, Eq)]
pub struct ClusterQueryMeta {
    pub nodes_queried: usize,
    pub nodes_failed: Vec<String>,
    pub partial: bool,
}

} // verus!
