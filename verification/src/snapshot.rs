//! Native Next-page evidence snapshots consumed by the Investigate panel.
//!
//! This module speaks in Next routes and evidence requests: page UI and
//! Agent context use the same scope and investigation coordinates. It decides
//! which sources a route's snapshot reads and how each reply, or its failure,
//! reads as text; the caller performs the reads.

use vstd::prelude::*;

use crate::api::{
    ClusterQueryMeta, CpuSnapshot, CpuThreadRow, GpuSnapshot, Node, Process,
    RuntimeDebugResponse, StepDurationSample, StepMatrixResponse, TcpStoreEntry, TcpStoreFact,
    WaitCounter,
};
use crate::context::{summary_text, InvestigationContext};
use crate::evidence::{
    bool_str, bool_text, dataframe_preview, preview_text, scope_label, DataFrame,
    EvidenceRequest, EvidenceScope,
};
use crate::registry::{cluster_route, snapshot_id_of, NextRoute};
use crate::text::push_char;
use crate::text::{
    fixed_text, fixed_text_exec, i32_text, i64_text, int_text, join, join_seq, lemma_views_push,
    nat_text, owned, u64_text, usize_text, views,
};

verus! {

/// The note of a source that could not be read.
pub open spec fn unavailable_text(source: Seq<char>, detail: Seq<char>) -> Seq<char> {
    "["@ + source + "]\n(unavailable: "@ + detail + ")"@
}

/// The note of a source that could not be read: its name and the reason.
pub fn unavailable(source: &str, detail: &str) -> (r: String)
    ensures
        r@ == unavailable_text(source@, detail@),
{
    proof {
        reveal_strlit("[");
        reveal_strlit("]\n(unavailable: ");
        reveal_strlit(")");
    }
    let mut s = String::from_str("[");
    s.append(source);
    s.append("]\n(unavailable: ");
    s.append(detail);
    s.append(")");
    s
}

/// The lines, one per row, or a note that no row matched.
pub open spec fn lines_or_note(lines: Seq<Seq<char>>) -> Seq<char> {
    if lines.len() == 0 {
        "(no matching rows)"@
    } else {
        join_seq(lines, "\n"@)
    }
}

pub fn empty_if_needed(lines: Vec<String>) -> (r: String)
    ensures
        r@ == lines_or_note(views(lines@)),
{
    if lines.len() == 0 {
        proof {
            reveal_strlit("(no matching rows)");
        }
        owned("(no matching rows)")
    } else {
        proof {
            reveal_strlit("\n");
        }
        join(&lines, "\n")
    }
}

// ---------------------------------------------------------------------------
// Process, CPU and GPU samples

pub open spec fn process_text(p: Process) -> Seq<char> {
    "[process overview]\npid "@ + int_text(p.pid as int) + " · main thread "@ + int_text(
        p.main_thread as int,
    ) + " · "@ + nat_text(p.threads@.len()) + " threads\nexecutable="@ + p.exe@
        + "\nworking directory="@ + p.cwd@ + "\ncommand="@ + p.cmd@
}

pub fn format_system_process(process: &Process) -> (r: String)
    ensures
        r@ == process_text(*process),
{
    proof {
        reveal_strlit("[process overview]\npid ");
        reveal_strlit(" · main thread ");
        reveal_strlit(" · ");
        reveal_strlit(" threads\nexecutable=");
        reveal_strlit("\nworking directory=");
        reveal_strlit("\ncommand=");
    }
    let mut s = owned("[process overview]\npid ");
    s.append(i32_text(process.pid).as_str());
    s.append(" · main thread ");
    s.append(i32_text(process.main_thread).as_str());
    s.append(" · ");
    s.append(usize_text(process.threads.len()).as_str());
    s.append(" threads\nexecutable=");
    s.append(process.exe.as_str());
    s.append("\nworking directory=");
    s.append(process.cwd.as_str());
    s.append("\ncommand=");
    s.append(process.cmd.as_str());
    s
}

pub open spec fn cpu_text(c: CpuSnapshot) -> Seq<char> {
    "[cpu.utilization · process]\nCPU "@ + fixed_text(c.cpu_total_pct as int, 1) + "% · user "@
        + fixed_text(c.cpu_user_pct as int, 1) + "% · system "@ + fixed_text(
        c.cpu_sys_pct as int,
        1,
    ) + "% · RSS "@ + nat_text(c.rss_kb as nat) + " KiB · "@ + nat_text(c.thread_count as nat)
        + " threads\ncontext switches voluntary="@ + int_text(c.delta_vol_ctxt as int)
        + " · involuntary="@ + int_text(c.delta_invol_ctxt as int) + " · platform="@
        + c.platform@
}

pub fn format_cpu_snapshot(snapshot: &CpuSnapshot) -> (r: String)
    ensures
        r@ == cpu_text(*snapshot),
{
    proof {
        reveal_strlit("[cpu.utilization · process]\nCPU ");
        reveal_strlit("% · user ");
        reveal_strlit("% · system ");
        reveal_strlit("% · RSS ");
        reveal_strlit(" KiB · ");
        reveal_strlit(" threads\ncontext switches voluntary=");
        reveal_strlit(" · involuntary=");
        reveal_strlit(" · platform=");
    }
    let mut s = owned("[cpu.utilization · process]\nCPU ");
    s.append(fixed_text_exec(snapshot.cpu_total_pct, 1).as_str());
    s.append("% · user ");
    s.append(fixed_text_exec(snapshot.cpu_user_pct, 1).as_str());
    s.append("% · system ");
    s.append(fixed_text_exec(snapshot.cpu_sys_pct, 1).as_str());
    s.append("% · RSS ");
    s.append(u64_text(snapshot.rss_kb).as_str());
    s.append(" KiB · ");
    s.append(u64_text(snapshot.thread_count).as_str());
    s.append(" threads\ncontext switches voluntary=");
    s.append(i64_text(snapshot.delta_vol_ctxt).as_str());
    s.append(" · involuntary=");
    s.append(i64_text(snapshot.delta_invol_ctxt).as_str());
    s.append(" · platform=");
    s.append(snapshot.platform.as_str());
    s
}

pub open spec fn gpu_row_text(d: GpuSnapshot) -> Seq<char> {
    "GPU "@ + int_text(d.device_id as int) + " · "@ + d.name@ + " · memory "@ + fixed_text(
        d.mem_used_pct as int,
        1,
    ) + "% ("@ + nat_text(d.used_bytes as nat) + "/"@ + nat_text(d.total_bytes as nat)
        + ") · compute "@ + match d.gpu_util_pct {
        Some(v) => fixed_text(v as int, 1) + "%"@,
        None => "not reported"@,
    }
}

/// The device is the pinned one, or no device is pinned.
pub open spec fn device_selected(pin: Option<i32>, d: GpuSnapshot) -> bool {
    match pin {
        Some(id) => id == d.device_id,
        None => true,
    }
}

/// The rows of the selected devices, in order.
pub open spec fn gpu_rows(ds: Seq<GpuSnapshot>, pin: Option<i32>) -> Seq<Seq<char>>
    decreases ds.len(),
{
    if ds.len() == 0 {
        seq![]
    } else {
        gpu_rows(ds.drop_last(), pin) + if device_selected(pin, ds.last()) {
            seq![gpu_row_text(ds.last())]
        } else {
            seq![]
        }
    }
}

pub open spec fn gpu_text(ds: Seq<GpuSnapshot>, pin: Option<i32>) -> Seq<char> {
    "[gpu.utilization]\n"@ + lines_or_note(gpu_rows(ds, pin))
}

fn gpu_row(d: &GpuSnapshot) -> (r: String)
    ensures
        r@ == gpu_row_text(*d),
{
    proof {
        reveal_strlit("GPU ");
        reveal_strlit(" · ");
        reveal_strlit(" · memory ");
        reveal_strlit("% (");
        reveal_strlit("/");
        reveal_strlit(") · compute ");
        reveal_strlit("%");
        reveal_strlit("not reported");
    }
    let mut s = owned("GPU ");
    s.append(i32_text(d.device_id).as_str());
    s.append(" · ");
    s.append(d.name.as_str());
    s.append(" · memory ");
    s.append(fixed_text_exec(d.mem_used_pct, 1).as_str());
    s.append("% (");
    s.append(u64_text(d.used_bytes).as_str());
    s.append("/");
    s.append(u64_text(d.total_bytes).as_str());
    s.append(") · compute ");
    match d.gpu_util_pct {
        Some(v) => {
            s.append(fixed_text_exec(v, 1).as_str());
            s.append("%");
        },
        None => {
            s.append("not reported");
        },
    }
    s
}

/// The selected devices, one line each: id, name, memory share and bytes,
/// and compute utilisation where reported.
pub fn format_gpu_devices(devices: &Vec<GpuSnapshot>, request: &EvidenceRequest) -> (r: String)
    ensures
        r@ == gpu_text(devices@, request.context.device_id),
{
    let pin = request.context.device_id;
    let mut rows: Vec<String> = Vec::new();
    let mut i: usize = 0;
    while i < devices.len()
        invariant
            i <= devices@.len(),
            pin == request.context.device_id,
            views(rows@) == gpu_rows(devices@.take(i as int), pin),
        decreases devices@.len() - i,
    {
        let d = &devices[i];
        let selected = match pin {
            Some(id) => id == d.device_id,
            None => true,
        };
        assert(devices@.take(i + 1).drop_last() == devices@.take(i as int));
        if selected {
            let row = gpu_row(d);
            let ghost before = rows@;
            rows.push(row);
            proof {
                lemma_views_push(before, row);
            }
        }
        i = i + 1;
    }
    assert(devices@.take(devices@.len() as int) == devices@);
    proof {
        reveal_strlit("[gpu.utilization]\n");
    }
    let mut s = owned("[gpu.utilization]\n");
    s.append(empty_if_needed(rows).as_str());
    s
}

pub open spec fn thread_row_text(t: CpuThreadRow) -> Seq<char> {
    "tid "@ + int_text(t.tid as int) + " · "@ + t.name@ + " · state="@ + t.state@ + " · wait="@
        + match t.wchan {
        Some(w) => w@,
        None => "not reported"@,
    } + " · cpu_delta_ns="@ + nat_text(t.delta_total_ns as nat)
}

pub open spec fn threads_text(ts: Seq<CpuThreadRow>) -> Seq<char> {
    "[cpu.tasks · top threads]\n"@ + lines_or_note(
        ts.map_values(|t: CpuThreadRow| thread_row_text(t)),
    )
}

fn thread_row(t: &CpuThreadRow) -> (r: String)
    ensures
        r@ == thread_row_text(*t),
{
    proof {
        reveal_strlit("tid ");
        reveal_strlit(" · ");
        reveal_strlit(" · state=");
        reveal_strlit(" · wait=");
        reveal_strlit("not reported");
        reveal_strlit(" · cpu_delta_ns=");
    }
    let mut s = owned("tid ");
    s.append(i32_text(t.tid).as_str());
    s.append(" · ");
    s.append(t.name.as_str());
    s.append(" · state=");
    s.append(t.state.as_str());
    s.append(" · wait=");
    match &t.wchan {
        Some(w) => s.append(w.as_str()),
        None => s.append("not reported"),
    }
    s.append(" · cpu_delta_ns=");
    s.append(u64_text(t.delta_total_ns).as_str());
    s
}

/// The busiest threads, one line each.
pub fn format_cpu_threads(threads: &Vec<CpuThreadRow>) -> (r: String)
    ensures
        r@ == threads_text(threads@),
{
    let ghost target = threads@.map_values(|t: CpuThreadRow| thread_row_text(t));
    let mut rows: Vec<String> = Vec::new();
    let mut i: usize = 0;
    while i < threads.len()
        invariant
            i <= threads@.len(),
            target == threads@.map_values(|t: CpuThreadRow| thread_row_text(t)),
            views(rows@) == target.take(i as int),
        decreases threads@.len() - i,
    {
        let row = thread_row(&threads[i]);
        let ghost before = rows@;
        rows.push(row);
        proof {
            lemma_views_push(before, row);
        }
        i = i + 1;
        assert(views(rows@) =~= target.take(i as int));
    }
    assert(target.take(threads@.len() as int) =~= target);
    proof {
        reveal_strlit("[cpu.tasks · top threads]\n");
    }
    let mut s = owned("[cpu.tasks · top threads]\n");
    s.append(empty_if_needed(rows).as_str());
    s
}

// ---------------------------------------------------------------------------
// PyTorch runtime state

pub open spec fn min_nat(a: nat, b: nat) -> nat {
    if a < b {
        a
    } else {
        b
    }
}

/// How many counters are waiting right now.
pub open spec fn active_counters(cs: Seq<WaitCounter>) -> nat
    decreases cs.len(),
{
    if cs.len() == 0 {
        0
    } else {
        active_counters(cs.drop_last()) + if cs.last().active_count > 0 {
            1nat
        } else {
            0nat
        }
    }
}

/// The calls of all counters together.
pub open spec fn total_calls(cs: Seq<WaitCounter>) -> int
    decreases cs.len(),
{
    if cs.len() == 0 {
        0
    } else {
        total_calls(cs.drop_last()) + cs.last().total_calls
    }
}

/// Adding the counters up one by one stays within `i64`.
pub open spec fn calls_fit(cs: Seq<WaitCounter>) -> bool {
    forall|k: int|
        0 <= k <= cs.len() ==> i64::MIN <= #[trigger] total_calls(cs.take(k)) <= i64::MAX
}

pub open spec fn counter_text(c: WaitCounter) -> Seq<char> {
    c.name@ + " · category="@ + c.category@ + " · active="@ + int_text(c.active_count as int)
        + " · calls="@ + int_text(c.total_calls as int) + " · avg_us="@ + fixed_text(
        c.avg_time_us as int,
        1,
    ) + " · max_us="@ + int_text(c.max_time_us as int)
}

pub open spec fn fact_text(f: TcpStoreFact) -> Seq<char> {
    f.label@ + "="@ + f.value@
}

pub open spec fn store_entry_text(e: TcpStoreEntry) -> Seq<char> {
    e.key@ + " · category="@ + e.category@ + " · "@ + nat_text(e.value_size as nat)
        + " bytes · redacted="@ + bool_text(e.redacted)
}

pub open spec fn error_or(error: Option<String>, fallback: Seq<char>) -> Seq<char> {
    match error {
        Some(e) => e@,
        None => fallback,
    }
}

pub open spec fn wait_counters_text(r: RuntimeDebugResponse) -> Seq<char> {
    let w = r.wait_counters;
    let cs = w.counters@;
    if w.available {
        "[pytorch wait counters]\n"@ + join_seq(
            seq![
                "rank "@ + int_text(w.rank as int) + " · source="@ + w.source@ + " · "@
                    + nat_text(cs.len()) + " counters · "@ + nat_text(active_counters(cs))
                    + " active · "@ + int_text(total_calls(cs)) + " total calls"@,
            ] + cs.take(min_nat(cs.len(), 12) as int).map_values(
                |c: WaitCounter| counter_text(c),
            ),
            "\n"@,
        )
    } else {
        unavailable_text("pytorch wait counters"@, error_or(w.error, "capability not reported"@))
    }
}

pub open spec fn tcpstore_text(r: RuntimeDebugResponse) -> Seq<char> {
    let t = r.tcpstore;
    let es = t.entries@;
    if t.available {
        "[pytorch TCPStore]\n"@ + join_seq(
            seq![
                nat_text(t.total_keys as nat) + " keys · "@ + nat_text(t.identified_keys as nat)
                    + " identified · catalog="@ + t.catalog_mode@ + " · values="@ + bool_text(
                    t.values_enabled,
                ),
            ] + t.facts@.map_values(|f: TcpStoreFact| fact_text(f)) + es.take(
                min_nat(es.len(), 12) as int,
            ).map_values(|e: TcpStoreEntry| store_entry_text(e)),
            "\n"@,
        )
    } else {
        unavailable_text("pytorch TCPStore"@, error_or(t.error, "capability not reported"@))
    }
}

/// Wait counters and rendezvous store, each reported or explained on its own.
pub open spec fn runtime_text(r: RuntimeDebugResponse) -> Seq<char> {
    wait_counters_text(r) + "\n\n"@ + tcpstore_text(r)
}

fn counter_line(c: &WaitCounter) -> (r: String)
    ensures
        r@ == counter_text(*c),
{
    proof {
        reveal_strlit(" · category=");
        reveal_strlit(" · active=");
        reveal_strlit(" · calls=");
        reveal_strlit(" · avg_us=");
        reveal_strlit(" · max_us=");
    }
    let mut s = c.name.clone();
    s.append(" · category=");
    s.append(c.category.as_str());
    s.append(" · active=");
    s.append(i64_text(c.active_count).as_str());
    s.append(" · calls=");
    s.append(i64_text(c.total_calls).as_str());
    s.append(" · avg_us=");
    s.append(fixed_text_exec(c.avg_time_us, 1).as_str());
    s.append(" · max_us=");
    s.append(i64_text(c.max_time_us).as_str());
    s
}

fn error_text(error: &Option<String>) -> (r: String)
    ensures
        r@ == error_or(*error, "capability not reported"@),
{
    match error {
        Some(e) => e.clone(),
        None => {
            proof {
                reveal_strlit("capability not reported");
            }
            owned("capability not reported")
        },
    }
}

fn format_wait_counters(snapshot: &RuntimeDebugResponse) -> (r: String)
    requires
        calls_fit(snapshot.wait_counters.counters@),
    ensures
        r@ == wait_counters_text(*snapshot),
{
    let w = &snapshot.wait_counters;
    if !w.available {
        proof {
            reveal_strlit("pytorch wait counters");
        }
        return unavailable("pytorch wait counters", error_text(&w.error).as_str());
    }
    let ghost cs = w.counters@;
    let mut active: usize = 0;
    let mut calls: i64 = 0;
    let mut i: usize = 0;
    while i < w.counters.len()
        invariant
            cs == w.counters@,
            calls_fit(cs),
            i <= cs.len(),
            active == active_counters(cs.take(i as int)),
            active <= i,
            calls == total_calls(cs.take(i as int)),
        decreases cs.len() - i,
    {
        let c = &w.counters[i];
        assert(cs.take(i + 1).drop_last() == cs.take(i as int));
        assert(i64::MIN <= total_calls(cs.take(i + 1)) <= i64::MAX);
        if c.active_count > 0 {
            active = active + 1;
        }
        calls = calls + c.total_calls;
        i = i + 1;
    }
    assert(cs.take(cs.len() as int) == cs);
    proof {
        reveal_strlit("rank ");
        reveal_strlit(" · source=");
        reveal_strlit(" · ");
        reveal_strlit(" counters · ");
        reveal_strlit(" active · ");
        reveal_strlit(" total calls");
        reveal_strlit("[pytorch wait counters]\n");
        reveal_strlit("\n");
    }
    let mut head = owned("rank ");
    head.append(i32_text(w.rank).as_str());
    head.append(" · source=");
    head.append(w.source.as_str());
    head.append(" · ");
    head.append(usize_text(w.counters.len()).as_str());
    head.append(" counters · ");
    head.append(usize_text(active).as_str());
    head.append(" active · ");
    head.append(i64_text(calls).as_str());
    head.append(" total calls");
    let shown: usize = if w.counters.len() < 12 {
        w.counters.len()
    } else {
        12
    };
    let ghost target = cs.take(shown as int).map_values(|c: WaitCounter| counter_text(c));
    let mut rows: Vec<String> = Vec::new();
    rows.push(head);
    assert(views(rows@) =~= seq![head@]);
    let mut k: usize = 0;
    while k < shown
        invariant
            cs == w.counters@,
            shown <= cs.len(),
            k <= shown,
            target == cs.take(shown as int).map_values(|c: WaitCounter| counter_text(c)),
            views(rows@) == seq![head@] + target.take(k as int),
        decreases shown - k,
    {
        let line = counter_line(&w.counters[k]);
        let ghost before = rows@;
        rows.push(line);
        proof {
            lemma_views_push(before, line);
        }
        k = k + 1;
        assert(views(rows@) =~= seq![head@] + target.take(k as int));
    }
    assert(target.take(shown as int) =~= target);
    let mut s = owned("[pytorch wait counters]\n");
    s.append(join(&rows, "\n").as_str());
    s
}

fn format_tcpstore(snapshot: &RuntimeDebugResponse) -> (r: String)
    ensures
        r@ == tcpstore_text(*snapshot),
{
    let t = &snapshot.tcpstore;
    if !t.available {
        proof {
            reveal_strlit("pytorch TCPStore");
        }
        return unavailable("pytorch TCPStore", error_text(&t.error).as_str());
    }
    proof {
        reveal_strlit(" keys · ");
        reveal_strlit(" identified · catalog=");
        reveal_strlit(" · values=");
        reveal_strlit("=");
        reveal_strlit(" · category=");
        reveal_strlit(" · ");
        reveal_strlit(" bytes · redacted=");
        reveal_strlit("[pytorch TCPStore]\n");
        reveal_strlit("\n");
    }
    let mut head = u64_text(t.total_keys);
    head.append(" keys · ");
    head.append(u64_text(t.identified_keys).as_str());
    head.append(" identified · catalog=");
    head.append(t.catalog_mode.as_str());
    head.append(" · values=");
    head.append(bool_str(t.values_enabled));
    let ghost facts = t.facts@.map_values(|f: TcpStoreFact| fact_text(f));
    let mut rows: Vec<String> = Vec::new();
    rows.push(head);
    assert(views(rows@) =~= seq![head@]);
    let mut i: usize = 0;
    while i < t.facts.len()
        invariant
            i <= t.facts@.len(),
            facts == t.facts@.map_values(|f: TcpStoreFact| fact_text(f)),
            views(rows@) == seq![head@] + facts.take(i as int),
        decreases t.facts@.len() - i,
    {
        let f = &t.facts[i];
        let mut line = f.label.clone();
        line.append("=");
        line.append(f.value.as_str());
        let ghost before = rows@;
        rows.push(line);
        proof {
            lemma_views_push(before, line);
        }
        i = i + 1;
        assert(views(rows@) =~= seq![head@] + facts.take(i as int));
    }
    assert(facts.take(t.facts@.len() as int) =~= facts);
    let shown: usize = if t.entries.len() < 12 {
        t.entries.len()
    } else {
        12
    };
    let ghost es = t.entries@.take(shown as int).map_values(
        |e: TcpStoreEntry| store_entry_text(e),
    );
    let mut k: usize = 0;
    while k < shown
        invariant
            shown <= t.entries@.len(),
            k <= shown,
            es == t.entries@.take(shown as int).map_values(|e: TcpStoreEntry| store_entry_text(e)),
            views(rows@) == seq![head@] + facts + es.take(k as int),
        decreases shown - k,
    {
        let e = &t.entries[k];
        let mut line = e.key.clone();
        line.append(" · category=");
        line.append(e.category.as_str());
        line.append(" · ");
        line.append(u64_text(e.value_size).as_str());
        line.append(" bytes · redacted=");
        line.append(bool_str(e.redacted));
        let ghost before = rows@;
        rows.push(line);
        proof {
            lemma_views_push(before, line);
        }
        k = k + 1;
        assert(views(rows@) =~= seq![head@] + facts + es.take(k as int));
    }
    assert(es.take(shown as int) =~= es);
    let mut s = owned("[pytorch TCPStore]\n");
    s.append(join(&rows, "\n").as_str());
    s
}

/// The PyTorch wait counters and the rendezvous store, each either reported
/// (at most twelve counters and twelve keys) or explained as unavailable,
/// independently of the other.
pub fn format_runtime_debug(snapshot: &RuntimeDebugResponse) -> (r: String)
    requires
        calls_fit(snapshot.wait_counters.counters@),
    ensures
        r@ == runtime_text(*snapshot),
{
    let wait = format_wait_counters(snapshot);
    let store = format_tcpstore(snapshot);
    proof {
        reveal_strlit("\n\n");
    }
    let mut s = wait;
    s.append("\n\n");
    s.append(store.as_str());
    s
}

// ---------------------------------------------------------------------------
// Cluster registry and step timing

pub open spec fn node_line_text(n: Node) -> Seq<char> {
    "rank "@ + match n.rank {
        Some(r) => int_text(r as int),
        None => "—"@,
    } + " · "@ + n.host@ + " · "@ + n.addr@ + " · "@ + match n.status {
        Some(st) => st@,
        None => "status not reported"@,
    }
}

/// The registry: how many nodes, the first twelve, and how many were left out.
pub open spec fn nodes_text(ns: Seq<Node>) -> Seq<char> {
    "[cluster.nodes]\n"@ + join_seq(
        seq![nat_text(ns.len()) + " registered node(s)"@] + ns.take(
            min_nat(ns.len(), 12) as int,
        ).map_values(|n: Node| node_line_text(n)) + if ns.len() > 12 {
            seq!["… +"@ + nat_text((ns.len() - 12) as nat) + " nodes"@]
        } else {
            seq![]
        },
        "\n"@,
    )
}

fn node_line(n: &Node) -> (r: String)
    ensures
        r@ == node_line_text(*n),
{
    proof {
        reveal_strlit("rank ");
        reveal_strlit("—");
        reveal_strlit(" · ");
        reveal_strlit("status not reported");
    }
    let mut s = owned("rank ");
    match n.rank {
        Some(r) => s.append(i32_text(r).as_str()),
        None => s.append("—"),
    }
    s.append(" · ");
    s.append(n.host.as_str());
    s.append(" · ");
    s.append(n.addr.as_str());
    s.append(" · ");
    match &n.status {
        Some(st) => s.append(st.as_str()),
        None => s.append("status not reported"),
    }
    s
}

/// The registered nodes, at most twelve of them listed.
pub fn format_nodes(nodes: &Vec<Node>) -> (r: String)
    ensures
        r@ == nodes_text(nodes@),
{
    proof {
        reveal_strlit(" registered node(s)");
        reveal_strlit("… +");
        reveal_strlit(" nodes");
        reveal_strlit("[cluster.nodes]\n");
        reveal_strlit("\n");
    }
    let ghost ns = nodes@;
    let mut head = usize_text(nodes.len());
    head.append(" registered node(s)");
    let mut lines: Vec<String> = Vec::new();
    lines.push(head);
    assert(views(lines@) =~= seq![head@]);
    let shown: usize = if nodes.len() < 12 {
        nodes.len()
    } else {
        12
    };
    let ghost target = ns.take(shown as int).map_values(|n: Node| node_line_text(n));
    let mut k: usize = 0;
    while k < shown
        invariant
            ns == nodes@,
            shown <= ns.len(),
            k <= shown,
            target == ns.take(shown as int).map_values(|n: Node| node_line_text(n)),
            views(lines@) == seq![head@] + target.take(k as int),
        decreases shown - k,
    {
        let line = node_line(&nodes[k]);
        let ghost before = lines@;
        lines.push(line);
        proof {
            lemma_views_push(before, line);
        }
        k = k + 1;
        assert(views(lines@) =~= seq![head@] + target.take(k as int));
    }
    assert(target.take(shown as int) =~= target);
    if nodes.len() > 12 {
        let mut more = owned("… +");
        more.append(usize_text(nodes.len() - 12).as_str());
        more.append(" nodes");
        let ghost before = lines@;
        lines.push(more);
        proof {
            lemma_views_push(before, more);
        }
    }
    assert(views(lines@) =~= seq![head@] + target + if ns.len() > 12 {
        seq!["… +"@ + nat_text((ns.len() - 12) as nat) + " nodes"@]
    } else {
        seq![]
    });
    let mut s = owned("[cluster.nodes]\n");
    s.append(join(&lines, "\n").as_str());
    s
}

/// The sample belongs to the pinned rank, or no rank is pinned.
pub open spec fn rank_selected(pin: Option<i32>, s: StepDurationSample) -> bool {
    match pin {
        Some(r) => r == s.rank,
        None => true,
    }
}

/// The newest `n` samples of the selected rank, newest first.
pub open spec fn recent_samples(
    ss: Seq<StepDurationSample>,
    pin: Option<i32>,
    n: nat,
) -> Seq<StepDurationSample>
    decreases ss.len(),
{
    if ss.len() == 0 || n == 0 {
        seq![]
    } else if rank_selected(pin, ss.last()) {
        seq![ss.last()] + recent_samples(ss.drop_last(), pin, (n - 1) as nat)
    } else {
        recent_samples(ss.drop_last(), pin, n)
    }
}

pub open spec fn sample_line_text(s: StepDurationSample) -> Seq<char> {
    "rank "@ + int_text(s.rank as int) + " · step "@ + int_text(s.coord_step as int) + " · "@
        + fixed_text(s.duration_ms as int, 3) + "ms · "@ + s.host@
}

/// The step matrix: its coverage and fan-out, then the twelve newest samples
/// of the pinned rank (of every rank when none is pinned).
pub open spec fn step_matrix_text(m: StepMatrixResponse, pin: Option<i32>) -> Seq<char> {
    "[train.step · "@ + nat_text(m.rank_count as nat) + " ranks · "@ + nat_text(
        m.step_count as nat,
    ) + " steps · "@ + nat_text(m.nodes_queried as nat) + " peers · "@ + nat_text(
        m.nodes_failed@.len(),
    ) + " failed · partial="@ + bool_text(m.partial) + "]\n"@ + lines_or_note(
        recent_samples(m.samples@, pin, 12).map_values(
            |s: StepDurationSample| sample_line_text(s),
        ),
    )
}

fn sample_line(s: &StepDurationSample) -> (r: String)
    ensures
        r@ == sample_line_text(*s),
{
    proof {
        reveal_strlit("rank ");
        reveal_strlit(" · step ");
        reveal_strlit(" · ");
        reveal_strlit("ms · ");
    }
    let mut t = owned("rank ");
    t.append(i32_text(s.rank).as_str());
    t.append(" · step ");
    t.append(i64_text(s.coord_step).as_str());
    t.append(" · ");
    t.append(fixed_text_exec(s.duration_ms, 3).as_str());
    t.append("ms · ");
    t.append(s.host.as_str());
    t
}

proof fn lemma_recent_len(ss: Seq<StepDurationSample>, pin: Option<i32>, n: nat)
    ensures
        recent_samples(ss, pin, n).len() <= n,
    decreases ss.len(),
{
    if ss.len() > 0 && n > 0 {
        if rank_selected(pin, ss.last()) {
            lemma_recent_len(ss.drop_last(), pin, (n - 1) as nat);
        } else {
            lemma_recent_len(ss.drop_last(), pin, n);
        }
    }
}

/// The step timing evidence of a request: the pinned rank's twelve newest
/// samples, other ranks left out rather than shown in its place.
pub fn format_step_matrix(matrix: &StepMatrixResponse, request: &EvidenceRequest) -> (r: String)
    ensures
        r@ == step_matrix_text(*matrix, request.context.rank),
{
    let pin = request.context.rank;
    let ghost ss = matrix.samples@;
    let ghost all = recent_samples(ss, pin, 12);
    let mut rows: Vec<String> = Vec::new();
    let ghost mut picked: Seq<StepDurationSample> = seq![];
    let mut i: usize = matrix.samples.len();
    let mut left: usize = 12;
    assert(ss.take(i as int) =~= ss);
    assert(picked + recent_samples(ss.take(i as int), pin, left as nat) =~= all);
    while i > 0 && left > 0
        invariant
            ss == matrix.samples@,
            i <= ss.len(),
            left <= 12,
            picked.len() + left == 12,
            all == recent_samples(ss, pin, 12),
            all == picked + recent_samples(ss.take(i as int), pin, left as nat),
            views(rows@) == picked.map_values(|s: StepDurationSample| sample_line_text(s)),
        decreases i,
    {
        let s = &matrix.samples[i - 1];
        let selected = match pin {
            Some(r) => r == s.rank,
            None => true,
        };
        assert(ss.take(i as int).last() == ss[i - 1]);
        assert(ss.take(i as int).drop_last() == ss.take(i - 1));
        if selected {
            let line = sample_line(s);
            let ghost before = rows@;
            rows.push(line);
            proof {
                lemma_views_push(before, line);
                picked = picked.push(*s);
                assert(views(rows@) =~= picked.map_values(
                    |s: StepDurationSample| sample_line_text(s),
                ));
            }
            left = left - 1;
        }
        i = i - 1;
    }
    proof {
        assert(recent_samples(ss.take(i as int), pin, left as nat) =~= seq![]);
        assert(all =~= picked);
    }
    proof {
        reveal_strlit("[train.step · ");
        reveal_strlit(" ranks · ");
        reveal_strlit(" steps · ");
        reveal_strlit(" peers · ");
        reveal_strlit(" failed · partial=");
        reveal_strlit("]\n");
    }
    let mut t = owned("[train.step · ");
    t.append(usize_text(matrix.rank_count).as_str());
    t.append(" ranks · ");
    t.append(usize_text(matrix.step_count).as_str());
    t.append(" steps · ");
    t.append(usize_text(matrix.nodes_queried).as_str());
    t.append(" peers · ");
    t.append(usize_text(matrix.nodes_failed.len()).as_str());
    t.append(" failed · partial=");
    t.append(bool_str(matrix.partial));
    t.append("]\n");
    t.append(empty_if_needed(rows).as_str());
    t
}

// ---------------------------------------------------------------------------
// Which sources a route's snapshot reads

/// The page settings that widen a snapshot's scope.
#[derive(Clone, Copy, Debug, Default, PartialEq, Eq)]
pub struct SnapshotSettings {
    /// The training page shows cluster-wide evidence.
    pub training_cluster_scope: bool,
    /// The memory page shows cluster-wide evidence.
    pub memory_cluster_scope: bool,
    /// The window of the memory page, in minutes.
    pub memory_window_minutes: u32,
}

/// The scope of a route's snapshot: cluster fan-out for the cluster routes,
/// and for the training and memory pages when their settings ask for it;
/// the local process otherwise.
pub open spec fn route_scope(r: NextRoute, s: SnapshotSettings) -> EvidenceScope {
    if cluster_route(r) {
        EvidenceScope::ClusterFanout
    } else if r is Training && s.training_cluster_scope {
        EvidenceScope::ClusterFanout
    } else if r is Memory && s.memory_cluster_scope {
        EvidenceScope::ClusterFanout
    } else {
        EvidenceScope::LocalProcess
    }
}

/// The time window of a route's snapshot, in microseconds: the memory page's
/// window; none for other routes.
pub open spec fn route_window(r: NextRoute, s: SnapshotSettings) -> Option<u64> {
    if r is Memory {
        Some((s.memory_window_minutes * 60_000_000) as u64)
    } else {
        None
    }
}

/// The evidence request of one snapshot refresh of a route.
pub fn request_for_route(
    route: &NextRoute,
    refresh_epoch: u64,
    settings: &SnapshotSettings,
    context: InvestigationContext,
) -> (r: EvidenceRequest)
    ensures
        r.refresh_epoch == refresh_epoch,
        r.scope == route_scope(*route, *settings),
        r.window_us == route_window(*route, *settings),
        r.context == context,
{
    let scope = if route.uses_cluster_scope() {
        EvidenceScope::ClusterFanout
    } else if matches!(route, NextRoute::Training {}) && settings.training_cluster_scope {
        EvidenceScope::ClusterFanout
    } else if matches!(route, NextRoute::Memory {}) && settings.memory_cluster_scope {
        EvidenceScope::ClusterFanout
    } else {
        EvidenceScope::LocalProcess
    };
    let window_us = if matches!(route, NextRoute::Memory {}) {
        Some((settings.memory_window_minutes as u64) * 60_000_000)
    } else {
        None
    };
    EvidenceRequest::new(refresh_epoch, scope, window_us, context)
}

/// One source that a snapshot reads.
#[derive(Clone, Debug, PartialEq, Eq)]
pub enum SnapshotSource {
    /// The newest step durations, `limit` steps, cluster-wide or local.
    StepMatrix { limit: usize, cluster: bool },
    /// The latest sample of each local GPU.
    GpuLatest,
    /// The identity of the local process.
    ProcessOverview,
    /// The latest CPU sample of the local process.
    CpuLatest,
    /// The `limit` busiest threads of the local process.
    CpuTopThreads { limit: usize },
    /// The cluster registry.
    Nodes,
    /// A SQL query, run across the cluster when the request's scope is the
    /// cluster fan-out and locally otherwise, previewed to `max_rows` rows.
    Query { source: &'static str, sql: String, max_rows: usize },
    /// The PyTorch runtime state.
    RuntimeDebug,
    /// The mixed Python/native call stack of a thread, or of the main thread.
    Callstack { tid: Option<String> },
    /// The profiler settings.
    ProfilerConfig,
    /// The route has no live source of its own.
    NoLiveSource,
}

pub open spec fn training_collectives_sql() -> &'static str {
    "SELECT rank, op, group_size, round(avg(duration_ms), 3) AS avg_ms, round(max(duration_ms), 3) AS max_ms FROM python.comm_collective GROUP BY rank, op, group_size ORDER BY max_ms DESC LIMIT 12"
}

pub open spec fn cluster_collectives_sql() -> &'static str {
    "SELECT rank, op, count(*) AS calls, round(avg(duration_ms), 3) AS avg_ms, round(max(duration_ms), 3) AS max_ms FROM python.comm_collective GROUP BY rank, op ORDER BY max_ms DESC LIMIT 12"
}

pub open spec fn allocator_sql() -> &'static str {
    "SELECT rank, local_step, allocated, max_allocated, cached FROM python.torch_trace WHERE rank >= 0 AND allocated >= 0 AND stage LIKE 'post %' ORDER BY local_step DESC, seq DESC LIMIT 8"
}

/// The memory query: the device samples of the window that ends at the newest
/// sample (five minutes by default), of the pinned device if one is pinned.
pub open spec fn memory_sql_text(window_us: Option<u64>, device: Option<i32>) -> Seq<char> {
    let window: u64 = match window_us {
        Some(w) => w,
        None => 300_000_000,
    };
    "SELECT device_id, used_bytes, total_bytes, round(used_bytes * 100.0 / NULLIF(total_bytes, 0), 1) AS used_pct, ts FROM gpu.utilization WHERE ts >= GREATEST(COALESCE((SELECT MAX(ts) FROM gpu.utilization), 0) - "@
        + nat_text(window as nat) + ", 0)"@ + match device {
        Some(d) => " AND device_id = "@ + int_text(d as int),
        None => seq![],
    } + " ORDER BY ts DESC LIMIT 16"@
}

/// A text as the body of a single-quoted SQL literal: each quote doubled.
pub open spec fn sql_escaped(s: Seq<char>) -> Seq<char>
    decreases s.len(),
{
    if s.len() == 0 {
        seq![]
    } else {
        sql_escaped(s.drop_last()) + if s.last() == '\'' {
            seq!['\'', '\'']
        } else {
            seq![s.last()]
        }
    }
}

/// The conditions of the span query: the pinned thread, trace and span name.
pub open spec fn span_filters(c: InvestigationContext) -> Seq<Seq<char>> {
    (match c.tid {
        Some(t) => seq!["thread_id = "@ + int_text(t as int)],
        None => seq![],
    }) + (match c.trace_id {
        Some(t) => seq!["trace_id = "@ + int_text(t as int)],
        None => seq![],
    }) + (match c.span_name {
        Some(n) => seq!["name = '"@ + sql_escaped(n@) + "'"@],
        None => seq![],
    })
}

/// The span query: event counts per record type, name, thread and trace,
/// restricted to the pinned coordinates.
pub open spec fn spans_sql_text(c: InvestigationContext) -> Seq<char> {
    let filters = span_filters(c);
    "SELECT record_type, name, thread_id, trace_id, count(*) AS events FROM python.trace_event"@
        + if filters.len() == 0 {
        seq![]
    } else {
        " WHERE "@ + join_seq(filters, " AND "@)
    } + " GROUP BY record_type, name, thread_id, trace_id ORDER BY events DESC LIMIT 16"@
}

/// The view of a source, with its query text as a sequence of characters.
pub enum SourceView {
    StepMatrix { limit: nat, cluster: bool },
    GpuLatest,
    ProcessOverview,
    CpuLatest,
    CpuTopThreads { limit: nat },
    Nodes,
    Query { source: Seq<char>, sql: Seq<char>, max_rows: nat },
    RuntimeDebug,
    Callstack { tid: Option<Seq<char>> },
    ProfilerConfig,
    NoLiveSource,
}

impl View for SnapshotSource {
    type V = SourceView;

    open spec fn view(&self) -> SourceView {
        match *self {
            SnapshotSource::StepMatrix { limit, cluster } => SourceView::StepMatrix {
                limit: limit as nat,
                cluster,
            },
            SnapshotSource::GpuLatest => SourceView::GpuLatest,
            SnapshotSource::ProcessOverview => SourceView::ProcessOverview,
            SnapshotSource::CpuLatest => SourceView::CpuLatest,
            SnapshotSource::CpuTopThreads { limit } => SourceView::CpuTopThreads {
                limit: limit as nat,
            },
            SnapshotSource::Nodes => SourceView::Nodes,
            SnapshotSource::Query { source, sql, max_rows } => SourceView::Query {
                source: source@,
                sql: sql@,
                max_rows: max_rows as nat,
            },
            SnapshotSource::RuntimeDebug => SourceView::RuntimeDebug,
            SnapshotSource::Callstack { tid } => SourceView::Callstack {
                tid: match tid {
                    Some(t) => Some(t@),
                    None => None,
                },
            },
            SnapshotSource::ProfilerConfig => SourceView::ProfilerConfig,
            SnapshotSource::NoLiveSource => SourceView::NoLiveSource,
        }
    }
}

/// The sources of a route's snapshot, in the order they are rendered.
pub open spec fn plan_of(r: NextRoute, q: EvidenceRequest) -> Seq<SourceView> {
    let cluster = q.scope == EvidenceScope::ClusterFanout;
    match r {
        NextRoute::Dashboard {} => seq![
            SourceView::StepMatrix { limit: 40, cluster },
            SourceView::GpuLatest,
        ],
        NextRoute::System {} => seq![
            SourceView::ProcessOverview,
            SourceView::CpuLatest,
            SourceView::GpuLatest,
            SourceView::CpuTopThreads { limit: 16 },
        ],
        NextRoute::Training {} => seq![
            SourceView::StepMatrix { limit: 120, cluster },
            SourceView::Nodes,
            SourceView::Query {
                source: "python.comm_collective"@,
                sql: training_collectives_sql()@,
                max_rows: 12,
            },
        ],
        NextRoute::Memory {} => seq![
            SourceView::Query {
                source: "gpu.utilization"@,
                sql: memory_sql_text(q.window_us, q.context.device_id),
                max_rows: 16,
            },
            SourceView::Query {
                source: "python.torch_trace allocator"@,
                sql: allocator_sql()@,
                max_rows: 8,
            },
        ],
        NextRoute::Distributed {} | NextRoute::Cluster {} => seq![
            SourceView::Nodes,
            SourceView::Query {
                source: "python.comm_collective"@,
                sql: cluster_collectives_sql()@,
                max_rows: 12,
            },
        ],
        NextRoute::DistributedStatus {} => seq![SourceView::RuntimeDebug],
        NextRoute::StackThread { tid } => seq![SourceView::Callstack { tid: Some(tid@) }],
        NextRoute::Stack {} => seq![
            SourceView::Callstack {
                tid: match q.context.tid {
                    Some(t) => Some(int_text(t as int)),
                    None => None,
                },
            },
        ],
        NextRoute::Spans {} | NextRoute::TracesLegacy {} | NextRoute::RlSpans {} => seq![
            SourceView::Query {
                source: "python.trace_event"@,
                sql: spans_sql_text(q.context),
                max_rows: 16,
            },
        ],
        NextRoute::Profiles {}
        | NextRoute::ProfilingLegacy {}
        | NextRoute::ProfileView { .. }
        | NextRoute::ChromeTrace {} => seq![SourceView::ProfilerConfig],
        NextRoute::DistributedStack {} | NextRoute::DistributedPythonStack {} => seq![
            SourceView::Nodes,
        ],
        _ => seq![SourceView::NoLiveSource],
    }
}

/// The memory query of a request.
pub fn memory_sql(window_us: Option<u64>, device: Option<i32>) -> (r: String)
    ensures
        r@ == memory_sql_text(window_us, device),
{
    let window: u64 = match window_us {
        Some(w) => w,
        None => 300_000_000,
    };
    proof {
        reveal_strlit("SELECT device_id, used_bytes, total_bytes, round(used_bytes * 100.0 / NULLIF(total_bytes, 0), 1) AS used_pct, ts FROM gpu.utilization WHERE ts >= GREATEST(COALESCE((SELECT MAX(ts) FROM gpu.utilization), 0) - ");
        reveal_strlit(", 0)");
        reveal_strlit(" AND device_id = ");
        reveal_strlit(" ORDER BY ts DESC LIMIT 16");
    }
    let mut s = owned("SELECT device_id, used_bytes, total_bytes, round(used_bytes * 100.0 / NULLIF(total_bytes, 0), 1) AS used_pct, ts FROM gpu.utilization WHERE ts >= GREATEST(COALESCE((SELECT MAX(ts) FROM gpu.utilization), 0) - ");
    s.append(u64_text(window).as_str());
    s.append(", 0)");
    match device {
        Some(d) => {
            s.append(" AND device_id = ");
            s.append(i32_text(d).as_str());
        },
        None => {},
    }
    s.append(" ORDER BY ts DESC LIMIT 16");
    s
}

/// A text with each single quote doubled.
pub fn escape_sql_literal(text: &str) -> (r: String)
    ensures
        r@ == sql_escaped(text@),
{
    let mut r = String::new();
    for c in iter: text.chars()
        invariant
            iter.seq() == text@,
            r@ == sql_escaped(text@.take(iter.index() as int)),
    {
        assert(text@.take(iter.index() + 1).drop_last() == text@.take(iter.index() as int));
        if c == '\'' {
            push_char(&mut r, '\'');
            push_char(&mut r, '\'');
        } else {
            push_char(&mut r, c);
        }
    }
    assert(text@.take(text@.len() as int) == text@);
    r
}

/// The span query of a set of pinned coordinates.
pub fn spans_sql(context: &InvestigationContext) -> (r: String)
    ensures
        r@ == spans_sql_text(*context),
{
    proof {
        reveal_strlit("thread_id = ");
        reveal_strlit("trace_id = ");
        reveal_strlit("name = '");
        reveal_strlit("'");
        reveal_strlit("SELECT record_type, name, thread_id, trace_id, count(*) AS events FROM python.trace_event");
        reveal_strlit(" WHERE ");
        reveal_strlit(" AND ");
        reveal_strlit(" GROUP BY record_type, name, thread_id, trace_id ORDER BY events DESC LIMIT 16");
    }
    let mut filters: Vec<String> = Vec::new();
    if let Some(tid) = context.tid {
        let mut f = owned("thread_id = ");
        f.append(i32_text(tid).as_str());
        filters.push(f);
    }
    let ghost f1 = views(filters@);
    assert(f1 =~= match context.tid {
        Some(t) => seq!["thread_id = "@ + int_text(t as int)],
        None => seq![],
    });
    if let Some(trace_id) = context.trace_id {
        let mut f = owned("trace_id = ");
        f.append(i64_text(trace_id).as_str());
        let ghost before = filters@;
        filters.push(f);
        proof {
            lemma_views_push(before, f);
        }
    }
    let ghost f2 = views(filters@);
    assert(f2 =~= f1 + match context.trace_id {
        Some(t) => seq!["trace_id = "@ + int_text(t as int)],
        None => seq![],
    });
    if let Some(name) = &context.span_name {
        let mut f = owned("name = '");
        f.append(escape_sql_literal(name.as_str()).as_str());
        f.append("'");
        let ghost before = filters@;
        filters.push(f);
        proof {
            lemma_views_push(before, f);
        }
    }
    assert(views(filters@) =~= span_filters(*context));
    let mut s = owned("SELECT record_type, name, thread_id, trace_id, count(*) AS events FROM python.trace_event");
    if filters.len() > 0 {
        s.append(" WHERE ");
        s.append(join(&filters, " AND ").as_str());
    }
    s.append(" GROUP BY record_type, name, thread_id, trace_id ORDER BY events DESC LIMIT 16");
    s
}

fn push_source(plan: &mut Vec<SnapshotSource>, source: SnapshotSource)
    ensures
        final(plan)@.map_values(|s: SnapshotSource| s@) == old(plan)@.map_values(
            |s: SnapshotSource| s@,
        ).push(source@),
{
    plan.push(source);
    assert(plan@.map_values(|s: SnapshotSource| s@) =~= old(plan)@.map_values(
        |s: SnapshotSource| s@,
    ).push(source@));
}

/// The sources that a route's snapshot reads, in order.
pub fn snapshot_plan(route: &NextRoute, request: &EvidenceRequest) -> (r: Vec<SnapshotSource>)
    ensures
        r@.map_values(|s: SnapshotSource| s@) == plan_of(*route, *request),
{
    proof {
        reveal_strlit("python.comm_collective");
        reveal_strlit("gpu.utilization");
        reveal_strlit("python.torch_trace allocator");
        reveal_strlit("python.trace_event");
    }
    let cluster = request.scope == EvidenceScope::ClusterFanout;
    let mut plan: Vec<SnapshotSource> = Vec::new();
    assert(plan@.map_values(|s: SnapshotSource| s@) =~= Seq::<SourceView>::empty());
    match route {
        NextRoute::Dashboard {} => {
            push_source(&mut plan, SnapshotSource::StepMatrix { limit: 40, cluster });
            push_source(&mut plan, SnapshotSource::GpuLatest);
        },
        NextRoute::System {} => {
            push_source(&mut plan, SnapshotSource::ProcessOverview);
            push_source(&mut plan, SnapshotSource::CpuLatest);
            push_source(&mut plan, SnapshotSource::GpuLatest);
            push_source(&mut plan, SnapshotSource::CpuTopThreads { limit: 16 });
        },
        NextRoute::Training {} => {
            push_source(&mut plan, SnapshotSource::StepMatrix { limit: 120, cluster });
            push_source(&mut plan, SnapshotSource::Nodes);
            push_source(
                &mut plan,
                SnapshotSource::Query {
                    source: "python.comm_collective",
                    sql: owned(
                        "SELECT rank, op, group_size, round(avg(duration_ms), 3) AS avg_ms, round(max(duration_ms), 3) AS max_ms FROM python.comm_collective GROUP BY rank, op, group_size ORDER BY max_ms DESC LIMIT 12",
                    ),
                    max_rows: 12,
                },
            );
        },
        NextRoute::Memory {} => {
            push_source(
                &mut plan,
                SnapshotSource::Query {
                    source: "gpu.utilization",
                    sql: memory_sql(request.window_us, request.context.device_id),
                    max_rows: 16,
                },
            );
            push_source(
                &mut plan,
                SnapshotSource::Query {
                    source: "python.torch_trace allocator",
                    sql: owned(
                        "SELECT rank, local_step, allocated, max_allocated, cached FROM python.torch_trace WHERE rank >= 0 AND allocated >= 0 AND stage LIKE 'post %' ORDER BY local_step DESC, seq DESC LIMIT 8",
                    ),
                    max_rows: 8,
                },
            );
        },
        NextRoute::Distributed {} | NextRoute::Cluster {} => {
            push_source(&mut plan, SnapshotSource::Nodes);
            push_source(
                &mut plan,
                SnapshotSource::Query {
                    source: "python.comm_collective",
                    sql: owned(
                        "SELECT rank, op, count(*) AS calls, round(avg(duration_ms), 3) AS avg_ms, round(max(duration_ms), 3) AS max_ms FROM python.comm_collective GROUP BY rank, op ORDER BY max_ms DESC LIMIT 12",
                    ),
                    max_rows: 12,
                },
            );
        },
        NextRoute::DistributedStatus {} => {
            push_source(&mut plan, SnapshotSource::RuntimeDebug);
        },
        NextRoute::StackThread { tid } => {
            push_source(&mut plan, SnapshotSource::Callstack { tid: Some(tid.clone()) });
        },
        NextRoute::Stack {} => {
            let tid = match request.context.tid {
                Some(t) => Some(i32_text(t)),
                None => None,
            };
            push_source(&mut plan, SnapshotSource::Callstack { tid });
        },
        NextRoute::Spans {} | NextRoute::TracesLegacy {} | NextRoute::RlSpans {} => {
            push_source(
                &mut plan,
                SnapshotSource::Query {
                    source: "python.trace_event",
                    sql: spans_sql(&request.context),
                    max_rows: 16,
                },
            );
        },
        NextRoute::Profiles {}
        | NextRoute::ProfilingLegacy {}
        | NextRoute::ProfileView { .. }
        | NextRoute::ChromeTrace {} => {
            push_source(&mut plan, SnapshotSource::ProfilerConfig);
        },
        NextRoute::DistributedStack {} | NextRoute::DistributedPythonStack {} => {
            push_source(&mut plan, SnapshotSource::Nodes);
        },
        _ => {
            push_source(&mut plan, SnapshotSource::NoLiveSource);
        },
    }
    plan
}

// ---------------------------------------------------------------------------
// How each reply reads

/// What a source answered, or why it could not be read.
#[derive(Clone, Debug, PartialEq, Eq)]
pub enum SourceReply {
    StepMatrix(StepMatrixResponse),
    Gpu(Vec<GpuSnapshot>),
    Process(Process),
    /// The latest CPU sample, if the process has one.
    Cpu(Option<CpuSnapshot>),
    Threads(Vec<CpuThreadRow>),
    Nodes(Vec<Node>),
    /// A query answered across the cluster.
    ClusterFrame(ClusterQueryMeta, DataFrame),
    /// A query answered by the local process.
    Frame(DataFrame),
    RuntimeDebug(RuntimeDebugResponse),
    /// The frames of a call stack, each as text.
    Callstack(Vec<String>),
    /// The profiler settings as key/value pairs.
    ProfilerConfig(Vec<(String, String)>),
    /// The read failed with this message.
    Failed(String),
}

/// The name under which a source's failure is reported.
pub open spec fn source_name(s: SourceView) -> Seq<char> {
    match s {
        SourceView::StepMatrix { .. } => "train.step"@,
        SourceView::GpuLatest => "gpu.utilization"@,
        SourceView::ProcessOverview => "process overview"@,
        SourceView::CpuLatest => "cpu.utilization"@,
        SourceView::CpuTopThreads { .. } => "cpu.tasks"@,
        SourceView::Nodes => "cluster.nodes"@,
        SourceView::Query { source, .. } => source,
        SourceView::RuntimeDebug => "pytorch runtime debug"@,
        SourceView::Callstack { .. } => "callstack"@,
        SourceView::ProfilerConfig => "profiler config"@,
        SourceView::NoLiveSource => "page evidence"@,
    }
}

/// The reply is one that the source can give.
pub open spec fn reply_fits(s: SourceView, r: SourceReply) -> bool {
    match r {
        SourceReply::Failed(_) => true,
        SourceReply::StepMatrix(_) => s is StepMatrix,
        SourceReply::Gpu(_) => s is GpuLatest,
        SourceReply::Process(_) => s is ProcessOverview,
        SourceReply::Cpu(_) => s is CpuLatest,
        SourceReply::Threads(_) => s is CpuTopThreads,
        SourceReply::Nodes(_) => s is Nodes,
        SourceReply::ClusterFrame(_, _) => s is Query,
        SourceReply::Frame(_) => s is Query,
        SourceReply::RuntimeDebug(d) => s is RuntimeDebug && calls_fit(d.wait_counters.counters@),
        SourceReply::Callstack(_) => s is Callstack,
        SourceReply::ProfilerConfig(_) => s is ProfilerConfig,
    }
}

pub open spec fn pair_text(p: (String, String)) -> Seq<char> {
    p.0@ + "="@ + p.1@
}

pub open spec fn cluster_frame_text(
    source: Seq<char>,
    meta: ClusterQueryMeta,
    d: DataFrame,
    max_rows: nat,
) -> Seq<char> {
    "["@ + source + " · "@ + nat_text(meta.nodes_queried as nat) + " peers · "@ + nat_text(
        meta.nodes_failed@.len(),
    ) + " failed · partial="@ + bool_text(meta.partial) + "]\n"@ + preview_text(d, max_rows)
}

pub open spec fn local_frame_text(source: Seq<char>, d: DataFrame, max_rows: nat) -> Seq<char> {
    "["@ + source + "]\n"@ + preview_text(d, max_rows)
}

/// How one reply of one source reads in a snapshot.
pub open spec fn reply_text(s: SourceView, r: SourceReply, q: EvidenceRequest) -> Seq<char> {
    if s is NoLiveSource {
        "[page evidence]\nNo page-specific live source is registered."@
    } else {
        match r {
            SourceReply::Failed(message) => unavailable_text(source_name(s), message@),
            SourceReply::StepMatrix(m) => step_matrix_text(m, q.context.rank),
            SourceReply::Gpu(ds) => gpu_text(ds@, q.context.device_id),
            SourceReply::Process(p) => process_text(p),
            SourceReply::Cpu(Some(c)) => cpu_text(c),
            SourceReply::Cpu(None) => "[cpu.utilization]\n(no process-scope row)"@,
            SourceReply::Threads(ts) => threads_text(ts@),
            SourceReply::Nodes(ns) => nodes_text(ns@),
            SourceReply::ClusterFrame(meta, d) => cluster_frame_text(
                source_name(s),
                meta,
                d,
                s->max_rows,
            ),
            SourceReply::Frame(d) => local_frame_text(source_name(s), d, s->max_rows),
            SourceReply::RuntimeDebug(d) => runtime_text(d),
            SourceReply::Callstack(frames) => "[callstack]\n"@ + lines_or_note(
                views(frames@).take(min_nat(frames@.len(), 16) as int),
            ),
            SourceReply::ProfilerConfig(pairs) => "[profiler config]\n"@ + lines_or_note(
                pairs@.map_values(|p: (String, String)| pair_text(p)),
            ),
        }
    }
}

fn source_label(source: &SnapshotSource) -> (r: String)
    ensures
        r@ == source_name(source@),
{
    proof {
        reveal_strlit("train.step");
        reveal_strlit("gpu.utilization");
        reveal_strlit("process overview");
        reveal_strlit("cpu.utilization");
        reveal_strlit("cpu.tasks");
        reveal_strlit("cluster.nodes");
        reveal_strlit("pytorch runtime debug");
        reveal_strlit("callstack");
        reveal_strlit("profiler config");
        reveal_strlit("page evidence");
    }
    match source {
        SnapshotSource::StepMatrix { .. } => owned("train.step"),
        SnapshotSource::GpuLatest => owned("gpu.utilization"),
        SnapshotSource::ProcessOverview => owned("process overview"),
        SnapshotSource::CpuLatest => owned("cpu.utilization"),
        SnapshotSource::CpuTopThreads { .. } => owned("cpu.tasks"),
        SnapshotSource::Nodes => owned("cluster.nodes"),
        SnapshotSource::Query { source, .. } => owned(source),
        SnapshotSource::RuntimeDebug => owned("pytorch runtime debug"),
        SnapshotSource::Callstack { .. } => owned("callstack"),
        SnapshotSource::ProfilerConfig => owned("profiler config"),
        SnapshotSource::NoLiveSource => owned("page evidence"),
    }
}

/// A query answered across the cluster: the fan-out, then the preview.
pub fn cluster_query_preview(
    source: &str,
    meta: &ClusterQueryMeta,
    dataframe: &DataFrame,
    max_rows: usize,
) -> (r: String)
    ensures
        r@ == cluster_frame_text(source@, *meta, *dataframe, max_rows as nat),
{
    proof {
        reveal_strlit("[");
        reveal_strlit(" · ");
        reveal_strlit(" peers · ");
        reveal_strlit(" failed · partial=");
        reveal_strlit("]\n");
    }
    let mut s = owned("[");
    s.append(source);
    s.append(" · ");
    s.append(usize_text(meta.nodes_queried).as_str());
    s.append(" peers · ");
    s.append(usize_text(meta.nodes_failed.len()).as_str());
    s.append(" failed · partial=");
    s.append(bool_str(meta.partial));
    s.append("]\n");
    s.append(dataframe_preview(dataframe, max_rows).as_str());
    s
}

/// A query answered by the local process.
pub fn local_query_preview(source: &str, dataframe: &DataFrame, max_rows: usize) -> (r: String)
    ensures
        r@ == local_frame_text(source@, *dataframe, max_rows as nat),
{
    proof {
        reveal_strlit("[");
        reveal_strlit("]\n");
    }
    let mut s = owned("[");
    s.append(source);
    s.append("]\n");
    s.append(dataframe_preview(dataframe, max_rows).as_str());
    s
}

fn callstack_text(frames: &Vec<String>) -> (r: String)
    ensures
        r@ == "[callstack]\n"@ + lines_or_note(
            views(frames@).take(min_nat(frames@.len(), 16) as int),
        ),
{
    let shown: usize = if frames.len() < 16 {
        frames.len()
    } else {
        16
    };
    let ghost target = views(frames@).take(shown as int);
    let mut lines: Vec<String> = Vec::new();
    let mut k: usize = 0;
    while k < shown
        invariant
            shown <= frames@.len(),
            k <= shown,
            target == views(frames@).take(shown as int),
            views(lines@) == target.take(k as int),
        decreases shown - k,
    {
        let f = frames[k].clone();
        let ghost before = lines@;
        lines.push(f);
        proof {
            lemma_views_push(before, f);
        }
        k = k + 1;
        assert(views(lines@) =~= target.take(k as int));
    }
    assert(target.take(shown as int) =~= target);
    proof {
        reveal_strlit("[callstack]\n");
    }
    let mut s = owned("[callstack]\n");
    s.append(empty_if_needed(lines).as_str());
    s
}

fn profiler_config_text(pairs: &Vec<(String, String)>) -> (r: String)
    ensures
        r@ == "[profiler config]\n"@ + lines_or_note(
            pairs@.map_values(|p: (String, String)| pair_text(p)),
        ),
{
    proof {
        reveal_strlit("=");
        reveal_strlit("[profiler config]\n");
    }
    let ghost target = pairs@.map_values(|p: (String, String)| pair_text(p));
    let mut lines: Vec<String> = Vec::new();
    let mut k: usize = 0;
    while k < pairs.len()
        invariant
            k <= pairs@.len(),
            target == pairs@.map_values(|p: (String, String)| pair_text(p)),
            views(lines@) == target.take(k as int),
        decreases pairs@.len() - k,
    {
        let mut line = pairs[k].0.clone();
        line.append("=");
        line.append(pairs[k].1.as_str());
        let ghost before = lines@;
        lines.push(line);
        proof {
            lemma_views_push(before, line);
        }
        k = k + 1;
        assert(views(lines@) =~= target.take(k as int));
    }
    assert(target.take(pairs@.len() as int) =~= target);
    let mut s = owned("[profiler config]\n");
    s.append(empty_if_needed(lines).as_str());
    s
}

/// How one reply of one source of a request reads in the snapshot.
pub fn render_source(source: &SnapshotSource, reply: &SourceReply, request: &EvidenceRequest) -> (r:
    String)
    requires
        reply_fits(source@, *reply),
    ensures
        r@ == reply_text(source@, *reply, *request),
{
    if let SnapshotSource::NoLiveSource = source {
        proof {
            reveal_strlit("[page evidence]\nNo page-specific live source is registered.");
        }
        return owned("[page evidence]\nNo page-specific live source is registered.");
    }
    match reply {
        SourceReply::Failed(message) => {
            let name = source_label(source);
            unavailable(name.as_str(), message.as_str())
        },
        SourceReply::StepMatrix(m) => format_step_matrix(m, request),
        SourceReply::Gpu(ds) => format_gpu_devices(ds, request),
        SourceReply::Process(p) => format_system_process(p),
        SourceReply::Cpu(Some(c)) => format_cpu_snapshot(c),
        SourceReply::Cpu(None) => {
            proof {
                reveal_strlit("[cpu.utilization]\n(no process-scope row)");
            }
            owned("[cpu.utilization]\n(no process-scope row)")
        },
        SourceReply::Threads(ts) => format_cpu_threads(ts),
        SourceReply::Nodes(ns) => format_nodes(ns),
        SourceReply::ClusterFrame(meta, d) => {
            let name = source_label(source);
            match source {
                SnapshotSource::Query { max_rows, .. } => cluster_query_preview(
                    name.as_str(),
                    meta,
                    d,
                    *max_rows,
                ),
                _ => name,
            }
        },
        SourceReply::Frame(d) => {
            let name = source_label(source);
            match source {
                SnapshotSource::Query { max_rows, .. } => local_query_preview(
                    name.as_str(),
                    d,
                    *max_rows,
                ),
                _ => name,
            }
        },
        SourceReply::RuntimeDebug(d) => format_runtime_debug(d),
        SourceReply::Callstack(frames) => callstack_text(frames),
        SourceReply::ProfilerConfig(pairs) => profiler_config_text(pairs),
    }
}

/// The first block of a snapshot: page, refresh, scope and coordinates.
pub open spec fn snapshot_header_text(r: NextRoute, q: EvidenceRequest) -> Seq<char> {
    "[next evidence]\npage="@ + snapshot_id_of(r)@ + " · snapshot="@ + nat_text(
        q.refresh_epoch as nat,
    ) + " · scope="@ + scope_label(q.scope)@ + " · context="@ + summary_text(q.context)
}

/// A snapshot: the header, then each source's text, separated by blank lines.
pub open spec fn snapshot_text(r: NextRoute, q: EvidenceRequest, parts: Seq<Seq<char>>) -> Seq<
    char,
> {
    join_seq(seq![snapshot_header_text(r, q)] + parts, "\n\n"@)
}

/// The snapshot of a route from the texts of its sources.
pub fn assemble_snapshot(route: &NextRoute, request: &EvidenceRequest, parts: Vec<String>) -> (r:
    String)
    ensures
        r@ == snapshot_text(*route, *request, views(parts@)),
{
    proof {
        reveal_strlit("[next evidence]\npage=");
        reveal_strlit(" · snapshot=");
        reveal_strlit(" · scope=");
        reveal_strlit(" · context=");
        reveal_strlit("\n\n");
    }
    let mut header = owned("[next evidence]\npage=");
    header.append(route.snapshot_id());
    header.append(" · snapshot=");
    header.append(u64_text(request.refresh_epoch).as_str());
    header.append(" · scope=");
    header.append(request.scope.label());
    header.append(" · context=");
    header.append(request.context.coordinates_summary().as_str());
    let mut all: Vec<String> = Vec::new();
    all.push(header);
    assert(views(all@) =~= seq![header@]);
    let mut k: usize = 0;
    while k < parts.len()
        invariant
            k <= parts@.len(),
            views(all@) == seq![header@] + views(parts@).take(k as int),
        decreases parts@.len() - k,
    {
        let p = parts[k].clone();
        let ghost before = all@;
        all.push(p);
        proof {
            lemma_views_push(before, p);
        }
        k = k + 1;
        assert(views(all@) =~= seq![header@] + views(parts@).take(k as int));
    }
    assert(views(parts@).take(parts@.len() as int) =~= views(parts@));
    join(&all, "\n\n")
}

/// What the Investigate panel shows when a snapshot could not be taken.
pub open spec fn snapshot_failure_text(q: EvidenceRequest, message: Seq<char>) -> Seq<char> {
    "[next evidence]\nsnapshot="@ + nat_text(q.refresh_epoch as nat) + " · "@ + scope_label(
        q.scope,
    )@ + "\n(snapshot unavailable: "@ + message + ")"@
}

/// The text that replaces a snapshot whose collection failed.
pub fn snapshot_failure(request: &EvidenceRequest, message: &str) -> (r: String)
    ensures
        r@ == snapshot_failure_text(*request, message@),
{
    proof {
        reveal_strlit("[next evidence]\nsnapshot=");
        reveal_strlit(" · ");
        reveal_strlit("\n(snapshot unavailable: ");
        reveal_strlit(")");
    }
    let mut s = owned("[next evidence]\nsnapshot=");
    s.append(u64_text(request.refresh_epoch).as_str());
    s.append(" · ");
    s.append(request.scope.label());
    s.append("\n(snapshot unavailable: ");
    s.append(message);
    s.append(")");
    s
}

} // verus!
