//! The memory page: bounded queries over device and allocator telemetry, the
//! devices they report, the device that the pinned coordinates select, the
//! device map, totals and timeline, and the evidence the page publishes.

use vstd::prelude::*;

use crate::api::{ClusterQueryMeta, Node};
use crate::context::InvestigationContext;
use crate::evidence::{
    bundle_text, cell_at, frame_rows, BundleView, Cell, ContextMatch, DataFrame, EvidenceBundle, EvidencePayload,
    EvidenceReceipt, EvidenceRequest, context_match_of,
};
use crate::pages::{empty_bundle, entry_of, failure_of, frame_preview_of, push_dataframe_result, push_fetched, Fetched};
use crate::snapshot::{format_nodes, nodes_text};
use crate::text::{
    chars_equal, chars_of, decimal_i64, ends_with_chars, ends_with_seq, i32_text, int_text,
    join, join_seq, lemma_views_push, lower_chars, lower_seq, nat_text, owned, parse_i64,
    str_eq, text_less, text_lt, u64_text, usize_text, views, insert_sorted_text, sorted_texts,
};

verus! {

pub const ALLOCATOR_SQL: &'static str =
    "SELECT rank, local_step, round(allocated, 1) AS allocated_mb, round(max_allocated, 1) AS peak_allocated_mb, round(cached, 1) AS reserved_mb, round(CASE WHEN cached > 0 THEN allocated * 100.0 / cached ELSE 0 END, 1) AS allocated_of_reserved_pct FROM python.torch_trace WHERE rank >= 0 AND allocated >= 0 AND stage LIKE 'post %' ORDER BY local_step DESC, seq DESC LIMIT 1";

pub const ALLOCATION_EVIDENCE_SQL: &'static str =
    "SELECT rank, module, stage, count(*) AS samples, round(avg(allocated_delta), 1) AS avg_alloc_delta_mb, round(max(allocated_delta), 1) AS max_alloc_delta_mb, round(max(max_allocated_delta), 1) AS peak_growth_mb FROM python.torch_trace WHERE stage LIKE 'post %' AND allocated_delta > 0 AND module IS NOT NULL AND module != '' AND module != 'None' AND local_step >= GREATEST(COALESCE((SELECT max(local_step) FROM python.torch_trace), 0) - 9, 1) GROUP BY rank, module, stage ORDER BY peak_growth_mb DESC LIMIT 20";

pub const DEVICE_SUMMARY_HEAD: &'static str =
    "WITH samples AS ( SELECT CAST(COALESCE((SELECT value FROM process.envs WHERE name = 'RANK' LIMIT 1), '-1') AS INT) AS rank, CAST(COALESCE((SELECT value FROM process.envs WHERE name = 'LOCAL_RANK' LIMIT 1), '-1') AS INT) AS local_rank, device_id, used_bytes, total_bytes, ts, MAX(used_bytes) OVER (PARTITION BY device_id) AS peak_used_bytes, COUNT(*) OVER (PARTITION BY device_id) AS sample_count, ROW_NUMBER() OVER (PARTITION BY device_id ORDER BY ts DESC) AS recency FROM gpu.utilization WHERE ts >= GREATEST(COALESCE((SELECT MAX(ts) FROM gpu.utilization), 0) - ";

pub const DEVICE_SUMMARY_TAIL: &'static str =
    ", 0) ) SELECT rank, device_id, used_bytes AS current_used_bytes, peak_used_bytes, total_bytes, sample_count FROM samples WHERE recency = 1 AND (local_rank < 0 OR device_id = local_rank) ORDER BY rank, device_id LIMIT 16";

pub const DEVICE_HISTORY_HEAD: &'static str =
    "SELECT CAST(COALESCE((SELECT value FROM process.envs WHERE name = 'RANK' LIMIT 1), '-1') AS INT) AS rank, device_id, ts, used_bytes, total_bytes FROM gpu.utilization WHERE ts >= GREATEST(COALESCE((SELECT MAX(ts) FROM gpu.utilization), 0) - ";

pub const DEVICE_HISTORY_TAIL: &'static str =
    ", 0) AND (COALESCE((SELECT value FROM process.envs WHERE name = 'LOCAL_RANK' LIMIT 1), '-1') = '-1' OR device_id = CAST((SELECT value FROM process.envs WHERE name = 'LOCAL_RANK' LIMIT 1) AS INT)) ORDER BY ts ASC LIMIT 1920";

/// The latest sample of each device of the process in a window of
/// `window_us` microseconds before the newest sample, with its peak and
/// sample count; at most 16 devices.
pub fn device_summary_sql(window_us: u64) -> (r: String)
    ensures
        r@ == DEVICE_SUMMARY_HEAD@ + nat_text(window_us as nat) + DEVICE_SUMMARY_TAIL@,
{
    let mut s = owned(DEVICE_SUMMARY_HEAD);
    s.append(u64_text(window_us).as_str());
    s.append(DEVICE_SUMMARY_TAIL);
    s
}

/// The samples of the process's devices in the same window, oldest first,
/// at most 1920 of them.
pub fn device_history_sql(window_us: u64) -> (r: String)
    ensures
        r@ == DEVICE_HISTORY_HEAD@ + nat_text(window_us as nat) + DEVICE_HISTORY_TAIL@,
{
    let mut s = owned(DEVICE_HISTORY_HEAD);
    s.append(u64_text(window_us).as_str());
    s.append(DEVICE_HISTORY_TAIL);
    s
}

/// The latest memory reading of one device.
#[derive(Clone, Debug, PartialEq, Eq)]
pub struct DeviceMemory {
    pub rank: Option<i32>,
    pub device_id: i32,
    pub host: String,
    pub current_bytes: u64,
    pub peak_bytes: u64,
    pub total_bytes: u64,
    pub sample_count: usize,
}

/// One memory sample of a device.
#[derive(Clone, Debug, PartialEq, Eq)]
pub struct MemoryPoint {
    pub rank: Option<i32>,
    pub device_id: i32,
    pub ts: i64,
    pub used_bytes: u64,
    pub total_bytes: u64,
}

/// A rank, a host or a device is pinned.
pub open spec fn memory_pinned(c: InvestigationContext) -> bool {
    c.rank is Some || c.host is Some || c.device_id is Some
}

/// The device has every pinned coordinate.
pub open spec fn device_selected(d: DeviceMemory, c: InvestigationContext) -> bool {
    &&& (c.rank matches Some(r) ==> d.rank == Some(r))
    &&& (c.host matches Some(h) ==> d.host@ == h@)
    &&& (c.device_id matches Some(x) ==> d.device_id == x)
}

/// Whether the memory page follows pinned coordinates.
pub fn memory_context_requested(context: &InvestigationContext) -> (r: bool)
    ensures
        r == memory_pinned(*context),
{
    context.rank.is_some() || context.host.is_some() || context.device_id.is_some()
}

/// How the memory evidence relates to the pins: unpinned when none of its
/// coordinates is pinned, else as the request judges the match.
pub fn memory_context_match(
    request: &EvidenceRequest,
    context: &InvestigationContext,
    matched: bool,
) -> (r: ContextMatch)
    ensures
        r == (if !memory_pinned(*context) {
            ContextMatch::Unpinned
        } else {
            context_match_of(request.context, request.scope, matched)
        }),
{
    if !memory_context_requested(context) {
        ContextMatch::Unpinned
    } else {
        request.context_match(matched)
    }
}

fn copy_device(d: &DeviceMemory) -> (r: DeviceMemory)
    ensures
        r == *d,
{
    DeviceMemory {
        rank: d.rank,
        device_id: d.device_id,
        host: d.host.clone(),
        current_bytes: d.current_bytes,
        peak_bytes: d.peak_bytes,
        total_bytes: d.total_bytes,
        sample_count: d.sample_count,
    }
}

fn device_matches(d: &DeviceMemory, context: &InvestigationContext) -> (r: bool)
    ensures
        r == device_selected(*d, *context),
{
    let rank_ok = match context.rank {
        Some(rank) => d.rank == Some(rank),
        None => true,
    };
    let host_ok = match &context.host {
        Some(host) => d.host == *host,
        None => true,
    };
    let device_ok = match context.device_id {
        Some(device) => d.device_id == device,
        None => true,
    };
    rank_ok && host_ok && device_ok
}

/// The device the page shows. Without pins, the first device; with pins,
/// the first device that has every pinned coordinate, and none when no
/// device has them: pins never fall back to another device.
pub fn select_device_for_context(devices: &Vec<DeviceMemory>, context: &InvestigationContext) -> (r:
    Option<DeviceMemory>)
    ensures
        !memory_pinned(*context) ==> r == (if devices@.len() > 0 {
            Some(devices@[0])
        } else {
            None
        }),
        memory_pinned(*context) ==> match r {
            Some(d) => exists|i: int|
                0 <= i < devices@.len() && devices@[i] == d && device_selected(devices@[i], *context)
                    && forall|j: int| 0 <= j < i ==> !device_selected(#[trigger] devices@[j], *context),
            None => forall|j: int|
                0 <= j < devices@.len() ==> !device_selected(#[trigger] devices@[j], *context),
        },
        memory_pinned(*context) ==> match r {
            Some(d) => {
                &&& (context.rank matches Some(k) ==> d.rank == Some(k))
                &&& (context.host matches Some(h) ==> d.host@ == h@)
                &&& (context.device_id matches Some(x) ==> d.device_id == x)
            },
            None => forall|j: int|
                0 <= j < devices@.len() ==> !{
                    &&& (context.rank matches Some(k) ==> (#[trigger] devices@[j]).rank == Some(k))
                    &&& (context.host matches Some(h) ==> devices@[j].host@ == h@)
                    &&& (context.device_id matches Some(x) ==> devices@[j].device_id == x)
                },
        },
{
    if !memory_context_requested(context) {
        if devices.len() > 0 {
            return Some(copy_device(&devices[0]));
        }
        return None;
    }
    let mut i: usize = 0;
    while i < devices.len()
        invariant
            i <= devices@.len(),
            forall|j: int| 0 <= j < i ==> !device_selected(#[trigger] devices@[j], *context),
        decreases devices@.len() - i,
    {
        if device_matches(&devices[i], context) {
            return Some(copy_device(&devices[i]));
        }
        i = i + 1;
    }
    None
}

/// The pinned memory coordinates, in chip order.
pub open spec fn memory_label_parts(c: InvestigationContext) -> Seq<Seq<char>> {
    (match c.rank {
        Some(r) => seq!["rank "@ + int_text(r as int)],
        None => seq![],
    }) + (match c.host {
        Some(h) => seq![h@],
        None => seq![],
    }) + (match c.device_id {
        Some(d) => seq!["GPU "@ + int_text(d as int)],
        None => seq![],
    })
}

/// The pinned rank, host and device, joined with ` · `.
pub fn memory_context_label(context: &InvestigationContext) -> (r: String)
    ensures
        r@ == join_seq(memory_label_parts(*context), " · "@),
{
    proof {
        reveal_strlit("rank ");
        reveal_strlit("GPU ");
    }
    let mut parts: Vec<String> = Vec::new();
    if let Some(rank) = context.rank {
        let mut s = owned("rank ");
        s.append(i32_text(rank).as_str());
        let ghost before = parts@;
        parts.push(s);
        proof {
            lemma_views_push(before, s);
        }
    }
    if let Some(host) = &context.host {
        let s = host.clone();
        let ghost before = parts@;
        parts.push(s);
        proof {
            lemma_views_push(before, s);
        }
    }
    if let Some(device_id) = context.device_id {
        let mut s = owned("GPU ");
        s.append(i32_text(device_id).as_str());
        let ghost before = parts@;
        parts.push(s);
        proof {
            lemma_views_push(before, s);
        }
    }
    assert(views(parts@) =~= memory_label_parts(*context));
    join(&parts, " · ")
}

/// The length of the longest column.
pub open spec fn longest_column(cols: Seq<Vec<Cell>>) -> nat
    decreases cols.len(),
{
    if cols.len() == 0 {
        0
    } else {
        let rest = longest_column(cols.drop_last());
        if cols.last()@.len() > rest {
            cols.last()@.len()
        } else {
            rest
        }
    }
}

/// The rows a memory query returned: the length of its longest column.
pub fn dataframe_rows(dataframe: &DataFrame) -> (r: usize)
    ensures
        r == longest_column(dataframe.cols@),
{
    let mut best: usize = 0;
    let mut i: usize = 0;
    while i < dataframe.cols.len()
        invariant
            i <= dataframe.cols@.len(),
            best == longest_column(dataframe.cols@.take(i as int)),
        decreases dataframe.cols@.len() - i,
    {
        assert(dataframe.cols@.take(i + 1).drop_last() =~= dataframe.cols@.take(i as int));
        let n = dataframe.cols[i].len();
        if n > best {
            best = n;
        }
        i = i + 1;
    }
    assert(dataframe.cols@.take(dataframe.cols@.len() as int) =~= dataframe.cols@);
    best
}


/// Whether a column answers to `name`: the same name up to ASCII case, or a
/// name that ends in `_` and `name` once lowered.
pub open spec fn column_named(candidate: Seq<char>, name: Seq<char>) -> bool {
    lower_seq(candidate) == lower_seq(name) || ends_with_seq(lower_seq(candidate), "_"@ + name)
}

/// The first column that answers to `name`.
pub fn column_index(dataframe: &DataFrame, name: &str) -> (r: Option<usize>)
    ensures
        match r {
            Some(i) => i < dataframe.names@.len() && column_named(dataframe.names@[i as int]@, name@)
                && forall|j: int|
                0 <= j < i ==> !column_named(#[trigger] dataframe.names@[j]@, name@),
            None => forall|j: int|
                0 <= j < dataframe.names@.len() ==> !column_named(
                    #[trigger] dataframe.names@[j]@,
                    name@,
                ),
        },
{
    proof {
        reveal_strlit("_");
    }
    let wanted = lower_chars(name);
    let mut suffix = chars_of("_");
    let plain = chars_of(name);
    let mut k: usize = 0;
    while k < plain.len()
        invariant
            k <= plain@.len(),
            plain@ == name@,
            suffix@ == "_"@ + name@.take(k as int),
        decreases plain@.len() - k,
    {
        suffix.push(plain[k]);
        assert(name@.take(k + 1) =~= name@.take(k as int).push(plain@[k as int]));
        k = k + 1;
    }
    assert(name@.take(name@.len() as int) =~= name@);
    let mut i: usize = 0;
    while i < dataframe.names.len()
        invariant
            i <= dataframe.names@.len(),
            wanted@ == lower_seq(name@),
            suffix@ == "_"@ + name@,
            forall|j: int| 0 <= j < i ==> !column_named(#[trigger] dataframe.names@[j]@, name@),
        decreases dataframe.names@.len() - i,
    {
        let lowered = lower_chars(dataframe.names[i].as_str());
        if chars_equal(&lowered, &wanted) || ends_with_chars(&lowered, &suffix) {
            return Some(i);
        }
        i = i + 1;
    }
    None
}

/// The cell of a row in a column, none when the column was not found.
pub open spec fn row_cell(d: DataFrame, col: Option<usize>, row: int) -> Option<Cell> {
    match col {
        Some(c) => if c < d.cols@.len() {
            Some(cell_at(d.cols@[c as int]@, row))
        } else {
            None
        },
        None => None,
    }
}

/// A float held as ten-thousandths, cast to an integer: the fraction is
/// dropped toward zero.
pub open spec fn truncated_fixed(v: int) -> int {
    if v >= 0 {
        v / 10000
    } else {
        -((-v) / 10000)
    }
}

/// The integer a cell holds: integers as they are, floats truncated, text
/// when it parses as an integer.
pub open spec fn cell_i64(c: Option<Cell>) -> Option<int> {
    match c {
        Some(Cell::I64(v)) => Some(v as int),
        Some(Cell::I32(v)) => Some(v as int),
        Some(Cell::F64(v)) => Some(truncated_fixed(v as int)),
        Some(Cell::F32(v)) => Some(truncated_fixed(v as int)),
        Some(Cell::Text(s)) => decimal_i64(s@),
        _ => None,
    }
}

/// The integer of a cell, when it is not negative.
pub open spec fn cell_u64(c: Option<Cell>) -> Option<int> {
    match cell_i64(c) {
        Some(v) => if v >= 0 {
            Some(v)
        } else {
            None
        },
        None => None,
    }
}

fn truncate_fixed(v: i64) -> (r: i64)
    ensures
        r == truncated_fixed(v as int),
{
    if v >= 0 {
        v / 10000
    } else {
        let m: u64 = ((0 - (v + 1)) as u64) + 1;
        let q: u64 = m / 10000;
        0 - (q as i64)
    }
}

pub open spec fn deref_cell(value: Option<&Cell>) -> Option<Cell> {
    match value {
        Some(c) => Some(*c),
        None => None,
    }
}

/// The integer a cell holds.
pub fn ele_i64(value: Option<&Cell>) -> (r: Option<i64>)
    ensures
        match r {
            Some(v) => cell_i64(deref_cell(value)) == Some(v as int),
            None => cell_i64(deref_cell(value)) is None,
        },
{
    match value {
        Some(Cell::I64(v)) => Some(*v),
        Some(Cell::I32(v)) => Some(*v as i64),
        Some(Cell::F64(v)) => Some(truncate_fixed(*v)),
        Some(Cell::F32(v)) => Some(truncate_fixed(*v)),
        Some(Cell::Text(s)) => parse_i64(s.as_str()),
        _ => None,
    }
}

/// The integer a cell holds, when it is not negative.
pub fn ele_u64(value: Option<&Cell>) -> (r: Option<u64>)
    ensures
        match r {
            Some(v) => cell_u64(deref_cell(value)) == Some(v as int),
            None => cell_u64(deref_cell(value)) is None,
        },
{
    match ele_i64(value) {
        Some(v) => if v >= 0 {
            Some(v as u64)
        } else {
            None
        },
        None => None,
    }
}


/// The integer of a row in a column.
fn row_i64(dataframe: &DataFrame, col: Option<usize>, row: usize) -> (r: Option<i64>)
    ensures
        match r {
            Some(v) => cell_i64(row_cell(*dataframe, col, row as int)) == Some(v as int),
            None => cell_i64(row_cell(*dataframe, col, row as int)) is None,
        },
{
    match col {
        Some(c) => if c < dataframe.cols.len() && row < dataframe.cols[c].len() {
            ele_i64(Some(&dataframe.cols[c][row]))
        } else {
            None
        },
        None => None,
    }
}

/// The non-negative integer of a row in a column.
fn row_u64(dataframe: &DataFrame, col: Option<usize>, row: usize) -> (r: Option<u64>)
    ensures
        match r {
            Some(v) => cell_u64(row_cell(*dataframe, col, row as int)) == Some(v as int),
            None => cell_u64(row_cell(*dataframe, col, row as int)) is None,
        },
{
    match row_i64(dataframe, col, row) {
        Some(v) => if v >= 0 {
            Some(v as u64)
        } else {
            None
        },
        None => None,
    }
}


/// The first column that answers to `name`, by index.
pub open spec fn first_column(names: Seq<String>, name: Seq<char>) -> Option<int>
    decreases names.len(),
{
    if names.len() == 0 {
        None
    } else if column_named(names[0]@, name) {
        Some(0)
    } else {
        match first_column(names.drop_first(), name) {
            Some(i) => Some(i + 1),
            None => None,
        }
    }
}

proof fn lemma_first_column(names: Seq<String>, name: Seq<char>, r: Option<int>)
    requires
        match r {
            Some(i) => 0 <= i < names.len() && column_named(names[i]@, name) && forall|j: int|
                0 <= j < i ==> !column_named(#[trigger] names[j]@, name),
            None => forall|j: int| 0 <= j < names.len() ==> !column_named(#[trigger] names[j]@, name),
        },
    ensures
        first_column(names, name) == r,
    decreases names.len(),
{
    if names.len() > 0 {
        let rest = names.drop_first();
        match r {
            Some(i) => {
                if i > 0 {
                    assert(!column_named(names[0]@, name));
                    assert forall|j: int| 0 <= j < i - 1 implies !column_named(
                        #[trigger] rest[j]@,
                        name,
                    ) by {
                        assert(rest[j] == names[j + 1]);
                    }
                    assert(rest[i - 1] == names[i]);
                    lemma_first_column(rest, name, Some(i - 1));
                }
            },
            None => {
                assert(!column_named(names[0]@, name));
                assert forall|j: int| 0 <= j < rest.len() implies !column_named(
                    #[trigger] rest[j]@,
                    name,
                ) by {
                    assert(rest[j] == names[j + 1]);
                }
                lemma_first_column(rest, name, None);
            },
        }
    }
}

/// The column a memory query reads `name` from.
pub open spec fn col_of(d: DataFrame, name: Seq<char>) -> Option<usize> {
    match first_column(d.names@, name) {
        Some(i) => Some(i as usize),
        None => None,
    }
}

fn find_column(dataframe: &DataFrame, name: &str) -> (r: Option<usize>)
    ensures
        r == col_of(*dataframe, name@),
{
    let r = column_index(dataframe, name);
    proof {
        let g: Option<int> = match r {
            Some(i) => Some(i as int),
            None => None,
        };
        lemma_first_column(dataframe.names@, name@, g);
    }
    r
}

/// An integer that fits in `i32`.
pub open spec fn fit_i32(v: Option<int>) -> Option<i32> {
    match v {
        Some(x) => if i32::MIN <= x <= i32::MAX {
            Some(x as i32)
        } else {
            None
        },
        None => None,
    }
}

fn to_i32(v: Option<i64>) -> (r: Option<i32>)
    ensures
        r == fit_i32(
            match v {
                Some(x) => Some(x as int),
                None => None,
            },
        ),
{
    match v {
        Some(x) => if -2147483648 <= x && x <= 2147483647 {
            Some(x as i32)
        } else {
            None
        },
        None => None,
    }
}

/// A rank that is reported and not negative.
pub open spec fn known_rank(v: Option<i32>) -> Option<i32> {
    match v {
        Some(r) => if r >= 0 {
            Some(r)
        } else {
            None
        },
        None => None,
    }
}

/// The host of the first registry row of a rank.
pub open spec fn host_of_rank(nodes: Seq<Node>, rank: i32) -> Option<Seq<char>>
    decreases nodes.len(),
{
    if nodes.len() == 0 {
        None
    } else if nodes[0].rank == Some(rank) {
        Some(nodes[0].host@)
    } else {
        host_of_rank(nodes.drop_first(), rank)
    }
}

fn find_host(nodes: &Vec<Node>, rank: i32) -> (r: Option<String>)
    ensures
        match r {
            Some(h) => host_of_rank(nodes@, rank) == Some(h@),
            None => host_of_rank(nodes@, rank) is None,
        },
{
    let mut i: usize = 0;
    assert(nodes@.skip(0) =~= nodes@);
    while i < nodes.len()
        invariant
            i <= nodes@.len(),
            host_of_rank(nodes@, rank) == host_of_rank(nodes@.skip(i as int), rank),
        decreases nodes@.len() - i,
    {
        assert(nodes@.skip(i as int).drop_first() =~= nodes@.skip(i + 1));
        assert(nodes@.skip(i as int)[0] == nodes@[i as int]);
        if nodes[i].rank == Some(rank) {
            return Some(nodes[i].host.clone());
        }
        i = i + 1;
    }
    None
}

/// What the page reads of a device.
pub struct DeviceView {
    pub rank: Option<i32>,
    pub device_id: i32,
    pub host: Seq<char>,
    pub current_bytes: u64,
    pub peak_bytes: u64,
    pub total_bytes: u64,
    pub sample_count: usize,
}

impl View for DeviceMemory {
    type V = DeviceView;

    open spec fn view(&self) -> DeviceView {
        DeviceView {
            rank: self.rank,
            device_id: self.device_id,
            host: self.host@,
            current_bytes: self.current_bytes,
            peak_bytes: self.peak_bytes,
            total_bytes: self.total_bytes,
            sample_count: self.sample_count,
        }
    }
}

pub open spec fn device_views(s: Seq<DeviceMemory>) -> Seq<DeviceView> {
    s.map_values(|m: DeviceMemory| m@)
}

/// The host a device is shown under: the registry's host of its rank, else
/// the rank itself, else the local node.
pub open spec fn device_host(nodes: Seq<Node>, rank: Option<i32>) -> Seq<char> {
    match rank {
        Some(r) => match host_of_rank(nodes, r) {
            Some(h) => h,
            None => "rank "@ + int_text(r as int),
        },
        None => "local node"@,
    }
}

/// The device a row reports; none when the row has no device id.
pub open spec fn device_row(d: DataFrame, nodes: Seq<Node>, row: int) -> Option<DeviceView> {
    let rank = known_rank(fit_i32(cell_i64(row_cell(d, col_of(d, "rank"@), row))));
    match fit_i32(cell_i64(row_cell(d, col_of(d, "device_id"@), row))) {
        None => None,
        Some(device_id) => {
            let current: u64 = match cell_u64(row_cell(d, col_of(d, "current_used_bytes"@), row)) {
                Some(v) => v as u64,
                None => 0,
            };
            let peak: u64 = match cell_u64(row_cell(d, col_of(d, "peak_used_bytes"@), row)) {
                Some(v) => v as u64,
                None => current,
            };
            let total: u64 = match cell_u64(row_cell(d, col_of(d, "total_bytes"@), row)) {
                Some(v) => v as u64,
                None => 0,
            };
            let samples: usize = match cell_u64(row_cell(d, col_of(d, "sample_count"@), row)) {
                Some(v) => (v as u64) as usize,
                None => 0,
            };
            Some(
                DeviceView {
                    rank,
                    device_id,
                    host: device_host(nodes, rank),
                    current_bytes: current,
                    peak_bytes: peak,
                    total_bytes: total,
                    sample_count: samples,
                },
            )
        },
    }
}

/// The devices of the first `n` rows, in row order.
pub open spec fn devices_upto(d: DataFrame, nodes: Seq<Node>, n: nat) -> Seq<DeviceView>
    decreases n,
{
    if n == 0 {
        seq![]
    } else {
        devices_upto(d, nodes, (n - 1) as nat) + match device_row(d, nodes, n - 1) {
            Some(v) => seq![v],
            None => seq![],
        }
    }
}

/// `None` sorts before every rank.
pub open spec fn rank_before(a: Option<i32>, b: Option<i32>) -> bool {
    match (a, b) {
        (None, Some(_)) => true,
        (Some(x), Some(y)) => x < y,
        _ => false,
    }
}

/// Devices are ordered by host, then rank, then device id.
pub open spec fn device_before(a: DeviceView, b: DeviceView) -> bool {
    text_less(a.host, b.host) || (a.host == b.host && (rank_before(a.rank, b.rank) || (a.rank
        == b.rank && a.device_id < b.device_id)))
}

/// Inserts a device after every device that does not sort after it.
pub open spec fn insert_device(s: Seq<DeviceView>, x: DeviceView) -> Seq<DeviceView>
    decreases s.len(),
{
    if s.len() == 0 {
        seq![x]
    } else if device_before(x, s[0]) {
        seq![x] + s
    } else {
        seq![s[0]] + insert_device(s.drop_first(), x)
    }
}

/// The devices in page order: sorted by host, rank and device id, devices
/// of the same key in row order.
pub open spec fn device_order(s: Seq<DeviceView>) -> Seq<DeviceView>
    decreases s.len(),
{
    if s.len() == 0 {
        seq![]
    } else {
        insert_device(device_order(s.drop_last()), s.last())
    }
}

proof fn lemma_insert_device(s: Seq<DeviceView>, x: DeviceView, p: int)
    requires
        0 <= p <= s.len(),
        forall|j: int| 0 <= j < p ==> !device_before(x, #[trigger] s[j]),
        p < s.len() ==> device_before(x, s[p]),
    ensures
        insert_device(s, x) == s.insert(p, x),
    decreases p,
{
    if p == 0 {
        if s.len() == 0 {
            assert(s.insert(0, x) =~= seq![x]);
        } else {
            assert(s.insert(0, x) =~= seq![x] + s);
        }
    } else {
        let rest = s.drop_first();
        assert(!device_before(x, s[0]));
        assert forall|j: int| 0 <= j < p - 1 implies !device_before(x, #[trigger] rest[j]) by {
            assert(rest[j] == s[j + 1]);
        }
        if p - 1 < rest.len() {
            assert(rest[p - 1] == s[p]);
        }
        lemma_insert_device(rest, x, p - 1);
        assert(s.insert(p, x) =~= seq![s[0]] + rest.insert(p - 1, x));
    }
}

fn rank_lt(a: Option<i32>, b: Option<i32>) -> (r: bool)
    ensures
        r == rank_before(a, b),
{
    match (a, b) {
        (None, Some(_)) => true,
        (Some(x), Some(y)) => x < y,
        _ => false,
    }
}

fn device_lt(a: &DeviceMemory, b: &DeviceMemory) -> (r: bool)
    ensures
        r == device_before(a@, b@),
{
    if text_lt(a.host.as_str(), b.host.as_str()) {
        return true;
    }
    if !str_eq(a.host.as_str(), b.host.as_str()) {
        return false;
    }
    rank_lt(a.rank, b.rank) || (a.rank == b.rank && a.device_id < b.device_id)
}

fn device_of_row(dataframe: &DataFrame, nodes: &Vec<Node>, cols: &[Option<usize>; 6], row: usize) -> (r:
    Option<DeviceMemory>)
    requires
        cols[0] == col_of(*dataframe, "rank"@),
        cols[1] == col_of(*dataframe, "device_id"@),
        cols[2] == col_of(*dataframe, "current_used_bytes"@),
        cols[3] == col_of(*dataframe, "peak_used_bytes"@),
        cols[4] == col_of(*dataframe, "total_bytes"@),
        cols[5] == col_of(*dataframe, "sample_count"@),
    ensures
        match r {
            Some(m) => device_row(*dataframe, nodes@, row as int) == Some(m@),
            None => device_row(*dataframe, nodes@, row as int) is None,
        },
{
    proof {
        reveal_strlit("rank ");
        reveal_strlit("local node");
    }
    let rank = match to_i32(row_i64(dataframe, cols[0], row)) {
        Some(r) => if r >= 0 {
            Some(r)
        } else {
            None
        },
        None => None,
    };
    let device_id = match to_i32(row_i64(dataframe, cols[1], row)) {
        Some(d) => d,
        None => {
            return None;
        },
    };
    let current_bytes = match row_u64(dataframe, cols[2], row) {
        Some(v) => v,
        None => 0,
    };
    let peak_bytes = match row_u64(dataframe, cols[3], row) {
        Some(v) => v,
        None => current_bytes,
    };
    let total_bytes = match row_u64(dataframe, cols[4], row) {
        Some(v) => v,
        None => 0,
    };
    let sample_count = match row_u64(dataframe, cols[5], row) {
        Some(v) => v as usize,
        None => 0,
    };
    let host = match rank {
        Some(r) => match find_host(nodes, r) {
            Some(h) => h,
            None => {
                let mut s = owned("rank ");
                s.append(i32_text(r).as_str());
                s
            },
        },
        None => owned("local node"),
    };
    Some(
        DeviceMemory {
            rank,
            device_id,
            host,
            current_bytes,
            peak_bytes,
            total_bytes,
            sample_count,
        },
    )
}

/// The devices a summary query reports, with the host of each rank taken
/// from the registry, in page order.
pub fn parse_devices(dataframe: &DataFrame, nodes: &Vec<Node>) -> (r: Vec<DeviceMemory>)
    ensures
        device_views(r@) == device_order(devices_upto(*dataframe, nodes@, frame_rows(*dataframe))),
{
    let cols: [Option<usize>; 6] = [
        find_column(dataframe, "rank"),
        find_column(dataframe, "device_id"),
        find_column(dataframe, "current_used_bytes"),
        find_column(dataframe, "peak_used_bytes"),
        find_column(dataframe, "total_bytes"),
        find_column(dataframe, "sample_count"),
    ];
    let rows = dataframe.row_count();
    let mut parsed: Vec<DeviceMemory> = Vec::new();
    let mut row: usize = 0;
    while row < rows
        invariant
            rows == frame_rows(*dataframe),
            row <= rows,
            cols[0] == col_of(*dataframe, "rank"@),
            cols[1] == col_of(*dataframe, "device_id"@),
            cols[2] == col_of(*dataframe, "current_used_bytes"@),
            cols[3] == col_of(*dataframe, "peak_used_bytes"@),
            cols[4] == col_of(*dataframe, "total_bytes"@),
            cols[5] == col_of(*dataframe, "sample_count"@),
            device_views(parsed@) == devices_upto(*dataframe, nodes@, row as nat),
        decreases rows - row,
    {
        match device_of_row(dataframe, nodes, &cols, row) {
            Some(m) => {
                parsed.push(m);
                assert(device_views(parsed@) =~= devices_upto(*dataframe, nodes@, (row + 1) as nat));
            },
            None => {
                assert(device_views(parsed@) =~= devices_upto(*dataframe, nodes@, (row + 1) as nat));
            },
        }
        row = row + 1;
    }
    let ghost all = device_views(parsed@);
    let mut sorted: Vec<DeviceMemory> = Vec::new();
    let mut i: usize = 0;
    while i < parsed.len()
        invariant
            i <= parsed@.len(),
            all == device_views(parsed@),
            device_views(sorted@) == device_order(all.take(i as int)),
        decreases parsed@.len() - i,
    {
        let x = copy_device(&parsed[i]);
        let mut p: usize = 0;
        while p < sorted.len() && !device_lt(&x, &sorted[p])
            invariant
                p <= sorted@.len(),
                forall|j: int| 0 <= j < p ==> !device_before(x@, #[trigger] device_views(sorted@)[j]),
            decreases sorted@.len() - p,
        {
            p = p + 1;
        }
        let ghost before = device_views(sorted@);
        proof {
            lemma_insert_device(before, x@, p as int);
            assert(all.take(i + 1).drop_last() =~= all.take(i as int));
            assert(all.take(i + 1).last() == x@);
        }
        sorted.insert(p, x);
        assert(device_views(sorted@) =~= before.insert(p as int, x@));
        i = i + 1;
    }
    assert(all.take(parsed@.len() as int) =~= all);
    sorted
}

/// The sample a history row reports; none unless it has a device id, a
/// timestamp and both byte counts.
pub open spec fn point_row(d: DataFrame, row: int) -> Option<MemoryPoint> {
    let rank = known_rank(fit_i32(cell_i64(row_cell(d, col_of(d, "rank"@), row))));
    match (
        fit_i32(cell_i64(row_cell(d, col_of(d, "device_id"@), row))),
        cell_i64(row_cell(d, col_of(d, "ts"@), row)),
        cell_u64(row_cell(d, col_of(d, "used_bytes"@), row)),
        cell_u64(row_cell(d, col_of(d, "total_bytes"@), row)),
    ) {
        (Some(device_id), Some(ts), Some(used), Some(total)) => Some(
            MemoryPoint {
                rank,
                device_id,
                ts: ts as i64,
                used_bytes: used as u64,
                total_bytes: total as u64,
            },
        ),
        _ => None,
    }
}

/// The samples of the first `n` rows, in row order.
pub open spec fn points_upto(d: DataFrame, n: nat) -> Seq<MemoryPoint>
    decreases n,
{
    if n == 0 {
        seq![]
    } else {
        points_upto(d, (n - 1) as nat) + match point_row(d, n - 1) {
            Some(v) => seq![v],
            None => seq![],
        }
    }
}

/// The samples a history query reports, in row order.
pub fn parse_history(dataframe: &DataFrame) -> (r: Vec<MemoryPoint>)
    ensures
        r@ == points_upto(*dataframe, frame_rows(*dataframe)),
{
    let rank_col = find_column(dataframe, "rank");
    let device_col = find_column(dataframe, "device_id");
    let ts_col = find_column(dataframe, "ts");
    let used_col = find_column(dataframe, "used_bytes");
    let total_col = find_column(dataframe, "total_bytes");
    let rows = dataframe.row_count();
    let mut points: Vec<MemoryPoint> = Vec::new();
    let mut row: usize = 0;
    while row < rows
        invariant
            rows == frame_rows(*dataframe),
            row <= rows,
            rank_col == col_of(*dataframe, "rank"@),
            device_col == col_of(*dataframe, "device_id"@),
            ts_col == col_of(*dataframe, "ts"@),
            used_col == col_of(*dataframe, "used_bytes"@),
            total_col == col_of(*dataframe, "total_bytes"@),
            points@ == points_upto(*dataframe, row as nat),
        decreases rows - row,
    {
        let rank = match to_i32(row_i64(dataframe, rank_col, row)) {
            Some(r) => if r >= 0 {
                Some(r)
            } else {
                None
            },
            None => None,
        };
        let device = to_i32(row_i64(dataframe, device_col, row));
        let ts = row_i64(dataframe, ts_col, row);
        let used = row_u64(dataframe, used_col, row);
        let total = row_u64(dataframe, total_col, row);
        match (device, ts, used, total) {
            (Some(device_id), Some(ts), Some(used_bytes), Some(total_bytes)) => {
                points.push(MemoryPoint { rank, device_id, ts, used_bytes, total_bytes });
            },
            _ => {},
        }
        assert(points@ =~= points_upto(*dataframe, (row + 1) as nat));
        row = row + 1;
    }
    points
}


/// The payload of a memory query, its rows counted by the longest column:
/// with the cluster's fan-out when the cluster answered, local otherwise.
pub fn memory_query_payload(
    source: &'static str,
    request: &EvidenceRequest,
    dataframe: DataFrame,
    fanout: Option<&ClusterQueryMeta>,
) -> (r: EvidencePayload<DataFrame>)
    ensures
        r.value == dataframe,
        r.receipt.source == source,
        r.receipt.refresh_epoch == request.refresh_epoch,
        r.receipt.scope == request.scope,
        r.receipt.rows == longest_column(dataframe.cols@),
        r.receipt.context_match == ContextMatch::Unpinned,
        match fanout {
            Some(meta) => r.receipt.peers_queried == meta.nodes_queried && r.receipt.failed_peers
                == meta.nodes_failed@.len() && r.receipt.partial == meta.partial,
            None => r.receipt.peers_queried == 1 && r.receipt.failed_peers == 0 && !r.receipt.partial,
        },
{
    let rows = dataframe_rows(&dataframe);
    let receipt = match fanout {
        Some(meta) => EvidenceReceipt::cluster(
            source,
            request,
            rows,
            meta.nodes_queried,
            meta.nodes_failed.len(),
            meta.partial,
        ),
        None => EvidenceReceipt::local(source, request, rows),
    };
    EvidencePayload::new(dataframe, receipt)
}

/// A memory query that was not run: an empty table with a local receipt.
pub fn empty_memory_query(source: &'static str, request: &EvidenceRequest) -> (r: EvidencePayload<
    DataFrame,
>)
    ensures
        r.value.names@.len() == 0,
        r.value.cols@.len() == 0,
        r.receipt.source == source,
        r.receipt.refresh_epoch == request.refresh_epoch,
        r.receipt.scope == request.scope,
        r.receipt.rows == 0,
        r.receipt.peers_queried == 1,
        r.receipt.failed_peers == 0,
        !r.receipt.partial,
        r.receipt.context_match == ContextMatch::Unpinned,
{
    EvidencePayload::new(
        DataFrame { names: Vec::new(), cols: Vec::new() },
        EvidenceReceipt::local(source, request, 0),
    )
}

/// The memory page's evidence, once every source has answered: the
/// registry, the latest device readings, their history, the allocator and
/// the module allocations.
pub fn memory_evidence_bundle(
    request: &EvidenceRequest,
    nodes: Option<&Fetched<Vec<Node>>>,
    devices: Option<&Fetched<DataFrame>>,
    history: Option<&Fetched<DataFrame>>,
    allocator: Option<&Fetched<DataFrame>>,
    allocation: Option<&Fetched<DataFrame>>,
) -> (r: Option<String>)
    ensures
        (nodes is None || devices is None || history is None || allocator is None || allocation is None)
            <==> r is None,
        r matches Some(text) ==> text@ == bundle_text(
            BundleView {
                entries: entry_of(
                    *nodes->0,
                    match *nodes->0 {
                        Ok(p) => nodes_text(p.value@),
                        Err(_) => seq![],
                    },
                ) + entry_of(*devices->0, frame_preview_of(*devices->0, 16)) + entry_of(
                    *history->0,
                    frame_preview_of(*history->0, 24),
                ) + entry_of(*allocator->0, frame_preview_of(*allocator->0, 8)) + entry_of(
                    *allocation->0,
                    frame_preview_of(*allocation->0, 20),
                ),
                failures: failure_of(*nodes->0, "cluster.nodes"@) + failure_of(
                    *devices->0,
                    "gpu.utilization.latest"@,
                ) + failure_of(*history->0, "gpu.utilization.history"@) + failure_of(
                    *allocator->0,
                    "python.torch_trace.allocator"@,
                ) + failure_of(*allocation->0, "python.torch_trace.allocation"@),
                ..empty_bundle("memory"@, *request)
            },
        ),
{
    let (nodes, devices, history, allocator, allocation) = match (
        nodes,
        devices,
        history,
        allocator,
        allocation,
    ) {
        (Some(a), Some(b), Some(c), Some(d), Some(e)) => (a, b, c, d, e),
        _ => return None,
    };
    proof {
        reveal_strlit("memory");
        reveal_strlit("cluster.nodes");
    }
    let mut bundle = EvidenceBundle::new("memory", request);
    let node_preview = match nodes {
        Ok(payload) => format_nodes(&payload.value),
        Err(_) => String::new(),
    };
    push_fetched(&mut bundle, "cluster.nodes", nodes, node_preview);
    push_dataframe_result(&mut bundle, "gpu.utilization.latest", devices, 16);
    push_dataframe_result(&mut bundle, "gpu.utilization.history", history, 24);
    push_dataframe_result(&mut bundle, "python.torch_trace.allocator", allocator, 8);
    push_dataframe_result(&mut bundle, "python.torch_trace.allocation", allocation, 20);
    let ghost b = bundle@;
    assert(b.entries =~= entry_of(
        *nodes,
        match *nodes {
            Ok(p) => nodes_text(p.value@),
            Err(_) => seq![],
        },
    ) + entry_of(*devices, frame_preview_of(*devices, 16)) + entry_of(
        *history,
        frame_preview_of(*history, 24),
    ) + entry_of(*allocator, frame_preview_of(*allocator, 8)) + entry_of(
        *allocation,
        frame_preview_of(*allocation, 20),
    ));
    Some(bundle.render())
}

/// Where a device sits among the devices of its host on the device map: by
/// rank, an unranked device counting as rank -1, then by device id.
pub open spec fn map_before(a: DeviceMemory, b: DeviceMemory) -> bool {
    let ra: int = match a.rank {
        Some(r) => r as int,
        None => -1,
    };
    let rb: int = match b.rank {
        Some(r) => r as int,
        None => -1,
    };
    ra < rb || (ra == rb && a.device_id < b.device_id)
}

/// Inserts a device after every device that does not sort after it.
pub open spec fn insert_on_map(s: Seq<DeviceMemory>, x: DeviceMemory) -> Seq<DeviceMemory>
    decreases s.len(),
{
    if s.len() == 0 {
        seq![x]
    } else if map_before(x, s[0]) {
        seq![x] + s
    } else {
        seq![s[0]] + insert_on_map(s.drop_first(), x)
    }
}

/// The devices sorted stably for the device map.
pub open spec fn map_order(s: Seq<DeviceMemory>) -> Seq<DeviceMemory>
    decreases s.len(),
{
    if s.len() == 0 {
        seq![]
    } else {
        insert_on_map(map_order(s.drop_last()), s.last())
    }
}

/// The devices of one host, in list order.
pub open spec fn devices_on(s: Seq<DeviceMemory>, host: Seq<char>) -> Seq<DeviceMemory>
    decreases s.len(),
{
    if s.len() == 0 {
        seq![]
    } else if s.last().host@ == host {
        devices_on(s.drop_last(), host).push(s.last())
    } else {
        devices_on(s.drop_last(), host)
    }
}

/// Some device of the list is on the host.
pub open spec fn hosts_device(s: Seq<DeviceMemory>, host: Seq<char>) -> bool {
    exists|j: int| 0 <= j < s.len() && (#[trigger] s[j]).host@ == host
}

proof fn lemma_insert_on_map(s: Seq<DeviceMemory>, x: DeviceMemory, p: int)
    requires
        0 <= p <= s.len(),
        forall|j: int| 0 <= j < p ==> !map_before(x, #[trigger] s[j]),
        p < s.len() ==> map_before(x, s[p]),
    ensures
        insert_on_map(s, x) == s.insert(p, x),
    decreases p,
{
    if p == 0 {
        if s.len() == 0 {
            assert(s.insert(0, x) =~= seq![x]);
        } else {
            assert(s.insert(0, x) =~= seq![x] + s);
        }
    } else {
        let rest = s.drop_first();
        assert(!map_before(x, s[0]));
        assert forall|j: int| 0 <= j < p - 1 implies !map_before(x, #[trigger] rest[j]) by {
            assert(rest[j] == s[j + 1]);
        }
        if p - 1 < rest.len() {
            assert(rest[p - 1] == s[p]);
        }
        lemma_insert_on_map(rest, x, p - 1);
        assert(s.insert(p, x) =~= seq![s[0]] + rest.insert(p - 1, x));
    }
}

fn map_before_exec(a: &DeviceMemory, b: &DeviceMemory) -> (r: bool)
    ensures
        r == map_before(*a, *b),
{
    let ra: i64 = match a.rank {
        Some(r) => r as i64,
        None => -1,
    };
    let rb: i64 = match b.rank {
        Some(r) => r as i64,
        None => -1,
    };
    ra < rb || (ra == rb && a.device_id < b.device_id)
}

/// The devices of one host, sorted for the map.
fn host_devices(devices: &Vec<DeviceMemory>, host: &String) -> (r: Vec<DeviceMemory>)
    ensures
        r@ == map_order(devices_on(devices@, host@)),
{
    let mut mine: Vec<DeviceMemory> = Vec::new();
    let mut i: usize = 0;
    assert(devices@.take(0) =~= Seq::<DeviceMemory>::empty());
    while i < devices.len()
        invariant
            i <= devices@.len(),
            mine@ == devices_on(devices@.take(i as int), host@),
        decreases devices@.len() - i,
    {
        assert(devices@.take(i + 1).drop_last() =~= devices@.take(i as int));
        assert(devices@.take(i + 1).last() == devices@[i as int]);
        if str_eq(devices[i].host.as_str(), host.as_str()) {
            mine.push(copy_device(&devices[i]));
        }
        i = i + 1;
    }
    assert(devices@.take(devices@.len() as int) =~= devices@);
    let ghost group = mine@;
    let mut sorted: Vec<DeviceMemory> = Vec::new();
    let mut k: usize = 0;
    assert(group.take(0) =~= Seq::<DeviceMemory>::empty());
    while k < mine.len()
        invariant
            k <= mine@.len(),
            mine@ == group,
            sorted@ == map_order(group.take(k as int)),
        decreases mine@.len() - k,
    {
        let x = copy_device(&mine[k]);
        let mut p: usize = 0;
        while p < sorted.len() && !map_before_exec(&x, &sorted[p])
            invariant
                p <= sorted@.len(),
                forall|j: int| 0 <= j < p ==> !map_before(x, #[trigger] sorted@[j]),
            decreases sorted@.len() - p,
        {
            p = p + 1;
        }
        proof {
            lemma_insert_on_map(sorted@, x, p as int);
            assert(group.take(k + 1).drop_last() =~= group.take(k as int));
            assert(group.take(k + 1).last() == x);
        }
        sorted.insert(p, x);
        k = k + 1;
    }
    assert(group.take(group.len() as int) =~= group);
    sorted
}

/// The device map: the hosts in name order, each with its devices sorted by
/// rank (an unranked device as rank -1) and device id, devices of the same
/// key in list order.
pub fn device_map(devices: &Vec<DeviceMemory>) -> (r: Vec<(String, Vec<DeviceMemory>)>)
    ensures
        forall|a: int, b: int| 0 <= a < b < r@.len() ==> text_less(r@[a].0@, r@[b].0@),
        forall|k: int| 0 <= k < r@.len() ==> (#[trigger] r@[k]).1@ == map_order(devices_on(devices@, r@[k].0@)),
        forall|h: Seq<char>| (exists|k: int| 0 <= k < r@.len() && (#[trigger] r@[k]).0@ == h) <==> #[trigger] hosts_device(devices@, h),
{
    let mut names: Vec<String> = Vec::new();
    let mut i: usize = 0;
    while i < devices.len()
        invariant
            i <= devices@.len(),
            sorted_texts(views(names@)),
            forall|x: Seq<char>| #[trigger] views(names@).contains(x) <==> hosts_device(devices@.take(i as int), x),
        decreases devices@.len() - i,
    {
        let ghost before = views(names@);
        insert_sorted_text(&mut names, &devices[i].host);
        proof {
            let pre = devices@.take(i as int);
            let post = devices@.take(i + 1);
            assert forall|x: Seq<char>| #[trigger] views(names@).contains(x) <==> hosts_device(post, x) by {
                if hosts_device(post, x) {
                    let j = choose|j: int| 0 <= j < post.len() && (#[trigger] post[j]).host@ == x;
                    if j < i {
                        assert(pre[j] == post[j]);
                        assert(hosts_device(pre, x));
                    }
                }
                if before.contains(x) {
                    assert(hosts_device(pre, x));
                    let j = choose|j: int| 0 <= j < pre.len() && (#[trigger] pre[j]).host@ == x;
                    assert(post[j] == pre[j]);
                }
                if x == devices@[i as int].host@ {
                    assert(post[i as int] == devices@[i as int]);
                }
            }
        }
        i = i + 1;
    }
    assert(devices@.take(devices@.len() as int) =~= devices@);
    let mut r: Vec<(String, Vec<DeviceMemory>)> = Vec::new();
    let mut k: usize = 0;
    while k < names.len()
        invariant
            k <= names@.len(),
            r@.len() == k,
            forall|y: int| 0 <= y < k ==> (#[trigger] r@[y]).0@ == names@[y]@ && r@[y].1@ == map_order(
                devices_on(devices@, names@[y]@),
            ),
        decreases names@.len() - k,
    {
        let group = host_devices(devices, &names[k]);
        r.push((names[k].clone(), group));
        k = k + 1;
    }
    proof {
        let v = views(names@);
        assert forall|a: int, b: int| 0 <= a < b < r@.len() implies text_less(r@[a].0@, r@[b].0@) by {
            assert(v[a] == names@[a]@);
            assert(v[b] == names@[b]@);
        }
        assert forall|h: Seq<char>| (exists|k: int| 0 <= k < r@.len() && (#[trigger] r@[k]).0@ == h) <==> #[trigger] hosts_device(devices@, h) by {
            if exists|k: int| 0 <= k < r@.len() && (#[trigger] r@[k]).0@ == h {
                let k = choose|k: int| 0 <= k < r@.len() && (#[trigger] r@[k]).0@ == h;
                assert(v[k] == h);
                assert(v.contains(h));
                assert(hosts_device(devices@.take(devices@.len() as int), h));
            }
            if hosts_device(devices@, h) {
                assert(hosts_device(devices@.take(devices@.len() as int), h));
                assert(v.contains(h));
                let k = choose|k: int| 0 <= k < v.len() && v[k] == h;
                assert(r@[k].0@ == h);
            }
        }
    }
    r
}

/// A device of the map is the pinned one: its id is pinned, and so is its
/// rank unless it reports none.
pub fn device_on_map_pinned(context: &InvestigationContext, device: &DeviceMemory) -> (r: bool)
    ensures
        r == (context.device_id == Some(device.device_id) && (context.rank == device.rank
            || device.rank is None)),
{
    context.device_id == Some(device.device_id) && (context.rank == device.rank || device.rank.is_none())
}

/// The bytes of the devices added up: current use when `which` is 0, the
/// window peaks when it is 1, capacity otherwise.
pub open spec fn bytes_sum(s: Seq<DeviceMemory>, which: int) -> int
    decreases s.len(),
{
    if s.len() == 0 {
        0
    } else {
        bytes_sum(s.drop_last(), which) + if which == 0 {
            s.last().current_bytes as int
        } else if which == 1 {
            s.last().peak_bytes as int
        } else {
            s.last().total_bytes as int
        }
    }
}

proof fn lemma_bytes_sum_prefix(s: Seq<DeviceMemory>, k: int, which: int)
    requires
        0 <= k <= s.len(),
    ensures
        0 <= bytes_sum(s.take(k), which) <= bytes_sum(s, which),
    decreases s.len() - k,
{
    if k < s.len() {
        lemma_bytes_sum_prefix(s, k + 1, which);
        assert(s.take(k + 1).drop_last() =~= s.take(k));
    } else {
        assert(s.take(k) =~= s);
    }
    lemma_bytes_sum_nonnegative(s.take(k), which);
}

proof fn lemma_bytes_sum_nonnegative(s: Seq<DeviceMemory>, which: int)
    ensures
        bytes_sum(s, which) >= 0,
    decreases s.len(),
{
    if s.len() > 0 {
        lemma_bytes_sum_nonnegative(s.drop_last(), which);
    }
}

/// The memory the devices of the page hold together.
pub struct MemoryTotals {
    pub current: u64,
    pub peak: u64,
    pub capacity: u64,
    /// Capacity not currently used; zero when usage exceeds it.
    pub headroom: u64,
}

/// The device overview's totals: current use, the sum of the window peaks,
/// capacity, and the headroom left.
pub fn memory_totals(devices: &Vec<DeviceMemory>) -> (r: MemoryTotals)
    requires
        bytes_sum(devices@, 0) <= u64::MAX,
        bytes_sum(devices@, 1) <= u64::MAX,
        bytes_sum(devices@, 2) <= u64::MAX,
    ensures
        r.current == bytes_sum(devices@, 0),
        r.peak == bytes_sum(devices@, 1),
        r.capacity == bytes_sum(devices@, 2),
        r.headroom == (if r.capacity >= r.current {
            (r.capacity - r.current) as u64
        } else {
            0
        }),
{
    let mut current: u64 = 0;
    let mut peak: u64 = 0;
    let mut capacity: u64 = 0;
    let mut i: usize = 0;
    assert(devices@.take(0) =~= Seq::<DeviceMemory>::empty());
    while i < devices.len()
        invariant
            i <= devices@.len(),
            bytes_sum(devices@, 0) <= u64::MAX,
            bytes_sum(devices@, 1) <= u64::MAX,
            bytes_sum(devices@, 2) <= u64::MAX,
            current == bytes_sum(devices@.take(i as int), 0),
            peak == bytes_sum(devices@.take(i as int), 1),
            capacity == bytes_sum(devices@.take(i as int), 2),
        decreases devices@.len() - i,
    {
        assert(devices@.take(i + 1).drop_last() =~= devices@.take(i as int));
        assert(devices@.take(i + 1).last() == devices@[i as int]);
        proof {
            lemma_bytes_sum_prefix(devices@, i + 1, 0);
            lemma_bytes_sum_prefix(devices@, i + 1, 1);
            lemma_bytes_sum_prefix(devices@, i + 1, 2);
        }
        current = current + devices[i].current_bytes;
        peak = peak + devices[i].peak_bytes;
        capacity = capacity + devices[i].total_bytes;
        i = i + 1;
    }
    assert(devices@.take(devices@.len() as int) =~= devices@);
    MemoryTotals { current, peak, capacity, headroom: capacity.saturating_sub(current) }
}

/// The samples of one device: its id and rank match.
pub open spec fn device_points(s: Seq<MemoryPoint>, device: DeviceMemory) -> Seq<MemoryPoint>
    decreases s.len(),
{
    if s.len() == 0 {
        seq![]
    } else if s.last().device_id == device.device_id && s.last().rank == device.rank {
        device_points(s.drop_last(), device).push(s.last())
    } else {
        device_points(s.drop_last(), device)
    }
}

/// Inserts a sample after every sample taken no later.
pub open spec fn insert_by_time(s: Seq<MemoryPoint>, x: MemoryPoint) -> Seq<MemoryPoint>
    decreases s.len(),
{
    if s.len() == 0 {
        seq![x]
    } else if x.ts < s[0].ts {
        seq![x] + s
    } else {
        seq![s[0]] + insert_by_time(s.drop_first(), x)
    }
}

/// The samples sorted stably by time.
pub open spec fn time_order(s: Seq<MemoryPoint>) -> Seq<MemoryPoint>
    decreases s.len(),
{
    if s.len() == 0 {
        seq![]
    } else {
        insert_by_time(time_order(s.drop_last()), s.last())
    }
}

proof fn lemma_insert_by_time(s: Seq<MemoryPoint>, x: MemoryPoint, p: int)
    requires
        0 <= p <= s.len(),
        forall|j: int| 0 <= j < p ==> !(x.ts < (#[trigger] s[j]).ts),
        p < s.len() ==> x.ts < s[p].ts,
    ensures
        insert_by_time(s, x) == s.insert(p, x),
    decreases p,
{
    if p == 0 {
        if s.len() == 0 {
            assert(s.insert(0, x) =~= seq![x]);
        } else {
            assert(s.insert(0, x) =~= seq![x] + s);
        }
    } else {
        let rest = s.drop_first();
        assert forall|j: int| 0 <= j < p - 1 implies !(x.ts < (#[trigger] rest[j]).ts) by {
            assert(rest[j] == s[j + 1]);
        }
        if p - 1 < rest.len() {
            assert(rest[p - 1] == s[p]);
        }
        lemma_insert_by_time(rest, x, p - 1);
        assert(s.insert(p, x) =~= seq![s[0]] + rest.insert(p - 1, x));
    }
}

fn copy_point(p: &MemoryPoint) -> (r: MemoryPoint)
    ensures
        r == *p,
{
    MemoryPoint { rank: p.rank, device_id: p.device_id, ts: p.ts, used_bytes: p.used_bytes, total_bytes: p.total_bytes }
}

/// The timeline of the selected device: its samples, by time, samples of
/// the same instant in the order returned.
pub fn device_timeline(points: &Vec<MemoryPoint>, device: &DeviceMemory) -> (r: Vec<MemoryPoint>)
    ensures
        r@ == time_order(device_points(points@, *device)),
{
    let mut mine: Vec<MemoryPoint> = Vec::new();
    let mut i: usize = 0;
    assert(points@.take(0) =~= Seq::<MemoryPoint>::empty());
    while i < points.len()
        invariant
            i <= points@.len(),
            mine@ == device_points(points@.take(i as int), *device),
        decreases points@.len() - i,
    {
        assert(points@.take(i + 1).drop_last() =~= points@.take(i as int));
        assert(points@.take(i + 1).last() == points@[i as int]);
        if points[i].device_id == device.device_id && points[i].rank == device.rank {
            mine.push(copy_point(&points[i]));
        }
        i = i + 1;
    }
    assert(points@.take(points@.len() as int) =~= points@);
    let ghost group = mine@;
    let mut sorted: Vec<MemoryPoint> = Vec::new();
    let mut k: usize = 0;
    assert(group.take(0) =~= Seq::<MemoryPoint>::empty());
    while k < mine.len()
        invariant
            k <= mine@.len(),
            mine@ == group,
            sorted@ == time_order(group.take(k as int)),
        decreases mine@.len() - k,
    {
        let x = copy_point(&mine[k]);
        let mut p: usize = 0;
        while p < sorted.len() && !(x.ts < sorted[p].ts)
            invariant
                p <= sorted@.len(),
                forall|j: int| 0 <= j < p ==> !(x.ts < (#[trigger] sorted@[j]).ts),
            decreases sorted@.len() - p,
        {
            p = p + 1;
        }
        proof {
            lemma_insert_by_time(sorted@, x, p as int);
            assert(group.take(k + 1).drop_last() =~= group.take(k as int));
            assert(group.take(k + 1).last() == x);
        }
        sorted.insert(p, x);
        k = k + 1;
    }
    assert(group.take(group.len() as int) =~= group);
    sorted
}

/// What the timeline says when it has nothing to draw: that no device is
/// selected, or that the pinned device has no sample, or that the selected
/// device has none in the window.
pub fn timeline_notice(device: Option<&DeviceMemory>, mismatch_detail: &Option<String>, window_minutes: usize) -> (r: (String, String))
    ensures
        device is None ==> r.0@ == (if mismatch_detail is Some { "No matching device sample"@ } else { "Select a device"@ })
            && r.1@ == (match mismatch_detail {
                Some(d) => d@,
                None => "Choose a device in the physical map to inspect its sampled timeline."@,
            }),
        device matches Some(d) ==> r.0@ == "No samples for the selected device"@ && r.1@ == "No GPU "@
            + int_text(d.device_id as int) + " samples were returned inside the "@ + nat_text(
            window_minutes as nat,
        ) + " minute window."@,
{
    match device {
        None => {
            let label = if mismatch_detail.is_some() {
                owned("No matching device sample")
            } else {
                owned("Select a device")
            };
            let detail = match mismatch_detail {
                Some(d) => d.clone(),
                None => owned("Choose a device in the physical map to inspect its sampled timeline."),
            };
            (label, detail)
        },
        Some(d) => {
            let mut detail = owned("No GPU ");
            detail.append(i32_text(d.device_id).as_str());
            detail.append(" samples were returned inside the ");
            detail.append(usize_text(window_minutes).as_str());
            detail.append(" minute window.");
            (owned("No samples for the selected device"), detail)
        },
    }
}

} // verus!
