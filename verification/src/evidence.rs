//! Shared request/receipt contract for evidence rendered by Next pages.
//!
//! A page may issue several requests, but all requests triggered by one
//! refresh carry the same [`EvidenceRequest`]. Receipts preserve scope,
//! freshness, partial failures, and whether pinned investigation coordinates
//! actually matched the returned data.

use vstd::prelude::*;

use crate::api::StepMatrixResponse;
use crate::clock::now_ms;
use crate::context::{summary_text, InvestigationContext};
use crate::snapshot::{unavailable, unavailable_text};
use crate::text::{
    fixed_text, fixed_text_exec, i32_text, i64_text, int_text, join, join_seq, lemma_views_push,
    nat_text, owned, u64_text, usize_text, views,
};

verus! {

#[derive(Clone, Copy, Debug, PartialEq, Eq, Structural)]
pub enum EvidenceScope {
    LocalProcess,
    ClusterRegistry,
    ClusterFanout,
}

pub open spec fn scope_label(s: EvidenceScope) -> &'static str {
    match s {
        EvidenceScope::LocalProcess => "local process",
        EvidenceScope::ClusterRegistry => "cluster registry",
        EvidenceScope::ClusterFanout => "cluster fan-out",
    }
}

impl EvidenceScope {
    /// The human label of the scope.
    pub fn label(self) -> (r: &'static str)
        ensures
            r == scope_label(self),
    {
        match self {
            EvidenceScope::LocalProcess => "local process",
            EvidenceScope::ClusterRegistry => "cluster registry",
            EvidenceScope::ClusterFanout => "cluster fan-out",
        }
    }
}

#[derive(Clone, Copy, Debug, PartialEq, Eq, Structural)]
pub enum ContextMatch {
    /// No rank/host/device/span/step coordinate was requested.
    Unpinned,
    /// The returned evidence contains the requested coordinate.
    Matched,
    /// The coordinate is valid but cannot be observed in the selected scope.
    OutOfScope,
    /// The selected scope was searched and returned no matching evidence.
    NoMatch,
}

#[derive(Clone, Debug, PartialEq)]
pub struct EvidenceRequest {
    pub refresh_epoch: u64,
    pub requested_at_ms: u64,
    pub scope: EvidenceScope,
    pub window_us: Option<u64>,
    pub context: InvestigationContext,
}

/// How pinned coordinates relate to evidence that did (`matched`) or did not
/// contain them: nothing pinned, matched, out of the local scope, or searched
/// without a match.
pub open spec fn context_match_of(
    context: InvestigationContext,
    scope: EvidenceScope,
    matched: bool,
) -> ContextMatch {
    if crate::context::context_empty(context) {
        ContextMatch::Unpinned
    } else if matched {
        ContextMatch::Matched
    } else if scope == EvidenceScope::LocalProcess {
        ContextMatch::OutOfScope
    } else {
        ContextMatch::NoMatch
    }
}

impl EvidenceRequest {
    /// A request of one refresh, stamped with the current time.
    pub fn new(
        refresh_epoch: u64,
        scope: EvidenceScope,
        window_us: Option<u64>,
        context: InvestigationContext,
    ) -> (r: Self)
        ensures
            r.refresh_epoch == refresh_epoch,
            r.scope == scope,
            r.window_us == window_us,
            r.context == context,
    {
        EvidenceRequest { refresh_epoch, requested_at_ms: now_ms(), scope, window_us, context }
    }

    /// How the pinned coordinates relate to the returned evidence.
    pub fn context_match(&self, matched: bool) -> (r: ContextMatch)
        ensures
            r == context_match_of(self.context, self.scope, matched),
    {
        if self.context.is_empty() {
            ContextMatch::Unpinned
        } else if matched {
            ContextMatch::Matched
        } else if self.scope == EvidenceScope::LocalProcess {
            ContextMatch::OutOfScope
        } else {
            ContextMatch::NoMatch
        }
    }

    /// The same refresh, time stamp and coordinates in another scope and window.
    pub fn for_scope(&self, scope: EvidenceScope, window_us: Option<u64>) -> (r: Self)
        ensures
            r == (EvidenceRequest { scope, window_us, ..*self }),
    {
        EvidenceRequest {
            refresh_epoch: self.refresh_epoch,
            requested_at_ms: self.requested_at_ms,
            scope,
            window_us,
            context: self.context.copied(),
        }
    }
}

#[derive(Clone, Copy, Debug, PartialEq, Eq)]
pub struct EvidenceReceipt {
    pub source: &'static str,
    pub refresh_epoch: u64,
    pub collected_at_ms: u64,
    pub scope: EvidenceScope,
    pub rows: usize,
    pub peers_queried: usize,
    pub failed_peers: usize,
    pub partial: bool,
    pub context_match: ContextMatch,
}

impl EvidenceReceipt {
    /// The receipt of evidence read from the local process: one peer, no
    /// failure, complete.
    pub fn local(source: &'static str, request: &EvidenceRequest, rows: usize) -> (r: Self)
        ensures
            r.source == source,
            r.refresh_epoch == request.refresh_epoch,
            r.scope == request.scope,
            r.rows == rows,
            r.peers_queried == 1,
            r.failed_peers == 0,
            !r.partial,
            r.context_match == ContextMatch::Unpinned,
    {
        EvidenceReceipt {
            source,
            refresh_epoch: request.refresh_epoch,
            collected_at_ms: now_ms(),
            scope: request.scope,
            rows,
            peers_queried: 1,
            failed_peers: 0,
            partial: false,
            context_match: ContextMatch::Unpinned,
        }
    }

    /// The receipt of evidence gathered from several peers.
    pub fn cluster(
        source: &'static str,
        request: &EvidenceRequest,
        rows: usize,
        peers_queried: usize,
        failed_peers: usize,
        partial: bool,
    ) -> (r: Self)
        ensures
            r.source == source,
            r.refresh_epoch == request.refresh_epoch,
            r.scope == request.scope,
            r.rows == rows,
            r.peers_queried == peers_queried,
            r.failed_peers == failed_peers,
            r.partial == partial,
            r.context_match == ContextMatch::Unpinned,
    {
        EvidenceReceipt {
            source,
            refresh_epoch: request.refresh_epoch,
            collected_at_ms: now_ms(),
            scope: request.scope,
            rows,
            peers_queried,
            failed_peers,
            partial,
            context_match: ContextMatch::Unpinned,
        }
    }

    /// The same receipt with another context match.
    pub fn with_context_match(self, context_match: ContextMatch) -> (r: Self)
        ensures
            r == (EvidenceReceipt { context_match, ..self }),
    {
        let mut receipt = self;
        receipt.context_match = context_match;
        receipt
    }
}

/// A successful value and the receipt that defines how it was collected.
///
/// Pages render `value`; Agent context is built from the same payload instead
/// of issuing a second query at a different sampling instant.
#[derive(Clone, Debug, PartialEq)]
pub struct EvidencePayload<T> {
    pub value: T,
    pub receipt: EvidenceReceipt,
}

impl<T> EvidencePayload<T> {
    pub fn new(value: T, receipt: EvidenceReceipt) -> (r: Self)
        ensures
            r.value == value,
            r.receipt == receipt,
    {
        EvidencePayload { value, receipt }
    }
}

pub open spec fn bool_text(b: bool) -> Seq<char> {
    if b {
        "true"@
    } else {
        "false"@
    }
}

pub fn bool_str(b: bool) -> (r: &'static str)
    ensures
        r@ == bool_text(b),
{
    if b {
        "true"
    } else {
        "false"
    }
}

/// The header line of one receipt in a rendered bundle.
pub open spec fn receipt_text(r: EvidenceReceipt) -> Seq<char> {
    "["@ + r.source@ + " · "@ + scope_label(r.scope)@ + " · rows="@ + nat_text(r.rows as nat)
        + " · peers="@ + nat_text(r.peers_queried as nat) + " · failed="@ + nat_text(
        r.failed_peers as nat,
    ) + " · partial="@ + bool_text(r.partial) + " · collected_at_ms="@ + nat_text(
        r.collected_at_ms as nat,
    ) + "]\n"@
}

/// A receipt followed by the preview of its payload.
pub open spec fn entry_text(e: (EvidenceReceipt, Seq<char>)) -> Seq<char> {
    receipt_text(e.0) + e.1
}

#[derive(Clone, Debug)]
struct EvidenceEntry {
    receipt: EvidenceReceipt,
    preview: String,
}

/// Page-level evidence assembled from the payloads used by the visible UI.
#[derive(Clone, Debug)]
pub struct EvidenceBundle {
    page_id: &'static str,
    refresh_epoch: u64,
    requested_at_ms: u64,
    context: InvestigationContext,
    entries: Vec<EvidenceEntry>,
    failures: Vec<String>,
}

/// What a bundle holds: its page, refresh, request time and coordinates, the
/// receipts with their previews, and the failure notes, in order.
pub struct BundleView {
    pub page_id: Seq<char>,
    pub refresh_epoch: u64,
    pub requested_at_ms: u64,
    pub context: InvestigationContext,
    pub entries: Seq<(EvidenceReceipt, Seq<char>)>,
    pub failures: Seq<Seq<char>>,
}

impl View for EvidenceBundle {
    type V = BundleView;

    closed spec fn view(&self) -> BundleView {
        BundleView {
            page_id: self.page_id@,
            refresh_epoch: self.refresh_epoch,
            requested_at_ms: self.requested_at_ms,
            context: self.context,
            entries: self.entries@.map_values(|e: EvidenceEntry| (e.receipt, e.preview@)),
            failures: views(self.failures@),
        }
    }
}

/// The first block of a rendered bundle.
pub open spec fn bundle_header(b: BundleView) -> Seq<char> {
    "[next evidence]\npage="@ + b.page_id + " · refresh="@ + nat_text(b.refresh_epoch as nat)
        + " · requested_at_ms="@ + nat_text(b.requested_at_ms as nat) + " · context="@
        + summary_text(b.context)
}

/// The rendered bundle: its header, each receipt with its preview, then each
/// failure, separated by blank lines.
pub open spec fn bundle_text(b: BundleView) -> Seq<char> {
    join_seq(
        seq![bundle_header(b)] + b.entries.map_values(|e: (EvidenceReceipt, Seq<char>)| entry_text(e))
            + b.failures,
        "\n\n"@,
    )
}

fn receipt_header(receipt: &EvidenceReceipt) -> (r: String)
    ensures
        r@ == receipt_text(*receipt),
{
    proof {
        reveal_strlit("[");
        reveal_strlit(" · ");
        reveal_strlit(" · rows=");
        reveal_strlit(" · peers=");
        reveal_strlit(" · failed=");
        reveal_strlit(" · partial=");
        reveal_strlit(" · collected_at_ms=");
        reveal_strlit("]\n");
    }
    let mut s = String::from_str("[");
    s.append(receipt.source);
    s.append(" · ");
    s.append(receipt.scope.label());
    s.append(" · rows=");
    s.append(usize_text(receipt.rows).as_str());
    s.append(" · peers=");
    s.append(usize_text(receipt.peers_queried).as_str());
    s.append(" · failed=");
    s.append(usize_text(receipt.failed_peers).as_str());
    s.append(" · partial=");
    s.append(bool_str(receipt.partial));
    s.append(" · collected_at_ms=");
    s.append(u64_text(receipt.collected_at_ms).as_str());
    s.append("]\n");
    s
}

impl EvidenceBundle {
    /// An empty bundle of one page and refresh.
    pub fn new(page_id: &'static str, request: &EvidenceRequest) -> (r: Self)
        ensures
            r@.page_id == page_id@,
            r@.refresh_epoch == request.refresh_epoch,
            r@.requested_at_ms == request.requested_at_ms,
            r@.context == request.context,
            r@.entries.len() == 0,
            r@.failures.len() == 0,
    {
        let b = EvidenceBundle {
            page_id,
            refresh_epoch: request.refresh_epoch,
            requested_at_ms: request.requested_at_ms,
            context: request.context.copied(),
            entries: Vec::new(),
            failures: Vec::new(),
        };
        assert(b@.entries =~= Seq::<(EvidenceReceipt, Seq<char>)>::empty());
        assert(b@.failures =~= Seq::<Seq<char>>::empty());
        b
    }

    /// Appends a receipt and the preview of its payload.
    pub fn push(&mut self, receipt: &EvidenceReceipt, preview: String)
        ensures
            final(self)@.entries == old(self)@.entries.push((*receipt, preview@)),
            final(self)@.failures == old(self)@.failures,
            final(self)@.page_id == old(self)@.page_id,
            final(self)@.refresh_epoch == old(self)@.refresh_epoch,
            final(self)@.requested_at_ms == old(self)@.requested_at_ms,
            final(self)@.context == old(self)@.context,
    {
        self.entries.push(EvidenceEntry { receipt: *receipt, preview });
        assert(self@.entries =~= old(self)@.entries.push((*receipt, preview@)));
    }

    /// Appends the note of a source that could not be read.
    pub fn push_failure(&mut self, source: &str, detail: &str)
        ensures
            final(self)@.failures == old(self)@.failures.push(unavailable_text(source@, detail@)),
            final(self)@.entries == old(self)@.entries,
            final(self)@.page_id == old(self)@.page_id,
            final(self)@.refresh_epoch == old(self)@.refresh_epoch,
            final(self)@.requested_at_ms == old(self)@.requested_at_ms,
            final(self)@.context == old(self)@.context,
    {
        let note = unavailable(source, detail);
        self.failures.push(note);
        assert(self@.failures =~= old(self)@.failures.push(unavailable_text(source@, detail@)));
    }

    /// The bundle as text for the Investigate panel.
    pub fn render(&self) -> (r: String)
        ensures
            r@ == bundle_text(self@),
    {
        proof {
            reveal_strlit("[next evidence]\npage=");
            reveal_strlit(" · refresh=");
            reveal_strlit(" · requested_at_ms=");
            reveal_strlit(" · context=");
            reveal_strlit("\n\n");
        }
        let context = self.context.coordinates_summary();
        let mut header = String::from_str("[next evidence]\npage=");
        header.append(self.page_id);
        header.append(" · refresh=");
        header.append(u64_text(self.refresh_epoch).as_str());
        header.append(" · requested_at_ms=");
        header.append(u64_text(self.requested_at_ms).as_str());
        header.append(" · context=");
        header.append(context.as_str());
        let ghost b = self@;
        let ghost ents = b.entries.map_values(|e: (EvidenceReceipt, Seq<char>)| entry_text(e));
        let mut parts: Vec<String> = Vec::new();
        parts.push(header);
        assert(views(parts@) =~= seq![bundle_header(b)]);
        let mut i: usize = 0;
        while i < self.entries.len()
            invariant
                b == self@,
                i <= self.entries@.len(),
                ents.len() == self.entries@.len(),
                ents == b.entries.map_values(|e: (EvidenceReceipt, Seq<char>)| entry_text(e)),
                views(parts@) == seq![bundle_header(b)] + ents.take(i as int),
            decreases self.entries@.len() - i,
        {
            let entry = &self.entries[i];
            let mut text = receipt_header(&entry.receipt);
            text.append(entry.preview.as_str());
            proof {
                assert(b.entries[i as int] == (entry.receipt, entry.preview@));
                assert(ents[i as int] == entry_text(b.entries[i as int]));
            }
            let ghost before = parts@;
            parts.push(text);
            proof {
                lemma_views_push(before, text);
            }
            i = i + 1;
            assert(views(parts@) =~= seq![bundle_header(b)] + ents.take(i as int));
        }
        assert(ents.take(self.entries@.len() as int) =~= ents);
        let mut j: usize = 0;
        while j < self.failures.len()
            invariant
                b == self@,
                j <= self.failures@.len(),
                b.failures == views(self.failures@),
                views(parts@) == seq![bundle_header(b)] + ents + b.failures.take(j as int),
            decreases self.failures@.len() - j,
        {
            let ghost before = parts@;
            let f = self.failures[j].clone();
            assert(f@ == b.failures[j as int]);
            parts.push(f);
            proof {
                lemma_views_push(before, f);
            }
            j = j + 1;
            assert(views(parts@) =~= seq![bundle_header(b)] + ents + b.failures.take(j as int));
        }
        assert(b.failures.take(self.failures@.len() as int) =~= b.failures);
        join(&parts, "\n\n")
    }
}

/// One value of a data frame column. Floating-point values are carried as
/// the integer `value × 10^4`, i.e. the four fractional digits with which the
/// preview prints them.
#[derive(Clone, Debug, PartialEq, Eq)]
pub enum Cell {
    Nil,
    Bool(bool),
    I32(i32),
    I64(i64),
    F32(i64),
    F64(i64),
    Text(String),
    Url(String),
    DataTime(u64),
}

/// A column-major table: the column names and the values of each column.
/// The table has as many rows as its first column; a column shorter than
/// that reads as `Nil` past its end.
#[derive(Clone, Debug, PartialEq, Eq)]
pub struct DataFrame {
    pub names: Vec<String>,
    pub cols: Vec<Vec<Cell>>,
}

pub open spec fn frame_rows(d: DataFrame) -> nat {
    if d.cols@.len() == 0 {
        0
    } else {
        d.cols@[0]@.len()
    }
}

/// The value at a row of a column, `Nil` past its end.
pub open spec fn cell_at(col: Seq<Cell>, row: int) -> Cell {
    if 0 <= row < col.len() {
        col[row]
    } else {
        Cell::Nil
    }
}

/// How a value reads in a preview.
pub open spec fn cell_text(c: Cell) -> Seq<char> {
    match c {
        Cell::Nil => "—"@,
        Cell::Bool(b) => bool_text(b),
        Cell::I32(v) => int_text(v as int),
        Cell::I64(v) => int_text(v as int),
        Cell::F32(v) => fixed_text(v as int, 4),
        Cell::F64(v) => fixed_text(v as int, 4),
        Cell::Text(s) => s@,
        Cell::Url(s) => s@,
        Cell::DataTime(v) => nat_text(v as nat),
    }
}

/// One row of a preview: the cells of every column, tab-separated.
pub open spec fn row_text(cols: Seq<Vec<Cell>>, row: int) -> Seq<char> {
    join_seq(cols.map_values(|c: Vec<Cell>| cell_text(cell_at(c@, row))), "\t"@)
}

/// The lines of a preview of at most `max_rows` rows: the names, the rows,
/// and how many rows were left out.
pub open spec fn preview_lines(d: DataFrame, max_rows: nat) -> Seq<Seq<char>> {
    let rows = frame_rows(d);
    let take = if rows < max_rows {
        rows
    } else {
        max_rows
    };
    seq![join_seq(views(d.names@), "\t"@)] + Seq::new(take, |r: int| row_text(d.cols@, r)) + (
    if rows > take {
        seq!["… +"@ + nat_text((rows - take) as nat) + " rows"@]
    } else {
        seq![]
    })
}

pub open spec fn preview_text(d: DataFrame, max_rows: nat) -> Seq<char> {
    if frame_rows(d) == 0 || d.names@.len() == 0 {
        "(empty)"@
    } else {
        join_seq(preview_lines(d, max_rows), "\n"@)
    }
}

impl DataFrame {
    /// The number of rows: the length of the first column.
    pub fn row_count(&self) -> (r: usize)
        ensures
            r == frame_rows(*self),
    {
        if self.cols.len() == 0 {
            0
        } else {
            self.cols[0].len()
        }
    }
}

/// How a value reads in a preview.
pub fn evidence_cell(value: &Cell) -> (r: String)
    ensures
        r@ == cell_text(*value),
{
    match value {
        Cell::Nil => {
            proof {
                reveal_strlit("—");
            }
            owned("—")
        },
        Cell::Bool(b) => owned(bool_str(*b)),
        Cell::I32(v) => i32_text(*v),
        Cell::I64(v) => i64_text(*v),
        Cell::F32(v) => fixed_text_exec(*v, 4),
        Cell::F64(v) => fixed_text_exec(*v, 4),
        Cell::Text(s) => s.clone(),
        Cell::Url(s) => s.clone(),
        Cell::DataTime(v) => u64_text(*v),
    }
}

fn preview_row(cols: &Vec<Vec<Cell>>, row: usize) -> (r: String)
    ensures
        r@ == row_text(cols@, row as int),
{
    let mut cells: Vec<String> = Vec::new();
    let ghost target = cols@.map_values(|c: Vec<Cell>| cell_text(cell_at(c@, row as int)));
    let mut k: usize = 0;
    while k < cols.len()
        invariant
            k <= cols@.len(),
            target.len() == cols@.len(),
            target == cols@.map_values(|c: Vec<Cell>| cell_text(cell_at(c@, row as int))),
            views(cells@) == target.take(k as int),
        decreases cols@.len() - k,
    {
        let col = &cols[k];
        let text = if row < col.len() {
            evidence_cell(&col[row])
        } else {
            evidence_cell(&Cell::Nil)
        };
        assert(text@ == target[k as int]);
        let ghost before = cells@;
        cells.push(text);
        proof {
            lemma_views_push(before, text);
        }
        k = k + 1;
        assert(views(cells@) =~= target.take(k as int));
    }
    assert(target.take(cols@.len() as int) =~= target);
    proof {
        reveal_strlit("\t");
    }
    join(&cells, "\t")
}

/// A tab-separated preview of the first `max_rows` rows of a table, with the
/// column names first and a count of the rows left out; `(empty)` for a
/// table without rows or columns.
pub fn dataframe_preview(dataframe: &DataFrame, max_rows: usize) -> (r: String)
    ensures
        r@ == preview_text(*dataframe, max_rows as nat),
{
    let rows = dataframe.row_count();
    if rows == 0 || dataframe.names.len() == 0 {
        proof {
            reveal_strlit("(empty)");
        }
        return owned("(empty)");
    }
    let take = if rows < max_rows {
        rows
    } else {
        max_rows
    };
    let ghost lines = preview_lines(*dataframe, max_rows as nat);
    let mut out: Vec<String> = Vec::new();
    proof {
        reveal_strlit("\t");
    }
    let names = join(&dataframe.names, "\t");
    out.push(names);
    assert(views(out@) =~= seq![names@]);
    let mut row: usize = 0;
    while row < take
        invariant
            row <= take,
            take <= rows,
            rows == frame_rows(*dataframe),
            take == (if rows < max_rows {
                rows
            } else {
                max_rows
            }),
            lines == preview_lines(*dataframe, max_rows as nat),
            views(out@) == lines.take(row + 1),
        decreases take - row,
    {
        let text = preview_row(&dataframe.cols, row);
        assert(lines[row + 1] == row_text(dataframe.cols@, row as int));
        let ghost before = out@;
        out.push(text);
        proof {
            lemma_views_push(before, text);
        }
        row = row + 1;
        assert(views(out@) =~= lines.take(row + 1));
    }
    if rows > take {
        proof {
            reveal_strlit("… +");
            reveal_strlit(" rows");
        }
        let mut note = String::from_str("… +");
        note.append(usize_text(rows - take).as_str());
        note.append(" rows");
        let ghost before = out@;
        out.push(note);
        proof {
            lemma_views_push(before, note);
        }
    }
    assert(views(out@) =~= lines);
    proof {
        reveal_strlit("\n");
    }
    join(&out, "\n")
}

/// The payload of a step matrix: a cluster receipt with the matrix's fan-out
/// when it was gathered across the cluster, a local receipt otherwise; one
/// row per sample either way.
pub fn step_matrix_payload(matrix: StepMatrixResponse, request: &EvidenceRequest) -> (r:
    EvidencePayload<StepMatrixResponse>)
    ensures
        r.value == matrix,
        r.receipt.source == "train.step",
        r.receipt.refresh_epoch == request.refresh_epoch,
        r.receipt.scope == request.scope,
        r.receipt.rows == matrix.samples@.len(),
        r.receipt.peers_queried == (if matrix.cluster {
            matrix.nodes_queried
        } else {
            1
        }),
        r.receipt.failed_peers == (if matrix.cluster {
            matrix.nodes_failed@.len()
        } else {
            0
        }),
        r.receipt.partial == (matrix.cluster && matrix.partial),
        r.receipt.context_match == ContextMatch::Unpinned,
{
    let rows = matrix.samples.len();
    let receipt = if matrix.cluster {
        EvidenceReceipt::cluster(
            "train.step",
            request,
            rows,
            matrix.nodes_queried,
            matrix.nodes_failed.len(),
            matrix.partial,
        )
    } else {
        EvidenceReceipt::local("train.step", request, rows)
    };
    EvidencePayload::new(matrix, receipt)
}

/// The payload of a query gathered across the cluster, with its fan-out.
pub fn cluster_dataframe_payload(
    source: &'static str,
    request: &EvidenceRequest,
    dataframe: DataFrame,
    peers_queried: usize,
    failed_peers: usize,
    partial: bool,
) -> (r: EvidencePayload<DataFrame>)
    ensures
        r.value == dataframe,
        r.receipt.source == source,
        r.receipt.refresh_epoch == request.refresh_epoch,
        r.receipt.scope == request.scope,
        r.receipt.rows == frame_rows(dataframe),
        r.receipt.peers_queried == peers_queried,
        r.receipt.failed_peers == failed_peers,
        r.receipt.partial == partial,
        r.receipt.context_match == ContextMatch::Unpinned,
{
    let rows = dataframe.row_count();
    let receipt = EvidenceReceipt::cluster(source, request, rows, peers_queried, failed_peers, partial);
    EvidencePayload::new(dataframe, receipt)
}

} // verus!
