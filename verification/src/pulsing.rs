//! The pulsing page: operation latency per actor and operation from the
//! returned spans, explicit errors, and the counts of returned rows.
//! Durations are ten-thousandths of a microsecond, the unit in which a
//! table's float cells are held.

use vstd::prelude::*;

use crate::capabilities::{column_index, find_column};
use crate::evidence::{cell_at, frame_rows, Cell, DataFrame};
use crate::health::{percentile_index, percentile_position};
use crate::investigate::strip_end;
use crate::text::{
    chars_of, int_text, i32_text, i64_text, lemma_text_less_irreflexive,
    lemma_text_less_total, lemma_text_less_transitive, lemma_views_push, lower_chars, lower_seq,
    nat_text, owned, padded_text, padded_u64_text, push_char, str_eq, text_less, text_lt,
    trim_seq, trimmed, u64_text, usize_text, views,
};

verus! {

/// A non-negative value held in ten-thousandths, as `f64::to_string`
/// writes it: the whole part, then the fraction without trailing zeros.
pub open spec fn unsigned_fixed_text(u: nat) -> Seq<char> {
    if u % 10000 == 0 {
        nat_text(u / 10000)
    } else {
        nat_text(u / 10000) + "."@ + strip_end(padded_text(u % 10000, 4), '0')
    }
}

/// A value held in ten-thousandths, as `f64::to_string` writes it.
pub open spec fn fixed_float_text(v: int) -> Seq<char> {
    if v < 0 {
        "-"@ + unsigned_fixed_text((-v) as nat)
    } else {
        unsigned_fixed_text(v as nat)
    }
}

fn strip_zeros(s: String) -> (r: String)
    ensures
        r@ == strip_end(s@, '0'),
{
    let c = chars_of(s.as_str());
    let mut end: usize = c.len();
    assert(c@.subrange(0, c@.len() as int) =~= c@);
    while end > 0 && c[end - 1] == '0'
        invariant
            end <= c@.len(),
            strip_end(s@, '0') == strip_end(c@.subrange(0, end as int), '0'),
            c@ == s@,
        decreases end,
    {
        assert(c@.subrange(0, end as int).drop_last() =~= c@.subrange(0, end - 1));
        end = end - 1;
    }
    let mut r = String::new();
    let mut k: usize = 0;
    while k < end
        invariant
            k <= end <= c@.len(),
            r@ == c@.subrange(0, k as int),
        decreases end - k,
    {
        push_char(&mut r, c[k]);
        assert(r@ =~= c@.subrange(0, k + 1));
        k = k + 1;
    }
    r
}

fn unsigned_fixed(u: u64) -> (r: String)
    ensures
        r@ == unsigned_fixed_text(u as nat),
{
    proof {
        reveal_strlit(".");
    }
    let whole = u / 10000;
    let frac = u % 10000;
    let mut s = u64_text(whole);
    if frac != 0 {
        s.append(".");
        s.append(strip_zeros(padded_u64_text(frac, 4)).as_str());
    }
    s
}

/// A float cell's value as text.
fn fixed_float(v: i64) -> (r: String)
    ensures
        r@ == fixed_float_text(v as int),
{
    proof {
        reveal_strlit("-");
    }
    if v < 0 {
        let mut s = owned("-");
        let m: u64 = ((0 - (v + 1)) as u64) + 1;
        s.append(unsigned_fixed(m).as_str());
        s
    } else {
        unsigned_fixed(v as u64)
    }
}

/// The text a cell shows: text as it is, numbers as they are written.
pub open spec fn cell_text_value(c: Cell) -> Seq<char> {
    match c {
        Cell::Text(s) => s@,
        Cell::I64(v) => int_text(v as int),
        Cell::I32(v) => int_text(v as int),
        Cell::F64(v) => fixed_float_text(v as int),
        Cell::F32(v) => fixed_float_text(v as int),
        _ => seq![],
    }
}

/// The duration a cell reports, in ten-thousandths of a microsecond.
pub open spec fn cell_duration(c: Cell) -> Option<int> {
    match c {
        Cell::I64(v) => Some(v * 10000),
        Cell::I32(v) => Some(v * 10000),
        Cell::F64(v) => Some(v as int),
        Cell::F32(v) => Some(v as int),
        _ => None,
    }
}

/// The span status counts as an error when it reads `error`, ASCII case
/// ignored, or `2` once trimmed.
pub open spec fn explicit_error(status: Seq<char>) -> bool {
    lower_seq(status) == "error"@ || trim_seq(status) == "2"@
}

/// Whether a span status is an explicit error.
pub fn explicit_error_status(status: &str) -> (r: bool)
    ensures
        r == explicit_error(status@),
{
    proof {
        reveal_strlit("error");
        reveal_strlit("2");
    }
    let lowered = lower_chars(status);
    let wanted = chars_of("error");
    let mut same = lowered.len() == wanted.len();
    let mut i: usize = 0;
    while same && i < lowered.len()
        invariant
            i <= lowered@.len(),
            same ==> lowered@.len() == wanted@.len(),
            same ==> forall|k: int| 0 <= k < i ==> lowered@[k] == wanted@[k],
            !same ==> lowered@ != wanted@,
        decreases lowered@.len() - i,
    {
        if lowered[i] != wanted[i] {
            same = false;
        }
        i = i + 1;
    }
    if same {
        assert(lowered@ =~= wanted@);
    }
    same || str_eq(trimmed(status).as_str(), "2")
}

/// The columns a span summary reads.
pub open spec fn span_col(d: DataFrame, name: Seq<char>) -> Option<nat> {
    column_index(views(d.names@), name)
}

/// The cell of a row in a found column.
pub open spec fn found_cell(d: DataFrame, col: Option<nat>, row: int) -> Option<Cell> {
    match col {
        Some(c) => Some(cell_at(d.cols@[c as int]@, row)),
        None => None,
    }
}

/// The name a row gives in a column, or the fallback when the column is
/// missing or the name is empty.
pub open spec fn named(c: Option<Cell>, fallback: Seq<char>) -> Seq<char> {
    match c {
        Some(x) => if cell_text_value(x).len() == 0 {
            fallback
        } else {
            cell_text_value(x)
        },
        None => fallback,
    }
}

/// One usable span row: actor, operation, duration and status.
pub struct SpanRow {
    pub actor: Seq<char>,
    pub operation: Seq<char>,
    pub duration: i128,
    pub status: Seq<char>,
}

/// A row is usable when its duration is reported and not negative.
pub open spec fn span_row(d: DataFrame, row: int) -> Option<SpanRow> {
    match found_cell(d, span_col(d, "duration_us"@), row) {
        Some(c) => match cell_duration(c) {
            Some(x) => if x >= 0 {
                Some(
                    SpanRow {
                        actor: named(found_cell(d, span_col(d, "attr_actor_name"@), row), "(unattributed)"@),
                        operation: named(found_cell(d, span_col(d, "name"@), row), "(unnamed)"@),
                        duration: x as i128,
                        status: match found_cell(d, span_col(d, "status_code"@), row) {
                            Some(s) => cell_text_value(s),
                            None => seq![],
                        },
                    },
                )
            } else {
                None
            },
            None => None,
        },
        None => None,
    }
}

/// The usable rows among the first `n`, in row order.
pub open spec fn rows_upto(d: DataFrame, n: nat) -> Seq<SpanRow>
    decreases n,
{
    if n == 0 {
        seq![]
    } else {
        let rest = rows_upto(d, (n - 1) as nat);
        match span_row(d, n - 1) {
            Some(r) => rest.push(r),
            None => rest,
        }
    }
}

/// The columns the summary reads exist in the table.
pub open spec fn columns_present(d: DataFrame) -> bool {
    &&& (span_col(d, "attr_actor_name"@) matches Some(c) ==> c < d.cols@.len())
    &&& (span_col(d, "name"@) matches Some(c) ==> c < d.cols@.len())
    &&& (span_col(d, "duration_us"@) matches Some(c) ==> c < d.cols@.len())
    &&& (span_col(d, "status_code"@) matches Some(c) ==> c < d.cols@.len())
}


fn cell_text(c: &Cell) -> (r: String)
    ensures
        r@ == cell_text_value(*c),
{
    match c {
        Cell::Text(s) => s.clone(),
        Cell::I64(v) => i64_text(*v),
        Cell::I32(v) => i32_text(*v),
        Cell::F64(v) => fixed_float(*v),
        Cell::F32(v) => fixed_float(*v),
        _ => String::new(),
    }
}

fn cell_wide(c: &Cell) -> (r: Option<i128>)
    ensures
        match r {
            Some(x) => cell_duration(*c) == Some(x as int),
            None => cell_duration(*c) is None,
        },
{
    match c {
        Cell::I64(v) => Some((*v as i128) * 10000),
        Cell::I32(v) => Some((*v as i128) * 10000),
        Cell::F64(v) => Some(*v as i128),
        Cell::F32(v) => Some(*v as i128),
        _ => None,
    }
}

/// A usable span row as read.
pub struct ParsedRow {
    pub actor: String,
    pub operation: String,
    pub duration: i128,
    pub status: String,
}

pub open spec fn row_view(r: ParsedRow) -> SpanRow {
    SpanRow { actor: r.actor@, operation: r.operation@, duration: r.duration, status: r.status@ }
}

pub open spec fn rows_view(rs: Seq<ParsedRow>) -> Seq<SpanRow> {
    rs.map_values(|r: ParsedRow| row_view(r))
}

fn found(dataframe: &DataFrame, col: Option<usize>, row: usize) -> (r: Option<&Cell>)
    requires
        col matches Some(c) ==> c < dataframe.cols@.len(),
    ensures
        match col {
            Some(c) => row < dataframe.cols@[c as int]@.len() ==> r == Some(&dataframe.cols@[c as int]@[row as int]),
            None => r is None,
        },
        match col {
            Some(c) => row >= dataframe.cols@[c as int]@.len() ==> r is None,
            None => true,
        },
{
    match col {
        Some(c) => if row < dataframe.cols[c].len() {
            Some(&dataframe.cols[c][row])
        } else {
            None
        },
        None => None,
    }
}

fn named_text(dataframe: &DataFrame, col: Option<usize>, row: usize, fallback: &str) -> (r: String)
    requires
        col matches Some(c) ==> c < dataframe.cols@.len(),
    ensures
        r@ == named(
            found_cell(
                *dataframe,
                match col {
                    Some(c) => Some(c as nat),
                    None => None,
                },
                row as int,
            ),
            fallback@,
        ),
{
    match col {
        Some(c) => {
            let t = if row < dataframe.cols[c].len() {
                cell_text(&dataframe.cols[c][row])
            } else {
                String::new()
            };
            if t.as_str().is_empty() {
                owned(fallback)
            } else {
                t
            }
        },
        None => owned(fallback),
    }
}

fn read_row(dataframe: &DataFrame, cols: &[Option<usize>; 4], row: usize) -> (r: Option<ParsedRow>)
    requires
        columns_present(*dataframe),
        cols[0] == opt_usize(span_col(*dataframe, "attr_actor_name"@)),
        cols[1] == opt_usize(span_col(*dataframe, "name"@)),
        cols[2] == opt_usize(span_col(*dataframe, "duration_us"@)),
        cols[3] == opt_usize(span_col(*dataframe, "status_code"@)),
    ensures
        match r {
            Some(x) => span_row(*dataframe, row as int) == Some(row_view(x)),
            None => span_row(*dataframe, row as int) is None,
        },
{
    let ncols = dataframe.cols.len();
    proof {
        reveal_strlit("(unattributed)");
        reveal_strlit("(unnamed)");
        if let Some(c0) = span_col(*dataframe, "duration_us"@) {
            assert(c0 < ncols);
            assert(cols[2] == Some(c0 as usize));
        }
    }
    let duration = match cols[2] {
        Some(c) => if row < dataframe.cols[c].len() {
            cell_wide(&dataframe.cols[c][row])
        } else {
            None
        },
        None => None,
    };
    let duration = match duration {
        Some(x) => if x >= 0 {
            x
        } else {
            return None;
        },
        None => {
            return None;
        },
    };
    let actor = named_text(dataframe, cols[0], row, "(unattributed)");
    let operation = named_text(dataframe, cols[1], row, "(unnamed)");
    let status = match cols[3] {
        Some(c) => if row < dataframe.cols[c].len() {
            cell_text(&dataframe.cols[c][row])
        } else {
            String::new()
        },
        None => String::new(),
    };
    Some(ParsedRow { actor, operation, duration, status })
}

pub open spec fn opt_usize(v: Option<nat>) -> Option<usize> {
    match v {
        Some(x) => Some(x as usize),
        None => None,
    }
}

fn read_rows(dataframe: &DataFrame) -> (r: Vec<ParsedRow>)
    requires
        columns_present(*dataframe),
    ensures
        rows_view(r@) == rows_upto(*dataframe, frame_rows(*dataframe)),
{
    proof {
        reveal_strlit("attr_actor_name");
        reveal_strlit("name");
        reveal_strlit("duration_us");
        reveal_strlit("status_code");
    }
    let cols: [Option<usize>; 4] = [
        find_column(&dataframe.names, "attr_actor_name"),
        find_column(&dataframe.names, "name"),
        find_column(&dataframe.names, "duration_us"),
        find_column(&dataframe.names, "status_code"),
    ];
    let rows = dataframe.row_count();
    let mut out: Vec<ParsedRow> = Vec::new();
    let mut row: usize = 0;
    while row < rows
        invariant
            rows == frame_rows(*dataframe),
            row <= rows,
            columns_present(*dataframe),
            cols[0] == opt_usize(span_col(*dataframe, "attr_actor_name"@)),
            cols[1] == opt_usize(span_col(*dataframe, "name"@)),
            cols[2] == opt_usize(span_col(*dataframe, "duration_us"@)),
            cols[3] == opt_usize(span_col(*dataframe, "status_code"@)),
            rows_view(out@) == rows_upto(*dataframe, row as nat),
        decreases rows - row,
    {
        match read_row(dataframe, &cols, row) {
            Some(x) => {
                out.push(x);
            },
            None => {},
        }
        assert(rows_view(out@) =~= rows_upto(*dataframe, (row + 1) as nat));
        row = row + 1;
    }
    out
}


/// Actors and operations are ordered by actor, then operation.
pub open spec fn key_less(a: (Seq<char>, Seq<char>), b: (Seq<char>, Seq<char>)) -> bool {
    text_less(a.0, b.0) || (a.0 == b.0 && text_less(a.1, b.1))
}

proof fn lemma_key_order(a: (Seq<char>, Seq<char>), b: (Seq<char>, Seq<char>), c: (Seq<char>, Seq<char>))
    ensures
        !key_less(a, a),
        key_less(a, b) ==> !key_less(b, a),
        a == b || key_less(a, b) || key_less(b, a),
        key_less(a, b) && key_less(b, c) ==> key_less(a, c),
{
    lemma_text_less_irreflexive(a.0);
    lemma_text_less_irreflexive(a.1);
    crate::text::lemma_text_less_asymmetric(a.0, b.0);
    crate::text::lemma_text_less_asymmetric(a.1, b.1);
    lemma_text_less_total(a.0, b.0);
    lemma_text_less_total(a.1, b.1);
    if key_less(a, b) && key_less(b, c) {
        if text_less(a.0, b.0) && text_less(b.0, c.0) {
            lemma_text_less_transitive(a.0, b.0, c.0);
        }
        if text_less(a.1, b.1) && text_less(b.1, c.1) {
            lemma_text_less_transitive(a.1, b.1, c.1);
        }
    }
    if a.0 == b.0 && a.1 == b.1 {
        assert(a == b);
    }
}

/// Inserts a key into a list of keys unless it is there.
pub open spec fn insert_key(l: Seq<(Seq<char>, Seq<char>)>, c: (Seq<char>, Seq<char>)) -> Seq<
    (Seq<char>, Seq<char>),
>
    decreases l.len(),
{
    if l.len() == 0 {
        seq![c]
    } else if key_less(c, l[0]) {
        seq![c] + l
    } else if c == l[0] {
        l
    } else {
        seq![l[0]] + insert_key(l.drop_first(), c)
    }
}

pub open spec fn row_key(r: SpanRow) -> (Seq<char>, Seq<char>) {
    (r.actor, r.operation)
}

/// The actor and operation pairs of the rows, each once, in order.
pub open spec fn key_list(rs: Seq<SpanRow>) -> Seq<(Seq<char>, Seq<char>)>
    decreases rs.len(),
{
    if rs.len() == 0 {
        seq![]
    } else {
        insert_key(key_list(rs.drop_last()), row_key(rs.last()))
    }
}

/// The durations of an actor's operation, in row order.
pub open spec fn key_durations(rs: Seq<SpanRow>, k: (Seq<char>, Seq<char>)) -> Seq<i128>
    decreases rs.len(),
{
    if rs.len() == 0 {
        seq![]
    } else {
        let d = key_durations(rs.drop_last(), k);
        if row_key(rs.last()) == k {
            d.push(rs.last().duration)
        } else {
            d
        }
    }
}

/// How many rows of an actor's operation report an explicit error.
pub open spec fn key_errors(rs: Seq<SpanRow>, k: (Seq<char>, Seq<char>)) -> nat
    decreases rs.len(),
{
    if rs.len() == 0 {
        0
    } else {
        key_errors(rs.drop_last(), k) + if row_key(rs.last()) == k && explicit_error(
            rs.last().status,
        ) {
            1nat
        } else {
            0nat
        }
    }
}

proof fn lemma_insert_key(l: Seq<(Seq<char>, Seq<char>)>, c: (Seq<char>, Seq<char>), p: int)
    requires
        0 <= p <= l.len(),
        forall|j: int| 0 <= j < p ==> key_less(#[trigger] l[j], c),
        p < l.len() ==> !key_less(l[p], c),
    ensures
        insert_key(l, c) == (if p < l.len() && l[p] == c {
            l
        } else {
            l.insert(p, c)
        }),
    decreases p,
{
    if p == 0 {
        if l.len() == 0 {
            assert(l.insert(0, c) =~= seq![c]);
        } else {
            lemma_key_order(l[0], c, c);
            if l[0] != c {
                assert(key_less(c, l[0]));
                assert(l.insert(0, c) =~= seq![c] + l);
            }
        }
    } else {
        let rest = l.drop_first();
        lemma_key_order(l[0], c, c);
        assert(!key_less(c, l[0]));
        assert(c != l[0]);
        assert forall|j: int| 0 <= j < p - 1 implies key_less(#[trigger] rest[j], c) by {
            assert(rest[j] == l[j + 1]);
        }
        if p - 1 < rest.len() {
            assert(rest[p - 1] == l[p]);
        }
        lemma_insert_key(rest, c, p - 1);
        if !(p < l.len() && l[p] == c) {
            assert(l.insert(p, c) =~= seq![l[0]] + rest.insert(p - 1, c));
        } else {
            assert(l =~= seq![l[0]] + rest);
        }
    }
}

proof fn lemma_insert_key_contains(l: Seq<(Seq<char>, Seq<char>)>, c: (Seq<char>, Seq<char>), x: (Seq<char>, Seq<char>))
    ensures
        insert_key(l, c).contains(x) <==> (l.contains(x) || x == c),
    decreases l.len(),
{
    let t = insert_key(l, c);
    if l.len() == 0 {
        assert(t =~= seq![c]);
        assert(t[0] == c);
        assert(t.contains(x) ==> t[0] == x);
    } else if key_less(c, l[0]) {
        assert(t =~= seq![c] + l);
        assert(t[0] == c);
        if l.contains(x) {
            let k = choose|k: int| 0 <= k < l.len() && l[k] == x;
            assert(t[k + 1] == x);
        }
        if t.contains(x) && x != c {
            let k = choose|k: int| 0 <= k < t.len() && t[k] == x;
            assert(l[k - 1] == x);
        }
    } else if c == l[0] {
        assert(t =~= l);
        assert(l[0] == c);
    } else {
        let rest = l.drop_first();
        let u = insert_key(rest, c);
        lemma_insert_key_contains(rest, c, x);
        assert(t =~= seq![l[0]] + u);
        assert(t[0] == l[0]);
        if l.contains(x) {
            let k = choose|k: int| 0 <= k < l.len() && l[k] == x;
            if k > 0 {
                assert(rest[k - 1] == x);
                assert(rest.contains(x));
                let m = choose|m: int| 0 <= m < u.len() && u[m] == x;
                assert(t[m + 1] == x);
            }
        }
        if x == c {
            assert(u.contains(c));
            let m = choose|m: int| 0 <= m < u.len() && u[m] == c;
            assert(t[m + 1] == c);
        }
        if t.contains(x) {
            let k = choose|k: int| 0 <= k < t.len() && t[k] == x;
            if k > 0 {
                assert(u[k - 1] == x);
                assert(u.contains(x));
                if rest.contains(x) {
                    let m = choose|m: int| 0 <= m < rest.len() && rest[m] == x;
                    assert(l[m + 1] == x);
                }
            }
        }
    }
}

pub(crate) proof fn lemma_key_listed(rs: Seq<SpanRow>, k: (Seq<char>, Seq<char>))
    ensures
        key_list(rs).contains(k) <==> key_durations(rs, k).len() > 0,
        !key_list(rs).contains(k) ==> key_errors(rs, k) == 0,
    decreases rs.len(),
{
    if rs.len() > 0 {
        let d = rs.drop_last();
        lemma_key_listed(d, k);
        lemma_insert_key_contains(key_list(d), row_key(rs.last()), k);
    }
}


/// Inserts a duration after every duration not longer than it.
pub open spec fn insert_wide(s: Seq<i128>, x: i128) -> Seq<i128>
    decreases s.len(),
{
    if s.len() == 0 {
        seq![x]
    } else if x < s[0] {
        seq![x] + s
    } else {
        seq![s[0]] + insert_wide(s.drop_first(), x)
    }
}

/// The durations from shortest to longest.
pub open spec fn sorted_wide(s: Seq<i128>) -> Seq<i128>
    decreases s.len(),
{
    if s.len() == 0 {
        seq![]
    } else {
        insert_wide(sorted_wide(s.drop_last()), s.last())
    }
}

proof fn lemma_insert_wide(s: Seq<i128>, x: i128, p: int)
    requires
        0 <= p <= s.len(),
        forall|j: int| 0 <= j < p ==> !(x < #[trigger] s[j]),
        p < s.len() ==> x < s[p],
    ensures
        insert_wide(s, x) == s.insert(p, x),
    decreases p,
{
    if p == 0 {
        if s.len() == 0 {
            assert(s.insert(0, x) =~= seq![x]);
        } else {
            assert(s.insert(0, x) =~= seq![x] + s);
        }
    } else {
        let rest = s.drop_first();
        assert(!(x < s[0]));
        assert forall|j: int| 0 <= j < p - 1 implies !(x < #[trigger] rest[j]) by {
            assert(rest[j] == s[j + 1]);
        }
        if p - 1 < rest.len() {
            assert(rest[p - 1] == s[p]);
        }
        lemma_insert_wide(rest, x, p - 1);
        assert(s.insert(p, x) =~= seq![s[0]] + rest.insert(p - 1, x));
    }
}

fn sort_wide(v: &Vec<i128>) -> (r: Vec<i128>)
    ensures
        r@ == sorted_wide(v@),
        r@.len() == v@.len(),
{
    let mut sorted: Vec<i128> = Vec::new();
    let mut i: usize = 0;
    assert(v@.take(0) =~= Seq::<i128>::empty());
    while i < v.len()
        invariant
            i <= v@.len(),
            sorted@ == sorted_wide(v@.take(i as int)),
            sorted@.len() == i,
        decreases v@.len() - i,
    {
        let x = v[i];
        let mut p: usize = 0;
        while p < sorted.len() && !(x < sorted[p])
            invariant
                p <= sorted@.len(),
                forall|j: int| 0 <= j < p ==> !(x < #[trigger] sorted@[j]),
            decreases sorted@.len() - p,
        {
            p = p + 1;
        }
        proof {
            lemma_insert_wide(sorted@, x, p as int);
            assert(v@.take(i + 1).drop_last() =~= v@.take(i as int));
            assert(v@.take(i + 1).last() == x);
        }
        sorted.insert(p, x);
        i = i + 1;
    }
    assert(v@.take(v@.len() as int) =~= v@);
    sorted
}

/// The latency of one actor's operation.
#[derive(Clone, Debug, PartialEq, Eq)]
pub struct OperationEvidence {
    pub actor: String,
    pub operation: String,
    pub samples: usize,
    pub p95_us: i128,
    pub max_us: i128,
    pub errors: usize,
}

/// One of the most recent usable spans.
#[derive(Clone, Debug, PartialEq, Eq)]
pub struct RecentSpan {
    pub actor: String,
    pub operation: String,
    pub duration_us: i128,
    pub status: String,
}

/// What the pulsing page shows of the returned spans.
#[derive(Clone, Debug, Default, PartialEq, Eq)]
pub struct PulsingSpanEvidence {
    pub actor_count: usize,
    pub operations: Vec<OperationEvidence>,
    pub recent: Vec<RecentSpan>,
}

pub struct OpView {
    pub actor: Seq<char>,
    pub operation: Seq<char>,
    pub samples: nat,
    pub p95_us: i128,
    pub max_us: i128,
    pub errors: nat,
}

pub open spec fn op_view(o: OperationEvidence) -> OpView {
    OpView {
        actor: o.actor@,
        operation: o.operation@,
        samples: o.samples as nat,
        p95_us: o.p95_us,
        max_us: o.max_us,
        errors: o.errors as nat,
    }
}

pub open spec fn op_views(os: Seq<OperationEvidence>) -> Seq<OpView> {
    os.map_values(|o: OperationEvidence| op_view(o))
}

/// An actor's operation: how many samples, the 95th percentile and the
/// longest duration, and how many explicit errors.
pub open spec fn op_of(rs: Seq<SpanRow>, k: (Seq<char>, Seq<char>)) -> OpView {
    let d = sorted_wide(key_durations(rs, k));
    OpView {
        actor: k.0,
        operation: k.1,
        samples: d.len(),
        p95_us: d[percentile_index(d.len(), 19, 20)],
        max_us: d.last(),
        errors: key_errors(rs, k),
    }
}

pub open spec fn ops_by_key(rs: Seq<SpanRow>) -> Seq<OpView> {
    key_list(rs).map_values(|k: (Seq<char>, Seq<char>)| op_of(rs, k))
}

/// Inserts an operation after every operation with a 95th percentile not
/// below its own.
pub open spec fn insert_by_p95(s: Seq<OpView>, x: OpView) -> Seq<OpView>
    decreases s.len(),
{
    if s.len() == 0 {
        seq![x]
    } else if x.p95_us > s[0].p95_us {
        seq![x] + s
    } else {
        seq![s[0]] + insert_by_p95(s.drop_first(), x)
    }
}

/// The operations from the highest 95th percentile down; ties keep their
/// actor and operation order.
pub open spec fn p95_first(s: Seq<OpView>) -> Seq<OpView>
    decreases s.len(),
{
    if s.len() == 0 {
        seq![]
    } else {
        insert_by_p95(p95_first(s.drop_last()), s.last())
    }
}

proof fn lemma_insert_by_p95(s: Seq<OpView>, x: OpView, p: int)
    requires
        0 <= p <= s.len(),
        forall|j: int| 0 <= j < p ==> !(x.p95_us > (#[trigger] s[j]).p95_us),
        p < s.len() ==> x.p95_us > s[p].p95_us,
    ensures
        insert_by_p95(s, x) == s.insert(p, x),
    decreases p,
{
    if p == 0 {
        if s.len() == 0 {
            assert(s.insert(0, x) =~= seq![x]);
        } else {
            assert(s.insert(0, x) =~= seq![x] + s);
        }
    } else {
        let rest = s.drop_first();
        assert(!(x.p95_us > s[0].p95_us));
        assert forall|j: int| 0 <= j < p - 1 implies !(x.p95_us > (#[trigger] rest[j]).p95_us) by {
            assert(rest[j] == s[j + 1]);
        }
        if p - 1 < rest.len() {
            assert(rest[p - 1] == s[p]);
        }
        lemma_insert_by_p95(rest, x, p - 1);
        assert(s.insert(p, x) =~= seq![s[0]] + rest.insert(p - 1, x));
    }
}

/// The actors that name themselves.
pub open spec fn actor_set(rs: Seq<SpanRow>) -> Set<Seq<char>> {
    Set::new(|a: Seq<char>| a != "(unattributed)"@ && exists|k: int| 0 <= k < rs.len() && (#[trigger] rs[k]).actor == a)
}

pub open spec fn recent_view(r: RecentSpan) -> SpanRow {
    SpanRow { actor: r.actor@, operation: r.operation@, duration: r.duration_us, status: r.status@ }
}

pub open spec fn recent_views(rs: Seq<RecentSpan>) -> Seq<SpanRow> {
    rs.map_values(|r: RecentSpan| recent_view(r))
}

/// The usable rows grouped by actor and operation, in key order.
fn group_rows(rows: &Vec<ParsedRow>) -> (r: Vec<(String, String, Vec<i128>, usize)>)
    ensures
        r@.len() == key_list(rows_view(rows@)).len(),
        forall|a: int|
            0 <= a < r@.len() ==> ((#[trigger] r@[a]).0@, r@[a].1@) == key_list(rows_view(rows@))[a]
                && r@[a].2@ == key_durations(rows_view(rows@), (r@[a].0@, r@[a].1@)) && r@[a].3
                == key_errors(rows_view(rows@), (r@[a].0@, r@[a].1@)),
{
    let ghost all = rows_view(rows@);
    let mut groups: Vec<(String, String, Vec<i128>, usize)> = Vec::new();
    let mut i: usize = 0;
    assert(all.take(0) =~= Seq::<SpanRow>::empty());
    while i < rows.len()
        invariant
            i <= rows@.len(),
            all == rows_view(rows@),
            groups@.len() == key_list(all.take(i as int)).len(),
            forall|a: int, b: int|
                0 <= a < b < groups@.len() ==> key_less(
                    (groups@[a].0@, groups@[a].1@),
                    (groups@[b].0@, groups@[b].1@),
                ),
            forall|a: int|
                0 <= a < groups@.len() ==> ((#[trigger] groups@[a]).0@, groups@[a].1@) == key_list(
                    all.take(i as int),
                )[a] && groups@[a].2@ == key_durations(
                    all.take(i as int),
                    (groups@[a].0@, groups@[a].1@),
                ) && groups@[a].3 == key_errors(all.take(i as int), (groups@[a].0@, groups@[a].1@))
                    && groups@[a].3 <= i,
        decreases rows@.len() - i,
    {
        let ghost cur = all.take(i as int);
        let ghost next = all.take(i + 1);
        let r = &rows[i];
        let ghost k = (r.actor@, r.operation@);
        proof {
            assert(next.drop_last() =~= cur);
            assert(next.last() == row_view(*r));
        }
        let err = explicit_error_status(r.status.as_str());
        let mut p: usize = 0;
        while p < groups.len() && (text_lt(groups[p].0.as_str(), r.actor.as_str()) || (str_eq(
            groups[p].0.as_str(),
            r.actor.as_str(),
        ) && text_lt(groups[p].1.as_str(), r.operation.as_str())))
            invariant
                p <= groups@.len(),
                k == (r.actor@, r.operation@),
                forall|b: int| 0 <= b < p ==> key_less(((#[trigger] groups@[b]).0@, groups@[b].1@), k),
            decreases groups@.len() - p,
        {
            p = p + 1;
        }
        proof {
            assert forall|j: int| 0 <= j < p implies key_less(#[trigger] key_list(cur)[j], k) by {
                assert((groups@[j].0@, groups@[j].1@) == key_list(cur)[j]);
            }
            if p < groups@.len() {
                assert((groups@[p as int].0@, groups@[p as int].1@) == key_list(cur)[p as int]);
            }
            lemma_insert_key(key_list(cur), k, p as int);
        }
        let ghost old_groups = groups@;
        if p < groups.len() && str_eq(groups[p].0.as_str(), r.actor.as_str()) && str_eq(
            groups[p].1.as_str(),
            r.operation.as_str(),
        ) {
            let (a0, o0, mut ds, e0) = groups.remove(p);
            ds.push(r.duration);
            let e1 = if err {
                e0 + 1
            } else {
                e0
            };
            groups.insert(p, (a0, o0, ds, e1));
            assert(groups@ =~= old_groups.update(p as int, (a0, o0, ds, e1)));
            assert forall|a: int| 0 <= a < groups@.len() implies ((#[trigger] groups@[a]).0@, groups@[a].1@)
                == key_list(next)[a] && groups@[a].2@ == key_durations(next, (groups@[a].0@, groups@[a].1@))
                && groups@[a].3 == key_errors(next, (groups@[a].0@, groups@[a].1@)) && groups@[a].3
                <= i + 1 by {
                if a != p {
                    assert(groups@[a] == old_groups[a]);
                    assert((old_groups[a].0@, old_groups[a].1@) != k) by {
                        let ka = (old_groups[a].0@, old_groups[a].1@);
                        if ka == k {
                            if a < p {
                                assert(key_less(ka, (old_groups[p as int].0@, old_groups[p as int].1@)));
                            } else {
                                assert(key_less((old_groups[p as int].0@, old_groups[p as int].1@), ka));
                            }
                            lemma_key_order(ka, ka, ka);
                        }
                    }
                }
            }
            assert forall|a: int, b: int| 0 <= a < b < groups@.len() implies key_less(
                (groups@[a].0@, groups@[a].1@),
                (groups@[b].0@, groups@[b].1@),
            ) by {
                assert(groups@[a].0 == old_groups[a].0 && groups@[a].1 == old_groups[a].1);
                assert(groups@[b].0 == old_groups[b].0 && groups@[b].1 == old_groups[b].1);
            }
        } else {
            proof {
                assert(!key_list(cur).contains(k)) by {
                    if key_list(cur).contains(k) {
                        let m = choose|m: int| 0 <= m < key_list(cur).len() && key_list(cur)[m] == k;
                        assert((groups@[m].0@, groups@[m].1@) == k);
                        if m < p {
                            lemma_key_order(k, k, k);
                        } else if m > p {
                            let kp = (groups@[p as int].0@, groups@[p as int].1@);
                            assert(key_less(kp, k));
                            lemma_key_order(kp, k, k);
                        } else {
                            assert(r.actor@ == groups@[p as int].0@);
                            assert(r.operation@ == groups@[p as int].1@);
                        }
                    }
                }
                lemma_key_listed(cur, k);
                if p < groups@.len() {
                    lemma_key_order((groups@[p as int].0@, groups@[p as int].1@), k, k);
                }
            }
            let mut ds: Vec<i128> = Vec::new();
            ds.push(r.duration);
            let e1: usize = if err {
                1
            } else {
                0
            };
            let g = (r.actor.clone(), r.operation.clone(), ds, e1);
            groups.insert(p, g);
            assert(key_durations(next, k) =~= seq![r.duration]);
            assert forall|a: int, b: int| 0 <= a < b < groups@.len() implies key_less(
                (groups@[a].0@, groups@[a].1@),
                (groups@[b].0@, groups@[b].1@),
            ) by {
                let ka = (groups@[a].0@, groups@[a].1@);
                let kb = (groups@[b].0@, groups@[b].1@);
                if b < p {
                    assert(groups@[a] == old_groups[a]);
                    assert(groups@[b] == old_groups[b]);
                } else if b == p {
                    assert(groups@[a] == old_groups[a]);
                } else if a < p {
                    assert(groups@[a] == old_groups[a]);
                    assert(groups@[b] == old_groups[b - 1]);
                    let kp = (old_groups[p as int].0@, old_groups[p as int].1@);
                    if b - 1 > p {
                        assert(key_less(kp, kb));
                        lemma_key_order(k, kp, kb);
                    }
                    lemma_key_order(ka, k, kb);
                } else if a == p {
                    assert(groups@[b] == old_groups[b - 1]);
                    let kp = (old_groups[p as int].0@, old_groups[p as int].1@);
                    if b - 1 > p {
                        assert(key_less(kp, kb));
                        lemma_key_order(k, kp, kb);
                    }
                } else {
                    assert(groups@[a] == old_groups[a - 1]);
                    assert(groups@[b] == old_groups[b - 1]);
                }
            }
            assert forall|a: int| 0 <= a < groups@.len() implies ((#[trigger] groups@[a]).0@, groups@[a].1@)
                == key_list(next)[a] && groups@[a].2@ == key_durations(next, (groups@[a].0@, groups@[a].1@))
                && groups@[a].3 == key_errors(next, (groups@[a].0@, groups@[a].1@)) && groups@[a].3
                <= i + 1 by {
                if a < p {
                    assert(groups@[a] == old_groups[a]);
                    assert((old_groups[a].0@, old_groups[a].1@) != k) by {
                        lemma_key_order(k, k, k);
                    }
                } else if a > p {
                    assert(groups@[a] == old_groups[a - 1]);
                    let kp = (old_groups[p as int].0@, old_groups[p as int].1@);
                    let ka = (old_groups[a - 1].0@, old_groups[a - 1].1@);
                    assert(ka != k) by {
                        if a - 1 > p {
                            assert(key_less(kp, ka));
                        }
                        lemma_key_order(kp, k, k);
                        lemma_key_order(k, kp, ka);
                        lemma_key_order(k, k, k);
                    }
                }
            }
        }
        i = i + 1;
    }
    assert(all.take(rows@.len() as int) =~= all);
    groups
}


/// The latency per actor and operation, the named actors and the most
/// recent spans of a span query. Rows without a usable duration are left
/// out; an empty actor is `(unattributed)`, an empty operation
/// `(unnamed)`. Operations are listed from the highest 95th percentile down,
/// those with the same percentile by actor and operation.
pub fn summarize_spans(dataframe: &DataFrame) -> (r: PulsingSpanEvidence)
    requires
        columns_present(*dataframe),
    ensures
        r.actor_count == actor_set(rows_upto(*dataframe, frame_rows(*dataframe))).len(),
        op_views(r.operations@) == p95_first(ops_by_key(rows_upto(*dataframe, frame_rows(*dataframe)))),
        forall|i: int|
            0 <= i < r.operations@.len() ==> crate::laws::summarises_durations(
                op_view(#[trigger] r.operations@[i]),
                key_durations(
                    rows_upto(*dataframe, frame_rows(*dataframe)),
                    (r.operations@[i].actor@, r.operations@[i].operation@),
                ),
            ),
        recent_views(r.recent@) == rows_upto(*dataframe, frame_rows(*dataframe)).take(
            if rows_upto(*dataframe, frame_rows(*dataframe)).len() < 12 {
                rows_upto(*dataframe, frame_rows(*dataframe)).len() as int
            } else {
                12
            },
        ),
{
    proof {
        reveal_strlit("(unattributed)");
    }
    let parsed = read_rows(dataframe);
    let ghost rows = rows_view(parsed@);
    let n = parsed.len();
    let shown: usize = if n < 12 {
        n
    } else {
        12
    };
    let mut recent: Vec<RecentSpan> = Vec::new();
    let mut i: usize = 0;
    while i < shown
        invariant
            shown <= parsed@.len(),
            rows == rows_view(parsed@),
            i <= shown,
            recent_views(recent@) == rows.take(i as int),
        decreases shown - i,
    {
        let x = &parsed[i];
        let item = RecentSpan {
            actor: x.actor.clone(),
            operation: x.operation.clone(),
            duration_us: x.duration,
            status: x.status.clone(),
        };
        assert(recent_view(item) == row_view(parsed@[i as int]));
        let ghost before = recent@;
        recent.push(item);
        assert(recent_views(recent@) =~= recent_views(before).push(recent_view(item)));
        assert(rows[i as int] == row_view(parsed@[i as int]));
        assert(recent_views(recent@) =~= rows.take(i + 1));
        i = i + 1;
    }
    let mut actors: Vec<String> = Vec::new();
    let mut i: usize = 0;
    assert(views(actors@).to_set() =~= actor_set(rows.take(0)));
    while i < parsed.len()
        invariant
            i <= parsed@.len(),
            rows == rows_view(parsed@),
            views(actors@).no_duplicates(),
            views(actors@).to_set() == actor_set(rows.take(i as int)),
        decreases parsed@.len() - i,
    {
        let ghost cur = rows.take(i as int);
        let ghost next = rows.take(i + 1);
        let name = &parsed[i].actor;
        proof {
            assert(next[i as int] == rows[i as int]);
            assert(rows[i as int] == row_view(parsed@[i as int]));
            assert(next.drop_last() =~= cur);
        }
        let mut j: usize = 0;
        let mut seen = str_eq(name.as_str(), "(unattributed)");
        while j < actors.len() && !seen
            invariant
                j <= actors@.len(),
                !seen ==> forall|m: int| 0 <= m < j ==> actors@[m]@ != name@,
                !seen ==> name@ != "(unattributed)"@,
                seen ==> (name@ == "(unattributed)"@ || views(actors@).contains(name@)),
            decreases actors@.len() - j + (if seen { 0int } else { 1int }),
        {
            if str_eq(actors[j].as_str(), name.as_str()) {
                seen = true;
                assert(views(actors@)[j as int] == name@);
            } else {
                j = j + 1;
            }
        }
        let ghost before = views(actors@);
        if !seen {
            let c = name.clone();
            let ghost old_actors = actors@;
            actors.push(c);
            proof {
                lemma_views_push(old_actors, c);
                assert forall|m: int| 0 <= m < before.len() implies before[m] != name@ by {
                    assert(before[m] == old_actors[m]@);
                }
            }
        }
        proof {
            assert(views(actors@).to_set() =~= actor_set(next)) by {
                assert forall|a: Seq<char>| views(actors@).to_set().contains(a) implies actor_set(next).contains(a) by {
                    if before.contains(a) {
                        assert(actor_set(cur).contains(a));
                        let k = choose|k: int| 0 <= k < cur.len() && (#[trigger] cur[k]).actor == a;
                        assert(next[k] == cur[k]);
                    } else {
                        assert(a == name@);
                        assert(next[i as int].actor == a);
                    }
                }
                assert forall|a: Seq<char>| actor_set(next).contains(a) implies views(actors@).to_set().contains(a) by {
                    let k = choose|k: int| 0 <= k < next.len() && (#[trigger] next[k]).actor == a;
                    if k < cur.len() {
                        assert(cur[k] == next[k]);
                        assert(actor_set(cur).contains(a));
                        assert(before.contains(a));
                        if !seen {
                            let m = choose|m: int| 0 <= m < before.len() && before[m] == a;
                            assert(views(actors@)[m] == a);
                        }
                    } else {
                        assert(a == name@);
                        if !seen {
                            assert(views(actors@)[before.len() as int] == a);
                        }
                    }
                }
            }
        }
        i = i + 1;
    }
    proof {
        views(actors@).unique_seq_to_set();
        assert(rows.take(parsed@.len() as int) =~= rows);
    }
    let groups = group_rows(&parsed);
    let ghost by_key = ops_by_key(rows);
    let mut ops: Vec<OperationEvidence> = Vec::new();
    let mut a: usize = 0;
    while a < groups.len()
        invariant
            a <= groups@.len(),
            rows == rows_view(parsed@),
            by_key == ops_by_key(rows),
            groups@.len() == key_list(rows).len(),
            forall|b: int|
                0 <= b < groups@.len() ==> ((#[trigger] groups@[b]).0@, groups@[b].1@) == key_list(rows)[b]
                    && groups@[b].2@ == key_durations(rows, (groups@[b].0@, groups@[b].1@))
                    && groups@[b].3 == key_errors(rows, (groups@[b].0@, groups@[b].1@)),
            op_views(ops@) == by_key.take(a as int),
        decreases groups@.len() - a,
    {
        let g = &groups[a];
        let ghost k = (g.0@, g.1@);
        proof {
            assert(key_list(rows).contains(k)) by {
                assert(key_list(rows)[a as int] == k);
            }
            lemma_key_listed(rows, k);
        }
        let sorted = sort_wide(&g.2);
        let count = sorted.len();
        let p95 = sorted[percentile_position(count, 19, 20)];
        let max = sorted[count - 1];
        let item = OperationEvidence {
            actor: g.0.clone(),
            operation: g.1.clone(),
            samples: count,
            p95_us: p95,
            max_us: max,
            errors: g.3,
        };
        assert(op_view(item) == op_of(rows, k));
        let ghost before = ops@;
        ops.push(item);
        assert(op_views(ops@) =~= op_views(before).push(op_view(item)));
        assert(by_key[a as int] == op_of(rows, k));
        assert(op_views(ops@) =~= by_key.take(a + 1));
        a = a + 1;
    }
    assert(by_key.take(groups@.len() as int) =~= by_key);
    let ghost flat = op_views(ops@);
    let mut ordered: Vec<OperationEvidence> = Vec::new();
    let mut i: usize = 0;
    assert(flat.take(0) =~= Seq::<OpView>::empty());
    while i < ops.len()
        invariant
            i <= ops@.len(),
            flat == op_views(ops@),
            op_views(ordered@) == p95_first(flat.take(i as int)),
        decreases ops@.len() - i,
    {
        let xp = ops[i].p95_us;
        let mut p: usize = 0;
        while p < ordered.len() && !(xp > ordered[p].p95_us)
            invariant
                p <= ordered@.len(),
                forall|j: int| 0 <= j < p ==> !(xp > (#[trigger] op_views(ordered@)[j]).p95_us),
            decreases ordered@.len() - p,
        {
            p = p + 1;
        }
        proof {
            assert(flat.take(i + 1).drop_last() =~= flat.take(i as int));
            assert(flat.take(i + 1).last() == op_view(ops@[i as int]));
        }
        let ghost before = op_views(ordered@);
        let ghost xv = OpView {
            actor: ops@[i as int].actor@,
            operation: ops@[i as int].operation@,
            samples: ops@[i as int].samples as nat,
            p95_us: ops@[i as int].p95_us,
            max_us: ops@[i as int].max_us,
            errors: ops@[i as int].errors as nat,
        };
        proof {
            lemma_insert_by_p95(before, xv, p as int);
        }
        let y = OperationEvidence {
            actor: ops[i].actor.clone(),
            operation: ops[i].operation.clone(),
            samples: ops[i].samples,
            p95_us: ops[i].p95_us,
            max_us: ops[i].max_us,
            errors: ops[i].errors,
        };
        ordered.insert(p, y);
        assert(op_views(ordered@) =~= before.insert(p as int, xv));
        i = i + 1;
    }
    assert(flat.take(ops@.len() as int) =~= flat);
    proof {
        assert forall|i: int| 0 <= i < ordered@.len() implies crate::laws::summarises_durations(
            op_view(#[trigger] ordered@[i]),
            key_durations(rows, (ordered@[i].actor@, ordered@[i].operation@)),
        ) by {
            assert(op_views(ordered@)[i] == op_view(ordered@[i]));
            assert(p95_first(by_key).contains(op_view(ordered@[i])));
            crate::laws::law_listed_operations_fit_their_durations(rows, op_view(ordered@[i]));
        }
    }
    PulsingSpanEvidence { actor_count: actors.len(), operations: ordered, recent }
}

/// How many rows a query returned, `…` while it runs and `—` when it failed.
pub fn row_count(state: &Option<Result<DataFrame, String>>) -> (r: String)
    ensures
        r@ == (match state {
            None => "…"@,
            Some(Err(_)) => "—"@,
            Some(Ok(d)) => nat_text(frame_rows(*d)),
        }),
{
    proof {
        reveal_strlit("…");
        reveal_strlit("—");
    }
    match state {
        None => owned("…"),
        Some(Err(_)) => owned("—"),
        Some(Ok(dataframe)) => usize_text(dataframe.row_count()),
    }
}

/// The count a count query returned: its first integer cell, 0 when it has
/// none; `…` while it runs and `—` when it failed.
pub fn scalar_count(state: &Option<Result<DataFrame, String>>) -> (r: String)
    ensures
        r@ == (match state {
            None => "…"@,
            Some(Err(_)) => "—"@,
            Some(Ok(d)) => if d.cols@.len() > 0 {
                match cell_at(d.cols@[0]@, 0) {
                    Cell::I64(v) => int_text(v as int),
                    Cell::I32(v) => int_text(v as int),
                    _ => "0"@,
                }
            } else {
                "0"@
            },
        }),
{
    proof {
        reveal_strlit("…");
        reveal_strlit("—");
        reveal_strlit("0");
    }
    match state {
        None => owned("…"),
        Some(Err(_)) => owned("—"),
        Some(Ok(dataframe)) => {
            if dataframe.cols.len() > 0 && dataframe.cols[0].len() > 0 {
                match &dataframe.cols[0][0] {
                    Cell::I64(v) => i64_text(*v),
                    Cell::I32(v) => i32_text(*v),
                    _ => owned("0"),
                }
            } else {
                owned("0")
            }
        },
    }
}

} // verus!
