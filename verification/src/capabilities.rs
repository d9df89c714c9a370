//! Capability detection: which tables and columns the probed process
//! exposes, read from its catalog, so pages can tell a real table from an
//! error placeholder before querying it.

use vstd::prelude::*;

use crate::evidence::{cell_at, frame_rows, Cell, DataFrame};
use crate::text::{concat2, str_eq, views};

verus! {

/// The catalog query that lists every column of every table.
pub const CATALOG_SQL: &'static str =
    "SELECT table_schema, table_name, column_name FROM information_schema.columns WHERE table_catalog = 'probe'";

#[derive(Clone, Copy, Debug, PartialEq, Eq, Structural)]
pub enum CapabilityStatus {
    Checking,
    Available,
    Missing,
    CatalogUnavailable,
}

impl CapabilityStatus {
    /// Whether a page may query: when the columns exist, and, to preserve
    /// existing behaviour, when the catalog itself cannot be read.
    pub fn allows_query(self) -> (r: bool)
        ensures
            r == (self == CapabilityStatus::Available || self
                == CapabilityStatus::CatalogUnavailable),
    {
        matches!(self, CapabilityStatus::Available | CapabilityStatus::CatalogUnavailable)
    }
}

/// The columns the catalog lists, each as `schema.table.column`.
#[derive(Clone, Debug, Default, PartialEq, Eq)]
pub struct CapabilityCatalog {
    columns: Vec<String>,
}

impl View for CapabilityCatalog {
    type V = Set<Seq<char>>;

    closed spec fn view(&self) -> Set<Seq<char>> {
        views(self.columns@).to_set()
    }
}

/// The first column with a name.
pub open spec fn column_index(names: Seq<Seq<char>>, name: Seq<char>) -> Option<nat>
    decreases names.len(),
{
    if names.len() == 0 {
        None
    } else if names.last() == name {
        match column_index(names.drop_last(), name) {
            Some(i) => Some(i),
            None => Some((names.len() - 1) as nat),
        }
    } else {
        column_index(names.drop_last(), name)
    }
}

/// The text of a text or URL value.
pub open spec fn cell_str(c: Cell) -> Option<Seq<char>> {
    match c {
        Cell::Text(s) => Some(s@),
        Cell::Url(s) => Some(s@),
        _ => None,
    }
}

/// The `schema.table.column` name of one row of the catalog, when the three
/// cells hold text.
pub open spec fn row_column(d: DataFrame, s: nat, t: nat, c: nat, row: int) -> Option<Seq<char>> {
    let a = cell_str(cell_at(d.cols@[s as int]@, row));
    let b = cell_str(cell_at(d.cols@[t as int]@, row));
    let k = cell_str(cell_at(d.cols@[c as int]@, row));
    if a is Some && b is Some && k is Some {
        Some(a->0 + "."@ + b->0 + "."@ + k->0)
    } else {
        None
    }
}

/// The columns a catalog data frame lists: none when it lacks one of the
/// schema, table and column name columns.
pub open spec fn catalog_columns(d: DataFrame) -> Set<Seq<char>> {
    let names = views(d.names@);
    let s = column_index(names, "table_schema"@);
    let t = column_index(names, "table_name"@);
    let c = column_index(names, "column_name"@);
    if s is Some && t is Some && c is Some && s->0 < d.cols@.len() && t->0 < d.cols@.len() && c->0
        < d.cols@.len() {
        Set::new(
            |x: Seq<char>|
                exists|row: int|
                    0 <= row < frame_rows(d) && #[trigger] row_column(d, s->0, t->0, c->0, row)
                        == Some(x),
        )
    } else {
        Set::empty()
    }
}

pub(crate) fn find_column(names: &Vec<String>, name: &str) -> (r: Option<usize>)
    ensures
        match r {
            Some(i) => Some(i as nat),
            None => None,
        } == column_index(views(names@), name@),
{
    let ghost vs = views(names@);
    let mut i: usize = 0;
    let mut found: Option<usize> = None;
    assert(vs.take(0) =~= Seq::<Seq<char>>::empty());
    while i < names.len()
        invariant
            vs == views(names@),
            i <= names@.len(),
            match found {
                Some(k) => Some(k as nat),
                None => None,
            } == column_index(vs.take(i as int), name@),
        decreases names@.len() - i,
    {
        assert(vs.take(i + 1).drop_last() == vs.take(i as int));
        assert(vs.take(i + 1).last() == names@[i as int]@);
        if found.is_none() && str_eq(names[i].as_str(), name) {
            found = Some(i);
        }
        i = i + 1;
    }
    assert(vs.take(names@.len() as int) == vs);
    found
}

fn cell_text_of(col: &Vec<Cell>, row: usize) -> (r: Option<String>)
    ensures
        match r {
            Some(s) => Some(s@),
            None => None,
        } == cell_str(cell_at(col@, row as int)),
{
    if row < col.len() {
        match &col[row] {
            Cell::Text(s) => Some(s.clone()),
            Cell::Url(s) => Some(s.clone()),
            _ => None,
        }
    } else {
        None
    }
}

impl CapabilityCatalog {
    /// The catalog of a data frame of `table_schema`, `table_name` and
    /// `column_name` columns; empty when one of them is missing.
    pub fn from_dataframe(dataframe: &DataFrame) -> (r: Self)
        ensures
            r@ == catalog_columns(*dataframe),
    {
        proof {
            reveal_strlit("table_schema");
            reveal_strlit("table_name");
            reveal_strlit("column_name");
            reveal_strlit(".");
        }
        let schema = find_column(&dataframe.names, "table_schema");
        let table = find_column(&dataframe.names, "table_name");
        let column = find_column(&dataframe.names, "column_name");
        let ncols = dataframe.cols.len();
        match (schema, table, column) {
            (Some(s), Some(t), Some(c)) => {
                if s >= ncols || t >= ncols || c >= ncols {
                    let r = CapabilityCatalog { columns: Vec::new() };
                    assert(r@ =~= Set::<Seq<char>>::empty());
                    return r;
                }
                let rows = dataframe.row_count();
                let mut columns: Vec<String> = Vec::new();
                let mut row: usize = 0;
                let ghost target = catalog_columns(*dataframe);
                assert(views(columns@).to_set() =~= Set::<Seq<char>>::empty());
                while row < rows
                    invariant
                        s < dataframe.cols@.len(),
                        t < dataframe.cols@.len(),
                        c < dataframe.cols@.len(),
                        rows == frame_rows(*dataframe),
                        row <= rows,
                        target == catalog_columns(*dataframe),
                        Some(s as nat) == column_index(views(dataframe.names@), "table_schema"@),
                        Some(t as nat) == column_index(views(dataframe.names@), "table_name"@),
                        Some(c as nat) == column_index(views(dataframe.names@), "column_name"@),
                        views(columns@).to_set() == Set::new(
                            |x: Seq<char>|
                                exists|k: int|
                                    0 <= k < row && #[trigger] row_column(
                                        *dataframe,
                                        s as nat,
                                        t as nat,
                                        c as nat,
                                        k,
                                    ) == Some(x),
                        ),
                    decreases rows - row,
                {
                    let a = cell_text_of(&dataframe.cols[s], row);
                    let b = cell_text_of(&dataframe.cols[t], row);
                    let k = cell_text_of(&dataframe.cols[c], row);
                    let ghost before = views(columns@).to_set();
                    let ghost rc = row_column(*dataframe, s as nat, t as nat, c as nat, row as int);
                    match (a, b, k) {
                        (Some(a), Some(b), Some(k)) => {
                            let mut name = concat2(a.as_str(), ".");
                            name.append(b.as_str());
                            name.append(".");
                            name.append(k.as_str());
                            assert(rc == Some(name@));
                            let ghost old_cols = columns@;
                            columns.push(name);
                            proof {
                                crate::text::lemma_views_push(old_cols, name);
                                views(old_cols).lemma_push_to_set_commute(name@);
                            }
                        },
                        _ => {
                            assert(rc is None);
                        },
                    }
                    assert(views(columns@).to_set() =~= Set::new(
                        |x: Seq<char>|
                            exists|k: int|
                                0 <= k < row + 1 && #[trigger] row_column(
                                    *dataframe,
                                    s as nat,
                                    t as nat,
                                    c as nat,
                                    k,
                                ) == Some(x),
                    )) by {
                        assert forall|x: Seq<char>| (exists|k: int|
                            0 <= k < row + 1 && #[trigger] row_column(
                                *dataframe,
                                s as nat,
                                t as nat,
                                c as nat,
                                k,
                            ) == Some(x)) implies views(columns@).to_set().contains(x) by {
                            let k = choose|k: int|
                                0 <= k < row + 1 && #[trigger] row_column(
                                    *dataframe,
                                    s as nat,
                                    t as nat,
                                    c as nat,
                                    k,
                                ) == Some(x);
                            if k < row {
                                assert(before.contains(x));
                            }
                        }
                    }
                    row = row + 1;
                }
                let r = CapabilityCatalog { columns };
                assert(r@ =~= target);
                r
            },
            _ => {
                let r = CapabilityCatalog { columns: Vec::new() };
                assert(r@ =~= Set::<Seq<char>>::empty());
                r
            },
        }
    }

    /// Whether the catalog lists every required column of a table.
    pub fn supports(&self, schema: &str, table: &str, required: &[&str]) -> (r: bool)
        ensures
            r == (forall|i: int|
                0 <= i < required@.len() ==> self@.contains(
                    schema@ + "."@ + table@ + "."@ + #[trigger] required@[i]@,
                )),
    {
        proof {
            reveal_strlit(".");
        }
        let mut i: usize = 0;
        while i < required.len()
            invariant
                i <= required@.len(),
                forall|j: int|
                    0 <= j < i ==> self@.contains(
                        schema@ + "."@ + table@ + "."@ + #[trigger] required@[j]@,
                    ),
            decreases required@.len() - i,
        {
            let mut name = concat2(schema, ".");
            name.append(table);
            name.append(".");
            name.append(required[i]);
            if !self.lists(&name) {
                return false;
            }
            i = i + 1;
        }
        true
    }

    fn lists(&self, name: &String) -> (r: bool)
        ensures
            r == self@.contains(name@),
    {
        let mut i: usize = 0;
        while i < self.columns.len()
            invariant
                i <= self.columns@.len(),
                forall|j: int| 0 <= j < i ==> self.columns@[j]@ != name@,
            decreases self.columns@.len() - i,
        {
            if self.columns[i] == *name {
                assert(views(self.columns@)[i as int] == name@);
                return true;
            }
            i = i + 1;
        }
        assert(!views(self.columns@).contains(name@)) by {
            if views(self.columns@).contains(name@) {
                let j = choose|j: int| 0 <= j < views(self.columns@).len() && views(self.columns@)[j] == name@;
                assert(self.columns@[j]@ == name@);
            }
        }
        false
    }
}

/// What is known of the catalog: still being read, read, or unreadable.
#[derive(Clone, Debug, PartialEq, Eq)]
pub enum CapabilityCatalogState {
    Checking,
    Ready(CapabilityCatalog),
    Unavailable,
}

/// Whether a table's required columns can be queried, given what is known of
/// the catalog.
pub fn capability_status(
    state: &CapabilityCatalogState,
    schema: &str,
    table: &str,
    required: &[&str],
) -> (r: CapabilityStatus)
    ensures
        r == (match *state {
            CapabilityCatalogState::Checking => CapabilityStatus::Checking,
            CapabilityCatalogState::Ready(catalog) => if forall|i: int|
                0 <= i < required@.len() ==> catalog@.contains(
                    schema@ + "."@ + table@ + "."@ + #[trigger] required@[i]@,
                ) {
                CapabilityStatus::Available
            } else {
                CapabilityStatus::Missing
            },
            CapabilityCatalogState::Unavailable => CapabilityStatus::CatalogUnavailable,
        }),
{
    match state {
        CapabilityCatalogState::Checking => CapabilityStatus::Checking,
        CapabilityCatalogState::Ready(catalog) => if catalog.supports(schema, table, required) {
            CapabilityStatus::Available
        } else {
            CapabilityStatus::Missing
        },
        CapabilityCatalogState::Unavailable => CapabilityStatus::CatalogUnavailable,
    }
}

/// What is known of the catalog once its query answered: the catalog read
/// from the table, or unreadable when the query failed.
pub fn catalog_state_from(result: &Result<DataFrame, String>) -> (r: CapabilityCatalogState)
    ensures
        match result {
            Ok(d) => r matches CapabilityCatalogState::Ready(c) && c@ == catalog_columns(*d),
            Err(_) => r == CapabilityCatalogState::Unavailable,
        },
{
    match result {
        Ok(dataframe) => CapabilityCatalogState::Ready(CapabilityCatalog::from_dataframe(dataframe)),
        Err(_) => CapabilityCatalogState::Unavailable,
    }
}

/// Whether the catalog has to be read before a capability can be judged:
/// only while it is still being checked.
pub fn catalog_needs_refresh(state: &CapabilityCatalogState) -> (r: bool)
    ensures
        r == (*state is Checking),
{
    match state {
        CapabilityCatalogState::Checking => true,
        _ => false,
    }
}

} // verus!
