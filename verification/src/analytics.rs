//! The analytics page's table catalog: the tables of the local probe or of
//! the global catalog, named as queries address them.

use vstd::prelude::*;

use crate::capabilities::{column_index, find_column};
use crate::evidence::{cell_at, frame_rows, Cell, DataFrame};
use crate::text::{
    concat2, contains_chars, contains_seq, lower_chars, lower_seq, owned, trim_seq,
    trimmed, views,
};

verus! {

/// A table of the catalog.
#[derive(Clone, Debug, PartialEq, Eq)]
pub struct TableEntry {
    pub schema: String,
    pub table: String,
}

/// How a query names a table: `schema.table`, with the `global.` catalog
/// prefix when the global catalog is browsed.
pub open spec fn table_name(schema: Seq<char>, table: Seq<char>, global: bool) -> Seq<char> {
    if global {
        "global."@ + schema + "."@ + table
    } else {
        schema + "."@ + table
    }
}

impl TableEntry {
    /// The name a query uses for the table.
    pub fn name(&self, global: bool) -> (r: String)
        ensures
            r@ == table_name(self.schema@, self.table@, global),
    {
        proof {
            reveal_strlit("global.");
            reveal_strlit(".");
        }
        let mut s = if global {
            concat2("global.", self.schema.as_str())
        } else {
            self.schema.clone()
        };
        s.append(".");
        s.append(self.table.as_str());
        s
    }
}

pub const GLOBAL_CATALOG_SQL: &'static str =
    "SELECT table_schema, table_name FROM information_schema.tables WHERE table_catalog = 'global' ORDER BY table_schema, table_name";

pub const PROBE_CATALOG_SQL: &'static str =
    "SELECT table_schema, table_name FROM information_schema.tables WHERE table_catalog = 'probe' AND table_schema <> 'information_schema' ORDER BY table_schema, table_name";

/// The catalog query: the global catalog, or the local probe's tables
/// without the information schema.
pub fn catalog_sql(global: bool) -> (r: String)
    ensures
        r@ == (if global {
            GLOBAL_CATALOG_SQL@
        } else {
            PROBE_CATALOG_SQL@
        }),
{
    if global {
        owned(GLOBAL_CATALOG_SQL)
    } else {
        owned(PROBE_CATALOG_SQL)
    }
}

/// The text of a cell of a column, when the column exists and the cell is
/// text.
pub open spec fn text_cell(d: DataFrame, col: nat, row: int) -> Option<Seq<char>> {
    if col < d.cols@.len() {
        match cell_at(d.cols@[col as int]@, row) {
            Cell::Text(s) => Some(s@),
            _ => None,
        }
    } else {
        None
    }
}

/// The schema and table of the first `n` rows whose two cells are text.
pub open spec fn tables_upto(d: DataFrame, schema: nat, table: nat, n: nat) -> Seq<
    (Seq<char>, Seq<char>),
>
    decreases n,
{
    if n == 0 {
        seq![]
    } else {
        let rest = tables_upto(d, schema, table, (n - 1) as nat);
        match (text_cell(d, schema, n - 1), text_cell(d, table, n - 1)) {
            (Some(s), Some(t)) => rest.push((s, t)),
            _ => rest,
        }
    }
}

/// The columns the catalog is read from: `table_schema` and `table_name`,
/// else the first and second columns.
pub open spec fn schema_column(d: DataFrame) -> nat {
    match column_index(views(d.names@), "table_schema"@) {
        Some(i) => i,
        None => 0,
    }
}

pub open spec fn table_column(d: DataFrame) -> nat {
    match column_index(views(d.names@), "table_name"@) {
        Some(i) => i,
        None => 1,
    }
}

pub open spec fn entry_views(es: Seq<TableEntry>) -> Seq<(Seq<char>, Seq<char>)> {
    es.map_values(|e: TableEntry| (e.schema@, e.table@))
}

fn text_at(dataframe: &DataFrame, col: usize, row: usize) -> (r: Option<String>)
    ensures
        match r {
            Some(s) => text_cell(*dataframe, col as nat, row as int) == Some(s@),
            None => text_cell(*dataframe, col as nat, row as int) is None,
        },
{
    if col < dataframe.cols.len() && row < dataframe.cols[col].len() {
        match &dataframe.cols[col][row] {
            Cell::Text(s) => Some(s.clone()),
            _ => None,
        }
    } else {
        None
    }
}

/// The tables a catalog query returned, in row order; rows whose schema or
/// table is not text are skipped.
pub fn parse_tables(dataframe: &DataFrame) -> (r: Vec<TableEntry>)
    ensures
        entry_views(r@) == tables_upto(
            *dataframe,
            schema_column(*dataframe),
            table_column(*dataframe),
            frame_rows(*dataframe),
        ),
{
    proof {
        reveal_strlit("table_schema");
        reveal_strlit("table_name");
    }
    let schema = match find_column(&dataframe.names, "table_schema") {
        Some(i) => i,
        None => 0,
    };
    let table = match find_column(&dataframe.names, "table_name") {
        Some(i) => i,
        None => 1,
    };
    let rows = dataframe.row_count();
    let mut entries: Vec<TableEntry> = Vec::new();
    let mut row: usize = 0;
    while row < rows
        invariant
            rows == frame_rows(*dataframe),
            row <= rows,
            schema == schema_column(*dataframe),
            table == table_column(*dataframe),
            entry_views(entries@) == tables_upto(*dataframe, schema as nat, table as nat, row as nat),
        decreases rows - row,
    {
        match (text_at(dataframe, schema, row), text_at(dataframe, table, row)) {
            (Some(s), Some(t)) => {
                entries.push(TableEntry { schema: s, table: t });
            },
            _ => {},
        }
        assert(entry_views(entries@) =~= tables_upto(
            *dataframe,
            schema as nat,
            table as nat,
            (row + 1) as nat,
        ));
        row = row + 1;
    }
    entries
}

/// The entries whose query name, lowered, contains the filter (trimmed and
/// lowered); every entry when the filter is blank.
pub open spec fn catalog_filter(es: Seq<(Seq<char>, Seq<char>)>, needle: Seq<char>, global: bool) -> Seq<
    (Seq<char>, Seq<char>),
>
    decreases es.len(),
{
    if es.len() == 0 {
        seq![]
    } else {
        let rest = catalog_filter(es.drop_last(), needle, global);
        let e = es.last();
        if needle.len() == 0 || contains_seq(lower_seq(table_name(e.0, e.1, global)), needle) {
            rest.push(e)
        } else {
            rest
        }
    }
}

/// The catalog entries a filter keeps, in order.
pub fn filter_tables(entries: &Vec<TableEntry>, filter: &str, global: bool) -> (r: Vec<TableEntry>)
    ensures
        entry_views(r@) == catalog_filter(entry_views(entries@), lower_seq(trim_seq(filter@)), global),
{
    let t = trimmed(filter);
    let needle = lower_chars(t.as_str());
    let ghost all = entry_views(entries@);
    let mut kept: Vec<TableEntry> = Vec::new();
    let mut i: usize = 0;
    assert(all.take(0) =~= Seq::<(Seq<char>, Seq<char>)>::empty());
    while i < entries.len()
        invariant
            i <= entries@.len(),
            all == entry_views(entries@),
            needle@ == lower_seq(trim_seq(filter@)),
            entry_views(kept@) == catalog_filter(all.take(i as int), needle@, global),
        decreases entries@.len() - i,
    {
        proof {
            assert(all.take(i + 1).drop_last() =~= all.take(i as int));
            assert(all.take(i + 1).last() == (entries@[i as int].schema@, entries@[i as int].table@));
        }
        let name = entries[i].name(global);
        if needle.len() == 0 || contains_chars(&lower_chars(name.as_str()), &needle) {
            kept.push(TableEntry { schema: entries[i].schema.clone(), table: entries[i].table.clone() });
        }
        assert(entry_views(kept@) =~= catalog_filter(all.take(i + 1), needle@, global));
        i = i + 1;
    }
    assert(all.take(entries@.len() as int) =~= all);
    kept
}

/// The classes of the local/global scope switch, filled when active.
pub fn scope_class(active: bool) -> (r: &'static str)
    ensures
        r@ == (if active {
            "rounded-md bg-blue-600 px-2.5 py-1 text-white"@
        } else {
            "rounded-md px-2.5 py-1 text-gray-600 hover:bg-gray-50"@
        }),
{
    if active {
        "rounded-md bg-blue-600 px-2.5 py-1 text-white"
    } else {
        "rounded-md px-2.5 py-1 text-gray-600 hover:bg-gray-50"
    }
}

} // verus!
