//! Snapshots: what a table holds, as plain data.
//!
//! A snapshot holds the schema of a table and the values of its columns. It
//! holds no index: the index of a column is determined by the column's
//! values, and restoring a table builds it anew. Taking a snapshot of a
//! table and restoring it gives a table that is equal to the first in
//! schema, values and index entries.

use crate::column::ColumnData;
use crate::datatype::{indexable, DataType};
use crate::error::Error;
use crate::table::{ColumnView, TableView};
use crate::value::{cell_has_type, Cell};
use vstd::prelude::*;

verus! {

/// What one column holds.
#[derive(Debug, PartialEq)]
pub struct ColumnSnapshot {
    pub name: String,
    pub datatype: DataType,
    pub is_primary_key: bool,
    pub data: ColumnData,
}

/// What one table holds.
#[derive(Debug, PartialEq)]
pub struct TableSnapshot {
    pub name: String,
    /// The columns in the order of their declaration.
    pub columns: Vec<ColumnSnapshot>,
}

/// A column snapshot as specifications see it.
pub struct ColumnContent {
    pub name: Seq<char>,
    pub datatype: DataType,
    pub is_primary_key: bool,
    /// The type of the storage that holds the values.
    pub stored_type: DataType,
    pub cells: Seq<Cell>,
}

/// A table snapshot as specifications see it.
pub struct TableContent {
    pub name: Seq<char>,
    pub columns: Seq<ColumnContent>,
}

impl View for ColumnSnapshot {
    type V = ColumnContent;

    open spec fn view(&self) -> ColumnContent {
        ColumnContent {
            name: self.name@,
            datatype: self.datatype,
            is_primary_key: self.is_primary_key,
            stored_type: self.data.value_type(),
            cells: self.data.cells(),
        }
    }
}

impl View for TableSnapshot {
    type V = TableContent;

    open spec fn view(&self) -> TableContent {
        TableContent {
            name: self.name@,
            columns: Seq::new(self.columns@.len(), |i: int| self.columns@[i]@),
        }
    }
}

/// What a snapshot of the table holds.
pub open spec fn content_of(tv: TableView) -> TableContent {
    TableContent {
        name: tv.name,
        columns: Seq::new(
            tv.columns.len(),
            |i: int|
                ColumnContent {
                    name: tv.columns[i].name,
                    datatype: tv.columns[i].datatype,
                    is_primary_key: tv.columns[i].is_primary_key,
                    stored_type: tv.columns[i].datatype,
                    cells: tv.columns[i].cells,
                },
        ),
    }
}

/// Whether the table has the schema and the values of the snapshot.
pub open spec fn holds_content(tv: TableView, content: TableContent) -> bool {
    &&& tv.name == content.name
    &&& tv.columns.len() == content.columns.len()
    &&& forall|i: int|
        0 <= i < tv.columns.len() ==> {
            let col = #[trigger] tv.columns[i];
            let c = content.columns[i];
            &&& col.name == c.name
            &&& col.datatype == c.datatype
            &&& col.is_primary_key == c.is_primary_key
            &&& col.cells == c.cells
        }
}

/// Whether the snapshot has the shape of a table: the names of its columns
/// differ, each storage is of its column's type, and all storages hold
/// equally many values.
pub open spec fn content_shaped(content: TableContent) -> bool {
    &&& forall|i: int, j: int|
        0 <= i < j < content.columns.len() ==> (#[trigger] content.columns[i]).name != (
        #[trigger] content.columns[j]).name
    &&& forall|i: int|
        0 <= i < content.columns.len() ==> (#[trigger] content.columns[i]).stored_type
            == content.columns[i].datatype
    &&& forall|i: int|
        0 <= i < content.columns.len() ==> (#[trigger] content.columns[i]).cells.len()
            == content.columns[0].cells.len()
}

/// Whether every value of the snapshot is a value of its column's type.
pub open spec fn content_typed(content: TableContent) -> bool {
    forall|i: int, j: int|
        0 <= i < content.columns.len() && 0 <= j < content.columns[i].cells.len() ==> cell_has_type(
            #[trigger] content.columns[i].cells[j],
            content.columns[i].datatype,
        )
}

/// Whether no value of an indexed column of the snapshot occurs twice.
pub open spec fn content_keys_unique(content: TableContent) -> bool {
    forall|i: int|
        0 <= i < content.columns.len() && (#[trigger] content.columns[i]).is_primary_key
            && indexable(content.columns[i].datatype) ==> content.columns[i].cells.no_duplicates()
}

/// Whether a snapshot can be restored. The conditions are tried in this
/// order: a snapshot that has not the shape of a table is a `SchemaError`;
/// a value that is not of its column's type is a `ParseError`; a value of
/// an indexed column that occurs twice is a `ConstraintViolation`.
pub open spec fn restore_verdict(content: TableContent) -> Result<(), Error> {
    if !content_shaped(content) {
        Err(Error::SchemaError)
    } else if !content_typed(content) {
        Err(Error::ParseError)
    } else if !content_keys_unique(content) {
        Err(Error::ConstraintViolation)
    } else {
        Ok(())
    }
}

/// The names of the tables of the snapshots.
pub open spec fn content_names(contents: Seq<TableContent>) -> Seq<Seq<char>> {
    Seq::new(contents.len(), |i: int| contents[i].name)
}

/// The error of the first snapshot that cannot be restored, if there is one.
pub open spec fn first_refusal(contents: Seq<TableContent>) -> Result<(), Error>
    decreases contents.len(),
{
    if contents.len() == 0 {
        Ok(())
    } else {
        match first_refusal(contents.drop_last()) {
            Err(e) => Err(e),
            Ok(_) => restore_verdict(contents.last()),
        }
    }
}

/// Whether the snapshots of a database can be restored: two tables of one
/// name are a `SchemaError`; otherwise the first snapshot that cannot be
/// restored decides.
pub open spec fn restore_all_verdict(contents: Seq<TableContent>) -> Result<(), Error> {
    if !content_names(contents).no_duplicates() {
        Err(Error::SchemaError)
    } else {
        first_refusal(contents)
    }
}

/// The snapshots of the tables.
pub open spec fn contents_of(tables: Seq<TableView>) -> Seq<TableContent> {
    Seq::new(tables.len(), |i: int| content_of(tables[i]))
}

/// What the snapshots `v` hold.
pub open spec fn snapshot_views(v: Seq<TableSnapshot>) -> Seq<TableContent> {
    Seq::new(v.len(), |i: int| v[i]@)
}

/// Where a snapshot among the first `k` cannot be restored, the first such
/// snapshot of all is among them.
pub proof fn lemma_first_refusal_prefix(contents: Seq<TableContent>, k: int)
    requires
        0 <= k <= contents.len(),
        first_refusal(contents.take(k)) is Err,
    ensures
        first_refusal(contents) == first_refusal(contents.take(k)),
    decreases contents.len() - k,
{
    if k < contents.len() {
        assert(contents.take(k + 1).drop_last() =~= contents.take(k));
        lemma_first_refusal_prefix(contents, k + 1);
    } else {
        assert(contents.take(k) =~= contents);
    }
}

/// Where every snapshot can be restored, none is refused.
pub proof fn lemma_first_refusal_none(contents: Seq<TableContent>)
    requires
        forall|i: int| 0 <= i < contents.len() ==> restore_verdict(#[trigger] contents[i]) is Ok,
    ensures
        first_refusal(contents) is Ok,
    decreases contents.len(),
{
    if contents.len() > 0 {
        assert forall|i: int| 0 <= i < contents.drop_last().len() implies restore_verdict(
            #[trigger] contents.drop_last()[i],
        ) is Ok by {
            assert(contents.drop_last()[i] == contents[i]);
        }
        lemma_first_refusal_none(contents.drop_last());
        assert(restore_verdict(contents[contents.len() - 1]) is Ok);
    }
}

} // verus!
