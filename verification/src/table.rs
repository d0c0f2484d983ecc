//! Tables: a schema, one storage per column, and the index of each
//! primary-key column.
//!
//! A row is never held as one object: it is what the storages of the columns
//! hold at one ordinal. So all storages of a table hold equally many values,
//! at all times.
//!
//! What this table settles:
//!
//! - An insertion names every column of the table, in any order. A column
//!   list that leaves a column out is refused, so that no storage ever falls
//!   behind the others.
//! - An insertion is all or nothing. Every text of every row is read, and
//!   every primary key is checked against the table and against the other
//!   rows of the insertion, before anything is changed. One text that cannot
//!   be read, or one key that would occur twice, refuses all rows.
//! - Only primary keys are indexed. Their values are unique, so one ordinal
//!   for each key is all that an index has to hold. A condition on any other
//!   column is refused, never answered from a scan.
//! - A column of the type `Invalid` is part of the schema, but it holds no
//!   values: a table with such a column takes no rows.

use crate::column::{ColumnData, ColumnHeader, ColumnIndex};
use crate::datatype::{datatype_of_token, indexable, DataType};
use crate::error::Error;
use crate::index::{
    has_key, index_tracks, lemma_fresh_iff_unique, lemma_lookup_at, lemma_matching_eq,
    lemma_selected_rows, lookup, matching_ordinals,
};
use crate::parser::create::CreateQuery;
use crate::parser::select::{Operator, SelectQuery};
use crate::snapshot::{
    content_keys_unique, content_of, content_shaped, content_typed, holds_content,
    restore_verdict, ColumnSnapshot, TableSnapshot,
};
use crate::staging::{
    all_parse, append_column, column_inv, column_texts, column_view, parse_column, parsed,
    staged_keys_fresh,
};
use crate::value::{cell_has_type, nested_texts, parse_cell, picked, rendered, texts, Cell};
use vstd::prelude::*;

pub mod util;

verus! {

/// A column as specifications see it.
pub struct ColumnView {
    pub name: Seq<char>,
    pub datatype: DataType,
    pub is_primary_key: bool,
    /// The values of the column in the order of insertion.
    pub cells: Seq<Cell>,
    /// The entries of the column's index in ascending key order.
    pub index: Seq<(Cell, usize)>,
}

/// A table as specifications see it.
pub struct TableView {
    pub name: Seq<char>,
    /// The columns in the order of their declaration.
    pub columns: Seq<ColumnView>,
}

/// The first position at which `name` occurs in `names`, if it occurs.
pub open spec fn position_in(names: Seq<Seq<char>>, name: Seq<char>) -> Option<int>
    decreases names.len(),
{
    if names.len() == 0 {
        None
    } else {
        match position_in(names.drop_last(), name) {
            Some(i) => Some(i),
            None => if names.last() == name {
                Some(names.len() - 1)
            } else {
                None
            },
        }
    }
}

impl ColumnView {
    /// Whether the column is indexed: it is a primary key of a type that
    /// can key an index.
    pub open spec fn indexed(self) -> bool {
        self.is_primary_key && indexable(self.datatype)
    }

    /// Whether the column is well formed: its values are of its type, and
    /// its index is that of its values if it is indexed, and empty if not.
    pub open spec fn wf(self) -> bool {
        &&& forall|j: int|
            0 <= j < self.cells.len() ==> cell_has_type(#[trigger] self.cells[j], self.datatype)
        &&& if self.indexed() {
            index_tracks(self.index, self.cells)
        } else {
            self.index.len() == 0
        }
    }
}

impl TableView {
    /// The number of rows.
    pub open spec fn row_count(self) -> nat {
        if self.columns.len() == 0 {
            0
        } else {
            self.columns[0].cells.len()
        }
    }

    /// The names of the columns in the order of their declaration.
    pub open spec fn column_names(self) -> Seq<Seq<char>> {
        Seq::new(self.columns.len(), |i: int| self.columns[i].name)
    }

    /// The position of the column named `name`, if there is one.
    pub open spec fn position(self, name: Seq<char>) -> Option<int> {
        position_in(self.column_names(), name)
    }

    /// Whether every column holds as many values as there are rows.
    pub open spec fn aligned(self) -> bool {
        forall|i: int|
            0 <= i < self.columns.len() ==> (#[trigger] self.columns[i]).cells.len()
                == self.row_count()
    }

    /// Whether no two columns have the same name.
    pub open spec fn names_distinct(self) -> bool {
        forall|i: int, j: int|
            0 <= i < j < self.columns.len() ==> (#[trigger] self.columns[i]).name != (
            #[trigger] self.columns[j]).name
    }

    /// Whether the table is well formed: its columns are, they hold equally
    /// many values, and their names differ.
    pub open spec fn wf(self) -> bool {
        &&& forall|i: int| 0 <= i < self.columns.len() ==> (#[trigger] self.columns[i]).wf()
        &&& self.aligned()
        &&& self.names_distinct()
    }
}

/// Whether no two columns of the query have the same name.
pub open spec fn declares_distinct_names(cq: CreateQuery) -> bool {
    forall|i: int, j: int|
        0 <= i < j < cq.columns@.len() ==> (#[trigger] cq.columns@[i]).name@ != (
        #[trigger] cq.columns@[j]).name@
}

/// The table that the query describes: its columns in the order of their
/// declaration, each without values.
pub open spec fn created(cq: CreateQuery) -> TableView {
    TableView {
        name: cq.table_name@,
        columns: Seq::new(
            cq.columns@.len(),
            |i: int|
                ColumnView {
                    name: cq.columns@[i].name@,
                    datatype: datatype_of_token(cq.columns@[i].datatype@),
                    is_primary_key: cq.columns@[i].is_pk,
                    cells: Seq::empty(),
                    index: Seq::empty(),
                },
        ),
    }
}

/// If `name` occurs in a prefix of `names`, its first position in the whole
/// is its first position in the prefix.
pub proof fn lemma_position_in_prefix(names: Seq<Seq<char>>, k: int, name: Seq<char>)
    requires
        0 <= k <= names.len(),
        position_in(names.take(k), name) is Some,
    ensures
        position_in(names, name) == position_in(names.take(k), name),
    decreases names.len() - k,
{
    if k < names.len() {
        assert(names.take(k + 1).drop_last() =~= names.take(k));
        lemma_position_in_prefix(names, k + 1, name);
    } else {
        assert(names.take(k) =~= names);
    }
}

/// What `position_in` finds is a position of `name`, and the first one.
pub proof fn lemma_position_in_found(names: Seq<Seq<char>>, name: Seq<char>)
    ensures
        match position_in(names, name) {
            Some(i) => 0 <= i < names.len() && names[i] == name && forall|j: int|
                0 <= j < i ==> names[j] != name,
            None => forall|j: int| 0 <= j < names.len() ==> names[j] != name,
        },
    decreases names.len(),
{
    if names.len() > 0 {
        lemma_position_in_found(names.drop_last(), name);
        assert forall|j: int| 0 <= j < names.len() - 1 implies names[j]
            == names.drop_last()[j] by {}
    }
}

/// Whether the column list of an insertion fits the table: it has as many
/// names as the table has columns, each of its names is the name of a
/// column, and each column is named in it. Then each column is named once.
pub open spec fn column_list_fits(tv: TableView, cols: Seq<Seq<char>>) -> bool {
    &&& cols.len() == tv.columns.len()
    &&& forall|k: int| 0 <= k < cols.len() ==> tv.position(#[trigger] cols[k]) is Some
    &&& forall|i: int|
        0 <= i < tv.columns.len() ==> position_in(cols, (#[trigger] tv.columns[i]).name) is Some
}

/// Whether every column of the table can take values: none is of the type
/// `Invalid`, and each primary key is of a type that can key an index.
pub open spec fn storable(tv: TableView) -> bool {
    forall|i: int|
        0 <= i < tv.columns.len() ==> {
            let col = #[trigger] tv.columns[i];
            col.datatype != DataType::Invalid && (col.is_primary_key ==> indexable(col.datatype))
        }
}

/// Whether every row holds `width` texts.
pub open spec fn rows_fit(width: nat, rows: Seq<Seq<Seq<char>>>) -> bool {
    forall|r: int| 0 <= r < rows.len() ==> (#[trigger] rows[r]).len() == width
}

/// The texts that the rows of an insertion give for the column `col`, in
/// the order of the rows.
pub open spec fn staged_texts(
    col: ColumnView,
    cols: Seq<Seq<char>>,
    rows: Seq<Seq<Seq<char>>>,
) -> Seq<Seq<char>> {
    column_texts(rows, position_in(cols, col.name).unwrap())
}

/// The values that the rows of an insertion give for the column `col`, in
/// the order of the rows.
pub open spec fn staged_cells(
    col: ColumnView,
    cols: Seq<Seq<char>>,
    rows: Seq<Seq<Seq<char>>>,
) -> Seq<Cell> {
    parsed(col.datatype, staged_texts(col, cols, rows))
}

/// Whether every text of every row denotes a value of its column's type.
pub open spec fn rows_parse(
    tv: TableView,
    cols: Seq<Seq<char>>,
    rows: Seq<Seq<Seq<char>>>,
) -> bool {
    forall|i: int|
        0 <= i < tv.columns.len() ==> all_parse(
            (#[trigger] tv.columns[i]).datatype,
            staged_texts(tv.columns[i], cols, rows),
        )
}

/// Whether, with the rows of an insertion, no value of a primary-key
/// column occurs twice: neither a value of the table and one of the
/// rows, nor two of the rows.
pub open spec fn keys_stay_unique(
    tv: TableView,
    cols: Seq<Seq<char>>,
    rows: Seq<Seq<Seq<char>>>,
) -> bool {
    forall|i: int|
        0 <= i < tv.columns.len() && (#[trigger] tv.columns[i]).is_primary_key ==> (
        tv.columns[i].cells + staged_cells(tv.columns[i], cols, rows)).no_duplicates()
}

/// How an insertion ends. The conditions are tried in this order, each on
/// the whole of the insertion:
/// a column list that does not fit the table, a table with a column that
/// cannot take values, or a row that does not fit the column list is a
/// `SchemaError`; a text that does not denote a value of its column's type
/// is a `ParseError`; a value of a primary-key column that would occur
/// twice is a `ConstraintViolation`.
pub open spec fn insert_verdict(
    tv: TableView,
    cols: Seq<Seq<char>>,
    rows: Seq<Seq<Seq<char>>>,
) -> Result<(), Error> {
    if !column_list_fits(tv, cols) || !storable(tv) || !rows_fit(cols.len(), rows) {
        Err(Error::SchemaError)
    } else if !rows_parse(tv, cols, rows) {
        Err(Error::ParseError)
    } else if !keys_stay_unique(tv, cols, rows) {
        Err(Error::ConstraintViolation)
    } else {
        Ok(())
    }
}

/// What an insertion that is not refused does: the schema stays, and each
/// column holds what it held, followed by the values of the rows in the
/// order of the rows. (The indexes follow: the table stays well formed.)
pub open spec fn insert_effect(
    before: TableView,
    cols: Seq<Seq<char>>,
    rows: Seq<Seq<Seq<char>>>,
    after: TableView,
) -> bool {
    &&& after.name == before.name
    &&& after.columns.len() == before.columns.len()
    &&& forall|i: int|
        0 <= i < before.columns.len() ==> {
            let a = #[trigger] after.columns[i];
            let b = before.columns[i];
            &&& a.name == b.name
            &&& a.datatype == b.datatype
            &&& a.is_primary_key == b.is_primary_key
            &&& a.cells == b.cells + staged_cells(b, cols, rows)
        }
}

/// Whether the column `col` is checked when one row is tried against the
/// table: it is a primary key, and the column list names it.
pub open spec fn key_checked(col: ColumnView, cols: Seq<Seq<char>>) -> bool {
    col.is_primary_key && position_in(cols, col.name) is Some
}

/// The text that one row gives for the column `col`.
pub open spec fn key_text(col: ColumnView, cols: Seq<Seq<char>>, row: Seq<Seq<char>>) -> Seq<char> {
    row[position_in(cols, col.name).unwrap()]
}

/// Whether one row could be inserted as far as the primary keys go. Every
/// primary-key column that the column list names is checked, and the
/// conditions are tried in this order, each on all of them: a row that does
/// not fit the column list, or a primary key that has no index, is a
/// `SchemaError`; a text that does not denote a value of its column's type
/// is a `ParseError`; a value that the column already holds is a
/// `ConstraintViolation`.
pub open spec fn constraint_verdict(
    tv: TableView,
    cols: Seq<Seq<char>>,
    row: Seq<Seq<char>>,
) -> Result<(), Error> {
    if row.len() != cols.len() || exists|i: int|
        0 <= i < tv.columns.len() && key_checked(#[trigger] tv.columns[i], cols) && !indexable(
            tv.columns[i].datatype,
        ) {
        Err(Error::SchemaError)
    } else if exists|i: int|
        0 <= i < tv.columns.len() && key_checked(#[trigger] tv.columns[i], cols) && parse_cell(
            tv.columns[i].datatype,
            key_text(tv.columns[i], cols, row),
        ) is None {
        Err(Error::ParseError)
    } else if exists|i: int|
        0 <= i < tv.columns.len() && key_checked(#[trigger] tv.columns[i], cols)
            && tv.columns[i].cells.contains(
            parse_cell(tv.columns[i].datatype, key_text(tv.columns[i], cols, row)).unwrap(),
        ) {
        Err(Error::ConstraintViolation)
    } else {
        Ok(())
    }
}

/// Whether every name of the projection is the name of a column.
pub open spec fn projection_known(tv: TableView, projection: Seq<Seq<char>>) -> bool {
    forall|k: int| 0 <= k < projection.len() ==> tv.position(#[trigger] projection[k]) is Some
}

/// The texts of the rows at `ordinals`, column by column: one sequence for
/// each name of the projection, in the order of the projection, each with the
/// texts of that column's values at `ordinals`, in the order of `ordinals`.
pub open spec fn projected(
    tv: TableView,
    projection: Seq<Seq<char>>,
    ordinals: Seq<usize>,
) -> Seq<Seq<Seq<char>>> {
    Seq::new(
        projection.len(),
        |k: int| rendered(picked(tv.columns[tv.position(projection[k]).unwrap()].cells, ordinals)),
    )
}

/// The texts of all rows, column by column: one sequence for each name of
/// the projection, in the order of the projection, each with the texts of
/// that column's values in the order of insertion.
pub open spec fn full_scan(tv: TableView, projection: Seq<Seq<char>>) -> Seq<Seq<Seq<char>>> {
    Seq::new(
        projection.len(),
        |k: int| rendered(tv.columns[tv.position(projection[k]).unwrap()].cells),
    )
}

/// What a select query gives on a table, column by column. The conditions
/// are tried in this order:
/// more than one condition is an `UnsupportedQuery`; a projected column
/// that the table does not have is a `SchemaError`; without a condition
/// all rows are handed out in the order of insertion. With one, a column
/// that the table does not have is a `SchemaError`; an operator that is no
/// comparison, or a column without an index, is an `UnsupportedQuery`; a
/// literal that does not denote a value of the column's type is a
/// `ParseError`; else the rows that the index selects are handed out, in
/// ascending order of the column's values.
pub open spec fn select_outcome(tv: TableView, sq: SelectQuery) -> Result<
    Seq<Seq<Seq<char>>>,
    Error,
> {
    let projection = texts(sq.projection@);
    if sq.where_expressions@.len() > 1 {
        Err(Error::UnsupportedQuery)
    } else if !projection_known(tv, projection) {
        Err(Error::SchemaError)
    } else if sq.where_expressions@.len() == 0 {
        Ok(full_scan(tv, projection))
    } else {
        let e = sq.where_expressions@[0];
        match tv.position(e.left@) {
            None => Err(Error::SchemaError),
            Some(i) => {
                let col = tv.columns[i];
                match e.op {
                    Operator::Binary(op) => if !col.indexed() {
                        Err(Error::UnsupportedQuery)
                    } else {
                        match parse_cell(col.datatype, e.right@) {
                            None => Err(Error::ParseError),
                            Some(bound) => Ok(
                                projected(tv, projection, matching_ordinals(col.index, op, bound)),
                            ),
                        }
                    },
                    _ => Err(Error::UnsupportedQuery),
                }
            },
        }
    }
}

/// The schema of a table as rows to show: a heading, then for each column
/// its name and the name of its type.
pub open spec fn schema_listing(tv: TableView) -> Seq<Seq<Seq<char>>> {
    Seq::new(
        tv.columns.len() + 1,
        |r: int|
            if r == 0 {
                seq!["Column Name"@, "Data Type"@]
            } else {
                seq![tv.columns[r - 1].name, tv.columns[r - 1].datatype.shown()]
            },
    )
}

/// The texts of all values of a table, column by column, in the order of
/// the columns.
pub open spec fn data_listing(tv: TableView) -> Seq<Seq<Seq<char>>> {
    Seq::new(tv.columns.len(), |i: int| rendered(tv.columns[i].cells))
}

/// A table.
#[derive(Debug, PartialEq)]
pub struct Table {
    columns: Vec<ColumnHeader>,
    name: String,
    rows: Vec<ColumnData>,
}

impl View for Table {
    type V = TableView;

    closed spec fn view(&self) -> TableView {
        TableView {
            name: self.name@,
            columns: Seq::new(
                self.columns@.len(),
                |i: int|
                    ColumnView {
                        name: self.columns@[i].name@,
                        datatype: self.columns@[i].datatype,
                        is_primary_key: self.columns@[i].is_primary_key,
                        cells: self.rows@[i].cells(),
                        index: self.columns@[i].index.entries(),
                    },
            ),
        }
    }
}

/// The first position in `names` of a string with the characters of `name`.
pub fn find_name(names: &Vec<String>, name: &String) -> (r: Option<usize>)
    ensures
        match r {
            Some(i) => position_in(crate::value::texts(names@), name@) == Some(i as int) && i
                < names@.len(),
            None => position_in(crate::value::texts(names@), name@) is None,
        },
{
    let ghost all = crate::value::texts(names@);
    let mut i: usize = 0;
    while i < names.len()
        invariant
            i <= names.len(),
            all == crate::value::texts(names@),
            position_in(all.take(i as int), name@) is None,
        decreases names.len() - i,
    {
        assert(all.take(i + 1).drop_last() =~= all.take(i as int));
        assert(all.take(i + 1).last() == names@[i as int]@);
        if names[i] == *name {
            proof {
                lemma_position_in_prefix(all, i + 1, name@);
            }
            return Some(i);
        }
        i += 1;
    }
    assert(all.take(i as int) =~= all);
    None
}

impl Table {
    /// What must hold of the parts of a table beyond what its view shows.
    pub closed spec fn inv(&self) -> bool {
        &&& self.columns@.len() == self.rows@.len()
        &&& forall|i: int|
            0 <= i < self.columns@.len() ==> {
                let h = #[trigger] self.columns@[i];
                &&& h.is_indexed == h.is_primary_key
                &&& h.index.wf()
                &&& h.index.key_type() == if indexable(h.datatype) {
                    h.datatype
                } else {
                    DataType::Invalid
                }
                &&& self.rows@[i].value_type() == h.datatype
            }
    }

    /// Whether the table is well formed. Every table that this library
    /// hands out is, and stays so under its operations.
    pub open spec fn wf(&self) -> bool {
        self.inv() && self@.wf()
    }

    /// The table that `cq` describes, without rows.
    ///
    /// Two columns of one name are a `SchemaError`.
    pub fn new(cq: CreateQuery) -> (r: Result<Table, Error>)
        ensures
            match r {
                Ok(t) => declares_distinct_names(cq) && t.wf() && t@ == created(cq),
                Err(e) => !declares_distinct_names(cq) && e == Error::SchemaError,
            },
    {
        let mut table_cols: Vec<ColumnHeader> = Vec::new();
        let mut table_data: Vec<ColumnData> = Vec::new();
        let mut i: usize = 0;
        while i < cq.columns.len()
            invariant
                i <= cq.columns@.len(),
                table_cols@.len() == i,
                table_data@.len() == i,
                forall|a: int, b: int|
                    0 <= a < b < i ==> (#[trigger] cq.columns@[a]).name@ != (
                    #[trigger] cq.columns@[b]).name@,
                forall|k: int|
                    0 <= k < i ==> {
                        let h = #[trigger] table_cols@[k];
                        &&& h.name@ == cq.columns@[k].name@
                        &&& h.datatype == datatype_of_token(cq.columns@[k].datatype@)
                        &&& h.is_primary_key == cq.columns@[k].is_pk
                        &&& h.is_indexed == h.is_primary_key
                        &&& h.index.wf()
                        &&& h.index.entries() == Seq::<(Cell, usize)>::empty()
                        &&& h.index.key_type() == if indexable(h.datatype) {
                            h.datatype
                        } else {
                            DataType::Invalid
                        }
                        &&& table_data@[k].value_type() == h.datatype
                        &&& table_data@[k].cells() == Seq::<Cell>::empty()
                    },
            decreases cq.columns@.len() - i,
        {
            let c = &cq.columns[i];
            let mut k: usize = 0;
            while k < i
                invariant
                    k <= i < cq.columns@.len(),
                    c == cq.columns@[i as int],
                    forall|a: int| 0 <= a < k ==> (#[trigger] cq.columns@[a]).name@ != c.name@,
                decreases i - k,
            {
                if cq.columns[k].name == c.name {
                    return Err(Error::SchemaError);
                }
                k += 1;
            }
            let header = ColumnHeader::new(c.name.clone(), c.datatype.clone(), c.is_pk);
            let data = ColumnData::new(header.datatype);
            table_cols.push(header);
            table_data.push(data);
            i += 1;
        }
        let t = Table { columns: table_cols, name: cq.table_name, rows: table_data };
        proof {
            assert(t@.columns =~= created(cq).columns);
            assert(t@ == created(cq));
            assert forall|i: int| 0 <= i < t@.columns.len() implies (
            #[trigger] t@.columns[i]).wf() by {
                let col = t@.columns[i];
                assert(col.cells.len() == 0);
                if col.indexed() {
                    assert forall|c: Cell| (#[trigger] lookup(col.index, c)) is None by {
                        assert(!crate::index::has_key(col.index, c));
                    }
                }
            }
        }
        Ok(t)
    }

    /// The name of the table.
    pub fn name(&self) -> (r: &String)
        ensures
            r@ == self@.name,
    {
        &self.name
    }

    /// The headers of the columns in the order of their declaration.
    pub fn columns(&self) -> (r: &Vec<ColumnHeader>)
        ensures
            r@.len() == self@.columns.len(),
            forall|i: int|
                0 <= i < r@.len() ==> {
                    let h = #[trigger] r@[i];
                    &&& h.name@ == self@.columns[i].name
                    &&& h.datatype == self@.columns[i].datatype
                    &&& h.is_primary_key == self@.columns[i].is_primary_key
                    &&& h.index.entries() == self@.columns[i].index
                    &&& self.wf() ==> {
                    &&& h.is_indexed == h.is_primary_key
                    &&& h.index.wf()
                    &&& h.index.key_type() == if indexable(h.datatype) {
                        h.datatype
                    } else {
                        DataType::Invalid
                    }
                }
                },
    {
        &self.columns
    }

    /// A table holds no more rows than can be counted.
    pub proof fn lemma_row_count_bounded(&self)
        requires
            self.wf(),
        ensures
            self@.row_count() <= usize::MAX,
    {
        if self.rows@.len() > 0 {
            assert(self@.columns[0].cells == self.rows@[0].cells());
            self.rows@[0].lemma_cells_bounded();
        }
    }

    /// The number of rows.
    pub fn row_count(&self) -> (n: usize)
        requires
            self.wf(),
        ensures
            n == self@.row_count(),
    {
        if self.rows.len() == 0 {
            0
        } else {
            assert(self@.columns[0].cells == self.rows@[0].cells());
            self.rows[0].count()
        }
    }

    /// The position of the column named `name`, if there is one.
    pub fn column_position(&self, name: &String) -> (r: Option<usize>)
        ensures
            match r {
                Some(i) => self@.position(name@) == Some(i as int) && i < self@.columns.len(),
                None => self@.position(name@) is None,
            },
    {
        let ghost names = self@.column_names();
        let mut i: usize = 0;
        while i < self.columns.len()
            invariant
                i <= self.columns@.len(),
                names == self@.column_names(),
                names.len() == self.columns@.len(),
                position_in(names.take(i as int), name@) is None,
            decreases self.columns@.len() - i,
        {
            assert(names.take(i + 1).drop_last() =~= names.take(i as int));
            assert(names.take(i + 1).last() == self.columns@[i as int].name@);
            if self.columns[i].name == *name {
                proof {
                    lemma_position_in_prefix(names, i + 1, name@);
                }
                return Some(i);
            }
            i += 1;
        }
        assert(names.take(i as int) =~= names);
        None
    }

    /// Whether the table has a column named `column`.
    pub fn column_exist(&self, column: String) -> (r: bool)
        ensures
            r == self@.position(column@) is Some,
    {
        self.column_position(&column).is_some()
    }

    /// The header of the column named `col_name`; a `SchemaError` if there
    /// is no such column.
    pub fn get_column(&self, col_name: String) -> (r: Result<&ColumnHeader, Error>)
        ensures
            match r {
                Ok(h) => self@.position(col_name@) matches Some(i) && {
                    &&& h.name@ == self@.columns[i].name
                    &&& h.datatype == self@.columns[i].datatype
                    &&& h.is_primary_key == self@.columns[i].is_primary_key
                    &&& h.index.entries() == self@.columns[i].index
                    &&& self.wf() ==> {
                    &&& h.is_indexed == h.is_primary_key
                    &&& h.index.wf()
                    &&& h.index.key_type() == if indexable(h.datatype) {
                        h.datatype
                    } else {
                        DataType::Invalid
                    }
                }
                },
                Err(e) => self@.position(col_name@) is None && e == Error::SchemaError,
            },
    {
        match self.column_position(&col_name) {
            Some(i) => Ok(&self.columns[i]),
            None => Err(Error::SchemaError),
        }
    }

    /// The positions in `cols` of the names of the columns, in the order of
    /// the columns, if the column list fits the table.
    #[verifier::loop_isolation(false)]
    fn column_slots(&self, cols: &Vec<String>) -> (r: Option<Vec<usize>>)
        ensures
            match r {
                Some(slots) => {
                    &&& column_list_fits(self@, texts(cols@))
                    &&& slots@.len() == self@.columns.len()
                    &&& forall|i: int|
                        0 <= i < slots@.len() ==> position_in(
                            texts(cols@),
                            self@.columns[i].name,
                        ) == Some(#[trigger] slots@[i] as int) && slots@[i] < cols@.len()
                },
                None => !column_list_fits(self@, texts(cols@)),
            },
    {
        let ghost tv = self@;
        let ghost cs = texts(cols@);
        if cols.len() != self.columns.len() {
            return None;
        }
        let mut k: usize = 0;
        while k < cols.len()
            invariant
                k <= cols@.len(),
                forall|j: int| 0 <= j < k ==> tv.position(#[trigger] cs[j]) is Some,
            decreases cols@.len() - k,
        {
            if self.column_position(&cols[k]).is_none() {
                assert(tv.position(cs[k as int]) is None);
                return None;
            }
            k += 1;
        }
        let mut slots: Vec<usize> = Vec::new();
        let mut i: usize = 0;
        while i < self.columns.len()
            invariant
                i <= self.columns@.len(),
                slots@.len() == i,
                forall|j: int|
                    0 <= j < i ==> position_in(cs, tv.columns[j].name) == Some(
                        #[trigger] slots@[j] as int,
                    ) && slots@[j] < cols@.len(),
            decreases self.columns@.len() - i,
        {
            match find_name(cols, &self.columns[i].name) {
                Some(slot) => {
                    proof {
                        lemma_position_in_found(cs, tv.columns[i as int].name);
                    }
                    slots.push(slot);
                },
                None => {
                    assert(position_in(cs, tv.columns[i as int].name) is None);
                    return None;
                },
            }
            i += 1;
        }
        assert forall|j: int| 0 <= j < tv.columns.len() implies position_in(
            cs,
            (#[trigger] tv.columns[j]).name,
        ) is Some by {
            assert(slots@[j] < cols@.len());
        }
        Some(slots)
    }

    /// Whether every column of the table can take values.
    #[verifier::loop_isolation(false)]
    fn is_storable(&self) -> (r: bool)
        ensures
            r == storable(self@),
    {
        let ghost tv = self@;
        let mut i: usize = 0;
        while i < self.columns.len()
            invariant
                i <= self.columns@.len(),
                forall|j: int|
                    0 <= j < i ==> {
                        let col = #[trigger] tv.columns[j];
                        col.datatype != DataType::Invalid && (col.is_primary_key ==> indexable(
                            col.datatype,
                        ))
                    },
            decreases self.columns@.len() - i,
        {
            let h = &self.columns[i];
            let ok = match h.datatype {
                DataType::Invalid => false,
                _ => !h.is_primary_key || h.datatype.is_indexable(),
            };
            if !ok {
                let ghost col = tv.columns[i as int];
                assert(!(col.datatype != DataType::Invalid && (col.is_primary_key ==> indexable(
                    col.datatype,
                ))));
                return false;
            }
            i += 1;
        }
        true
    }

    /// Appends rows.
    ///
    /// `cols` names the columns of the table in any order, and each row of
    /// `values` holds one text for each name of `cols`, in the order of
    /// `cols`. The insertion is all or nothing: if it is refused for any row,
    /// the table stays as it was. When it is refused is what
    /// [`insert_verdict`] says.
    #[verifier::loop_isolation(false)]
    pub fn insert_row(&mut self, cols: &Vec<String>, values: &Vec<Vec<String>>) -> (r: Result<
        (),
        Error,
    >)
        requires
            old(self).wf(),
        ensures
            final(self).wf(),
            r == insert_verdict(old(self)@, texts(cols@), nested_texts(values@)),
            r is Err ==> final(self)@ == old(self)@,
            r is Ok ==> insert_effect(
                old(self)@,
                texts(cols@),
                nested_texts(values@),
                final(self)@,
            ),
    {
        let ghost tv = self@;
        let ghost cs = texts(cols@);
        let ghost rs = nested_texts(values@);
        let slots = match self.column_slots(cols) {
            Some(slots) => slots,
            None => {
                return Err(Error::SchemaError);
            },
        };
        if !self.is_storable() {
            return Err(Error::SchemaError);
        }
        let n = self.columns.len();
        let m = values.len();
        let mut r: usize = 0;
        while r < m
            invariant
                r <= m,
                forall|j: int| 0 <= j < r ==> (#[trigger] rs[j]).len() == cs.len(),
            decreases m - r,
        {
            if values[r].len() != cols.len() {
                assert(rs[r as int].len() != cs.len());
                return Err(Error::SchemaError);
            }
            r += 1;
        }
        assert(rows_fit(cs.len(), rs));
        let mut staged: Vec<ColumnData> = Vec::new();
        let mut i: usize = 0;
        while i < n
            invariant
                i <= n,
                staged@.len() == i,
                forall|j: int|
                    0 <= j < i ==> {
                        let col = #[trigger] tv.columns[j];
                        &&& all_parse(col.datatype, staged_texts(col, cs, rs))
                        &&& staged@[j].value_type() == col.datatype
                        &&& staged@[j].cells() == staged_cells(col, cs, rs)
                    },
            decreases n - i,
        {
            assert forall|q: int| 0 <= q < values@.len() implies slots@[i as int] < (
            #[trigger] values@[q])@.len() by {
                assert(rs[q].len() == cs.len());
            }
            match parse_column(self.columns[i].datatype, values, slots[i]) {
                Some(d) => staged.push(d),
                None => {
                    let ghost col = tv.columns[i as int];
                    assert(!all_parse(col.datatype, staged_texts(col, cs, rs)));
                    return Err(Error::ParseError);
                },
            }
            i += 1;
        }
        assert(rows_parse(tv, cs, rs));
        i = 0;
        while i < n
            invariant
                i <= n,
                forall|j: int|
                    0 <= j < i && (#[trigger] tv.columns[j]).is_primary_key ==> (tv.columns[j].cells
                        + staged_cells(tv.columns[j], cs, rs)).no_duplicates(),
            decreases n - i,
        {
            if self.columns[i].is_primary_key {
                let ghost col = tv.columns[i as int];
                assert(col.wf() && col.indexed());
                assert(col.cells == self.rows@[i as int].cells());
                proof {
                    self.rows@[i as int].lemma_cells_bounded();
                    lemma_fresh_iff_unique(col.index, col.cells, staged@[i as int].cells());
                }
                if !staged_keys_fresh(&self.columns[i].index, &staged[i]) {
                    assert(!(col.cells + staged_cells(col, cs, rs)).no_duplicates());
                    return Err(Error::ConstraintViolation);
                }
            }
            i += 1;
        }
        assert(keys_stay_unique(tv, cs, rs));
        i = 0;
        while i < n
            invariant
                i <= n,
                self.name == old(self).name,
                self.columns@.len() == n,
                self.rows@.len() == n,
                forall|j: int|
                    i <= j < n ==> (#[trigger] self.columns@[j]) == old(self).columns@[j],
                forall|j: int| i <= j < n ==> (#[trigger] self.rows@[j]) == old(self).rows@[j],
                forall|j: int|
                    0 <= j < i ==> {
                        let h = #[trigger] self.columns@[j];
                        let d = self.rows@[j];
                        &&& column_inv(h, d)
                        &&& column_view(h, d).wf()
                        &&& h.name == old(self).columns@[j].name
                        &&& h.datatype == tv.columns[j].datatype
                        &&& h.is_primary_key == tv.columns[j].is_primary_key
                        &&& d.cells() == tv.columns[j].cells + staged_cells(tv.columns[j], cs, rs)
                    },
            decreases n - i,
        {
            let ghost col = tv.columns[i as int];
            assert(col.wf());
            assert(column_view(self.columns@[i as int], self.rows@[i as int]) == col);
            assert forall|j: int| 0 <= j < staged@[i as int].cells().len() implies cell_has_type(
                #[trigger] staged@[i as int].cells()[j],
                col.datatype,
            ) by {
                let t = staged_texts(col, cs, rs)[j];
                assert(parse_cell(col.datatype, t) is Some);
            }
            append_column(&mut self.columns[i], &mut self.rows[i], &staged[i]);
            i += 1;
        }
        proof {
            let after = self@;
            assert forall|j: int| 0 <= j < after.columns.len() implies {
                let a = #[trigger] after.columns[j];
                let b = tv.columns[j];
                &&& a.wf()
                &&& a.name == b.name
                &&& a.datatype == b.datatype
                &&& a.is_primary_key == b.is_primary_key
                &&& a.cells == b.cells + staged_cells(b, cs, rs)
                &&& a.cells.len() == tv.row_count() + rs.len()
            } by {
                assert(after.columns[j] == column_view(self.columns@[j], self.rows@[j]));
                assert(tv.columns[j].cells.len() == tv.row_count());
            }
            assert(after.aligned());
            assert(after.names_distinct()) by {
                assert forall|a: int, b: int| 0 <= a < b < after.columns.len() implies (
                #[trigger] after.columns[a]).name != (#[trigger] after.columns[b]).name by {
                    assert(tv.columns[a].name != tv.columns[b].name);
                }
            }
        }
        Ok(())
    }

    /// Whether one row could be inserted as far as the primary keys go:
    /// what [`constraint_verdict`] says. The table is not changed.
    #[verifier::loop_isolation(false)]
    pub fn does_violate_unique_constraint(&self, cols: &Vec<String>, values: &Vec<String>) -> (r:
        Result<(), Error>)
        requires
            self.wf(),
        ensures
            r == constraint_verdict(self@, texts(cols@), texts(values@)),
    {
        let ghost tv = self@;
        let ghost cs = texts(cols@);
        let ghost row = texts(values@);
        if values.len() != cols.len() {
            return Err(Error::SchemaError);
        }
        let n = self.columns.len();
        let mut slots: Vec<Option<usize>> = Vec::new();
        let mut i: usize = 0;
        while i < n
            invariant
                i <= n,
                slots@.len() == i,
                forall|j: int|
                    0 <= j < i ==> match #[trigger] slots@[j] {
                        Some(k) => key_checked(tv.columns[j], cs) && position_in(
                            cs,
                            tv.columns[j].name,
                        ) == Some(k as int) && k < cols@.len() && indexable(tv.columns[j].datatype),
                        None => !key_checked(tv.columns[j], cs),
                    },
            decreases n - i,
        {
            let h = &self.columns[i];
            let slot = if h.is_primary_key {
                find_name(cols, &h.name)
            } else {
                None
            };
            if slot.is_some() {
                proof {
                    lemma_position_in_found(cs, tv.columns[i as int].name);
                }
                if !h.datatype.is_indexable() {
                    assert(key_checked(tv.columns[i as int], cs));
                    return Err(Error::SchemaError);
                }
            }
            slots.push(slot);
            i += 1;
        }
        assert forall|j: int|
            0 <= j < tv.columns.len() && key_checked(
                #[trigger] tv.columns[j],
                cs,
            ) implies indexable(tv.columns[j].datatype) by {
            assert(slots@[j] is Some);
        }
        let mut found: Vec<bool> = Vec::new();
        i = 0;
        while i < n
            invariant
                i <= n,
                found@.len() == i,
                forall|j: int|
                    0 <= j < i && key_checked(#[trigger] tv.columns[j], cs) ==> match parse_cell(
                        tv.columns[j].datatype,
                        key_text(tv.columns[j], cs, row),
                    ) {
                        Some(key) => found@[j] == tv.columns[j].cells.contains(key),
                        None => false,
                    },
            decreases n - i,
        {
            let ghost col = tv.columns[i as int];
            let mut held = false;
            match slots[i] {
                Some(k) => {
                    assert(col.wf() && col.indexed());
                    assert(key_text(col, cs, row) == values@[k as int]@);
                    match self.columns[i].index.get_idx_data(&values[k]) {
                        Ok(o) => {
                            proof {
                                let key = parse_cell(col.datatype, key_text(col, cs, row))->0;
                                if col.cells.contains(key) {
                                    let j = choose|j: int|
                                        0 <= j < col.cells.len() && col.cells[j] == key;
                                    assert(lookup(col.index, col.cells[j]) is Some);
                                }
                                if lookup(col.index, key) is Some {
                                    let q = lookup(col.index, key)->0;
                                    assert(col.cells[q as int] == key);
                                }
                            }
                            held = o.is_some();
                        },
                        Err(_) => {
                            assert(key_checked(col, cs));
                            return Err(Error::ParseError);
                        },
                    }
                },
                None => {},
            }
            found.push(held);
            i += 1;
        }
        i = 0;
        while i < n
            invariant
                i <= n,
                forall|j: int|
                    0 <= j < i && key_checked(#[trigger] tv.columns[j], cs)
                        ==> !tv.columns[j].cells.contains(
                        parse_cell(
                            tv.columns[j].datatype,
                            key_text(tv.columns[j], cs, row),
                        ).unwrap(),
                    ),
            decreases n - i,
        {
            if found[i] && slots[i].is_some() {
                assert(key_checked(tv.columns[i as int], cs));
                return Err(Error::ConstraintViolation);
            }
            i += 1;
        }
        Ok(())
    }

    /// The positions of the columns that the projection names, in the order
    /// of the projection, if the table has them all.
    #[verifier::loop_isolation(false)]
    fn projection_positions(&self, projection: &Vec<String>) -> (r: Option<Vec<usize>>)
        ensures
            match r {
                Some(p) => {
                    &&& projection_known(self@, texts(projection@))
                    &&& p@.len() == projection@.len()
                    &&& forall|k: int|
                        0 <= k < p@.len() ==> self@.position(texts(projection@)[k]) == Some(
                            #[trigger] p@[k] as int,
                        ) && p@[k] < self@.columns.len()
                },
                None => !projection_known(self@, texts(projection@)),
            },
    {
        let ghost names = texts(projection@);
        let mut p: Vec<usize> = Vec::new();
        let mut k: usize = 0;
        while k < projection.len()
            invariant
                k <= projection@.len(),
                p@.len() == k,
                forall|j: int|
                    0 <= j < k ==> self@.position(names[j]) == Some(#[trigger] p@[j] as int)
                        && p@[j] < self@.columns.len(),
            decreases projection@.len() - k,
        {
            match self.column_position(&projection[k]) {
                Some(i) => p.push(i),
                None => {
                    assert(self@.position(names[k as int]) is None);
                    return None;
                },
            }
            k += 1;
        }
        assert forall|j: int| 0 <= j < names.len() implies self@.position(
            #[trigger] names[j],
        ) is Some by {
            assert(p@[j] < self@.columns.len());
        }
        Some(p)
    }

    /// The texts of the rows at `indexes`, column by column, for the columns
    /// at `positions`.
    #[verifier::loop_isolation(false)]
    fn select_data(&self, positions: &Vec<usize>, indexes: &Vec<usize>) -> (r: Vec<Vec<String>>)
        requires
            self.wf(),
            forall|k: int|
                0 <= k < positions@.len() ==> (#[trigger] positions@[k]) < self@.columns.len(),
            forall|q: int| 0 <= q < indexes@.len() ==> (#[trigger] indexes@[q]) < self@.row_count(),
        ensures
            r@.len() == positions@.len(),
            forall|k: int|
                0 <= k < r@.len() ==> texts((#[trigger] r@[k])@) == rendered(
                    picked(self@.columns[positions@[k] as int].cells, indexes@),
                ),
    {
        let mut data: Vec<Vec<String>> = Vec::new();
        let mut k: usize = 0;
        while k < positions.len()
            invariant
                k <= positions@.len(),
                data@.len() == k,
                forall|j: int|
                    0 <= j < k ==> texts((#[trigger] data@[j])@) == rendered(
                        picked(self@.columns[positions@[j] as int].cells, indexes@),
                    ),
            decreases positions@.len() - k,
        {
            let i = positions[k];
            assert(self@.columns[i as int].cells == self.rows@[i as int].cells());
            assert(self@.columns[i as int].cells.len() == self@.row_count());
            data.push(self.rows[i].get_serialized_col_data_by_index(indexes));
            k += 1;
        }
        data
    }

    /// Executes a select query: what [`select_outcome`] says. The result is
    /// column-major: one list of texts for each projected column, all of
    /// one length.
    #[verifier::loop_isolation(false)]
    pub fn execute_select_query(&self, sq: &SelectQuery) -> (r: Result<Vec<Vec<String>>, Error>)
        requires
            self.wf(),
        ensures
            match r {
                Ok(data) => select_outcome(self@, *sq) == Ok::<Seq<Seq<Seq<char>>>, Error>(
                    nested_texts(data@),
                ),
                Err(e) => select_outcome(self@, *sq) == Err::<Seq<Seq<Seq<char>>>, Error>(e),
            },
            r matches Ok(data) ==> crate::table::util::equal_lengths(data@),
    {
        let ghost tv = self@;
        let ghost projection = texts(sq.projection@);
        if sq.where_expressions.len() > 1 {
            return Err(Error::UnsupportedQuery);
        }
        let positions = match self.projection_positions(&sq.projection) {
            Some(p) => p,
            None => {
                return Err(Error::SchemaError);
            },
        };
        if sq.where_expressions.len() == 0 {
            let mut data: Vec<Vec<String>> = Vec::new();
            let mut k: usize = 0;
            while k < positions.len()
                invariant
                    k <= positions@.len(),
                    data@.len() == k,
                    forall|j: int|
                        0 <= j < k ==> texts((#[trigger] data@[j])@) == full_scan(
                            tv,
                            projection,
                        )[j],
                decreases positions@.len() - k,
            {
                let i = positions[k];
                assert(tv.columns[i as int].cells == self.rows@[i as int].cells());
                data.push(self.rows[i].get_serialized_col_data());
                k += 1;
            }
            assert(nested_texts(data@) =~= full_scan(tv, projection));
            assert forall|c: int| 0 <= c < data@.len() implies (#[trigger] data@[c])@.len()
                == data@[0]@.len() by {
                assert(texts(data@[c]@).len() == tv.columns[positions@[c] as int].cells.len());
                assert(texts(data@[0]@).len() == tv.columns[positions@[0] as int].cells.len());
                assert(tv.columns[positions@[c] as int].cells.len() == tv.row_count());
                assert(tv.columns[positions@[0] as int].cells.len() == tv.row_count());
            }
            return Ok(data);
        }
        let e = &sq.where_expressions[0];
        let i = match self.column_position(&e.left) {
            Some(i) => i,
            None => {
                return Err(Error::SchemaError);
            },
        };
        let h = &self.columns[i];
        let ghost col = tv.columns[i as int];
        let op = match e.op {
            Operator::Binary(op) => op,
            _ => {
                return Err(Error::UnsupportedQuery);
            },
        };
        if !(h.is_indexed && h.datatype.is_indexable()) {
            return Err(Error::UnsupportedQuery);
        }
        assert(col.wf() && col.indexed());
        let found = match op {
            crate::parser::select::Binary::Eq => match h.index.get_idx_data(&e.right) {
                Ok(Some(o)) => {
                    let mut v: Vec<usize> = Vec::new();
                    v.push(o);
                    assert(v@ =~= seq![o]);
                    Ok(v)
                },
                Ok(None) => Ok(Vec::new()),
                Err(e) => Err(e),
            },
            _ => h.index.get_idx_data_by_range(&e.right, op),
        };
        let indexes = match found {
            Ok(v) => v,
            Err(_) => {
                return Err(Error::ParseError);
            },
        };
        proof {
            let bound = parse_cell(col.datatype, e.right@)->0;
            lemma_matching_eq(col.index, bound);
            assert(indexes@ == matching_ordinals(col.index, op, bound));
            self.rows@[i as int].lemma_cells_bounded();
            assert(col.cells == self.rows@[i as int].cells());
            lemma_selected_rows(col.index, col.cells, op, bound);
            assert(col.cells.len() == tv.row_count());
        }
        let data = self.select_data(&positions, &indexes);
        assert(nested_texts(data@) =~= projected(tv, projection, indexes@));
        assert forall|c: int| 0 <= c < data@.len() implies (#[trigger] data@[c])@.len()
            == data@[0]@.len() by {
            assert(texts(data@[c]@).len() == indexes@.len());
            assert(texts(data@[0]@).len() == indexes@.len());
        }
        Ok(data)
    }

    /// A snapshot of the table: its schema and the values of its columns.
    #[verifier::loop_isolation(false)]
    pub fn snapshot(&self) -> (r: TableSnapshot)
        requires
            self.wf(),
        ensures
            r@ == content_of(self@),
    {
        let mut columns: Vec<ColumnSnapshot> = Vec::new();
        let mut i: usize = 0;
        while i < self.columns.len()
            invariant
                i <= self.columns@.len(),
                columns@.len() == i,
                forall|j: int|
                    0 <= j < i ==> (#[trigger] columns@[j])@ == content_of(self@).columns[j],
            decreases self.columns@.len() - i,
        {
            let h = &self.columns[i];
            columns.push(
                ColumnSnapshot {
                    name: h.name.clone(),
                    datatype: h.datatype,
                    is_primary_key: h.is_primary_key,
                    data: self.rows[i].duplicate(),
                },
            );
            i += 1;
        }
        let r = TableSnapshot { name: self.name.clone(), columns };
        assert(r@.columns =~= content_of(self@).columns);
        r
    }

    /// The table that holds what the snapshot holds, with the index of each
    /// indexed column built anew. When a snapshot cannot be restored is what
    /// [`restore_verdict`] says.
    #[verifier::loop_isolation(false)]
    pub fn restore(snap: &TableSnapshot) -> (r: Result<Table, Error>)
        ensures
            match r {
                Ok(t) => restore_verdict(snap@) is Ok && t.wf() && holds_content(t@, snap@),
                Err(e) => restore_verdict(snap@) == Err::<(), Error>(e),
            },
    {
        let ghost content = snap@;
        let n = snap.columns.len();
        let mut i: usize = 0;
        while i < n
            invariant
                i <= n,
                forall|a: int, b: int|
                    0 <= a < b < i ==> (#[trigger] content.columns[a]).name != (
                    #[trigger] content.columns[b]).name,
                forall|j: int|
                    0 <= j < i ==> (#[trigger] content.columns[j]).stored_type
                        == content.columns[j].datatype,
                forall|j: int|
                    0 <= j < i ==> (#[trigger] content.columns[j]).cells.len()
                        == content.columns[0].cells.len(),
            decreases n - i,
        {
            let c = &snap.columns[i];
            assert(content.columns[i as int] == c@);
            let mut k: usize = 0;
            while k < i
                invariant
                    k <= i,
                    forall|a: int| 0 <= a < k ==> (#[trigger] content.columns[a]).name != c.name@,
                decreases i - k,
            {
                assert(content.columns[k as int] == snap.columns@[k as int]@);
                if snap.columns[k].name == c.name {
                    return Err(Error::SchemaError);
                }
                k += 1;
            }
            if c.data.type_of() != c.datatype {
                return Err(Error::SchemaError);
            }
            assert(content.columns[0] == snap.columns@[0]@);
            if c.data.count() != snap.columns[0].data.count() {
                return Err(Error::SchemaError);
            }
            i += 1;
        }
        assert(content_shaped(content));
        i = 0;
        while i < n
            invariant
                i <= n,
                forall|a: int, j: int|
                    0 <= a < i && 0 <= j < content.columns[a].cells.len() ==> cell_has_type(
                        #[trigger] content.columns[a].cells[j],
                        content.columns[a].datatype,
                    ),
            decreases n - i,
        {
            assert(content.columns[i as int] == snap.columns@[i as int]@);
            if !snap.columns[i].data.holds_values_of_its_type() {
                return Err(Error::ParseError);
            }
            i += 1;
        }
        assert(content_typed(content));
        i = 0;
        while i < n
            invariant
                i <= n,
                forall|j: int|
                    0 <= j < i && (#[trigger] content.columns[j]).is_primary_key && indexable(
                        content.columns[j].datatype,
                    ) ==> content.columns[j].cells.no_duplicates(),
            decreases n - i,
        {
            let c = &snap.columns[i];
            assert(content.columns[i as int] == c@);
            if c.is_primary_key && c.datatype.is_indexable() {
                let empty = ColumnIndex::new(c.datatype);
                if !staged_keys_fresh(&empty, &c.data) {
                    assert(!content.columns[i as int].cells.no_duplicates()) by {
                        assert forall|a: int| 0 <= a < c.data.cells().len() implies !has_key(
                            empty.entries(),
                            #[trigger] c.data.cells()[a],
                        ) by {}
                    }
                    return Err(Error::ConstraintViolation);
                }
            }
            i += 1;
        }
        assert(content_keys_unique(content));
        let mut columns: Vec<ColumnHeader> = Vec::new();
        let mut rows: Vec<ColumnData> = Vec::new();
        i = 0;
        while i < n
            invariant
                i <= n,
                columns@.len() == i,
                rows@.len() == i,
                forall|j: int|
                    0 <= j < i ==> {
                        let h = #[trigger] columns@[j];
                        let d = rows@[j];
                        let c = content.columns[j];
                        &&& column_inv(h, d)
                        &&& column_view(h, d).wf()
                        &&& h.name@ == c.name
                        &&& h.datatype == c.datatype
                        &&& h.is_primary_key == c.is_primary_key
                        &&& d.cells() == c.cells
                    },
            decreases n - i,
        {
            let c = &snap.columns[i];
            assert(content.columns[i as int] == c@);
            let mut header = ColumnHeader {
                name: c.name.clone(),
                datatype: c.datatype,
                is_indexed: c.is_primary_key,
                index: ColumnIndex::new(c.datatype),
                is_primary_key: c.is_primary_key,
            };
            let mut data = ColumnData::new(c.datatype);
            proof {
                let col = column_view(header, data);
                if col.indexed() {
                    assert forall|x: Cell| (#[trigger] lookup(col.index, x)) is None by {
                        assert(!has_key(col.index, x));
                    }
                }
                assert(data.cells() + c.data.cells() =~= c.data.cells());
                assert forall|j: int| 0 <= j < c.data.cells().len() implies cell_has_type(
                    #[trigger] c.data.cells()[j],
                    c.datatype,
                ) by {
                    assert(content.columns[i as int].cells[j] == c.data.cells()[j]);
                }
            }
            append_column(&mut header, &mut data, &c.data);
            columns.push(header);
            rows.push(data);
            i += 1;
        }
        let t = Table { columns, name: snap.name.clone(), rows };
        proof {
            let tv = t@;
            assert forall|j: int| 0 <= j < tv.columns.len() implies {
                let col = #[trigger] tv.columns[j];
                let c = content.columns[j];
                &&& col.wf()
                &&& col.name == c.name
                &&& col.datatype == c.datatype
                &&& col.is_primary_key == c.is_primary_key
                &&& col.cells == c.cells
            } by {
                assert(tv.columns[j] == column_view(t.columns@[j], t.rows@[j]));
            }
            assert(tv.aligned()) by {
                assert forall|j: int| 0 <= j < tv.columns.len() implies (
                #[trigger] tv.columns[j]).cells.len() == tv.row_count() by {
                    assert(content.columns[j].cells.len() == content.columns[0].cells.len());
                }
            }
            assert(tv.names_distinct()) by {
                assert forall|a: int, b: int| 0 <= a < b < tv.columns.len() implies (
                #[trigger] tv.columns[a]).name != (#[trigger] tv.columns[b]).name by {
                    assert(content.columns[a].name != content.columns[b].name);
                }
            }
        }
        Ok(t)
    }

    /// The schema as rows to show: a heading, then for each column its name
    /// and the name of its type.
    #[verifier::loop_isolation(false)]
    pub fn schema_rows(&self) -> (r: Vec<Vec<String>>)
        ensures
            nested_texts(r@) == schema_listing(self@),
    {
        let mut rows: Vec<Vec<String>> = Vec::new();
        let mut heading: Vec<String> = Vec::new();
        heading.push("Column Name".to_owned());
        heading.push("Data Type".to_owned());
        assert(texts(heading@) =~= seq!["Column Name"@, "Data Type"@]);
        rows.push(heading);
        let mut i: usize = 0;
        while i < self.columns.len()
            invariant
                i <= self.columns@.len(),
                rows@.len() == i + 1,
                forall|j: int|
                    0 <= j < i + 1 ==> texts((#[trigger] rows@[j])@) == schema_listing(self@)[j],
            decreases self.columns@.len() - i,
        {
            let h = &self.columns[i];
            let mut row: Vec<String> = Vec::new();
            row.push(h.name.clone());
            row.push(h.datatype.to_string());
            assert(texts(row@) =~= seq![
                self@.columns[i as int].name,
                self@.columns[i as int].datatype.shown(),
            ]);
            rows.push(row);
            i += 1;
        }
        assert(nested_texts(rows@) =~= schema_listing(self@));
        rows
    }

    /// The names of the columns in the order of their declaration.
    #[verifier::loop_isolation(false)]
    pub fn column_names(&self) -> (r: Vec<String>)
        ensures
            texts(r@) == self@.column_names(),
    {
        let mut names: Vec<String> = Vec::new();
        let mut i: usize = 0;
        while i < self.columns.len()
            invariant
                i <= self.columns@.len(),
                names@.len() == i,
                forall|j: int| 0 <= j < i ==> (#[trigger] names@[j])@ == self@.columns[j].name,
            decreases self.columns@.len() - i,
        {
            names.push(self.columns[i].name.clone());
            i += 1;
        }
        assert(texts(names@) =~= self@.column_names());
        names
    }

    /// The texts of all values, column by column, in the order of the
    /// columns: all lists are of one length, the number of rows.
    #[verifier::loop_isolation(false)]
    pub fn data_columns(&self) -> (r: Vec<Vec<String>>)
        requires
            self.wf(),
        ensures
            nested_texts(r@) == data_listing(self@),
            crate::table::util::equal_lengths(r@),
    {
        let mut data: Vec<Vec<String>> = Vec::new();
        let mut i: usize = 0;
        while i < self.rows.len()
            invariant
                i <= self.rows@.len(),
                data@.len() == i,
                forall|j: int|
                    0 <= j < i ==> texts((#[trigger] data@[j])@) == rendered(
                        self@.columns[j].cells,
                    ),
            decreases self.rows@.len() - i,
        {
            assert(self@.columns[i as int].cells == self.rows@[i as int].cells());
            data.push(self.rows[i].get_serialized_col_data());
            i += 1;
        }
        assert(nested_texts(data@) =~= data_listing(self@));
        assert forall|c: int| 0 <= c < data@.len() implies (#[trigger] data@[c])@.len()
            == data@[0]@.len() by {
            assert(texts(data@[c]@).len() == self@.columns[c].cells.len());
            assert(texts(data@[0]@).len() == self@.columns[0].cells.len());
            assert(self@.columns[c].cells.len() == self@.row_count());
        }
        data
    }
}

} // verus!
