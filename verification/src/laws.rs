//! What holds of every table, whatever it holds: the laws of the engine,
//! each stated over the functions that the operations' contracts use.

use crate::datatype::{datatype_of_token, DataType};
use crate::error::Error;
use crate::index::{
    key_matches, lemma_fresh_iff_unique, lemma_index_determined, lemma_selected_rows,
    matching_ordinals,
};
use crate::snapshot::{
    content_of, contents_of, holds_content, lemma_first_refusal_none, restore_all_verdict,
    restore_verdict,
};
use crate::parser::create::CreateQuery;
use crate::parser::select::{Operator, SelectQuery};
use crate::staging::{column_texts, parsed};
use crate::table::{
    column_list_fits, created, declares_distinct_names, full_scan, insert_effect, insert_verdict,
    keys_stay_unique, lemma_position_in_found, position_in, projected, rows_fit, select_outcome,
    staged_cells, staged_texts, TableView,
};
use crate::text::{
    all_digits, bool_of_text, digit_char, digit_value, digits_of, digits_value, int_of_text,
    is_digit, text_of_bool, text_of_int,
};
use crate::value::{
    cell_has_type, cell_lt, parse_cell, picked, render_cell, rendered, texts, Cell,
};
use vstd::prelude::*;

verus! {

/// The digits of a number are digits, at least one, and they denote it.
pub proof fn lemma_digits_of(n: nat)
    ensures
        digits_of(n).len() >= 1,
        all_digits(digits_of(n)),
        digits_value(digits_of(n)) == n,
    decreases n,
{
    if n < 10 {
        let s = digits_of(n);
        assert(s =~= seq![digit_char(n as int)]);
        assert(s.drop_last() =~= Seq::<char>::empty());
        assert(digits_value(s.drop_last()) == 0);
        assert(digit_value(s.last()) == n);
    } else {
        lemma_digits_of(n / 10);
        let s = digits_of(n);
        let t = digits_of(n / 10);
        assert(s.drop_last() =~= t);
        assert(s.last() == digit_char((n % 10) as int));
        assert(digit_value(s.last()) == n % 10);
        assert forall|i: int| 0 <= i < s.len() implies is_digit(#[trigger] s[i]) by {
            if i < t.len() {
                assert(s[i] == t[i]);
            }
        }
    }
}

/// The text of an integer denotes that integer.
pub proof fn lemma_int_text_round_trip(v: i32)
    ensures
        int_of_text(text_of_int(v as int)) == Some(v),
{
    let s = text_of_int(v as int);
    if v < 0 {
        let d = digits_of((-v) as nat);
        lemma_digits_of((-v) as nat);
        assert(s[0] == '-');
        assert(s.subrange(1, s.len() as int) =~= d);
    } else {
        let d = digits_of(v as nat);
        lemma_digits_of(v as nat);
        assert(is_digit(d[0]));
    }
}

/// The text under which a value is handed out denotes that value: what a
/// query returns can be inserted again as it is.
pub proof fn law_rendered_text_denotes_value(c: Cell, datatype: DataType)
    requires
        cell_has_type(c, datatype),
    ensures
        parse_cell(datatype, render_cell(c)) == Some(c),
{
    match c {
        Cell::Int(v) => {
            lemma_int_text_round_trip(v);
        },
        Cell::Bool(b) => {
            assert(text_of_bool(true) != text_of_bool(false)) by {
                assert(text_of_bool(true).len() != text_of_bool(false).len());
            }
        },
        _ => {},
    }
}

/// Row alignment: in a well-formed table all columns hold equally many
/// values, as many as the table has rows.
pub proof fn law_columns_aligned(tv: TableView, i: int, j: int)
    requires
        tv.wf(),
        0 <= i < tv.columns.len(),
        0 <= j < tv.columns.len(),
    ensures
        tv.columns[i].cells.len() == tv.columns[j].cells.len(),
        tv.columns[i].cells.len() == tv.row_count(),
{
}

/// An insertion that is not refused adds equally many values to every
/// column: one for each row.
pub proof fn law_insert_adds_rows(
    before: TableView,
    cols: Seq<Seq<char>>,
    rows: Seq<Seq<Seq<char>>>,
    after: TableView,
    i: int,
)
    requires
        insert_effect(before, cols, rows, after),
        0 <= i < before.columns.len(),
    ensures
        after.columns[i].cells.len() == before.columns[i].cells.len() + rows.len(),
{
}

/// After an insertion, a query without a condition hands out, for each
/// column, what it handed out before, followed by the inserted values in
/// the order of their rows.
pub proof fn law_scan_after_insert(
    before: TableView,
    cols: Seq<Seq<char>>,
    rows: Seq<Seq<Seq<char>>>,
    after: TableView,
    name: Seq<char>,
)
    requires
        insert_effect(before, cols, rows, after),
        before.position(name) is Some,
    ensures
        after.position(name) == before.position(name),
        full_scan(after, seq![name]) == seq![
            rendered(before.columns[before.position(name).unwrap()].cells) + rendered(
                staged_cells(before.columns[before.position(name).unwrap()], cols, rows),
            ),
        ],
{
    assert(after.column_names() =~= before.column_names());
    lemma_position_in_found(before.column_names(), name);
    let i = before.position(name).unwrap();
    let col = before.columns[i];
    assert(after.columns[i].cells == col.cells + staged_cells(col, cols, rows));
    assert(rendered(col.cells + staged_cells(col, cols, rows)) =~= rendered(col.cells)
        + rendered(staged_cells(col, cols, rows)));
    assert(full_scan(after, seq![name]) =~= seq![
        rendered(col.cells) + rendered(staged_cells(col, cols, rows)),
    ]);
}

/// A new table with one column of a type that holds values, after the
/// insertion of any number of values, hands out exactly the inserted
/// values, in the order of insertion, to a query for that column without a
/// condition.
pub proof fn law_inserted_values_come_back(
    cq: CreateQuery,
    cols: Seq<Seq<char>>,
    rows: Seq<Seq<Seq<char>>>,
    after: TableView,
    sq: SelectQuery,
)
    requires
        cq.columns@.len() == 1,
        insert_verdict(created(cq), cols, rows) is Ok,
        insert_effect(created(cq), cols, rows, after),
        texts(sq.projection@) == seq![cq.columns@[0].name@],
        sq.where_expressions@.len() == 0,
    ensures
        select_outcome(after, sq) == Ok::<Seq<Seq<Seq<char>>>, Error>(
            seq![
                rendered(
                    parsed(datatype_of_token(cq.columns@[0].datatype@), column_texts(rows, 0)),
                ),
            ],
        ),
{
    let before = created(cq);
    let name = cq.columns@[0].name@;
    let col = before.columns[0];
    assert(before.column_names() =~= seq![name]);
    lemma_position_in_found(before.column_names(), name);
    assert(before.column_names()[0] == name);
    assert(before.position(name) == Some(0int));
    assert(cols.len() == 1);
    assert(position_in(cols, col.name) is Some);
    lemma_position_in_found(cols, name);
    assert(position_in(cols, name) == Some(0int));
    law_scan_after_insert(before, cols, rows, after, name);
    assert(rendered(col.cells) + rendered(staged_cells(col, cols, rows)) =~= rendered(
        staged_cells(col, cols, rows),
    ));
    assert(after.position(texts(sq.projection@)[0]) is Some);
}

/// An insertion in which two rows give the same value for a primary-key
/// column is refused, whatever else it holds.
pub proof fn law_batch_duplicates_refused(
    tv: TableView,
    cols: Seq<Seq<char>>,
    rows: Seq<Seq<Seq<char>>>,
    i: int,
    r1: int,
    r2: int,
)
    requires
        0 <= i < tv.columns.len(),
        tv.columns[i].is_primary_key,
        0 <= r1 < r2 < rows.len(),
        position_in(cols, tv.columns[i].name) matches Some(k) && parse_cell(
            tv.columns[i].datatype,
            rows[r1][k],
        ) == parse_cell(tv.columns[i].datatype, rows[r2][k]),
    ensures
        insert_verdict(tv, cols, rows) is Err,
{
    if insert_verdict(tv, cols, rows) is Ok {
        let col = tv.columns[i];
        let staged = staged_cells(col, cols, rows);
        let all = col.cells + staged;
        assert(keys_stay_unique(tv, cols, rows));
        assert(all.no_duplicates());
        assert(all[col.cells.len() + r1] == staged[r1]);
        assert(all[col.cells.len() + r2] == staged[r2]);
        assert(staged_texts(col, cols, rows)[r1] == rows[r1][position_in(cols, col.name).unwrap()]);
        assert(staged_texts(col, cols, rows)[r2] == rows[r2][position_in(cols, col.name).unwrap()]);
    }
}

/// A value that a primary-key column holds already cannot be inserted
/// again: the insertion is refused.
pub proof fn law_held_key_refused(
    tv: TableView,
    cols: Seq<Seq<char>>,
    rows: Seq<Seq<Seq<char>>>,
    i: int,
    r: int,
    j: int,
)
    requires
        0 <= i < tv.columns.len(),
        tv.columns[i].is_primary_key,
        0 <= r < rows.len(),
        0 <= j < tv.columns[i].cells.len(),
        position_in(cols, tv.columns[i].name) matches Some(k) && parse_cell(
            tv.columns[i].datatype,
            rows[r][k],
        ) == Some(tv.columns[i].cells[j]),
    ensures
        insert_verdict(tv, cols, rows) is Err,
{
    if insert_verdict(tv, cols, rows) is Ok {
        let col = tv.columns[i];
        let staged = staged_cells(col, cols, rows);
        let all = col.cells + staged;
        assert(keys_stay_unique(tv, cols, rows));
        assert(all.no_duplicates());
        assert(all[j] == col.cells[j]);
        assert(all[col.cells.len() + r] == staged[r]);
        assert(staged_texts(col, cols, rows)[r] == rows[r][position_in(cols, col.name).unwrap()]);
    }
}

/// A condition on a column without an index is never evaluated: the query
/// is refused as an `UnsupportedQuery`, whatever the table holds.
pub proof fn law_unindexed_condition_refused(tv: TableView, sq: SelectQuery)
    requires
        sq.where_expressions@.len() == 1,
        forall|k: int|
            0 <= k < sq.projection@.len() ==> tv.position(
                #[trigger] texts(sq.projection@)[k],
            ) is Some,
        tv.position(sq.where_expressions@[0].left@) matches Some(i) && !tv.columns[i].indexed(),
    ensures
        select_outcome(tv, sq) == Err::<Seq<Seq<Seq<char>>>, Error>(Error::UnsupportedQuery),
{
}

/// What a query with a condition hands out, said of the rows: the rows
/// whose value in the condition's column stands in the asked relation to
/// the literal, each once, in ascending order of that value; and for each
/// projected column the texts of its values in those rows.
pub proof fn law_condition_selects_matching_rows(tv: TableView, sq: SelectQuery)
    requires
        tv.wf(),
        tv.row_count() <= usize::MAX,
        select_outcome(tv, sq) is Ok,
        sq.where_expressions@.len() == 1,
    ensures
        ({
            let e = sq.where_expressions@[0];
            let col = tv.columns[tv.position(e.left@).unwrap()];
            let op = e.op->Binary_0;
            let bound = parse_cell(col.datatype, e.right@).unwrap();
            let m = matching_ordinals(col.index, op, bound);
            &&& e.op is Binary
            &&& select_outcome(tv, sq) == Ok::<Seq<Seq<Seq<char>>>, Error>(
                projected(tv, texts(sq.projection@), m),
            )
            &&& forall|k: int|
                0 <= k < m.len() ==> (#[trigger] m[k]) < col.cells.len() && key_matches(
                    col.cells[m[k] as int],
                    op,
                    bound,
                )
            &&& forall|j: int|
                0 <= j < col.cells.len() && key_matches(#[trigger] col.cells[j], op, bound)
                    ==> m.contains(j as usize)
            &&& forall|k1: int, k2: int|
                0 <= k1 < k2 < m.len() ==> cell_lt(
                    col.cells[(#[trigger] m[k1]) as int],
                    col.cells[(#[trigger] m[k2]) as int],
                )
        }),
{
    let e = sq.where_expressions@[0];
    lemma_position_in_found(tv.column_names(), e.left@);
    let i = tv.position(e.left@).unwrap();
    let col = tv.columns[i];
    assert(col.wf());
    let op = e.op->Binary_0;
    let bound = parse_cell(col.datatype, e.right@).unwrap();
    lemma_selected_rows(col.index, col.cells, op, bound);
}

/// Creating a table keeps the names of the tables distinct.
pub proof fn law_create_keeps_names_distinct(tables: Seq<TableView>, cq: CreateQuery)
    requires
        crate::database::table_names_distinct(tables),
        crate::database::table_position(tables, cq.table_name@) is None,
    ensures
        crate::database::table_names_distinct(tables.push(created(cq))),
{
    let names = crate::database::table_names(tables);
    lemma_position_in_found(names, cq.table_name@);
    let after = tables.push(created(cq));
    assert forall|i: int, j: int| 0 <= i < j < after.len() implies (#[trigger] after[i]).name != (
    #[trigger] after[j]).name by {
        if j == tables.len() {
            assert(names[i] == tables[i].name);
        }
    }
}

/// A table that a create query describes is well formed and has no rows.
pub proof fn law_created_is_well_formed(cq: CreateQuery)
    requires
        declares_distinct_names(cq),
    ensures
        created(cq).wf(),
        created(cq).row_count() == 0,
{
    let tv = created(cq);
    assert forall|i: int| 0 <= i < tv.columns.len() implies (#[trigger] tv.columns[i]).wf() by {
        let col = tv.columns[i];
        if col.indexed() {
            assert forall|c: Cell| (#[trigger] crate::index::lookup(col.index, c)) is None by {
                assert(!crate::index::has_key(col.index, c));
            }
        }
    }
}

/// A snapshot of a well-formed table can be restored.
pub proof fn law_snapshot_can_be_restored(tv: TableView)
    requires
        tv.wf(),
        tv.row_count() <= usize::MAX,
    ensures
        restore_verdict(content_of(tv)) is Ok,
{
    let content = content_of(tv);
    assert forall|i: int|
        0 <= i < content.columns.len() && (#[trigger] content.columns[i]).is_primary_key
            && crate::datatype::indexable(
            content.columns[i].datatype,
        ) implies content.columns[i].cells.no_duplicates() by {
        let col = tv.columns[i];
        assert(col.wf() && col.indexed());
        lemma_fresh_iff_unique(col.index, col.cells, Seq::<Cell>::empty());
        assert(col.cells + Seq::<Cell>::empty() =~= col.cells);
    }
    assert forall|i: int, j: int|
        0 <= i < content.columns.len() && 0 <= j
            < content.columns[i].cells.len() implies cell_has_type(
        #[trigger] content.columns[i].cells[j],
        content.columns[i].datatype,
    ) by {
        assert(tv.columns[i].wf());
    }
    assert forall|i: int, j: int| 0 <= i < j < content.columns.len() implies (
    #[trigger] content.columns[i]).name != (#[trigger] content.columns[j]).name by {
        assert(tv.columns[i].name != tv.columns[j].name);
    }
    assert forall|i: int| 0 <= i < content.columns.len() implies (
    #[trigger] content.columns[i]).cells.len() == content.columns[0].cells.len() by {
        assert(tv.columns[i].cells.len() == tv.row_count());
        assert(tv.columns[0].cells.len() == tv.row_count());
    }
}

/// The round trip of a table: a well-formed table that holds what the
/// snapshot of a well-formed table holds is equal to that table, in schema,
/// in values and in the entries of every index.
pub proof fn law_restored_table_is_equal(tv: TableView, restored: TableView)
    requires
        tv.wf(),
        restored.wf(),
        holds_content(restored, content_of(tv)),
    ensures
        restored == tv,
{
    assert(holds_content(tv, content_of(tv)));
    law_content_determines_table(restored, tv, content_of(tv));
}

/// The round trip of a database: the snapshots of well-formed tables of
/// different names can be restored, and well-formed tables that hold what
/// the snapshots hold are equal to the tables, one by one.
pub proof fn law_database_round_trip(tables: Seq<TableView>, restored: Seq<TableView>)
    requires
        crate::database::table_names_distinct(tables),
        forall|i: int|
            0 <= i < tables.len() ==> (#[trigger] tables[i]).wf() && tables[i].row_count()
                <= usize::MAX,
        restored.len() == tables.len(),
        forall|i: int|
            0 <= i < tables.len() ==> (#[trigger] restored[i]).wf() && holds_content(
                restored[i],
                content_of(tables[i]),
            ),
    ensures
        restore_all_verdict(contents_of(tables)) is Ok,
        restored == tables,
{
    let contents = contents_of(tables);
    let names = crate::snapshot::content_names(contents);
    assert forall|i: int, j: int| 0 <= i < names.len() && 0 <= j < names.len() && i
        != j implies names[i] != names[j] by {
        if i < j {
            assert(tables[i].name != tables[j].name);
        } else {
            assert(tables[j].name != tables[i].name);
        }
    }
    assert forall|i: int| 0 <= i < contents.len() implies restore_verdict(
        #[trigger] contents[i],
    ) is Ok by {
        assert(tables[i].wf());
        law_snapshot_can_be_restored(tables[i]);
    }
    lemma_first_refusal_none(contents);
    assert forall|i: int| 0 <= i < tables.len() implies restored[i] == tables[i] by {
        assert(restored[i].wf());
        law_restored_table_is_equal(tables[i], restored[i]);
    }
    assert(restored =~= tables);
}

/// A well-formed table is determined by its schema and its values: two
/// well-formed tables that hold what one snapshot holds are equal, in the
/// entries of every index too.
pub proof fn law_content_determines_table(
    a: TableView,
    b: TableView,
    content: crate::snapshot::TableContent,
)
    requires
        a.wf(),
        b.wf(),
        holds_content(a, content),
        holds_content(b, content),
    ensures
        a == b,
{
    assert forall|i: int| 0 <= i < a.columns.len() implies a.columns[i] == b.columns[i] by {
        let x = a.columns[i];
        let y = b.columns[i];
        assert(x.wf() && y.wf());
        assert(x.cells == content.columns[i].cells);
        if x.indexed() {
            lemma_index_determined(x.index, y.index, x.cells);
        } else {
            assert(x.index =~= y.index);
        }
    }
    assert(a.columns =~= b.columns);
}

/// What an insertion does is determined: two well-formed tables that both
/// are what an insertion makes of one table are equal, in the entries of
/// every index too.
pub proof fn law_insert_determines_table(
    before: TableView,
    cols: Seq<Seq<char>>,
    rows: Seq<Seq<Seq<char>>>,
    a: TableView,
    b: TableView,
)
    requires
        a.wf(),
        b.wf(),
        insert_effect(before, cols, rows, a),
        insert_effect(before, cols, rows, b),
    ensures
        a == b,
{
    assert(holds_content(b, content_of(a)));
    assert(holds_content(a, content_of(a)));
    law_content_determines_table(a, b, content_of(a));
}

} // verus!
