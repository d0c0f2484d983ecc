//! Insert queries: a table, a column list and rows of texts.

use crate::parser::statement::{SqlExpr, SqlOperand, SqlSetExpr, SqlStatement};
use crate::text::{bool_to_text, text_of_bool};
use crate::value::{nested_texts, texts};
use vstd::prelude::*;

verus! {

/// A request to insert rows into a table.
#[derive(Debug)]
pub struct InsertQuery {
    pub table_name: String,
    /// The columns that the rows give values for.
    pub columns: Vec<String>,
    /// The rows: each holds one text for each column of `columns`, in that
    /// order. The texts are read according to the columns' types on
    /// insertion.
    pub values: Vec<Vec<String>>,
}

impl InsertQuery {
    /// An insert query from its parts.
    pub fn new(table_name: String, columns: Vec<String>, values: Vec<Vec<String>>) -> (r:
        InsertQuery)
        ensures
            r.table_name == table_name,
            r.columns == columns,
            r.values == values,
    {
        InsertQuery { table_name, columns, values }
    }
}

/// The text that an expression gives as a value of a row: a number and an
/// identifier as they were written, a truth value as `true` or `false`.
/// Any other expression gives none.
pub open spec fn value_text(e: SqlExpr) -> Option<Seq<char>> {
    match e {
        SqlExpr::Operand(SqlOperand::Number(n)) => Some(n@),
        SqlExpr::Operand(SqlOperand::Boolean(b)) => Some(text_of_bool(b)),
        SqlExpr::Operand(SqlOperand::Identifier(i)) => Some(i@),
        _ => None,
    }
}

/// The texts of a row of expressions, in the order of the expressions; an
/// expression that gives no text is passed over.
pub open spec fn row_of(row: Seq<SqlExpr>) -> Seq<Seq<char>>
    decreases row.len(),
{
    if row.len() == 0 {
        Seq::empty()
    } else {
        match value_text(row.last()) {
            Some(t) => row_of(row.drop_last()).push(t),
            None => row_of(row.drop_last()),
        }
    }
}

/// The rows of texts that the source of an insert statement gives: those
/// of its rows of values, and none for any other source.
pub open spec fn rows_of_source(source: SqlSetExpr) -> Seq<Seq<Seq<char>>> {
    match source {
        SqlSetExpr::Values(rows) => Seq::new(rows@.len(), |r: int| row_of(rows@[r]@)),
        _ => Seq::empty(),
    }
}

/// The text of the error of a statement that inserts nothing.
pub open spec fn insert_error() -> Seq<char> {
    "Cannot parse insert query"@
}

/// The texts of the row `row`.
fn row_from(row: &Vec<SqlExpr>) -> (r: Vec<String>)
    ensures
        texts(r@) == row_of(row@),
{
    let mut value_set: Vec<String> = Vec::new();
    let mut i: usize = 0;
    assert(texts(value_set@) =~= row_of(row@.take(0)));
    while i < row.len()
        invariant
            i <= row@.len(),
            texts(value_set@) == row_of(row@.take(i as int)),
        decreases row@.len() - i,
    {
        assert(row@.take(i + 1).drop_last() =~= row@.take(i as int));
        assert(row@.take(i + 1).last() == row@[i as int]);
        let ghost before = texts(value_set@);
        match &row[i] {
            SqlExpr::Operand(SqlOperand::Number(n)) => {
                value_set.push(n.clone());
                assert(texts(value_set@) =~= before.push(n@));
            },
            SqlExpr::Operand(SqlOperand::Boolean(b)) => {
                value_set.push(bool_to_text(*b));
                assert(texts(value_set@) =~= before.push(text_of_bool(*b)));
            },
            SqlExpr::Operand(SqlOperand::Identifier(id)) => {
                value_set.push(id.clone());
                assert(texts(value_set@) =~= before.push(id@));
            },
            _ => {},
        }
        i += 1;
    }
    assert(row@.take(row@.len() as int) =~= row@);
    value_set
}

impl InsertQuery {
    /// The insert query that a statement gives: for an insert statement,
    /// its table, its column list and its rows of texts. Any other
    /// statement is an error.
    pub fn from_statement(statement: &SqlStatement) -> (r: Result<InsertQuery, String>)
        ensures
            match r {
                Ok(iq) => statement matches SqlStatement::Insert { table_name, columns, source }
                    && {
                    &&& iq.table_name@ == table_name@
                    &&& texts(iq.columns@) == texts(columns@)
                    &&& nested_texts(iq.values@) == rows_of_source(*source)
                },
                Err(e) => !(statement is Insert) && e@ == insert_error(),
            },
    {
        match statement {
            SqlStatement::Insert { table_name, columns, source } => {
                let mut names: Vec<String> = Vec::new();
                let mut i: usize = 0;
                while i < columns.len()
                    invariant
                        i <= columns@.len(),
                        names@.len() == i,
                        forall|j: int| 0 <= j < i ==> (#[trigger] names@[j])@ == columns@[j]@,
                    decreases columns@.len() - i,
                {
                    names.push(columns[i].clone());
                    i += 1;
                }
                assert(texts(names@) =~= texts(columns@));
                let mut all_vals: Vec<Vec<String>> = Vec::new();
                match source {
                    SqlSetExpr::Values(rows) => {
                        let mut r: usize = 0;
                        while r < rows.len()
                            invariant
                                r <= rows@.len(),
                                all_vals@.len() == r,
                                forall|j: int|
                                    0 <= j < r ==> texts((#[trigger] all_vals@[j])@) == row_of(
                                        rows@[j]@,
                                    ),
                            decreases rows@.len() - r,
                        {
                            all_vals.push(row_from(&rows[r]));
                            r += 1;
                        }
                    },
                    _ => {},
                }
                assert(nested_texts(all_vals@) =~= rows_of_source(*source));
                Ok(InsertQuery { table_name: table_name.clone(), columns: names, values: all_vals })
            },
            _ => Err("Cannot parse insert query".to_owned()),
        }
    }
}

} // verus!
