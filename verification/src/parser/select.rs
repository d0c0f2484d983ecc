//! Select queries: a projection and at most one comparison.

use crate::parser::statement::{
    SqlBinaryOperator, SqlExpr, SqlOperand, SqlSelectItem, SqlSetExpr, SqlStatement,
    SqlTableFactor,
};
use crate::value::texts;
use vstd::prelude::*;

verus! {

/// A comparison between a column and a literal.
#[derive(Clone, Copy, Debug, PartialEq, Eq, Structural)]
pub enum Binary {
    Eq,
    Lt,
    Gt,
}

/// The operator of a condition. Only comparisons are evaluated.
#[derive(Clone, Copy, Debug, PartialEq, Eq, Structural)]
pub enum Operator {
    Unary,
    Binary(Binary),
    Ternary,
    /// No operator.
    Absent,
}

/// A condition: the column `left` compared with the literal `right`.
#[derive(Debug)]
pub struct Expression {
    pub left: String,
    pub right: String,
    pub op: Operator,
}

/// A request to read from a table.
#[derive(Debug)]
pub struct SelectQuery {
    /// The table to read from.
    pub from: String,
    /// The columns to hand out, in this order.
    pub projection: Vec<String>,
    /// The conditions. A query with more than one is not executed.
    pub where_expressions: Vec<Expression>,
}

/// The column that an item of a projection names: an identifier, with or
/// without an alias, names itself; the wildcard is kept as `*`. Any other
/// item names none.
pub open spec fn item_name(item: SqlSelectItem) -> Option<Seq<char>> {
    match item {
        SqlSelectItem::UnnamedExpr(SqlExpr::Operand(SqlOperand::Identifier(i))) => Some(i@),
        SqlSelectItem::ExprWithAlias(SqlExpr::Operand(SqlOperand::Identifier(i))) => Some(i@),
        SqlSelectItem::Wildcard => Some("*"@),
        _ => None,
    }
}

/// The columns that the items of a projection name, in the order of the
/// items; an item that names none is passed over.
pub open spec fn projection_names(items: Seq<SqlSelectItem>) -> Seq<Seq<char>>
    decreases items.len(),
{
    if items.len() == 0 {
        Seq::empty()
    } else {
        match item_name(items.last()) {
            Some(t) => projection_names(items.drop_last()).push(t),
            None => projection_names(items.drop_last()),
        }
    }
}

/// The table that a select statement reads from: the last table that its
/// `FROM` names, if it names one.
pub open spec fn last_table(from: Seq<SqlTableFactor>) -> Option<Seq<char>>
    decreases from.len(),
{
    if from.len() == 0 {
        None
    } else {
        match from.last() {
            SqlTableFactor::Table(name) => Some(name@),
            SqlTableFactor::Other => last_table(from.drop_last()),
        }
    }
}

/// Whether a selection is a comparison of a column with a number.
pub open spec fn is_comparison(selection: Option<SqlExpr>) -> bool {
    selection matches Some(
        SqlExpr::BinaryOp {
            left: SqlOperand::Identifier(_),
            op: _,
            right: SqlOperand::Number(_),
        },
    )
}

/// The comparison that an operator of a statement stands for, if the
/// engine knows it.
pub open spec fn comparison_of(op: SqlBinaryOperator) -> Option<Binary> {
    match op {
        SqlBinaryOperator::Eq => Some(Binary::Eq),
        SqlBinaryOperator::Gt => Some(Binary::Gt),
        SqlBinaryOperator::Lt => Some(Binary::Lt),
        SqlBinaryOperator::Other => None,
    }
}

/// The text of the error of a statement that reads from no table.
pub open spec fn no_table_error() -> Seq<char> {
    "Error while trying to parse select statement. Cannot extract table name"@
}

/// The text of the error of a comparison that the engine does not know.
pub open spec fn unknown_comparison_error() -> Seq<char> {
    "cannot parse select query"@
}

/// What a select query is made of, for a select statement with the given
/// parts: the columns that the projection names; the table that the
/// statement reads from; and one condition if the selection is a
/// comparison of a column with a number, none otherwise. A comparison
/// that the engine does not know is an error, and so is a statement that
/// names no table.
pub open spec fn select_parts_match(
    r: Result<SelectQuery, String>,
    projection: Seq<SqlSelectItem>,
    from: Seq<SqlTableFactor>,
    selection: Option<SqlExpr>,
) -> bool {
    let unknown = is_comparison(selection) && comparison_of(selection->0->op) is None;
    match r {
        Err(e) => if unknown {
            e@ == unknown_comparison_error()
        } else {
            last_table(from) is None && e@ == no_table_error()
        },
        Ok(sq) => {
            &&& !unknown
            &&& last_table(from) == Some(sq.from@)
            &&& texts(sq.projection@) == projection_names(projection)
            &&& if is_comparison(selection) {
                &&& sq.where_expressions@.len() == 1
                &&& sq.where_expressions@[0].left@ == selection->0->left->Identifier_0@
                &&& sq.where_expressions@[0].right@ == selection->0->right->Number_0@
                &&& Some(sq.where_expressions@[0].op->Binary_0) == comparison_of(selection->0->op)
                &&& sq.where_expressions@[0].op is Binary
            } else {
                sq.where_expressions@.len() == 0
            }
        },
    }
}

impl SelectQuery {
    /// The select query that a statement gives: what [`select_parts_match`]
    /// says of the parts of a select statement. Any other statement names
    /// no table, which is an error.
    pub fn new(statement: &SqlStatement) -> (r: Result<SelectQuery, String>)
        ensures
            match statement {
                SqlStatement::Query(SqlSetExpr::Select(select)) => select_parts_match(
                    r,
                    select.projection@,
                    select.from@,
                    select.selection,
                ),
                _ => r matches Err(e) && e@ == no_table_error(),
            },
    {
        let mut table_name: Option<String> = None;
        let mut projection: Vec<String> = Vec::new();
        let mut where_expressions: Vec<Expression> = Vec::new();
        match statement {
            SqlStatement::Query(SqlSetExpr::Select(select)) => {
                let items = &select.projection;
                let mut i: usize = 0;
                assert(texts(projection@) =~= projection_names(items@.take(0)));
                while i < items.len()
                    invariant
                        i <= items@.len(),
                        texts(projection@) == projection_names(items@.take(i as int)),
                    decreases items@.len() - i,
                {
                    assert(items@.take(i + 1).drop_last() =~= items@.take(i as int));
                    assert(items@.take(i + 1).last() == items@[i as int]);
                    let ghost before = texts(projection@);
                    match &items[i] {
                        SqlSelectItem::UnnamedExpr(
                            SqlExpr::Operand(SqlOperand::Identifier(id)),
                        ) => {
                            projection.push(id.clone());
                            assert(texts(projection@) =~= before.push(id@));
                        },
                        SqlSelectItem::ExprWithAlias(
                            SqlExpr::Operand(SqlOperand::Identifier(id)),
                        ) => {
                            projection.push(id.clone());
                            assert(texts(projection@) =~= before.push(id@));
                        },
                        SqlSelectItem::Wildcard => {
                            projection.push("*".to_owned());
                            assert(texts(projection@) =~= before.push("*"@));
                        },
                        _ => {},
                    }
                    i += 1;
                }
                assert(items@.take(items@.len() as int) =~= items@);
                let from = &select.from;
                let mut k: usize = 0;
                while k < from.len()
                    invariant
                        k <= from@.len(),
                        match table_name {
                            Some(t) => last_table(from@.take(k as int)) == Some(t@),
                            None => last_table(from@.take(k as int)) is None,
                        },
                    decreases from@.len() - k,
                {
                    assert(from@.take(k + 1).drop_last() =~= from@.take(k as int));
                    assert(from@.take(k + 1).last() == from@[k as int]);
                    match &from[k] {
                        SqlTableFactor::Table(name) => {
                            table_name = Some(name.clone());
                        },
                        SqlTableFactor::Other => {},
                    }
                    k += 1;
                }
                assert(from@.take(from@.len() as int) =~= from@);
                match &select.selection {
                    Some(
                        SqlExpr::BinaryOp {
                            left: SqlOperand::Identifier(col_name),
                            op,
                            right: SqlOperand::Number(n),
                        },
                    ) => {
                        let bop = match op {
                            SqlBinaryOperator::Eq => Binary::Eq,
                            SqlBinaryOperator::Gt => Binary::Gt,
                            SqlBinaryOperator::Lt => Binary::Lt,
                            SqlBinaryOperator::Other => {
                                return Err("cannot parse select query".to_owned());
                            },
                        };
                        where_expressions.push(
                            Expression {
                                left: col_name.clone(),
                                right: n.clone(),
                                op: Operator::Binary(bop),
                            },
                        );
                    },
                    _ => {},
                }
            },
            _ => {},
        }
        match table_name {
            Some(name) => Ok(SelectQuery { from: name, projection, where_expressions }),
            None => Err(
                "Error while trying to parse select statement. Cannot extract table name"
                    .to_owned(),
            ),
        }
    }
}

} // verus!
