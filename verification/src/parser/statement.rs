//! Parsed statements, as far as the engine reads them.
//!
//! A statement arrives from a parser of SQL text. These types hold of it
//! what the queries of the engine are made from, and nothing else: whatever
//! the engine does not read is `Other`.

use vstd::prelude::*;

verus! {

/// The type of a column as a create statement names it.
#[derive(Debug, PartialEq)]
pub enum SqlType {
    SmallInt,
    Int,
    BigInt,
    Boolean,
    Text,
    Varchar,
    Float,
    Double,
    Decimal,
    /// A type that the parser does not know, by the parts of its name.
    Custom(Vec<String>),
    Other,
}

/// An option of a column of a create statement.
#[derive(Debug, PartialEq)]
pub enum SqlColumnOption {
    /// `UNIQUE`, or `PRIMARY KEY` where `is_primary` holds.
    Unique { is_primary: bool },
    Other,
}

/// A column of a create statement.
#[derive(Debug, PartialEq)]
pub struct SqlColumn {
    pub name: String,
    pub data_type: SqlType,
    /// The options in the order in which they were written.
    pub options: Vec<SqlColumnOption>,
}

/// What can stand on either side of a comparison, or as a value of a row.
#[derive(Debug, PartialEq)]
pub enum SqlOperand {
    /// An identifier, as it was written.
    Identifier(String),
    /// A number, as it was written.
    Number(String),
    Boolean(bool),
    Other,
}

/// The operator of a comparison.
#[derive(Debug, PartialEq)]
pub enum SqlBinaryOperator {
    Eq,
    Gt,
    Lt,
    Other,
}

/// An expression.
#[derive(Debug, PartialEq)]
pub enum SqlExpr {
    Operand(SqlOperand),
    BinaryOp { left: SqlOperand, op: SqlBinaryOperator, right: SqlOperand },
    Other,
}

/// One item of the projection of a select statement.
#[derive(Debug, PartialEq)]
pub enum SqlSelectItem {
    UnnamedExpr(SqlExpr),
    QualifiedWildcard,
    Wildcard,
    /// An expression with an alias; the alias is not read.
    ExprWithAlias(SqlExpr),
}

/// What a select statement reads from.
#[derive(Debug, PartialEq)]
pub enum SqlTableFactor {
    /// A table, by its name.
    Table(String),
    Other,
}

/// The body of a select statement.
#[derive(Debug, PartialEq)]
pub struct SqlSelect {
    pub projection: Vec<SqlSelectItem>,
    pub from: Vec<SqlTableFactor>,
    pub selection: Option<SqlExpr>,
}

/// The body of a query.
#[derive(Debug, PartialEq)]
pub enum SqlSetExpr {
    Select(SqlSelect),
    /// Rows of values, as an insert statement gives them.
    Values(Vec<Vec<SqlExpr>>),
    Other,
}

/// A statement.
#[derive(Debug, PartialEq)]
pub enum SqlStatement {
    Query(SqlSetExpr),
    Insert { table_name: String, columns: Vec<String>, source: SqlSetExpr },
    CreateTable { name: String, definitions: Vec<SqlColumn> },
    Other,
}

} // verus!
