//! Create queries: a table name and the columns to declare.

use crate::parser::statement::{SqlColumn, SqlColumnOption, SqlStatement, SqlType};
use crate::text::{chars_of, same_chars};
use vstd::prelude::*;

verus! {

/// One column of a create query, as it was written.
#[derive(Debug, PartialEq)]
pub struct ParsedColumn {
    pub name: String,
    /// The name of the column's type, not yet resolved.
    pub datatype: String,
    pub is_pk: bool,
    pub is_nullable: bool,
}

/// A request to create a table.
#[derive(Debug)]
pub struct CreateQuery {
    pub table_name: String,
    /// The columns in the order of their declaration.
    pub columns: Vec<ParsedColumn>,
}

/// The type name that a custom type stands for, by the first part of its
/// name: `string` and `datetime` are strings, `tinyint` and `tinyint(1)`
/// are integers, and any other name, or a name without parts, is invalid.
pub open spec fn custom_type_token(parts: Seq<String>) -> Seq<char> {
    if parts.len() == 0 {
        "invalid"@
    } else if parts[0]@ == "string"@ || parts[0]@ == "datetime"@ {
        "string"@
    } else if parts[0]@ == "tinyint"@ || parts[0]@ == "tinyint(1)"@ {
        "int"@
    } else {
        "invalid"@
    }
}

/// The type name under which the engine knows a type of a create
/// statement: `int`, `bool`, `string` or `float`, and `invalid` for a type
/// that it cannot hold.
pub open spec fn type_token(data_type: SqlType) -> Seq<char> {
    match data_type {
        SqlType::SmallInt => "int"@,
        SqlType::Int => "int"@,
        SqlType::BigInt => "int"@,
        SqlType::Boolean => "bool"@,
        SqlType::Text => "string"@,
        SqlType::Varchar => "string"@,
        SqlType::Float => "float"@,
        SqlType::Double => "float"@,
        SqlType::Decimal => "float"@,
        SqlType::Custom(parts) => custom_type_token(parts@),
        SqlType::Other => "invalid"@,
    }
}

/// Whether the options make a column a primary key. The last option
/// decides: only if it is `PRIMARY KEY` is the column one.
pub open spec fn declares_primary_key(options: Seq<SqlColumnOption>) -> bool {
    options.len() > 0 && options.last() == (SqlColumnOption::Unique { is_primary: true })
}

/// The column of a create query that a column of a create statement
/// gives. No column is marked as nullable.
pub open spec fn parsed_column_matches(c: ParsedColumn, col: SqlColumn) -> bool {
    &&& c.name@ == col.name@
    &&& c.datatype@ == type_token(col.data_type)
    &&& c.is_pk == declares_primary_key(col.options@)
    &&& !c.is_nullable
}

/// The text of the error of a statement that creates no table.
pub open spec fn create_error() -> Seq<char> {
    "Error parsing query"@
}

/// The type name under which the engine knows the type `data_type`.
fn type_token_of(data_type: &SqlType) -> (r: &'static str)
    ensures
        r@ == type_token(*data_type),
{
    match data_type {
        SqlType::SmallInt => "int",
        SqlType::Int => "int",
        SqlType::BigInt => "int",
        SqlType::Boolean => "bool",
        SqlType::Text => "string",
        SqlType::Varchar => "string",
        SqlType::Float => "float",
        SqlType::Double => "float",
        SqlType::Decimal => "float",
        SqlType::Custom(parts) => {
            if parts.len() == 0 {
                "invalid"
            } else {
                let first = chars_of(parts[0].as_str());
                if same_chars(&first, &chars_of("string")) || same_chars(
                    &first,
                    &chars_of("datetime"),
                ) {
                    "string"
                } else if same_chars(&first, &chars_of("tinyint")) || same_chars(
                    &first,
                    &chars_of("tinyint(1)"),
                ) {
                    "int"
                } else {
                    "invalid"
                }
            }
        },
        SqlType::Other => "invalid",
    }
}

/// Whether the options make a column a primary key.
fn is_primary_key(options: &Vec<SqlColumnOption>) -> (r: bool)
    ensures
        r == declares_primary_key(options@),
{
    if options.len() == 0 {
        false
    } else {
        match options[options.len() - 1] {
            SqlColumnOption::Unique { is_primary } => is_primary,
            SqlColumnOption::Other => false,
        }
    }
}

impl CreateQuery {
    /// The create query that a statement gives: for a statement that
    /// creates a table, the table's name and its columns in the order of
    /// the statement, each with the type name under which the engine knows
    /// its type. Any other statement is an error.
    pub fn new(statement: &SqlStatement) -> (r: Result<CreateQuery, String>)
        ensures
            match r {
                Ok(cq) => statement matches SqlStatement::CreateTable {
                    name,
                    definitions: columns,
                } && {
                    &&& cq.table_name@ == name@
                    &&& cq.columns@.len() == columns@.len()
                    &&& forall|i: int|
                        0 <= i < columns@.len() ==> parsed_column_matches(
                            #[trigger] cq.columns@[i],
                            columns@[i],
                        )
                },
                Err(e) => !(statement is CreateTable) && e@ == create_error(),
            },
    {
        match statement {
            SqlStatement::CreateTable { name, definitions: columns } => {
                let mut parsed_columns: Vec<ParsedColumn> = Vec::new();
                let mut i: usize = 0;
                while i < columns.len()
                    invariant
                        i <= columns@.len(),
                        parsed_columns@.len() == i,
                        forall|j: int|
                            0 <= j < i ==> parsed_column_matches(
                                #[trigger] parsed_columns@[j],
                                columns@[j],
                            ),
                    decreases columns@.len() - i,
                {
                    let col = &columns[i];
                    parsed_columns.push(
                        ParsedColumn {
                            name: col.name.clone(),
                            datatype: type_token_of(&col.data_type).to_owned(),
                            is_pk: is_primary_key(&col.options),
                            is_nullable: false,
                        },
                    );
                    i += 1;
                }
                Ok(CreateQuery { table_name: name.clone(), columns: parsed_columns })
            },
            _ => Err("Error parsing query".to_owned()),
        }
    }
}

} // verus!
