use sdb::command::{handle_commands, CommandType, DbCommand, MetaCommand};
use sdb::database::Database;
use sdb::parser::create::{CreateQuery, ParsedColumn};
use sdb::parser::insert::InsertQuery;
use sdb::parser::select::{Binary, Operator, SelectQuery};
use sdb::parser::statement::{
    SqlBinaryOperator, SqlColumn, SqlColumnOption, SqlExpr, SqlOperand, SqlSelect,
    SqlSelectItem, SqlSetExpr, SqlStatement, SqlTableFactor, SqlType,
};
use sdb::table::util::rotate_2d_vec;
use sdb::table::Table;

fn identifier(name: &str) -> SqlExpr {
    SqlExpr::Operand(SqlOperand::Identifier(name.to_string()))
}

fn number(n: &str) -> SqlExpr {
    SqlExpr::Operand(SqlOperand::Number(n.to_string()))
}

fn sql_column(name: &str, data_type: SqlType, options: Vec<SqlColumnOption>) -> SqlColumn {
    SqlColumn { name: name.to_string(), data_type, options }
}

fn custom(parts: &[&str]) -> SqlType {
    SqlType::Custom(parts.iter().map(|p| p.to_string()).collect())
}

fn select_statement(
    projection: Vec<SqlSelectItem>,
    from: Vec<SqlTableFactor>,
    selection: Option<SqlExpr>,
) -> SqlStatement {
    SqlStatement::Query(SqlSetExpr::Select(SqlSelect { projection, from, selection }))
}

fn comparison(left: &str, op: SqlBinaryOperator, right: &str) -> SqlExpr {
    SqlExpr::BinaryOp {
        left: SqlOperand::Identifier(left.to_string()),
        op,
        right: SqlOperand::Number(right.to_string()),
    }
}

#[test]
fn create_query_knows_the_types_of_a_create_statement() {
    let types = vec![
        (SqlType::SmallInt, "int"),
        (SqlType::Int, "int"),
        (SqlType::BigInt, "int"),
        (SqlType::Boolean, "bool"),
        (SqlType::Text, "string"),
        (SqlType::Varchar, "string"),
        (SqlType::Float, "float"),
        (SqlType::Double, "float"),
        (SqlType::Decimal, "float"),
        (custom(&["string"]), "string"),
        (custom(&["datetime"]), "string"),
        (custom(&["tinyint"]), "int"),
        (custom(&["tinyint(1)"]), "int"),
        (custom(&["tinyint", "x"]), "int"),
        (custom(&["blob"]), "invalid"),
        (custom(&["STRING"]), "invalid"),
        (custom(&[]), "invalid"),
        (SqlType::Other, "invalid"),
    ];
    let mut definitions = vec![];
    let mut expected = vec![];
    for (i, (data_type, token)) in types.into_iter().enumerate() {
        definitions.push(sql_column(&format!("c{}", i), data_type, vec![]));
        expected.push(ParsedColumn {
            name: format!("c{}", i),
            datatype: token.to_string(),
            is_pk: false,
            is_nullable: false,
        });
    }
    let statement = SqlStatement::CreateTable { name: "t".to_string(), definitions };
    let cq = CreateQuery::new(&statement).unwrap();
    assert_eq!(cq.table_name, "t");
    assert_eq!(cq.columns, expected);
}

#[test]
fn last_option_of_a_column_decides_whether_it_is_a_primary_key() {
    let primary = || SqlColumnOption::Unique { is_primary: true };
    let unique = || SqlColumnOption::Unique { is_primary: false };
    let cases = vec![
        (vec![], false),
        (vec![primary()], true),
        (vec![unique()], false),
        (vec![SqlColumnOption::Other], false),
        (vec![SqlColumnOption::Other, primary()], true),
        (vec![primary(), SqlColumnOption::Other], false),
        (vec![primary(), unique()], false),
        (vec![unique(), primary()], true),
    ];
    for (options, expected) in cases {
        let statement = SqlStatement::CreateTable {
            name: "t".to_string(),
            definitions: vec![sql_column("id", SqlType::Int, options)],
        };
        let cq = CreateQuery::new(&statement).unwrap();
        assert_eq!(cq.columns[0].is_pk, expected);
        assert!(!cq.columns[0].is_nullable);
    }
}

#[test]
fn statement_that_creates_no_table_gives_no_create_query() {
    let statement = select_statement(vec![], vec![], None);
    assert_eq!(CreateQuery::new(&statement).unwrap_err(), "Error parsing query");
    assert_eq!(CreateQuery::new(&SqlStatement::Other).unwrap_err(), "Error parsing query");
}

#[test]
fn insert_query_holds_the_texts_of_the_rows() {
    let statement = SqlStatement::Insert {
        table_name: "users".to_string(),
        columns: vec!["id".to_string(), "name".to_string(), "ok".to_string()],
        source: SqlSetExpr::Values(vec![
            vec![number("1"), identifier("hello"), SqlExpr::Operand(SqlOperand::Boolean(true))],
            vec![
                number("2.50"),
                SqlExpr::Other,
                identifier("\"world\""),
                SqlExpr::Operand(SqlOperand::Other),
                SqlExpr::Operand(SqlOperand::Boolean(false)),
                comparison("a", SqlBinaryOperator::Eq, "1"),
            ],
            vec![],
        ]),
    };
    let iq = InsertQuery::from_statement(&statement).unwrap();
    assert_eq!(iq.table_name, "users");
    assert_eq!(iq.columns, vec!["id", "name", "ok"]);
    assert_eq!(
        iq.values,
        vec![
            vec!["1".to_string(), "hello".to_string(), "true".to_string()],
            vec!["2.50".to_string(), "\"world\"".to_string(), "false".to_string()],
            vec![],
        ]
    );
}

#[test]
fn insert_query_without_rows_of_values_holds_no_rows() {
    let statement = SqlStatement::Insert {
        table_name: "users".to_string(),
        columns: vec![],
        source: SqlSetExpr::Other,
    };
    let iq = InsertQuery::from_statement(&statement).unwrap();
    assert_eq!(iq.values, Vec::<Vec<String>>::new());
    let statement = SqlStatement::Insert {
        table_name: "users".to_string(),
        columns: vec![],
        source: SqlSetExpr::Select(SqlSelect { projection: vec![], from: vec![], selection: None }),
    };
    assert!(InsertQuery::from_statement(&statement).unwrap().values.is_empty());
    assert_eq!(
        InsertQuery::from_statement(&SqlStatement::Other).unwrap_err(),
        "Cannot parse insert query"
    );
}

#[test]
fn select_query_names_projection_table_and_condition() {
    let statement = select_statement(
        vec![
            SqlSelectItem::UnnamedExpr(identifier("id")),
            SqlSelectItem::UnnamedExpr(number("1")),
            SqlSelectItem::QualifiedWildcard,
            SqlSelectItem::ExprWithAlias(identifier("name")),
            SqlSelectItem::ExprWithAlias(SqlExpr::Other),
            SqlSelectItem::Wildcard,
        ],
        vec![
            SqlTableFactor::Table("first".to_string()),
            SqlTableFactor::Table("users".to_string()),
            SqlTableFactor::Other,
        ],
        Some(comparison("id", SqlBinaryOperator::Gt, "3")),
    );
    let sq = SelectQuery::new(&statement).unwrap();
    assert_eq!(sq.from, "users");
    assert_eq!(sq.projection, vec!["id", "name", "*"]);
    assert_eq!(sq.where_expressions.len(), 1);
    assert_eq!(sq.where_expressions[0].left, "id");
    assert_eq!(sq.where_expressions[0].right, "3");
    assert_eq!(sq.where_expressions[0].op, Operator::Binary(Binary::Gt));
    for (op, expected) in [
        (SqlBinaryOperator::Eq, Binary::Eq),
        (SqlBinaryOperator::Lt, Binary::Lt),
        (SqlBinaryOperator::Gt, Binary::Gt),
    ] {
        let statement = select_statement(
            vec![],
            vec![SqlTableFactor::Table("t".to_string())],
            Some(comparison("a", op, "0")),
        );
        let sq = SelectQuery::new(&statement).unwrap();
        assert_eq!(sq.where_expressions[0].op, Operator::Binary(expected));
        assert!(sq.projection.is_empty());
    }
}

#[test]
fn select_query_has_no_condition_for_what_is_no_comparison_with_a_number() {
    let selections = vec![
        None,
        Some(identifier("id")),
        Some(SqlExpr::Other),
        Some(SqlExpr::BinaryOp {
            left: SqlOperand::Number("1".to_string()),
            op: SqlBinaryOperator::Eq,
            right: SqlOperand::Number("1".to_string()),
        }),
        Some(SqlExpr::BinaryOp {
            left: SqlOperand::Identifier("a".to_string()),
            op: SqlBinaryOperator::Other,
            right: SqlOperand::Identifier("b".to_string()),
        }),
        Some(SqlExpr::BinaryOp {
            left: SqlOperand::Identifier("a".to_string()),
            op: SqlBinaryOperator::Eq,
            right: SqlOperand::Boolean(true),
        }),
    ];
    for selection in selections {
        let statement =
            select_statement(vec![], vec![SqlTableFactor::Table("t".to_string())], selection);
        assert!(SelectQuery::new(&statement).unwrap().where_expressions.is_empty());
    }
}

#[test]
fn select_query_is_refused_without_table_or_with_an_unknown_comparison() {
    let no_table = "Error while trying to parse select statement. Cannot extract table name";
    let statement = select_statement(vec![SqlSelectItem::Wildcard], vec![], None);
    assert_eq!(SelectQuery::new(&statement).unwrap_err(), no_table);
    let statement = select_statement(vec![], vec![SqlTableFactor::Other], None);
    assert_eq!(SelectQuery::new(&statement).unwrap_err(), no_table);
    assert_eq!(SelectQuery::new(&SqlStatement::Other).unwrap_err(), no_table);
    assert_eq!(
        SelectQuery::new(&SqlStatement::Query(SqlSetExpr::Values(vec![]))).unwrap_err(),
        no_table
    );
    for from in [vec![], vec![SqlTableFactor::Table("t".to_string())]] {
        let statement =
            select_statement(vec![], from, Some(comparison("a", SqlBinaryOperator::Other, "1")));
        assert_eq!(SelectQuery::new(&statement).unwrap_err(), "cannot parse select query");
    }
}

#[test]
fn commands_to_the_program_are_told_by_their_exact_text() {
    assert_eq!(MetaCommand::new(".exit".to_string()), MetaCommand::Exit);
    assert_eq!(MetaCommand::new(".tables".to_string()), MetaCommand::ListTables);
    assert_eq!(MetaCommand::new(".data".to_string()), MetaCommand::PrintData);
    assert_eq!(MetaCommand::new(".persist".to_string()), MetaCommand::Persist);
    assert_eq!(MetaCommand::new(".restore".to_string()), MetaCommand::Restore);
    for other in [".EXIT", ".exit ", "exit", ".", "", ".tables x"] {
        assert_eq!(MetaCommand::new(other.to_string()), MetaCommand::Unknown(other.to_string()));
    }
}

#[test]
fn commands_to_the_engine_are_told_by_their_first_word() {
    let text = |t: &str| t.to_string();
    assert_eq!(DbCommand::new(text("insert into t")), DbCommand::Insert(text("insert into t")));
    assert_eq!(DbCommand::new(text("update t")), DbCommand::Update(text("update t")));
    assert_eq!(DbCommand::new(text("delete from t")), DbCommand::Delete(text("delete from t")));
    assert_eq!(DbCommand::new(text("create table t")), DbCommand::CreateTable(text("create table t")));
    assert_eq!(DbCommand::new(text("select * from t")), DbCommand::Select(text("select * from t")));
    assert_eq!(DbCommand::new(text("select")), DbCommand::Select(text("select")));
    for other in ["", " select", "SELECT x", "selects", "drop table t", "select\tx"] {
        assert_eq!(DbCommand::new(text(other)), DbCommand::Unknown(text(other)));
    }
}

#[test]
fn point_at_the_start_makes_a_command_to_the_program() {
    assert_eq!(
        handle_commands(&".tables".to_string()),
        CommandType::MetaCommand(MetaCommand::ListTables)
    );
    assert_eq!(
        handle_commands(&".what".to_string()),
        CommandType::MetaCommand(MetaCommand::Unknown(".what".to_string()))
    );
    assert_eq!(
        handle_commands(&"select 1".to_string()),
        CommandType::DbCommand(DbCommand::Select("select 1".to_string()))
    );
    assert_eq!(
        handle_commands(&" .exit".to_string()),
        CommandType::DbCommand(DbCommand::Unknown(" .exit".to_string()))
    );
    assert_eq!(
        handle_commands(&String::new()),
        CommandType::DbCommand(DbCommand::Unknown(String::new()))
    );
}

#[test]
fn statements_run_from_creation_to_selection() {
    let mut db = Database::new();
    let create = SqlStatement::CreateTable {
        name: "users".to_string(),
        definitions: vec![
            sql_column("id", SqlType::Int, vec![SqlColumnOption::Unique { is_primary: true }]),
            sql_column("name", custom(&["string"]), vec![]),
        ],
    };
    db.create_table(CreateQuery::new(&create).unwrap()).unwrap();
    let insert = SqlStatement::Insert {
        table_name: "users".to_string(),
        columns: vec!["id".to_string(), "name".to_string()],
        source: SqlSetExpr::Values(vec![
            vec![number("2"), identifier("b")],
            vec![number("1"), identifier("a")],
        ]),
    };
    db.insert(&InsertQuery::from_statement(&insert).unwrap()).unwrap();
    let select = select_statement(
        vec![SqlSelectItem::UnnamedExpr(identifier("name")), SqlSelectItem::UnnamedExpr(identifier("id"))],
        vec![SqlTableFactor::Table("users".to_string())],
        Some(comparison("id", SqlBinaryOperator::Gt, "0")),
    );
    let data = db.select(&SelectQuery::new(&select).unwrap()).unwrap();
    assert_eq!(data, vec![vec!["a", "b"], vec!["1", "2"]]);
    let rows = rotate_2d_vec(&data);
    assert_eq!(rows.len(), 2);
    assert_eq!(rows[0], vec!["a", "1"]);
    assert_eq!(rows[1], vec!["b", "2"]);
}

#[test]
fn table_lists_its_schema_and_its_data() {
    let cq = CreateQuery {
        table_name: "users".to_string(),
        columns: vec![
            ParsedColumn { name: "id".to_string(), datatype: "int".to_string(), is_pk: true, is_nullable: false },
            ParsedColumn { name: "ok".to_string(), datatype: "bool".to_string(), is_pk: false, is_nullable: false },
            ParsedColumn { name: "w".to_string(), datatype: "what".to_string(), is_pk: false, is_nullable: false },
        ],
    };
    let table = Table::new(cq).unwrap();
    assert_eq!(
        table.schema_rows(),
        vec![
            vec!["Column Name", "Data Type"],
            vec!["id", "Int"],
            vec!["ok", "Boolean"],
            vec!["w", "Invalid"],
        ]
    );
    assert_eq!(table.column_names(), vec!["id", "ok", "w"]);
    assert_eq!(table.data_columns(), vec![Vec::<String>::new(); 3]);
    let cq = CreateQuery {
        table_name: "t".to_string(),
        columns: vec![
            ParsedColumn { name: "id".to_string(), datatype: "int".to_string(), is_pk: true, is_nullable: false },
            ParsedColumn { name: "ok".to_string(), datatype: "bool".to_string(), is_pk: false, is_nullable: false },
        ],
    };
    let mut table = Table::new(cq).unwrap();
    table
        .insert_row(
            &vec!["ok".to_string(), "id".to_string()],
            &vec![
                vec!["true".to_string(), "5".to_string()],
                vec!["false".to_string(), "-5".to_string()],
            ],
        )
        .unwrap();
    assert_eq!(table.data_columns(), vec![vec!["5", "-5"], vec!["true", "false"]]);
    let empty = Table::new(CreateQuery { table_name: "e".to_string(), columns: vec![] }).unwrap();
    assert_eq!(empty.schema_rows(), vec![vec!["Column Name", "Data Type"]]);
    assert_eq!(empty.data_columns(), Vec::<Vec<String>>::new());
    assert_eq!(empty.row_count(), 0);
}
