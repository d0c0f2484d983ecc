use sdb::column::{ColumnData, ColumnHeader, ColumnIndex};
use sdb::database::Database;
use sdb::datatype::DataType;
use sdb::error::Error;
use sdb::parser::create::{CreateQuery, ParsedColumn};
use sdb::parser::insert::InsertQuery;
use sdb::parser::select::{Binary, Expression, Operator, SelectQuery};
use sdb::table::util::rotate_2d_vec;
use sdb::table::Table;

fn column(name: &str, datatype: &str, is_pk: bool) -> ParsedColumn {
    ParsedColumn {
        name: name.to_string(),
        datatype: datatype.to_string(),
        is_pk,
        is_nullable: false,
    }
}

fn strings(items: &[&str]) -> Vec<String> {
    items.iter().map(|s| s.to_string()).collect()
}

fn rows(items: &[&[&str]]) -> Vec<Vec<String>> {
    items.iter().map(|r| strings(r)).collect()
}

fn users() -> Table {
    let cq = CreateQuery {
        table_name: "users".to_string(),
        columns: vec![column("id", "int", true), column("name", "string", false)],
    };
    Table::new(cq).unwrap()
}

fn users_with_five_rows() -> Table {
    let mut table = users();
    table
        .insert_row(
            &strings(&["id", "name"]),
            &rows(&[&["3", "c"], &["1", "a"], &["5", "e"], &["2", "b"], &["4", "d"]]),
        )
        .unwrap();
    table
}

fn select(projection: &[&str], condition: Option<(&str, Binary, &str)>) -> SelectQuery {
    SelectQuery {
        from: "users".to_string(),
        projection: strings(projection),
        where_expressions: match condition {
            Some((left, op, right)) => vec![Expression {
                left: left.to_string(),
                right: right.to_string(),
                op: Operator::Binary(op),
            }],
            None => vec![],
        },
    }
}

#[test]
fn tests_creating_a_table() {
    let cq = CreateQuery {
        table_name: "users".to_string(),
        columns: vec![
            column("id", "int", false),
            column("name", "string", false),
            column("bounty", "float", false),
            column("unknown", "unknown", false),
        ],
    };
    let table = Table::new(cq).unwrap();

    let expected_column_names = vec![
        "id".to_string(),
        "name".to_string(),
        "bounty".to_string(),
        "unknown".to_string(),
    ];
    let expected_column_types = vec![
        "Int".to_string(),
        "Str".to_string(),
        "Float".to_string(),
        "Invalid".to_string(),
    ];

    let column_names = table
        .columns()
        .iter()
        .map(|c| c.name.to_string())
        .collect::<Vec<String>>();

    let column_types = table
        .columns()
        .iter()
        .map(|c| c.datatype.to_string())
        .collect::<Vec<String>>();

    assert_eq!(table.name(), "users");
    assert_eq!(column_names, expected_column_names);
    assert_eq!(column_types, expected_column_types);
}

#[test]
fn tests_unique_constraint_violation_on_primary_key() {
    let mut table = users();
    let cols = vec!["id".to_string(), "name".to_string()];
    let val = vec!["1".to_string(), "tahmid".to_string()];
    table.does_violate_unique_constraint(&cols, &val).unwrap();
    table.insert_row(&cols, &vec![val.clone()]).unwrap();
    assert_eq!(
        table.does_violate_unique_constraint(&cols, &val).is_err(),
        true
    );
}

#[test]
fn datatype_names_are_resolved_whatever_their_case() {
    assert_eq!(DataType::new("int".to_string()), DataType::Int);
    assert_eq!(DataType::new("INT".to_string()), DataType::Int);
    assert_eq!(DataType::new("string".to_string()), DataType::Str);
    assert_eq!(DataType::new("Text".to_string()), DataType::Str);
    assert_eq!(DataType::new("float".to_string()), DataType::Float);
    assert_eq!(DataType::new("DOUBLE".to_string()), DataType::Float);
    assert_eq!(DataType::new("bool".to_string()), DataType::Bool);
    assert_eq!(DataType::new("boolean".to_string()), DataType::Invalid);
    assert_eq!(DataType::new("".to_string()), DataType::Invalid);
    assert_eq!(DataType::new(" int".to_string()), DataType::Invalid);
}

#[test]
fn datatype_is_shown_under_its_name() {
    assert_eq!(DataType::Int.to_string(), "Int");
    assert_eq!(DataType::Str.to_string(), "Str");
    assert_eq!(DataType::Float.to_string(), "Float");
    assert_eq!(DataType::Bool.to_string(), "Boolean");
    assert_eq!(DataType::Invalid.to_string(), "Invalid");
}

#[test]
fn errors_are_shown_under_their_names() {
    assert_eq!(Error::SchemaError.to_string(), "SchemaError");
    assert_eq!(Error::ParseError.to_string(), "ParseError");
    assert_eq!(Error::ConstraintViolation.to_string(), "ConstraintViolation");
    assert_eq!(Error::UnsupportedQuery.to_string(), "UnsupportedQuery");
}

#[test]
fn new_column_header_is_indexed_when_primary_key() {
    let h = ColumnHeader::new("id".to_string(), "int".to_string(), true);
    assert_eq!(h.name, "id");
    assert_eq!(h.datatype, DataType::Int);
    assert!(h.is_primary_key);
    assert!(h.is_indexed);
    assert!(matches!(h.index, ColumnIndex::Int(_)));
    let h = ColumnHeader::new("name".to_string(), "string".to_string(), false);
    assert!(!h.is_indexed);
    assert!(matches!(h.index, ColumnIndex::Str(_)));
    let h = ColumnHeader::new("ok".to_string(), "bool".to_string(), false);
    assert!(matches!(h.index, ColumnIndex::Bool(_)));
    let h = ColumnHeader::new("x".to_string(), "float".to_string(), true);
    assert!(matches!(h.index, ColumnIndex::Absent));
    let h = ColumnHeader::new("y".to_string(), "blob".to_string(), false);
    assert_eq!(h.datatype, DataType::Invalid);
    assert!(matches!(h.index, ColumnIndex::Absent));
}

#[test]
fn index_of_a_header_can_be_changed_in_place() {
    let mut h = ColumnHeader::new("id".to_string(), "int".to_string(), true);
    if let ColumnIndex::Int(index) = h.get_mut_index() {
        index.insert(7, 0);
        index.insert(3, 1);
        index.insert(7, 2);
    }
    assert_eq!(h.index.get_idx_data(&"7".to_string()), Ok(Some(2)));
    assert_eq!(h.index.get_idx_data(&"3".to_string()), Ok(Some(1)));
    assert_eq!(h.index.get_idx_data(&"4".to_string()), Ok(None));
    assert_eq!(h.index.get_idx_data(&"x".to_string()), Err(Error::ParseError));
    assert_eq!(
        h.index.get_idx_data_by_range(&"2".to_string(), Binary::Gt),
        Ok(vec![1, 2])
    );
    assert_eq!(
        h.index.get_idx_data_by_range(&"7".to_string(), Binary::Lt),
        Ok(vec![1])
    );
    assert_eq!(
        h.index.get_idx_data_by_range(&"7".to_string(), Binary::Eq),
        Ok(vec![2])
    );
    assert_eq!(
        h.index.get_idx_data_by_range(&"7".to_string(), Binary::Gt),
        Ok(vec![])
    );
    assert_eq!(
        h.index.get_idx_data_by_range(&"seven".to_string(), Binary::Gt),
        Err(Error::ParseError)
    );
}

#[test]
fn index_without_keys_finds_nothing() {
    let index = ColumnIndex::new(DataType::Float);
    assert_eq!(index.get_idx_data(&"1.5".to_string()), Ok(None));
    assert_eq!(
        index.get_idx_data_by_range(&"1.5".to_string(), Binary::Lt),
        Ok(vec![])
    );
}

#[test]
fn string_index_orders_keys_character_by_character() {
    let mut h = ColumnHeader::new("name".to_string(), "string".to_string(), true);
    let names = ["pear", "apple", "", "apples", "Zebra", "fig", "été"];
    if let ColumnIndex::Str(index) = h.get_mut_index() {
        for (i, n) in names.iter().enumerate() {
            index.insert(n.to_string(), i);
        }
    }
    let mut sorted: Vec<(String, usize)> =
        names.iter().enumerate().map(|(i, n)| (n.to_string(), i)).collect();
    sorted.sort();
    let all: Vec<usize> = sorted.iter().map(|(_, i)| *i).collect();
    assert_eq!(
        h.index.get_idx_data_by_range(&"".to_string(), Binary::Gt),
        Ok(all[1..].to_vec())
    );
    let below: Vec<usize> = sorted
        .iter()
        .filter(|(n, _)| n.as_str() < "fig")
        .map(|(_, i)| *i)
        .collect();
    assert_eq!(
        h.index.get_idx_data_by_range(&"fig".to_string(), Binary::Lt),
        Ok(below)
    );
    assert_eq!(h.index.get_idx_data(&"apples".to_string()), Ok(Some(3)));
    assert_eq!(h.index.get_idx_data(&"appl".to_string()), Ok(None));
}

#[test]
fn bool_index_orders_false_before_true() {
    let mut h = ColumnHeader::new("ok".to_string(), "bool".to_string(), true);
    if let ColumnIndex::Bool(index) = h.get_mut_index() {
        index.insert(true, 0);
        index.insert(false, 1);
    }
    assert_eq!(
        h.index.get_idx_data_by_range(&"false".to_string(), Binary::Gt),
        Ok(vec![0])
    );
    assert_eq!(
        h.index.get_idx_data_by_range(&"true".to_string(), Binary::Lt),
        Ok(vec![1])
    );
    assert_eq!(h.index.get_idx_data(&"True".to_string()), Err(Error::ParseError));
}

#[test]
fn column_storage_hands_out_texts() {
    let data = ColumnData::Int(vec![0, -7, 2147483647, -2147483648, 10]);
    assert_eq!(data.count(), 5);
    assert_eq!(
        data.get_serialized_col_data(),
        strings(&["0", "-7", "2147483647", "-2147483648", "10"])
    );
    assert_eq!(
        data.get_serialized_col_data_by_index(&vec![4, 0, 4]),
        strings(&["10", "0", "10"])
    );
    let data = ColumnData::Bool(vec![true, false]);
    assert_eq!(data.get_serialized_col_data(), strings(&["true", "false"]));
    let data = ColumnData::Str(strings(&["a b", ""]));
    assert_eq!(data.get_serialized_col_data(), strings(&["a b", ""]));
    let data = ColumnData::Float(strings(&["1.50", "-2e3"]));
    assert_eq!(data.get_serialized_col_data_by_index(&vec![1]), strings(&["-2e3"]));
    assert_eq!(ColumnData::Absent.count(), 0);
    assert_eq!(ColumnData::Absent.get_serialized_col_data(), Vec::<String>::new());
}

#[test]
fn creating_a_table_with_two_columns_of_one_name_is_a_schema_error() {
    let cq = CreateQuery {
        table_name: "t".to_string(),
        columns: vec![column("a", "int", false), column("b", "int", false), column("a", "string", false)],
    };
    assert!(matches!(Table::new(cq), Err(Error::SchemaError)));
}

#[test]
fn inserted_values_come_back_in_insertion_order_for_every_type() {
    let cases: [(&str, &[&str], &[&str]); 4] = [
        ("int", &["3", "-1", "+2", "007"], &["3", "-1", "2", "7"]),
        ("string", &["b", "a", "", "b"], &["b", "a", "", "b"]),
        ("float", &["1.5", "-2.", ".5e-3", "inf"], &["1.5", "-2.", ".5e-3", "inf"]),
        ("bool", &["true", "false", "true"], &["true", "false", "true"]),
    ];
    for (datatype, inserted, expected) in cases {
        let cq = CreateQuery {
            table_name: "users".to_string(),
            columns: vec![column("v", datatype, false)],
        };
        let mut table = Table::new(cq).unwrap();
        let values: Vec<Vec<String>> = inserted.iter().map(|v| vec![v.to_string()]).collect();
        assert_eq!(table.insert_row(&strings(&["v"]), &values), Ok(()));
        assert_eq!(table.row_count(), inserted.len());
        assert_eq!(
            table.execute_select_query(&select(&["v"], None)),
            Ok(vec![strings(expected)])
        );
    }
}

#[test]
fn insertion_keeps_all_columns_equally_long() {
    let mut table = users();
    assert_eq!(table.row_count(), 0);
    table
        .insert_row(&strings(&["name", "id"]), &rows(&[&["a", "1"], &["b", "2"]]))
        .unwrap();
    assert_eq!(table.row_count(), 2);
    let snap = table.snapshot();
    assert_eq!(snap.columns[0].data.count(), 2);
    assert_eq!(snap.columns[1].data.count(), 2);
    assert_eq!(
        table.insert_row(&strings(&["id", "name"]), &rows(&[&["3", "c"], &["x", "d"]])),
        Err(Error::ParseError)
    );
    let snap = table.snapshot();
    assert_eq!(snap.columns[0].data.count(), 2);
    assert_eq!(snap.columns[1].data.count(), 2);
}

#[test]
fn column_order_of_an_insertion_need_not_be_that_of_the_schema() {
    let mut table = users();
    table
        .insert_row(&strings(&["name", "id"]), &rows(&[&["a", "1"], &["b", "2"]]))
        .unwrap();
    assert_eq!(
        table.execute_select_query(&select(&["id", "name"], None)),
        Ok(vec![strings(&["1", "2"]), strings(&["a", "b"])])
    );
}

#[test]
fn duplicate_primary_key_is_refused_and_changes_nothing() {
    let mut table = users();
    let cols = strings(&["id", "name"]);
    assert_eq!(table.insert_row(&cols, &rows(&[&["1", "a"], &["2", "b"]])), Ok(()));
    let before = {
        let mut t = users();
        t.insert_row(&cols, &rows(&[&["1", "a"], &["2", "b"]])).unwrap();
        t
    };
    assert_eq!(
        table.insert_row(&cols, &rows(&[&["1", "c"]])),
        Err(Error::ConstraintViolation)
    );
    assert_eq!(table, before);
    assert_eq!(table.row_count(), 2);
    assert_eq!(
        table.execute_select_query(&select(&["id", "name"], None)),
        Ok(vec![strings(&["1", "2"]), strings(&["a", "b"])])
    );
    assert_eq!(
        table.execute_select_query(&select(&["name"], Some(("id", Binary::Eq, "1")))),
        Ok(vec![strings(&["a"])])
    );
    assert_eq!(
        table.execute_select_query(&select(&["name"], Some(("id", Binary::Gt, "0")))),
        Ok(vec![strings(&["a", "b"])])
    );
}

#[test]
fn batch_with_two_equal_primary_keys_is_refused_entirely() {
    let mut table = users();
    let cols = strings(&["id", "name"]);
    assert_eq!(
        table.insert_row(&cols, &rows(&[&["1", "a"], &["2", "b"], &["1", "c"]])),
        Err(Error::ConstraintViolation)
    );
    assert_eq!(table, users());
    assert_eq!(table.row_count(), 0);
    assert_eq!(
        table.execute_select_query(&select(&["id", "name"], None)),
        Ok(vec![strings(&[]), strings(&[])])
    );
    assert_eq!(
        table.insert_row(&cols, &rows(&[&["7", "a"], &["+7", "b"]])),
        Err(Error::ConstraintViolation)
    );
    assert_eq!(table.insert_row(&cols, &rows(&[&["1", "a"], &["2", "a"]])), Ok(()));
}

#[test]
fn select_with_a_condition_on_the_primary_key() {
    let table = users_with_five_rows();
    assert_eq!(
        table.execute_select_query(&select(&["name"], Some(("id", Binary::Gt, "3")))),
        Ok(vec![strings(&["d", "e"])])
    );
    assert_eq!(
        table.execute_select_query(&select(&["id", "name"], Some(("id", Binary::Gt, "3")))),
        Ok(vec![strings(&["4", "5"]), strings(&["d", "e"])])
    );
    assert_eq!(
        table.execute_select_query(&select(&["id"], Some(("id", Binary::Lt, "3")))),
        Ok(vec![strings(&["1", "2"])])
    );
    assert_eq!(
        table.execute_select_query(&select(&["name"], Some(("id", Binary::Eq, "2")))),
        Ok(vec![strings(&["b"])])
    );
    assert_eq!(
        table.execute_select_query(&select(&["name"], Some(("id", Binary::Eq, "9")))),
        Ok(vec![strings(&[])])
    );
    assert_eq!(
        table.execute_select_query(&select(&["name"], Some(("id", Binary::Gt, "5")))),
        Ok(vec![strings(&[])])
    );
    assert_eq!(
        table.execute_select_query(&select(&[], Some(("id", Binary::Gt, "3")))),
        Ok(vec![])
    );
}

#[test]
fn select_with_a_condition_on_a_column_without_index_is_unsupported() {
    let table = users_with_five_rows();
    assert_eq!(
        table.execute_select_query(&select(&["id"], Some(("name", Binary::Eq, "a")))),
        Err(Error::UnsupportedQuery)
    );
    assert_eq!(
        table.execute_select_query(&select(&["id"], Some(("name", Binary::Gt, "a")))),
        Err(Error::UnsupportedQuery)
    );
}

#[test]
fn select_is_refused_with_the_error_that_comes_first() {
    let table = users_with_five_rows();
    let mut two = select(&["nope"], Some(("id", Binary::Eq, "1")));
    two.where_expressions.push(Expression {
        left: "id".to_string(),
        right: "2".to_string(),
        op: Operator::Binary(Binary::Eq),
    });
    assert_eq!(table.execute_select_query(&two), Err(Error::UnsupportedQuery));
    assert_eq!(
        table.execute_select_query(&select(&["nope"], None)),
        Err(Error::SchemaError)
    );
    assert_eq!(
        table.execute_select_query(&select(&["*"], None)),
        Err(Error::SchemaError)
    );
    assert_eq!(
        table.execute_select_query(&select(&["id"], Some(("nope", Binary::Eq, "1")))),
        Err(Error::SchemaError)
    );
    assert_eq!(
        table.execute_select_query(&select(&["id"], Some(("id", Binary::Eq, "one")))),
        Err(Error::ParseError)
    );
    for op in [Operator::Unary, Operator::Ternary, Operator::Absent] {
        let mut sq = select(&["id"], Some(("id", Binary::Eq, "1")));
        sq.where_expressions[0].op = op;
        assert_eq!(table.execute_select_query(&sq), Err(Error::UnsupportedQuery));
    }
}

#[test]
fn insertion_is_refused_with_the_error_that_comes_first() {
    let mut table = users();
    let cols = strings(&["id", "name"]);
    assert_eq!(
        table.insert_row(&strings(&["id", "nope"]), &rows(&[&["1", "a"]])),
        Err(Error::SchemaError)
    );
    assert_eq!(
        table.insert_row(&strings(&["id"]), &rows(&[&["1"]])),
        Err(Error::SchemaError)
    );
    assert_eq!(
        table.insert_row(&strings(&["id", "id"]), &rows(&[&["1", "1"]])),
        Err(Error::SchemaError)
    );
    assert_eq!(
        table.insert_row(&strings(&["id", "name", "id"]), &rows(&[&["1", "a", "1"]])),
        Err(Error::SchemaError)
    );
    assert_eq!(
        table.insert_row(&cols, &rows(&[&["1", "a"], &["2"]])),
        Err(Error::SchemaError)
    );
    assert_eq!(
        table.insert_row(&cols, &rows(&[&["1", "a", "x"]])),
        Err(Error::SchemaError)
    );
    assert_eq!(
        table.insert_row(&cols, &rows(&[&["1", "a"], &["1", "b"], &["x", "c"]])),
        Err(Error::ParseError)
    );
    assert_eq!(
        table.insert_row(&cols, &rows(&[&["2147483648", "a"]])),
        Err(Error::ParseError)
    );
    assert_eq!(table.row_count(), 0);
    assert_eq!(table.insert_row(&cols, &rows(&[])), Ok(()));
    assert_eq!(table.row_count(), 0);
}

#[test]
fn table_with_a_column_that_cannot_take_values_takes_no_rows() {
    let cq = CreateQuery {
        table_name: "t".to_string(),
        columns: vec![column("id", "int", true), column("blob", "blob", false)],
    };
    let mut table = Table::new(cq).unwrap();
    assert_eq!(
        table.insert_row(&strings(&["id", "blob"]), &rows(&[&["1", "x"]])),
        Err(Error::SchemaError)
    );
    let cq = CreateQuery {
        table_name: "t".to_string(),
        columns: vec![column("price", "float", true)],
    };
    let mut table = Table::new(cq).unwrap();
    assert_eq!(
        table.insert_row(&strings(&["price"]), &rows(&[&["1.5"]])),
        Err(Error::SchemaError)
    );
    assert_eq!(
        table.execute_select_query(&SelectQuery {
            from: "t".to_string(),
            projection: strings(&["price"]),
            where_expressions: vec![Expression {
                left: "price".to_string(),
                right: "1.5".to_string(),
                op: Operator::Binary(Binary::Eq),
            }],
        }),
        Err(Error::UnsupportedQuery)
    );
}

#[test]
fn one_row_is_checked_against_every_primary_key_in_the_column_list() {
    let cq = CreateQuery {
        table_name: "t".to_string(),
        columns: vec![
            column("id", "int", true),
            column("code", "string", true),
            column("note", "string", false),
        ],
    };
    let mut table = Table::new(cq).unwrap();
    let cols = strings(&["id", "code", "note"]);
    table.insert_row(&cols, &rows(&[&["1", "x", "n"]])).unwrap();
    assert_eq!(table.does_violate_unique_constraint(&cols, &strings(&["2", "y", "n"])), Ok(()));
    assert_eq!(
        table.does_violate_unique_constraint(&cols, &strings(&["2", "x", "m"])),
        Err(Error::ConstraintViolation)
    );
    assert_eq!(
        table.does_violate_unique_constraint(&cols, &strings(&["1", "y", "m"])),
        Err(Error::ConstraintViolation)
    );
    assert_eq!(
        table.does_violate_unique_constraint(&cols, &strings(&["one", "x", "m"])),
        Err(Error::ParseError)
    );
    assert_eq!(
        table.does_violate_unique_constraint(&cols, &strings(&["1", "x"])),
        Err(Error::SchemaError)
    );
    assert_eq!(
        table.does_violate_unique_constraint(&strings(&["note"]), &strings(&["n"])),
        Ok(())
    );
    assert_eq!(
        table.does_violate_unique_constraint(&strings(&["code"]), &strings(&["x"])),
        Err(Error::ConstraintViolation)
    );
    assert_eq!(table.insert_row(&cols, &rows(&[&["2", "x", "m"]])), Err(Error::ConstraintViolation));
    assert_eq!(table.insert_row(&cols, &rows(&[&["2", "y", "n"]])), Ok(()));
}

#[test]
fn columns_are_looked_up_by_name() {
    let table = users();
    assert!(table.column_exist("id".to_string()));
    assert!(table.column_exist("name".to_string()));
    assert!(!table.column_exist("Name".to_string()));
    assert_eq!(table.column_position(&"name".to_string()), Some(1));
    assert_eq!(table.get_column("name".to_string()).unwrap().datatype, DataType::Str);
    assert!(matches!(table.get_column("nope".to_string()), Err(Error::SchemaError)));
}

#[test]
fn rotating_columns_gives_rows() {
    let data = vec![strings(&["1", "2", "3"]), strings(&["a", "b", "c"])];
    let rotated = rotate_2d_vec(&data);
    let expected = vec![strings(&["1", "a"]), strings(&["2", "b"]), strings(&["3", "c"])];
    let expected: Vec<Vec<&String>> = expected.iter().map(|r| r.iter().collect()).collect();
    assert_eq!(rotated, expected);
    let none: Vec<Vec<String>> = vec![];
    assert_eq!(rotate_2d_vec(&none), vec![Vec::<&String>::new()]);
    let empty = vec![strings(&[]), strings(&[])];
    assert_eq!(rotate_2d_vec(&empty), Vec::<Vec<&String>>::new());
}

#[test]
fn database_finds_tables_by_name() {
    let mut db = Database::new();
    assert!(!db.table_exists("users".to_string()));
    assert!(matches!(db.get_table("users".to_string()), Err(Error::SchemaError)));
    assert!(matches!(db.get_table_mut("users".to_string()), Err(Error::SchemaError)));
    let cq = |name: &str| CreateQuery {
        table_name: name.to_string(),
        columns: vec![column("id", "int", true), column("name", "string", false)],
    };
    assert_eq!(db.create_table(cq("users")), Ok(()));
    assert_eq!(db.create_table(cq("orders")), Ok(()));
    assert_eq!(db.create_table(cq("users")), Err(Error::SchemaError));
    assert_eq!(db.tables.len(), 2);
    assert!(db.table_exists("orders".to_string()));
    assert_eq!(db.get_table("orders".to_string()).unwrap().name(), "orders");
    db.get_table_mut("users".to_string())
        .unwrap()
        .insert_row(&strings(&["id", "name"]), &rows(&[&["1", "a"]]))
        .unwrap();
    assert_eq!(db.get_table("users".to_string()).unwrap().row_count(), 1);
    assert_eq!(db.get_table("orders".to_string()).unwrap().row_count(), 0);
}

#[test]
fn database_executes_queries_on_the_table_they_name() {
    let mut db = Database::new();
    db.create_table(CreateQuery {
        table_name: "users".to_string(),
        columns: vec![column("id", "int", true), column("name", "string", false)],
    })
    .unwrap();
    let iq = InsertQuery::new(
        "users".to_string(),
        strings(&["id", "name"]),
        rows(&[&["1", "a"], &["2", "b"]]),
    );
    assert_eq!(db.insert(&iq), Ok(()));
    assert_eq!(db.insert(&iq), Err(Error::ConstraintViolation));
    let other = InsertQuery::new("nope".to_string(), strings(&["id"]), rows(&[&["1"]]));
    assert_eq!(db.insert(&other), Err(Error::SchemaError));
    assert_eq!(
        db.select(&select(&["name"], Some(("id", Binary::Lt, "2")))),
        Ok(vec![strings(&["a"])])
    );
    let mut sq = select(&["name"], None);
    sq.from = "nope".to_string();
    assert_eq!(db.select(&sq), Err(Error::SchemaError));
}
