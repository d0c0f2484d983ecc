use sdb::column::ColumnData;
use sdb::database::Database;
use sdb::datatype::DataType;
use sdb::error::Error;
use sdb::parser::create::{CreateQuery, ParsedColumn};
use sdb::parser::insert::InsertQuery;
use sdb::parser::select::{Binary, Expression, Operator, SelectQuery};
use sdb::snapshot::{ColumnSnapshot, TableSnapshot};
use sdb::table::Table;

fn texts(items: &[&str]) -> Vec<String> {
    items.iter().map(|s| s.to_string()).collect()
}

fn declared(name: &str, datatype: &str, is_pk: bool) -> ParsedColumn {
    ParsedColumn {
        name: name.to_string(),
        datatype: datatype.to_string(),
        is_pk,
        is_nullable: false,
    }
}

fn sample() -> Database {
    let mut db = Database::new();
    db.create_table(CreateQuery {
        table_name: "users".to_string(),
        columns: vec![
            declared("id", "int", true),
            declared("name", "string", false),
            declared("score", "float", false),
            declared("active", "bool", false),
        ],
    })
    .unwrap();
    db.create_table(CreateQuery {
        table_name: "tags".to_string(),
        columns: vec![declared("tag", "string", true), declared("x", "junk", false)],
    })
    .unwrap();
    db.insert(&InsertQuery::new(
        "users".to_string(),
        texts(&["id", "name", "score", "active"]),
        vec![
            texts(&["2", "b", "1.5", "true"]),
            texts(&["1", "a", "-3e2", "false"]),
            texts(&["3", "c", "nan", "true"]),
        ],
    ))
    .unwrap();
    db
}

fn by_id(op: Binary, literal: &str) -> SelectQuery {
    SelectQuery {
        from: "users".to_string(),
        projection: texts(&["id", "name", "score", "active"]),
        where_expressions: vec![Expression {
            left: "id".to_string(),
            right: literal.to_string(),
            op: Operator::Binary(op),
        }],
    }
}

#[test]
fn snapshot_holds_schema_and_values() {
    let db = sample();
    let snaps = db.snapshot();
    assert_eq!(snaps.len(), 2);
    assert_eq!(snaps[0].name, "users");
    assert_eq!(snaps[0].columns.len(), 4);
    assert_eq!(snaps[0].columns[0].name, "id");
    assert_eq!(snaps[0].columns[0].datatype, DataType::Int);
    assert!(snaps[0].columns[0].is_primary_key);
    assert!(matches!(&snaps[0].columns[0].data, ColumnData::Int(v) if v == &vec![2, 1, 3]));
    assert!(matches!(&snaps[0].columns[2].data, ColumnData::Float(v) if v == &texts(&["1.5", "-3e2", "nan"])));
    assert!(matches!(&snaps[0].columns[3].data, ColumnData::Bool(v) if v == &vec![true, false, true]));
    assert_eq!(snaps[1].name, "tags");
    assert_eq!(snaps[1].columns[1].datatype, DataType::Invalid);
    assert!(matches!(&snaps[1].columns[1].data, ColumnData::Absent));
}

#[test]
fn restoring_a_snapshot_gives_an_equal_database() {
    let db = sample();
    let snaps = db.snapshot();
    let mut restored = Database::new();
    assert_eq!(restored.restore(&snaps), Ok(()));
    assert_eq!(restored, db);
    assert_eq!(restored.tables[0].columns(), db.tables[0].columns());
    assert_eq!(restored.snapshot(), snaps);
    for (op, literal) in [(Binary::Eq, "2"), (Binary::Gt, "1"), (Binary::Lt, "3"), (Binary::Gt, "0")] {
        assert_eq!(db.select(&by_id(op, literal)), restored.select(&by_id(op, literal)));
    }
    assert_eq!(
        restored.select(&by_id(Binary::Gt, "1")),
        Ok(vec![texts(&["2", "3"]), texts(&["b", "c"]), texts(&["1.5", "nan"]), texts(&["true", "true"])])
    );
    assert_eq!(
        restored.insert(&InsertQuery::new(
            "users".to_string(),
            texts(&["id", "name", "score", "active"]),
            vec![texts(&["2", "z", "0", "true"])],
        )),
        Err(Error::ConstraintViolation)
    );
}

#[test]
fn restoring_replaces_what_the_database_held() {
    let mut db = sample();
    let empty: Vec<TableSnapshot> = vec![];
    assert_eq!(db.restore(&empty), Ok(()));
    assert_eq!(db.tables.len(), 0);
}

fn snapshot_of(columns: Vec<ColumnSnapshot>) -> TableSnapshot {
    TableSnapshot { name: "t".to_string(), columns }
}

fn held(name: &str, datatype: DataType, is_primary_key: bool, data: ColumnData) -> ColumnSnapshot {
    ColumnSnapshot { name: name.to_string(), datatype, is_primary_key, data }
}

#[test]
fn snapshot_that_is_no_table_is_not_restored() {
    let ragged = snapshot_of(vec![
        held("a", DataType::Int, false, ColumnData::Int(vec![1, 2])),
        held("b", DataType::Int, false, ColumnData::Int(vec![1])),
    ]);
    assert!(matches!(Table::restore(&ragged), Err(Error::SchemaError)));
    let twice = snapshot_of(vec![
        held("a", DataType::Int, false, ColumnData::Int(vec![1])),
        held("a", DataType::Int, false, ColumnData::Int(vec![1])),
    ]);
    assert!(matches!(Table::restore(&twice), Err(Error::SchemaError)));
    let mistyped = snapshot_of(vec![held("a", DataType::Int, false, ColumnData::Bool(vec![true]))]);
    assert!(matches!(Table::restore(&mistyped), Err(Error::SchemaError)));
    let no_float = snapshot_of(vec![held("a", DataType::Float, false, ColumnData::Float(texts(&["1.5", "x"])))]);
    assert!(matches!(Table::restore(&no_float), Err(Error::ParseError)));
    let repeated = snapshot_of(vec![held("a", DataType::Str, true, ColumnData::Str(texts(&["x", "y", "x"])))]);
    assert!(matches!(Table::restore(&repeated), Err(Error::ConstraintViolation)));
    let fine = snapshot_of(vec![held("a", DataType::Str, false, ColumnData::Str(texts(&["x", "y", "x"])))]);
    assert_eq!(Table::restore(&fine).unwrap().row_count(), 3);
}

#[test]
fn failed_restore_leaves_the_database_as_it_was() {
    let mut db = sample();
    let mut snaps = db.snapshot();
    snaps.push(snapshot_of(vec![
        held("a", DataType::Int, true, ColumnData::Int(vec![1, 1])),
    ]));
    assert_eq!(db.restore(&snaps), Err(Error::ConstraintViolation));
    assert_eq!(db, sample());
    let mut snaps = db.snapshot();
    let mut more = db.snapshot();
    snaps.append(&mut more);
    assert_eq!(db.restore(&snaps), Err(Error::SchemaError));
    assert_eq!(db, sample());
}

#[test]
fn restored_index_is_the_one_that_insertion_built() {
    let db = sample();
    let mut restored = Database::new();
    restored.restore(&db.snapshot()).unwrap();
    let more = InsertQuery::new(
        "users".to_string(),
        texts(&["id", "name", "score", "active"]),
        vec![texts(&["0", "z", "0", "false"]), texts(&["9", "y", "1e1", "true"])],
    );
    let mut grown = sample();
    grown.insert(&more).unwrap();
    restored.insert(&more).unwrap();
    assert_eq!(restored, grown);
    assert_ne!(restored, db);
}

