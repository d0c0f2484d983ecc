use sdb::command_parser::{
    column_from_declaration, column_list, extract_info_from_create_table_cmd,
    extract_info_from_insert_cmd, group_text, row_values, rows_from_matches,
    sanitize_user_input, ParsedColumn,
};

#[test]
fn sanitize_input_trims_single_whitespaces_correctly_from_start_and_end() {
    let input = String::from(" hello ");
    let sanitized_input = sanitize_user_input(input);
    let expected_output = String::from("hello");
    assert_eq!(sanitized_input, expected_output);
}

#[test]
fn sanitize_input_trims_multiple_whitespaces_correctly_from_start_and_end() {
    let input = String::from("         hello         ");
    let sanitized_input = sanitize_user_input(input);
    let expected_output = String::from("hello");
    assert_eq!(sanitized_input, expected_output);
}

#[test]
fn sanitize_input_lowercases_the_input() {
    let input = String::from("HELLO WORLD GoodBye World");
    let sanitized_input = sanitize_user_input(input);
    let expected_output = String::from("hello world goodbye world");
    assert_eq!(sanitized_input, expected_output);
}

#[test]
fn sanitize_input_replaces_multiple_whitespaces_into_single_one_inside_string() {
    // should turn "hello     world       end" => "hello world end"
    let input = String::from("hello       world        end");
    let sanitized_input = sanitize_user_input(input);
    let expected_output = String::from("hello world end");
    assert_eq!(sanitized_input, expected_output);
}

#[test]
fn sanitize_input_replaces_tabs_and_line_breaks_by_one_blank() {
    let input = String::from("\tSELECT\t\n id \r\n FROM\u{a0}t\n");
    assert_eq!(sanitize_user_input(input), "select id from t");
    assert_eq!(sanitize_user_input(String::new()), "");
    assert_eq!(sanitize_user_input(String::from("ÄB  ç")), "äb ç");
}

#[test]
fn parses_correctly_from_create_table_cmd() {
    let input = String::from("CREATE TABLE users (id int, name string)");
    let (table_name, columns) = extract_info_from_create_table_cmd(input).unwrap();

    let expected_table_name = String::from("users");
    let expected_columns = vec![
        ParsedColumn {
            name: "id".to_string(),
            datatype: "int".to_string(),
            is_pk: false,
            is_nullable: false,
        },
        ParsedColumn {
            name: "name".to_string(),
            datatype: "string".to_string(),
            is_pk: false,
            is_nullable: false,
        },
    ];
    assert_eq!(table_name, expected_table_name);
    assert_eq!(columns, expected_columns);
}

#[test]
fn parses_correctly_from_create_table_cmd_no_whitespace() {
    let input = String::from("CREATE TABLE users(id int,name string)");
    let (table_name, columns) = extract_info_from_create_table_cmd(input).unwrap();

    let expected_table_name = String::from("users");
    let expected_columns = vec![
        ParsedColumn {
            name: "id".to_string(),
            datatype: "int".to_string(),
            is_pk: false,
            is_nullable: false,
        },
        ParsedColumn {
            name: "name".to_string(),
            datatype: "string".to_string(),
            is_pk: false,
            is_nullable: false,
        },
    ];
    assert_eq!(table_name, expected_table_name);
    assert_eq!(columns, expected_columns);
}

#[test]
fn tests_create_table_command_with_primary_key() {
    let input = String::from("CREATE TABLE users(id int PRIMARY KEY,name string)");
    let (table_name, columns) = extract_info_from_create_table_cmd(input).unwrap();

    let expected_table_name = String::from("users");
    let expected_columns = vec![
        ParsedColumn {
            name: "id".to_string(),
            datatype: "int".to_string(),
            is_pk: true,
            is_nullable: false,
        },
        ParsedColumn {
            name: "name".to_string(),
            datatype: "string".to_string(),
            is_pk: false,
            is_nullable: false,
        },
    ];

    assert_eq!(table_name, expected_table_name);
    assert_eq!(columns, expected_columns);
}

#[test]
fn tests_extract_info_from_insert_cmd() {
    let input = String::from("insert into users (id, name, age) values(1, 'hello', 27);");
    let (table, columns, values) = extract_info_from_insert_cmd(input).unwrap();
    assert_eq!(table, "users");
    assert_eq!(
        columns,
        vec!["id".to_string(), "name".to_string(), "age".to_string()]
    );
    assert_eq!(
        values,
        vec![vec!["1".to_string(), "hello".to_string(), "27".to_string()]]
    );
}

#[test]
fn tests_extract_info_from_insert_cmd_with_multiple_values() {
    let input = String::from(
        "insert into users (id, name, age) values(1, 'hello', 27),(2, 'world', 13);",
    );
    let (table, columns, values) = extract_info_from_insert_cmd(input).unwrap();
    assert_eq!(table, "users");
    assert_eq!(
        columns,
        vec!["id".to_string(), "name".to_string(), "age".to_string()]
    );
    assert_eq!(
        values,
        vec![
            vec!["1".to_string(), "hello".to_string(), "27".to_string()],
            vec!["2".to_string(), "world".to_string(), "13".to_string()]
        ]
    );
}

#[test]
fn text_that_is_no_command_gives_nothing() {
    assert_eq!(extract_info_from_create_table_cmd(String::from("create users")), None);
    assert_eq!(extract_info_from_create_table_cmd(String::new()), None);
    assert_eq!(extract_info_from_insert_cmd(String::from("insert into users")), None);
}

#[test]
fn create_command_marks_columns_and_passes_over_what_declares_none() {
    let input = String::from("create table t (id int not null primary key, broken, a b c, name  TEXT not null)");
    let (table_name, columns) = extract_info_from_create_table_cmd(input).unwrap();
    assert_eq!(table_name, "t");
    assert_eq!(
        columns,
        vec![
            ParsedColumn {
                name: "id".to_string(),
                datatype: "int".to_string(),
                is_pk: true,
                is_nullable: true,
            },
            ParsedColumn {
                name: "name".to_string(),
                datatype: "text".to_string(),
                is_pk: false,
                is_nullable: true,
            },
        ]
    );
}

#[test]
fn column_list_is_split_at_its_commas() {
    assert_eq!(column_list("id, name ,age"), vec!["id", "name", "age"]);
    assert_eq!(column_list(""), vec![""]);
    assert_eq!(column_list("a,,b,"), vec!["a", "", "b", ""]);
}

#[test]
fn row_values_lose_blanks_and_quotation_marks() {
    assert_eq!(row_values("1, 'hello world', \"x\""), vec!["1", "helloworld", "x"]);
    assert_eq!(row_values("''"), vec![""]);
}

#[test]
fn rows_are_read_from_the_first_group_of_each_match() {
    let matches = vec![
        vec![Some("(1, 'a')".to_string()), Some("1, 'a'".to_string()), Some("'".to_string())],
        vec![Some("()".to_string()), None],
        vec![Some("(x)".to_string())],
    ];
    assert_eq!(
        rows_from_matches(&matches),
        vec![vec!["1".to_string(), "a".to_string()], vec!["".to_string()], vec!["".to_string()]]
    );
    assert_eq!(group_text(&matches[0], 0), "(1, 'a')");
    assert_eq!(group_text(&matches[1], 1), "");
    assert_eq!(group_text(&matches[2], 5), "");
}

#[test]
fn declaration_of_two_words_is_a_column() {
    assert_eq!(
        column_from_declaration("id int", true, false),
        Some(ParsedColumn {
            name: "id".to_string(),
            datatype: "int".to_string(),
            is_pk: true,
            is_nullable: false,
        })
    );
    assert_eq!(column_from_declaration("id", false, false), None);
    assert_eq!(column_from_declaration("id  int", false, false), None);
    assert_eq!(column_from_declaration("", false, false), None);
    assert_eq!(
        column_from_declaration(" int", false, true),
        Some(ParsedColumn {
            name: "".to_string(),
            datatype: "int".to_string(),
            is_pk: false,
            is_nullable: true,
        })
    );
}
