use sql_rustico::engine::process_command;
use sql_rustico::engine::CommandEffect;

fn lines(content: &[&str]) -> Vec<String> {
    content.iter().map(|l| l.to_string()).collect()
}

fn run(
    directory: &str,
    command: &str,
    table: &Option<Vec<String>>,
) -> (Result<CommandEffect, sql_rustico::error::CustomError>, Vec<String>) {
    let args = vec![
        "sql".to_string(),
        directory.to_string(),
        command.to_string(),
    ];
    let mut output = Vec::new();
    let result = process_command(&args, table, &mut output);
    (result, output)
}

#[test]
fn test_process_command_with_invalid_directory() {
    let args = vec![
        "sql".to_string(),
        "non_existent/".to_string(),
        "SELECT * FROM table1;".to_string(),
    ];
    let mut unused_output = Vec::new();
    let result = process_command(&args, &None, &mut unused_output);
    assert!(result.is_err());
}

#[test]
fn test_process_command_with_invalid_command() {
    let args = vec![
        "sql".to_string(),
        "tables/".to_string(),
        "INVALID COMMAND".to_string(),
    ];
    let mut unused_output = Vec::new();
    let result = process_command(&args, &None, &mut unused_output);
    assert!(result.is_err());
}

#[test]
fn test_process_command_with_insert() {
    let table = Some(lines(&["column1,column2"]));
    let (result, _) = run(
        "test_table_insert/",
        "INSERT INTO tempProcessInsert (column1, column2) VALUES ('value1', 'value2');",
        &table,
    );
    match result.unwrap() {
        CommandEffect::AppendLines(appended) => {
            assert_eq!(appended, vec!["value1,value2\n".to_string()]);
        }
        _ => panic!("INSERT must append lines"),
    }
}

#[test]
fn test_process_command_with_insert_columns_with_spaces() {
    let table = Some(lines(&["column1 with spaces,column2 with spaces"]));
    let (result, _) = run(
        "test_table_insert_columns_with_spaces/",
        "INSERT INTO t ('column1 with spaces', 'column2 with spaces') VALUES ('value1', 'value2');",
        &table,
    );
    match result.unwrap() {
        CommandEffect::AppendLines(appended) => {
            assert_eq!(appended, vec!["value1,value2\n".to_string()]);
        }
        _ => panic!("INSERT must append lines"),
    }
}

#[test]
fn test_process_command_with_update() {
    let table = Some(lines(&["column1,column2", "value1,value2", "value3,value4"]));
    let (result, _) = run(
        "test_table_update/",
        "UPDATE t SET column1 = 'new_value1' WHERE column1 = 'value1';",
        &table,
    );
    match result.unwrap() {
        CommandEffect::ReplaceLines(new_lines) => {
            assert_eq!(
                new_lines.concat(),
                "column1,column2\nnew_value1,value2\nvalue3,value4\n"
            );
        }
        _ => panic!("UPDATE must replace the file"),
    }
}

#[test]
fn test_process_command_with_delete() {
    let table = Some(lines(&["column1,column2", "value1,value2", "value3,value4"]));
    let (result, _) = run(
        "test_table_delete/",
        "DELETE t WHERE column1 = 'value1';",
        &table,
    );
    match result.unwrap() {
        CommandEffect::ReplaceLines(new_lines) => {
            assert_eq!(new_lines.concat(), "column1,column2\nvalue3,value4\n");
        }
        _ => panic!("DELETE must replace the file"),
    }
}

#[test]
fn test_process_command_with_select() {
    let table = Some(lines(&["column1,column2", "value1,value2", "value3,value4"]));
    let (result, output) = run(
        "test_table_select/",
        "SELECT column2 FROM t WHERE column1 = 'value1';",
        &table,
    );
    assert!(result.is_ok());
    assert_eq!(output.concat(), "column2\nvalue2\n");
}

#[test]
fn test_select_star_prints_all_columns() {
    let table = Some(lines(&["a,b", "1,2", "3,4"]));
    let (result, output) = run("tables/", "SELECT * FROM t;", &table);
    assert!(result.is_ok());
    assert_eq!(output.concat(), "a,b\n1,2\n3,4\n");
}

#[test]
fn test_select_order_by_two_keys() {
    // Rows equal on the first key are tie-broken by the second; the
    // first-listed key dominates.
    let table = Some(lines(&[
        "name,age",
        "bob,30",
        "alice,20",
        "bob,10",
        "alice,25",
    ]));
    let (result, output) = run("tables/", "SELECT * FROM t ORDER BY name, age DESC;", &table);
    assert!(result.is_ok());
    assert_eq!(
        output.concat(),
        "name,age\nalice,25\nalice,20\nbob,30\nbob,10\n"
    );
}

#[test]
fn test_select_order_by_is_stable() {
    // Two rows equal on the sort key keep their table order.
    let table = Some(lines(&["k,v", "same,first", "same,second"]));
    let (result, output) = run("tables/", "SELECT * FROM t ORDER BY k;", &table);
    assert!(result.is_ok());
    assert_eq!(output.concat(), "k,v\nsame,first\nsame,second\n");
}

#[test]
fn test_select_unknown_column_is_error() {
    let table = Some(lines(&["a,b", "1,2"]));
    let (result, _) = run("tables/", "SELECT missing FROM t;", &table);
    assert!(result.is_err());
    assert!(matches!(
        result.err().unwrap(),
        sql_rustico::error::CustomError::InvalidColumn { .. }
    ));
}

#[test]
fn test_missing_table_file_is_error() {
    let (result, _) = run("tables/", "SELECT * FROM nowhere;", &None);
    assert!(result.is_err());
    assert!(matches!(
        result.err().unwrap(),
        sql_rustico::error::CustomError::InvalidTable { .. }
    ));
}

#[test]
fn test_update_unknown_column_is_error() {
    let table = Some(lines(&["a,b", "1,2"]));
    let (result, _) = run("tables/", "UPDATE t SET missing = 'x';", &table);
    assert!(result.is_err());
    assert!(matches!(
        result.err().unwrap(),
        sql_rustico::error::CustomError::InvalidColumn { .. }
    ));
}

#[test]
fn test_row_with_wrong_field_count_is_error() {
    let table = Some(lines(&["a,b", "1,2,3"]));
    let (result, _) = run("tables/", "DELETE t WHERE a = '1';", &table);
    assert!(result.is_err());
    assert!(matches!(
        result.err().unwrap(),
        sql_rustico::error::CustomError::InvalidTable { .. }
    ));
}

#[test]
fn test_delete_without_where_keeps_no_row_matching_true() {
    // An absent WHERE leaves the condition True, and True removes every
    // data row.
    let table = Some(lines(&["a,b", "1,2", "3,4"]));
    let (result, _) = run("tables/", "DELETE t;", &table);
    match result.unwrap() {
        CommandEffect::ReplaceLines(new_lines) => {
            assert_eq!(new_lines.concat(), "a,b\n");
        }
        _ => panic!("DELETE must replace the file"),
    }
}

#[test]
fn test_update_without_where_updates_all_rows() {
    let table = Some(lines(&["a,b", "1,2", "3,4"]));
    let (result, _) = run("tables/", "UPDATE t SET b = 'z';", &table);
    match result.unwrap() {
        CommandEffect::ReplaceLines(new_lines) => {
            assert_eq!(new_lines.concat(), "a,b\n1,z\n3,z\n");
        }
        _ => panic!("UPDATE must replace the file"),
    }
}

#[test]
fn test_insert_multiple_value_tuples() {
    let table = Some(lines(&["a,b"]));
    let (result, _) = run(
        "tables/",
        "INSERT INTO t (a,b) VALUES ('1','2'), ('3','4');",
        &table,
    );
    match result.unwrap() {
        CommandEffect::AppendLines(appended) => {
            assert_eq!(appended.concat(), "1,2\n3,4\n");
        }
        _ => panic!("INSERT must append lines"),
    }
}

#[test]
fn test_insert_short_tuple_leaves_missing_column_empty() {
    let table = Some(lines(&["a,b"]));
    let (result, _) = run("tables/", "INSERT INTO t (a) VALUES ('1');", &table);
    match result.unwrap() {
        CommandEffect::AppendLines(appended) => {
            assert_eq!(appended.concat(), "1,\n");
        }
        _ => panic!("INSERT must append lines"),
    }
}

#[test]
fn test_lexicographic_comparison_of_numbers() {
    // Integers are carried as text and compared lexicographically: the
    // text "9" sorts after "10".
    let table = Some(lines(&["n", "9", "10"]));
    let (result, output) = run("tables/", "SELECT n FROM t WHERE n > '1';", &table);
    assert!(result.is_ok());
    assert_eq!(output.concat(), "n\n9\n10\n");
}
