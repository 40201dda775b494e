use sql_rustico::error::CustomError;
use sql_rustico::expression::Expression;
use sql_rustico::expression::Operand;
use sql_rustico::expression::evaluate_expression;
use sql_rustico::row::Row;
use sql_rustico::row_parser::parse_row;
use sql_rustico::value_map::ValueMap;

const COLULMN1: &str = "column1";
const COLUMN2: &str = "column2";
const VALUE1: &str = "value1";
const VALUE2: &str = "value2";
const NEWVALUE1: &str = "new_value1";

fn create_row_with_columns() -> Row {
    let columns = vec![COLULMN1.to_string(), COLUMN2.to_string()];
    let mut values = ValueMap::new();
    values.insert(COLULMN1.to_string(), COLULMN1.to_string());
    values.insert(COLUMN2.to_string(), COLUMN2.to_string());
    Row::new(&columns, values)
}

fn create_row_with_values() -> Row {
    let columns = vec![COLULMN1.to_string(), COLUMN2.to_string()];
    let mut values = ValueMap::new();
    values.insert(COLULMN1.to_string(), VALUE1.to_string());
    values.insert(COLUMN2.to_string(), VALUE2.to_string());
    Row::new(&columns, values)
}

#[test]
fn test_evaluate_expression() {
    let mut row = ValueMap::new();
    row.insert("column1".to_string(), "value1".to_string());
    row.insert("column2".to_string(), "value2".to_string());

    let expression = Expression::Comparison {
        left: Operand::Column("column1".to_string()),
        operator: "=".to_string(),
        right: Operand::StringLiteral("value1".to_string()),
    };
    assert_eq!(evaluate_expression(&expression, &row).unwrap(), true);

    let expression = Expression::Comparison {
        left: Operand::Column("column1".to_string()),
        operator: "=".to_string(),
        right: Operand::StringLiteral("value2".to_string()),
    };
    assert_eq!(evaluate_expression(&expression, &row).unwrap(), false);

    let expression = Expression::Comparison {
        left: Operand::Column("column1".to_string()),
        operator: "!=".to_string(),
        right: Operand::StringLiteral("value2".to_string()),
    };
    assert_eq!(evaluate_expression(&expression, &row).unwrap(), true);

    let expression = Expression::Comparison {
        left: Operand::Column("column1".to_string()),
        operator: ">".to_string(),
        right: Operand::StringLiteral("value2".to_string()),
    };
    assert_eq!(evaluate_expression(&expression, &row).unwrap(), false);

    let expression = Expression::Comparison {
        left: Operand::Column("column1".to_string()),
        operator: ">=".to_string(),
        right: Operand::StringLiteral("value2".to_string()),
    };
    assert_eq!(evaluate_expression(&expression, &row).unwrap(), false);

    let expression = Expression::Comparison {
        left: Operand::Column("column1".to_string()),
        operator: ">=".to_string(),
        right: Operand::StringLiteral("value1".to_string()),
    };
    assert_eq!(evaluate_expression(&expression, &row).unwrap(), true);

    let expression = Expression::Comparison {
        left: Operand::Column("column1".to_string()),
        operator: "<".to_string(),
        right: Operand::StringLiteral("value2".to_string()),
    };
    assert_eq!(evaluate_expression(&expression, &row).unwrap(), true);
}

#[test]
fn test_evaluate_expression_missing_column() {
    let row = ValueMap::new();
    let expression = Expression::Comparison {
        left: Operand::Column("absent".to_string()),
        operator: "=".to_string(),
        right: Operand::StringLiteral("v".to_string()),
    };
    let result = evaluate_expression(&expression, &row);
    assert!(result.is_err());
    assert!(matches!(
        result.err().unwrap(),
        CustomError::GenericError { .. }
    ));
}

#[test]
fn test_evaluate_expression_logical_tree() {
    let mut row = ValueMap::new();
    row.insert("a".to_string(), "1".to_string());
    row.insert("b".to_string(), "2".to_string());

    let a_is_one = Expression::Comparison {
        left: Operand::Column("a".to_string()),
        operator: "=".to_string(),
        right: Operand::IntegerLiteral("1".to_string()),
    };
    let b_is_three = Expression::Comparison {
        left: Operand::Column("b".to_string()),
        operator: "=".to_string(),
        right: Operand::IntegerLiteral("3".to_string()),
    };
    let and = Expression::And {
        left: Box::new(a_is_one),
        right: Box::new(b_is_three),
    };
    let not = Expression::Not {
        right: Box::new(and),
    };
    let or = Expression::Or {
        left: Box::new(not),
        right: Box::new(Expression::True),
    };
    assert_eq!(evaluate_expression(&or, &row).unwrap(), true);
}

#[test]
fn test_new_row() {
    let columns = vec![COLULMN1.to_string(), COLUMN2.to_string()];
    let values = ValueMap::new();
    let row = Row::new(&columns, values);
    assert_eq!(row.columns(), &columns);
    assert!(row.get(COLULMN1).is_none());
    assert!(row.get(COLUMN2).is_none());
}

#[test]
fn test_write_row() {
    let row = create_row_with_values();
    assert_eq!(row.write_row(), format!("{},{}\n", VALUE1, VALUE2));
}

#[test]
fn test_update_row() {
    let mut row_not_to_update = create_row_with_columns();
    let mut row_to_update = create_row_with_values();

    let mut update_values = ValueMap::new();
    update_values.insert(COLULMN1.to_string(), NEWVALUE1.to_string());
    let condition = Expression::Comparison {
        left: Operand::Column(COLULMN1.to_string()),
        operator: "=".to_string(),
        right: Operand::StringLiteral(VALUE1.to_string()),
    };

    row_not_to_update
        .update_row(&update_values, &condition)
        .unwrap();
    row_to_update.update_row(&update_values, &condition).unwrap();

    assert_eq!(
        format!("{}{}", row_not_to_update.write_row(), row_to_update.write_row()),
        format!("{},{}\n{},{}\n", COLULMN1, COLUMN2, NEWVALUE1, VALUE2)
    );
}

#[test]
fn test_update_row_missing_column_is_error() {
    let mut row = create_row_with_values();
    let mut update_values = ValueMap::new();
    update_values.insert("no_such_column".to_string(), "x".to_string());
    let result = row.update_row(&update_values, &Expression::True);
    assert!(result.is_err());
    assert!(matches!(
        result.err().unwrap(),
        CustomError::InvalidColumn { .. }
    ));
}

#[test]
fn test_delete_row() {
    let row_not_to_delete = create_row_with_columns();
    let row_to_delete = create_row_with_values();

    let condition = Expression::Comparison {
        left: Operand::Column(COLULMN1.to_string()),
        operator: "=".to_string(),
        right: Operand::StringLiteral(VALUE1.to_string()),
    };

    let keep_first = row_not_to_delete.delete_row(&condition).unwrap();
    let keep_second = row_to_delete.delete_row(&condition).unwrap();

    assert_eq!(keep_first, true);
    assert_eq!(keep_second, false);
}

#[test]
fn test_delete_row_true_condition_removes_all() {
    let row = create_row_with_values();
    assert_eq!(row.delete_row(&Expression::True).unwrap(), false);
}

#[test]
fn test_check_condition() {
    let row_true = create_row_with_values();
    let row_false = create_row_with_columns();
    let condition = Expression::Comparison {
        left: Operand::Column(COLULMN1.to_string()),
        operator: "=".to_string(),
        right: Operand::StringLiteral(VALUE1.to_string()),
    };

    let result_true = row_true.check_condition(&condition).unwrap();
    let result_false = row_false.check_condition(&condition).unwrap();

    assert_eq!(result_true, true);
    assert_eq!(result_false, false);
}

#[test]
fn test_get() {
    let row = create_row_with_values();
    let value = row.get(COLULMN1).unwrap();
    assert_eq!(value, VALUE1);
}

#[test]
fn test_cmp_by_column() {
    let row1 = create_row_with_values();
    let row2 = create_row_with_columns();

    let result1 = row1.cmp_by_column(COLULMN1, &row2);
    let result2 = row2.cmp_by_column(COLULMN1, &row1);
    let result3 = row1.cmp_by_column(COLULMN1, &row1);

    assert_eq!(result1, core::cmp::Ordering::Greater);
    assert_eq!(result2, core::cmp::Ordering::Less);
    assert_eq!(result3, core::cmp::Ordering::Equal);
}

#[test]
fn test_cmp_by_column_missing_sorts_first() {
    let columns = vec!["a".to_string()];
    let with_value = Row::new(&columns, {
        let mut values = ValueMap::new();
        values.insert("a".to_string(), "x".to_string());
        values
    });
    let without_value = Row::new(&columns, ValueMap::new());
    assert_eq!(
        without_value.cmp_by_column("a", &with_value),
        core::cmp::Ordering::Less
    );
    assert_eq!(
        with_value.cmp_by_column("a", &without_value),
        core::cmp::Ordering::Greater
    );
    assert_eq!(
        without_value.cmp_by_column("a", &without_value),
        core::cmp::Ordering::Equal
    );
}

#[test]
fn test_parse_row_invalid_columns_size() {
    let columns = vec!["column1".to_string(), "column2".to_string()];
    let line = format!("{},{},{}", "value1", "value2", "value3");
    let result = parse_row(&columns, &line);
    assert!(result.is_err());
    assert_eq!(
        result.err().unwrap(),
        CustomError::InvalidTable {
            message: "Columns size missmatch".to_string()
        }
    );
}

#[test]
fn test_parse_row_binds_fields_in_order() {
    let columns = vec!["a".to_string(), "b".to_string()];
    let row = parse_row(&columns, "1,2").unwrap();
    assert_eq!(row.get("a"), Some(&"1".to_string()));
    assert_eq!(row.get("b"), Some(&"2".to_string()));
    assert_eq!(row.write_row(), "1,2\n");
}
