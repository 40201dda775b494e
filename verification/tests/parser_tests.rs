use sql_rustico::command_parser::parse_delete;
use sql_rustico::command_parser::parse_insert;
use sql_rustico::command_parser::parse_select;
use sql_rustico::command_parser::parse_update;
use sql_rustico::error::CustomError;
use sql_rustico::expression::Expression;
use sql_rustico::expression::Operand;
use sql_rustico::expression_parser::parse_expression;
use sql_rustico::tokenizer::Token;
use sql_rustico::value_map::ValueMap;

#[test]
fn test_parse_expression() {
    let tokens = vec![
        Token::Identifier("column1".to_string()),
        Token::ComparisonOperator("=".to_string()),
        Token::StringLiteral("value1".to_string()),
    ];
    let mut pos: usize = 0;

    let result = parse_expression(&tokens, &mut pos);

    assert!(result.is_ok());
    assert_eq!(
        result.unwrap(),
        Expression::Comparison {
            left: Operand::Column("column1".to_string()),
            operator: "=".to_string(),
            right: Operand::StringLiteral("value1".to_string())
        }
    );
}

#[test]
fn test_parse_expression_invalid_syntax() {
    let tokens = vec![Token::Identifier("column1".to_string())];
    let mut pos: usize = 0;

    let result = parse_expression(&tokens, &mut pos);

    assert!(result.is_err());
    assert_eq!(
        result.err().unwrap(),
        CustomError::InvalidSyntax {
            message: "Invalid expression".to_string()
        }
    );
}

#[test]
fn test_parse_expression_missing_parenthesis() {
    let tokens = vec![
        Token::LogicalOperator("NOT".to_string()),
        Token::Symbol('('),
        Token::Identifier("column1".to_string()),
        Token::ComparisonOperator("=".to_string()),
        Token::StringLiteral("value1".to_string()),
    ];
    let mut pos: usize = 0;

    let result = parse_expression(&tokens, &mut pos);

    assert!(result.is_err());
    assert_eq!(
        result.err().unwrap(),
        CustomError::InvalidSyntax {
            message: "Missing closing ')'".to_string()
        }
    );
}

#[test]
fn test_parse_expression_invalid_operand() {
    let tokens = vec![
        Token::Identifier("column1".to_string()),
        Token::ComparisonOperator("=".to_string()),
        Token::LogicalOperator("AND".to_string()),
    ];
    let mut pos: usize = 0;

    let result = parse_expression(&tokens, &mut pos);

    assert!(result.is_err());
    assert_eq!(
        result.err().unwrap(),
        CustomError::InvalidSyntax {
            message: "Invalid operand LogicalOperator(\"AND\")".to_string()
        }
    );
}

#[test]
fn test_parse_insert() {
    // INSERT INTO table (column1, column2) VALUES ('value1', 'value2');
    let tokens = vec![
        Token::Keyword("INSERT".to_string()),
        Token::Keyword("INTO".to_string()),
        Token::Identifier("table".to_string()),
        Token::Symbol('('),
        Token::Identifier("column1".to_string()),
        Token::Symbol(','),
        Token::Identifier("column2".to_string()),
        Token::Symbol(')'),
        Token::Keyword("VALUES".to_string()),
        Token::Symbol('('),
        Token::StringLiteral("value1".to_string()),
        Token::Symbol(','),
        Token::StringLiteral("value2".to_string()),
        Token::Symbol(')'),
        Token::Symbol(';'),
    ];
    let mut table_name = String::new();
    let mut columns = Vec::new();
    let mut values: Vec<ValueMap> = Vec::new();

    let result = parse_insert(&tokens, &mut table_name, &mut columns, &mut values);

    assert!(result.is_ok());
    assert_eq!(table_name, "table");
    assert_eq!(columns, vec!["column1".to_string(), "column2".to_string()]);
    assert_eq!(values.len(), 1);
    assert_eq!(values[0].get("column1"), Some(&"value1".to_string()));
    assert_eq!(values[0].get("column2"), Some(&"value2".to_string()));
    assert_eq!(values[0].num_entries(), 2);
}

#[test]
fn test_parse_insert_invalid_syntax() {
    // INSERT INTO table (column1, column2)) VALUES ('value1', 'value2');
    let tokens = vec![
        Token::Keyword("INSERT".to_string()),
        Token::Keyword("INTO".to_string()),
        Token::Identifier("table".to_string()),
        Token::Symbol('('),
        Token::Identifier("column1".to_string()),
        Token::Symbol(','),
        Token::Identifier("column2".to_string()),
        Token::Symbol(')'),
        Token::Symbol(')'),
        Token::Keyword("VALUES".to_string()),
        Token::Symbol('('),
        Token::StringLiteral("value1".to_string()),
        Token::Symbol(','),
        Token::StringLiteral("value2".to_string()),
        Token::Symbol(')'),
    ];
    let mut table_name = String::new();
    let mut columns = Vec::new();
    let mut values: Vec<ValueMap> = Vec::new();

    let result = parse_insert(&tokens, &mut table_name, &mut columns, &mut values);

    assert!(result.is_err());
    assert_eq!(
        result.err().unwrap(),
        CustomError::InvalidSyntax {
            message: "Expected VALUES after column names".to_string()
        }
    );
}

#[test]
fn test_parse_insert_too_many_values() {
    // INSERT INTO t (a,b) VALUES ('x','y','z');
    let tokens = vec![
        Token::Keyword("INSERT".to_string()),
        Token::Keyword("INTO".to_string()),
        Token::Identifier("t".to_string()),
        Token::Symbol('('),
        Token::Identifier("a".to_string()),
        Token::Symbol(','),
        Token::Identifier("b".to_string()),
        Token::Symbol(')'),
        Token::Keyword("VALUES".to_string()),
        Token::Symbol('('),
        Token::StringLiteral("x".to_string()),
        Token::Symbol(','),
        Token::StringLiteral("y".to_string()),
        Token::Symbol(','),
        Token::StringLiteral("z".to_string()),
        Token::Symbol(')'),
        Token::Symbol(';'),
    ];
    let mut table_name = String::new();
    let mut columns = Vec::new();
    let mut values: Vec<ValueMap> = Vec::new();

    let result = parse_insert(&tokens, &mut table_name, &mut columns, &mut values);

    assert!(result.is_err());
    assert_eq!(
        result.err().unwrap(),
        CustomError::InvalidSyntax {
            message: "Too many values for columns".to_string()
        }
    );
}

#[test]
fn test_parse_update() {
    // UPDATE table SET column1 = 'value1', column2 = 'value2' WHERE column3 = 'value3';
    let tokens = vec![
        Token::Keyword("UPDATE".to_string()),
        Token::Identifier("table".to_string()),
        Token::Keyword("SET".to_string()),
        Token::Identifier("column1".to_string()),
        Token::ComparisonOperator("=".to_string()),
        Token::StringLiteral("value1".to_string()),
        Token::Symbol(','),
        Token::Identifier("column2".to_string()),
        Token::ComparisonOperator("=".to_string()),
        Token::StringLiteral("value2".to_string()),
        Token::Keyword("WHERE".to_string()),
        Token::Identifier("column3".to_string()),
        Token::ComparisonOperator("=".to_string()),
        Token::StringLiteral("value3".to_string()),
        Token::Symbol(';'),
    ];
    let mut table_name = String::new();
    let mut set_values = ValueMap::new();
    let mut condition = Expression::Comparison {
        left: Operand::Column("column1".to_string()),
        operator: "=".to_string(),
        right: Operand::StringLiteral("value1".to_string()),
    };

    let result = parse_update(&tokens, &mut table_name, &mut set_values, &mut condition);

    println!("{:?}", result);
    assert!(result.is_ok());
    assert_eq!(table_name, "table");
    assert_eq!(set_values.num_entries(), 2);
    assert_eq!(set_values.get("column1"), Some(&"value1".to_string()));
    assert_eq!(set_values.get("column2"), Some(&"value2".to_string()));
    assert_eq!(
        condition,
        Expression::Comparison {
            left: Operand::Column("column3".to_string()),
            operator: "=".to_string(),
            right: Operand::StringLiteral("value3".to_string()),
        }
    );
}

#[test]
fn test_parse_update_invalid_syntax() {
    // UPDATE table SET column1 = 'value1', = 'value2' WHERE column3 = 'value3';
    let tokens = vec![
        Token::Keyword("UPDATE".to_string()),
        Token::Identifier("table".to_string()),
        Token::Keyword("SET".to_string()),
        Token::Identifier("column1".to_string()),
        Token::ComparisonOperator("=".to_string()),
        Token::StringLiteral("value1".to_string()),
        Token::Symbol(','),
        Token::ComparisonOperator("=".to_string()),
        Token::StringLiteral("value2".to_string()),
        Token::Keyword("WHERE".to_string()),
        Token::Identifier("column3".to_string()),
        Token::ComparisonOperator("=".to_string()),
        Token::StringLiteral("value3".to_string()),
        Token::Symbol(';'),
    ];
    let mut table_name = String::new();
    let mut set_values = ValueMap::new();
    let mut condition = Expression::Comparison {
        left: Operand::Column("column1".to_string()),
        operator: "=".to_string(),
        right: Operand::StringLiteral("value1".to_string()),
    };

    let result = parse_update(&tokens, &mut table_name, &mut set_values, &mut condition);
    assert!(result.is_err());

    assert_eq!(
        result.err().unwrap(),
        CustomError::InvalidSyntax {
            message: "Expected column name to set value after SET".to_string()
        }
    );
}

#[test]
fn test_parse_delete() {
    // DELETE table WHERE column1 = 'value1';
    let tokens = vec![
        Token::Keyword("DELETE".to_string()),
        Token::Identifier("table".to_string()),
        Token::Keyword("WHERE".to_string()),
        Token::Identifier("column1".to_string()),
        Token::ComparisonOperator("=".to_string()),
        Token::StringLiteral("value1".to_string()),
        Token::Symbol(';'),
    ];
    let mut table_name = String::new();
    let mut condition = Expression::Comparison {
        left: Operand::Column("column1".to_string()),
        operator: "=".to_string(),
        right: Operand::StringLiteral("value1".to_string()),
    };

    let result = parse_delete(&tokens, &mut table_name, &mut condition);

    assert!(result.is_ok());
    assert_eq!(table_name, "table");
    assert_eq!(
        condition,
        Expression::Comparison {
            left: Operand::Column("column1".to_string()),
            operator: "=".to_string(),
            right: Operand::StringLiteral("value1".to_string()),
        }
    );
}

#[test]
fn test_parse_delete_invalid_syntax() {
    // DELETE table column1 = 'value1'
    let tokens = vec![
        Token::Keyword("DELETE".to_string()),
        Token::Identifier("table".to_string()),
        Token::Identifier("column1".to_string()),
        Token::ComparisonOperator("=".to_string()),
        Token::StringLiteral("value1".to_string()),
    ];
    let mut table_name = String::new();
    let mut condition = Expression::Comparison {
        left: Operand::Column("column1".to_string()),
        operator: "=".to_string(),
        right: Operand::StringLiteral("value1".to_string()),
    };

    let result = parse_delete(&tokens, &mut table_name, &mut condition);

    assert!(result.is_err());
    assert_eq!(
        result.err().unwrap(),
        CustomError::InvalidSyntax {
            message: "Expected ';' at the end of the command".to_string()
        }
    );
}

#[test]
fn test_parse_select() {
    // SELECT column1, column2 FROM table WHERE column3 = 'value3' ORDER BY column4 DESC, column5 ASC;
    let tokens = vec![
        Token::Keyword("SELECT".to_string()),
        Token::Identifier("column1".to_string()),
        Token::Symbol(','),
        Token::Identifier("column2".to_string()),
        Token::Keyword("FROM".to_string()),
        Token::Identifier("table".to_string()),
        Token::Keyword("WHERE".to_string()),
        Token::Identifier("column3".to_string()),
        Token::ComparisonOperator("=".to_string()),
        Token::StringLiteral("value3".to_string()),
        Token::Keyword("ORDER".to_string()),
        Token::Keyword("BY".to_string()),
        Token::Identifier("column4".to_string()),
        Token::Keyword("DESC".to_string()),
        Token::Symbol(','),
        Token::Identifier("column5".to_string()),
        Token::Symbol(';'),
    ];
    let mut columns = Vec::new();
    let mut table_name = String::new();
    let mut condition = Expression::Comparison {
        left: Operand::Column("column3".to_string()),
        operator: "=".to_string(),
        right: Operand::StringLiteral("value3".to_string()),
    };
    let mut order_by = Vec::new();

    let result = parse_select(
        &tokens,
        &mut columns,
        &mut table_name,
        &mut condition,
        &mut order_by,
    );

    assert!(result.is_ok());
    assert_eq!(columns, vec!["column1".to_string(), "column2".to_string()]);
    assert_eq!(table_name, "table");
    assert_eq!(
        condition,
        Expression::Comparison {
            left: Operand::Column("column3".to_string()),
            operator: "=".to_string(),
            right: Operand::StringLiteral("value3".to_string()),
        }
    );
    assert_eq!(
        order_by,
        vec![
            ("column4".to_string(), "DESC".to_string()),
            ("column5".to_string(), "ASC".to_string()),
        ]
    );
}

#[test]
fn test_parse_select_invalid_syntax() {
    // SELECT column1, column2 FROM table WHERE column3 = 'value3' ORDER BY column4 DESC, column5 ASC;
    let tokens = vec![
        Token::Keyword("SELECT".to_string()),
        Token::Identifier("column1".to_string()),
        Token::Symbol(','),
        Token::Identifier("column2".to_string()),
        Token::Keyword("FROM".to_string()),
        Token::Identifier("table".to_string()),
        Token::Keyword("WHERE".to_string()),
        Token::Identifier("column3".to_string()),
        Token::ComparisonOperator("=".to_string()),
        Token::StringLiteral("value3".to_string()),
        Token::Keyword("ORDER".to_string()),
        Token::Keyword("BY".to_string()),
        Token::Identifier("column4".to_string()),
        Token::Keyword("DESC".to_string()),
        Token::Symbol(','),
        Token::Identifier("column5".to_string()),
        Token::Keyword("ASC".to_string()),
        Token::Symbol(';'),
    ];
    let mut columns = Vec::new();
    let mut table_name = String::new();
    let mut condition = Expression::Comparison {
        left: Operand::Column("column3".to_string()),
        operator: "=".to_string(),
        right: Operand::StringLiteral("value3".to_string()),
    };
    let mut order_by = Vec::new();

    let result = parse_select(
        &tokens,
        &mut columns,
        &mut table_name,
        &mut condition,
        &mut order_by,
    );

    assert!(result.is_err());
    assert_eq!(
        result.err().unwrap(),
        CustomError::InvalidSyntax {
            message: "Expected DESC or nothing after column name".to_string()
        }
    );
}
