//! The WHERE predicate: a boolean expression tree over row values, and its
//! evaluator.  All comparisons are lexicographic on the value text; integer
//! literals are carried as text and never given numeric meaning.

use crate::error::CustomError;
use crate::text::spec_str_cmp;
use crate::text::str_compare;
use crate::text::str_eq_str;
use crate::value_map::ValueMap;
use vstd::prelude::*;
use vstd::string::StringExecFns;

verus! {

/// A leaf value in a comparison: a column lookup or a literal.
#[derive(Debug, PartialEq)]
pub enum Operand {
    Column(String),
    StringLiteral(String),
    IntegerLiteral(String),
}

/// A boolean expression tree.  `True` matches every row; internal nodes
/// are `And`, `Or` and `Not`; leaves are comparisons between operands.
#[derive(Debug, PartialEq)]
#[allow(inconsistent_fields)]
pub enum Expression {
    True,
    And { left: Box<Expression>, right: Box<Expression> },
    Or { left: Box<Expression>, right: Box<Expression> },
    Not { right: Box<Expression> },
    Comparison { left: Operand, operator: String, right: Operand },
}

/// The mathematical shadow of an [`Operand`].
pub enum OperandModel {
    Column(Seq<char>),
    StringLiteral(Seq<char>),
    IntegerLiteral(Seq<char>),
}

/// The mathematical shadow of an [`Expression`].
pub enum ExpressionModel {
    True,
    And(Box<ExpressionModel>, Box<ExpressionModel>),
    Or(Box<ExpressionModel>, Box<ExpressionModel>),
    Not(Box<ExpressionModel>),
    Comparison(OperandModel, Seq<char>, OperandModel),
}

impl View for Operand {
    type V = OperandModel;

    open spec fn view(&self) -> OperandModel {
        match self {
            Operand::Column(s) => OperandModel::Column(s@),
            Operand::StringLiteral(s) => OperandModel::StringLiteral(s@),
            Operand::IntegerLiteral(s) => OperandModel::IntegerLiteral(s@),
        }
    }
}

impl View for Expression {
    type V = ExpressionModel;

    open spec fn view(&self) -> ExpressionModel
        decreases self,
    {
        match self {
            Expression::True => ExpressionModel::True,
            Expression::And { left, right } => ExpressionModel::And(
                Box::new((**left).view()),
                Box::new((**right).view()),
            ),
            Expression::Or { left, right } => ExpressionModel::Or(
                Box::new((**left).view()),
                Box::new((**right).view()),
            ),
            Expression::Not { right } => ExpressionModel::Not(Box::new((**right).view())),
            Expression::Comparison { left, operator, right } => ExpressionModel::Comparison(
                left@,
                operator@,
                right@,
            ),
        }
    }
}

/// The value an operand denotes against a row: a literal is its own text, a
/// column is looked up in the row, and a missing column is a failure.
pub open spec fn spec_eval_operand(
    o: OperandModel,
    row: Map<Seq<char>, Seq<char>>,
) -> Option<Seq<char>> {
    match o {
        OperandModel::Column(name) => if row.contains_key(name) {
            Some(row[name])
        } else {
            None
        },
        OperandModel::StringLiteral(t) => Some(t),
        OperandModel::IntegerLiteral(t) => Some(t),
    }
}

/// The outcome of one comparison, by lexicographic text order; an operator
/// outside the six known ones is a failure.
pub open spec fn spec_compare(op: Seq<char>, a: Seq<char>, b: Seq<char>) -> Option<bool> {
    if op == "="@ {
        Some(a == b)
    } else if op == "!="@ {
        Some(a != b)
    } else if op == ">"@ {
        Some(spec_str_cmp(a, b) == core::cmp::Ordering::Greater)
    } else if op == "<"@ {
        Some(spec_str_cmp(a, b) == core::cmp::Ordering::Less)
    } else if op == ">="@ {
        Some(spec_str_cmp(a, b) != core::cmp::Ordering::Less)
    } else if op == "<="@ {
        Some(spec_str_cmp(a, b) != core::cmp::Ordering::Greater)
    } else {
        None
    }
}

/// The truth value of a whole expression against a row, or `None` when a
/// column is missing or an operator unknown.  Both sides of `And` and `Or`
/// are always evaluated, so a failure on either side is a failure of the
/// whole.
pub open spec fn spec_eval(e: ExpressionModel, row: Map<Seq<char>, Seq<char>>) -> Option<bool>
    decreases e,
{
    match e {
        ExpressionModel::True => Some(true),
        ExpressionModel::And(left, right) => match (
            spec_eval(*left, row),
            spec_eval(*right, row),
        ) {
            (Some(a), Some(b)) => Some(a && b),
            _ => None,
        },
        ExpressionModel::Or(left, right) => match (spec_eval(*left, row), spec_eval(*right, row)) {
            (Some(a), Some(b)) => Some(a || b),
            _ => None,
        },
        ExpressionModel::Not(right) => match spec_eval(*right, row) {
            Some(b) => Some(!b),
            None => None,
        },
        ExpressionModel::Comparison(left, op, right) => match (
            spec_eval_operand(left, row),
            spec_eval_operand(right, row),
        ) {
            (Some(a), Some(b)) => spec_compare(op, a, b),
            _ => None,
        },
    }
}

/// Resolves one operand against a row, as [`spec_eval_operand`] defines
/// it.
fn evaluate_operand(operand: &Operand, row: &ValueMap) -> (r: Result<String, CustomError>)
    requires
        row.wf(),
    ensures
        match r {
            Ok(v) => spec_eval_operand(operand@, row@) == Some(v@),
            Err(e) => spec_eval_operand(operand@, row@) is None && e is GenericError,
        },
{
    match operand {
        Operand::Column(column_name) => {
            match row.get(column_name.as_str()) {
                Some(value) => Ok(value.clone()),
                None => {
                    let mut message = String::from_str("Column not found: ");
                    message.append(column_name.as_str());
                    Err(CustomError::GenericError { message })
                },
            }
        },
        Operand::StringLiteral(value) => Ok(value.clone()),
        Operand::IntegerLiteral(value) => Ok(value.clone()),
    }
}

/// Evaluates an expression against a row, as [`spec_eval`] defines it: the
/// result is exactly the spec's truth value, and an error comes exactly
/// when the spec has none.
pub fn evaluate_expression(expression: &Expression, row: &ValueMap) -> (r: Result<
    bool,
    CustomError,
>)
    requires
        row.wf(),
    ensures
        match r {
            Ok(b) => spec_eval(expression@, row@) == Some(b),
            Err(e) => spec_eval(expression@, row@) is None && e is GenericError,
        },
    decreases expression,
{
    match expression {
        Expression::True => Ok(true),
        Expression::And { left, right } => {
            let left_result = evaluate_expression(left, row)?;
            let right_result = evaluate_expression(right, row)?;
            Ok(left_result && right_result)
        },
        Expression::Or { left, right } => {
            let left_result = evaluate_expression(left, row)?;
            let right_result = evaluate_expression(right, row)?;
            Ok(left_result || right_result)
        },
        Expression::Not { right } => {
            let right_result = evaluate_expression(right, row)?;
            Ok(!right_result)
        },
        Expression::Comparison { left, operator, right } => {
            let left_value = evaluate_operand(left, row)?;
            let right_value = evaluate_operand(right, row)?;
            let a = left_value.as_str();
            let b = right_value.as_str();
            if str_eq_str(operator.as_str(), "=") {
                Ok(str_eq_str(a, b))
            } else if str_eq_str(operator.as_str(), "!=") {
                Ok(!str_eq_str(a, b))
            } else if str_eq_str(operator.as_str(), ">") {
                Ok(match str_compare(a, b) {
                    core::cmp::Ordering::Greater => true,
                    _ => false,
                })
            } else if str_eq_str(operator.as_str(), "<") {
                Ok(match str_compare(a, b) {
                    core::cmp::Ordering::Less => true,
                    _ => false,
                })
            } else if str_eq_str(operator.as_str(), ">=") {
                Ok(match str_compare(a, b) {
                    core::cmp::Ordering::Less => false,
                    _ => true,
                })
            } else if str_eq_str(operator.as_str(), "<=") {
                Ok(match str_compare(a, b) {
                    core::cmp::Ordering::Greater => false,
                    _ => true,
                })
            } else {
                let mut message = String::from_str("Invalid operator: ");
                message.append(operator.as_str());
                Err(CustomError::GenericError { message })
            }
        },
    }
}

} // verus!
