//! The recursive-descent parser for WHERE expressions, over a shared token
//! cursor.  Precedence, loosest first: OR, then AND, then NOT, then a
//! parenthesized expression or a single comparison.  OR and AND are
//! left-associative.
//!
//! Each executable parser is proved equal to a spec-level grammar function
//! over the token models; the spec functions return the parsed tree and the
//! cursor position just past it, or `None` exactly where the executable
//! parser reports a syntax error.  The spec recursion carries position guards (`i < j`) so
//! that Verus sees termination; the executable parsers prove the guards
//! hold on every path, since a successful parse always consumes at least
//! one token.

use crate::error::CustomError;
use crate::expression::Expression;
use crate::expression::ExpressionModel;
use crate::expression::Operand;
use crate::expression::OperandModel;
use crate::text::str_eq_str;
use crate::text::string_from_chars;
use crate::tokenizer::Token;
use crate::tokenizer::TokenModel;
use vstd::prelude::*;
use vstd::string::StringExecFns;

verus! {

/// One operand: an identifier becomes a column reference, a literal keeps
/// its text; anything else fails.  The cursor moves past the one token even
/// on failure, as a consumed-by-`next` token would.
pub open spec fn spec_parse_operand(toks: Seq<TokenModel>, i: int) -> Option<(OperandModel, int)> {
    if 0 <= i < toks.len() {
        match toks[i] {
            TokenModel::Identifier(s) => Some((OperandModel::Column(s), i + 1)),
            TokenModel::StringLiteral(s) => Some((OperandModel::StringLiteral(s), i + 1)),
            TokenModel::IntegerLiteral(s) => Some((OperandModel::IntegerLiteral(s), i + 1)),
            _ => None,
        }
    } else {
        None
    }
}

/// One comparison: operand, comparison operator, operand.
pub open spec fn spec_parse_comparison(toks: Seq<TokenModel>, i: int) -> Option<
    (ExpressionModel, int),
> {
    match spec_parse_operand(toks, i) {
        Some((left, j)) => if 0 <= j < toks.len() {
            match toks[j] {
                TokenModel::ComparisonOperator(op) => match spec_parse_operand(toks, j + 1) {
                    Some((right, k)) => Some((ExpressionModel::Comparison(left, op, right), k)),
                    None => None,
                },
                _ => None,
            }
        } else {
            None
        },
        None => None,
    }
}

/// A parenthesized expression or a single comparison.
pub open spec fn spec_parse_primary(toks: Seq<TokenModel>, i: int) -> Option<
    (ExpressionModel, int),
>
    decreases toks.len() - i, 0int,
    when 0 <= i <= toks.len()
{
    if i < toks.len() && toks[i] == TokenModel::Symbol('(') {
        match spec_parse_or(toks, i + 1) {
            Some((e, j)) => if 0 <= j < toks.len() && toks[j] == TokenModel::Symbol(')') {
                Some((e, j + 1))
            } else {
                None
            },
            None => None,
        }
    } else {
        spec_parse_comparison(toks, i)
    }
}

/// `NOT` applied to a primary, or a primary alone.
pub open spec fn spec_parse_not(toks: Seq<TokenModel>, i: int) -> Option<(ExpressionModel, int)>
    decreases toks.len() - i, 1int,
    when 0 <= i <= toks.len()
{
    if i < toks.len() && toks[i] == TokenModel::LogicalOperator("NOT"@) {
        match spec_parse_primary(toks, i + 1) {
            Some((e, j)) => Some((ExpressionModel::Not(Box::new(e)), j)),
            None => None,
        }
    } else {
        spec_parse_primary(toks, i)
    }
}

/// The left-associative run of `AND`s after a first conjunct.  The `i < j`
/// guards only serve termination; a successful parse always advances the
/// cursor, so they hold wherever this specification is reached.
pub open spec fn spec_parse_and_rest(toks: Seq<TokenModel>, i: int, acc: ExpressionModel) -> Option<
    (ExpressionModel, int),
>
    decreases toks.len() - i, 3int,
    when 0 <= i <= toks.len()
{
    if i < toks.len() && toks[i] == TokenModel::LogicalOperator("AND"@) {
        match spec_parse_not(toks, i + 1) {
            Some((right, j)) => if i < j <= toks.len() {
                spec_parse_and_rest(
                    toks,
                    j,
                    ExpressionModel::And(Box::new(acc), Box::new(right)),
                )
            } else {
                None
            },
            None => None,
        }
    } else {
        Some((acc, i))
    }
}

/// A conjunction: NOT-expressions joined by `AND`.
pub open spec fn spec_parse_and(toks: Seq<TokenModel>, i: int) -> Option<(ExpressionModel, int)>
    decreases toks.len() - i, 2int,
    when 0 <= i <= toks.len()
{
    match spec_parse_not(toks, i) {
        Some((e, j)) => if i < j <= toks.len() {
            spec_parse_and_rest(toks, j, e)
        } else {
            None
        },
        None => None,
    }
}

/// The left-associative run of `OR`s after a first disjunct.
pub open spec fn spec_parse_or_rest(toks: Seq<TokenModel>, i: int, acc: ExpressionModel) -> Option<
    (ExpressionModel, int),
>
    decreases toks.len() - i, 5int,
    when 0 <= i <= toks.len()
{
    if i < toks.len() && toks[i] == TokenModel::LogicalOperator("OR"@) {
        match spec_parse_and(toks, i + 1) {
            Some((right, j)) => if i < j <= toks.len() {
                spec_parse_or_rest(toks, j, ExpressionModel::Or(Box::new(acc), Box::new(right)))
            } else {
                None
            },
            None => None,
        }
    } else {
        Some((acc, i))
    }
}

/// A whole expression: conjunctions joined by `OR`.
pub open spec fn spec_parse_or(toks: Seq<TokenModel>, i: int) -> Option<(ExpressionModel, int)>
    decreases toks.len() - i, 4int,
    when 0 <= i <= toks.len()
{
    match spec_parse_and(toks, i) {
        Some((e, j)) => if i < j <= toks.len() {
            spec_parse_or_rest(toks, j, e)
        } else {
            None
        },
        None => None,
    }
}

/// A whole expression, as the grammar's start symbol.
pub open spec fn spec_parse_expression(toks: Seq<TokenModel>, i: int) -> Option<
    (ExpressionModel, int),
>
    recommends
        0 <= i <= toks.len(),
{
    spec_parse_or(toks, i)
}

/// The `Debug`-style rendering of a token, used in error messages.
fn token_debug_text(t: &Token) -> String {
    let (name, text): (&str, &String) = match t {
        Token::Keyword(s) => ("Keyword", s),
        Token::LogicalOperator(s) => ("LogicalOperator", s),
        Token::ComparisonOperator(s) => ("ComparisonOperator", s),
        Token::Identifier(s) => ("Identifier", s),
        Token::StringLiteral(s) => ("StringLiteral", s),
        Token::IntegerLiteral(s) => ("IntegerLiteral", s),
        Token::Symbol(c) => {
            let mut r = String::from_str("Symbol('");
            let mut one: Vec<char> = Vec::new();
            one.push(*c);
            r.append(string_from_chars(&one).as_str());
            r.append("')");
            return r;
        },
    };
    let mut r = String::from_str(name);
    r.append("(\"");
    r.append(text.as_str());
    r.append("\")");
    r
}

/// Parses one operand, as [`spec_parse_operand`] defines it.
pub fn parse_operand(tokens: &Vec<Token>, pos: &mut usize) -> (r: Result<Operand, CustomError>)
    requires
        *old(pos) <= tokens@.len(),
    ensures
        match r {
            Ok(o) => spec_parse_operand(tokens.deep_view(), *old(pos) as int) == Some(
                (o@, *final(pos) as int),
            ) && *old(pos) < *final(pos) <= tokens@.len(),
            Err(e) => spec_parse_operand(tokens.deep_view(), *old(pos) as int) is None
                && e is InvalidSyntax,
        },
{
    if *pos < tokens.len() {
        let t = &tokens[*pos];
        match t {
            Token::Identifier(s) => {
                *pos += 1;
                Ok(Operand::Column(s.clone()))
            },
            Token::StringLiteral(s) => {
                *pos += 1;
                Ok(Operand::StringLiteral(s.clone()))
            },
            Token::IntegerLiteral(s) => {
                *pos += 1;
                Ok(Operand::IntegerLiteral(s.clone()))
            },
            other => {
                *pos += 1;
                let mut message = String::from_str("Invalid operand ");
                message.append(token_debug_text(other).as_str());
                Err(CustomError::InvalidSyntax { message })
            },
        }
    } else {
        Err(CustomError::invalid_syntax("No operand provided"))
    }
}

/// Parses one comparison, as [`spec_parse_comparison`] defines it.
pub fn parse_comparison_expression(tokens: &Vec<Token>, pos: &mut usize) -> (r: Result<
    Expression,
    CustomError,
>)
    requires
        *old(pos) <= tokens@.len(),
    ensures
        match r {
            Ok(e) => spec_parse_comparison(tokens.deep_view(), *old(pos) as int) == Some(
                (e@, *final(pos) as int),
            ) && *old(pos) < *final(pos) <= tokens@.len(),
            Err(e) => spec_parse_comparison(tokens.deep_view(), *old(pos) as int) is None
                && e is InvalidSyntax,
        },
{
    if *pos < tokens.len() {
        let operand_ahead = match &tokens[*pos] {
            Token::Identifier(_) => true,
            Token::StringLiteral(_) => true,
            Token::IntegerLiteral(_) => true,
            _ => false,
        };
        if operand_ahead {
            let left = parse_operand(tokens, pos)?;
            if *pos < tokens.len() {
                let op: Option<String> = match &tokens[*pos] {
                    Token::ComparisonOperator(op) => Some(op.clone()),
                    _ => None,
                };
                if let Some(operator) = op {
                    *pos += 1;
                    let right = parse_operand(tokens, pos)?;
                    return Ok(Expression::Comparison { left, operator, right });
                }
            }
            Err(CustomError::invalid_syntax("Invalid expression"))
        } else {
            Err(CustomError::invalid_syntax("Invalid expression"))
        }
    } else {
        Err(CustomError::invalid_syntax("Invalid expression"))
    }
}

/// Parses a parenthesized expression or a comparison, as
/// [`spec_parse_primary`] defines it.
pub fn parse_primary_expression(tokens: &Vec<Token>, pos: &mut usize) -> (r: Result<
    Expression,
    CustomError,
>)
    requires
        *old(pos) <= tokens@.len(),
    ensures
        match r {
            Ok(e) => spec_parse_primary(tokens.deep_view(), *old(pos) as int) == Some(
                (e@, *final(pos) as int),
            ) && *old(pos) < *final(pos) <= tokens@.len(),
            Err(e) => spec_parse_primary(tokens.deep_view(), *old(pos) as int) is None
                && e is InvalidSyntax,
        },
    decreases tokens@.len() - *old(pos), 0int,
{
    let open_ahead = *pos < tokens.len() && match &tokens[*pos] {
        Token::Symbol(c) => *c == '(',
        _ => false,
    };
    if open_ahead {
        *pos += 1;
        let expression = parse_or_expression(tokens, pos)?;
        if *pos < tokens.len() {
            let close_here = match &tokens[*pos] {
                Token::Symbol(c) => *c == ')',
                _ => false,
            };
            if close_here {
                *pos += 1;
                return Ok(expression);
            }
        }
        Err(CustomError::invalid_syntax("Missing closing ')'"))
    } else {
        parse_comparison_expression(tokens, pos)
    }
}

/// Parses a NOT-expression, as [`spec_parse_not`] defines it.
pub fn parse_not_expression(tokens: &Vec<Token>, pos: &mut usize) -> (r: Result<
    Expression,
    CustomError,
>)
    requires
        *old(pos) <= tokens@.len(),
    ensures
        match r {
            Ok(e) => spec_parse_not(tokens.deep_view(), *old(pos) as int) == Some(
                (e@, *final(pos) as int),
            ) && *old(pos) < *final(pos) <= tokens@.len(),
            Err(e) => spec_parse_not(tokens.deep_view(), *old(pos) as int) is None
                && e is InvalidSyntax,
        },
    decreases tokens@.len() - *old(pos), 1int,
{
    let not_ahead = *pos < tokens.len() && match &tokens[*pos] {
        Token::LogicalOperator(op) => str_eq_str(op.as_str(), "NOT"),
        _ => false,
    };
    if not_ahead {
        *pos += 1;
        let expression = parse_primary_expression(tokens, pos)?;
        Ok(Expression::Not { right: Box::new(expression) })
    } else {
        parse_primary_expression(tokens, pos)
    }
}

/// Parses a conjunction, as [`spec_parse_and`] defines it.
pub fn parse_and_expression(tokens: &Vec<Token>, pos: &mut usize) -> (r: Result<
    Expression,
    CustomError,
>)
    requires
        *old(pos) <= tokens@.len(),
    ensures
        match r {
            Ok(e) => spec_parse_and(tokens.deep_view(), *old(pos) as int) == Some(
                (e@, *final(pos) as int),
            ) && *old(pos) < *final(pos) <= tokens@.len(),
            Err(e) => spec_parse_and(tokens.deep_view(), *old(pos) as int) is None
                && e is InvalidSyntax,
        },
    decreases tokens@.len() - *old(pos), 2int,
{
    let ghost i0 = *old(pos) as int;
    let mut expression = parse_not_expression(tokens, pos)?;
    loop
        invariant
            i0 == *old(pos) as int,
            *pos <= tokens@.len(),
            i0 < *pos as int,
            spec_parse_and(tokens.deep_view(), i0) == spec_parse_and_rest(
                tokens.deep_view(),
                *pos as int,
                expression@,
            ),
        decreases tokens@.len() - *pos,
    {
        let and_ahead = *pos < tokens.len() && match &tokens[*pos] {
            Token::LogicalOperator(op) => str_eq_str(op.as_str(), "AND"),
            _ => false,
        };
        if and_ahead {
            *pos += 1;
            let right = parse_not_expression(tokens, pos)?;
            expression = Expression::And { left: Box::new(expression), right: Box::new(right) };
        } else {
            return Ok(expression);
        }
    }
}

/// Parses a whole expression, as [`spec_parse_or`] defines it.
pub fn parse_or_expression(tokens: &Vec<Token>, pos: &mut usize) -> (r: Result<
    Expression,
    CustomError,
>)
    requires
        *old(pos) <= tokens@.len(),
    ensures
        match r {
            Ok(e) => spec_parse_or(tokens.deep_view(), *old(pos) as int) == Some(
                (e@, *final(pos) as int),
            ) && *old(pos) < *final(pos) <= tokens@.len(),
            Err(e) => spec_parse_or(tokens.deep_view(), *old(pos) as int) is None
                && e is InvalidSyntax,
        },
    decreases tokens@.len() - *old(pos), 3int,
{
    let ghost i0 = *old(pos) as int;
    let mut expression = parse_and_expression(tokens, pos)?;
    loop
        invariant
            i0 == *old(pos) as int,
            *pos <= tokens@.len(),
            i0 < *pos as int,
            spec_parse_or(tokens.deep_view(), i0) == spec_parse_or_rest(
                tokens.deep_view(),
                *pos as int,
                expression@,
            ),
        decreases tokens@.len() - *pos,
    {
        let or_ahead = *pos < tokens.len() && match &tokens[*pos] {
            Token::LogicalOperator(op) => str_eq_str(op.as_str(), "OR"),
            _ => false,
        };
        if or_ahead {
            *pos += 1;
            let right = parse_and_expression(tokens, pos)?;
            expression = Expression::Or { left: Box::new(expression), right: Box::new(right) };
        } else {
            return Ok(expression);
        }
    }
}

/// Parses a whole WHERE expression from the shared cursor, leaving the
/// cursor exactly one token past what was consumed.  The result is what
/// [`spec_parse_expression`] describes: `Ok` exactly where the grammar
/// accepts, a syntax error exactly where it does not.
pub fn parse_expression(tokens: &Vec<Token>, pos: &mut usize) -> (r: Result<
    Expression,
    CustomError,
>)
    requires
        *old(pos) <= tokens@.len(),
    ensures
        match r {
            Ok(e) => spec_parse_expression(tokens.deep_view(), *old(pos) as int) == Some(
                (e@, *final(pos) as int),
            ) && *old(pos) < *final(pos) <= tokens@.len(),
            Err(e) => spec_parse_expression(tokens.deep_view(), *old(pos) as int) is None
                && e is InvalidSyntax,
        },
{
    parse_or_expression(tokens, pos)
}

} // verus!
