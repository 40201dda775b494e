//! The command parsers: one entry point per command keyword, each consuming
//! the whole token sequence up to and including the final `;`.
//!
//! As in the expression parser, each executable function is proved equal to
//! a spec-level grammar function over the token models; `None` in the spec
//! is exactly a syntax error in the code.

use crate::error::CustomError;
use crate::expression::Expression;
use crate::expression::ExpressionModel;
use crate::expression_parser::parse_expression;
use crate::expression_parser::spec_parse_expression;
use crate::text::str_eq_str;
use crate::tokenizer::Token;
use crate::tokenizer::TokenModel;
use crate::value_map::entries_insert;
use crate::value_map::fold_entries;
use crate::value_map::lemma_fold_entries_push;
use crate::value_map::ValueMap;
use vstd::prelude::*;
use vstd::string::StringExecFns;

verus! {

/// `INTO <table>`: the INTO keyword, then a table name given as an
/// identifier or a quoted string.
pub open spec fn spec_parse_insert_into(toks: Seq<TokenModel>, i: int) -> Option<(Seq<char>, int)> {
    if 0 <= i < toks.len() && toks[i] == TokenModel::Keyword("INTO"@) {
        if i + 1 < toks.len() {
            match toks[i + 1] {
                TokenModel::Identifier(name) => Some((name, i + 2)),
                TokenModel::StringLiteral(name) => Some((name, i + 2)),
                _ => None,
            }
        } else {
            None
        }
    } else {
        None
    }
}

/// The parenthesized column list of an INSERT: names separated by commas,
/// closed by `)`.  Running out of tokens inside the list is not itself an
/// error here; the caller's VALUES check fails instead.
pub open spec fn spec_parse_insert_columns(
    toks: Seq<TokenModel>,
    i: int,
    acc: Seq<Seq<char>>,
) -> Option<(Seq<Seq<char>>, int)>
    decreases toks.len() - i,
    when 0 <= i <= toks.len()
{
    if i >= toks.len() {
        Some((acc, i))
    } else {
        match toks[i] {
            TokenModel::Identifier(name) => if i + 1 < toks.len() && (toks[i + 1]
                == TokenModel::Symbol(')') || toks[i + 1] == TokenModel::Symbol(',')) {
                spec_parse_insert_columns(toks, i + 1, acc.push(name))
            } else {
                None
            },
            TokenModel::StringLiteral(name) => if i + 1 < toks.len() && (toks[i + 1]
                == TokenModel::Symbol(')') || toks[i + 1] == TokenModel::Symbol(',')) {
                spec_parse_insert_columns(toks, i + 1, acc.push(name))
            } else {
                None
            },
            TokenModel::Symbol(c) => if c == ',' {
                if i + 1 < toks.len() && (toks[i + 1] is Identifier || toks[i
                    + 1] is StringLiteral) {
                    spec_parse_insert_columns(toks, i + 1, acc)
                } else {
                    None
                }
            } else if c == ')' {
                Some((acc, i + 1))
            } else {
                None
            },
            _ => None,
        }
    }
}

/// One parenthesized VALUES tuple, zipped positionally against the column
/// list into a row map.  A tuple longer than the column list fails; a
/// missing `(` consumes one token and adds no row; running out of tokens
/// ends the tuple without adding a row.
pub open spec fn spec_parse_insert_tuple(
    toks: Seq<TokenModel>,
    i: int,
    columns: Seq<Seq<char>>,
    row: Map<Seq<char>, Seq<char>>,
    idx: int,
    vals: Seq<Map<Seq<char>, Seq<char>>>,
) -> Option<(Seq<Map<Seq<char>, Seq<char>>>, int)>
    decreases toks.len() - i,
    when 0 <= i <= toks.len()
{
    if i >= toks.len() {
        Some((vals, i))
    } else {
        match toks[i] {
            TokenModel::IntegerLiteral(v) => if i + 1 < toks.len() && (toks[i + 1]
                == TokenModel::Symbol(')') || toks[i + 1] == TokenModel::Symbol(',')) {
                if idx >= columns.len() {
                    None
                } else {
                    spec_parse_insert_tuple(
                        toks,
                        i + 1,
                        columns,
                        row.insert(columns[idx], v),
                        idx + 1,
                        vals,
                    )
                }
            } else {
                None
            },
            TokenModel::StringLiteral(v) => if i + 1 < toks.len() && (toks[i + 1]
                == TokenModel::Symbol(')') || toks[i + 1] == TokenModel::Symbol(',')) {
                if idx >= columns.len() {
                    None
                } else {
                    spec_parse_insert_tuple(
                        toks,
                        i + 1,
                        columns,
                        row.insert(columns[idx], v),
                        idx + 1,
                        vals,
                    )
                }
            } else {
                None
            },
            TokenModel::Symbol(c) => if c == ',' {
                if i + 1 < toks.len() && (toks[i + 1] is IntegerLiteral || toks[i
                    + 1] is StringLiteral) {
                    spec_parse_insert_tuple(toks, i + 1, columns, row, idx, vals)
                } else {
                    None
                }
            } else if c == ')' {
                Some((vals.push(row), i + 1))
            } else {
                None
            },
            _ => None,
        }
    }
}

/// One VALUES tuple from its opening parenthesis.
pub open spec fn spec_parse_insert_value(
    toks: Seq<TokenModel>,
    i: int,
    columns: Seq<Seq<char>>,
    vals: Seq<Map<Seq<char>, Seq<char>>>,
) -> Option<(Seq<Map<Seq<char>, Seq<char>>>, int)>
    recommends
        0 <= i <= toks.len(),
{
    if i >= toks.len() {
        Some((vals, i))
    } else if toks[i] == TokenModel::Symbol('(') {
        spec_parse_insert_tuple(toks, i + 1, columns, Map::empty(), 0, vals)
    } else {
        Some((vals, i + 1))
    }
}

/// Further VALUES tuples, each preceded by a comma.  The `i < j` guard only
/// serves termination; a tuple always leaves the cursor at or past the
/// comma that introduced it.
pub open spec fn spec_parse_insert_values_rest(
    toks: Seq<TokenModel>,
    i: int,
    columns: Seq<Seq<char>>,
    vals: Seq<Map<Seq<char>, Seq<char>>>,
) -> Option<(Seq<Map<Seq<char>, Seq<char>>>, int)>
    decreases toks.len() - i,
    when 0 <= i <= toks.len()
{
    if i < toks.len() && toks[i] == TokenModel::Symbol(',') {
        match spec_parse_insert_value(toks, i + 1, columns, vals) {
            Some((vals2, j)) => if i < j <= toks.len() {
                spec_parse_insert_values_rest(toks, j, columns, vals2)
            } else {
                None
            },
            None => None,
        }
    } else {
        Some((vals, i))
    }
}

/// `VALUES` and the tuples that follow it.
pub open spec fn spec_parse_insert_values(
    toks: Seq<TokenModel>,
    i: int,
    columns: Seq<Seq<char>>,
    vals0: Seq<Map<Seq<char>, Seq<char>>>,
) -> Option<(Seq<Map<Seq<char>, Seq<char>>>, int)>
    recommends
        0 <= i <= toks.len(),
{
    if i < toks.len() && toks[i] == TokenModel::Keyword("VALUES"@) {
        match spec_parse_insert_value(toks, i + 1, columns, vals0) {
            Some((vals, j)) => if i < j <= toks.len() {
                spec_parse_insert_values_rest(toks, j, columns, vals)
            } else {
                None
            },
            None => None,
        }
    } else {
        None
    }
}

/// The terminating `;`, with nothing allowed after it.
pub open spec fn spec_check_semicolon(toks: Seq<TokenModel>, i: int) -> Option<int> {
    if 0 <= i < toks.len() && toks[i] == TokenModel::Symbol(';') {
        if i + 1 < toks.len() {
            None
        } else {
            Some(i + 1)
        }
    } else {
        None
    }
}

/// A whole INSERT command: table name, column list, value tuples, `;`.
/// The leading command token is skipped unexamined, as the dispatcher has
/// already looked at it.
pub open spec fn spec_parse_insert(
    toks: Seq<TokenModel>,
    cols0: Seq<Seq<char>>,
    vals0: Seq<Map<Seq<char>, Seq<char>>>,
) -> Option<(Seq<char>, Seq<Seq<char>>, Seq<Map<Seq<char>, Seq<char>>>)> {
    match spec_parse_insert_into(toks, 1) {
        Some((table, i)) => if 0 <= i < toks.len() && toks[i] == TokenModel::Symbol('(') {
            match spec_parse_insert_columns(toks, i + 1, cols0) {
                Some((columns, j)) => match spec_parse_insert_values(toks, j, columns, vals0) {
                    Some((vals, k)) => match spec_check_semicolon(toks, k) {
                        Some(_) => Some((table, columns, vals)),
                        None => None,
                    },
                    None => None,
                },
                None => None,
            }
        } else {
            None
        },
        None => None,
    }
}

/// One `column = value` assignment after SET: the column must be a bare
/// identifier, the value a literal.
pub open spec fn spec_parse_set_value(toks: Seq<TokenModel>, i: int) -> Option<
    ((Seq<char>, Seq<char>), int),
> {
    if 0 <= i < toks.len() {
        match toks[i] {
            TokenModel::Identifier(col) => if i + 1 < toks.len() && toks[i + 1]
                == TokenModel::ComparisonOperator("="@) {
                if i + 2 < toks.len() {
                    match toks[i + 2] {
                        TokenModel::IntegerLiteral(v) => Some(((col, v), i + 3)),
                        TokenModel::StringLiteral(v) => Some(((col, v), i + 3)),
                        _ => None,
                    }
                } else {
                    None
                }
            } else {
                None
            },
            _ => None,
        }
    } else {
        None
    }
}

/// Further assignments, each preceded by a comma.
pub open spec fn spec_parse_set_values_rest(
    toks: Seq<TokenModel>,
    i: int,
    pairs: Seq<(Seq<char>, Seq<char>)>,
) -> Option<(Seq<(Seq<char>, Seq<char>)>, int)>
    decreases toks.len() - i,
    when 0 <= i <= toks.len()
{
    if i < toks.len() && toks[i] == TokenModel::Symbol(',') {
        match spec_parse_set_value(toks, i + 1) {
            Some((pair, j)) => if i < j <= toks.len() {
                spec_parse_set_values_rest(toks, j, pairs.push(pair))
            } else {
                None
            },
            None => None,
        }
    } else {
        Some((pairs, i))
    }
}

/// `SET` and the assignments that follow it, in source order.
pub open spec fn spec_parse_set_values(toks: Seq<TokenModel>, i: int) -> Option<
    (Seq<(Seq<char>, Seq<char>)>, int),
>
    recommends
        0 <= i <= toks.len(),
{
    if i < toks.len() && toks[i] == TokenModel::Keyword("SET"@) {
        match spec_parse_set_value(toks, i + 1) {
            Some((pair, j)) => if i < j <= toks.len() {
                spec_parse_set_values_rest(toks, j, seq![pair])
            } else {
                None
            },
            None => None,
        }
    } else {
        None
    }
}

/// The optional WHERE clause: `None` in the result's first slot means the
/// clause was absent and the caller's condition stays untouched.
pub open spec fn spec_parse_condition(toks: Seq<TokenModel>, i: int) -> Option<
    (Option<ExpressionModel>, int),
>
    recommends
        0 <= i <= toks.len(),
{
    if i < toks.len() && toks[i] == TokenModel::Keyword("WHERE"@) {
        match spec_parse_expression(toks, i + 1) {
            Some((e, j)) => Some((Some(e), j)),
            None => None,
        }
    } else {
        Some((None, i))
    }
}

/// A table name given as an identifier or a quoted string.
pub open spec fn spec_parse_table_name(toks: Seq<TokenModel>, i: int) -> Option<(Seq<char>, int)> {
    if 0 <= i < toks.len() {
        match toks[i] {
            TokenModel::Identifier(name) => Some((name, i + 1)),
            TokenModel::StringLiteral(name) => Some((name, i + 1)),
            _ => None,
        }
    } else {
        None
    }
}

/// A whole UPDATE command: table name, assignments, optional WHERE, `;`.
pub open spec fn spec_parse_update(toks: Seq<TokenModel>) -> Option<
    (Seq<char>, Seq<(Seq<char>, Seq<char>)>, Option<ExpressionModel>),
> {
    match spec_parse_table_name(toks, 1) {
        Some((table, i)) => match spec_parse_set_values(toks, i) {
            Some((pairs, j)) => if 0 <= j <= toks.len() {
                match spec_parse_condition(toks, j) {
                    Some((cond, k)) => match spec_check_semicolon(toks, k) {
                        Some(_) => Some((table, pairs, cond)),
                        None => None,
                    },
                    None => None,
                }
            } else {
                None
            },
            None => None,
        },
        None => None,
    }
}

/// A whole DELETE command: table name, optional WHERE, `;`.
pub open spec fn spec_parse_delete(toks: Seq<TokenModel>) -> Option<
    (Seq<char>, Option<ExpressionModel>),
> {
    match spec_parse_table_name(toks, 1) {
        Some((table, i)) => match spec_parse_condition(toks, i) {
            Some((cond, j)) => match spec_check_semicolon(toks, j) {
                Some(_) => Some((table, cond)),
                None => None,
            },
            None => None,
        },
        None => None,
    }
}

/// The projection list of a SELECT: `*` (or nothing before FROM) means all
/// columns and leaves the list empty; otherwise identifiers separated by
/// commas, ended by the next keyword.
pub open spec fn spec_parse_select_columns(
    toks: Seq<TokenModel>,
    i: int,
    acc: Seq<Seq<char>>,
) -> Option<(Seq<Seq<char>>, int)>
    decreases toks.len() - i,
    when 0 <= i <= toks.len()
{
    if i >= toks.len() {
        Some((acc, i))
    } else {
        match toks[i] {
            TokenModel::Identifier(name) => spec_parse_select_columns(toks, i + 1, acc.push(name)),
            TokenModel::Keyword(_) => Some((acc, i)),
            TokenModel::Symbol(c) => if c == ',' {
                if i + 1 < toks.len() && toks[i + 1] is Identifier {
                    spec_parse_select_columns(toks, i + 1, acc)
                } else {
                    None
                }
            } else {
                None
            },
            _ => None,
        }
    }
}

/// The whole projection: `*` consumes one token and selects all columns
/// (an empty list); otherwise the comma-separated list applies.
pub open spec fn spec_parse_select_projection(
    toks: Seq<TokenModel>,
    i: int,
    acc: Seq<Seq<char>>,
) -> Option<(Seq<Seq<char>>, int)>
    recommends
        0 <= i <= toks.len(),
{
    if i < toks.len() && toks[i] == TokenModel::Symbol('*') {
        Some((acc, i + 1))
    } else {
        spec_parse_select_columns(toks, i, acc)
    }
}

/// One ORDER BY key: a column name, optionally followed by DESC; a bare
/// column sorts ascending, and any other keyword after the name is an
/// error.
pub open spec fn spec_parse_order_by_column(toks: Seq<TokenModel>, i: int) -> Option<
    ((Seq<char>, Seq<char>), int),
> {
    if 0 <= i < toks.len() {
        match toks[i] {
            TokenModel::Identifier(name) => if i + 1 < toks.len() && toks[i + 1] is Keyword {
                if toks[i + 1] == TokenModel::Keyword("DESC"@) {
                    Some(((name, "DESC"@), i + 2))
                } else {
                    None
                }
            } else {
                Some(((name, "ASC"@), i + 1))
            },
            _ => None,
        }
    } else {
        None
    }
}

/// Further ORDER BY keys, each preceded by a comma.
pub open spec fn spec_parse_order_by_rest(
    toks: Seq<TokenModel>,
    i: int,
    acc: Seq<(Seq<char>, Seq<char>)>,
) -> Option<(Seq<(Seq<char>, Seq<char>)>, int)>
    decreases toks.len() - i,
    when 0 <= i <= toks.len()
{
    if i < toks.len() && toks[i] == TokenModel::Symbol(',') {
        match spec_parse_order_by_column(toks, i + 1) {
            Some((pair, j)) => if i < j <= toks.len() {
                spec_parse_order_by_rest(toks, j, acc.push(pair))
            } else {
                None
            },
            None => None,
        }
    } else {
        Some((acc, i))
    }
}

/// The optional ORDER BY clause; absent, it contributes no keys.
pub open spec fn spec_parse_order_by(
    toks: Seq<TokenModel>,
    i: int,
    acc: Seq<(Seq<char>, Seq<char>)>,
) -> Option<(Seq<(Seq<char>, Seq<char>)>, int)>
    recommends
        0 <= i <= toks.len(),
{
    if i < toks.len() && toks[i] == TokenModel::Keyword("ORDER"@) {
        if i + 1 < toks.len() && toks[i + 1] == TokenModel::Keyword("BY"@) {
            match spec_parse_order_by_column(toks, i + 2) {
                Some((pair, j)) => if i < j <= toks.len() {
                    spec_parse_order_by_rest(toks, j, acc.push(pair))
                } else {
                    None
                },
                None => None,
            }
        } else {
            None
        }
    } else {
        Some((acc, i))
    }
}

/// A whole SELECT command: projection, FROM and table name, optional
/// WHERE, optional ORDER BY, `;`.
pub open spec fn spec_parse_select(
    toks: Seq<TokenModel>,
    cols0: Seq<Seq<char>>,
    ob0: Seq<(Seq<char>, Seq<char>)>,
) -> Option<(Seq<Seq<char>>, Seq<char>, Option<ExpressionModel>, Seq<(Seq<char>, Seq<char>)>)> {
    match spec_parse_select_projection(toks, 1, cols0) {
        Some((cols, i)) => if 0 <= i < toks.len() && toks[i] == TokenModel::Keyword("FROM"@) {
            match spec_parse_table_name(toks, i + 1) {
                Some((table, j)) => match spec_parse_condition(toks, j) {
                    Some((cond, k)) => if 0 <= k <= toks.len() {
                        match spec_parse_order_by(toks, k, ob0) {
                            Some((order, m)) => match spec_check_semicolon(toks, m) {
                                Some(_) => Some((cols, table, cond, order)),
                                None => None,
                            },
                            None => None,
                        }
                    } else {
                        None
                    },
                    None => None,
                },
                None => None,
            }
        } else {
            None
        },
        None => None,
    }
}

} // verus!

verus! {

/// The view of an ORDER BY vector: each pair as plain character sequences.
pub open spec fn order_by_view(s: Seq<(String, String)>) -> Seq<(Seq<char>, Seq<char>)> {
    s.map_values(|p: (String, String)| (p.0@, p.1@))
}

/// Reads a table name (identifier or quoted string) into `table_name`,
/// failing with `message` if something else stands there.
fn parse_table_name_into(
    tokens: &Vec<Token>,
    pos: &mut usize,
    table_name: &mut String,
    message: &str,
) -> (r: Result<(), CustomError>)
    requires
        *old(pos) <= tokens@.len(),
    ensures
        match r {
            Ok(()) => spec_parse_table_name(tokens.deep_view(), *old(pos) as int) == Some(
                (final(table_name)@, *final(pos) as int),
            ) && *old(pos) < *final(pos) <= tokens@.len(),
            Err(e) => spec_parse_table_name(tokens.deep_view(), *old(pos) as int) is None
                && e is InvalidSyntax,
        },
{
    if *pos < tokens.len() {
        let name: Option<String> = match &tokens[*pos] {
            Token::Identifier(n) => Some(n.clone()),
            Token::StringLiteral(n) => Some(n.clone()),
            _ => None,
        };
        *pos += 1;
        if let Some(n) = name {
            *table_name = n;
            return Ok(());
        }
    }
    Err(CustomError::invalid_syntax(message))
}

/// Checks `INTO` and reads the table name that follows it.
pub fn parse_insert_into(tokens: &Vec<Token>, pos: &mut usize, table_name: &mut String) -> (r:
    Result<(), CustomError>)
    requires
        *old(pos) <= tokens@.len(),
    ensures
        match r {
            Ok(()) => spec_parse_insert_into(tokens.deep_view(), *old(pos) as int) == Some(
                (final(table_name)@, *final(pos) as int),
            ) && *old(pos) < *final(pos) <= tokens@.len(),
            Err(e) => spec_parse_insert_into(tokens.deep_view(), *old(pos) as int) is None
                && e is InvalidSyntax,
        },
{
    let into_here = *pos < tokens.len() && match &tokens[*pos] {
        Token::Keyword(k) => str_eq_str(k.as_str(), "INTO"),
        _ => false,
    };
    if !into_here {
        if *pos < tokens.len() {
            *pos += 1;
        }
        return Err(CustomError::invalid_syntax("Expected INTO after INSERT"));
    }
    *pos += 1;
    parse_table_name_into(tokens, pos, table_name, "Expected table name after INTO")
}

/// Parses the parenthesized column list of an INSERT, appending the names
/// to `columns`, as [`spec_parse_insert_columns`] defines it.
pub fn parse_insert_into_columns(
    columns: &mut Vec<String>,
    tokens: &Vec<Token>,
    pos: &mut usize,
) -> (r: Result<(), CustomError>)
    requires
        *old(pos) <= tokens@.len(),
    ensures
        match r {
            Ok(()) => *old(pos) < tokens@.len() && tokens.deep_view()[*old(pos) as int]
                == TokenModel::Symbol('(') && spec_parse_insert_columns(
                tokens.deep_view(),
                *old(pos) + 1,
                old(columns).deep_view(),
            ) == Some((final(columns).deep_view(), *final(pos) as int)) && *old(pos) < *final(pos)
                <= tokens@.len(),
            Err(e) => (*old(pos) >= tokens@.len() || tokens.deep_view()[*old(pos) as int]
                != TokenModel::Symbol('(') || spec_parse_insert_columns(
                tokens.deep_view(),
                *old(pos) + 1,
                old(columns).deep_view(),
            ) is None) && e is InvalidSyntax,
        },
{
    let ghost i0 = *old(pos) as int;
    let ghost cols0 = old(columns).deep_view();
    let open_here = *pos < tokens.len() && match &tokens[*pos] {
        Token::Symbol(c) => *c == '(',
        _ => false,
    };
    if !open_here {
        if *pos < tokens.len() {
            *pos += 1;
        }
        return Err(CustomError::invalid_syntax("Expected '(' after table name"));
    }
    *pos += 1;
    loop
        invariant
            i0 == *old(pos) as int,
            cols0 == old(columns).deep_view(),
            i0 < tokens@.len(),
            tokens.deep_view()[i0] == TokenModel::Symbol('('),
            i0 < *pos as int,
            *pos <= tokens@.len(),
            spec_parse_insert_columns(tokens.deep_view(), i0 + 1, cols0)
                == spec_parse_insert_columns(
                tokens.deep_view(),
                *pos as int,
                columns.deep_view(),
            ),
        decreases tokens@.len() - *pos,
    {
        if *pos >= tokens.len() {
            return Ok(());
        }
        let ghost pre = columns.deep_view();
        let name: Option<&String> = match &tokens[*pos] {
            Token::Identifier(n) => Some(n),
            Token::StringLiteral(n) => Some(n),
            _ => None,
        };
        if let Some(n) = name {
            let list_goes_on = *pos + 1 < tokens.len() && match &tokens[*pos + 1] {
                Token::Symbol(c) => *c == ')' || *c == ',',
                _ => false,
            };
            if !list_goes_on {
                return Err(CustomError::invalid_syntax("Expected ',' or ')' after column name"));
            }
            columns.push(n.clone());
            proof {
                assert(columns.deep_view() =~= pre.push(n@));
            }
            *pos += 1;
        } else {
            match &tokens[*pos] {
                Token::Symbol(c) => {
                    if *c == ',' {
                        let name_next = *pos + 1 < tokens.len() && match &tokens[*pos + 1] {
                            Token::Identifier(_) => true,
                            Token::StringLiteral(_) => true,
                            _ => false,
                        };
                        if !name_next {
                            return Err(
                                CustomError::invalid_syntax("Expected column name after ','"),
                            );
                        }
                        *pos += 1;
                    } else if *c == ')' {
                        *pos += 1;
                        return Ok(());
                    } else {
                        return Err(
                            CustomError::invalid_syntax("Expected column name or ')' after '('"),
                        );
                    }
                },
                _ => {
                    return Err(
                        CustomError::invalid_syntax("Expected column name or ')' after '('"),
                    );
                },
            }
        }
    }
}

/// Parses one VALUES tuple, appending its row map to `values`, as
/// [`spec_parse_insert_value`] defines it.
pub fn parse_insert_value(
    values: &mut Vec<ValueMap>,
    tokens: &Vec<Token>,
    pos: &mut usize,
    columns: &Vec<String>,
) -> (r: Result<(), CustomError>)
    requires
        *old(pos) <= tokens@.len(),
        forall|k: int| 0 <= k < old(values)@.len() ==> old(values)@[k].wf(),
    ensures
        match r {
            Ok(()) => spec_parse_insert_value(
                tokens.deep_view(),
                *old(pos) as int,
                columns.deep_view(),
                old(values).deep_view(),
            ) == Some((final(values).deep_view(), *final(pos) as int)) && *old(pos) <= *final(pos)
                <= tokens@.len() && (forall|k: int|
                0 <= k < final(values)@.len() ==> final(values)@[k].wf()),
            Err(e) => spec_parse_insert_value(
                tokens.deep_view(),
                *old(pos) as int,
                columns.deep_view(),
                old(values).deep_view(),
            ) is None && e is InvalidSyntax,
        },
{
    let ghost i0 = *old(pos) as int;
    let ghost vals0 = old(values).deep_view();
    if *pos >= tokens.len() {
        return Ok(());
    }
    let open_here = match &tokens[*pos] {
        Token::Symbol(c) => *c == '(',
        _ => false,
    };
    *pos += 1;
    if !open_here {
        return Ok(());
    }
    let mut row = ValueMap::new();
    let mut idx: usize = 0;
    loop
        invariant
            i0 == *old(pos) as int,
            vals0 == old(values).deep_view(),
            i0 < *pos as int,
            *pos <= tokens@.len(),
            idx <= columns@.len(),
            row.wf(),
            values.deep_view() == vals0,
            forall|k: int| 0 <= k < values@.len() ==> values@[k].wf(),
            spec_parse_insert_value(tokens.deep_view(), i0, columns.deep_view(), vals0)
                == spec_parse_insert_tuple(
                tokens.deep_view(),
                *pos as int,
                columns.deep_view(),
                row@,
                idx as int,
                vals0,
            ),
        decreases tokens@.len() - *pos,
    {
        if *pos >= tokens.len() {
            return Ok(());
        }
        let value: Option<&String> = match &tokens[*pos] {
            Token::IntegerLiteral(v) => Some(v),
            Token::StringLiteral(v) => Some(v),
            _ => None,
        };
        if let Some(v) = value {
            let tuple_goes_on = *pos + 1 < tokens.len() && match &tokens[*pos + 1] {
                Token::Symbol(c) => *c == ')' || *c == ',',
                _ => false,
            };
            if !tuple_goes_on {
                return Err(CustomError::invalid_syntax("Expected ',' or ')' after value"));
            }
            if idx >= columns.len() {
                return Err(CustomError::invalid_syntax("Too many values for columns"));
            }
            row.insert(columns[idx].clone(), v.clone());
            idx += 1;
            *pos += 1;
        } else {
            match &tokens[*pos] {
                Token::Symbol(c) => {
                    if *c == ',' {
                        let value_next = *pos + 1 < tokens.len() && match &tokens[*pos + 1] {
                            Token::IntegerLiteral(_) => true,
                            Token::StringLiteral(_) => true,
                            _ => false,
                        };
                        if !value_next {
                            return Err(CustomError::invalid_syntax("Expected value after ','"));
                        }
                        *pos += 1;
                    } else if *c == ')' {
                        let ghost pre = values.deep_view();
                        let ghost row_model = row@;
                        values.push(row);
                        proof {
                            assert(values.deep_view() =~= pre.push(row_model));
                        }
                        *pos += 1;
                        return Ok(());
                    } else {
                        return Err(
                            CustomError::invalid_syntax("Expected value or ')' after '('"),
                        );
                    }
                },
                _ => {
                    return Err(CustomError::invalid_syntax("Expected value or ')' after '('"));
                },
            }
        }
    }
}

/// Checks `VALUES` and parses the tuples that follow it, as
/// [`spec_parse_insert_values`] defines it.
pub fn parse_insert_values(
    values: &mut Vec<ValueMap>,
    tokens: &Vec<Token>,
    pos: &mut usize,
    columns: &Vec<String>,
) -> (r: Result<(), CustomError>)
    requires
        *old(pos) <= tokens@.len(),
        forall|k: int| 0 <= k < old(values)@.len() ==> old(values)@[k].wf(),
    ensures
        match r {
            Ok(()) => spec_parse_insert_values(
                tokens.deep_view(),
                *old(pos) as int,
                columns.deep_view(),
                old(values).deep_view(),
            ) == Some((final(values).deep_view(), *final(pos) as int)) && *old(pos) < *final(pos)
                <= tokens@.len() && (forall|k: int|
                0 <= k < final(values)@.len() ==> final(values)@[k].wf()),
            Err(e) => spec_parse_insert_values(
                tokens.deep_view(),
                *old(pos) as int,
                columns.deep_view(),
                old(values).deep_view(),
            ) is None && e is InvalidSyntax,
        },
{
    let ghost i0 = *old(pos) as int;
    let values_here = *pos < tokens.len() && match &tokens[*pos] {
        Token::Keyword(k) => str_eq_str(k.as_str(), "VALUES"),
        _ => false,
    };
    if !values_here {
        if *pos < tokens.len() {
            *pos += 1;
        }
        return Err(CustomError::invalid_syntax("Expected VALUES after column names"));
    }
    *pos += 1;
    parse_insert_value(values, tokens, pos, columns)?;
    loop
        invariant
            i0 == *old(pos) as int,
            i0 < *pos as int,
            *pos <= tokens@.len(),
            forall|k: int| 0 <= k < values@.len() ==> values@[k].wf(),
            spec_parse_insert_values(
                tokens.deep_view(),
                i0,
                columns.deep_view(),
                old(values).deep_view(),
            ) == spec_parse_insert_values_rest(
                tokens.deep_view(),
                *pos as int,
                columns.deep_view(),
                values.deep_view(),
            ),
        decreases tokens@.len() - *pos,
    {
        let comma_here = *pos < tokens.len() && match &tokens[*pos] {
            Token::Symbol(c) => *c == ',',
            _ => false,
        };
        if comma_here {
            *pos += 1;
            parse_insert_value(values, tokens, pos, columns)?;
        } else {
            return Ok(());
        }
    }
}

/// Checks the terminating `;` and that nothing follows it, as
/// [`spec_check_semicolon`] defines it.
pub fn check_ending_with_semicolon(tokens: &Vec<Token>, pos: &mut usize) -> (r: Result<
    (),
    CustomError,
>)
    requires
        *old(pos) <= tokens@.len(),
    ensures
        match r {
            Ok(()) => spec_check_semicolon(tokens.deep_view(), *old(pos) as int) == Some(
                *final(pos) as int,
            ),
            Err(e) => spec_check_semicolon(tokens.deep_view(), *old(pos) as int) is None
                && e is InvalidSyntax,
        },
{
    let semicolon_here = *pos < tokens.len() && match &tokens[*pos] {
        Token::Symbol(c) => *c == ';',
        _ => false,
    };
    if !semicolon_here {
        if *pos < tokens.len() {
            *pos += 1;
        }
        return Err(CustomError::invalid_syntax("Expected ';' at the end of the command"));
    }
    *pos += 1;
    if *pos < tokens.len() {
        return Err(CustomError::invalid_syntax("Tokens found after ';'"));
    }
    Ok(())
}

/// Parses a whole INSERT command:
/// `INSERT INTO <table> (<col>,+) VALUES (<val>,+) [, (<val>,+)]* ;`.
/// Appends the column names to `columns` and one row map per VALUES tuple
/// to `values`, exactly as [`spec_parse_insert`] describes; on a syntax
/// error the spec has no result.
pub fn parse_insert(
    tokens: &Vec<Token>,
    table_name: &mut String,
    columns: &mut Vec<String>,
    values: &mut Vec<ValueMap>,
) -> (r: Result<(), CustomError>)
    requires
        forall|k: int| 0 <= k < old(values)@.len() ==> old(values)@[k].wf(),
    ensures
        match r {
            Ok(()) => spec_parse_insert(
                tokens.deep_view(),
                old(columns).deep_view(),
                old(values).deep_view(),
            ) == Some(
                (final(table_name)@, final(columns).deep_view(), final(values).deep_view()),
            ) && (forall|k: int| 0 <= k < final(values)@.len() ==> final(values)@[k].wf()),
            Err(e) => spec_parse_insert(
                tokens.deep_view(),
                old(columns).deep_view(),
                old(values).deep_view(),
            ) is None && e is InvalidSyntax,
        },
{
    if tokens.len() == 0 {
        return Err(CustomError::invalid_syntax("Expected INTO after INSERT"));
    }
    let mut pos: usize = 1;
    parse_insert_into(tokens, &mut pos, table_name)?;
    parse_insert_into_columns(columns, tokens, &mut pos)?;
    parse_insert_values(values, tokens, &mut pos, columns)?;
    check_ending_with_semicolon(tokens, &mut pos)?;
    Ok(())
}

} // verus!

verus! {

/// Parses one `column = value` assignment and stores it, as
/// [`spec_parse_set_value`] defines it.
pub fn parse_update_set_value(
    set_values: &mut ValueMap,
    tokens: &Vec<Token>,
    pos: &mut usize,
) -> (r: Result<(), CustomError>)
    requires
        *old(pos) <= tokens@.len(),
        old(set_values).wf(),
    ensures
        match r {
            Ok(()) => match spec_parse_set_value(tokens.deep_view(), *old(pos) as int) {
                Some((pair, j)) => *final(pos) == j
                    && final(set_values).entry_seq() == entries_insert(
                    old(set_values).entry_seq(),
                    pair.0,
                    pair.1,
                ) && final(set_values).wf() && *old(pos) < *final(pos) <= tokens@.len(),
                None => false,
            },
            Err(e) => spec_parse_set_value(tokens.deep_view(), *old(pos) as int) is None
                && e is InvalidSyntax,
        },
{
    let column: Option<String> = if *pos < tokens.len() {
        match &tokens[*pos] {
            Token::Identifier(n) => Some(n.clone()),
            _ => None,
        }
    } else {
        None
    };
    if *pos < tokens.len() {
        *pos += 1;
    }
    let column = match column {
        Some(c) => c,
        None => {
            return Err(
                CustomError::invalid_syntax("Expected column name to set value after SET"),
            );
        },
    };
    let equals_here = *pos < tokens.len() && match &tokens[*pos] {
        Token::ComparisonOperator(op) => str_eq_str(op.as_str(), "="),
        _ => false,
    };
    if !equals_here {
        if *pos < tokens.len() {
            *pos += 1;
        }
        return Err(CustomError::invalid_syntax("Expected '=' after column name"));
    }
    *pos += 1;
    let value: Option<String> = if *pos < tokens.len() {
        match &tokens[*pos] {
            Token::IntegerLiteral(v) => Some(v.clone()),
            Token::StringLiteral(v) => Some(v.clone()),
            _ => None,
        }
    } else {
        None
    };
    if *pos < tokens.len() {
        *pos += 1;
    }
    let value = match value {
        Some(v) => v,
        None => {
            return Err(CustomError::invalid_syntax("Expected value after '='"));
        },
    };
    set_values.insert(column, value);
    Ok(())
}

/// Checks `SET` and parses the assignments that follow it, as
/// [`spec_parse_set_values`] defines it: the map ends up holding every
/// parsed pair applied in source order.
pub fn parse_update_set_values(
    set_values: &mut ValueMap,
    tokens: &Vec<Token>,
    pos: &mut usize,
) -> (r: Result<(), CustomError>)
    requires
        *old(pos) <= tokens@.len(),
        old(set_values).wf(),
    ensures
        match r {
            Ok(()) => match spec_parse_set_values(tokens.deep_view(), *old(pos) as int) {
                Some((pairs, j)) => *final(pos) == j && final(set_values).entry_seq()
                    == fold_entries(old(set_values).entry_seq(), pairs) && final(set_values).wf()
                    && *old(pos) < *final(pos) <= tokens@.len(),
                None => false,
            },
            Err(e) => spec_parse_set_values(tokens.deep_view(), *old(pos) as int) is None
                && e is InvalidSyntax,
        },
{
    let ghost i0 = *old(pos) as int;
    let ghost es0 = old(set_values).entry_seq();
    let set_here = *pos < tokens.len() && match &tokens[*pos] {
        Token::Keyword(k) => str_eq_str(k.as_str(), "SET"),
        _ => false,
    };
    if !set_here {
        if *pos < tokens.len() {
            *pos += 1;
        }
        return Err(CustomError::invalid_syntax("Expected SET after table name"));
    }
    *pos += 1;
    parse_update_set_value(set_values, tokens, pos)?;
    let ghost first_pair = spec_parse_set_value(tokens.deep_view(), i0 + 1).unwrap().0;
    let ghost mut pairs: Seq<(Seq<char>, Seq<char>)> = seq![first_pair];
    proof {
        reveal_with_fuel(fold_entries, 2);
        assert(pairs.drop_first() =~= Seq::<(Seq<char>, Seq<char>)>::empty());
        assert(fold_entries(es0, pairs) == entries_insert(es0, first_pair.0, first_pair.1));
    }
    loop
        invariant
            i0 == *old(pos) as int,
            es0 == old(set_values).entry_seq(),
            i0 < *pos as int,
            *pos <= tokens@.len(),
            set_values.wf(),
            set_values.entry_seq() == fold_entries(es0, pairs),
            spec_parse_set_values(tokens.deep_view(), i0) == spec_parse_set_values_rest(
                tokens.deep_view(),
                *pos as int,
                pairs,
            ),
        decreases tokens@.len() - *pos,
    {
        let comma_here = *pos < tokens.len() && match &tokens[*pos] {
            Token::Symbol(c) => *c == ',',
            _ => false,
        };
        if comma_here {
            let ghost pos_before = *pos as int;
            *pos += 1;
            parse_update_set_value(set_values, tokens, pos)?;
            proof {
                let pair = spec_parse_set_value(tokens.deep_view(), pos_before + 1).unwrap().0;
                lemma_fold_entries_push(es0, pairs, pair);
                pairs = pairs.push(pair);
            }
        } else {
            return Ok(());
        }
    }
}

/// Parses the optional WHERE clause into `condition`, as
/// [`spec_parse_condition`] defines it; without WHERE the condition is
/// left as the caller set it.
pub fn parse_condition(condition: &mut Expression, tokens: &Vec<Token>, pos: &mut usize) -> (r:
    Result<(), CustomError>)
    requires
        *old(pos) <= tokens@.len(),
    ensures
        match r {
            Ok(()) => match spec_parse_condition(tokens.deep_view(), *old(pos) as int) {
                Some((c, j)) => *final(pos) == j && *old(pos) <= *final(pos) <= tokens@.len()
                    && final(condition)@ == (match c {
                    Some(cm) => cm,
                    None => old(condition)@,
                }),
                None => false,
            },
            Err(e) => spec_parse_condition(tokens.deep_view(), *old(pos) as int) is None
                && e is InvalidSyntax,
        },
{
    let where_here = *pos < tokens.len() && match &tokens[*pos] {
        Token::Keyword(k) => str_eq_str(k.as_str(), "WHERE"),
        _ => false,
    };
    if where_here {
        *pos += 1;
        *condition = parse_expression(tokens, pos)?;
    }
    Ok(())
}

/// Parses a whole UPDATE command:
/// `UPDATE <table> SET <col> = <val> [, <col> = <val>]* [WHERE <expr>] ;`.
/// Exactly as [`spec_parse_update`] describes: the assignments are applied
/// to `set_values` in source order, and an absent WHERE leaves `condition`
/// untouched.
pub fn parse_update(
    tokens: &Vec<Token>,
    table_name: &mut String,
    set_values: &mut ValueMap,
    condition: &mut Expression,
) -> (r: Result<(), CustomError>)
    requires
        old(set_values).wf(),
    ensures
        match r {
            Ok(()) => match spec_parse_update(tokens.deep_view()) {
                Some((table, pairs, cond)) => final(table_name)@ == table
                    && final(set_values).entry_seq() == fold_entries(
                    old(set_values).entry_seq(),
                    pairs,
                ) && final(set_values).wf() && final(condition)@ == (match cond {
                    Some(cm) => cm,
                    None => old(condition)@,
                }),
                None => false,
            },
            Err(e) => spec_parse_update(tokens.deep_view()) is None && e is InvalidSyntax,
        },
{
    if tokens.len() == 0 {
        return Err(CustomError::invalid_syntax("Expected table name after UPDATE"));
    }
    let mut pos: usize = 1;
    parse_table_name_into(tokens, &mut pos, table_name, "Expected table name after UPDATE")?;
    parse_update_set_values(set_values, tokens, &mut pos)?;
    parse_condition(condition, tokens, &mut pos)?;
    check_ending_with_semicolon(tokens, &mut pos)?;
    Ok(())
}

/// Parses a whole DELETE command: `DELETE <table> [WHERE <expr>] ;`.
/// Exactly as [`spec_parse_delete`] describes; an absent WHERE leaves
/// `condition` untouched, which makes the command delete every row only
/// where the caller seeded the condition accordingly.
pub fn parse_delete(
    tokens: &Vec<Token>,
    table_name: &mut String,
    condition: &mut Expression,
) -> (r: Result<(), CustomError>)
    ensures
        match r {
            Ok(()) => match spec_parse_delete(tokens.deep_view()) {
                Some((table, cond)) => final(table_name)@ == table && final(condition)@ == (
                match cond {
                    Some(cm) => cm,
                    None => old(condition)@,
                }),
                None => false,
            },
            Err(e) => spec_parse_delete(tokens.deep_view()) is None && e is InvalidSyntax,
        },
{
    if tokens.len() == 0 {
        return Err(CustomError::invalid_syntax("Expected table name after DELETE"));
    }
    let mut pos: usize = 1;
    parse_table_name_into(tokens, &mut pos, table_name, "Expected table name after DELETE")?;
    parse_condition(condition, tokens, &mut pos)?;
    check_ending_with_semicolon(tokens, &mut pos)?;
    Ok(())
}

/// Parses the projection list of a SELECT, appending the names to
/// `columns`, as [`spec_parse_select_projection`] defines it; `*` selects
/// all columns by leaving the list as it was.
pub fn parse_select_columns(columns: &mut Vec<String>, tokens: &Vec<Token>, pos: &mut usize) -> (r:
    Result<(), CustomError>)
    requires
        *old(pos) <= tokens@.len(),
    ensures
        match r {
            Ok(()) => spec_parse_select_projection(
                tokens.deep_view(),
                *old(pos) as int,
                old(columns).deep_view(),
            ) == Some((final(columns).deep_view(), *final(pos) as int)) && *old(pos) <= *final(pos)
                <= tokens@.len(),
            Err(e) => spec_parse_select_projection(
                tokens.deep_view(),
                *old(pos) as int,
                old(columns).deep_view(),
            ) is None && e is InvalidSyntax,
        },
{
    let ghost i0 = *old(pos) as int;
    let ghost cols0 = old(columns).deep_view();
    let star_here = *pos < tokens.len() && match &tokens[*pos] {
        Token::Symbol(c) => *c == '*',
        _ => false,
    };
    if star_here {
        *pos += 1;
        return Ok(());
    }
    loop
        invariant
            i0 == *old(pos) as int,
            cols0 == old(columns).deep_view(),
            i0 <= *pos as int,
            *pos <= tokens@.len(),
            spec_parse_select_projection(tokens.deep_view(), i0, cols0)
                == spec_parse_select_columns(tokens.deep_view(), *pos as int, columns.deep_view()),
        decreases tokens@.len() - *pos,
    {
        if *pos >= tokens.len() {
            return Ok(());
        }
        let ghost pre = columns.deep_view();
        match &tokens[*pos] {
            Token::Identifier(name) => {
                columns.push(name.clone());
                proof {
                    assert(columns.deep_view() =~= pre.push(name@));
                }
                *pos += 1;
            },
            Token::Keyword(_) => {
                return Ok(());
            },
            Token::Symbol(c) => {
                if *c == ',' {
                    let name_next = *pos + 1 < tokens.len() && match &tokens[*pos + 1] {
                        Token::Identifier(_) => true,
                        _ => false,
                    };
                    if !name_next {
                        return Err(CustomError::invalid_syntax("Expected column name after ','"));
                    }
                    *pos += 1;
                } else {
                    return Err(
                        CustomError::invalid_syntax(
                            "Expected column name or FROM <tablename> after column names",
                        ),
                    );
                }
            },
            _ => {
                return Err(
                    CustomError::invalid_syntax(
                        "Expected column name or FROM <tablename> after column names",
                    ),
                );
            },
        }
    }
}

/// Checks `FROM` and reads the table name that follows it.
pub fn parse_select_from(table_name: &mut String, tokens: &Vec<Token>, pos: &mut usize) -> (r:
    Result<(), CustomError>)
    requires
        *old(pos) <= tokens@.len(),
    ensures
        match r {
            Ok(()) => *old(pos) < tokens@.len() && tokens.deep_view()[*old(pos) as int]
                == TokenModel::Keyword("FROM"@) && spec_parse_table_name(
                tokens.deep_view(),
                *old(pos) + 1,
            ) == Some((final(table_name)@, *final(pos) as int)) && *old(pos) < *final(pos)
                <= tokens@.len(),
            Err(e) => (*old(pos) >= tokens@.len() || tokens.deep_view()[*old(pos) as int]
                != TokenModel::Keyword("FROM"@) || spec_parse_table_name(
                tokens.deep_view(),
                *old(pos) + 1,
            ) is None) && e is InvalidSyntax,
        },
{
    let from_here = *pos < tokens.len() && match &tokens[*pos] {
        Token::Keyword(k) => str_eq_str(k.as_str(), "FROM"),
        _ => false,
    };
    if !from_here {
        if *pos < tokens.len() {
            *pos += 1;
        }
        return Err(CustomError::invalid_syntax("Expected FROM after column names"));
    }
    *pos += 1;
    parse_table_name_into(tokens, pos, table_name, "Expected table name after FROM")
}

/// Parses one ORDER BY key and appends it, as
/// [`spec_parse_order_by_column`] defines it.
pub fn parse_order_by_column(
    order_by: &mut Vec<(String, String)>,
    tokens: &Vec<Token>,
    pos: &mut usize,
) -> (r: Result<(), CustomError>)
    requires
        *old(pos) <= tokens@.len(),
    ensures
        match r {
            Ok(()) => match spec_parse_order_by_column(tokens.deep_view(), *old(pos) as int) {
                Some((pair, j)) => *final(pos) == j && order_by_view(final(order_by)@)
                    == order_by_view(old(order_by)@).push(pair) && *old(pos) < *final(pos)
                    <= tokens@.len(),
                None => false,
            },
            Err(e) => spec_parse_order_by_column(tokens.deep_view(), *old(pos) as int) is None
                && e is InvalidSyntax,
        },
{
    let ghost pre = order_by_view(old(order_by)@);
    let column: Option<String> = if *pos < tokens.len() {
        match &tokens[*pos] {
            Token::Identifier(n) => Some(n.clone()),
            _ => None,
        }
    } else {
        None
    };
    if *pos < tokens.len() {
        *pos += 1;
    }
    let column = match column {
        Some(c) => c,
        None => {
            return Err(CustomError::invalid_syntax("Expected column name after ORDER BY or ','"));
        },
    };
    let keyword_next: Option<&String> = if *pos < tokens.len() {
        match &tokens[*pos] {
            Token::Keyword(k) => Some(k),
            _ => None,
        }
    } else {
        None
    };
    if let Some(k) = keyword_next {
        if str_eq_str(k.as_str(), "DESC") {
            *pos += 1;
            let direction = String::from_str("DESC");
            order_by.push((column, direction));
            proof {
                assert(order_by_view(order_by@) =~= pre.push(
                    (order_by@.last().0@, order_by@.last().1@),
                ));
            }
            Ok(())
        } else {
            Err(CustomError::invalid_syntax("Expected DESC or nothing after column name"))
        }
    } else {
        let direction = String::from_str("ASC");
        order_by.push((column, direction));
        proof {
            assert(order_by_view(order_by@) =~= pre.push(
                (order_by@.last().0@, order_by@.last().1@),
            ));
        }
        Ok(())
    }
}

/// Parses the optional ORDER BY clause, appending each key and its
/// direction, as [`spec_parse_order_by`] defines it.
pub fn parse_order_by(
    order_by: &mut Vec<(String, String)>,
    tokens: &Vec<Token>,
    pos: &mut usize,
) -> (r: Result<(), CustomError>)
    requires
        *old(pos) <= tokens@.len(),
    ensures
        match r {
            Ok(()) => spec_parse_order_by(
                tokens.deep_view(),
                *old(pos) as int,
                order_by_view(old(order_by)@),
            ) == Some((order_by_view(final(order_by)@), *final(pos) as int)) && *old(pos)
                <= *final(pos) <= tokens@.len(),
            Err(e) => spec_parse_order_by(
                tokens.deep_view(),
                *old(pos) as int,
                order_by_view(old(order_by)@),
            ) is None && e is InvalidSyntax,
        },
{
    let ghost i0 = *old(pos) as int;
    let ghost ob0 = order_by_view(old(order_by)@);
    let order_here = *pos < tokens.len() && match &tokens[*pos] {
        Token::Keyword(k) => str_eq_str(k.as_str(), "ORDER"),
        _ => false,
    };
    if !order_here {
        return Ok(());
    }
    *pos += 1;
    let by_here = *pos < tokens.len() && match &tokens[*pos] {
        Token::Keyword(k) => str_eq_str(k.as_str(), "BY"),
        _ => false,
    };
    if !by_here {
        if *pos < tokens.len() {
            *pos += 1;
        }
        return Err(CustomError::invalid_syntax("Expected BY after ORDER"));
    }
    *pos += 1;
    parse_order_by_column(order_by, tokens, pos)?;
    loop
        invariant
            i0 == *old(pos) as int,
            ob0 == order_by_view(old(order_by)@),
            i0 < *pos as int,
            *pos <= tokens@.len(),
            spec_parse_order_by(tokens.deep_view(), i0, ob0) == spec_parse_order_by_rest(
                tokens.deep_view(),
                *pos as int,
                order_by_view(order_by@),
            ),
        decreases tokens@.len() - *pos,
    {
        let comma_here = *pos < tokens.len() && match &tokens[*pos] {
            Token::Symbol(c) => *c == ',',
            _ => false,
        };
        if comma_here {
            *pos += 1;
            parse_order_by_column(order_by, tokens, pos)?;
        } else {
            return Ok(());
        }
    }
}

/// Parses a whole SELECT command:
/// `SELECT (<col>,+ | *) FROM <table> [WHERE <expr>] [ORDER BY <col>
/// [DESC],+] ;`.  Exactly as [`spec_parse_select`] describes: the
/// projection and ORDER BY keys are appended to the caller's vectors, and
/// an absent WHERE leaves `condition` untouched.
pub fn parse_select(
    tokens: &Vec<Token>,
    columns: &mut Vec<String>,
    table_name: &mut String,
    condition: &mut Expression,
    order_by: &mut Vec<(String, String)>,
) -> (r: Result<(), CustomError>)
    ensures
        match r {
            Ok(()) => match spec_parse_select(
                tokens.deep_view(),
                old(columns).deep_view(),
                order_by_view(old(order_by)@),
            ) {
                Some((cols, table, cond, order)) => final(columns).deep_view() == cols
                    && final(table_name)@ == table && final(condition)@ == (match cond {
                    Some(cm) => cm,
                    None => old(condition)@,
                }) && order_by_view(final(order_by)@) == order,
                None => false,
            },
            Err(e) => spec_parse_select(
                tokens.deep_view(),
                old(columns).deep_view(),
                order_by_view(old(order_by)@),
            ) is None && e is InvalidSyntax,
        },
{
    if tokens.len() == 0 {
        return Err(CustomError::invalid_syntax("Expected FROM after column names"));
    }
    let mut pos: usize = 1;
    parse_select_columns(columns, tokens, &mut pos)?;
    parse_select_from(table_name, tokens, &mut pos)?;
    parse_condition(condition, tokens, &mut pos)?;
    parse_order_by(order_by, tokens, &mut pos)?;
    check_ending_with_semicolon(tokens, &mut pos)?;
    Ok(())
}

} // verus!
