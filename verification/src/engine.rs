//! The execution engine, on plain values: the lines of a table file go in,
//! the lines to write back or to print come out.  Opening, appending,
//! renaming and printing stay with the caller; every decision about what
//! the lines mean is made — and specified — here.

use crate::command_parser::order_by_view;
use crate::command_parser::parse_delete;
use crate::command_parser::parse_insert;
use crate::command_parser::parse_select;
use crate::command_parser::parse_update;
use crate::command_parser::spec_parse_delete;
use crate::command_parser::spec_parse_insert;
use crate::command_parser::spec_parse_select;
use crate::command_parser::spec_parse_update;
use crate::error::CustomError;
use crate::error::ErrorKind;
use crate::expression::spec_eval;
use crate::expression::Expression;
use crate::expression::ExpressionModel;
use crate::row::fold_updates;
use crate::row::spec_cmp_values;
use crate::row::spec_render;
use crate::row::updates_ok;
use crate::row::Row;
use crate::row_parser::parse_columns;
use crate::row_parser::parse_row;
use crate::row_parser::spec_parse_columns;
use crate::row_parser::spec_zip_map;
use crate::text::contains_string;
use crate::text::lemma_vec_deep_view;
use crate::text::spec_split;
use crate::text::split_str;
use crate::text::str_eq_str;
use crate::tokenizer::spec_tokenize;
use crate::tokenizer::tokenize;
use crate::tokenizer::Token;
use crate::tokenizer::TokenModel;
use crate::value_map::ValueMap;
use vstd::prelude::*;
use vstd::string::StringExecFns;

verus! {

/// Puts already-produced lines in front of a remaining result,
/// propagating failure.
pub open spec fn with_lines(
    pre: Seq<Seq<char>>,
    rest: Result<Seq<Seq<char>>, ErrorKind>,
) -> Result<Seq<Seq<char>>, ErrorKind> {
    match rest {
        Ok(ls) => Ok(pre + ls),
        Err(e) => Err(e),
    }
}

pub proof fn lemma_with_lines_group(
    pre: Seq<Seq<char>>,
    grp: Seq<Seq<char>>,
    rest: Result<Seq<Seq<char>>, ErrorKind>,
)
    ensures
        with_lines(
            pre,
            (match rest {
                Ok(ls) => Ok(grp + ls),
                Err(e) => Err(e),
            }),
        ) == with_lines(pre + grp, rest),
{
    match rest {
        Ok(ls) => {
            assert(pre + (grp + ls) =~= (pre + grp) + ls);
        },
        Err(_) => {},
    }
}

pub proof fn lemma_with_lines_empty(pre: Seq<Seq<char>>)
    ensures
        with_lines(pre, Ok(Seq::<Seq<char>>::empty())) == Ok::<_, ErrorKind>(pre),
{
    assert(pre + Seq::<Seq<char>>::empty() =~= pre);
}

/// What UPDATE does to one data line: parse it against the header's
/// columns, evaluate the condition, apply the assignments where it holds,
/// and render the row back — or fail with the kind the step fails with.
pub open spec fn spec_update_line(
    cols: Seq<Seq<char>>,
    cond: ExpressionModel,
    entries: Seq<(Seq<char>, Seq<char>)>,
    line: Seq<char>,
) -> Result<Seq<char>, ErrorKind> {
    let fields = spec_split(line, ',');
    if fields.len() != cols.len() {
        Err(ErrorKind::InvalidTable)
    } else {
        let vals = spec_zip_map(cols, fields);
        match spec_eval(cond, vals) {
            None => Err(ErrorKind::GenericError),
            Some(b) => if !b {
                Ok(spec_render(cols, vals))
            } else if updates_ok(vals, entries) {
                Ok(spec_render(cols, fold_updates(vals, entries)))
            } else {
                Err(ErrorKind::InvalidColumn)
            },
        }
    }
}

/// The data lines from index `k` onward, each updated.
pub open spec fn spec_update_rows(
    lines: Seq<Seq<char>>,
    k: int,
    cols: Seq<Seq<char>>,
    cond: ExpressionModel,
    entries: Seq<(Seq<char>, Seq<char>)>,
) -> Result<Seq<Seq<char>>, ErrorKind>
    decreases lines.len() - k,
    when 0 <= k <= lines.len()
{
    if k >= lines.len() {
        Ok(Seq::empty())
    } else {
        match spec_update_line(cols, cond, entries, lines[k]) {
            Ok(l) => match spec_update_rows(lines, k + 1, cols, cond, entries) {
                Ok(rest) => Ok(seq![l] + rest),
                Err(e) => Err(e),
            },
            Err(e) => Err(e),
        }
    }
}

/// What UPDATE does to a whole table: the header is kept as it is, every
/// data line is updated; the first failing line fails the whole command.
/// An empty table yields an empty table.
pub open spec fn spec_update_table(
    lines: Seq<Seq<char>>,
    cond: ExpressionModel,
    entries: Seq<(Seq<char>, Seq<char>)>,
) -> Result<Seq<Seq<char>>, ErrorKind> {
    if lines.len() == 0 {
        Ok(Seq::empty())
    } else {
        let cols = spec_split(lines[0], ',');
        match spec_update_rows(lines, 1, cols, cond, entries) {
            Ok(rest) => Ok(seq![lines[0] + seq!['\n']] + rest),
            Err(e) => Err(e),
        }
    }
}

/// What DELETE does to one data line: the row is kept (rendered) exactly
/// when the condition is false.
pub open spec fn spec_delete_line(
    cols: Seq<Seq<char>>,
    cond: ExpressionModel,
    line: Seq<char>,
) -> Result<Seq<Seq<char>>, ErrorKind> {
    let fields = spec_split(line, ',');
    if fields.len() != cols.len() {
        Err(ErrorKind::InvalidTable)
    } else {
        let vals = spec_zip_map(cols, fields);
        match spec_eval(cond, vals) {
            None => Err(ErrorKind::GenericError),
            Some(b) => if b {
                Ok(Seq::empty())
            } else {
                Ok(seq![spec_render(cols, vals)])
            },
        }
    }
}

/// The data lines from index `k` onward, filtered by DELETE.
pub open spec fn spec_delete_rows(
    lines: Seq<Seq<char>>,
    k: int,
    cols: Seq<Seq<char>>,
    cond: ExpressionModel,
) -> Result<Seq<Seq<char>>, ErrorKind>
    decreases lines.len() - k,
    when 0 <= k <= lines.len()
{
    if k >= lines.len() {
        Ok(Seq::empty())
    } else {
        match spec_delete_line(cols, cond, lines[k]) {
            Ok(grp) => match spec_delete_rows(lines, k + 1, cols, cond) {
                Ok(rest) => Ok(grp + rest),
                Err(e) => Err(e),
            },
            Err(e) => Err(e),
        }
    }
}

/// What DELETE does to a whole table: header kept, matching rows removed.
pub open spec fn spec_delete_table(lines: Seq<Seq<char>>, cond: ExpressionModel) -> Result<
    Seq<Seq<char>>,
    ErrorKind,
> {
    if lines.len() == 0 {
        Ok(Seq::empty())
    } else {
        let cols = spec_split(lines[0], ',');
        match spec_delete_rows(lines, 1, cols, cond) {
            Ok(rest) => Ok(seq![lines[0] + seq!['\n']] + rest),
            Err(e) => Err(e),
        }
    }
}

/// Streams a table through UPDATE, as [`spec_update_table`] defines it:
/// the header line is copied, each data line is parsed, updated where the
/// condition holds, and rendered back.
pub fn update_table(
    lines: &Vec<String>,
    condition: &Expression,
    update_values: &ValueMap,
) -> (r: Result<Vec<String>, CustomError>)
    requires
        update_values.wf(),
    ensures
        match r {
            Ok(out) => spec_update_table(
                lines.deep_view(),
                condition@,
                update_values.entry_seq(),
            ) == Ok::<_, ErrorKind>(out.deep_view()),
            Err(e) => spec_update_table(lines.deep_view(), condition@, update_values.entry_seq())
                == Err::<Seq<Seq<char>>, _>(e.spec_kind()),
        },
{
    proof {
        lemma_vec_deep_view(lines);
    }
    let mut out: Vec<String> = Vec::new();
    if lines.len() == 0 {
        proof {
            assert(out.deep_view() =~= Seq::<Seq<char>>::empty());
        }
        return Ok(out);
    }
    let columns = split_str(lines[0].as_str(), ',');
    let mut header = lines[0].clone();
    header.append("\n");
    out.push(header);
    proof {
        reveal_strlit("\n");
        assert("\n"@ =~= seq!['\n']);
        assert(out.deep_view() =~= seq![lines.deep_view()[0] + seq!['\n']]);
    }
    let mut k: usize = 1;
    loop
        invariant
            update_values.wf(),
            lines.deep_view().len() == lines@.len(),
            forall|j: int| 0 <= j < lines@.len() ==> lines.deep_view()[j] == lines@[j]@,
            lines@.len() > 0,
            columns.deep_view() == spec_split(lines.deep_view()[0], ','),
            columns.deep_view().len() >= 1,
            1 <= k <= lines@.len(),
            spec_update_table(lines.deep_view(), condition@, update_values.entry_seq())
                == with_lines(
                out.deep_view(),
                spec_update_rows(
                    lines.deep_view(),
                    k as int,
                    columns.deep_view(),
                    condition@,
                    update_values.entry_seq(),
                ),
            ),
        decreases lines@.len() - k,
    {
        if k >= lines.len() {
            proof {
                lemma_with_lines_empty(out.deep_view());
            }
            return Ok(out);
        }
        let mut row = parse_row(&columns, lines[k].as_str())?;
        row.update_row(update_values, condition)?;
        let rendered = row.write_row();
        let ghost pre = out.deep_view();
        let ghost linev = rendered@;
        out.push(rendered);
        proof {
            assert(out.deep_view() =~= pre.push(linev));
            assert(pre.push(linev) =~= pre + seq![linev]);
            lemma_with_lines_group(
                pre,
                seq![linev],
                spec_update_rows(
                    lines.deep_view(),
                    k + 1,
                    columns.deep_view(),
                    condition@,
                    update_values.entry_seq(),
                ),
            );
        }
        k += 1;
    }
}

/// Streams a table through DELETE, as [`spec_delete_table`] defines it:
/// the header line is copied and each data line is kept exactly when the
/// condition is false of it.
pub fn delete_rows_table(lines: &Vec<String>, condition: &Expression) -> (r: Result<
    Vec<String>,
    CustomError,
>)
    ensures
        match r {
            Ok(out) => spec_delete_table(lines.deep_view(), condition@) == Ok::<_, ErrorKind>(
                out.deep_view(),
            ),
            Err(e) => spec_delete_table(lines.deep_view(), condition@) == Err::<
                Seq<Seq<char>>,
                _,
            >(e.spec_kind()),
        },
{
    proof {
        lemma_vec_deep_view(lines);
    }
    let mut out: Vec<String> = Vec::new();
    if lines.len() == 0 {
        proof {
            assert(out.deep_view() =~= Seq::<Seq<char>>::empty());
        }
        return Ok(out);
    }
    let columns = split_str(lines[0].as_str(), ',');
    let mut header = lines[0].clone();
    header.append("\n");
    out.push(header);
    proof {
        reveal_strlit("\n");
        assert("\n"@ =~= seq!['\n']);
        assert(out.deep_view() =~= seq![lines.deep_view()[0] + seq!['\n']]);
    }
    let mut k: usize = 1;
    loop
        invariant
            lines.deep_view().len() == lines@.len(),
            forall|j: int| 0 <= j < lines@.len() ==> lines.deep_view()[j] == lines@[j]@,
            lines@.len() > 0,
            columns.deep_view() == spec_split(lines.deep_view()[0], ','),
            columns.deep_view().len() >= 1,
            1 <= k <= lines@.len(),
            spec_delete_table(lines.deep_view(), condition@) == with_lines(
                out.deep_view(),
                spec_delete_rows(lines.deep_view(), k as int, columns.deep_view(), condition@),
            ),
        decreases lines@.len() - k,
    {
        if k >= lines.len() {
            proof {
                lemma_with_lines_empty(out.deep_view());
            }
            return Ok(out);
        }
        let row = parse_row(&columns, lines[k].as_str())?;
        let keep = row.delete_row(condition)?;
        let ghost rest = spec_delete_rows(
            lines.deep_view(),
            k + 1,
            columns.deep_view(),
            condition@,
        );
        if keep {
            let rendered = row.write_row();
            let ghost pre = out.deep_view();
            let ghost linev = rendered@;
            out.push(rendered);
            proof {
                assert(out.deep_view() =~= pre.push(linev));
                assert(pre.push(linev) =~= pre + seq![linev]);
                lemma_with_lines_group(pre, seq![linev], rest);
            }
        } else {
            proof {
                lemma_with_lines_group(out.deep_view(), Seq::empty(), rest);
                assert(out.deep_view() + Seq::<Seq<char>>::empty() =~= out.deep_view());
            }
        }
        k += 1;
    }
}

} // verus!

verus! {

/// Whether every requested column occurs among the table's columns.
pub open spec fn spec_cols_ok(req: Seq<Seq<char>>, full: Seq<Seq<char>>) -> bool {
    forall|i: int| 0 <= i < req.len() ==> full.contains(req[i])
}

/// What SELECT prints for one data line: nothing where the condition is
/// false, the requested columns' values where it is true.
pub open spec fn spec_select_line(
    full: Seq<Seq<char>>,
    req: Seq<Seq<char>>,
    cond: ExpressionModel,
    line: Seq<char>,
) -> Result<Seq<Seq<char>>, ErrorKind> {
    let fields = spec_split(line, ',');
    if fields.len() != full.len() {
        Err(ErrorKind::InvalidTable)
    } else {
        let vals = spec_zip_map(full, fields);
        match spec_eval(cond, vals) {
            None => Err(ErrorKind::GenericError),
            Some(b) => if !b {
                Ok(Seq::empty())
            } else if spec_cols_ok(req, full) {
                Ok(seq![spec_render(req, vals)])
            } else {
                Err(ErrorKind::InvalidColumn)
            },
        }
    }
}

/// The data lines from index `k` onward, filtered and projected.
pub open spec fn spec_select_rows(
    lines: Seq<Seq<char>>,
    k: int,
    full: Seq<Seq<char>>,
    req: Seq<Seq<char>>,
    cond: ExpressionModel,
) -> Result<Seq<Seq<char>>, ErrorKind>
    decreases lines.len() - k,
    when 0 <= k <= lines.len()
{
    if k >= lines.len() {
        Ok(Seq::empty())
    } else {
        match spec_select_line(full, req, cond, lines[k]) {
            Ok(grp) => match spec_select_rows(lines, k + 1, full, req, cond) {
                Ok(rest) => Ok(grp + rest),
                Err(e) => Err(e),
            },
            Err(e) => Err(e),
        }
    }
}

/// The printed header: the requested columns' values of the header line
/// itself, which are exactly the requested column names.
pub open spec fn spec_header_line(
    full: Seq<Seq<char>>,
    req: Seq<Seq<char>>,
    header: Seq<char>,
) -> Seq<char> {
    spec_render(req, spec_zip_map(full, spec_split(header, ',')))
}

/// What a SELECT without ORDER BY prints: the header's requested columns,
/// then each matching row, in table order.  An empty projection means all
/// columns; a requested column the table lacks fails the command before
/// anything is printed.
pub open spec fn spec_select_default(
    lines: Seq<Seq<char>>,
    cond: ExpressionModel,
    req: Seq<Seq<char>>,
) -> Result<Seq<Seq<char>>, ErrorKind> {
    if lines.len() == 0 {
        Ok(Seq::empty())
    } else {
        let full = spec_split(lines[0], ',');
        if !spec_cols_ok(req, full) {
            Err(ErrorKind::InvalidColumn)
        } else {
            let reqq = if req.len() == 0 {
                full
            } else {
                req
            };
            match spec_select_rows(lines, 1, full, reqq, cond) {
                Ok(rest) => Ok(seq![spec_header_line(full, reqq, lines[0])] + rest),
                Err(e) => Err(e),
            }
        }
    }
}

/// The value maps of the rows matching the condition, in table order.
pub open spec fn spec_collect_rows(
    lines: Seq<Seq<char>>,
    k: int,
    full: Seq<Seq<char>>,
    cond: ExpressionModel,
) -> Result<Seq<Map<Seq<char>, Seq<char>>>, ErrorKind>
    decreases lines.len() - k,
    when 0 <= k <= lines.len()
{
    if k >= lines.len() {
        Ok(Seq::empty())
    } else {
        let fields = spec_split(lines[k], ',');
        if fields.len() != full.len() {
            Err(ErrorKind::InvalidTable)
        } else {
            let vals = spec_zip_map(full, fields);
            match spec_eval(cond, vals) {
                None => Err(ErrorKind::GenericError),
                Some(b) => match spec_collect_rows(lines, k + 1, full, cond) {
                    Ok(rest) => Ok(
                        if b {
                            seq![vals] + rest
                        } else {
                            rest
                        },
                    ),
                    Err(e) => Err(e),
                },
            }
        }
    }
}

/// Whether `a` sorts at or before `b` on one ORDER BY key: ascending by
/// the column's comparison, descending by the reversed comparison.
pub open spec fn spec_val_le(
    a: Map<Seq<char>, Seq<char>>,
    b: Map<Seq<char>, Seq<char>>,
    key: Seq<char>,
    dir: Seq<char>,
) -> bool {
    if dir == "ASC"@ {
        spec_cmp_values(a, b, key) != core::cmp::Ordering::Greater
    } else {
        spec_cmp_values(b, a, key) != core::cmp::Ordering::Greater
    }
}

/// Inserts a row's values into an already-sorted run, after every entry
/// that sorts at or before it — the placement that keeps a sort stable.
pub open spec fn spec_insert_sorted(
    s: Seq<Map<Seq<char>, Seq<char>>>,
    x: Map<Seq<char>, Seq<char>>,
    key: Seq<char>,
    dir: Seq<char>,
) -> Seq<Map<Seq<char>, Seq<char>>>
    decreases s.len(),
{
    if s.len() == 0 {
        seq![x]
    } else if spec_val_le(s.last(), x, key, dir) {
        s.push(x)
    } else {
        spec_insert_sorted(s.drop_last(), x, key, dir).push(s.last())
    }
}

/// One stable sorting pass over the rows, by one key.
pub open spec fn spec_sort_pass(
    s: Seq<Map<Seq<char>, Seq<char>>>,
    key: Seq<char>,
    dir: Seq<char>,
) -> Seq<Map<Seq<char>, Seq<char>>>
    decreases s.len(),
{
    if s.len() == 0 {
        Seq::empty()
    } else {
        spec_insert_sorted(spec_sort_pass(s.drop_last(), key, dir), s.last(), key, dir)
    }
}

/// The whole ORDER BY: one stable pass per key, last-listed key first, so
/// that the first-listed key's pass runs last and dominates.
pub open spec fn spec_order_vals(
    s: Seq<Map<Seq<char>, Seq<char>>>,
    order_by: Seq<(Seq<char>, Seq<char>)>,
) -> Seq<Map<Seq<char>, Seq<char>>>
    decreases order_by.len(),
{
    if order_by.len() == 0 {
        s
    } else {
        spec_sort_pass(spec_order_vals(s, order_by.drop_first()), order_by[0].0, order_by[0].1)
    }
}

/// The requested columns' values of each row, one line per row.
pub open spec fn spec_render_all(
    req: Seq<Seq<char>>,
    maps: Seq<Map<Seq<char>, Seq<char>>>,
) -> Seq<Seq<char>> {
    maps.map_values(|m: Map<Seq<char>, Seq<char>>| spec_render(req, m))
}

/// What a SELECT with ORDER BY prints, and the projection it settles on:
/// header first, then the matching rows in sorted order.  An empty
/// projection becomes the full column list; a requested column the table
/// lacks fails when the header is printed.
pub open spec fn spec_select_ordered(
    lines: Seq<Seq<char>>,
    cond: ExpressionModel,
    req0: Seq<Seq<char>>,
    order_by: Seq<(Seq<char>, Seq<char>)>,
) -> Result<(Seq<Seq<char>>, Seq<Seq<char>>), ErrorKind> {
    if lines.len() == 0 {
        Ok((Seq::empty(), req0))
    } else {
        let full = spec_split(lines[0], ',');
        let reqq = if req0.len() == 0 {
            req0 + full
        } else {
            req0
        };
        if !spec_cols_ok(reqq, full) {
            Err(ErrorKind::InvalidColumn)
        } else {
            match spec_collect_rows(lines, 1, full, cond) {
                Ok(sel) => Ok(
                    (
                        seq![spec_header_line(full, reqq, lines[0])] + spec_render_all(
                            reqq,
                            spec_order_vals(sel, order_by),
                        ),
                        reqq,
                    ),
                ),
                Err(e) => Err(e),
            }
        }
    }
}

/// Checks that every column a SELECT names occurs in the table.
pub fn check_columns_to_print(
    columns_to_print: &Vec<String>,
    full_columns: &Vec<String>,
) -> (r: Result<(), CustomError>)
    ensures
        match r {
            Ok(()) => spec_cols_ok(columns_to_print.deep_view(), full_columns.deep_view()),
            Err(e) => !spec_cols_ok(columns_to_print.deep_view(), full_columns.deep_view())
                && e is InvalidColumn,
        },
{
    proof {
        lemma_vec_deep_view(columns_to_print);
    }
    let mut i: usize = 0;
    while i < columns_to_print.len()
        invariant
            i <= columns_to_print@.len(),
            columns_to_print.deep_view().len() == columns_to_print@.len(),
            forall|j: int|
                0 <= j < columns_to_print@.len() ==> columns_to_print.deep_view()[j]
                    == columns_to_print@[j]@,
            forall|j: int|
                0 <= j < i ==> full_columns.deep_view().contains(
                    columns_to_print.deep_view()[j],
                ),
        decreases columns_to_print@.len() - i,
    {
        if !contains_string(full_columns, columns_to_print[i].as_str()) {
            proof {
                assert(!full_columns.deep_view().contains(
                    columns_to_print.deep_view()[i as int],
                ));
            }
            let mut message = String::from_str("Column not found: ");
            message.append(columns_to_print[i].as_str());
            return Err(CustomError::InvalidColumn { message });
        }
        i += 1;
    }
    Ok(())
}

/// Whether `a` sorts at or before `b` under one ORDER BY key.
fn row_le(a: &Row, b: &Row, column: &str, order: &str) -> (r: bool)
    requires
        a.wf(),
        b.wf(),
    ensures
        r == spec_val_le(a.spec_values(), b.spec_values(), column@, order@),
{
    if str_eq_str(order, "ASC") {
        match a.cmp_by_column(column, b) {
            core::cmp::Ordering::Greater => false,
            _ => true,
        }
    } else {
        match b.cmp_by_column(column, a) {
            core::cmp::Ordering::Greater => false,
            _ => true,
        }
    }
}

/// The value maps of a row sequence, in order.
pub open spec fn row_maps(rows: Seq<Row>) -> Seq<Map<Seq<char>, Seq<char>>> {
    rows.map_values(|r: Row| r.spec_values())
}

/// Inserts one row into an already-sorted vector, after every row that
/// sorts at or before it, as [`spec_insert_sorted`] defines it.
fn insert_row_sorted(rows: &mut Vec<Row>, x: Row, column: &str, order: &str)
    requires
        x.wf(),
        forall|i: int| 0 <= i < old(rows)@.len() ==> #[trigger] old(rows)@[i].wf(),
    ensures
        row_maps(final(rows)@) == spec_insert_sorted(
            row_maps(old(rows)@),
            x.spec_values(),
            column@,
            order@,
        ),
        final(rows)@.len() == old(rows)@.len() + 1,
        forall|i: int|
            0 <= i < final(rows)@.len() ==> old(rows)@.contains(#[trigger] final(rows)@[i])
                || final(rows)@[i] == x,
{
    let ghost maps0 = row_maps(rows@);
    let ghost xv = x.spec_values();
    let mut j: usize = rows.len();
    proof {
        assert(row_maps(rows@.subrange(0, j as int)) =~= maps0);
        assert(spec_insert_sorted(maps0, xv, column@, order@) =~= spec_insert_sorted(
            row_maps(rows@.subrange(0, j as int)),
            xv,
            column@,
            order@,
        ) + row_maps(rows@.subrange(j as int, rows@.len() as int)));
    }
    while j > 0 && !row_le(&rows[j - 1], &x, column, order)
        invariant
            x.wf(),
            forall|i: int| 0 <= i < rows@.len() ==> #[trigger] rows@[i].wf(),
            j <= rows@.len(),
            maps0 == row_maps(rows@),
            xv == x.spec_values(),
            spec_insert_sorted(maps0, xv, column@, order@) == spec_insert_sorted(
                row_maps(rows@.subrange(0, j as int)),
                xv,
                column@,
                order@,
            ) + row_maps(rows@.subrange(j as int, rows@.len() as int)),
        decreases j,
    {
        proof {
            let pre = rows@.subrange(0, j as int);
            assert(row_maps(pre).last() == rows@[j - 1].spec_values());
            assert(row_maps(pre).drop_last() =~= row_maps(rows@.subrange(0, j - 1)));
            assert(spec_insert_sorted(row_maps(pre), xv, column@, order@)
                == spec_insert_sorted(row_maps(rows@.subrange(0, j - 1)), xv, column@, order@)
                .push(rows@[j - 1].spec_values()));
            assert(spec_insert_sorted(row_maps(rows@.subrange(0, j - 1)), xv, column@, order@)
                .push(rows@[j - 1].spec_values()) + row_maps(
                rows@.subrange(j as int, rows@.len() as int),
            ) =~= spec_insert_sorted(row_maps(rows@.subrange(0, j - 1)), xv, column@, order@)
                + row_maps(rows@.subrange(j - 1, rows@.len() as int)));
        }
        j -= 1;
    }
    proof {
        let pre = rows@.subrange(0, j as int);
        if j > 0 {
            assert(row_maps(pre).last() == rows@[j - 1].spec_values());
        }
        assert(spec_insert_sorted(row_maps(pre), xv, column@, order@) =~= row_maps(pre).push(xv));
    }
    let ghost before = rows@;
    rows.insert(j, x);
    proof {
        assert(rows@ == before.insert(j as int, x));
        assert(row_maps(rows@) =~= row_maps(before.subrange(0, j as int)).push(xv) + row_maps(
            before.subrange(j as int, before.len() as int),
        ));
        assert forall|i: int|
            0 <= i < rows@.len() implies before.contains(#[trigger] rows@[i]) || rows@[i]
            == x by {
            if i < j {
                assert(rows@[i] == before[i]);
            } else if i > j {
                assert(rows@[i] == before[i - 1]);
            }
        }
    }
}

/// One stable sorting pass over buffered rows, by one key, as
/// [`spec_sort_pass`] defines it.
fn sort_pass(rows: Vec<Row>, column: &str, order: &str) -> (r: Vec<Row>)
    requires
        forall|i: int| 0 <= i < rows@.len() ==> #[trigger] rows@[i].wf(),
    ensures
        row_maps(r@) == spec_sort_pass(row_maps(rows@), column@, order@),
        r@.len() == rows@.len(),
        forall|i: int| 0 <= i < r@.len() ==> rows@.contains(#[trigger] r@[i]),
{
    let ghost input0 = rows@;
    let mut input = rows;
    let mut result: Vec<Row> = Vec::new();
    let ghost mut k: int = 0;
    proof {
        assert(row_maps(input0.subrange(0, 0)) =~= Seq::<Map<Seq<char>, Seq<char>>>::empty());
        assert(row_maps(result@) =~= spec_sort_pass(
            row_maps(input0.subrange(0, 0)),
            column@,
            order@,
        ));
        assert(input@ =~= input0.skip(0));
    }
    while input.len() > 0
        invariant
            0 <= k <= input0.len(),
            input@ == input0.skip(k),
            forall|i: int| 0 <= i < input0.len() ==> #[trigger] input0[i].wf(),
            result@.len() == k,
            row_maps(result@) == spec_sort_pass(
                row_maps(input0.subrange(0, k)),
                column@,
                order@,
            ),
            forall|i: int| 0 <= i < result@.len() ==> #[trigger] result@[i].wf(),
            forall|i: int| 0 <= i < result@.len() ==> input0.contains(#[trigger] result@[i]),
        decreases input@.len(),
    {
        let x = input.remove(0);
        proof {
            assert(x == input0[k]);
            assert(input0.contains(x)) by {
                assert(input0[k] == x);
            }
            assert(input@ =~= input0.skip(k + 1));
        }
        insert_row_sorted(&mut result, x, column, order);
        proof {
            k = k + 1;
            let processed = input0.subrange(0, k);
            assert(processed.drop_last() =~= input0.subrange(0, k - 1));
            assert(row_maps(processed).drop_last() =~= row_maps(processed.drop_last()));
            assert(row_maps(processed).last() == input0[k - 1].spec_values());
        }
    }
    proof {
        assert(input0.subrange(0, input0.len() as int) =~= input0);
    }
    result
}

/// Sorts buffered rows by every ORDER BY key, one stable pass per key in
/// reverse key order, as [`spec_order_vals`] defines it: the result holds
/// the same rows, with their values in the sorted order.
pub fn order_rows(rows: Vec<Row>, order_by: &Vec<(String, String)>) -> (r: Vec<Row>)
    requires
        forall|i: int| 0 <= i < rows@.len() ==> #[trigger] rows@[i].wf(),
    ensures
        row_maps(r@) == spec_order_vals(row_maps(rows@), order_by_view(order_by@)),
        row_maps(r@).to_multiset() == row_maps(rows@).to_multiset(),
        r@.len() == rows@.len(),
        forall|i: int| 0 <= i < r@.len() ==> rows@.contains(#[trigger] r@[i]),
{
    let ghost input0 = rows@;
    let ghost obv = order_by_view(order_by@);
    let mut result = rows;
    let mut k: usize = order_by.len();
    proof {
        assert(obv.len() == order_by@.len());
        assert(obv.skip(k as int) =~= Seq::<(Seq<char>, Seq<char>)>::empty());
    }
    while k > 0
        invariant
            obv == order_by_view(order_by@),
            obv.len() == order_by@.len(),
            k <= order_by@.len(),
            forall|i: int| 0 <= i < result@.len() ==> #[trigger] result@[i].wf(),
            forall|i: int| 0 <= i < result@.len() ==> input0.contains(#[trigger] result@[i]),
            result@.len() == input0.len(),
            row_maps(result@) == spec_order_vals(row_maps(input0), obv.skip(k as int)),
        decreases k,
    {
        k -= 1;
        let column = order_by[k].0.clone();
        let order = order_by[k].1.clone();
        proof {
            assert(obv[k as int] == (order_by@[k as int].0@, order_by@[k as int].1@));
            assert(obv.skip(k as int)[0] == obv[k as int]);
            assert(obv.skip(k as int).drop_first() =~= obv.skip(k + 1));
        }
        let sorted = sort_pass(result, column.as_str(), order.as_str());
        proof {
            assert forall|i: int|
                0 <= i < sorted@.len() implies input0.contains(#[trigger] sorted@[i]) by {
            }
        }
        result = sorted;
    }
    proof {
        assert(obv.skip(0) =~= obv);
        lemma_order_vals_permutation(row_maps(input0), obv);
    }
    result
}

} // verus!

verus! {

/// Streams a SELECT without ORDER BY: the header's requested columns
/// print first, then each matching row in table order, as
/// [`spec_select_default`] defines it.
pub fn select_rows_default(
    lines: &Vec<String>,
    condition: &Expression,
    columns_to_print: &Vec<String>,
    output: &mut Vec<String>,
) -> (r: Result<(), CustomError>)
    ensures
        match r {
            Ok(()) => match spec_select_default(
                lines.deep_view(),
                condition@,
                columns_to_print.deep_view(),
            ) {
                Ok(ls) => final(output).deep_view() == old(output).deep_view() + ls,
                Err(_) => false,
            },
            Err(e) => spec_select_default(
                lines.deep_view(),
                condition@,
                columns_to_print.deep_view(),
            ) == Err::<Seq<Seq<char>>, _>(e.spec_kind()),
        },
{
    proof {
        lemma_vec_deep_view(lines);
        lemma_vec_deep_view(columns_to_print);
    }
    let ghost out0 = output.deep_view();
    if lines.len() == 0 {
        proof {
            assert(out0 + Seq::<Seq<char>>::empty() =~= out0);
        }
        return Ok(());
    }
    let full_columns = split_str(lines[0].as_str(), ',');
    check_columns_to_print(columns_to_print, &full_columns)?;
    let header_row = match parse_row(&full_columns, lines[0].as_str()) {
        Ok(row) => row,
        Err(e) => {
            proof {
                assert(false);
            }
            return Err(e);
        },
    };
    let reqq: &Vec<String> = if columns_to_print.len() == 0 {
        &full_columns
    } else {
        columns_to_print
    };
    let ghost reqqv = reqq.deep_view();
    proof {
        assert(columns_to_print@.len() == 0 ==> columns_to_print.deep_view()
            =~= Seq::<Seq<char>>::empty());
    }
    let header_line = match header_row.print_row(reqq) {
        Ok(line) => line,
        Err(e) => {
            proof {
                assert(false);
            }
            return Err(e);
        },
    };
    let ghost headv = header_line@;
    output.push(header_line);
    proof {
        assert(output.deep_view() =~= out0.push(headv));
        assert(out0.push(headv) =~= out0 + seq![headv]);
    }
    let mut k: usize = 1;
    loop
        invariant
            lines.deep_view().len() == lines@.len(),
            forall|j: int| 0 <= j < lines@.len() ==> lines.deep_view()[j] == lines@[j]@,
            lines@.len() > 0,
            full_columns.deep_view() == spec_split(lines.deep_view()[0], ','),
            reqqv == reqq.deep_view(),
            spec_cols_ok(reqqv, full_columns.deep_view()),
            1 <= k <= lines@.len(),
            out0 == old(output).deep_view(),
            (exists|pre: Seq<Seq<char>>|
                output.deep_view() == out0 + pre && spec_select_default(
                    lines.deep_view(),
                    condition@,
                    columns_to_print.deep_view(),
                ) == with_lines(
                    pre,
                    spec_select_rows(
                        lines.deep_view(),
                        k as int,
                        full_columns.deep_view(),
                        reqqv,
                        condition@,
                    ),
                )),
        decreases lines@.len() - k,
    {
        let ghost pre = choose|pre: Seq<Seq<char>>|
            output.deep_view() == out0 + pre && spec_select_default(
                lines.deep_view(),
                condition@,
                columns_to_print.deep_view(),
            ) == with_lines(
                pre,
                spec_select_rows(
                    lines.deep_view(),
                    k as int,
                    full_columns.deep_view(),
                    reqqv,
                    condition@,
                ),
            );
        if k >= lines.len() {
            proof {
                lemma_with_lines_empty(pre);
            }
            return Ok(());
        }
        let row = parse_row(&full_columns, lines[k].as_str())?;
        let selected = row.check_condition(condition)?;
        let ghost rest = spec_select_rows(
            lines.deep_view(),
            k + 1,
            full_columns.deep_view(),
            reqqv,
            condition@,
        );
        if selected {
            let line = match row.print_row(reqq) {
                Ok(line) => line,
                Err(e) => {
                    proof {
                        assert(false);
                    }
                    return Err(e);
                },
            };
            let ghost linev = line@;
            output.push(line);
            proof {
                assert(output.deep_view() =~= (out0 + pre).push(linev));
                assert((out0 + pre).push(linev) =~= out0 + (pre + seq![linev]));
                lemma_with_lines_group(pre, seq![linev], rest);
            }
        } else {
            proof {
                lemma_with_lines_group(pre, Seq::empty(), rest);
                assert(pre + Seq::<Seq<char>>::empty() =~= pre);
            }
        }
        k += 1;
    }
}

/// Buffers, sorts and prints a SELECT with ORDER BY, as
/// [`spec_select_ordered`] defines it; an empty projection is widened to
/// the table's full column list in place.
pub fn select_rows_ordered(
    lines: &Vec<String>,
    condition: &Expression,
    columns_to_print: &mut Vec<String>,
    order_by: &Vec<(String, String)>,
    output: &mut Vec<String>,
) -> (r: Result<(), CustomError>)
    ensures
        match r {
            Ok(()) => match spec_select_ordered(
                lines.deep_view(),
                condition@,
                old(columns_to_print).deep_view(),
                order_by_view(order_by@),
            ) {
                Ok(pair) => final(output).deep_view() == old(output).deep_view() + pair.0
                    && final(columns_to_print).deep_view() == pair.1,
                Err(_) => false,
            },
            Err(e) => spec_select_ordered(
                lines.deep_view(),
                condition@,
                old(columns_to_print).deep_view(),
                order_by_view(order_by@),
            ) == Err::<(Seq<Seq<char>>, Seq<Seq<char>>), _>(e.spec_kind()),
        },
{
    proof {
        lemma_vec_deep_view(lines);
    }
    let ghost out0 = output.deep_view();
    let ghost req0 = old(columns_to_print).deep_view();
    if lines.len() == 0 {
        proof {
            assert(out0 + Seq::<Seq<char>>::empty() =~= out0);
        }
        return Ok(());
    }
    let full_columns = split_str(lines[0].as_str(), ',');
    if columns_to_print.len() == 0 {
        proof {
            assert(req0 =~= Seq::<Seq<char>>::empty());
        }
        let mut i: usize = 0;
        while i < full_columns.len()
            invariant
                i <= full_columns@.len(),
                columns_to_print.deep_view() == full_columns.deep_view().subrange(0, i as int),
            decreases full_columns@.len() - i,
        {
            let ghost pre = columns_to_print.deep_view();
            proof {
                lemma_vec_deep_view(&full_columns);
            }
            columns_to_print.push(full_columns[i].clone());
            i += 1;
            proof {
                let ghost colv = full_columns.deep_view()[i - 1];
                assert(columns_to_print.deep_view() =~= pre.push(colv));
                assert(pre.push(colv) =~= full_columns.deep_view().subrange(0, i as int));
            }
        }
        proof {
            assert(full_columns.deep_view().subrange(0, full_columns@.len() as int)
                =~= full_columns.deep_view());
            assert(columns_to_print.deep_view() =~= req0 + full_columns.deep_view());
        }
    }
    let ghost reqqv = columns_to_print.deep_view();
    let header_row = match parse_row(&full_columns, lines[0].as_str()) {
        Ok(row) => row,
        Err(e) => {
            proof {
                assert(false);
            }
            return Err(e);
        },
    };
    let header_line = header_row.print_row(columns_to_print)?;
    let ghost headv = header_line@;
    output.push(header_line);
    proof {
        assert(output.deep_view() =~= out0.push(headv));
    }
    let mut selected: Vec<Row> = Vec::new();
    let mut k: usize = 1;
    while k < lines.len()
        invariant
            lines.deep_view().len() == lines@.len(),
            forall|j: int| 0 <= j < lines@.len() ==> lines.deep_view()[j] == lines@[j]@,
            lines@.len() > 0,
            full_columns.deep_view() == spec_split(lines.deep_view()[0], ','),
            req0 == old(columns_to_print).deep_view(),
            reqqv == columns_to_print.deep_view(),
            reqqv == (if req0.len() == 0 {
                req0 + full_columns.deep_view()
            } else {
                req0
            }),
            spec_cols_ok(reqqv, full_columns.deep_view()),
            1 <= k <= lines@.len(),
            forall|i: int| 0 <= i < selected@.len() ==> #[trigger] selected@[i].wf(),
            forall|i: int|
                0 <= i < selected@.len() ==> (#[trigger] selected@[i]).spec_columns()
                    == full_columns.deep_view(),
            spec_collect_rows(lines.deep_view(), 1, full_columns.deep_view(), condition@) == (
            match spec_collect_rows(
                lines.deep_view(),
                k as int,
                full_columns.deep_view(),
                condition@,
            ) {
                Ok(rest) => Ok(row_maps(selected@) + rest),
                Err(e) => Err(e),
            }),
        decreases lines@.len() - k,
    {
        let row = parse_row(&full_columns, lines[k].as_str())?;
        let chosen = row.check_condition(condition)?;
        if chosen {
            let ghost mapspre = row_maps(selected@);
            let ghost rowv = row.spec_values();
            selected.push(row);
            proof {
                assert(row_maps(selected@) =~= mapspre.push(rowv));
                assert forall|rest2: Seq<Map<Seq<char>, Seq<char>>>|
                    true implies mapspre + (seq![rowv] + rest2) =~= mapspre.push(rowv)
                    + rest2 by {}
            }
        }
        k += 1;
    }
    proof {
        assert(spec_collect_rows(
            lines.deep_view(),
            lines@.len() as int,
            full_columns.deep_view(),
            condition@,
        ) == Ok::<_, ErrorKind>(Seq::<Map<Seq<char>, Seq<char>>>::empty()));
        assert(row_maps(selected@) + Seq::<Map<Seq<char>, Seq<char>>>::empty() =~= row_maps(
            selected@,
        ));
    }
    let ghost collected = row_maps(selected@);
    let sorted = order_rows(selected, order_by);
    let ghost sorted_maps = row_maps(sorted@);
    proof {
        assert(spec_collect_rows(
            lines.deep_view(),
            1,
            full_columns.deep_view(),
            condition@,
        ) == Ok::<_, ErrorKind>(collected));
        assert(sorted_maps == spec_order_vals(collected, order_by_view(order_by@)));
    }
    let mut m: usize = 0;
    while m < sorted.len()
        invariant
            sorted_maps == row_maps(sorted@),
            m <= sorted@.len(),
            reqqv == columns_to_print.deep_view(),
            spec_cols_ok(reqqv, full_columns.deep_view()),
            forall|i: int| 0 <= i < sorted@.len() ==> #[trigger] sorted@[i].wf(),
            forall|i: int|
                0 <= i < sorted@.len() ==> (#[trigger] sorted@[i]).spec_columns()
                    == full_columns.deep_view(),
            output.deep_view() == out0.push(headv) + spec_render_all(reqqv, sorted_maps).subrange(
                0,
                m as int,
            ),
        decreases sorted@.len() - m,
    {
        let row_ref = &sorted[m];
        let line = match row_ref.print_row(columns_to_print) {
            Ok(line) => line,
            Err(e) => {
                proof {
                    assert(false);
                }
                return Err(e);
            },
        };
        let ghost prev = output.deep_view();
        let ghost linev = line@;
        output.push(line);
        m += 1;
        proof {
            assert(spec_render_all(reqqv, sorted_maps)[m - 1] == spec_render(
                reqqv,
                sorted_maps[m - 1],
            ));
            assert(output.deep_view() =~= prev.push(linev));
            assert(prev.push(linev) =~= out0.push(headv) + spec_render_all(
                reqqv,
                sorted_maps,
            ).subrange(0, m as int));
        }
    }
    proof {
        assert(spec_render_all(reqqv, sorted_maps).subrange(
            0,
            sorted@.len() as int,
        ) =~= spec_render_all(reqqv, sorted_maps));
        assert(out0.push(headv) + spec_render_all(reqqv, sorted_maps) =~= out0 + (seq![headv]
            + spec_render_all(reqqv, sorted_maps)));
        let dv = lines.deep_view();
        let obv = order_by_view(order_by@);
        let full = full_columns.deep_view();
        assert(headv == spec_header_line(full, reqqv, dv[0]));
        let pair0 = seq![spec_header_line(full, reqqv, dv[0])] + spec_render_all(
            reqqv,
            sorted_maps,
        );
        assert(seq![headv] + spec_render_all(reqqv, sorted_maps) =~= pair0);
        assert(spec_select_ordered(dv, condition@, req0, obv) == Ok::<
            (Seq<Seq<char>>, Seq<Seq<char>>),
            ErrorKind,
        >((pair0, reqqv)));
        assert(output.deep_view() =~= out0 + pair0);
    }
    Ok(())
}

/// A whole SELECT against a table's lines: streaming without ORDER BY,
/// buffered and sorted with it.
pub open spec fn spec_select_table(
    lines: Seq<Seq<char>>,
    cond: ExpressionModel,
    req0: Seq<Seq<char>>,
    order_by: Seq<(Seq<char>, Seq<char>)>,
) -> Result<(Seq<Seq<char>>, Seq<Seq<char>>), ErrorKind> {
    if order_by.len() == 0 {
        match spec_select_default(lines, cond, req0) {
            Ok(ls) => Ok((ls, req0)),
            Err(e) => Err(e),
        }
    } else {
        spec_select_ordered(lines, cond, req0, order_by)
    }
}

/// Runs a SELECT against a table's lines, as [`spec_select_table`]
/// defines it.
pub fn select_rows_table(
    lines: &Vec<String>,
    condition: &Expression,
    columns_to_print: &mut Vec<String>,
    order_by: &Vec<(String, String)>,
    output: &mut Vec<String>,
) -> (r: Result<(), CustomError>)
    ensures
        match r {
            Ok(()) => match spec_select_table(
                lines.deep_view(),
                condition@,
                old(columns_to_print).deep_view(),
                order_by_view(order_by@),
            ) {
                Ok(pair) => final(output).deep_view() == old(output).deep_view() + pair.0
                    && final(columns_to_print).deep_view() == pair.1,
                Err(_) => false,
            },
            Err(e) => spec_select_table(
                lines.deep_view(),
                condition@,
                old(columns_to_print).deep_view(),
                order_by_view(order_by@),
            ) == Err::<(Seq<Seq<char>>, Seq<Seq<char>>), _>(e.spec_kind()),
        },
{
    proof {
        assert(order_by@.len() == 0 ==> order_by_view(order_by@).len() == 0);
        assert(order_by@.len() > 0 ==> order_by_view(order_by@).len() > 0);
    }
    if order_by.len() == 0 {
        select_rows_default(lines, condition, columns_to_print, output)
    } else {
        select_rows_ordered(lines, condition, columns_to_print, order_by, output)
    }
}

} // verus!

verus! {

/// The outcome a successful command asks of the caller: lines to append
/// to the table file, lines to replace it with, or output already printed.
pub enum CommandEffect {
    AppendLines(Vec<String>),
    ReplaceLines(Vec<String>),
    Printed,
}

/// The mathematical shadow of a [`CommandEffect`], with printed lines
/// carried explicitly.
pub enum CommandOutcomeModel {
    Append(Seq<Seq<char>>),
    Replace(Seq<Seq<char>>),
    Print(Seq<Seq<char>>),
}

/// The rows an INSERT appends: each VALUES tuple bound to the header's
/// (trimmed) columns and rendered.
pub open spec fn spec_insert_lines(
    header: Seq<char>,
    vals: Seq<Map<Seq<char>, Seq<char>>>,
) -> Seq<Seq<char>> {
    vals.map_values(|m: Map<Seq<char>, Seq<char>>| spec_render(spec_parse_columns(header), m))
}

/// What INSERT does, given the parsed command and the table: a missing
/// table file is a generic failure, an empty one an invalid table; else
/// one appended line per VALUES tuple.
pub open spec fn spec_process_insert(
    toks: Seq<TokenModel>,
    table: Option<Seq<Seq<char>>>,
) -> Result<Seq<Seq<char>>, ErrorKind> {
    match spec_parse_insert(toks, Seq::empty(), Seq::empty()) {
        None => Err(ErrorKind::InvalidSyntax),
        Some((name, cols, vals)) => match table {
            None => Err(ErrorKind::InvalidTable),
            Some(lines) => if lines.len() == 0 {
                Err(ErrorKind::InvalidTable)
            } else {
                Ok(spec_insert_lines(lines[0], vals))
            },
        },
    }
}

/// The condition a parsed command carries: the WHERE clause where present,
/// the vacuous `True` where absent.
pub open spec fn spec_condition_of(cond: Option<ExpressionModel>) -> ExpressionModel {
    match cond {
        Some(c) => c,
        None => ExpressionModel::True,
    }
}

/// What UPDATE does, given the command tokens and the table.
pub open spec fn spec_process_update(
    toks: Seq<TokenModel>,
    table: Option<Seq<Seq<char>>>,
) -> Result<Seq<Seq<char>>, ErrorKind> {
    match spec_parse_update(toks) {
        None => Err(ErrorKind::InvalidSyntax),
        Some((name, pairs, cond)) => match table {
            None => Err(ErrorKind::InvalidTable),
            Some(lines) => spec_update_table(
                lines,
                spec_condition_of(cond),
                crate::value_map::fold_entries(Seq::empty(), pairs),
            ),
        },
    }
}

/// What DELETE does, given the command tokens and the table.
pub open spec fn spec_process_delete(
    toks: Seq<TokenModel>,
    table: Option<Seq<Seq<char>>>,
) -> Result<Seq<Seq<char>>, ErrorKind> {
    match spec_parse_delete(toks) {
        None => Err(ErrorKind::InvalidSyntax),
        Some((name, cond)) => match table {
            None => Err(ErrorKind::InvalidTable),
            Some(lines) => spec_delete_table(lines, spec_condition_of(cond)),
        },
    }
}

/// What SELECT prints, given the command tokens and the table.
pub open spec fn spec_process_select(
    toks: Seq<TokenModel>,
    table: Option<Seq<Seq<char>>>,
) -> Result<Seq<Seq<char>>, ErrorKind> {
    match spec_parse_select(toks, Seq::empty(), Seq::empty()) {
        None => Err(ErrorKind::InvalidSyntax),
        Some((cols, name, cond, order)) => match table {
            None => Err(ErrorKind::InvalidTable),
            Some(lines) => match spec_select_table(
                lines,
                spec_condition_of(cond),
                cols,
                order,
            ) {
                Ok(pair) => Ok(pair.0),
                Err(e) => Err(e),
            },
        },
    }
}

/// What one whole command does: tokenize, dispatch on the leading
/// keyword, run the command against the table's lines.
pub open spec fn spec_process_command(cmd: Seq<char>, table: Option<Seq<Seq<char>>>) -> Result<
    CommandOutcomeModel,
    ErrorKind,
> {
    match spec_tokenize(cmd) {
        None => Err(ErrorKind::InvalidSyntax),
        Some(toks) => if toks.len() > 0 {
            match toks[0] {
                TokenModel::Keyword(kw) => if kw == "INSERT"@ {
                    match spec_process_insert(toks, table) {
                        Ok(ls) => Ok(CommandOutcomeModel::Append(ls)),
                        Err(e) => Err(e),
                    }
                } else if kw == "UPDATE"@ {
                    match spec_process_update(toks, table) {
                        Ok(ls) => Ok(CommandOutcomeModel::Replace(ls)),
                        Err(e) => Err(e),
                    }
                } else if kw == "DELETE"@ {
                    match spec_process_delete(toks, table) {
                        Ok(ls) => Ok(CommandOutcomeModel::Replace(ls)),
                        Err(e) => Err(e),
                    }
                } else if kw == "SELECT"@ {
                    match spec_process_select(toks, table) {
                        Ok(ls) => Ok(CommandOutcomeModel::Print(ls)),
                        Err(e) => Err(e),
                    }
                } else {
                    Err(ErrorKind::InvalidSyntax)
                },
                _ => Err(ErrorKind::InvalidSyntax),
            }
        } else {
            Err(ErrorKind::InvalidSyntax)
        },
    }
}

/// Runs an INSERT against a table's lines, as [`spec_process_insert`]
/// defines it: the returned lines are appended to the file by the caller.
pub fn process_insert(tokens: &Vec<Token>, table: &Option<Vec<String>>) -> (r: Result<
    Vec<String>,
    CustomError,
>)
    ensures
        match r {
            Ok(out) => spec_process_insert(tokens.deep_view(), spec_table_of(table)) == Ok::<
                _,
                ErrorKind,
            >(out.deep_view()),
            Err(e) => spec_process_insert(tokens.deep_view(), spec_table_of(table)) == Err::<
                Seq<Seq<char>>,
                _,
            >(e.spec_kind()),
        },
{
    let mut table_name = String::new();
    let mut columns: Vec<String> = Vec::new();
    let mut values: Vec<ValueMap> = Vec::new();
    proof {
        assert(columns.deep_view() =~= Seq::<Seq<char>>::empty());
        assert(values.deep_view() =~= Seq::<Map<Seq<char>, Seq<char>>>::empty());
    }
    parse_insert(tokens, &mut table_name, &mut columns, &mut values)?;
    let lines = match table {
        Some(lines) => lines,
        None => {
            return Err(
                CustomError::InvalidTable {
                    message: String::from_str("Couldn't open table file"),
                },
            );
        },
    };
    proof {
        lemma_vec_deep_view(lines);
    }
    if lines.len() == 0 {
        return Err(
            CustomError::InvalidTable {
                message: String::from_str("Couldn't read end of table file"),
            },
        );
    }
    let full_columns = match parse_columns(lines[0].as_str()) {
        Ok(cols) => cols,
        Err(e) => {
            proof {
                assert(false);
            }
            return Err(e);
        },
    };
    let ghost vals0 = values.deep_view();
    let ghost header = lines.deep_view()[0];
    let mut out: Vec<String> = Vec::new();
    let ghost mut k: int = 0;
    proof {
        assert(values@ =~= values@.skip(0));
        assert(out.deep_view() =~= spec_insert_lines(header, vals0).subrange(0, 0));
        assert(spec_parse_columns(header).len() == spec_split(header, ',').len());
    }
    while values.len() > 0
        invariant
            0 <= k <= vals0.len(),
            values.deep_view() == vals0.skip(k),
            values@.len() == vals0.len() - k,
            forall|i: int| 0 <= i < values@.len() ==> values@[i].wf(),
            header == lines.deep_view()[0],
            full_columns.deep_view() == spec_parse_columns(header),
            full_columns.deep_view().len() >= 1,
            out.deep_view() == spec_insert_lines(header, vals0).subrange(0, k),
        decreases values@.len(),
    {
        let ghost dvb = values.deep_view();
        let m = values.remove(0);
        proof {
            assert(dvb[0] == m@);
            assert(vals0.skip(k)[0] == vals0[k]);
            assert(m@ == vals0[k]);
            assert(values.deep_view() =~= dvb.skip(1));
            assert(dvb.skip(1) =~= vals0.skip(k + 1));
        }
        let row = Row::new(&full_columns, m);
        let line = row.write_row();
        let ghost pre = out.deep_view();
        let ghost linev = line@;
        out.push(line);
        proof {
            k = k + 1;
            assert(spec_insert_lines(header, vals0)[k - 1] == spec_render(
                spec_parse_columns(header),
                vals0[k - 1],
            ));
            assert(out.deep_view() =~= pre.push(linev));
            assert(pre.push(linev) =~= spec_insert_lines(header, vals0).subrange(0, k));
        }
    }
    proof {
        assert(spec_insert_lines(header, vals0).subrange(0, vals0.len() as int)
            =~= spec_insert_lines(header, vals0));
    }
    Ok(out)
}

/// The lines of the table file, where one was found.
pub open spec fn spec_table_of(table: &Option<Vec<String>>) -> Option<Seq<Seq<char>>> {
    match table {
        Some(lines) => Some(lines.deep_view()),
        None => None,
    }
}

/// Runs an UPDATE against a table's lines, as [`spec_process_update`]
/// defines it: the returned lines replace the file's whole content.
pub fn process_update(tokens: &Vec<Token>, table: &Option<Vec<String>>) -> (r: Result<
    Vec<String>,
    CustomError,
>)
    ensures
        match r {
            Ok(out) => spec_process_update(tokens.deep_view(), spec_table_of(table)) == Ok::<
                _,
                ErrorKind,
            >(out.deep_view()),
            Err(e) => spec_process_update(tokens.deep_view(), spec_table_of(table)) == Err::<
                Seq<Seq<char>>,
                _,
            >(e.spec_kind()),
        },
{
    let mut table_name = String::new();
    let mut set_values = ValueMap::new();
    let mut condition = Expression::True;
    parse_update(tokens, &mut table_name, &mut set_values, &mut condition)?;
    let lines = match table {
        Some(lines) => lines,
        None => {
            return Err(
                CustomError::InvalidTable {
                    message: String::from_str("Couldn't open table file"),
                },
            );
        },
    };
    update_table(lines, &condition, &set_values)
}

/// Runs a DELETE against a table's lines, as [`spec_process_delete`]
/// defines it: the returned lines replace the file's whole content.
pub fn process_delete(tokens: &Vec<Token>, table: &Option<Vec<String>>) -> (r: Result<
    Vec<String>,
    CustomError,
>)
    ensures
        match r {
            Ok(out) => spec_process_delete(tokens.deep_view(), spec_table_of(table)) == Ok::<
                _,
                ErrorKind,
            >(out.deep_view()),
            Err(e) => spec_process_delete(tokens.deep_view(), spec_table_of(table)) == Err::<
                Seq<Seq<char>>,
                _,
            >(e.spec_kind()),
        },
{
    let mut table_name = String::new();
    let mut condition = Expression::True;
    parse_delete(tokens, &mut table_name, &mut condition)?;
    let lines = match table {
        Some(lines) => lines,
        None => {
            return Err(
                CustomError::InvalidTable {
                    message: String::from_str("Couldn't open table file"),
                },
            );
        },
    };
    delete_rows_table(lines, &condition)
}

/// Runs a SELECT against a table's lines, printing to `output`, as
/// [`spec_process_select`] defines it.
pub fn process_select(
    tokens: &Vec<Token>,
    table: &Option<Vec<String>>,
    output: &mut Vec<String>,
) -> (r: Result<(), CustomError>)
    ensures
        match r {
            Ok(()) => match spec_process_select(tokens.deep_view(), spec_table_of(table)) {
                Ok(ls) => final(output).deep_view() == old(output).deep_view() + ls,
                Err(_) => false,
            },
            Err(e) => spec_process_select(tokens.deep_view(), spec_table_of(table)) == Err::<
                Seq<Seq<char>>,
                _,
            >(e.spec_kind()),
        },
{
    let mut columns: Vec<String> = Vec::new();
    let mut table_name = String::new();
    let mut condition = Expression::True;
    let mut order_by: Vec<(String, String)> = Vec::new();
    proof {
        assert(columns.deep_view() =~= Seq::<Seq<char>>::empty());
        assert(order_by_view(order_by@) =~= Seq::<(Seq<char>, Seq<char>)>::empty());
    }
    parse_select(tokens, &mut columns, &mut table_name, &mut condition, &mut order_by)?;
    let lines = match table {
        Some(lines) => lines,
        None => {
            return Err(
                CustomError::InvalidTable {
                    message: String::from_str("Couldn't open table file"),
                },
            );
        },
    };
    select_rows_table(lines, &condition, &mut columns, &order_by, output)
}

/// Processes one whole command, as [`spec_process_command`] defines it:
/// `args[2]` is the command text, `table` the located table file's lines
/// (or `None` where no file was found), and SELECT output goes to
/// `output`.  The returned effect says what the caller must do to the
/// file.
pub fn process_command(
    args: &Vec<String>,
    table: &Option<Vec<String>>,
    output: &mut Vec<String>,
) -> (r: Result<CommandEffect, CustomError>)
    requires
        args@.len() >= 3,
    ensures
        match r {
            Ok(effect) => match effect {
                CommandEffect::AppendLines(ls) => spec_process_command(
                    args@[2]@,
                    spec_table_of(table),
                ) == Ok::<_, ErrorKind>(CommandOutcomeModel::Append(ls.deep_view()))
                    && *final(output) == *old(output),
                CommandEffect::ReplaceLines(ls) => spec_process_command(
                    args@[2]@,
                    spec_table_of(table),
                ) == Ok::<_, ErrorKind>(CommandOutcomeModel::Replace(ls.deep_view()))
                    && *final(output) == *old(output),
                CommandEffect::Printed => match spec_process_command(
                    args@[2]@,
                    spec_table_of(table),
                ) {
                    Ok(outcome) => match outcome {
                        CommandOutcomeModel::Print(ls) => final(output).deep_view() == old(
                            output,
                        ).deep_view() + ls,
                        _ => false,
                    },
                    Err(_) => false,
                },
            },
            Err(e) => spec_process_command(args@[2]@, spec_table_of(table)) == Err::<
                CommandOutcomeModel,
                _,
            >(e.spec_kind()),
        },
{
    let tokens = tokenize(args[2].as_str())?;
    proof {
        lemma_vec_deep_view(&tokens);
    }
    if tokens.len() == 0 {
        return Err(CustomError::invalid_syntax("Usage: <COMMAND> <...>"));
    }
    let keyword: Option<&String> = match &tokens[0] {
        Token::Keyword(k) => Some(k),
        _ => None,
    };
    let keyword = match keyword {
        Some(k) => k,
        None => {
            return Err(CustomError::invalid_syntax("Usage: <COMMAND> <...>"));
        },
    };
    if str_eq_str(keyword.as_str(), "INSERT") {
        let out = process_insert(&tokens, table)?;
        Ok(CommandEffect::AppendLines(out))
    } else if str_eq_str(keyword.as_str(), "UPDATE") {
        let out = process_update(&tokens, table)?;
        Ok(CommandEffect::ReplaceLines(out))
    } else if str_eq_str(keyword.as_str(), "DELETE") {
        let out = process_delete(&tokens, table)?;
        Ok(CommandEffect::ReplaceLines(out))
    } else if str_eq_str(keyword.as_str(), "SELECT") {
        process_select(&tokens, table, output)?;
        Ok(CommandEffect::Printed)
    } else {
        let mut message = String::from_str("Invalid command: ");
        message.append(keyword.as_str());
        Err(CustomError::InvalidSyntax { message })
    }
}

/// The table a command names, for the caller that must locate the file
/// before the engine can run: the result of fully parsing the command.
pub open spec fn spec_command_table_name(toks: Seq<TokenModel>) -> Option<Seq<char>> {
    if toks.len() > 0 {
        match toks[0] {
            TokenModel::Keyword(kw) => if kw == "INSERT"@ {
                match spec_parse_insert(toks, Seq::empty(), Seq::empty()) {
                    Some((name, cols, vals)) => Some(name),
                    None => None,
                }
            } else if kw == "UPDATE"@ {
                match spec_parse_update(toks) {
                    Some((name, pairs, cond)) => Some(name),
                    None => None,
                }
            } else if kw == "DELETE"@ {
                match spec_parse_delete(toks) {
                    Some((name, cond)) => Some(name),
                    None => None,
                }
            } else if kw == "SELECT"@ {
                match spec_parse_select(toks, Seq::empty(), Seq::empty()) {
                    Some((cols, name, cond, order)) => Some(name),
                    None => None,
                }
            } else {
                None
            },
            _ => None,
        }
    } else {
        None
    }
}

/// Parses a command just far enough to say which table file the caller
/// must locate: the whole command is parsed, so a malformed one fails here
/// already, as [`spec_command_table_name`] defines it.
pub fn command_table_name(tokens: &Vec<Token>) -> (r: Result<String, CustomError>)
    ensures
        match r {
            Ok(name) => spec_command_table_name(tokens.deep_view()) == Some(name@),
            Err(e) => spec_command_table_name(tokens.deep_view()) is None && e is InvalidSyntax,
        },
{
    proof {
        lemma_vec_deep_view(tokens);
    }
    if tokens.len() == 0 {
        return Err(CustomError::invalid_syntax("Usage: <COMMAND> <...>"));
    }
    let keyword: Option<&String> = match &tokens[0] {
        Token::Keyword(k) => Some(k),
        _ => None,
    };
    let keyword = match keyword {
        Some(k) => k,
        None => {
            return Err(CustomError::invalid_syntax("Usage: <COMMAND> <...>"));
        },
    };
    let mut table_name = String::new();
    if str_eq_str(keyword.as_str(), "INSERT") {
        let mut columns: Vec<String> = Vec::new();
        let mut values: Vec<ValueMap> = Vec::new();
        proof {
            assert(columns.deep_view() =~= Seq::<Seq<char>>::empty());
            assert(values.deep_view() =~= Seq::<Map<Seq<char>, Seq<char>>>::empty());
        }
        parse_insert(tokens, &mut table_name, &mut columns, &mut values)?;
        Ok(table_name)
    } else if str_eq_str(keyword.as_str(), "UPDATE") {
        let mut set_values = ValueMap::new();
        let mut condition = Expression::True;
        parse_update(tokens, &mut table_name, &mut set_values, &mut condition)?;
        Ok(table_name)
    } else if str_eq_str(keyword.as_str(), "DELETE") {
        let mut condition = Expression::True;
        parse_delete(tokens, &mut table_name, &mut condition)?;
        Ok(table_name)
    } else if str_eq_str(keyword.as_str(), "SELECT") {
        let mut columns: Vec<String> = Vec::new();
        let mut condition = Expression::True;
        let mut order_by: Vec<(String, String)> = Vec::new();
        proof {
            assert(columns.deep_view() =~= Seq::<Seq<char>>::empty());
            assert(order_by_view(order_by@) =~= Seq::<(Seq<char>, Seq<char>)>::empty());
        }
        parse_select(tokens, &mut columns, &mut table_name, &mut condition, &mut order_by)?;
        Ok(table_name)
    } else {
        let mut message = String::from_str("Invalid command: ");
        message.append(keyword.as_str());
        Err(CustomError::InvalidSyntax { message })
    }
}

} // verus!

verus! {

/// One-key comparison reverses with its arguments.
proof fn lemma_cmp_values_antisym(
    a: Map<Seq<char>, Seq<char>>,
    b: Map<Seq<char>, Seq<char>>,
    k: Seq<char>,
)
    ensures
        (spec_cmp_values(a, b, k) == core::cmp::Ordering::Less) <==> (spec_cmp_values(b, a, k)
            == core::cmp::Ordering::Greater),
        (spec_cmp_values(a, b, k) == core::cmp::Ordering::Equal) <==> (spec_cmp_values(b, a, k)
            == core::cmp::Ordering::Equal),
{
    if a.contains_key(k) && b.contains_key(k) {
        crate::text::lemma_str_cmp_antisym(a[k], b[k]);
    }
}

/// One-key at-most is transitive.
proof fn lemma_cmp_values_trans(
    a: Map<Seq<char>, Seq<char>>,
    b: Map<Seq<char>, Seq<char>>,
    c: Map<Seq<char>, Seq<char>>,
    k: Seq<char>,
)
    requires
        spec_cmp_values(a, b, k) != core::cmp::Ordering::Greater,
        spec_cmp_values(b, c, k) != core::cmp::Ordering::Greater,
    ensures
        spec_cmp_values(a, c, k) != core::cmp::Ordering::Greater,
{
    if a.contains_key(k) && b.contains_key(k) && c.contains_key(k) {
        crate::text::lemma_str_cmp_trans(a[k], b[k], c[k]);
    }
}

/// The sort's at-most relation is total: two rows always compare one way
/// or the other.
pub proof fn lemma_val_le_total(
    a: Map<Seq<char>, Seq<char>>,
    b: Map<Seq<char>, Seq<char>>,
    k: Seq<char>,
    d: Seq<char>,
)
    ensures
        spec_val_le(a, b, k, d) || spec_val_le(b, a, k, d),
{
    lemma_cmp_values_antisym(a, b, k);
}

/// The sort's at-most relation is transitive.
pub proof fn lemma_val_le_trans(
    a: Map<Seq<char>, Seq<char>>,
    b: Map<Seq<char>, Seq<char>>,
    c: Map<Seq<char>, Seq<char>>,
    k: Seq<char>,
    d: Seq<char>,
)
    requires
        spec_val_le(a, b, k, d),
        spec_val_le(b, c, k, d),
    ensures
        spec_val_le(a, c, k, d),
{
    if d == "ASC"@ {
        lemma_cmp_values_trans(a, b, c, k);
    } else {
        lemma_cmp_values_trans(c, b, a, k);
    }
}

/// Rows in at-most order under one key, every pair.
pub open spec fn sorted_by(s: Seq<Map<Seq<char>, Seq<char>>>, k: Seq<char>, d: Seq<char>) -> bool {
    forall|i: int, j: int| 0 <= i < j < s.len() ==> spec_val_le(s[i], s[j], k, d)
}

/// Rows ordered by a first key, pairs equal on it ordered by a second:
/// what ORDER BY with two keys promises.
pub open spec fn lex_sorted(
    s: Seq<Map<Seq<char>, Seq<char>>>,
    k1: Seq<char>,
    d1: Seq<char>,
    k2: Seq<char>,
    d2: Seq<char>,
) -> bool {
    forall|i: int, j: int|
        0 <= i < j < s.len() ==> spec_val_le(s[i], s[j], k1, d1) && (spec_cmp_values(
            s[i],
            s[j],
            k1,
        ) == core::cmp::Ordering::Equal ==> spec_val_le(s[i], s[j], k2, d2))
}

/// Insertion adds exactly the new row: every row of the result is the
/// inserted one or one of the old ones.
pub proof fn lemma_insert_sorted_membership(
    s: Seq<Map<Seq<char>, Seq<char>>>,
    x: Map<Seq<char>, Seq<char>>,
    k: Seq<char>,
    d: Seq<char>,
)
    ensures
        spec_insert_sorted(s, x, k, d).len() == s.len() + 1,
        forall|m: int|
            0 <= m < spec_insert_sorted(s, x, k, d).len() ==> #[trigger] spec_insert_sorted(
                s,
                x,
                k,
                d,
            )[m] == x || s.contains(spec_insert_sorted(s, x, k, d)[m]),
    decreases s.len(),
{
    let r = spec_insert_sorted(s, x, k, d);
    if s.len() == 0 {
    } else if spec_val_le(s.last(), x, k, d) {
        assert forall|m: int| 0 <= m < r.len() implies #[trigger] r[m] == x || s.contains(
            r[m],
        ) by {
            if m < s.len() {
                assert(r[m] == s[m]);
            }
        }
    } else {
        lemma_insert_sorted_membership(s.drop_last(), x, k, d);
        let inner = spec_insert_sorted(s.drop_last(), x, k, d);
        assert forall|m: int| 0 <= m < r.len() implies #[trigger] r[m] == x || s.contains(
            r[m],
        ) by {
            if m < inner.len() {
                assert(r[m] == inner[m]);
                if inner[m] != x {
                    let i = choose|i: int|
                        0 <= i < s.drop_last().len() && s.drop_last()[i] == inner[m];
                    assert(s[i] == inner[m]);
                }
            } else {
                assert(r[m] == s.last());
                assert(s[s.len() - 1] == s.last());
            }
        }
    }
}

/// One sorting pass keeps exactly the rows it was given.
pub proof fn lemma_sort_pass_membership(
    s: Seq<Map<Seq<char>, Seq<char>>>,
    k: Seq<char>,
    d: Seq<char>,
)
    ensures
        spec_sort_pass(s, k, d).len() == s.len(),
        forall|m: int|
            0 <= m < spec_sort_pass(s, k, d).len() ==> s.contains(
                #[trigger] spec_sort_pass(s, k, d)[m],
            ),
    decreases s.len(),
{
    if s.len() > 0 {
        lemma_sort_pass_membership(s.drop_last(), k, d);
        let inner = spec_sort_pass(s.drop_last(), k, d);
        lemma_insert_sorted_membership(inner, s.last(), k, d);
        let r = spec_sort_pass(s, k, d);
        assert forall|m: int| 0 <= m < r.len() implies s.contains(#[trigger] r[m]) by {
            if r[m] == s.last() {
                assert(s[s.len() - 1] == s.last());
            } else {
                assert(inner.contains(r[m]));
                let i = choose|i: int| 0 <= i < inner.len() && inner[i] == r[m];
                assert(s.drop_last().contains(inner[i]));
                let n = choose|n: int| 0 <= n < s.drop_last().len() && s.drop_last()[n] == r[m];
                assert(s[n] == r[m]);
            }
        }
    }
}

/// Inserting into a sorted run keeps it sorted.
pub proof fn lemma_insert_sorted_sorted(
    s: Seq<Map<Seq<char>, Seq<char>>>,
    x: Map<Seq<char>, Seq<char>>,
    k: Seq<char>,
    d: Seq<char>,
)
    requires
        sorted_by(s, k, d),
    ensures
        sorted_by(spec_insert_sorted(s, x, k, d), k, d),
    decreases s.len(),
{
    let r = spec_insert_sorted(s, x, k, d);
    if s.len() == 0 {
    } else if spec_val_le(s.last(), x, k, d) {
        assert forall|i: int, j: int| 0 <= i < j < r.len() implies spec_val_le(
            r[i],
            r[j],
            k,
            d,
        ) by {
            if j == r.len() - 1 {
                assert(r[i] == s[i]);
                if i < s.len() - 1 {
                    assert(spec_val_le(s[i], s.last(), k, d));
                    lemma_val_le_trans(s[i], s.last(), x, k, d);
                }
            } else {
                assert(r[i] == s[i] && r[j] == s[j]);
            }
        }
    } else {
        lemma_insert_sorted_sorted(s.drop_last(), x, k, d);
        lemma_insert_sorted_membership(s.drop_last(), x, k, d);
        lemma_val_le_total(s.last(), x, k, d);
        let inner = spec_insert_sorted(s.drop_last(), x, k, d);
        assert forall|i: int, j: int| 0 <= i < j < r.len() implies spec_val_le(
            r[i],
            r[j],
            k,
            d,
        ) by {
            if j == r.len() - 1 {
                assert(r[j] == s.last());
                assert(r[i] == inner[i]);
                if inner[i] == x {
                    assert(spec_val_le(x, s.last(), k, d));
                } else {
                    assert(s.drop_last().contains(inner[i]));
                    let n = choose|n: int|
                        0 <= n < s.drop_last().len() && s.drop_last()[n] == inner[i];
                    assert(s[n] == inner[i]);
                    assert(spec_val_le(s[n], s.last(), k, d));
                }
            } else {
                assert(r[i] == inner[i] && r[j] == inner[j]);
            }
        }
    }
}

/// One sorting pass sorts, whatever order the rows arrived in.
pub proof fn lemma_sort_pass_sorted(s: Seq<Map<Seq<char>, Seq<char>>>, k: Seq<char>, d: Seq<char>)
    ensures
        sorted_by(spec_sort_pass(s, k, d), k, d),
    decreases s.len(),
{
    if s.len() > 0 {
        lemma_sort_pass_sorted(s.drop_last(), k, d);
        lemma_insert_sorted_sorted(spec_sort_pass(s.drop_last(), k, d), s.last(), k, d);
    }
}

/// Rows pairwise related by `tie`, every pair in order.
pub open spec fn tie_ordered(
    s: Seq<Map<Seq<char>, Seq<char>>>,
    tie: spec_fn(Map<Seq<char>, Seq<char>>, Map<Seq<char>, Seq<char>>) -> bool,
) -> bool {
    forall|i: int, j: int| 0 <= i < j < s.len() ==> tie(s[i], s[j])
}

/// Rows ordered by one key, pairs equal on it related by `tie`.
pub open spec fn lex_sorted_by(
    s: Seq<Map<Seq<char>, Seq<char>>>,
    k: Seq<char>,
    d: Seq<char>,
    tie: spec_fn(Map<Seq<char>, Seq<char>>, Map<Seq<char>, Seq<char>>) -> bool,
) -> bool {
    forall|i: int, j: int|
        0 <= i < j < s.len() ==> spec_val_le(s[i], s[j], k, d) && (spec_cmp_values(s[i], s[j], k)
            == core::cmp::Ordering::Equal ==> tie(s[i], s[j]))
}

/// The stable insertion places a row after everything at-most it on the
/// pass's key; a run whose pairs stand in any earlier-established tie
/// relation therefore keeps that relation within ties of the new key.
pub proof fn lemma_insert_sorted_lex(
    s: Seq<Map<Seq<char>, Seq<char>>>,
    x: Map<Seq<char>, Seq<char>>,
    k1: Seq<char>,
    d1: Seq<char>,
    tie: spec_fn(Map<Seq<char>, Seq<char>>, Map<Seq<char>, Seq<char>>) -> bool,
)
    requires
        lex_sorted_by(s, k1, d1, tie),
        forall|m: int| 0 <= m < s.len() ==> tie(#[trigger] s[m], x),
    ensures
        lex_sorted_by(spec_insert_sorted(s, x, k1, d1), k1, d1, tie),
    decreases s.len(),
{
    let r = spec_insert_sorted(s, x, k1, d1);
    if s.len() == 0 {
    } else if spec_val_le(s.last(), x, k1, d1) {
        assert forall|i: int, j: int|
            0 <= i < j < r.len() implies spec_val_le(r[i], r[j], k1, d1) && (spec_cmp_values(
            r[i],
            r[j],
            k1,
        ) == core::cmp::Ordering::Equal ==> tie(r[i], r[j])) by {
            if j == r.len() - 1 {
                assert(r[i] == s[i]);
                assert(r[j] == x);
                if i < s.len() - 1 {
                    assert(spec_val_le(s[i], s.last(), k1, d1));
                    lemma_val_le_trans(s[i], s.last(), x, k1, d1);
                }
                assert(tie(s[i], x));
            } else {
                assert(r[i] == s[i] && r[j] == s[j]);
            }
        }
    } else {
        lemma_insert_sorted_lex(s.drop_last(), x, k1, d1, tie);
        lemma_insert_sorted_membership(s.drop_last(), x, k1, d1);
        lemma_val_le_total(s.last(), x, k1, d1);
        let inner = spec_insert_sorted(s.drop_last(), x, k1, d1);
        assert forall|i: int, j: int|
            0 <= i < j < r.len() implies spec_val_le(r[i], r[j], k1, d1) && (spec_cmp_values(
            r[i],
            r[j],
            k1,
        ) == core::cmp::Ordering::Equal ==> tie(r[i], r[j])) by {
            if j == r.len() - 1 {
                assert(r[j] == s.last());
                assert(r[i] == inner[i]);
                if inner[i] == x {
                    assert(spec_val_le(x, s.last(), k1, d1));
                    if spec_cmp_values(x, s.last(), k1) == core::cmp::Ordering::Equal {
                        lemma_cmp_values_antisym(x, s.last(), k1);
                        assert(spec_val_le(s.last(), x, k1, d1));
                        assert(false);
                    }
                } else {
                    assert(s.drop_last().contains(inner[i]));
                    let n = choose|n: int|
                        0 <= n < s.drop_last().len() && s.drop_last()[n] == inner[i];
                    assert(s[n] == inner[i]);
                    assert(spec_val_le(s[n], s.last(), k1, d1) && (spec_cmp_values(
                        s[n],
                        s.last(),
                        k1,
                    ) == core::cmp::Ordering::Equal ==> tie(s[n], s.last())));
                }
            } else {
                assert(r[i] == inner[i] && r[j] == inner[j]);
            }
        }
    }
}

/// A pass over rows whose pairs stand in any tie relation leaves them
/// ordered by the pass's key, ties still standing in that relation: the
/// heart of multi-key ORDER BY.
pub proof fn lemma_sort_pass_lex(
    s: Seq<Map<Seq<char>, Seq<char>>>,
    k1: Seq<char>,
    d1: Seq<char>,
    tie: spec_fn(Map<Seq<char>, Seq<char>>, Map<Seq<char>, Seq<char>>) -> bool,
)
    requires
        tie_ordered(s, tie),
    ensures
        lex_sorted_by(spec_sort_pass(s, k1, d1), k1, d1, tie),
    decreases s.len(),
{
    if s.len() > 0 {
        lemma_sort_pass_lex(s.drop_last(), k1, d1, tie);
        lemma_sort_pass_membership(s.drop_last(), k1, d1);
        let inner = spec_sort_pass(s.drop_last(), k1, d1);
        assert forall|m: int| 0 <= m < inner.len() implies tie(#[trigger] inner[m], s.last()) by {
            assert(s.drop_last().contains(inner[m]));
            let n = choose|n: int| 0 <= n < s.drop_last().len() && s.drop_last()[n] == inner[m];
            assert(s[n] == inner[m]);
            assert(tie(s[n], s.last()));
        }
        lemma_insert_sorted_lex(inner, s.last(), k1, d1, tie);
    }
}

/// The delete filter is the complement of evaluation: a data line whose
/// condition evaluates is kept in the output exactly when it evaluates to
/// false, and the vacuous condition `True` removes every row.
pub proof fn lemma_delete_filter_complement(
    cols: Seq<Seq<char>>,
    cond: ExpressionModel,
    line: Seq<char>,
)
    requires
        spec_split(line, ',').len() == cols.len(),
    ensures
        ({
            let vals = spec_zip_map(cols, spec_split(line, ','));
            &&& (forall|b: bool|
                spec_eval(cond, vals) == Some(b) ==> spec_delete_line(cols, cond, line) == Ok::<
                    _,
                    ErrorKind,
                >(
                    if b {
                        Seq::<Seq<char>>::empty()
                    } else {
                        seq![spec_render(cols, vals)]
                    },
                ))
            &&& (cond == ExpressionModel::True ==> spec_delete_line(cols, cond, line) == Ok::<
                _,
                ErrorKind,
            >(Seq::<Seq<char>>::empty()))
        }),
{
}

/// ORDER BY with one key sorts the rows by that key.
pub proof fn lemma_order_by_single_key(
    s: Seq<Map<Seq<char>, Seq<char>>>,
    k: Seq<char>,
    d: Seq<char>,
)
    ensures
        sorted_by(spec_order_vals(s, seq![(k, d)]), k, d),
{
    let ob = seq![(k, d)];
    assert(ob.drop_first() =~= Seq::<(Seq<char>, Seq<char>)>::empty());
    assert(ob[0] == (k, d));
    assert(spec_order_vals(s, ob.drop_first()) == s);
    assert(spec_order_vals(s, ob) == spec_sort_pass(s, k, d));
    lemma_sort_pass_sorted(s, k, d);
}

/// ORDER BY with two keys: the passes run in reverse key order and each
/// pass is stable, so in the final order the first-listed key dominates,
/// and rows comparing equal on it are ordered by the second key.
pub proof fn lemma_order_by_two_keys(
    s: Seq<Map<Seq<char>, Seq<char>>>,
    k1: Seq<char>,
    d1: Seq<char>,
    k2: Seq<char>,
    d2: Seq<char>,
)
    ensures
        lex_sorted(spec_order_vals(s, seq![(k1, d1), (k2, d2)]), k1, d1, k2, d2),
{
    let ob = seq![(k1, d1), (k2, d2)];
    assert(ob.drop_first() =~= seq![(k2, d2)]);
    assert(ob.drop_first().drop_first() =~= Seq::<(Seq<char>, Seq<char>)>::empty());
    assert(ob[0] == (k1, d1));
    assert(ob.drop_first()[0] == (k2, d2));
    assert(spec_order_vals(s, ob.drop_first().drop_first()) == s);
    assert(spec_order_vals(s, ob.drop_first()) == spec_sort_pass(s, k2, d2));
    assert(spec_order_vals(s, ob) == spec_sort_pass(spec_sort_pass(s, k2, d2), k1, d1));
    lemma_sort_pass_sorted(s, k2, d2);
    let tie = |a: Map<Seq<char>, Seq<char>>, b: Map<Seq<char>, Seq<char>>|
        spec_val_le(a, b, k2, d2);
    let inner = spec_sort_pass(s, k2, d2);
    assert forall|i: int, j: int| 0 <= i < j < inner.len() implies tie(inner[i], inner[j]) by {
        assert(spec_val_le(inner[i], inner[j], k2, d2));
    }
    lemma_sort_pass_lex(inner, k1, d1, tie);
    let r = spec_order_vals(s, ob);
    assert forall|i: int, j: int|
        0 <= i < j < r.len() implies spec_val_le(r[i], r[j], k1, d1) && (spec_cmp_values(
        r[i],
        r[j],
        k1,
    ) == core::cmp::Ordering::Equal ==> spec_val_le(r[i], r[j], k2, d2)) by {
        assert(spec_val_le(r[i], r[j], k1, d1) && (spec_cmp_values(r[i], r[j], k1)
            == core::cmp::Ordering::Equal ==> tie(r[i], r[j])));
    }
}

/// The lexicographic at-most order of a whole key list: rows equal on
/// every earlier key are ordered by the next, and rows equal on all keys
/// are unconstrained.
pub open spec fn keys_le(
    a: Map<Seq<char>, Seq<char>>,
    b: Map<Seq<char>, Seq<char>>,
    order_by: Seq<(Seq<char>, Seq<char>)>,
) -> bool
    decreases order_by.len(),
{
    if order_by.len() == 0 {
        true
    } else if spec_cmp_values(a, b, order_by[0].0) == core::cmp::Ordering::Equal {
        keys_le(a, b, order_by.drop_first())
    } else {
        spec_val_le(a, b, order_by[0].0, order_by[0].1)
    }
}

/// ORDER BY with any key list: every pair of the result stands in the
/// keys' lexicographic at-most order — the first-listed key dominates,
/// and each later key orders only rows equal on all the keys before it.
pub proof fn lemma_order_by_keys(s: Seq<Map<Seq<char>, Seq<char>>>, ob: Seq<(Seq<char>, Seq<char>)>)
    ensures
        forall|i: int, j: int|
            0 <= i < j < spec_order_vals(s, ob).len() ==> keys_le(
                spec_order_vals(s, ob)[i],
                spec_order_vals(s, ob)[j],
                ob,
            ),
    decreases ob.len(),
{
    let r = spec_order_vals(s, ob);
    if ob.len() == 0 {
        assert forall|i: int, j: int| 0 <= i < j < r.len() implies keys_le(r[i], r[j], ob) by {}
    } else {
        let rest = ob.drop_first();
        lemma_order_by_keys(s, rest);
        let r1 = spec_order_vals(s, rest);
        let tie = |a: Map<Seq<char>, Seq<char>>, b: Map<Seq<char>, Seq<char>>| keys_le(a, b, rest);
        assert forall|i: int, j: int| 0 <= i < j < r1.len() implies tie(r1[i], r1[j]) by {
            assert(keys_le(r1[i], r1[j], rest));
        }
        lemma_sort_pass_lex(r1, ob[0].0, ob[0].1, tie);
        assert forall|i: int, j: int| 0 <= i < j < r.len() implies keys_le(r[i], r[j], ob) by {
            assert(spec_val_le(r[i], r[j], ob[0].0, ob[0].1) && (spec_cmp_values(
                r[i],
                r[j],
                ob[0].0,
            ) == core::cmp::Ordering::Equal ==> tie(r[i], r[j])));
        }
    }
}

/// Insertion adds one copy of the new row and keeps every other row:
/// the result is the old rows plus `x`, as multisets.
pub proof fn lemma_insert_sorted_permutation(
    s: Seq<Map<Seq<char>, Seq<char>>>,
    x: Map<Seq<char>, Seq<char>>,
    k: Seq<char>,
    d: Seq<char>,
)
    ensures
        spec_insert_sorted(s, x, k, d).to_multiset() == s.to_multiset().insert(x),
    decreases s.len(),
{
    broadcast use vstd::seq_lib::group_to_multiset_ensures;

    if s.len() == 0 {
        assert(seq![x] =~= Seq::<Map<Seq<char>, Seq<char>>>::empty().push(x));
        assert(Seq::<Map<Seq<char>, Seq<char>>>::empty().to_multiset() =~= vstd::multiset::Multiset::empty());
        assert(spec_insert_sorted(s, x, k, d).to_multiset() =~= s.to_multiset().insert(x));
    } else if spec_val_le(s.last(), x, k, d) {
        assert(spec_insert_sorted(s, x, k, d).to_multiset() =~= s.to_multiset().insert(x));
    } else {
        lemma_insert_sorted_permutation(s.drop_last(), x, k, d);
        assert(s.drop_last().push(s.last()) =~= s);
        assert(spec_insert_sorted(s.drop_last(), x, k, d).push(s.last()).to_multiset()
            =~= spec_insert_sorted(s.drop_last(), x, k, d).to_multiset().insert(s.last()));
        assert(spec_insert_sorted(s, x, k, d).to_multiset() =~= s.to_multiset().insert(x));
    }
}

/// One sorting pass permutes the rows: same values, same multiplicities.
pub proof fn lemma_sort_pass_permutation(
    s: Seq<Map<Seq<char>, Seq<char>>>,
    k: Seq<char>,
    d: Seq<char>,
)
    ensures
        spec_sort_pass(s, k, d).to_multiset() == s.to_multiset(),
    decreases s.len(),
{
    broadcast use vstd::seq_lib::group_to_multiset_ensures;

    if s.len() > 0 {
        lemma_sort_pass_permutation(s.drop_last(), k, d);
        lemma_insert_sorted_permutation(spec_sort_pass(s.drop_last(), k, d), s.last(), k, d);
        assert(s.drop_last().push(s.last()) =~= s);
        assert(spec_sort_pass(s, k, d).to_multiset() =~= s.to_multiset());
    }
}

/// The whole ORDER BY permutes the rows.
pub proof fn lemma_order_vals_permutation(
    s: Seq<Map<Seq<char>, Seq<char>>>,
    ob: Seq<(Seq<char>, Seq<char>)>,
)
    ensures
        spec_order_vals(s, ob).to_multiset() == s.to_multiset(),
    decreases ob.len(),
{
    if ob.len() > 0 {
        lemma_order_vals_permutation(s, ob.drop_first());
        lemma_sort_pass_permutation(spec_order_vals(s, ob.drop_first()), ob[0].0, ob[0].1);
    }
}

} // verus!

verus! {

/// Whether two rows compare equal on every listed key.
pub open spec fn same_on_keys(
    a: Map<Seq<char>, Seq<char>>,
    b: Map<Seq<char>, Seq<char>>,
    order_by: Seq<(Seq<char>, Seq<char>)>,
) -> bool {
    forall|m: int|
        0 <= m < order_by.len() ==> spec_cmp_values(a, b, (#[trigger] order_by[m]).0)
            == core::cmp::Ordering::Equal
}

/// Insertion leaves the rows of one key-equality class in order: the new
/// row lands after every row of its own class, so filtering by the class
/// appends it at the end.
proof fn lemma_insert_sorted_stable(
    s: Seq<Map<Seq<char>, Seq<char>>>,
    x: Map<Seq<char>, Seq<char>>,
    k: Seq<char>,
    d: Seq<char>,
    p: spec_fn(Map<Seq<char>, Seq<char>>) -> bool,
)
    requires
        forall|v: Map<Seq<char>, Seq<char>>, w: Map<Seq<char>, Seq<char>>|
            p(v) && p(w) ==> #[trigger] spec_cmp_values(v, w, k) == core::cmp::Ordering::Equal,
    ensures
        spec_insert_sorted(s, x, k, d).filter(p) == (if p(x) {
            s.filter(p).push(x)
        } else {
            s.filter(p)
        }),
    decreases s.len(),
{
    reveal(Seq::filter);
    let r = spec_insert_sorted(s, x, k, d);
    if s.len() == 0 {
        assert(seq![x].drop_last() =~= s);
        assert(seq![x].last() == x);
    } else if spec_val_le(s.last(), x, k, d) {
        assert(r.drop_last() =~= s);
        assert(r.last() == x);
    } else {
        if p(x) && p(s.last()) {
            assert(spec_cmp_values(s.last(), x, k) == core::cmp::Ordering::Equal);
            lemma_cmp_values_antisym(s.last(), x, k);
            assert(spec_val_le(s.last(), x, k, d));
            assert(false);
        }
        lemma_insert_sorted_stable(s.drop_last(), x, k, d, p);
        let inner = spec_insert_sorted(s.drop_last(), x, k, d);
        assert(r.drop_last() =~= inner);
        assert(r.last() == s.last());
    }
}

/// One sorting pass leaves the rows of one key-equality class in their
/// original relative order.
proof fn lemma_sort_pass_stable(
    s: Seq<Map<Seq<char>, Seq<char>>>,
    k: Seq<char>,
    d: Seq<char>,
    p: spec_fn(Map<Seq<char>, Seq<char>>) -> bool,
)
    requires
        forall|v: Map<Seq<char>, Seq<char>>, w: Map<Seq<char>, Seq<char>>|
            p(v) && p(w) ==> #[trigger] spec_cmp_values(v, w, k) == core::cmp::Ordering::Equal,
    ensures
        spec_sort_pass(s, k, d).filter(p) == s.filter(p),
    decreases s.len(),
{
    reveal(Seq::filter);
    if s.len() > 0 {
        lemma_sort_pass_stable(s.drop_last(), k, d, p);
        lemma_insert_sorted_stable(spec_sort_pass(s.drop_last(), k, d), s.last(), k, d, p);
    }
}

/// Every pass preserves a class that is equal on every listed key.
proof fn lemma_order_vals_stable(
    s: Seq<Map<Seq<char>, Seq<char>>>,
    ob: Seq<(Seq<char>, Seq<char>)>,
    p: spec_fn(Map<Seq<char>, Seq<char>>) -> bool,
)
    requires
        forall|m: int, v: Map<Seq<char>, Seq<char>>, w: Map<Seq<char>, Seq<char>>|
            0 <= m < ob.len() && p(v) && p(w) ==> #[trigger] spec_cmp_values(v, w, ob[m].0)
                == core::cmp::Ordering::Equal,
    ensures
        spec_order_vals(s, ob).filter(p) == s.filter(p),
    decreases ob.len(),
{
    if ob.len() > 0 {
        let rest = ob.drop_first();
        assert forall|m: int, v: Map<Seq<char>, Seq<char>>, w: Map<Seq<char>, Seq<char>>|
            0 <= m < rest.len() && p(v) && p(w) implies #[trigger] spec_cmp_values(
            v,
            w,
            rest[m].0,
        ) == core::cmp::Ordering::Equal by {
            assert(rest[m] == ob[m + 1]);
            assert(spec_cmp_values(v, w, ob[m + 1].0) == core::cmp::Ordering::Equal);
        }
        lemma_order_vals_stable(s, rest, p);
        assert forall|v: Map<Seq<char>, Seq<char>>, w: Map<Seq<char>, Seq<char>>|
            p(v) && p(w) implies #[trigger] spec_cmp_values(v, w, ob[0].0)
            == core::cmp::Ordering::Equal by {
            assert(spec_cmp_values(v, w, ob[0].0) == core::cmp::Ordering::Equal);
        }
        lemma_sort_pass_stable(spec_order_vals(s, rest), ob[0].0, ob[0].1, p);
    }
}

/// Stability of ORDER BY: the rows that agree with a given row on every
/// listed key appear in the sorted result in exactly their original
/// relative order (each pass is stable, so ties are never reordered).
pub proof fn lemma_order_by_stable(
    s: Seq<Map<Seq<char>, Seq<char>>>,
    ob: Seq<(Seq<char>, Seq<char>)>,
    a: Map<Seq<char>, Seq<char>>,
)
    ensures
        spec_order_vals(s, ob).filter(
            |v: Map<Seq<char>, Seq<char>>| same_on_keys(v, a, ob),
        ) == s.filter(|v: Map<Seq<char>, Seq<char>>| same_on_keys(v, a, ob)),
{
    let p = |v: Map<Seq<char>, Seq<char>>| same_on_keys(v, a, ob);
    assert forall|m: int, v: Map<Seq<char>, Seq<char>>, w: Map<Seq<char>, Seq<char>>|
        0 <= m < ob.len() && p(v) && p(w) implies #[trigger] spec_cmp_values(v, w, ob[m].0)
        == core::cmp::Ordering::Equal by {
        let k = ob[m].0;
        assert(spec_cmp_values(v, a, k) == core::cmp::Ordering::Equal);
        assert(spec_cmp_values(w, a, k) == core::cmp::Ordering::Equal);
        lemma_cmp_values_antisym(w, a, k);
        lemma_cmp_values_trans(v, a, w, k);
        lemma_cmp_values_antisym(v, a, k);
        lemma_cmp_values_trans(w, a, v, k);
        lemma_cmp_values_antisym(v, w, k);
    }
    lemma_order_vals_stable(s, ob, p);
}

} // verus!
