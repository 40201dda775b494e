//! One CSV record: the table's ordered column list plus a map from column
//! name to value.  Rows are evaluated against WHERE conditions, updated in
//! place by UPDATE assignments, filtered by DELETE, compared for ORDER BY,
//! and rendered back to CSV text.

use crate::error::CustomError;
use crate::expression::evaluate_expression;
use crate::expression::spec_eval;
use crate::expression::Expression;
use crate::text::join_strings;
use crate::text::contains_string;
use crate::text::lemma_vec_deep_view;
use crate::text::spec_join;
use crate::text::spec_str_cmp;
use crate::text::str_compare;
use crate::text::str_eq_str;
use crate::value_map::ValueMap;
use vstd::prelude::*;
use vstd::string::StringExecFns;

verus! {

/// A row bound to a schema: the column names in table order, and the
/// values keyed by column name.  A column without a value renders as the
/// empty string.
pub struct Row {
    columns_in_order: Vec<String>,
    values: ValueMap,
}

/// The value a column renders as: its mapped value, or empty when absent.
pub open spec fn spec_value_of(vals: Map<Seq<char>, Seq<char>>, col: Seq<char>) -> Seq<char> {
    if vals.contains_key(col) {
        vals[col]
    } else {
        Seq::empty()
    }
}

/// One rendered CSV line: the columns' values in order, comma-joined,
/// ending in a newline.
pub open spec fn spec_render(cols: Seq<Seq<char>>, vals: Map<Seq<char>, Seq<char>>) -> Seq<char> {
    spec_join(cols.map_values(|c: Seq<char>| spec_value_of(vals, c)), ',') + seq!['\n']
}

/// Whether every assignment names a column the row holds a value for.
pub open spec fn updates_ok(
    vals: Map<Seq<char>, Seq<char>>,
    entries: Seq<(Seq<char>, Seq<char>)>,
) -> bool {
    forall|i: int| 0 <= i < entries.len() ==> vals.contains_key(entries[i].0)
}

/// The assignments applied in order, stopping at the first one whose
/// column the row lacks: exactly what an UPDATE leaves behind, whether it
/// succeeds or fails part-way.
pub open spec fn fold_updates(
    vals: Map<Seq<char>, Seq<char>>,
    entries: Seq<(Seq<char>, Seq<char>)>,
) -> Map<Seq<char>, Seq<char>>
    decreases entries.len(),
{
    if entries.len() == 0 {
        vals
    } else if !vals.contains_key(entries[0].0) {
        vals
    } else {
        fold_updates(vals.insert(entries[0].0, entries[0].1), entries.drop_first())
    }
}

/// The ordering of two rows on one column: a missing value sorts before a
/// present one; two present values compare as text.
pub open spec fn spec_cmp_values(
    va: Map<Seq<char>, Seq<char>>,
    vb: Map<Seq<char>, Seq<char>>,
    col: Seq<char>,
) -> core::cmp::Ordering {
    if !va.contains_key(col) && !vb.contains_key(col) {
        core::cmp::Ordering::Equal
    } else if !va.contains_key(col) {
        core::cmp::Ordering::Less
    } else if !vb.contains_key(col) {
        core::cmp::Ordering::Greater
    } else {
        spec_str_cmp(va[col], vb[col])
    }
}

/// Overwrites the value of a key the map already holds; a missing key is
/// an invalid-column error and leaves the map unchanged.
pub fn update_if_present(map: &mut ValueMap, key: &str, value: &str) -> (r: Result<
    (),
    CustomError,
>)
    requires
        old(map).wf(),
    ensures
        final(map).wf(),
        match r {
            Ok(()) => old(map)@.contains_key(key@) && final(map)@ == old(map)@.insert(
                key@,
                value@,
            ),
            Err(e) => !old(map)@.contains_key(key@) && *final(map) == *old(map)
                && e is InvalidColumn,
        },
{
    if map.contains_key(key) {
        map.insert(String::from_str(key), String::from_str(value));
        Ok(())
    } else {
        Err(CustomError::InvalidColumn { message: String::from_str("Column does not exist") })
    }
}

impl Row {
    /// The schema, as plain character sequences.
    pub closed spec fn spec_columns(&self) -> Seq<Seq<char>> {
        self.columns_in_order.deep_view()
    }

    /// The value map, as the mathematical map.
    pub closed spec fn spec_values(&self) -> Map<Seq<char>, Seq<char>> {
        self.values@
    }

    /// The underlying value map keeps unique keys.
    pub closed spec fn wf(&self) -> bool {
        self.values.wf()
    }

    /// Builds a row from a schema and a value map; the schema is copied.
    pub fn new(columns: &Vec<String>, values: ValueMap) -> (r: Row)
        requires
            values.wf(),
        ensures
            r.spec_columns() == columns.deep_view(),
            r.spec_values() == values@,
            r.wf(),
    {
        let mut columns_in_order: Vec<String> = Vec::new();
        let mut i: usize = 0;
        while i < columns.len()
            invariant
                i <= columns@.len(),
                columns_in_order.deep_view() == columns.deep_view().subrange(0, i as int),
            decreases columns@.len() - i,
        {
            let ghost pre = columns_in_order.deep_view();
            columns_in_order.push(columns[i].clone());
            i += 1;
            proof {
                lemma_vec_deep_view(columns);
                let ghost colv = columns.deep_view()[i - 1];
                assert(columns_in_order.deep_view() =~= pre.push(colv));
                assert(pre.push(colv) =~= columns.deep_view().subrange(0, i as int));
            }
        }
        proof {
            assert(columns.deep_view().subrange(0, columns@.len() as int) =~= columns.deep_view());
        }
        Row { columns_in_order, values }
    }

    /// The schema, for callers outside the crate.
    pub fn columns(&self) -> (r: &Vec<String>)
        ensures
            r.deep_view() == self.spec_columns(),
    {
        &self.columns_in_order
    }

    /// Renders the row as one CSV line, as [`spec_render`] defines it.
    pub fn write_row(&self) -> (r: String)
        requires
            self.wf(),
            self.spec_columns().len() > 0,
        ensures
            r@ == spec_render(self.spec_columns(), self.spec_values()),
    {
        let mut rendered: Vec<String> = Vec::new();
        let mut i: usize = 0;
        while i < self.columns_in_order.len()
            invariant
                self.wf(),
                i <= self.columns_in_order@.len(),
                rendered.deep_view() == self.spec_columns().subrange(0, i as int).map_values(
                    |c: Seq<char>| spec_value_of(self.spec_values(), c),
                ),
            decreases self.columns_in_order@.len() - i,
        {
            proof {
                lemma_vec_deep_view(&self.columns_in_order);
            }
            let ghost pre = rendered.deep_view();
            let ghost colv = self.spec_columns()[i as int];
            let value = match self.values.get(self.columns_in_order[i].as_str()) {
                Some(v) => v.clone(),
                None => String::new(),
            };
            rendered.push(value);
            i += 1;
            proof {
                assert(rendered.deep_view() =~= pre.push(
                    spec_value_of(self.spec_values(), colv),
                ));
                assert(pre.push(spec_value_of(self.spec_values(), colv)) =~= self.spec_columns()
                    .subrange(0, i as int).map_values(
                    |c: Seq<char>| spec_value_of(self.spec_values(), c),
                ));
            }
        }
        proof {
            assert(self.spec_columns().subrange(0, self.columns_in_order@.len() as int)
                =~= self.spec_columns());
        }
        let mut line = join_strings(&rendered, ',');
        line.append("\n");
        proof {
            reveal_strlit("\n");
            assert("\n"@ =~= seq!['\n']);
            assert(line@ =~= spec_render(self.spec_columns(), self.spec_values()));
        }
        line
    }

    /// Applies UPDATE assignments to this row where the condition holds.
    /// The assignments are applied in entry order; one that names a column
    /// the row lacks fails with an invalid-column error, leaving the
    /// assignments before it applied, as [`fold_updates`] describes.  The
    /// row is unchanged when the condition is false, and a condition that
    /// cannot be evaluated fails without touching the row.
    pub fn update_row(&mut self, update_values: &ValueMap, condition: &Expression) -> (r: Result<
        (),
        CustomError,
    >)
        requires
            old(self).wf(),
            update_values.wf(),
        ensures
            final(self).wf(),
            final(self).spec_columns() == old(self).spec_columns(),
            match r {
                Ok(()) => match spec_eval(condition@, old(self).spec_values()) {
                    Some(b) => if b {
                        updates_ok(old(self).spec_values(), update_values.entry_seq())
                            && final(self).spec_values() == fold_updates(
                            old(self).spec_values(),
                            update_values.entry_seq(),
                        )
                    } else {
                        final(self).spec_values() == old(self).spec_values()
                    },
                    None => false,
                },
                Err(e) => match spec_eval(condition@, old(self).spec_values()) {
                    Some(b) => b && !updates_ok(
                        old(self).spec_values(),
                        update_values.entry_seq(),
                    ) && e is InvalidColumn && final(self).spec_values() == fold_updates(
                        old(self).spec_values(),
                        update_values.entry_seq(),
                    ),
                    None => e is GenericError && final(self).spec_values() == old(self).spec_values(),
                },
            },
    {
        let expression_is_true = evaluate_expression(condition, &self.values)?;
        if !expression_is_true {
            return Ok(());
        }
        let ghost vals0 = old(self).spec_values();
        let ghost entries = update_values.entry_seq();
        let n = update_values.num_entries();
        let mut idx: usize = 0;
        proof {
            assert(entries.skip(0) =~= entries);
        }
        while idx < n
            invariant
                self.wf(),
                update_values.wf(),
                n == entries.len(),
                idx <= n,
                entries == update_values.entry_seq(),
                spec_eval(condition@, vals0) == Some(true),
                self.spec_columns() == old(self).spec_columns(),
                vals0 == old(self).spec_values(),
                self.values@.dom() =~= vals0.dom(),
                forall|j: int| 0 <= j < idx ==> vals0.contains_key(entries[j].0),
                fold_updates(vals0, entries) == fold_updates(
                    self.values@,
                    entries.skip(idx as int),
                ),
            decreases n - idx,
        {
            let (key, value) = update_values.entry_at(idx);
            let key = key.clone();
            let value = value.clone();
            let ghost before = self.values@;
            let step = update_if_present(&mut self.values, key.as_str(), value.as_str());
            proof {
                assert(entries.skip(idx as int)[0] == entries[idx as int]);
                assert(entries.skip(idx as int).drop_first() =~= entries.skip(idx + 1));
            }
            match step {
                Ok(()) => {
                    proof {
                        assert(self.values@.dom() =~= before.dom());
                    }
                    idx += 1;
                },
                Err(e) => {
                    proof {
                        assert(fold_updates(before, entries.skip(idx as int)) == before);
                        assert(!vals0.contains_key(entries[idx as int].0));
                    }
                    return Err(e);
                },
            }
        }
        proof {
            assert(entries.skip(n as int) =~= Seq::<(Seq<char>, Seq<char>)>::empty());
        }
        Ok(())
    }

    /// The delete filter: the row is kept exactly when the condition is
    /// false; an unevaluable condition fails.
    pub fn delete_row(&self, condition: &Expression) -> (r: Result<bool, CustomError>)
        requires
            self.wf(),
        ensures
            match r {
                Ok(keep) => spec_eval(condition@, self.spec_values()) == Some(!keep),
                Err(e) => spec_eval(condition@, self.spec_values()) is None && e is GenericError,
            },
    {
        let expression_is_true = evaluate_expression(condition, &self.values)?;
        Ok(!expression_is_true)
    }

    /// Whether the row satisfies the condition.
    pub fn check_condition(&self, condition: &Expression) -> (r: Result<bool, CustomError>)
        requires
            self.wf(),
        ensures
            match r {
                Ok(b) => spec_eval(condition@, self.spec_values()) == Some(b),
                Err(e) => spec_eval(condition@, self.spec_values()) is None && e is GenericError,
            },
    {
        evaluate_expression(condition, &self.values)
    }

    /// The row's value for a column, if it has one.
    pub fn get(&self, column: &str) -> (r: Option<&String>)
        requires
            self.wf(),
        ensures
            match r {
                Some(v) => self.spec_values().contains_key(column@) && v@
                    == self.spec_values()[column@],
                None => !self.spec_values().contains_key(column@),
            },
    {
        self.values.get(column)
    }

    /// Compares two rows on one column, as [`spec_cmp_values`] defines it.
    pub fn cmp_by_column(&self, column: &str, row: &Row) -> (r: core::cmp::Ordering)
        requires
            self.wf(),
            row.wf(),
        ensures
            r == spec_cmp_values(self.spec_values(), row.spec_values(), column@),
    {
        let va = self.values.get(column);
        let vb = row.values.get(column);
        match (va, vb) {
            (None, None) => core::cmp::Ordering::Equal,
            (None, Some(_)) => core::cmp::Ordering::Less,
            (Some(_), None) => core::cmp::Ordering::Greater,
            (Some(value1), Some(value2)) => str_compare(value1.as_str(), value2.as_str()),
        }
    }

    /// Renders the requested columns of the row as one CSV line; a column
    /// outside the row's schema is an invalid-column error.
    pub fn print_row(&self, columns_to_print: &Vec<String>) -> (r: Result<String, CustomError>)
        requires
            self.wf(),
        ensures
            match r {
                Ok(line) => (forall|i: int|
                    0 <= i < columns_to_print.deep_view().len() ==> self.spec_columns().contains(
                        columns_to_print.deep_view()[i],
                    )) && line@ == spec_render(columns_to_print.deep_view(), self.spec_values()),
                Err(e) => (exists|i: int|
                    0 <= i < columns_to_print.deep_view().len() && !self.spec_columns().contains(
                        columns_to_print.deep_view()[i],
                    )) && e is InvalidColumn,
            },
    {
        let mut rendered: Vec<String> = Vec::new();
        let mut i: usize = 0;
        while i < columns_to_print.len()
            invariant
                self.wf(),
                i <= columns_to_print@.len(),
                forall|j: int|
                    0 <= j < i ==> self.spec_columns().contains(columns_to_print.deep_view()[j]),
                rendered.deep_view() == columns_to_print.deep_view().subrange(0, i as int)
                    .map_values(|c: Seq<char>| spec_value_of(self.spec_values(), c)),
            decreases columns_to_print@.len() - i,
        {
            proof {
                lemma_vec_deep_view(columns_to_print);
            }
            let column = &columns_to_print[i];
            let found = contains_string(&self.columns_in_order, column.as_str());
            if !found {
                proof {
                    assert(columns_to_print.deep_view()[i as int] == column@);
                }
                let mut message = String::from_str("Column ");
                message.append(column.as_str());
                message.append(" does not exist");
                return Err(CustomError::InvalidColumn { message });
            }
            let ghost pre = rendered.deep_view();
            let ghost colv = columns_to_print.deep_view()[i as int];
            let value = match self.values.get(column.as_str()) {
                Some(v) => v.clone(),
                None => String::new(),
            };
            rendered.push(value);
            i += 1;
            proof {
                assert(rendered.deep_view() =~= pre.push(
                    spec_value_of(self.spec_values(), colv),
                ));
                assert(pre.push(spec_value_of(self.spec_values(), colv)) =~= columns_to_print
                    .deep_view().subrange(0, i as int).map_values(
                    |c: Seq<char>| spec_value_of(self.spec_values(), c),
                ));
            }
        }
        proof {
            assert(columns_to_print.deep_view().subrange(0, columns_to_print@.len() as int)
                =~= columns_to_print.deep_view());
        }
        let mut line = join_strings(&rendered, ',');
        line.append("\n");
        proof {
            reveal_strlit("\n");
            assert("\n"@ =~= seq!['\n']);
            assert(line@ =~= spec_render(columns_to_print.deep_view(), self.spec_values()));
        }
        Ok(line)
    }
}

/// An UPDATE whose assignments all name existing columns applies every
/// one of them: the result keeps the row's columns, each assigned column
/// carries its assigned value, and every other column is untouched.
pub proof fn lemma_update_all_keys_applied(
    vals: Map<Seq<char>, Seq<char>>,
    entries: Seq<(Seq<char>, Seq<char>)>,
)
    requires
        updates_ok(vals, entries),
        forall|a: int, b: int| 0 <= a < b < entries.len() ==> entries[a].0 != entries[b].0,
    ensures
        fold_updates(vals, entries).dom() == vals.dom(),
        forall|i: int|
            0 <= i < entries.len() ==> fold_updates(vals, entries)[entries[i].0] == entries[i].1,
        forall|k: Seq<char>|
            vals.contains_key(k) && (forall|i: int| 0 <= i < entries.len() ==> entries[i].0 != k)
                ==> fold_updates(vals, entries)[k] == vals[k],
    decreases entries.len(),
{
    if entries.len() == 0 {
        assert(fold_updates(vals, entries).dom() =~= vals.dom());
    } else {
        let vals1 = vals.insert(entries[0].0, entries[0].1);
        let rest = entries.drop_first();
        assert forall|i: int| 0 <= i < rest.len() implies vals1.contains_key(rest[i].0) by {
            assert(rest[i] == entries[i + 1]);
        }
        lemma_update_all_keys_applied(vals1, rest);
        assert(vals1.dom() =~= vals.dom());
        assert forall|i: int|
            0 <= i < entries.len() implies fold_updates(vals, entries)[entries[i].0]
            == entries[i].1 by {
            if i == 0 {
                assert(forall|j: int| 0 <= j < rest.len() ==> rest[j].0 != entries[0].0);
                assert(fold_updates(vals1, rest)[entries[0].0] == vals1[entries[0].0]);
            } else {
                assert(rest[i - 1] == entries[i]);
            }
        }
        assert forall|k: Seq<char>|
            vals.contains_key(k) && (forall|i: int|
                0 <= i < entries.len() ==> entries[i].0 != k) implies fold_updates(
            vals,
            entries,
        )[k] == vals[k] by {
            assert(entries[0].0 != k);
            assert(vals1.contains_key(k) && vals1[k] == vals[k]);
            assert forall|i: int| 0 <= i < rest.len() implies rest[i].0 != k by {
                assert(rest[i] == entries[i + 1]);
            }
            assert(fold_updates(vals1, rest)[k] == vals1[k]);
        }
    }
}

} // verus!
