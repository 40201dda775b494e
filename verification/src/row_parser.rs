//! From CSV text to rows: the header line becomes the column list, each
//! data line becomes a [`Row`] keyed by those columns.

use crate::error::CustomError;
use crate::row::Row;
use crate::text::lemma_vec_deep_view;
use crate::text::spec_split;
use crate::text::spec_trim;
use crate::text::split_str;
use crate::text::trim_str;
use crate::value_map::ValueMap;
use vstd::prelude::*;
use vstd::string::StringExecFns;

verus! {

/// The header's column names: the comma-separated fields, each trimmed of
/// surrounding whitespace.
pub open spec fn spec_parse_columns(line: Seq<char>) -> Seq<Seq<char>> {
    spec_split(line, ',').map_values(|f: Seq<char>| spec_trim(f))
}

/// The value map a data line yields against a column list: the fields
/// bound positionally, later duplicate columns overriding earlier ones.
pub open spec fn spec_zip_map(cols: Seq<Seq<char>>, fields: Seq<Seq<char>>) -> Map<
    Seq<char>,
    Seq<char>,
>
    recommends
        cols.len() == fields.len(),
    decreases cols.len(),
{
    if cols.len() == 0 {
        Map::empty()
    } else {
        spec_zip_map(cols.drop_last(), fields.drop_last()).insert(cols.last(), fields.last())
    }
}

/// Splits a header line into trimmed column names, as
/// [`spec_parse_columns`] defines it.  This never fails; the `Result`
/// stands for symmetry with the other parsing steps.
pub fn parse_columns(line: &str) -> (r: Result<Vec<String>, CustomError>)
    ensures
        match r {
            Ok(cols) => cols.deep_view() == spec_parse_columns(line@),
            Err(_) => false,
        },
{
    let parts = split_str(line, ',');
    let mut cols: Vec<String> = Vec::new();
    let mut i: usize = 0;
    proof {
        lemma_vec_deep_view(&parts);
    }
    while i < parts.len()
        invariant
            i <= parts@.len(),
            parts.deep_view() == spec_split(line@, ','),
            parts.deep_view().len() == parts@.len(),
            forall|j: int| 0 <= j < parts@.len() ==> parts.deep_view()[j] == parts@[j]@,
            cols.deep_view() == parts.deep_view().subrange(0, i as int).map_values(
                |f: Seq<char>| spec_trim(f),
            ),
        decreases parts@.len() - i,
    {
        let ghost pre = cols.deep_view();
        let ghost partv = parts.deep_view()[i as int];
        cols.push(trim_str(parts[i].as_str()));
        i += 1;
        proof {
            assert(cols.deep_view() =~= pre.push(spec_trim(partv)));
            assert(pre.push(spec_trim(partv)) =~= parts.deep_view().subrange(0, i as int)
                .map_values(|f: Seq<char>| spec_trim(f)));
        }
    }
    proof {
        assert(parts.deep_view().subrange(0, parts@.len() as int) =~= parts.deep_view());
    }
    Ok(cols)
}

/// Parses one data line against a column list, as [`spec_zip_map`]
/// defines it; a line whose field count differs from the column count is
/// an invalid-table error.
pub fn parse_row(columns: &Vec<String>, line: &str) -> (r: Result<Row, CustomError>)
    ensures
        match r {
            Ok(row) => spec_split(line@, ',').len() == columns.deep_view().len()
                && row.spec_columns() == columns.deep_view() && row.spec_values() == spec_zip_map(
                columns.deep_view(),
                spec_split(line@, ','),
            ) && row.wf(),
            Err(e) => spec_split(line@, ',').len() != columns.deep_view().len()
                && e is InvalidTable,
        },
{
    let fields = split_str(line, ',');
    proof {
        lemma_vec_deep_view(&fields);
        lemma_vec_deep_view(columns);
    }
    if fields.len() != columns.len() {
        return Err(
            CustomError::InvalidTable { message: String::from_str("Columns size missmatch") },
        );
    }
    let mut row_values = ValueMap::new();
    let mut i: usize = 0;
    proof {
        assert(spec_zip_map(
            columns.deep_view().subrange(0, 0),
            fields.deep_view().subrange(0, 0),
        ) =~= Map::<Seq<char>, Seq<char>>::empty());
    }
    while i < fields.len()
        invariant
            i <= fields@.len(),
            fields@.len() == columns@.len(),
            fields.deep_view() == spec_split(line@, ','),
            fields.deep_view().len() == fields@.len(),
            columns.deep_view().len() == columns@.len(),
            forall|j: int| 0 <= j < fields@.len() ==> fields.deep_view()[j] == fields@[j]@,
            forall|j: int| 0 <= j < columns@.len() ==> columns.deep_view()[j] == columns@[j]@,
            row_values.wf(),
            row_values@ == spec_zip_map(
                columns.deep_view().subrange(0, i as int),
                fields.deep_view().subrange(0, i as int),
            ),
        decreases fields@.len() - i,
    {
        row_values.insert(columns[i].clone(), fields[i].clone());
        i += 1;
        proof {
            let cs = columns.deep_view().subrange(0, i as int);
            let fs = fields.deep_view().subrange(0, i as int);
            assert(cs.drop_last() =~= columns.deep_view().subrange(0, i - 1));
            assert(fs.drop_last() =~= fields.deep_view().subrange(0, i - 1));
            assert(cs.last() == columns.deep_view()[i - 1]);
            assert(fs.last() == fields.deep_view()[i - 1]);
        }
    }
    proof {
        assert(columns.deep_view().subrange(0, columns@.len() as int) =~= columns.deep_view());
        assert(fields.deep_view().subrange(0, fields@.len() as int) =~= fields.deep_view());
    }
    Ok(Row::new(columns, row_values))
}

} // verus!
