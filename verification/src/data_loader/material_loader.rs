//! The list of materials: an identifier and a name per row.

use vstd::prelude::*;
use crate::errors::DataError;
use crate::row_codec::{dataset_of, values_of, NativeRow, NativeValue, Value};

verus! {

/// The material that `row` describes: an integer of 32 bits in its first
/// column and text in its second. Further columns are not looked at.
pub open spec fn material_of(row: Seq<Value>) -> Option<(i32, Seq<char>)> {
    if row.len() < 2 {
        None
    } else {
        match (row[0], row[1]) {
            (Value::Integer(id), Value::Text(name)) => if i32::MIN <= id <= i32::MAX {
                Some((id as i32, name))
            } else {
                None
            },
            _ => None,
        }
    }
}

/// Whether the first column of `row` holds an identifier.
pub open spec fn has_identifier(row: Seq<Value>) -> bool {
    row.len() >= 1 && (row[0] matches Value::Integer(id) && i32::MIN <= id <= i32::MAX)
}

/// The column to blame when `row` describes no material: the first one
/// unless it holds an identifier.
pub open spec fn faulty_column(row: Seq<Value>) -> int {
    if has_identifier(row) {
        1
    } else {
        0
    }
}

/// The materials that `list` holds.
pub open spec fn materials_of(list: Seq<(i32, String)>) -> Seq<(i32, Seq<char>)> {
    Seq::new(list.len(), |i: int| (list[i].0, list[i].1@))
}

/// The read that fetches the list of materials.
pub fn materials_query() -> (query: String)
    ensures
        query@ == "SELECT * from materials"@,
{
    String::from_str("SELECT * from materials")
}

/// Reads the identifier and the name out of every row of the materials
/// table, in order.
///
/// Fails at the first row that describes no material, with that row and
/// the column to blame.
pub fn load_materials_list(rows: &Vec<NativeRow>) -> (materials: Result<
    Vec<(i32, String)>,
    DataError,
>)
    ensures
        match materials {
            Ok(list) => {
                &&& list.len() == rows.len()
                &&& forall|i: int|
                    0 <= i < rows.len() ==> material_of(#[trigger] dataset_of(rows@)[i]) == Some(
                        materials_of(list@)[i],
                    )
            },
            Err(DataError::DecodeError { row, column }) => {
                &&& row < rows.len()
                &&& material_of(dataset_of(rows@)[row as int]) is None
                &&& column == faulty_column(dataset_of(rows@)[row as int])
                &&& forall|i: int|
                    0 <= i < row ==> material_of(#[trigger] dataset_of(rows@)[i]) is Some
            },
            Err(_) => false,
        },
{
    let ghost dataset = dataset_of(rows@);
    let mut list: Vec<(i32, String)> = Vec::new();
    let mut i: usize = 0;
    while i < rows.len()
        invariant
            i <= rows.len(),
            dataset == dataset_of(rows@),
            list.len() == i,
            forall|j: int|
                0 <= j < i ==> material_of(#[trigger] dataset[j]) == Some(materials_of(list@)[j]),
        decreases rows.len() - i,
    {
        let row = &rows[i];
        proof {
            assert(dataset[i as int] == values_of(row@));
        }
        if row.len() < 1 {
            return Err(DataError::DecodeError { row: i, column: 0 });
        }
        let id: i32 = match &row[0] {
            NativeValue::Integer(v) => {
                if *v < -2147483648 || *v > 2147483647 {
                    return Err(DataError::DecodeError { row: i, column: 0 });
                }
                *v as i32
            },
            _ => {
                return Err(DataError::DecodeError { row: i, column: 0 });
            },
        };
        if row.len() < 2 {
            return Err(DataError::DecodeError { row: i, column: 1 });
        }
        let name: String = match &row[1] {
            NativeValue::Text(text) => text.clone(),
            _ => {
                return Err(DataError::DecodeError { row: i, column: 1 });
            },
        };
        let ghost before = materials_of(list@);
        list.push((id, name));
        proof {
            assert(materials_of(list@) == before.push((id, name@)));
        }
        i += 1;
    }
    Ok(list)
}

} // verus!
