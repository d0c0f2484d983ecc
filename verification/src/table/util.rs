//! From columns to rows, for presentation.

use vstd::prelude::*;

verus! {

/// Whether all lists of `data` have the length of the first.
pub open spec fn equal_lengths(data: Seq<Vec<String>>) -> bool {
    forall|c: int| 0 <= c < data.len() ==> (#[trigger] data[c])@.len() == data[0]@.len()
}

/// Turns column-major data into row-major data: row `i` of the result holds
/// the `i`-th string of every column, in the order of the columns. The
/// strings are borrowed, not copied.
///
/// There are as many rows as the columns are long: none where the columns
/// are empty. Without any column the result is one row without strings.
pub fn rotate_2d_vec(data: &Vec<Vec<String>>) -> (r: Vec<Vec<&String>>)
    requires
        equal_lengths(data@),
    ensures
        data@.len() == 0 ==> r@.len() == 1 && r@[0]@.len() == 0,
        data@.len() > 0 ==> r@.len() == data@[0]@.len(),
        data@.len() > 0 ==> forall|i: int|
            0 <= i < r@.len() ==> (#[trigger] r@[i])@.len() == data@.len(),
        data@.len() > 0 ==> forall|i: int, c: int|
            0 <= i < r@.len() && 0 <= c < data@.len() ==> *(#[trigger] r@[i]@[c]) == data@[c]@[i],
{
    let mut ret_data: Vec<Vec<&String>> = Vec::new();
    if data.len() == 0 {
        ret_data.push(Vec::new());
        return ret_data;
    }
    let number_of_rows = data[0].len();
    let number_of_cols = data.len();
    let mut row_idx: usize = 0;
    while row_idx < number_of_rows
        invariant
            row_idx <= number_of_rows,
            number_of_rows == data@[0]@.len(),
            number_of_cols == data@.len(),
            equal_lengths(data@),
            ret_data@.len() == row_idx,
            forall|i: int| 0 <= i < row_idx ==> (#[trigger] ret_data@[i])@.len() == number_of_cols,
            forall|i: int, c: int|
                0 <= i < row_idx && 0 <= c < number_of_cols ==> *(#[trigger] ret_data@[i]@[c])
                    == data@[c]@[i],
        decreases number_of_rows - row_idx,
    {
        let mut row: Vec<&String> = Vec::new();
        let mut col_idx: usize = 0;
        while col_idx < number_of_cols
            invariant
                col_idx <= number_of_cols,
                row_idx < number_of_rows,
                number_of_rows == data@[0]@.len(),
                number_of_cols == data@.len(),
                equal_lengths(data@),
                row@.len() == col_idx,
                forall|c: int|
                    0 <= c < col_idx ==> *(#[trigger] row@[c]) == data@[c]@[row_idx as int],
            decreases number_of_cols - col_idx,
        {
            assert(data@[col_idx as int]@.len() == data@[0]@.len());
            row.push(&data[col_idx][row_idx]);
            col_idx += 1;
        }
        ret_data.push(row);
        row_idx += 1;
    }
    ret_data
}

} // verus!
