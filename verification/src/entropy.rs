//! Entropies of a time series: which of its shifted copies are compared, and when there is an
//! entropy at all.
use vstd::prelude::*;
use vstd::slice::slice_subrange;

use polars::prelude::Series;

use crate::columns::number_series;
use crate::error::LstsqError;
use crate::expressions::{frame_numbers, read_columns};
use crate::ieee::{finite, is_finite, is_positive, positive, NAN};
use crate::output::number_column;
use crate::tables::{
    all_float, frame_columns, frame_new, series_cells, series_column, series_columns,
    series_first, series_kind,
};
use crate::views::{fit, float_code, float_entries, float_kind, matrix_codes};

verus! {

/// The upper left part of a matrix: its rows and its columns.
#[derive(Clone, Copy, Debug, PartialEq, Eq, Structural)]
pub struct Window {
    pub rows: usize,
    pub cols: usize,
}

/// The points to compare: runs of the given length, and runs that are one longer.
#[derive(Clone, Copy, Debug, PartialEq, Eq, Structural)]
pub struct EntropyWindows {
    pub short: Window,
    pub long: Window,
}

/// Whether there is an entropy: the radius, given by its bits, is a finite number greater than
/// zero, and there are at least as many rows as columns.
pub open spec fn has_entropy(radius: u64, rows: int, cols: int) -> bool {
    rows >= cols && positive(radius) && finite(radius)
}

/// The radius, which is the number in the first row of the first input, and the matrix of the
/// shifted columns, which are the other inputs, column by column, all by their bits; or `None`
/// where the radius is null. Polars reports an error where the first input is not one of
/// `Float64`, where the columns do not fit together, and where one holds no numbers.
pub fn entropy_matrix(inputs: &[Series]) -> (r: Result<Option<(u64, Vec<Vec<u64>>)>, LstsqError>)
    requires
        inputs@.len() > 0,
        series_kind(inputs@[0]) == float_kind() ==> series_cells(inputs@[0]).len() > 0,
    ensures
        ({
            let columns = series_columns(inputs@.subrange(1, inputs@.len() as int));
            if series_kind(inputs@[0]) != float_kind() {
                r matches Err(e) && e is Polars
            } else if series_cells(inputs@[0])[0] is None {
                r matches Ok(None)
            } else if fit(columns) && read_columns(columns) is Some {
                r matches Ok(Some((radius, matrix))) && series_cells(inputs@[0])[0] == Some(
                    float_code(radius),
                ) && matrix_codes(matrix@) == read_columns(columns)->0 && (all_float(columns, 0)
                    ==> matrix_codes(matrix@) == float_entries(columns))
            } else {
                r matches Err(e) && e is Polars
            }
        }),
        ({
            let columns = series_columns(inputs@.subrange(1, inputs@.len() as int));
            fit(columns) && all_float(columns, 0) && series_kind(inputs@[0]) == float_kind()
                ==> r is Ok
        }),
{
    let radius = match series_first(&inputs[0]) {
        Err(e) => return Err(LstsqError::Polars(e)),
        Ok(None) => return Ok(None),
        Ok(Some(radius)) => radius,
    };
    let shifted = slice_subrange(inputs, 1, inputs.len());
    let ghost columns = series_columns(shifted@);
    let df = match frame_new(shifted) {
        Err(e) => return Err(LstsqError::Polars(e)),
        Ok(df) => df,
    };
    assert(frame_columns(df) =~= columns);
    match frame_numbers(&df) {
        Err(e) => Err(LstsqError::Polars(e)),
        Ok(matrix) => {
            proof {
                if all_float(columns, 0) {
                    assert(matrix_codes(matrix@) =~= float_entries(columns));
                }
            }
            Ok(Some((radius, matrix)))
        },
    }
}

/// An entropy, given by its bits, as a series with a single row, which is NaN where there is
/// no entropy.
pub fn entropy_series(entropy: Option<u64>) -> (s: Series)
    ensures
        series_column(s) == number_column(
            ""@,
            match entropy {
                Some(bits) => seq![bits],
                None => seq![NAN],
            },
        ),
{
    let bits: Vec<u64> = match entropy {
        Some(bits) => vec![bits],
        None => vec![NAN],
    };
    let s = number_series("", &bits);
    assert(bits@ =~= match entropy {
        Some(bits) => seq![bits],
        None => seq![NAN],
    });
    s
}

/// Whether there is an entropy depends on the radius only by the number that stands for it.
pub proof fn radius_by_its_number(a: u64, b: u64, rows: int, cols: int)
    requires
        float_code(a) == float_code(b),
    ensures
        has_entropy(a, rows, cols) == has_entropy(b, rows, cols),
{
}

/// Whether there is an entropy.
pub fn entropy_exists(radius: u64, rows: usize, cols: usize) -> (r: bool)
    ensures
        r == has_entropy(radius, rows as int, cols as int),
{
    rows >= cols && is_positive(radius) && is_finite(radius)
}

/// The points to compare in a table of `rows` rows and `cols` columns, or `None` where there
/// is no entropy. The shorter runs leave out the last column, the longer ones the last row.
pub fn entropy_windows(radius: u64, rows: usize, cols: usize) -> (r: Option<EntropyWindows>)
    requires
        has_entropy(radius, rows as int, cols as int) ==> cols > 0,
    ensures
        r is Some <==> has_entropy(radius, rows as int, cols as int),
        r matches Some(w) ==> w.short.rows == rows && w.short.cols == cols - 1 && w.long.rows
            == rows - 1 && w.long.cols == cols,
{
    if !entropy_exists(radius, rows, cols) {
        None
    } else {
        Some(
            EntropyWindows {
                short: Window { rows, cols: cols - 1 },
                long: Window { rows: rows - 1, cols },
            },
        )
    }
}

/// There is an entropy exactly where the radius is a finite number greater than zero and there
/// are no more columns than rows; more rows never take it away.
pub proof fn entropies_by_radius_and_rows(radius: u64, rows: int, cols: int, more: int)
    requires
        more >= 0,
    ensures
        has_entropy(radius, rows, cols) <==> 0 < radius < 0x7ff0_0000_0000_0000 && cols <= rows,
        has_entropy(radius, rows, cols) ==> has_entropy(radius, rows + more, cols),
{
}

} // verus!
