//! The choice of a penalty by cross-validation: which rows train and which rows test, and
//! which candidate wins.
use vstd::prelude::*;

use polars::prelude::Series;

use crate::error::LstsqError;
use crate::ieee::{is_less, less, nan, rank};
use crate::policy::NullPolicy;
use crate::prepare::{numbers_read, regression_matrix, requested};
use crate::tables::{series_cells, series_columns, series_len, series_orders};
use crate::views::matrix_codes;

verus! {

/// The number of rows that take part in the choice of the penalty, and the least number of
/// rows for which there is a fit.
pub const CV_ROWS: usize = 36;

/// The number of folds.
pub const NUM_SPLITS: usize = 5;

/// The number of penalties to choose from.
pub const NUM_ALPHAS: usize = 100;

/// The series that a regression reads: where there are weights, they come first and are left
/// out.
pub open spec fn without_weights(inputs: Seq<Series>, weighted: bool) -> Seq<Series> {
    if weighted {
        inputs.subrange(1, inputs.len() as int)
    } else {
        inputs
    }
}

/// The matrix of a regression whose penalty is chosen by cross-validation, column by column, or
/// `None` where the first series is too short for it.
pub fn lstsq_matrix(
    inputs: &[Series],
    weighted: bool,
    add_bias: bool,
    null_policy: Result<NullPolicy, String>,
) -> (r: Result<Option<Vec<Vec<u64>>>, LstsqError>)
    requires
        inputs@.len() > 0,
        weighted && series_cells(inputs@[0]).len() >= CV_ROWS && null_policy is Ok
            ==> inputs@.len() > 1,
    ensures
        series_cells(inputs@[0]).len() < CV_ROWS ==> (r matches Ok(matrix) && matrix is None),
        series_cells(inputs@[0]).len() >= CV_ROWS ==> (r matches Ok(matrix) ==> matrix is Some)
            && requested(
            series_columns(without_weights(inputs@, weighted)),
            series_orders(without_weights(inputs@, weighted)),
            add_bias,
            null_policy,
            match r {
                Ok(matrix) => Ok(matrix_codes(matrix->0@)),
                Err(e) => Err(e@),
            },
        ) && numbers_read(
            series_columns(without_weights(inputs@, weighted)),
            null_policy,
            r is Ok,
        ),
{
    if series_len(&inputs[0]) < CV_ROWS {
        return Ok(None);
    }
    let from: usize = if weighted {
        1
    } else {
        0
    };
    assert(inputs@.subrange(0, inputs@.len() as int) =~= inputs@);
    match regression_matrix(inputs, from, add_bias, null_policy) {
        Err(e) => Err(e),
        Ok((matrix, _)) => Ok(Some(matrix)),
    }
}

/// Consecutive rows: the first one and how many.
#[derive(Clone, Copy, Debug, PartialEq, Eq, Structural)]
pub struct Span {
    pub start: usize,
    pub len: usize,
}

/// A fold: the rows to train on, as one span behind another, and the rows to test on.
#[derive(Debug)]
pub struct Fold {
    pub train: Vec<Span>,
    pub test: Span,
}

/// The first test row of the fold with the given number.
pub open spec fn test_start(number: int) -> int {
    if number == 0 {
        0
    } else {
        8 + 7 * (number - 1)
    }
}

/// The number of test rows of the fold with the given number: the first block of rows is the
/// longest.
pub open spec fn test_len(number: int) -> int {
    if number == 0 {
        8
    } else {
        7
    }
}

/// Whether a row is one of the test rows of the fold with the given number.
pub open spec fn tests(number: int, row: int) -> bool {
    test_start(number) <= row < test_start(number) + test_len(number)
}

/// The rows of some spans, one span behind another.
pub open spec fn rows_of(spans: Seq<Span>) -> Seq<int>
    decreases spans.len(),
{
    if spans.len() == 0 {
        Seq::empty()
    } else {
        let last = spans.last();
        rows_of(spans.drop_last()) + Seq::new(last.len as nat, |i: int| last.start + i)
    }
}

/// The rows to train on in the fold with the given number: the others, in order.
pub open spec fn train_rows(number: int) -> Seq<int> {
    Seq::new(
        (CV_ROWS - test_len(number)) as nat,
        |i: int|
            if i < test_start(number) {
                i
            } else {
                i + test_len(number)
            },
    )
}

/// The rows of a fold: the block of its number tests, and all other blocks train.
pub fn fold(number: usize) -> (f: Fold)
    requires
        number < NUM_SPLITS,
    ensures
        f.test.start == test_start(number as int),
        f.test.len == test_len(number as int),
        rows_of(f.train@) == train_rows(number as int),
        forall|i: int| 0 <= i < f.train@.len() ==> (#[trigger] f.train@[i]).len > 0,
        forall|i: int|
            0 <= i < f.train@.len() ==> (#[trigger] f.train@[i]).start + f.train@[i].len
                <= CV_ROWS,
{
    let start: usize = if number == 0 {
        0
    } else {
        8 + 7 * (number - 1)
    };
    let len: usize = if number == 0 {
        8
    } else {
        7
    };
    let end = start + len;
    let mut train: Vec<Span> = Vec::new();
    proof {
        reveal_with_fuel(rows_of, 3);
    }
    if start > 0 {
        train.push(Span { start: 0, len: start });
    }
    assert(rows_of(train@) =~= Seq::new(start as nat, |i: int| i)) by {
        if start > 0 {
            assert(train@.drop_last() =~= Seq::empty());
        }
    }
    if end < CV_ROWS {
        let ghost before = train@;
        train.push(Span { start: end, len: CV_ROWS - end });
        assert(train@.drop_last() =~= before);
    }
    assert(rows_of(train@) =~= train_rows(number as int));
    Fold { train, test: Span { start, len } }
}

/// The number of the fold that comes in place `i`: the first block of rows tests last.
pub open spec fn fold_number(i: int) -> int {
    (i + 1) % (NUM_SPLITS as int)
}

/// All folds, in the order in which their errors are added up.
pub fn cv_folds() -> (folds: Vec<Fold>)
    ensures
        folds@.len() == NUM_SPLITS,
        forall|i: int| #![trigger folds@[i]]
            0 <= i < NUM_SPLITS ==> folds@[i].test.start == test_start(fold_number(i))
                && folds@[i].test.len == test_len(fold_number(i)) && rows_of(folds@[i].train@)
                == train_rows(fold_number(i)),
        forall|i: int, j: int| #![trigger folds@[i].train@[j]]
            0 <= i < NUM_SPLITS && 0 <= j < folds@[i].train@.len() ==> folds@[i].train@[j].len > 0
                && folds@[i].train@[j].start + folds@[i].train@[j].len <= CV_ROWS,
{
    let mut folds: Vec<Fold> = Vec::new();
    let mut i: usize = 0;
    while i < NUM_SPLITS
        invariant
            i <= NUM_SPLITS,
            folds@.len() == i,
            forall|k: int| #![trigger folds@[k]]
                0 <= k < i ==> folds@[k].test.start == test_start(fold_number(k))
                    && folds@[k].test.len == test_len(fold_number(k)) && rows_of(folds@[k].train@)
                    == train_rows(fold_number(k)),
            forall|k: int, j: int| #![trigger folds@[k].train@[j]]
                0 <= k < i && 0 <= j < folds@[k].train@.len() ==> folds@[k].train@[j].len > 0
                    && folds@[k].train@[j].start + folds@[k].train@[j].len <= CV_ROWS,
        decreases NUM_SPLITS - i,
    {
        folds.push(fold((i + 1) % NUM_SPLITS));
        i = i + 1;
    }
    folds
}

/// Each row tests in one fold and in no other.
pub proof fn each_row_tests_once(row: int)
    requires
        0 <= row < CV_ROWS,
    ensures
        exists|n: int| 0 <= n < NUM_SPLITS && #[trigger] tests(n, row),
        forall|m: int, n: int|
            0 <= m < NUM_SPLITS && 0 <= n < NUM_SPLITS && #[trigger] tests(m, row)
                && #[trigger] tests(n, row) ==> m == n,
{
    let n = if row < 8 {
        0
    } else {
        (row - 8) / 7 + 1
    };
    assert(tests(n, row));
}

/// In each fold a row trains exactly where it does not test, and the training rows ascend.
pub proof fn each_row_trains_or_tests(number: int, row: int)
    requires
        0 <= number < NUM_SPLITS,
        0 <= row < CV_ROWS,
    ensures
        train_rows(number).contains(row) == !tests(number, row),
        forall|i: int, j: int|
            0 <= i < j < train_rows(number).len() ==> train_rows(number)[i] < train_rows(
                number,
            )[j],
{
    let rows = train_rows(number);
    if !tests(number, row) {
        let i = if row < test_start(number) {
            row
        } else {
            row - test_len(number)
        };
        assert(rows[i] == row);
    }
}

/// The folds come each once.
pub proof fn each_fold_comes_once(number: int)
    requires
        0 <= number < NUM_SPLITS,
    ensures
        exists|i: int| 0 <= i < NUM_SPLITS && #[trigger] fold_number(i) == number,
        forall|i: int, j: int|
            0 <= i < NUM_SPLITS && 0 <= j < NUM_SPLITS && #[trigger] fold_number(i) == number
                && #[trigger] fold_number(j) == number ==> i == j,
{
    let i = if number == 0 {
        4
    } else {
        number - 1
    };
    assert(fold_number(i) == number);
}

/// The place that wins among the first `n` errors: a later one wins unless the winner so far
/// is less than it.
pub open spec fn winner(errors: Seq<u64>, n: int) -> int
    decreases n,
{
    if n <= 1 {
        0
    } else {
        let so_far = winner(errors, n - 1);
        if less(errors[so_far], errors[n - 1]) {
            so_far
        } else {
            n - 1
        }
    }
}

/// The place of the error, given by its bits, whose penalty is chosen.
pub fn min_mse_index(errors: &[u64]) -> (best: usize)
    requires
        errors@.len() > 0,
    ensures
        best == winner(errors@, errors@.len() as int),
        best < errors@.len(),
{
    let mut best: usize = 0;
    let mut i: usize = 1;
    while i < errors.len()
        invariant
            1 <= i <= errors@.len(),
            best < i,
            best == winner(errors@, i as int),
        decreases errors@.len() - i,
    {
        if !is_less(errors[best], errors[i]) {
            best = i;
        }
        i = i + 1;
    }
    best
}

/// The winner is less than every error behind it.
proof fn winner_beats_later(errors: Seq<u64>, n: int, j: int)
    requires
        0 < n <= errors.len(),
    ensures
        0 <= winner(errors, n) < n,
        winner(errors, n) < j < n ==> less(errors[winner(errors, n)], errors[j]),
    decreases n,
{
    if n > 1 {
        winner_beats_later(errors, n - 1, j);
    }
}

/// Where no error is NaN, the winner is the last one of the least errors.
pub proof fn winner_is_last_minimum(errors: Seq<u64>, n: int, j: int)
    requires
        0 < n <= errors.len(),
        forall|k: int| 0 <= k < n ==> !nan(#[trigger] errors[k]),
        0 <= j < n,
    ensures
        0 <= winner(errors, n) < n,
        rank(errors[winner(errors, n)]) <= rank(errors[j]),
        j > winner(errors, n) ==> rank(errors[winner(errors, n)]) < rank(errors[j]),
    decreases n,
{
    winner_beats_later(errors, n, j);
    if n > 1 {
        winner_beats_later(errors, n - 1, j);
        if j < n - 1 {
            winner_is_last_minimum(errors, n - 1, j);
        } else {
            winner_is_last_minimum(errors, n - 1, 0);
        }
    }
}

/// The rows are tested in blocks of seven, but the first block has one more: row `r` is tested
/// in the fold whose number is the number of sevens before it.
pub proof fn rows_are_tested_in_blocks(number: int, row: int)
    requires
        0 <= number < 5,
        0 <= row < 36,
    ensures
        tests(number, row) <==> number == if row == 0 {
            0
        } else {
            (row - 1) / 7
        },
        0 <= test_start(number) < test_start(number) + test_len(number) <= 36,
        CV_ROWS == 36,
        NUM_SPLITS == 5,
        NUM_ALPHAS == 100,
{
}

/// The folds come in the order of their numbers from one on, and the first block last.
pub proof fn folds_come_in_order(i: int)
    requires
        0 <= i < 5,
    ensures
        fold_number(i) == if i < 4 {
            i + 1
        } else {
            0
        },
{
}

/// Rows of spans stand as the spans do: each span has its rows behind those of the spans before
/// it.
pub proof fn rows_stand_as_the_spans(spans: Seq<Span>, span: Span, k: int)
    requires
        0 <= k < span.len,
    ensures
        rows_of(Seq::<Span>::empty()).len() == 0,
        rows_of(spans.push(span)).len() == rows_of(spans).len() + span.len,
        rows_of(spans.push(span))[rows_of(spans).len() + k] == span.start + k,
        rows_of(spans.push(span)).take(rows_of(spans).len() as int) == rows_of(spans),
{
    assert(spans.push(span).drop_last() =~= spans);
    assert(rows_of(spans.push(span)).take(rows_of(spans).len() as int) =~= rows_of(spans));
}

/// Nothing up to the last NaN has a say: where a NaN comes last it wins, and else the last one of
/// the least errors behind it does.
pub proof fn winner_behind_nan(errors: Seq<u64>, n: int, p: int, j: int)
    requires
        0 <= p < n <= errors.len(),
        nan(errors[p]),
        forall|k: int| p < k < n ==> !nan(#[trigger] errors[k]),
    ensures
        p == n - 1 ==> winner(errors, n) == p,
        p < n - 1 ==> p < winner(errors, n) < n,
        p < j < n ==> rank(errors[winner(errors, n)]) <= rank(errors[j]),
        winner(errors, n) < j < n ==> rank(errors[winner(errors, n)]) < rank(errors[j]),
    decreases n,
{
    winner_beats_later(errors, n, j);
    if p < n - 1 {
        winner_behind_nan(errors, n - 1, p, j);
        winner_behind_nan(errors, n - 1, p, n - 2);
        winner_beats_later(errors, n - 1, j);
    } else if n > 1 {
        winner_beats_later(errors, n - 1, 0);
    }
}

} // verus!
