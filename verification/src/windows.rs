//! Fits that move along the rows: which row of the output gets which fit.
use vstd::prelude::*;

use polars::prelude::Series;

use crate::error::{Failure, LstsqError};
use crate::expressions::{filled_columns, scales_to};
use crate::laws::{
    all_numbers, constant_column_is_one, counts_true, entries_of_the_matrix, marks_stays,
    matrix_is_read_off_a_table, null_somewhere, nulls_are_cells, scaled_form,
};
use crate::policy::{windowed, windowed_policy, NullPolicy};
use crate::prepare::{
    biased, mask_of, numbers_read, policies_agree_without_nulls, prepared, prepares,
    regression_matrix, requested, seen,
};
use crate::tables::{
    mask_any, mask_not, mask_rows, mask_values, series_cells, series_columns, series_name,
    series_order, series_orders, Mask,
};
use crate::views::{
    any_null, count, float_code, has_null, height, kept_counts, names_of, ColumnView,
};

verus! {

/// A row of the output that is not null: the coefficients it shows, by their place among the
/// fits, and the row of the table to which they are applied for its prediction.
#[derive(Clone, Copy, Debug, PartialEq, Eq, Structural)]
pub struct FittedRow {
    pub coeffs: usize,
    pub row: usize,
}

/// The first place from `k` on up to which at least `n` places of the mask are true, or the
/// length of the mask where there is none.
pub open spec fn reached_from(mask: Seq<bool>, n: int, k: int) -> int
    decreases mask.len() - k,
{
    if k >= mask.len() {
        mask.len() as int
    } else if count(mask.take(k + 1)) >= n {
        k
    } else {
        reached_from(mask, n, k + 1)
    }
}

/// The first place up to which at least `n` places of the mask are true, or the length of the
/// mask where there is none.
pub open spec fn reached(mask: Seq<bool>, n: int) -> int {
    reached_from(mask, n, 0)
}

/// The distance of `n` from one.
pub open spec fn lead(n: int) -> int {
    if n >= 1 {
        n - 1
    } else {
        1 - n
    }
}

/// The rows of a recursive fit where the mask has a false place: a row is null until `n` rows
/// without nulls are there, and where the mask is false; the other rows show the fits in
/// order, each applied to the row of the table in the same place.
pub open spec fn masked_rows(mask: Seq<bool>, n: int) -> Seq<Option<FittedRow>> {
    let start = reached(mask, n);
    Seq::new(
        mask.len(),
        |r: int|
            if r < start || !mask[r] {
                None
            } else {
                let i = count(mask.subrange(start, r)) as usize;
                Some(FittedRow { coeffs: i, row: i })
            },
    )
}

/// The rows of a fit where no row was dropped: those before the first fit are null, and each
/// other one shows the next fit, applied to the row itself, unless that fit was skipped.
pub open spec fn unmasked_rows(lead: int, skipped: Seq<bool>) -> Seq<Option<FittedRow>> {
    Seq::new(
        (lead + skipped.len()) as nat,
        |r: int|
            if r < lead || skipped[r - lead] {
                None
            } else {
                Some(FittedRow { coeffs: (r - lead) as usize, row: r as usize })
            },
    )
}

/// The rows of a recursive fit.
pub open spec fn recursive_layout(mask: Seq<bool>, n: int, fitted: int) -> Seq<
    Option<FittedRow>,
> {
    if mask.contains(false) {
        masked_rows(mask, n)
    } else {
        unmasked_rows(lead(n), Seq::new(fitted as nat, |i: int| false))
    }
}

/// Whether a recursive fit finds each fit and each row that its output shows.
pub open spec fn recursive_within(mask: Seq<bool>, n: int, fitted: int, rows: int) -> bool {
    if mask.contains(false) {
        let shown = count(mask.subrange(reached(mask, n), mask.len() as int));
        shown <= fitted && shown <= rows
    } else {
        fitted > 0 ==> lead(n) + fitted <= rows
    }
}

/// The place that [`reached_from`] means lies between `k` and the end.
proof fn reached_bounds(mask: Seq<bool>, n: int, k: int)
    requires
        0 <= k <= mask.len(),
    ensures
        k <= reached_from(mask, n, k) <= mask.len(),
    decreases mask.len() - k,
{
    if k < mask.len() && count(mask.take(k + 1)) < n {
        reached_bounds(mask, n, k + 1);
    }
}

/// One more place of a mask counts one more where it is true.
proof fn count_step(mask: Seq<bool>, from: int, to: int)
    requires
        0 <= from <= to < mask.len(),
    ensures
        count(mask.subrange(from, to + 1)) == count(mask.subrange(from, to)) + if mask[to] {
            1int
        } else {
            0
        },
        count(mask.subrange(from, to)) <= to - from,
{
    let longer = mask.subrange(from, to + 1);
    assert(longer.drop_last() =~= mask.subrange(from, to));
    kept_counts(mask.subrange(from, to), mask.subrange(from, to));
}

/// The first place up to which at least `n` places of the mask are true.
fn find_start(mask: &Vec<bool>, n: usize) -> (m: usize)
    ensures
        m == reached(mask@, n as int),
{
    let mut new_n: usize = 0;
    let mut m: usize = 0;
    while m < mask.len()
        invariant
            m <= mask@.len(),
            new_n <= m,
            new_n == count(mask@.take(m as int)),
            reached(mask@, n as int) == reached_from(mask@, n as int, m as int),
        decreases mask@.len() - m,
    {
        proof {
            count_step(mask@, 0, m as int);
            assert(mask@.subrange(0, m as int) =~= mask@.take(m as int));
            assert(mask@.subrange(0, m + 1) =~= mask@.take(m + 1));
        }
        if mask[m] {
            new_n = new_n + 1;
        }
        if new_n >= n {
            return m;
        }
        m = m + 1;
    }
    m
}

/// The rows of a recursive fit under a mask that has a false place.
fn masked_layout(mask: &Vec<bool>, n: usize) -> (out: Vec<Option<FittedRow>>)
    ensures
        out@ == masked_rows(mask@, n as int),
{
    let m = find_start(mask, n);
    proof {
        reached_bounds(mask@, n as int, 0);
    }
    let ghost wanted = masked_rows(mask@, n as int);
    let mut out: Vec<Option<FittedRow>> = Vec::new();
    let mut r: usize = 0;
    while r < m
        invariant
            r <= m <= mask@.len(),
            m == reached(mask@, n as int),
            wanted == masked_rows(mask@, n as int),
            out@.len() == r,
            forall|k: int| 0 <= k < r ==> out@[k] == wanted[k],
        decreases m - r,
    {
        out.push(None);
        r = r + 1;
    }
    let mut i: usize = 0;
    assert(mask@.subrange(m as int, m as int) =~= Seq::empty());
    while r < mask.len()
        invariant
            m <= r <= mask@.len(),
            m == reached(mask@, n as int),
            wanted == masked_rows(mask@, n as int),
            i == count(mask@.subrange(m as int, r as int)),
            i <= r,
            out@.len() == r,
            forall|k: int| 0 <= k < r ==> out@[k] == wanted[k],
        decreases mask@.len() - r,
    {
        proof {
            count_step(mask@, m as int, r as int);
        }
        if mask[r] {
            out.push(Some(FittedRow { coeffs: i, row: i }));
            i = i + 1;
        } else {
            out.push(None);
        }
        r = r + 1;
    }
    assert(out@ =~= wanted);
    out
}

/// The rows of a fit where no row was dropped.
fn unmasked_layout(lead: usize, skipped: &Vec<bool>) -> (out: Vec<Option<FittedRow>>)
    requires
        lead + skipped@.len() <= usize::MAX,
    ensures
        out@ == unmasked_rows(lead as int, skipped@),
{
    let ghost wanted = unmasked_rows(lead as int, skipped@);
    let mut out: Vec<Option<FittedRow>> = Vec::new();
    let mut r: usize = 0;
    while r < lead
        invariant
            r <= lead,
            wanted == unmasked_rows(lead as int, skipped@),
            out@.len() == r,
            forall|k: int| 0 <= k < r ==> out@[k] == wanted[k],
        decreases lead - r,
    {
        out.push(None);
        r = r + 1;
    }
    let mut i: usize = 0;
    while i < skipped.len()
        invariant
            i <= skipped@.len(),
            lead + skipped@.len() <= usize::MAX,
            wanted == unmasked_rows(lead as int, skipped@),
            out@.len() == lead + i,
            forall|k: int| 0 <= k < lead + i ==> out@[k] == wanted[k],
        decreases skipped@.len() - i,
    {
        if skipped[i] {
            out.push(None);
        } else {
            out.push(Some(FittedRow { coeffs: i, row: lead + i }));
        }
        i = i + 1;
    }
    assert(out@ =~= wanted);
    out
}

/// Whether a place of the mask is false.
fn mask_has_false(mask: &Mask) -> (r: bool)
    ensures
        r == mask_rows(*mask).contains(false),
{
    let ghost places = mask_rows(*mask);
    let negated = mask_not(mask);
    let any = mask_any(&negated);
    proof {
        if places.contains(false) {
            let k = choose|k: int| 0 <= k < places.len() && places[k] == false;
            assert(mask_rows(negated)[k]);
        }
        if any {
            let k = choose|k: int|
                0 <= k < mask_rows(negated).len() && mask_rows(negated)[k] == true;
            assert(places[k] == false);
        }
    }
    any
}

/// The rows of a recursive fit of `fitted` coefficient vectors, the first of them from `n`
/// rows, on a table of `rows` rows.
pub fn recursive_rows(mask: &Mask, n: usize, fitted: usize, rows: usize) -> (out: Vec<
    Option<FittedRow>,
>)
    requires
        recursive_within(mask_rows(*mask), n as int, fitted as int, rows as int),
    ensures
        out@ == recursive_layout(mask_rows(*mask), n as int, fitted as int),
        forall|r: int|
            0 <= r < out@.len() ==> ((#[trigger] out@[r]) matches Some(at) ==> at.coeffs < fitted
                && at.row < rows && at.row == if mask_rows(*mask).contains(false) {
                at.coeffs as int
            } else {
                r
            }),
{
    let ghost places = mask_rows(*mask);
    if mask_has_false(mask) {
        let values = mask_values(mask);
        let out = masked_layout(&values, n);
        proof {
            let start = reached(places, n as int);
            reached_bounds(places, n as int, 0);
            assert forall|r: int| 0 <= r < out@.len() implies ((#[trigger] out@[r]) matches Some(
                at,
            ) ==> at.coeffs < fitted && at.row < rows) by {
                if start <= r && places[r] {
                    count_step(places, start, r);
                    count_grows(places, start, r + 1, places.len() as int);
                }
            }
        }
        out
    } else {
        let m: usize = if n >= 1 {
            n - 1
        } else {
            1
        };
        let skipped = no_skips(fitted);
        assert(skipped@ =~= Seq::new(fitted as nat, |i: int| false));
        unmasked_layout(m, &skipped)
    }
}

/// Whether a recursive fit finds each fit and each row that its output shows.
pub fn recursive_fits(mask: &Mask, n: usize, fitted: usize, rows: usize) -> (r: bool)
    ensures
        r == recursive_within(mask_rows(*mask), n as int, fitted as int, rows as int),
{
    let ghost places = mask_rows(*mask);
    if mask_has_false(mask) {
        let values = mask_values(mask);
        let start = find_start(&values, n);
        proof {
            reached_bounds(places, n as int, 0);
        }
        let mut shown: usize = 0;
        let mut r: usize = start;
        assert(places.subrange(start as int, start as int) =~= Seq::empty());
        while r < values.len()
            invariant
                start <= r <= values@.len(),
                values@ == places,
                shown == count(places.subrange(start as int, r as int)),
                shown <= r,
            decreases values@.len() - r,
        {
            proof {
                count_step(places, start as int, r as int);
            }
            if values[r] {
                shown = shown + 1;
            }
            r = r + 1;
        }
        shown <= fitted && shown <= rows
    } else if fitted == 0 {
        true
    } else if n >= 1 {
        n - 1 <= rows && fitted <= rows - (n - 1)
    } else {
        fitted < rows
    }
}

/// As many marks of a fit that was not skipped.
fn no_skips(n: usize) -> (skipped: Vec<bool>)
    ensures
        skipped@.len() == n,
        forall|i: int| 0 <= i < n ==> !#[trigger] skipped@[i],
{
    let mut skipped: Vec<bool> = Vec::new();
    let mut i: usize = 0;
    while i < n
        invariant
            i <= n,
            skipped@.len() == i,
            forall|k: int| 0 <= k < i ==> !#[trigger] skipped@[k],
        decreases n - i,
    {
        skipped.push(false);
        i = i + 1;
    }
    skipped
}

/// A longer part of a mask counts no less.
proof fn count_grows(mask: Seq<bool>, from: int, mid: int, to: int)
    requires
        0 <= from <= mid <= to <= mask.len(),
    ensures
        count(mask.subrange(from, mid)) <= count(mask.subrange(from, to)),
    decreases to - mid,
{
    if mid < to {
        count_step(mask, from, to - 1);
        count_grows(mask, from, mid, to - 1);
    }
}

/// Whether a rolling fit on the inputs skips windows: where the policy asks for it and there
/// are nulls that it leaves in place.
pub open spec fn skips_windows(inputs: Seq<ColumnView>, policy: NullPolicy) -> bool {
    match windowed(policy) {
        NullPolicy::SKIP_WINDOW => any_null(inputs),
        NullPolicy::FILL_WINDOW(_) => has_null(inputs[0].2),
        _ => false,
    }
}

/// The null policy of a request, made one for windows.
pub open spec fn windowed_request(policy: Result<NullPolicy, String>) -> Result<
    NullPolicy,
    String,
> {
    match policy {
        Err(text) => Err(text),
        Ok(policy) => Ok(windowed(policy)),
    }
}

/// The matrix of a rolling fit, column by column, and whether windows with nulls are skipped.
pub fn rolling_matrix(
    inputs: &[Series],
    add_bias: bool,
    null_policy: Result<NullPolicy, String>,
) -> (r: Result<(Vec<Vec<u64>>, bool), LstsqError>)
    requires
        null_policy is Ok ==> inputs@.len() > 0,
    ensures
        requested(
            series_columns(inputs@),
            series_orders(inputs@),
            add_bias,
            windowed_request(null_policy),
            seen(r),
        ),
        r matches Ok((matrix, skip)) ==> skip == skips_windows(
            series_columns(inputs@),
            null_policy->Ok_0,
        ),
        numbers_read(series_columns(inputs@), windowed_request(null_policy), r is Ok),
{
    let ghost columns = series_columns(inputs@);
    let policy = match null_policy {
        Err(text) => return Err(LstsqError::Policy(text)),
        Ok(policy) => windowed_policy(policy),
    };
    assert(inputs@.subrange(0, inputs@.len() as int) =~= inputs@);
    let (matrix, mask) = match regression_matrix(inputs, 0, add_bias, Ok(policy)) {
        Err(e) => return Err(e),
        Ok(pair) => pair,
    };
    let should_skip = match policy {
        NullPolicy::SKIP_WINDOW | NullPolicy::FILL_WINDOW(_) => {
            assert(mask_rows(mask).len() == 1);
            assert(mask_rows(mask).contains(mask_rows(mask)[0]));
            assert(!any_null(columns) ==> !has_null(columns[0].2));
            mask_has_false(&mask)
        },
        _ => false,
    };
    Ok((matrix, should_skip))
}

/// How the windows of a rolling fit are fitted.
#[derive(Clone, Copy, Debug, PartialEq, Eq, Structural)]
pub enum RollingMethod {
    /// Each of them.
    Plain,
    /// Those with at least so many rows without nulls.
    Skipping(usize),
}

/// How windows are fitted, where those with fewer than `min_size` rows without nulls may be
/// skipped.
pub open spec fn rolling_choice(should_skip: bool, min_size: usize) -> RollingMethod {
    if should_skip {
        RollingMethod::Skipping(min_size)
    } else {
        RollingMethod::Plain
    }
}

/// How windows are fitted.
pub fn rolling_method(should_skip: bool, min_size: usize) -> (m: RollingMethod)
    ensures
        m == rolling_choice(should_skip, min_size),
{
    if should_skip {
        RollingMethod::Skipping(min_size)
    } else {
        RollingMethod::Plain
    }
}

/// Which fits count as skipped: those without coefficients, where windows are skipped at all.
pub open spec fn skipped_fits(shapes: Seq<(usize, usize)>, should_skip: bool) -> Seq<bool> {
    Seq::new(shapes.len(), |i: int| should_skip && shapes[i] == (0usize, 0usize))
}

/// The rows of a rolling fit over windows of `n` rows, on a table of `rows` rows, given the
/// shape of the coefficients of each window.
pub fn rolling_rows(
    n: usize,
    shapes: &Vec<(usize, usize)>,
    should_skip: bool,
    rows: usize,
) -> (out: Vec<Option<FittedRow>>)
    requires
        rolling_within(n as int, shapes@, should_skip, rows as int),
    ensures
        out@ == unmasked_rows(n - 1, skipped_fits(shapes@, should_skip)),
        forall|r: int|
            0 <= r < out@.len() ==> ((#[trigger] out@[r]) matches Some(at) ==> at.coeffs
                < shapes@.len() && at.row < rows && at.row == r),
{
    let mut skipped: Vec<bool> = Vec::new();
    let mut i: usize = 0;
    while i < shapes.len()
        invariant
            i <= shapes@.len(),
            skipped@.len() == i,
            forall|k: int|
                0 <= k < i ==> skipped@[k] == skipped_fits(shapes@, should_skip)[k],
        decreases shapes@.len() - i,
    {
        let (height, width) = shapes[i];
        skipped.push(should_skip && height == 0 && width == 0);
        i = i + 1;
    }
    assert(skipped@ =~= skipped_fits(shapes@, should_skip));
    unmasked_layout(n - 1, &skipped)
}

/// Whether a rolling fit finds each row that its output shows.
pub open spec fn rolling_within(
    n: int,
    shapes: Seq<(usize, usize)>,
    should_skip: bool,
    rows: int,
) -> bool {
    n >= 1 && n - 1 + shapes.len() <= usize::MAX && forall|i: int|
        0 <= i < shapes.len() && !#[trigger] skipped_fits(shapes, should_skip)[i] ==> n - 1 + i
            < rows
}

/// Whether a rolling fit finds each row that its output shows.
pub fn rolling_fits(n: usize, shapes: &Vec<(usize, usize)>, should_skip: bool, rows: usize) -> (r:
    bool)
    ensures
        r == rolling_within(n as int, shapes@, should_skip, rows as int),
{
    let given = shapes.len();
    if n == 0 || given > usize::MAX - (n - 1) {
        return false;
    }
    let mut i: usize = 0;
    while i < given
        invariant
            i <= given == shapes@.len(),
            n >= 1,
            n - 1 + given <= usize::MAX,
            forall|k: int|
                0 <= k < i && !#[trigger] skipped_fits(shapes@, should_skip)[k] ==> n - 1 + k
                    < rows,
        decreases given - i,
    {
        let (height, width) = shapes[i];
        let skipped = should_skip && height == 0 && width == 0;
        assert(skipped == skipped_fits(shapes@, should_skip)[i as int]);
        if !skipped && n - 1 + i >= rows {
            return false;
        }
        i = i + 1;
    }
    true
}

/// The output of a recursive fit has a row for each place of a mask with a false place, and
/// else a row for each fit behind those that lead up to the first one.
pub proof fn recursive_length(mask: Seq<bool>, n: int, fitted: int)
    requires
        n >= 0,
        fitted >= 0,
    ensures
        recursive_layout(mask, n, fitted).len() == if mask.contains(false) {
            mask.len() as int
        } else {
            lead(n) + fitted
        },
{
}

/// A recursive fit that starts from `n` rows without nulls, where there are as many, shows one
/// fit for the row that completes them and one for each later row without nulls.
pub proof fn recursive_shows_each_fit(mask: Seq<bool>, n: int)
    requires
        1 <= n <= count(mask),
    ensures
        reached(mask, n) < mask.len(),
        mask[reached(mask, n)],
        count(mask.subrange(reached(mask, n), mask.len() as int)) == count(mask) - n + 1,
{
    assert(mask.take(0) =~= Seq::empty());
    reached_at(mask, n, 0);
    let start = reached(mask, n);
    count_split(mask, start, mask.len() as int);
    assert(mask.subrange(0, start) =~= mask.take(start));
    assert(mask.subrange(0, mask.len() as int) =~= mask);
}

/// The place that [`reached_from`] means is the first true one with `n - 1` true ones before
/// it.
proof fn reached_at(mask: Seq<bool>, n: int, k: int)
    requires
        0 <= k <= mask.len(),
        count(mask.take(k)) < n <= count(mask),
    ensures
        k <= reached_from(mask, n, k) < mask.len(),
        mask[reached_from(mask, n, k)],
        count(mask.take(reached_from(mask, n, k))) == n - 1,
    decreases mask.len() - k,
{
    if k == mask.len() {
        assert(mask.take(k) =~= mask);
    } else {
        count_step(mask, 0, k);
        assert(mask.subrange(0, k) =~= mask.take(k));
        assert(mask.subrange(0, k + 1) =~= mask.take(k + 1));
        if count(mask.take(k + 1)) < n {
            reached_at(mask, n, k + 1);
        }
    }
}

/// The true places of a mask lie before or behind each of its places.
proof fn count_split(mask: Seq<bool>, mid: int, to: int)
    requires
        0 <= mid <= to <= mask.len(),
    ensures
        count(mask.subrange(0, to)) == count(mask.subrange(0, mid)) + count(
            mask.subrange(mid, to),
        ),
    decreases to - mid,
{
    if mid < to {
        count_step(mask, 0, to - 1);
        count_step(mask, mid, to - 1);
        count_split(mask, mid, to - 1);
    } else {
        assert(mask.subrange(mid, to) =~= Seq::empty());
    }
}

/// The rows that show a fit show all of them in order: of two such rows, the later one shows a
/// later fit, and no fit lies between those of neighbours.
pub proof fn recursive_in_order(mask: Seq<bool>, n: int, r: int, s: int)
    requires
        0 <= r < s < mask.len() <= usize::MAX,
        masked_rows(mask, n)[r] is Some,
        masked_rows(mask, n)[s] is Some,
    ensures
        masked_rows(mask, n)[r]->0.coeffs < masked_rows(mask, n)[s]->0.coeffs,
        (forall|k: int| r < k < s ==> (#[trigger] masked_rows(mask, n)[k]) is None) ==>
            masked_rows(mask, n)[s]->0.coeffs == masked_rows(mask, n)[r]->0.coeffs + 1,
{
    let start = reached(mask, n);
    reached_bounds(mask, n, 0);
    count_step(mask, start, r);
    count_step(mask, start, s);
    count_grows(mask, start, r + 1, s);
    if forall|k: int| r < k < s ==> (#[trigger] masked_rows(mask, n)[k]) is None {
        assert forall|k: int| r < k < s implies !#[trigger] mask[k] by {
            assert(masked_rows(mask, n)[k] is None);
        }
        count_flat(mask, start, r + 1, s);
    }
}

/// A part of a mask without true places does not count.
proof fn count_flat(mask: Seq<bool>, from: int, mid: int, to: int)
    requires
        0 <= from <= mid <= to <= mask.len(),
        forall|k: int| mid <= k < to ==> !#[trigger] mask[k],
    ensures
        count(mask.subrange(from, to)) == count(mask.subrange(from, mid)),
    decreases to - mid,
{
    if mid < to {
        count_step(mask, from, to - 1);
        count_flat(mask, from, mid, to - 1);
    }
}

/// Data without nulls are never skipped.
pub proof fn full_windows_are_not_skipped(inputs: Seq<ColumnView>, policy: NullPolicy)
    requires
        inputs.len() > 0,
        !any_null(inputs),
    ensures
        !skips_windows(inputs, policy),
{
    assert(!has_null(inputs[0].2));
}

/// Where no window is skipped and no row was dropped, a rolling and a recursive fit of as many
/// coefficient vectors have the same layout: the rows before the `n`-th are null, and each other
/// one shows the next fit, applied to the row itself.
pub proof fn rolling_and_recursive_agree(shapes: Seq<(usize, usize)>, n: int)
    requires
        n >= 1,
    ensures
        unmasked_rows(n - 1, skipped_fits(shapes, false)) == recursive_layout(
            seq![true],
            n,
            shapes.len() as int,
        ),
        forall|r: int|
            0 <= r < n - 1 ==> (#[trigger] recursive_layout(
                seq![true],
                n,
                shapes.len() as int,
            )[r]) is None,
        forall|r: int|
            n - 1 <= r < n - 1 + shapes.len() && r <= usize::MAX ==> (#[trigger] recursive_layout(
                seq![true],
                n,
                shapes.len() as int,
            )[r]) == Some(FittedRow { coeffs: (r - (n - 1)) as usize, row: r as usize }),
{
    assert(!seq![true].contains(false));
    assert(skipped_fits(shapes, false) =~= Seq::new(shapes.len(), |i: int| false));
}

/// On data without nulls the least number of rows of a window has no influence, and a rolling
/// fit has, under every policy, the tables and the layout of a recursive one.
pub proof fn full_data_roll_as_they_recur(
    inputs: Seq<ColumnView>,
    orders: Seq<int>,
    add_bias: bool,
    rolling: NullPolicy,
    recursive: NullPolicy,
    sizes: (usize, usize),
    shapes: Seq<(usize, usize)>,
    n: int,
)
    requires
        inputs.len() > 0,
        !any_null(inputs),
        n >= 1,
    ensures
        rolling_choice(skips_windows(inputs, rolling), sizes.0) == rolling_choice(
            skips_windows(inputs, rolling),
            sizes.1,
        ),
        forall|outcome: Result<Seq<ColumnView>, Failure>|
            #[trigger] prepares(inputs, orders, add_bias, windowed(rolling), outcome) == prepares(
                inputs,
                orders,
                add_bias,
                recursive,
                outcome,
            ),
        unmasked_rows(n - 1, skipped_fits(shapes, skips_windows(inputs, rolling)))
            == recursive_layout(mask_of(inputs, recursive), n, shapes.len() as int),
{
    full_windows_are_not_skipped(inputs, rolling);
    rolling_and_recursive_agree(shapes, n);
    assert forall|outcome: Result<Seq<ColumnView>, Failure>|
        #[trigger] prepares(inputs, orders, add_bias, windowed(rolling), outcome) == prepares(
            inputs,
            orders,
            add_bias,
            recursive,
            outcome,
        ) by {
        if prepares(inputs, orders, add_bias, windowed(rolling), outcome) {
            policies_agree_without_nulls(
                inputs,
                orders,
                add_bias,
                windowed(rolling),
                recursive,
                outcome,
            );
        }
        if prepares(inputs, orders, add_bias, recursive, outcome) {
            policies_agree_without_nulls(
                inputs,
                orders,
                add_bias,
                recursive,
                windowed(rolling),
                outcome,
            );
        }
    }
}

/// A recursive fit that gives coefficients for each row of the table from the `n`-th one on
/// finds, under every policy, each fit and each row that its output shows.
pub proof fn recursive_fit_is_within(
    inputs: Seq<ColumnView>,
    orders: Seq<int>,
    add_bias: bool,
    policy: NullPolicy,
    table: Seq<ColumnView>,
    n: int,
)
    requires
        inputs.len() > 0,
        prepares(inputs, orders, add_bias, policy, Ok(table)),
        1 <= n <= height(table),
    ensures
        recursive_within(
            mask_of(inputs, policy),
            n,
            height(table) - n + 1,
            height(table) as int,
        ),
{
    let mask = mask_of(inputs, policy);
    let scaled = choose|scaled: Seq<ColumnView>|
        #![trigger scales_to(inputs, orders, scaled)]
        scales_to(inputs, orders, scaled) && Ok::<Seq<ColumnView>, Failure>(table) == prepared(
            inputs,
            scaled,
            add_bias,
            policy,
        );
    let before = biased(scaled, add_bias);
    assert(seq![inputs[0].0][0] == inputs[0].0);
    assert(scaled[0] == inputs[0]);
    if mask.contains(false) {
        assert(before[0].2.len() == height(inputs)) by {
            let names = names_of(scaled);
            if names.contains("literal"@) {
                assert(names[names.index_of("literal"@)] == "literal"@);
            }
        }
        if policy is SKIP {
            kept_counts(before[0].2, mask);
            recursive_shows_each_fit(mask, n);
        } else if policy is FILL && has_null(inputs[0].2) {
            let target = seq![inputs[0].0];
            assert(before[0].0 == inputs[0].0) by {
                let names = names_of(scaled);
                if names.contains("literal"@) {
                    assert(names[names.index_of("literal"@)] == "literal"@);
                }
            }
            let full = filled_columns(before, target, policy->FILL_0)->0;
            assert(full[0] == before[0]);
            kept_counts(full[0].2, mask);
            recursive_shows_each_fit(mask, n);
        } else {
            assert(mask.len() == 1);
            assert(mask =~= seq![false]);
            assert(mask.take(1) =~= mask);
            assert(mask.drop_last() =~= Seq::empty());
            reveal_with_fuel(count, 2);
            assert(!mask.last());
            reveal_with_fuel(reached_from, 2);
            assert(reached(mask, n) == 1);
            assert(mask.subrange(1, 1) =~= Seq::empty());
        }
    }
}

/// A row of a recursive fit is null exactly where the mask is false, or where there are fewer
/// than `n` rows without nulls up to it.
pub proof fn masked_row_is_null(mask: Seq<bool>, n: int, r: int)
    requires
        n >= 1,
        0 <= r < mask.len(),
    ensures
        masked_rows(mask, n)[r] is None <==> !mask[r] || count(mask.take(r + 1)) < n,
{
    assert(mask.take(0) =~= Seq::empty());
    reached_tells(mask, n, 0, r);
}

/// The place that [`reached_from`] means is not behind a place exactly where `n` places up to
/// that one are true.
proof fn reached_tells(mask: Seq<bool>, n: int, k: int, r: int)
    requires
        0 <= k <= mask.len(),
        0 <= r < mask.len(),
        count(mask.take(k)) < n,
    ensures
        reached_from(mask, n, k) <= r <==> count(mask.take(r + 1)) >= n,
    decreases mask.len() - k,
{
    if r < k {
        reached_bounds(mask, n, k);
        count_grows(mask, 0, r + 1, k);
        assert(mask.subrange(0, r + 1) =~= mask.take(r + 1));
        assert(mask.subrange(0, k) =~= mask.take(k));
    } else if count(mask.take(k + 1)) >= n {
        count_grows(mask, 0, k + 1, r + 1);
        assert(mask.subrange(0, r + 1) =~= mask.take(r + 1));
        assert(mask.subrange(0, k + 1) =~= mask.take(k + 1));
    } else {
        reached_tells(mask, n, k + 1, r);
    }
}

/// Under a mask with a false place, a row that shows a fit shows the one whose number is that of
/// the rows without nulls before it, but for those that lead up to the first fit, and applies it
/// to the row of the table with the same number. It is null where the mask is false, or where
/// fewer than `n` rows without nulls are there up to it.
pub proof fn masked_rows_by_place(mask: Seq<bool>, n: int, fitted: int, r: int)
    requires
        n >= 0,
        mask.contains(false),
        mask.len() <= usize::MAX,
        0 <= r < mask.len(),
    ensures
        recursive_layout(mask, n, fitted).len() == mask.len(),
        recursive_layout(mask, n, fitted)[r] is None <==> !mask[r] || count(mask.take(r + 1)) < n,
        recursive_layout(mask, n, fitted)[r] matches Some(at) ==> at.row == at.coeffs && at.coeffs
            == count(mask.take(r)) - if n >= 1 {
            n - 1
        } else {
            0
        },
{
    assert(mask.take(0) =~= Seq::empty());
    reached_bounds(mask, n, 0);
    let start = reached(mask, n);
    if n >= 1 {
        masked_row_is_null(mask, n, r);
    } else {
        assert(start == 0);
    }
    if recursive_layout(mask, n, fitted)[r] is Some {
        if n >= 1 {
            count_grows(mask, 0, r + 1, mask.len() as int);
            assert(mask.subrange(0, r + 1) =~= mask.take(r + 1));
            assert(mask.subrange(0, mask.len() as int) =~= mask);
            reached_at(mask, n, 0);
        }
        count_split(mask, start, r);
        assert(mask.subrange(0, r) =~= mask.take(r));
        assert(mask.subrange(0, start) =~= mask.take(start));
        count_step(mask, start, r);
    }
}

/// Of two rows that show a fit under a mask with a false place, with none between them that does,
/// the later one shows the next fit and reads the next row of the table.
pub proof fn masked_neighbours_read_neighbours(mask: Seq<bool>, n: int, fitted: int, r: int, s: int)
    requires
        n >= 0,
        mask.contains(false),
        0 <= r < s < mask.len() <= usize::MAX,
        recursive_layout(mask, n, fitted)[r] is Some,
        recursive_layout(mask, n, fitted)[s] is Some,
        forall|k: int| r < k < s ==> (#[trigger] recursive_layout(mask, n, fitted)[k]) is None,
    ensures
        recursive_layout(mask, n, fitted)[s]->0.coeffs == recursive_layout(
            mask,
            n,
            fitted,
        )[r]->0.coeffs + 1,
        recursive_layout(mask, n, fitted)[s]->0.row == recursive_layout(mask, n, fitted)[r]->0.row
            + 1,
{
    masked_rows_by_place(mask, n, fitted, r);
    masked_rows_by_place(mask, n, fitted, s);
    recursive_in_order(mask, n, r, s);
}

/// Under a mask without a false place, the rows that lead up to the first fit are null, one less
/// than `n` or one where `n` is zero, and each other one shows the next fit, applied to the row
/// itself.
pub proof fn unmasked_rows_by_place(mask: Seq<bool>, n: int, fitted: int, r: int)
    requires
        n >= 0,
        fitted >= 0,
        !mask.contains(false),
        0 <= r < recursive_layout(mask, n, fitted).len() <= usize::MAX,
    ensures
        ({
            let first = if n >= 1 {
                n - 1
            } else {
                1
            };
            &&& recursive_layout(mask, n, fitted).len() == first + fitted
            &&& recursive_layout(mask, n, fitted)[r] is None <==> r < first
            &&& recursive_layout(mask, n, fitted)[r] matches Some(at) ==> at.coeffs == r - first
                && at.row == r
        }),
{
}

/// A rolling fit over windows of `n` rows shows, in each row from the `n`-th on, the fit of the
/// window that ends there, applied to the row itself, unless windows are skipped and that one has
/// no coefficients.
pub proof fn rolling_rows_by_place(
    n: int,
    shapes: Seq<(usize, usize)>,
    should_skip: bool,
    r: int,
)
    requires
        n >= 1,
        n - 1 + shapes.len() <= usize::MAX,
        0 <= r < n - 1 + shapes.len(),
    ensures
        ({
            let rows = unmasked_rows(n - 1, skipped_fits(shapes, should_skip));
            &&& rows.len() == n - 1 + shapes.len()
            &&& r < n - 1 ==> rows[r] is None
            &&& r >= n - 1 ==> (rows[r] is None <==> should_skip && shapes[r - (n - 1)].0 == 0
                && shapes[r - (n - 1)].1 == 0)
            &&& rows[r] matches Some(at) ==> at.coeffs == r - (n - 1) && at.row == r
        }),
{
}

/// A recursive fit finds what its output shows exactly where each row that shows a fit shows one
/// that is there, applied to a row that is there.
pub proof fn recursive_fit_is_found(mask: Seq<bool>, n: int, fitted: int, rows: int)
    requires
        n >= 0,
        fitted >= 0,
        rows >= 0,
        mask.len() <= usize::MAX,
        lead(n) + fitted <= usize::MAX,
    ensures
        recursive_within(mask, n, fitted, rows) <==> forall|r: int|
            0 <= r < recursive_layout(mask, n, fitted).len() ==> ((#[trigger] recursive_layout(
                mask,
                n,
                fitted,
            )[r]) matches Some(at) ==> at.coeffs < fitted && at.row < rows),
{
    let layout = recursive_layout(mask, n, fitted);
    if mask.contains(false) {
        let start = reached(mask, n);
        reached_bounds(mask, n, 0);
        let shown = count(mask.subrange(start, mask.len() as int)) as int;
        if shown <= fitted && shown <= rows {
            assert forall|r: int| 0 <= r < layout.len() implies ((#[trigger] layout[r]) matches
                Some(at) ==> at.coeffs < fitted && at.row < rows) by {
                if start <= r && mask[r] {
                    count_step(mask, start, r);
                    count_grows(mask, start, r + 1, mask.len() as int);
                }
            }
        } else {
            let r = last_counted(mask, start, mask.len() as int);
            count_step(mask, start, r);
            assert(layout[r] is Some);
            assert(layout[r]->0.coeffs == shown - 1);
        }
    } else {
        let skipped = Seq::new(fitted as nat, |i: int| false);
        if fitted > 0 && lead(n) + fitted > rows {
            let r = lead(n) + fitted - 1;
            assert(layout[r] is Some);
        }
    }
}

/// The last true place of a part of a mask that has one.
proof fn last_counted(mask: Seq<bool>, from: int, to: int) -> (r: int)
    requires
        0 <= from <= to <= mask.len(),
        count(mask.subrange(from, to)) > 0,
    ensures
        from <= r < to,
        mask[r],
        count(mask.subrange(from, r)) == count(mask.subrange(from, to)) - 1,
    decreases to - from,
{
    if from == to {
        assert(mask.subrange(from, to) =~= Seq::empty());
        from
    } else {
        count_step(mask, from, to - 1);
        if mask[to - 1] {
            to - 1
        } else {
            last_counted(mask, from, to - 1)
        }
    }
}

/// A recursive fit under a mask without a false place finds what its output shows exactly where
/// there is no fit, or the table has a row for each one behind those that lead up to the first.
pub proof fn unmasked_fit_is_found(mask: Seq<bool>, n: int, fitted: int, rows: int)
    requires
        n >= 0,
        fitted >= 0,
        !mask.contains(false),
    ensures
        recursive_within(mask, n, fitted, rows) <==> fitted == 0 || fitted + if n >= 1 {
            n - 1
        } else {
            1
        } <= rows,
{
}

/// A rolling fit finds what its output shows exactly where windows have a row, the rows can be
/// counted, and each row that shows a fit is there.
pub proof fn rolling_fit_is_found(
    n: int,
    shapes: Seq<(usize, usize)>,
    should_skip: bool,
    rows: int,
)
    ensures
        rolling_within(n, shapes, should_skip, rows) <==> n >= 1 && n - 1 + shapes.len()
            <= usize::MAX && forall|i: int|
            #![trigger shapes[i]]
            0 <= i < shapes.len() && n - 1 + i >= rows ==> should_skip && shapes[i].0 == 0
                && shapes[i].1 == 0,
{
    let skipped = skipped_fits(shapes, should_skip);
    if rolling_within(n, shapes, should_skip, rows) {
        if !should_skip && shapes.len() > 0 {
            assert(!skipped[shapes.len() - 1]);
        }
        assert forall|i: int|
            #![trigger shapes[i]]
            0 <= i < shapes.len() && n - 1 + i >= rows implies should_skip && shapes[i].0 == 0
            && shapes[i].1 == 0 by {
            assert(skipped[i]);
        }
    } else if n >= 1 && n - 1 + shapes.len() <= usize::MAX {
        let i = choose|i: int|
            0 <= i < shapes.len() && !#[trigger] skipped[i] && !(n - 1 + i < rows);
        assert(shapes[i] == shapes[i]);
    }
}

/// Windows are skipped where the policy skips and there is a null, or fills and there is one in
/// the target; and then those with fewer rows without nulls than asked for are.
pub proof fn windows_are_skipped_for_nulls(
    inputs: Seq<ColumnView>,
    policy: NullPolicy,
    should_skip: bool,
    min_size: usize,
)
    requires
        inputs.len() > 0,
    ensures
        skips_windows(inputs, policy) <==> (policy is SKIP || policy is SKIP_WINDOW)
            && null_somewhere(inputs) || (policy is FILL || policy is FILL_WINDOW) && exists|r: int|
            0 <= r < inputs[0].2.len() && (#[trigger] inputs[0].2[r]) is None,
        should_skip ==> rolling_choice(should_skip, min_size) == RollingMethod::Skipping(min_size),
        !should_skip ==> rolling_choice(should_skip, min_size) is Plain,
{
    nulls_are_cells(inputs);
}

/// The columns of a matrix that was returned.
pub open spec fn matrix_given<T>(result: Result<(Vec<Vec<u64>>, T), LstsqError>) -> Seq<Vec<u64>> {
    let pair = result->Ok_0;
    pair.0@
}

/// The matrix of a rolling fit on `Float64` has a row for each row of the inputs. In each feature
/// the number that the caller asked to fill with stands in place of each null, NaN where the
/// caller asked for none, and else the scaled value of the input.
pub proof fn rolling_matrix_by_entries<T>(
    inputs: Seq<Series>,
    add_bias: bool,
    policy: NullPolicy,
    result: Result<(Vec<Vec<u64>>, T), LstsqError>,
    c: int,
    r: int,
)
    requires
        inputs.len() > 0,
        requested(
            series_columns(inputs),
            series_orders(inputs),
            add_bias,
            windowed_request(Ok(policy)),
            seen(result),
        ),
        result is Ok,
        all_numbers(series_columns(inputs), series_orders(inputs)),
        0 < c < inputs.len(),
        !(add_bias && series_name(inputs[c]) == "literal"@),
        0 <= r < series_cells(inputs[0]).len(),
    ensures
        c < matrix_given(result).len(),
        matrix_given(result)[c]@.len() == series_cells(inputs[0]).len(),
        series_cells(inputs[c])[r] is None ==> float_code(matrix_given(result)[c]@[r])
            == match policy {
            NullPolicy::FILL(x) => float_code(x),
            NullPolicy::FILL_WINDOW(x) => float_code(x),
            _ => 0x7ff8_0000_0000_0000,
        },
        series_cells(inputs[c])[r] is Some ==> (scaled_form(
            series_columns(inputs)[c],
            series_order(inputs[c]),
        ) matches Some((kind, cells)) && Some(float_code(matrix_given(result)[c]@[r]))
            == cells[r]),
{
    let columns = series_columns(inputs);
    let orders = series_orders(inputs);
    let matrix = seen(result)->Ok_0;
    let keep = Seq::new(columns[0].2.len(), |r: int| true);
    assert(marks_stays(columns, windowed(policy), keep));
    let outcome = matrix_is_read_off_a_table(
        columns,
        orders,
        add_bias,
        windowed(policy),
        seen(result),
    );
    constant_column_is_one(
        columns,
        orders,
        add_bias,
        windowed(policy),
        outcome->Ok_0,
        keep,
        c,
        r,
    );
    entries_of_the_matrix(columns, orders, add_bias, windowed(policy), matrix, keep, c, r);
    counts_true(keep, r);
    counts_true(keep, keep.len() as int);
    assert(keep.take(keep.len() as int) =~= keep);
    assert(matrix[c][r] == float_code(matrix_given(result)[c]@[r]));
}

/// A request for a rolling fit whose policy was not understood stays one.
pub proof fn rolling_requests(policy: Result<NullPolicy, String>)
    ensures
        policy matches Err(text) ==> windowed_request(policy) == Err::<NullPolicy, String>(text),
        policy matches Ok(p) ==> windowed_request(policy) == Ok::<NullPolicy, String>(windowed(p)),
{
}

} // verus!
