//! From series to the table of a regression with one target: scaled features, a constant
//! column where one is asked for, and nulls treated as the policy says.
use vstd::prelude::*;
use vstd::slice::slice_subrange;

use polars::prelude::{DataFrame, Series};

use crate::error::{Failure, LstsqError};
use crate::expressions::{
    filled_columns, frame_fill, frame_numbers, frame_scale, number_filled, read_columns,
    scalable, scales_to,
};
use crate::ieee::ONE;
use crate::policy::{windowed, NullPolicy};
use crate::tables::{
    all_float, frame_columns, frame_filter, frame_height, frame_is_empty, frame_new,
    frame_orders, frame_with_literal, mask_and, mask_from_slice, mask_rows, series_cells,
    series_columns, series_has_nulls, series_is_not_null, series_label, series_name,
    series_orders, texts, Mask,
};
use crate::views::{
    any_null, complete, complete_rows, count, entries, fit, float_code, float_codes,
    float_entries, float_kind, has_null, height, kept, kept_counts, kept_from, kept_rows, level,
    matrix_codes, names_of, present, settled, settled_float, with_constant, ColumnView,
};

verus! {

/// The table after the treatment of nulls, or why there is none. The nulls are those of the
/// inputs, whose first one is the target.
pub open spec fn treated(
    inputs: Seq<ColumnView>,
    table: Seq<ColumnView>,
    policy: NullPolicy,
) -> Result<Seq<ColumnView>, Failure> {
    let target = inputs[0];
    if !any_null(inputs) {
        Ok(table)
    } else {
        match policy {
            NullPolicy::IGNORE | NullPolicy::SKIP_WINDOW => Ok(table),
            NullPolicy::RAISE => Err(Failure::NullsFound),
            NullPolicy::SKIP => Ok(kept_rows(table, complete_rows(inputs))),
            NullPolicy::FILL(x) => match filled_columns(table, seq![target.0], x) {
                None => Err(Failure::Polars),
                Some(full) => if has_null(target.2) {
                    Ok(kept_rows(full, present(target.2)))
                } else {
                    Ok(full)
                },
            },
            NullPolicy::FILL_WINDOW(x) => match filled_columns(table, seq![target.0], x) {
                None => Err(Failure::Polars),
                Some(full) => Ok(full),
            },
        }
    }
}

/// The mask of the rows of the inputs under a policy that lets them pass: which rows stay, where
/// the policy drops rows, and else a single row that says whether no null is left to see to.
pub open spec fn mask_of(inputs: Seq<ColumnView>, policy: NullPolicy) -> Seq<bool> {
    let target = inputs[0];
    if !any_null(inputs) {
        seq![true]
    } else if policy is SKIP {
        complete_rows(inputs)
    } else if policy is FILL && has_null(target.2) {
        present(target.2)
    } else {
        seq![(policy is FILL || policy is FILL_WINDOW) && !has_null(target.2)]
    }
}

/// The table with the constant column, where one is asked for.
pub open spec fn biased(table: Seq<ColumnView>, add_bias: bool) -> Seq<ColumnView> {
    if add_bias {
        with_constant(table, "literal"@, float_code(ONE))
    } else {
        table
    }
}

/// The table of a regression, given the inputs with their features scaled, or why there is
/// none.
pub open spec fn prepared(
    inputs: Seq<ColumnView>,
    scaled: Seq<ColumnView>,
    add_bias: bool,
    policy: NullPolicy,
) -> Result<Seq<ColumnView>, Failure> {
    match treated(inputs, biased(scaled, add_bias), policy) {
        Err(failure) => Err(failure),
        Ok(table) => if height(table) < inputs.len() - 1 {
            Err(Failure::TooFewRows)
        } else {
            Ok(table)
        },
    }
}

/// Whether a table, or a reason why there is none, can come of inputs with the given marks.
pub open spec fn prepares(
    inputs: Seq<ColumnView>,
    orders: Seq<int>,
    add_bias: bool,
    policy: NullPolicy,
    outcome: Result<Seq<ColumnView>, Failure>,
) -> bool {
    if !fit(inputs) {
        outcome == Err::<Seq<ColumnView>, Failure>(Failure::Polars)
    } else if height(inputs) == 0 {
        outcome == Err::<Seq<ColumnView>, Failure>(Failure::EmptyData)
    } else if !scalable(inputs, orders) {
        outcome == Err::<Seq<ColumnView>, Failure>(Failure::Polars)
    } else {
        exists|scaled: Seq<ColumnView>|
            #![trigger scales_to(inputs, orders, scaled)]
            scales_to(inputs, orders, scaled) && level(scaled, height(inputs)) && outcome
                == prepared(inputs, scaled, add_bias, policy)
    }
}

/// The matrix of a table, column by column, or why there is none.
pub open spec fn matrix_of(table: Result<Seq<ColumnView>, Failure>) -> Result<
    Seq<Seq<int>>,
    Failure,
> {
    match table {
        Err(failure) => Err(failure),
        Ok(columns) => match read_columns(columns) {
            None => Err(Failure::Polars),
            Some(matrix) => Ok(matrix),
        },
    }
}

/// What else holds of a table, where the inputs fit, have rows and settled features of
/// `Float64`: the features were scaled with their nulls in place, filling replaced the nulls of
/// the features, and a policy that removes nulls left none.
pub open spec fn numbers_prepared(
    inputs: Seq<ColumnView>,
    orders: Seq<int>,
    add_bias: bool,
    policy: NullPolicy,
    outcome: Result<Seq<ColumnView>, Failure>,
) -> bool {
    fit(inputs) && height(inputs) > 0 && settled_features(inputs, orders) ==> exists|
        scaled: Seq<ColumnView>,
    |
        #![trigger scales_to(inputs, orders, scaled)]
        {
            &&& scales_to(inputs, orders, scaled)
            &&& level(scaled, height(inputs))
            &&& outcome == prepared(inputs, scaled, add_bias, policy)
            &&& features_scale(inputs, scaled)
            &&& any_null(inputs) ==> (policy matches NullPolicy::FILL(x) ==> fills_features(
                inputs[0].0,
                biased(scaled, add_bias),
                x,
            ))
            &&& any_null(inputs) ==> (policy matches NullPolicy::FILL_WINDOW(x) ==>
                fills_features(inputs[0].0, biased(scaled, add_bias), x))
            &&& removes_nulls(policy) ==> (outcome matches Ok(table) ==> !any_null(table))
        }
}

/// Whether a matrix, or a reason why there is none, can come of inputs with the given marks. Of
/// a table of `Float64` the matrix has the cells as its entries, and NaN in place of each null.
pub open spec fn reads(
    inputs: Seq<ColumnView>,
    orders: Seq<int>,
    add_bias: bool,
    policy: NullPolicy,
    outcome: Result<Seq<Seq<int>>, Failure>,
) -> bool {
    exists|table: Result<Seq<ColumnView>, Failure>|
        #![trigger prepares(inputs, orders, add_bias, policy, table)]
        {
            &&& prepares(inputs, orders, add_bias, policy, table)
            &&& numbers_prepared(inputs, orders, add_bias, policy, table)
            &&& outcome == matrix_of(table)
            &&& table matches Ok(columns) ==> all_float(columns, 0) ==> outcome == Ok::<
                Seq<Seq<int>>,
                Failure,
            >(float_entries(columns))
        }
}

/// A matrix with something beside it, or why there is none, by the numbers of its entries.
pub open spec fn seen<T>(r: Result<(Vec<Vec<u64>>, T), LstsqError>) -> Result<
    Seq<Seq<int>>,
    Failure,
> {
    match r {
        Err(e) => Err(e@),
        Ok((matrix, _)) => Ok(matrix_codes(matrix@)),
    }
}

/// The number of rows that a policy leaves of the inputs.
pub open spec fn rows_left(inputs: Seq<ColumnView>, policy: NullPolicy) -> nat {
    if policy is SKIP {
        count(complete_rows(inputs))
    } else if policy is FILL {
        count(present(inputs[0].2))
    } else {
        height(inputs)
    }
}

/// Whether the table has the number of the given bits in place of each null of its features,
/// once they are filled.
pub open spec fn fills_features(
    target: Seq<char>,
    table: Seq<ColumnView>,
    bits: u64,
) -> bool {
    filled_columns(table, seq![target], bits) == Some(number_filled(table, seq![target], bits))
}

/// Whether each feature is `Float64` and has a settled least and greatest value.
pub open spec fn settled_features(inputs: Seq<ColumnView>, orders: Seq<int>) -> bool {
    forall|c: int|
        1 <= c < inputs.len() ==> settled_float(
            (#[trigger] inputs[c]).1,
            orders[c],
            inputs[c].2,
        )
}

/// Whether the features of a scaled table are `Float64` and have the nulls of the inputs.
pub open spec fn features_scale(inputs: Seq<ColumnView>, scaled: Seq<ColumnView>) -> bool {
    scaled.len() == inputs.len() && forall|c: int|
        1 <= c < inputs.len() ==> (#[trigger] scaled[c]).1 == float_kind() && present(scaled[c].2)
            == present(inputs[c].2)
}

/// Whether a policy lets the inputs pass and leaves as many rows as there are features.
pub open spec fn enough_rows(inputs: Seq<ColumnView>, policy: NullPolicy) -> bool {
    !(any_null(inputs) && policy is RAISE) && rows_left(inputs, policy) >= inputs.len() - 1
}

/// Whether a policy, where it lets the data pass, leaves no null among them.
pub open spec fn removes_nulls(policy: NullPolicy) -> bool {
    policy is RAISE || policy is SKIP || policy is FILL
}

/// Whether one of the series from `from` on, up to `to`, holds a null.
pub(crate) fn some_has_nulls(inputs: &[Series], from: usize, to: usize) -> (r: bool)
    requires
        from <= to <= inputs@.len(),
    ensures
        r == exists|c: int| from <= c < to && has_null(#[trigger] series_columns(inputs@)[c].2),
{
    let mut i: usize = from;
    while i < to
        invariant
            from <= i <= to <= inputs@.len(),
            forall|c: int| from <= c < i ==> !has_null(#[trigger] series_columns(inputs@)[c].2),
        decreases to - i,
    {
        if series_has_nulls(&inputs[i]) {
            assert(has_null(series_columns(inputs@)[i as int].2));
            return true;
        }
        i = i + 1;
    }
    false
}

/// The mask of the rows in which no series is null.
fn complete_mask(inputs: &[Series]) -> (m: Mask)
    requires
        inputs@.len() > 0,
        fit(series_columns(inputs@)),
    ensures
        mask_rows(m) == complete_rows(series_columns(inputs@)),
{
    let ghost columns = series_columns(inputs@);
    let mut mask = series_is_not_null(&inputs[0]);
    assert forall|r: int| 0 <= r < mask_rows(mask).len() implies mask_rows(mask)[r] == complete(
        columns.take(1),
        r,
    ) by {
        assert(columns.take(1)[0] == columns[0]);
    }
    let mut i: usize = 1;
    while i < inputs.len()
        invariant
            1 <= i <= inputs@.len(),
            columns == series_columns(inputs@),
            fit(columns),
            mask_rows(mask).len() == columns[0].2.len(),
            forall|r: int|
                0 <= r < mask_rows(mask).len() ==> mask_rows(mask)[r] == complete(
                    columns.take(i as int),
                    r,
                ),
        decreases inputs@.len() - i,
    {
        let next = series_is_not_null(&inputs[i]);
        assert(columns[i as int].2 == series_cells(inputs@[i as int]));
        let ghost before = mask_rows(mask);
        mask = mask_and(&mask, &next);
        assert forall|r: int| 0 <= r < mask_rows(mask).len() implies mask_rows(mask)[r]
            == complete(columns.take(i + 1), r) by {
            let shorter = columns.take(i as int);
            let longer = columns.take(i + 1);
            assert(longer[i as int] == columns[i as int]);
            assert(before[r] == complete(shorter, r));
            if mask_rows(mask)[r] {
                assert forall|c: int| 0 <= c < longer.len() implies (#[trigger] longer[c]).2[r]
                    is Some by {
                    if c < i {
                        assert(shorter[c] == longer[c]);
                    }
                }
            }
            if complete(longer, r) {
                assert forall|c: int| 0 <= c < shorter.len() implies (#[trigger] shorter[c]).2[r]
                    is Some by {
                    assert(shorter[c] == longer[c]);
                }
                assert(longer[i as int].2[r] is Some);
            }
        }
        i = i + 1;
    }
    assert(columns.take(i as int) =~= columns);
    assert(mask_rows(mask) =~= complete_rows(columns));
    mask
}

/// A table with a constant column is a table of the same height.
proof fn constant_fits(columns: Seq<ColumnView>, name: Seq<char>, code: int)
    requires
        fit(columns),
        columns.len() > 0,
    ensures
        fit(with_constant(columns, name, code)),
        height(with_constant(columns, name, code)) == height(columns),
        level(with_constant(columns, name, code), height(columns)),
{
    let after = with_constant(columns, name, code);
    let names = names_of(columns);
    if names.contains(name) {
        let at = names.index_of(name);
        assert(names[at] == name);
        assert(columns[at].0 == name);
        assert(names_of(after) =~= names);
    } else {
        assert(names_of(after) =~= names.push(name));
        assert forall|i: int, j: int|
            0 <= i < names.len() + 1 && 0 <= j < names.len() + 1 && i != j implies names.push(
            name,
        )[i] != names.push(name)[j] by {
            if i < names.len() && j < names.len() {
            } else if i < names.len() {
                assert(names.contains(names[i]));
            } else {
                assert(names.contains(names[j]));
            }
        }
    }
}

/// Whether a cell of the table is null only where the input in its place is.
pub open spec fn no_new_nulls(inputs: Seq<ColumnView>, table: Seq<ColumnView>) -> bool {
    forall|c: int, r: int|
        0 <= c < table.len() && 0 <= r < height(inputs) && (#[trigger] table[c].2[r]) is None
            ==> c < inputs.len() && inputs[c].2[r] is None
}

/// What is kept of a column is not null where the mask is false at each null.
proof fn kept_not_null(cells: Seq<Option<int>>, mask: Seq<bool>)
    requires
        cells.len() == mask.len(),
        forall|r: int| 0 <= r < mask.len() && mask[r] ==> cells[r] is Some,
    ensures
        !has_null(kept(cells, mask)),
{
    if has_null(kept(cells, mask)) {
        let k = choose|k: int|
            0 <= k < kept(cells, mask).len() && #[trigger] kept(cells, mask)[k] is None;
        let r = kept_from(cells, mask, k);
    }
}

/// A mask without a false place counts all of them.
proof fn full_mask_counts(mask: Seq<bool>)
    requires
        !mask.contains(false),
    ensures
        count(mask) == mask.len(),
    decreases mask.len(),
{
    if mask.len() > 0 {
        assert(mask.contains(mask.last()));
        assert forall|i: int| 0 <= i < mask.len() - 1 implies #[trigger] mask.drop_last()[i] by {
            assert(mask.contains(mask[i]));
        }
        full_mask_counts(mask.drop_last());
    }
}

/// Without nulls no policy drops a row.
proof fn no_nulls_no_loss(inputs: Seq<ColumnView>, policy: NullPolicy)
    requires
        inputs.len() > 0,
        fit(inputs),
        !any_null(inputs),
    ensures
        rows_left(inputs, policy) == height(inputs),
{
    assert forall|r: int, c: int| 0 <= r < height(inputs) && 0 <= c < inputs.len() implies (
    #[trigger] inputs[c].2[r]) is Some by {
        if inputs[c].2[r] is None {
            assert(has_null(inputs[c].2));
        }
    }
    full_mask_counts(complete_rows(inputs));
    full_mask_counts(present(inputs[0].2));
}

/// What is kept of a level table is as high as the mask has true places.
proof fn kept_rows_level(table: Seq<ColumnView>, mask: Seq<bool>)
    requires
        level(table, mask.len()),
    ensures
        level(kept_rows(table, mask), count(mask)),
{
    assert forall|c: int| 0 <= c < table.len() implies (#[trigger] kept_rows(table, mask)[c]).2.len()
        == count(mask) by {
        kept_counts(table[c].2, mask);
    }
}

/// Where no column of the inputs has a null in a row that the mask keeps, what is kept of the
/// table has no null.
proof fn kept_rows_not_null(
    inputs: Seq<ColumnView>,
    table: Seq<ColumnView>,
    mask: Seq<bool>,
)
    requires
        level(table, mask.len()),
        height(inputs) == mask.len(),
        no_new_nulls(inputs, table),
        forall|c: int, r: int|
            0 <= c < table.len() && 0 <= r < mask.len() && mask[r] && c < inputs.len()
                ==> (#[trigger] inputs[c].2[r]) is Some,
    ensures
        !any_null(kept_rows(table, mask)),
{
    assert forall|c: int| 0 <= c < table.len() implies !has_null(
        #[trigger] kept_rows(table, mask)[c].2,
    ) by {
        assert forall|r: int| 0 <= r < mask.len() && mask[r] implies table[c].2[r] is Some by {
            if table[c].2[r] is None {
                assert(inputs[c].2[r] is Some);
            }
        }
        kept_not_null(table[c].2, mask);
    }
}

/// The nulls of the features replaced by the number of the given bits, and the rows without a
/// target dropped.
fn fill_features(inputs: &[Series], table: DataFrame, bits: u64, y_has_null: bool) -> (r: Result<
    (DataFrame, Mask),
    LstsqError,
>)
    requires
        inputs@.len() > 0,
        fit(series_columns(inputs@)),
        any_null(series_columns(inputs@)),
        y_has_null == has_null(series_cells(inputs@[0])),
        frame_columns(table).len() > 0,
        fit(frame_columns(table)),
        level(frame_columns(table), height(series_columns(inputs@))),
        frame_columns(table)[0].0 == series_name(inputs@[0]),
    ensures
        match treated(series_columns(inputs@), frame_columns(table), NullPolicy::FILL(bits)) {
            Ok(columns) => r matches Ok((df, m)) && frame_columns(df) == columns && mask_rows(m)
                == mask_of(series_columns(inputs@), NullPolicy::FILL(bits)),
            Err(failure) => r matches Err(e) && e@ == failure,
        },
        r matches Ok((df, m)) ==> frame_columns(df).len() > 0 && level(
            frame_columns(df),
            rows_left(series_columns(inputs@), NullPolicy::FILL(bits)),
        ),
        all_float(frame_columns(table), 1) && no_new_nulls(
            series_columns(inputs@),
            frame_columns(table),
        ) ==> (r matches Ok((df, m)) ==> !any_null(frame_columns(df))),
        all_float(frame_columns(table), 1) ==> fills_features(
            series_name(inputs@[0]),
            frame_columns(table),
            bits,
        ),
{
    let ghost columns = series_columns(inputs@);
    let ghost before = frame_columns(table);
    let ghost target = columns[0];
    let spared: Vec<String> = vec![series_label(&inputs[0])];
    assert(texts(spared@) =~= seq![target.0]);
    assert(seq![target.0][0] == target.0);
    match frame_fill(&table, &spared, bits) {
        Err(e) => Err(LstsqError::Polars(e)),
        Ok(full) => {
            let ghost after = frame_columns(full);
            assert(after =~= filled_columns(before, seq![target.0], bits)->0);
            proof {
                assert(seq![target.0][0] == target.0);
                if all_float(before, 1) && no_new_nulls(columns, before) {
                    assert forall|c: int, r: int|
                        0 <= c < after.len() && 0 <= r < height(columns) && (
                        #[trigger] after[c].2[r]) is None implies c == 0 && columns[0].2[r]
                        is None by {
                        if c > 0 {
                            assert(names_of(before)[c] != names_of(before)[0]);
                            assert(!seq![target.0].contains(before[c].0));
                        } else {
                            assert(before[0].2[r] is None);
                        }
                    }
                }
            }
            if y_has_null {
                let mask = series_is_not_null(&inputs[0]);
                match frame_filter(&full, &mask) {
                    Err(e) => Err(LstsqError::Polars(e)),
                    Ok(df) => {
                        proof {
                            kept_rows_level(after, mask_rows(mask));
                            if all_float(before, 1) && no_new_nulls(columns, before) {
                                kept_rows_not_null(seq![target], after, mask_rows(mask));
                            }
                        }
                        Ok((df, mask))
                    },
                }
            } else {
                let mask = mask_from_slice(&[true]);
                assert(mask_rows(mask) =~= seq![true]);
                proof {
                    full_mask_counts(present(target.2));
                }
                Ok((full, mask))
            }
        },
    }
}

/// The policy's treatment of the nulls of the inputs, carried out on the table.
fn treat_nulls(inputs: &[Series], table: DataFrame, policy: NullPolicy) -> (r: Result<
    (DataFrame, Mask),
    LstsqError,
>)
    requires
        inputs@.len() > 0,
        fit(series_columns(inputs@)),
        height(series_columns(inputs@)) > 0,
        frame_columns(table).len() > 0,
        fit(frame_columns(table)),
        level(frame_columns(table), height(series_columns(inputs@))),
        frame_columns(table)[0].0 == series_name(inputs@[0]),
    ensures
        match treated(series_columns(inputs@), frame_columns(table), policy) {
            Ok(columns) => r matches Ok((df, m)) && frame_columns(df) == columns && mask_rows(m)
                == mask_of(series_columns(inputs@), policy),
            Err(failure) => r matches Err(e) && e@ == failure,
        },
        r matches Ok((df, m)) ==> frame_columns(df).len() > 0 && level(
            frame_columns(df),
            rows_left(series_columns(inputs@), policy),
        ),
        all_float(frame_columns(table), 1) && no_new_nulls(
            series_columns(inputs@),
            frame_columns(table),
        ) && removes_nulls(policy) ==> (r matches Ok((df, m)) ==> !any_null(frame_columns(df))),
        all_float(frame_columns(table), 1) && any_null(series_columns(inputs@)) ==> (policy matches
            NullPolicy::FILL(x) ==> fills_features(
            series_name(inputs@[0]),
            frame_columns(table),
            x,
        )),
        all_float(frame_columns(table), 1) && any_null(series_columns(inputs@)) ==> (policy matches
            NullPolicy::FILL_WINDOW(x) ==> fills_features(
            series_name(inputs@[0]),
            frame_columns(table),
            x,
        )),
{
    let ghost columns = series_columns(inputs@);
    let ghost before = frame_columns(table);
    assert(columns[0].2 == series_cells(inputs@[0]));
    let y_has_null = series_has_nulls(&inputs[0]);
    let nulls = some_has_nulls(inputs, 1, inputs.len()) || y_has_null;
    assert(nulls == any_null(columns)) by {
        if y_has_null {
            assert(has_null(columns[0].2));
        }
    }
    if !nulls {
        let mask = mask_from_slice(&[true]);
        assert(mask_rows(mask) =~= seq![true]);
        proof {
            no_nulls_no_loss(columns, policy);
            if no_new_nulls(columns, before) && any_null(before) {
                let c = choose|c: int|
                    0 <= c < before.len() && has_null(#[trigger] before[c].2);
                let r = choose|r: int|
                    0 <= r < before[c].2.len() && #[trigger] before[c].2[r] is None;
                assert(columns[c].2[r] is None);
                assert(has_null(columns[c].2));
            }
        }
        return Ok((table, mask));
    }
    match policy {
        NullPolicy::IGNORE | NullPolicy::SKIP_WINDOW => {
            let mask = mask_from_slice(&[false]);
            assert(mask_rows(mask) =~= seq![false]);
            Ok((table, mask))
        },
        NullPolicy::RAISE => Err(LstsqError::NullsFound),
        NullPolicy::SKIP => {
            let mask = complete_mask(inputs);
            match frame_filter(&table, &mask) {
                Err(e) => Err(LstsqError::Polars(e)),
                Ok(df) => {
                    proof {
                        kept_rows_level(before, mask_rows(mask));
                        if no_new_nulls(columns, before) {
                            assert forall|c: int, r: int|
                                0 <= c < before.len() && 0 <= r < mask_rows(mask).len()
                                    && mask_rows(mask)[r] && c < columns.len() implies (
                            #[trigger] columns[c].2[r]) is Some by {
                                assert(complete(columns, r));
                            }
                            kept_rows_not_null(columns, before, mask_rows(mask));
                        }
                    }
                    Ok((df, mask))
                },
            }
        },
        NullPolicy::FILL(x) => fill_features(inputs, table, x, y_has_null),
        NullPolicy::FILL_WINDOW(x) => {
            let spared: Vec<String> = vec![series_label(&inputs[0])];
            assert(texts(spared@) =~= seq![columns[0].0]);
            assert(seq![columns[0].0][0] == columns[0].0);
            match frame_fill(&table, &spared, x) {
                Err(e) => Err(LstsqError::Polars(e)),
                Ok(df) => {
                    assert(frame_columns(df) =~= filled_columns(before, seq![columns[0].0], x)->0);
                    let mask = mask_from_slice(&[!y_has_null]);
                    assert(mask_rows(mask) =~= seq![!y_has_null]);
                    Ok((df, mask))
                },
            }
        },
    }
}

/// The table of a regression, given the table of the inputs with their features scaled, and the
/// mask of its rows.
pub fn prepared_frame(
    inputs: &[Series],
    scaled: DataFrame,
    add_bias: bool,
    null_policy: NullPolicy,
) -> (r: Result<(DataFrame, Mask), LstsqError>)
    requires
        inputs@.len() > 0,
        fit(series_columns(inputs@)),
        height(series_columns(inputs@)) > 0,
        frame_columns(scaled).len() == inputs@.len(),
        fit(frame_columns(scaled)),
        frame_columns(scaled)[0] == series_columns(inputs@)[0],
    ensures
        match prepared(
            series_columns(inputs@),
            frame_columns(scaled),
            add_bias,
            null_policy,
        ) {
            Ok(columns) => r matches Ok((df, m)) && frame_columns(df) == columns && mask_rows(m)
                == mask_of(series_columns(inputs@), null_policy),
            Err(failure) => r matches Err(e) && e@ == failure,
        },
        r matches Ok((df, m)) ==> level(
            frame_columns(df),
            rows_left(series_columns(inputs@), null_policy),
        ),
        all_float(frame_columns(scaled), 1) ==> (r is Ok <==> enough_rows(
            series_columns(inputs@),
            null_policy,
        )),
        all_float(frame_columns(scaled), 1) && no_new_nulls(
            series_columns(inputs@),
            frame_columns(scaled),
        ) && removes_nulls(null_policy) ==> (r matches Ok((df, m)) ==> !any_null(
            frame_columns(df),
        )),
        all_float(frame_columns(scaled), 1) && any_null(series_columns(inputs@)) ==> (null_policy
            matches NullPolicy::FILL(x) ==> fills_features(
            series_name(inputs@[0]),
            biased(frame_columns(scaled), add_bias),
            x,
        )),
        all_float(frame_columns(scaled), 1) && any_null(series_columns(inputs@)) ==> (null_policy
            matches NullPolicy::FILL_WINDOW(x) ==> fills_features(
            series_name(inputs@[0]),
            biased(frame_columns(scaled), add_bias),
            x,
        )),
        !any_null(series_columns(inputs@)) || null_policy is IGNORE || null_policy is SKIP_WINDOW
            ==> (r matches Ok((df, m)) ==> forall|c: int|
            0 <= c < inputs@.len() && !(add_bias && (#[trigger] frame_columns(scaled)[c]).0
                == "literal"@) ==> frame_columns(df)[c] == frame_columns(scaled)[c]),
{
    let n_features = inputs.len() - 1;
    let ghost columns = series_columns(inputs@);
    let ghost even = frame_columns(scaled);
    let table = if add_bias {
        match frame_with_literal(&scaled, ONE) {
            Err(e) => return Err(LstsqError::Polars(e)),
            Ok(table) => {
                proof {
                    constant_fits(even, "literal"@, float_code(ONE));
                    assert(frame_columns(table)[0].0 == even[0].0) by {
                        if names_of(even).contains("literal"@) {
                            let at = names_of(even).index_of("literal"@);
                            assert(names_of(even)[at] == "literal"@);
                        }
                    }
                }
                table
            },
        }
    } else {
        scaled
    };
    let (out, mask) = match treat_nulls(inputs, table, null_policy) {
        Err(e) => return Err(e),
        Ok(pair) => pair,
    };
    if frame_height(&out) < n_features {
        Err(LstsqError::TooFewRows)
    } else {
        Ok((out, mask))
    }
}

/// A table with something beside it, or why there is none.
pub open spec fn frame_seen<T>(r: Result<(DataFrame, T), LstsqError>) -> Result<
    Seq<ColumnView>,
    Failure,
> {
    match r {
        Err(e) => Err(e@),
        Ok((df, _)) => Ok(frame_columns(df)),
    }
}

/// The table of a regression with one target and the mask of its rows, in which true means that
/// the row has no null. The target is the first input. Where nulls stay in place the mask has a
/// single row, which says whether there are none.
pub fn lstsq_frame(inputs: &[Series], add_bias: bool, null_policy: NullPolicy) -> (r: Result<
    (DataFrame, Mask),
    LstsqError,
>)
    requires
        inputs@.len() > 0,
    ensures
        prepares(
            series_columns(inputs@),
            series_orders(inputs@),
            add_bias,
            null_policy,
            frame_seen(r),
        ),
        r matches Ok((df, m)) ==> mask_rows(m) == mask_of(series_columns(inputs@), null_policy),
        r matches Ok((df, m)) ==> level(
            frame_columns(df),
            rows_left(series_columns(inputs@), null_policy),
        ),
        fit(series_columns(inputs@)) && height(series_columns(inputs@)) > 0 && all_float(
            series_columns(inputs@),
            1,
        ) ==> (r is Ok <==> enough_rows(series_columns(inputs@), null_policy)),
        settled_features(series_columns(inputs@), series_orders(inputs@)) && removes_nulls(
            null_policy,
        ) ==> (r matches Ok((df, m)) ==> !any_null(frame_columns(df))),
        numbers_prepared(
            series_columns(inputs@),
            series_orders(inputs@),
            add_bias,
            null_policy,
            frame_seen(r),
        ),
        all_float(series_columns(inputs@), 0) ==> (r matches Ok((df, m)) ==> all_float(
            frame_columns(df),
            0,
        )),
{
    let ghost columns = series_columns(inputs@);
    let ghost orders = series_orders(inputs@);
    let df = match frame_new(inputs) {
        Err(e) => return Err(LstsqError::Polars(e)),
        Ok(df) => df,
    };
    assert(frame_columns(df) =~= columns);
    assert(frame_orders(df) =~= orders);
    if frame_is_empty(&df) {
        return Err(LstsqError::EmptyData);
    }
    let scaled = match frame_scale(&df, series_label(&inputs[0])) {
        Err(e) => return Err(LstsqError::Polars(e)),
        Ok(scaled) => scaled,
    };
    let ghost even = frame_columns(scaled);
    assert(scales_to(columns, orders, even));
    assert(seq![columns[0].0][0] == columns[0].0);
    assert(even[0] == columns[0]);
    assert forall|c: int| 0 <= c < columns.len() implies (#[trigger] even[c]).0 == columns[c].0 by {
    }
    assert(names_of(even) =~= names_of(columns));
    proof {
        assert forall|c: int| 1 <= c < columns.len() && columns[c].1 == float_kind() implies (
        #[trigger] even[c]).1 == float_kind() by {
            assert(names_of(columns)[c] != names_of(columns)[0]);
            assert(!seq![columns[0].0].contains(columns[c].0));
            if settled(columns[c].1, orders[c], columns[c].2) {
                assert(settled_float(columns[c].1, orders[c], columns[c].2));
            }
        }
        if settled_features(columns, orders) {
            assert(features_scale(columns, even)) by {
                assert forall|c: int| 1 <= c < columns.len() implies (#[trigger] even[c]).1
                    == float_kind() && present(even[c].2) == present(columns[c].2) by {
                    assert(settled_float(columns[c].1, orders[c], columns[c].2));
                }
            }
            assert forall|c: int, r: int|
                0 <= c < even.len() && 0 <= r < height(columns) && (#[trigger] even[c].2[r])
                    is None implies c < columns.len() && columns[c].2[r] is None by {
                if c > 0 {
                    assert(even[c].2.len() == height(columns));
                    assert(present(even[c].2)[r] == present(columns[c].2)[r]);
                }
            }
        }
    }
    prepared_frame(inputs, scaled, add_bias, null_policy)
}

/// The matrix of a regression with one target, column by column, its entries by their bits, and
/// the mask of its rows, in which true means that the row has no null. The target is the first
/// input. A null that the policy leaves in place is NaN in the matrix.
pub fn series_to_mat_for_lstsq(inputs: &[Series], add_bias: bool, null_policy: NullPolicy) -> (r:
    Result<(Vec<Vec<u64>>, Mask), LstsqError>)
    requires
        inputs@.len() > 0,
    ensures
        reads(
            series_columns(inputs@),
            series_orders(inputs@),
            add_bias,
            null_policy,
            seen(r),
        ),
        r matches Ok((matrix, m)) ==> mask_rows(m) == mask_of(
            series_columns(inputs@),
            null_policy,
        ),
        fit(series_columns(inputs@)) && height(series_columns(inputs@)) > 0 && all_float(
            series_columns(inputs@),
            0,
        ) ==> (r is Ok <==> enough_rows(series_columns(inputs@), null_policy)),
        all_float(series_columns(inputs@), 0) ==> (r matches Ok((matrix, m)) ==> rows_are(
            matrix@,
            rows_left(series_columns(inputs@), null_policy),
        )),
{
    let (df, mask) = match lstsq_frame(inputs, add_bias, null_policy) {
        Err(e) => {
            assert(matrix_of(Err::<Seq<ColumnView>, Failure>(e@)) == Err::<
                Seq<Seq<int>>,
                Failure,
            >(e@));
            return Err(e);
        },
        Ok(pair) => pair,
    };
    let ghost table = Ok::<Seq<ColumnView>, Failure>(frame_columns(df));
    match frame_numbers(&df) {
        Err(e) => {
            assert(matrix_of(table) == Err::<Seq<Seq<int>>, Failure>(Failure::Polars));
            Err(LstsqError::Polars(e))
        },
        Ok(matrix) => {
            assert(matrix_of(table) == Ok::<Seq<Seq<int>>, Failure>(matrix_codes(matrix@)));
            proof {
                let columns = frame_columns(df);
                if all_float(columns, 0) {
                    assert(matrix_codes(matrix@) =~= float_entries(columns));
                }
                if all_float(series_columns(inputs@), 0) {
                    assert forall|c: int| 0 <= c < matrix@.len() implies (
                    #[trigger] matrix@[c])@.len() == rows_left(
                        series_columns(inputs@),
                        null_policy,
                    ) by {
                        assert(matrix_codes(matrix@).len() == frame_columns(df).len());
                        assert(frame_columns(df)[c].1 == float_kind());
                        assert(matrix_codes(matrix@)[c] == entries(frame_columns(df)[c].2));
                        assert(float_codes(matrix@[c]@).len() == frame_columns(df)[c].2.len());
                    }
                }
            }
            Ok((matrix, mask))
        },
    }
}

/// Whether each column of a matrix has so many rows.
pub open spec fn rows_are(matrix: Seq<Vec<u64>>, rows: nat) -> bool {
    forall|c: int| 0 <= c < matrix.len() ==> (#[trigger] matrix[c])@.len() == rows
}

/// Whether a matrix, or a reason why there is none, can come of a request whose null policy may
/// not have been understood.
pub open spec fn requested(
    inputs: Seq<ColumnView>,
    orders: Seq<int>,
    add_bias: bool,
    policy: Result<NullPolicy, String>,
    outcome: Result<Seq<Seq<int>>, Failure>,
) -> bool {
    match policy {
        Err(text) => outcome == Err::<Seq<Seq<int>>, Failure>(Failure::Policy(text@)),
        Ok(policy) => reads(inputs, orders, add_bias, policy, outcome),
    }
}

/// Whether success goes by the rows that a policy leaves, where the inputs fit, have rows and
/// are `Float64`.
pub open spec fn numbers_read(
    inputs: Seq<ColumnView>,
    policy: Result<NullPolicy, String>,
    success: bool,
) -> bool {
    fit(inputs) && height(inputs) > 0 && all_float(inputs, 0) ==> (policy matches Ok(policy) ==>
        success == enough_rows(inputs, policy))
}

/// The matrix of a regression on the series from `from` on, and the mask of its rows. The null
/// policy is what became of its text, which is not understood where it is an error.
pub fn regression_matrix(
    inputs: &[Series],
    from: usize,
    add_bias: bool,
    null_policy: Result<NullPolicy, String>,
) -> (r: Result<(Vec<Vec<u64>>, Mask), LstsqError>)
    requires
        null_policy is Ok ==> from < inputs@.len(),
    ensures
        requested(
            series_columns(inputs@.subrange(from as int, inputs@.len() as int)),
            series_orders(inputs@.subrange(from as int, inputs@.len() as int)),
            add_bias,
            null_policy,
            seen(r),
        ),
        r matches Ok((matrix, m)) ==> mask_rows(m) == mask_of(
            series_columns(inputs@.subrange(from as int, inputs@.len() as int)),
            null_policy->Ok_0,
        ),
        numbers_read(
            series_columns(inputs@.subrange(from as int, inputs@.len() as int)),
            null_policy,
            r is Ok,
        ),
{
    match null_policy {
        Err(text) => Err(LstsqError::Policy(text)),
        Ok(policy) => series_to_mat_for_lstsq(
            slice_subrange(inputs, from, inputs.len()),
            add_bias,
            policy,
        ),
    }
}

/// Data without nulls are prepared in the same way under every policy, and their mask says
/// that there are none.
pub proof fn policies_agree_without_nulls(
    inputs: Seq<ColumnView>,
    orders: Seq<int>,
    add_bias: bool,
    p: NullPolicy,
    q: NullPolicy,
    outcome: Result<Seq<ColumnView>, Failure>,
)
    requires
        inputs.len() > 0,
        !any_null(inputs),
        prepares(inputs, orders, add_bias, p, outcome),
    ensures
        prepares(inputs, orders, add_bias, q, outcome),
        mask_of(inputs, p) == seq![true],
{
    if fit(inputs) && height(inputs) > 0 && scalable(inputs, orders) {
        let scaled = choose|scaled: Seq<ColumnView>|
            #![trigger scales_to(inputs, orders, scaled)]
            scales_to(inputs, orders, scaled) && level(scaled, height(inputs)) && outcome
                == prepared(inputs, scaled, add_bias, p);
        assert(prepared(inputs, scaled, add_bias, p) == prepared(inputs, scaled, add_bias, q));
    }
}

/// Inputs whose features have settled least and greatest values are prepared in one way only.
pub proof fn settled_inputs_are_prepared_in_one_way(
    inputs: Seq<ColumnView>,
    orders: Seq<int>,
    add_bias: bool,
    policy: NullPolicy,
    a: Result<Seq<ColumnView>, Failure>,
    b: Result<Seq<ColumnView>, Failure>,
)
    requires
        inputs.len() > 0,
        forall|c: int|
            1 <= c < inputs.len() ==> settled(
                (#[trigger] inputs[c]).1,
                orders[c],
                inputs[c].2,
            ),
        prepares(inputs, orders, add_bias, policy, a),
        prepares(inputs, orders, add_bias, policy, b),
    ensures
        a == b,
{
    if fit(inputs) && height(inputs) > 0 && scalable(inputs, orders) {
        let x = choose|x: Seq<ColumnView>|
            #![trigger scales_to(inputs, orders, x)]
            scales_to(inputs, orders, x) && level(x, height(inputs)) && a == prepared(
                inputs,
                x,
                add_bias,
                policy,
            );
        let y = choose|y: Seq<ColumnView>|
            #![trigger scales_to(inputs, orders, y)]
            scales_to(inputs, orders, y) && level(y, height(inputs)) && b == prepared(
                inputs,
                y,
                add_bias,
                policy,
            );
        assert(seq![inputs[0].0][0] == inputs[0].0);
        assert forall|c: int| 0 <= c < inputs.len() implies x[c] == y[c] by {
            assert(inputs[c].0 == inputs[c].0);
        }
        assert(x =~= y);
    }
}

/// The mask of inputs that the policy lets pass has a false place exactly where there is a null,
/// unless the policy fills the features and the target has none. It has a single row, or one for
/// each row of the target.
pub proof fn mask_tells_nulls(inputs: Seq<ColumnView>, policy: NullPolicy)
    requires
        inputs.len() > 0,
        fit(inputs),
        any_null(inputs) ==> !(policy is RAISE),
    ensures
        mask_of(inputs, policy).contains(false) <==> any_null(inputs) && !((policy is FILL
            || policy is FILL_WINDOW) && !has_null(inputs[0].2)),
        mask_of(inputs, policy).len() == 1 || mask_of(inputs, policy).len() == inputs[0].2.len(),
{
    let mask = mask_of(inputs, policy);
    if !any_null(inputs) {
        assert(!seq![true].contains(false));
    } else if policy is SKIP {
        let c = choose|c: int| 0 <= c < inputs.len() && has_null(#[trigger] inputs[c].2);
        let r = choose|r: int| 0 <= r < inputs[c].2.len() && #[trigger] inputs[c].2[r] is None;
        assert(!complete(inputs, r));
        assert(mask[r] == false);
    } else if policy is FILL && has_null(inputs[0].2) {
        let r = choose|r: int| 0 <= r < inputs[0].2.len() && #[trigger] inputs[0].2[r] is None;
        assert(mask[r] == false);
    } else {
        assert(mask[0] == ((policy is FILL || policy is FILL_WINDOW) && !has_null(inputs[0].2)));
    }
}

/// Under a policy for windows no row is dropped.
pub proof fn windows_keep_all_rows(inputs: Seq<ColumnView>, policy: NullPolicy)
    ensures
        rows_left(inputs, windowed(policy)) == height(inputs),
{
}

/// A policy that drops rows drops none of a table without nulls, and never leaves more rows
/// than there were.
pub proof fn rows_left_bounded(inputs: Seq<ColumnView>, policy: NullPolicy)
    requires
        inputs.len() > 0,
        fit(inputs),
    ensures
        rows_left(inputs, policy) <= height(inputs),
        !any_null(inputs) ==> rows_left(inputs, policy) == height(inputs),
{
    kept_counts(complete_rows(inputs), complete_rows(inputs));
    kept_counts(present(inputs[0].2), present(inputs[0].2));
    if !any_null(inputs) {
        no_nulls_no_loss(inputs, policy);
    }
}

} // verus!
