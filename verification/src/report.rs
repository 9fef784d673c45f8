//! Reports on a regression: what each coefficient belongs to, and the degrees of freedom.
use vstd::prelude::*;

use polars::prelude::Series;

use crate::error::{Failure, LstsqError};
use crate::expressions::scales_to;
use crate::policy::NullPolicy;
use crate::prepare::{
    biased, matrix_of, numbers_read, prepared, prepares, reads, regression_matrix, requested,
    seen, treated,
};
use crate::tables::{series_columns, series_label, series_name, series_orders, texts};
use crate::views::{names_of, ColumnView};

verus! {

/// What the coefficients belong to: the inputs behind the target, and the constant column
/// where there is one.
pub open spec fn feature_names(inputs: Seq<ColumnView>, add_bias: bool) -> Seq<Seq<char>> {
    let features = names_of(inputs).subrange(1, inputs.len() as int);
    if add_bias {
        features.push("__bias__"@)
    } else {
        features
    }
}

/// What the coefficients belong to, where the target is the input in place `target`.
pub fn feature_labels(inputs: &[Series], target: usize, add_bias: bool) -> (names: Vec<String>)
    requires
        target < inputs@.len(),
    ensures
        texts(names@) == feature_names(
            series_columns(inputs@.subrange(target as int, inputs@.len() as int)),
            add_bias,
        ),
        names@.len() == inputs@.len() - target - 1 + if add_bias {
            1int
        } else {
            0
        },
        forall|k: int|
            0 <= k < inputs@.len() - target - 1 ==> (#[trigger] names@[k])@ == series_name(
                inputs@[target + 1 + k],
            ),
        add_bias ==> names@.last()@ == "__bias__"@,
{
    let ghost used = series_columns(inputs@.subrange(target as int, inputs@.len() as int));
    let mut names: Vec<String> = Vec::new();
    let total = inputs.len();
    let mut i: usize = target + 1;
    while i < total
        invariant
            target < i <= total == inputs@.len(),
            used == series_columns(inputs@.subrange(target as int, inputs@.len() as int)),
            names@.len() == i - target - 1,
            forall|k: int|
                0 <= k < names@.len() ==> (#[trigger] names@[k])@ == names_of(used)[k + 1],
            forall|k: int|
                0 <= k < names@.len() ==> (#[trigger] names@[k])@ == series_name(
                    inputs@[target + 1 + k],
                ),
        decreases inputs@.len() - i,
    {
        names.push(series_label(&inputs[i]));
        i = i + 1;
    }
    if add_bias {
        names.push("__bias__".to_owned());
    }
    assert(texts(names@) =~= feature_names(used, add_bias));
    names
}

/// The matrix of a regression to report on, column by column, and what its coefficients belong
/// to. The target is the input in place `target`; the weights, where there are any, stand before
/// it.
pub fn report_matrix(
    inputs: &[Series],
    target: usize,
    add_bias: bool,
    null_policy: Result<NullPolicy, String>,
) -> (r: Result<(Vec<Vec<u64>>, Vec<String>), LstsqError>)
    requires
        null_policy is Ok ==> target < inputs@.len(),
    ensures
        requested(
            series_columns(inputs@.subrange(target as int, inputs@.len() as int)),
            series_orders(inputs@.subrange(target as int, inputs@.len() as int)),
            add_bias,
            null_policy,
            seen(r),
        ),
        r matches Ok((matrix, names)) ==> texts(names@) == feature_names(
            series_columns(inputs@.subrange(target as int, inputs@.len() as int)),
            add_bias,
        ),
        numbers_read(
            series_columns(inputs@.subrange(target as int, inputs@.len() as int)),
            null_policy,
            r is Ok,
        ),
{
    let policy = match null_policy {
        Err(text) => return Err(LstsqError::Policy(text)),
        Ok(policy) => policy,
    };
    let names = feature_labels(inputs, target, add_bias);
    match regression_matrix(inputs, target, add_bias, Ok(policy)) {
        Err(e) => Err(e),
        Ok((matrix, _)) => Ok((matrix, names)),
    }
}

/// The number of coefficients of a matrix whose first column is the target, and the number of
/// its rows less that.
pub fn degrees_of_freedom(nrows: usize, ncols: usize) -> (r: (usize, i128))
    requires
        ncols > 0,
    ensures
        r.0 == ncols - 1,
        r.1 == nrows - (ncols - 1),
{
    let coefficients: usize = ncols - 1;
    (coefficients, nrows as i128 - coefficients as i128)
}

/// Each coefficient has a name: the matrix has a column for each, behind the target, unless the
/// constant column took the place of an input that has its name.
pub proof fn coefficients_have_names(
    inputs: Seq<ColumnView>,
    orders: Seq<int>,
    add_bias: bool,
    policy: NullPolicy,
    matrix: Seq<Seq<int>>,
)
    requires
        inputs.len() > 0,
        add_bias ==> !names_of(inputs).contains("literal"@),
        reads(inputs, orders, add_bias, policy, Ok(matrix)),
    ensures
        matrix.len() == 1 + feature_names(inputs, add_bias).len(),
{
    let outcome = choose|outcome: Result<Seq<ColumnView>, Failure>|
        #![trigger prepares(inputs, orders, add_bias, policy, outcome)]
        prepares(inputs, orders, add_bias, policy, outcome) && Ok::<Seq<Seq<int>>, Failure>(matrix)
            == matrix_of(outcome);
    let scaled = choose|scaled: Seq<ColumnView>|
        #![trigger scales_to(inputs, orders, scaled)]
        scales_to(inputs, orders, scaled) && outcome == prepared(inputs, scaled, add_bias, policy);
    assert forall|c: int| 0 <= c < inputs.len() implies (#[trigger] scaled[c]).0 == inputs[c].0 by {
    }
    assert(names_of(scaled) =~= names_of(inputs));
    let table = biased(scaled, add_bias);
    assert(treated(inputs, table, policy) matches Ok(out) ==> out.len() == table.len());
}

/// The names stand in the order of the columns of the table: the name of the coefficient in
/// place `k` is that of the column in place `k + 1`, which is that of the input there; and that of
/// the constant column, behind all of them, is `__bias__`.
pub proof fn names_stand_in_the_order_of_the_columns(
    inputs: Seq<ColumnView>,
    orders: Seq<int>,
    add_bias: bool,
    policy: NullPolicy,
    table: Seq<ColumnView>,
    k: int,
)
    requires
        inputs.len() > 0,
        prepares(inputs, orders, add_bias, policy, Ok(table)),
        0 <= k < table.len() - 1,
    ensures
        k < feature_names(inputs, add_bias).len(),
        k < inputs.len() - 1 ==> feature_names(inputs, add_bias)[k] == inputs[k + 1].0 && table[k
            + 1].0 == inputs[k + 1].0,
        k == inputs.len() - 1 ==> add_bias && feature_names(inputs, add_bias)[k] == "__bias__"@
            && table[k + 1].0 == "literal"@,
        k <= inputs.len() - 1,
{
    let scaled = choose|scaled: Seq<ColumnView>|
        #![trigger scales_to(inputs, orders, scaled)]
        scales_to(inputs, orders, scaled) && Ok::<Seq<ColumnView>, Failure>(table) == prepared(
            inputs,
            scaled,
            add_bias,
            policy,
        );
    assert forall|c: int| 0 <= c < inputs.len() implies (#[trigger] scaled[c]).0 == inputs[c].0 by {
    }
    assert(names_of(scaled) =~= names_of(inputs));
    let before = biased(scaled, add_bias);
    assert(forall|c: int| 0 <= c < inputs.len() ==> (#[trigger] before[c]).0 == inputs[c].0) by {
        let names = names_of(scaled);
        if names.contains("literal"@) {
            assert(names[names.index_of("literal"@)] == "literal"@);
        }
    }
    assert(table.len() == before.len());
    assert(table[k + 1].0 == before[k + 1].0);
}

/// There is a name for each input behind the target, which is its own, and behind them one for
/// the constant column where there is one.
pub proof fn each_feature_has_its_name(inputs: Seq<ColumnView>, add_bias: bool)
    requires
        inputs.len() > 0,
    ensures
        feature_names(inputs, add_bias).len() == inputs.len() - 1 + if add_bias {
            1int
        } else {
            0
        },
        forall|k: int|
            0 <= k < inputs.len() - 1 ==> (#[trigger] feature_names(inputs, add_bias)[k])
                == inputs[k + 1].0,
        add_bias ==> feature_names(inputs, add_bias)[inputs.len() - 1] == "__bias__"@,
{
}

} // verus!
