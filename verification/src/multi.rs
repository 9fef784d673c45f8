//! Regressions with several targets: their table, and the columns they give.
use vstd::prelude::*;
use vstd::string::StringExecFns;

use polars::prelude::{DataFrame, Series};

use crate::error::{Failure, LstsqError};
use crate::expressions::{
    cast_form, filled_columns, frame_fill, frame_numbers, number_filled,
};
use crate::ieee::ONE;
use crate::laws::{fillable, fitting_columns, null_somewhere, nulls_are_cells};
use crate::policy::NullPolicy;
use crate::prepare::{biased, matrix_of, some_has_nulls};
use crate::tables::{
    all_float, frame_columns, frame_is_empty, frame_new, frame_with_literal, series_columns,
    series_label, series_name, texts,
};
use crate::views::{
    any_null, fit, float_code, float_entries, has_null, height, matrix_codes, names_of,
    ColumnView,
};

verus! {

/// Whether one of the first `targets` columns holds a null.
pub open spec fn target_null(inputs: Seq<ColumnView>, targets: int) -> bool {
    exists|c: int| 0 <= c < targets && has_null(#[trigger] inputs[c].2)
}

/// The columns of a regression with several targets before the constant one, or why there
/// are none.
pub open spec fn joined(
    inputs: Seq<ColumnView>,
    targets: int,
    policy: NullPolicy,
) -> Result<Seq<ColumnView>, Failure> {
    if !any_null(inputs) {
        if fit(inputs) {
            Ok(inputs)
        } else {
            Err(Failure::Polars)
        }
    } else {
        match policy {
            NullPolicy::RAISE => Err(Failure::NullsFound),
            NullPolicy::FILL(x) => if !fit(inputs) {
                Err(Failure::Polars)
            } else if target_null(inputs, targets) {
                Err(Failure::TargetNulls)
            } else {
                match filled_columns(inputs, names_of(inputs).take(targets), x) {
                    None => Err(Failure::Polars),
                    Some(full) => Ok(full),
                }
            },
            _ => Err(Failure::PolicyUnsupported),
        }
    }
}

/// The table of a regression with several targets, or why there is none.
pub open spec fn multi_prepared(
    inputs: Seq<ColumnView>,
    targets: int,
    add_bias: bool,
    policy: NullPolicy,
) -> Result<Seq<ColumnView>, Failure> {
    match joined(inputs, targets, policy) {
        Err(failure) => Err(failure),
        Ok(table) => if height(biased(table, add_bias)) == 0 {
            Err(Failure::EmptyData)
        } else {
            Ok(biased(table, add_bias))
        },
    }
}

/// What holds of inputs that fit and whose features are `Float64`, where a feature is null and
/// no target: filling gives a table, in which the number of the given bits stands in place of
/// each null.
pub open spec fn numbers_joined(
    inputs: Seq<ColumnView>,
    targets: int,
    add_bias: bool,
    policy: NullPolicy,
) -> bool {
    fit(inputs) && all_float(inputs, targets) && any_null(inputs) && !target_null(inputs, targets)
        ==> (policy matches NullPolicy::FILL(x) ==> multi_prepared(
        inputs,
        targets,
        add_bias,
        policy,
    ) == Ok::<Seq<ColumnView>, Failure>(
        biased(number_filled(inputs, names_of(inputs).take(targets), x), add_bias),
    ))
}

/// The names of the first `targets` series.
pub fn target_names(inputs: &[Series], targets: usize) -> (names: Vec<String>)
    requires
        targets <= inputs@.len(),
    ensures
        texts(names@) == Seq::new(targets as nat, |i: int| series_name(inputs@[i])),
{
    let mut names: Vec<String> = Vec::new();
    let mut i: usize = 0;
    while i < targets
        invariant
            i <= targets <= inputs@.len(),
            names@.len() == i,
            forall|j: int| 0 <= j < i ==> (#[trigger] names@[j])@ == series_name(inputs@[j]),
        decreases targets - i,
    {
        names.push(series_label(&inputs[i]));
        i = i + 1;
    }
    assert(texts(names@) =~= Seq::new(targets as nat, |i: int| series_name(inputs@[i])));
    names
}

/// The columns of a regression with several targets before the constant one.
fn join_columns(inputs: &[Series], targets: usize, policy: NullPolicy) -> (r: Result<
    DataFrame,
    LstsqError,
>)
    requires
        targets <= inputs@.len(),
    ensures
        match joined(series_columns(inputs@), targets as int, policy) {
            Ok(columns) => r matches Ok(df) && frame_columns(df) == columns && fit(columns),
            Err(failure) => r matches Err(e) && e@ == failure,
        },
        fit(series_columns(inputs@)) && all_float(series_columns(inputs@), targets as int)
            && any_null(series_columns(inputs@)) && !target_null(
            series_columns(inputs@),
            targets as int,
        ) ==> (policy matches NullPolicy::FILL(x) ==> joined(
            series_columns(inputs@),
            targets as int,
            policy,
        ) == Ok::<Seq<ColumnView>, Failure>(
            number_filled(
                series_columns(inputs@),
                names_of(series_columns(inputs@)).take(targets as int),
                x,
            ),
        )),
{
    let ghost columns = series_columns(inputs@);
    let y_has_null = some_has_nulls(inputs, 0, targets);
    let nulls = some_has_nulls(inputs, targets, inputs.len()) || y_has_null;
    assert(nulls == any_null(columns));
    if !nulls {
        return match frame_new(inputs) {
            Err(e) => Err(LstsqError::Polars(e)),
            Ok(df) => {
                assert(frame_columns(df) =~= columns);
                Ok(df)
            },
        };
    }
    match policy {
        NullPolicy::RAISE => Err(LstsqError::NullsFound),
        NullPolicy::FILL(x) => {
            let df = match frame_new(inputs) {
                Err(e) => return Err(LstsqError::Polars(e)),
                Ok(df) => df,
            };
            assert(frame_columns(df) =~= columns);
            if y_has_null {
                return Err(LstsqError::TargetNulls);
            }
            let names = target_names(inputs, targets);
            let ghost spared = names_of(columns).take(targets as int);
            assert(texts(names@) =~= spared);
            assert forall|c: int| 0 <= c < targets implies spared.contains(
                (#[trigger] columns[c]).0,
            ) by {
                assert(spared[c] == columns[c].0);
            }
            match frame_fill(&df, &names, x) {
                Err(e) => Err(LstsqError::Polars(e)),
                Ok(full) => {
                    let ghost after = frame_columns(full);
                    assert(after =~= filled_columns(columns, spared, x)->0);
                    assert(names_of(after) =~= names_of(columns));
                    Ok(full)
                },
            }
        },
        _ => Err(LstsqError::PolicyUnsupported),
    }
}

/// The table of a regression with several targets. The targets are the first inputs, up to
/// `last_target_idx`.
pub fn multi_frame(
    inputs: &[Series],
    last_target_idx: usize,
    add_bias: bool,
    null_policy: NullPolicy,
) -> (r: Result<DataFrame, LstsqError>)
    requires
        last_target_idx <= inputs@.len(),
    ensures
        match multi_prepared(
            series_columns(inputs@),
            last_target_idx as int,
            add_bias,
            null_policy,
        ) {
            Ok(columns) => r matches Ok(df) && frame_columns(df) == columns,
            Err(failure) => r matches Err(e) && e@ == failure,
        },
        numbers_joined(
            series_columns(inputs@),
            last_target_idx as int,
            add_bias,
            null_policy,
        ),
{
    let joined = match join_columns(inputs, last_target_idx, null_policy) {
        Err(e) => return Err(e),
        Ok(df) => df,
    };
    let table = if add_bias {
        match frame_with_literal(&joined, ONE) {
            Err(e) => return Err(LstsqError::Polars(e)),
            Ok(table) => table,
        }
    } else {
        joined
    };
    if frame_is_empty(&table) {
        Err(LstsqError::EmptyData)
    } else {
        Ok(table)
    }
}

/// The matrix of a regression with several targets, column by column, its entries by their
/// bits. The targets are the first inputs, up to `last_target_idx`.
pub fn series_to_mat_for_multi_lstsq(
    inputs: &[Series],
    last_target_idx: usize,
    add_bias: bool,
    null_policy: NullPolicy,
) -> (r: Result<Vec<Vec<u64>>, LstsqError>)
    requires
        last_target_idx <= inputs@.len(),
    ensures
        match matrix_of(
            multi_prepared(
                series_columns(inputs@),
                last_target_idx as int,
                add_bias,
                null_policy,
            ),
        ) {
            Ok(matrix) => r matches Ok(m) && matrix_codes(m@) == matrix,
            Err(failure) => r matches Err(e) && e@ == failure,
        },
        numbers_joined(
            series_columns(inputs@),
            last_target_idx as int,
            add_bias,
            null_policy,
        ),
        multi_prepared(
            series_columns(inputs@),
            last_target_idx as int,
            add_bias,
            null_policy,
        ) matches Ok(columns) ==> all_float(columns, 0) ==> (r matches Ok(m) && matrix_codes(m@)
            == float_entries(columns)),
{
    let df = match multi_frame(inputs, last_target_idx, add_bias, null_policy) {
        Err(e) => return Err(e),
        Ok(df) => df,
    };
    match frame_numbers(&df) {
        Err(e) => Err(LstsqError::Polars(e)),
        Ok(matrix) => {
            proof {
                let columns = frame_columns(df);
                if all_float(columns, 0) {
                    assert(matrix_codes(matrix@) =~= float_entries(columns));
                }
            }
            Ok(matrix)
        },
    }
}

/// The matrix of a regression with several targets and their names. The null policy is what
/// became of its text, which is not understood where it is an error.
pub fn multi_matrix(
    inputs: &[Series],
    last_target_idx: usize,
    add_bias: bool,
    null_policy: Result<NullPolicy, String>,
) -> (r: Result<(Vec<Vec<u64>>, Vec<String>), LstsqError>)
    requires
        null_policy is Ok ==> last_target_idx <= inputs@.len(),
    ensures
        match null_policy {
            Err(text) => r matches Err(e) && e@ == Failure::Policy(text@),
            Ok(policy) => match matrix_of(
                multi_prepared(
                    series_columns(inputs@),
                    last_target_idx as int,
                    add_bias,
                    policy,
                ),
            ) {
                Ok(matrix) => r matches Ok((m, names)) && matrix_codes(m@) == matrix && texts(
                    names@,
                ) == names_of(series_columns(inputs@)).take(last_target_idx as int) && texts(
                    names@,
                ).no_duplicates(),
                Err(failure) => r matches Err(e) && e@ == failure,
            },
        },
        null_policy matches Ok(policy) ==> numbers_joined(
            series_columns(inputs@),
            last_target_idx as int,
            add_bias,
            policy,
        ),
{
    let policy = match null_policy {
        Err(text) => return Err(LstsqError::Policy(text)),
        Ok(policy) => policy,
    };
    let names = target_names(inputs, last_target_idx);
    assert(texts(names@) =~= names_of(series_columns(inputs@)).take(last_target_idx as int));
    match series_to_mat_for_multi_lstsq(inputs, last_target_idx, add_bias, policy) {
        Err(e) => Err(e),
        Ok(matrix) => Ok((matrix, names)),
    }
}

/// The names of the columns of predictions and residues: two for each target, in the order of
/// the targets.
pub open spec fn pred_names(targets: Seq<Seq<char>>) -> Seq<Seq<char>> {
    Seq::new(
        2 * targets.len(),
        |i: int|
            targets[i / 2] + if i % 2 == 0 {
                "_pred"@
            } else {
                "_resid"@
            },
    )
}

/// The names of the columns of predictions and residues.
pub fn pred_column_names(targets: &Vec<String>) -> (names: Vec<String>)
    ensures
        texts(names@) == pred_names(texts(targets@)),
{
    let ghost wanted = pred_names(texts(targets@));
    let mut names: Vec<String> = Vec::new();
    let mut i: usize = 0;
    while i < targets.len()
        invariant
            i <= targets@.len(),
            wanted == pred_names(texts(targets@)),
            names@.len() == 2 * i,
            forall|j: int| 0 <= j < 2 * i ==> (#[trigger] names@[j])@ == wanted[j],
        decreases targets@.len() - i,
    {
        let mut pred = targets[i].clone();
        pred.append("_pred");
        let mut resid = targets[i].clone();
        resid.append("_resid");
        names.push(pred);
        names.push(resid);
        i = i + 1;
    }
    assert(texts(names@) =~= wanted);
    names
}

/// Where no two targets have the same name, no two columns of predictions and residues have.
pub proof fn pred_names_distinct(targets: Seq<Seq<char>>)
    requires
        targets.no_duplicates(),
    ensures
        pred_names(targets).no_duplicates(),
{
    reveal_strlit("_pred");
    reveal_strlit("_resid");
    let names = pred_names(targets);
    assert forall|i: int, j: int|
        0 <= i < names.len() && 0 <= j < names.len() && i != j implies names[i] != names[j] by {
        let a = targets[i / 2];
        let b = targets[j / 2];
        if i % 2 == j % 2 {
            assert(i / 2 != j / 2);
            let tail = if i % 2 == 0 {
                "_pred"@
            } else {
                "_resid"@
            };
            if names[i] == names[j] {
                assert((a + tail).len() == (b + tail).len());
                assert(a =~= (a + tail).take(a.len() as int));
                assert(b =~= (b + tail).take(b.len() as int));
            }
        } else {
            let x = names[i][names[i].len() - 2];
            let y = names[j][names[j].len() - 2];
            assert(x != y);
        }
    }
}

/// Whether a cell of one of the first `targets` columns is null.
pub open spec fn null_target(inputs: Seq<ColumnView>, targets: int) -> bool {
    exists|c: int, r: int|
        0 <= c < targets && 0 <= r < inputs[c].2.len() && (#[trigger] inputs[c].2[r]) is None
}

/// A target holds a null exactly where a cell of it is null.
proof fn target_nulls_are_cells(inputs: Seq<ColumnView>, targets: int)
    requires
        0 <= targets <= inputs.len(),
    ensures
        target_null(inputs, targets) == null_target(inputs, targets),
{
    if target_null(inputs, targets) {
        let c = choose|c: int| 0 <= c < targets && has_null(#[trigger] inputs[c].2);
        let r = choose|r: int| 0 <= r < inputs[c].2.len() && #[trigger] inputs[c].2[r] is None;
        assert(inputs[c].2[r] is None);
    }
    if null_target(inputs, targets) {
        let (c, r) = choose|c: int, r: int|
            0 <= c < targets && 0 <= r < inputs[c].2.len() && (#[trigger] inputs[c].2[r]) is None;
        assert(has_null(inputs[c].2));
    }
}

/// The columns with the names of the targets are the targets.
proof fn targets_by_name(inputs: Seq<ColumnView>, targets: int, c: int)
    requires
        fit(inputs),
        0 <= targets <= inputs.len(),
        0 <= c < inputs.len(),
    ensures
        names_of(inputs).take(targets).contains(inputs[c].0) <==> c < targets,
{
    let names = names_of(inputs);
    let spared = names.take(targets);
    if c < targets {
        assert(spared[c] == inputs[c].0);
    } else if spared.contains(inputs[c].0) {
        let i = choose|i: int| 0 <= i < spared.len() && spared[i] == inputs[c].0;
        assert(names[i] != names[c]);
    }
}

/// The table of a regression with several targets, cell by cell. Each target is the input in its
/// place as it is, and so is each feature where there is no null. Where there is one, each feature
/// is cast to numbers, and the number of the policy stands in place of each null. The constant
/// column, where one is asked for, is one in each row and stands behind all inputs, or in place of
/// the one with its name.
pub proof fn several_targets_by_cells(
    inputs: Seq<ColumnView>,
    targets: int,
    add_bias: bool,
    policy: NullPolicy,
    table: Seq<ColumnView>,
    c: int,
    r: int,
)
    requires
        0 <= targets <= inputs.len(),
        inputs.len() > 0,
        multi_prepared(inputs, targets, add_bias, policy) == Ok::<Seq<ColumnView>, Failure>(table),
        0 <= c < table.len(),
        0 <= r < inputs[0].2.len(),
    ensures
        table.len() == inputs.len() + if add_bias && forall|i: int|
            0 <= i < inputs.len() ==> (#[trigger] inputs[i]).0 != "literal"@ {
            1int
        } else {
            0
        },
        c < inputs.len() && !(add_bias && inputs[c].0 == "literal"@) ==> table[c].0
            == inputs[c].0 && (c < targets || !null_somewhere(inputs) ==> table[c] == inputs[c]),
        targets <= c < inputs.len() && !(add_bias && inputs[c].0 == "literal"@) && null_somewhere(
            inputs,
        ) ==> (policy matches NullPolicy::FILL(x) && (cast_form(inputs[c].1, inputs[c].2) matches
            Some((kind, cells)) && table[c].1 == kind && table[c].2.len() == cells.len() && (r
            < cells.len() ==> table[c].2[r] == if cells[r] is Some {
            cells[r]
        } else {
            Some(float_code(x))
        }))),
        add_bias && (c == inputs.len() || inputs[c].0 == "literal"@) ==> table[c].0 == "literal"@
            && table[c].1 == 0 && (targets > 0 || !null_somewhere(inputs) ==> table[c].2.len()
            == inputs[0].2.len() && table[c].2[r] == Some(0x3ff0_0000_0000_0000int)),
{
    nulls_are_cells(inputs);
    target_nulls_are_cells(inputs, targets);
    let full = joined(inputs, targets, policy)->Ok_0;
    assert forall|i: int| 0 <= i < inputs.len() implies names_of(inputs).take(targets).contains(
        (#[trigger] inputs[i]).0,
    ) == (i < targets) by {
        targets_by_name(inputs, targets, i);
    }
    assert forall|i: int| 0 <= i < inputs.len() implies (#[trigger] full[i]).0 == inputs[i].0 by {
    }
    assert(names_of(full) =~= names_of(inputs));
    assert(float_code(ONE) == 0x3ff0_0000_0000_0000);
    let names = names_of(inputs);
    let name = "literal"@;
    if names.contains(name) {
        let at = names.index_of(name);
        assert(names[at] == name && inputs[at].0 == name);
        assert forall|i: int| 0 <= i < inputs.len() && (#[trigger] inputs[i]).0 == name implies i
            == at by {
            assert(names[i] == name);
        }
    } else {
        assert forall|i: int| 0 <= i < inputs.len() implies (#[trigger] inputs[i]).0 != name by {
            assert(names[i] == inputs[i].0);
            assert(names.contains(names[i]));
        }
    }
    if c < inputs.len() && !(add_bias && inputs[c].0 == name) {
        assert(table[c] == full[c]);
    }
}

/// Whether there is a table of a regression with several targets, and why there is none. Nulls
/// are treated in one way only: features are filled where no target has a null.
pub proof fn several_targets_by_cause(
    inputs: Seq<ColumnView>,
    targets: int,
    add_bias: bool,
    policy: NullPolicy,
)
    requires
        0 <= targets <= inputs.len(),
        inputs.len() > 0,
    ensures
        ({
            let outcome = multi_prepared(inputs, targets, add_bias, policy);
            let unfit = exists|i: int, j: int|
                0 <= i < j < inputs.len() && ((#[trigger] inputs[i]).0 == (#[trigger] inputs[j]).0
                    || inputs[i].2.len() != inputs[j].2.len());
            let unfillable = exists|c: int|
                targets <= c < inputs.len() && !fillable((#[trigger] inputs[c]).1, inputs[c].2);
            let nulls = null_somewhere(inputs);
            &&& !nulls && unfit ==> outcome == Err::<Seq<ColumnView>, Failure>(Failure::Polars)
            &&& !nulls && !unfit && inputs[0].2.len() == 0 ==> outcome == Err::<
                Seq<ColumnView>,
                Failure,
            >(Failure::EmptyData)
            &&& !nulls && !unfit && inputs[0].2.len() > 0 ==> outcome is Ok
            &&& nulls && policy is RAISE ==> outcome == Err::<Seq<ColumnView>, Failure>(
                Failure::NullsFound,
            )
            &&& nulls && !(policy is RAISE) && !(policy is FILL) ==> outcome == Err::<
                Seq<ColumnView>,
                Failure,
            >(Failure::PolicyUnsupported)
            &&& nulls && policy is FILL && unfit ==> outcome == Err::<Seq<ColumnView>, Failure>(
                Failure::Polars,
            )
            &&& nulls && policy is FILL && !unfit && null_target(inputs, targets) ==> outcome
                == Err::<Seq<ColumnView>, Failure>(Failure::TargetNulls)
            &&& nulls && policy is FILL && !unfit && !null_target(inputs, targets) && unfillable
                ==> outcome == Err::<Seq<ColumnView>, Failure>(Failure::Polars)
            &&& nulls && policy is FILL && !unfit && !null_target(inputs, targets) && !unfillable
                && targets > 0 ==> outcome is Ok
        }),
{
    nulls_are_cells(inputs);
    target_nulls_are_cells(inputs, targets);
    fitting_columns(inputs);
    if fit(inputs) {
        assert forall|i: int| 0 <= i < inputs.len() implies names_of(inputs).take(
            targets,
        ).contains((#[trigger] inputs[i]).0) == (i < targets) by {
            targets_by_name(inputs, targets, i);
        }
        if null_somewhere(inputs) {
            let (c, r) = choose|c: int, r: int|
                0 <= c < inputs.len() && 0 <= r < inputs[c].2.len() && (
                #[trigger] inputs[c].2[r]) is None;
            assert(inputs[c].2.len() == height(inputs));
        }
        if joined(inputs, targets, policy) is Ok {
            let full = joined(inputs, targets, policy)->Ok_0;
            assert forall|i: int| 0 <= i < inputs.len() implies (#[trigger] full[i]).0
                == inputs[i].0 by {
            }
            let names = names_of(full);
            if names.contains("literal"@) {
                assert(names[names.index_of("literal"@)] == "literal"@);
            }
        }
    }
}

/// Where the features are `Float64`, some of them null, and no target is null, filling gives a
/// table, in which each feature has its numbers and that of the policy in place of each null.
pub proof fn number_features_are_filled(
    inputs: Seq<ColumnView>,
    targets: int,
    add_bias: bool,
    x: u64,
    c: int,
    r: int,
)
    requires
        0 < targets <= c < inputs.len(),
        forall|i: int, j: int|
            0 <= i < j < inputs.len() ==> (#[trigger] inputs[i]).0 != (#[trigger] inputs[j]).0
                && inputs[i].2.len() == inputs[j].2.len(),
        forall|i: int| targets <= i < inputs.len() ==> (#[trigger] inputs[i]).1 == 0,
        null_somewhere(inputs),
        !null_target(inputs, targets),
        numbers_joined(inputs, targets, add_bias, NullPolicy::FILL(x)),
        !(add_bias && inputs[c].0 == "literal"@),
        0 <= r < inputs[c].2.len(),
    ensures
        multi_prepared(inputs, targets, add_bias, NullPolicy::FILL(x)) matches Ok(table) && c
            < table.len() && table[c].0 == inputs[c].0 && table[c].1 == 0 && table[c].2.len()
            == inputs[c].2.len() && table[c].2[r] == if inputs[c].2[r] is Some {
            inputs[c].2[r]
        } else {
            Some(float_code(x))
        },
{
    nulls_are_cells(inputs);
    target_nulls_are_cells(inputs, targets);
    fitting_columns(inputs);
    targets_by_name(inputs, targets, c);
    let spared = names_of(inputs).take(targets);
    let full = number_filled(inputs, spared, x);
    assert(full[c].0 == inputs[c].0);
    let names = names_of(full);
    let name = "literal"@;
    assert(names[c] == inputs[c].0);
    if add_bias && names.contains(name) {
        assert(names[names.index_of(name)] == name);
    }
    assert(biased(full, add_bias)[c] == full[c]);
}

/// The columns of predictions and residues are named after the targets, in order, the residues of
/// each behind its predictions.
pub proof fn names_come_in_pairs(targets: Seq<Seq<char>>, k: int)
    requires
        0 <= k < targets.len(),
    ensures
        pred_names(targets).len() == 2 * targets.len(),
        pred_names(targets)[2 * k] == targets[k] + "_pred"@,
        pred_names(targets)[2 * k + 1] == targets[k] + "_resid"@,
{
    assert((2 * k) / 2 == k && (2 * k) % 2 == 0);
    assert((2 * k + 1) / 2 == k && (2 * k + 1) % 2 == 1);
}

/// Without inputs there is a table only where a constant column is asked for: that column, with a
/// single row.
pub proof fn no_inputs_no_data(policy: NullPolicy)
    ensures
        multi_prepared(Seq::empty(), 0, false, policy) == Err::<Seq<ColumnView>, Failure>(
            Failure::EmptyData,
        ),
        multi_prepared(Seq::empty(), 0, true, policy) matches Ok(table) && table.len() == 1
            && table[0].0 == "literal"@ && table[0].1 == 0 && table[0].2.len() == 1
            && table[0].2[0] == Some(0x3ff0_0000_0000_0000int),
{
    let none = Seq::<ColumnView>::empty();
    assert(!any_null(none));
    assert(fit(none));
    assert(names_of(none) =~= Seq::empty());
    assert(float_code(ONE) == 0x3ff0_0000_0000_0000);
}

} // verus!
