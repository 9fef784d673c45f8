//! What the results have to do with the inputs, cell by cell and row by row.
use vstd::prelude::*;
use vstd::utf8::encode_utf8;

use polars::prelude::{DataFrame, Series};

use crate::error::{Failure, LstsqError};
use crate::expressions::{
    as_filled, cast_form, computed, filled_columns, filled_form, min_max, number_filled,
    read_columns, scalable, scales_to, Formula,
};
use crate::folds::without_weights;
use crate::ieee::{NAN, ONE};
use crate::policy::NullPolicy;
use crate::prepare::{
    biased, enough_rows, features_scale, fills_features, frame_seen, mask_of, matrix_of,
    numbers_prepared, numbers_read, prepared, prepares, reads, removes_nulls, requested,
    rows_left, seen, settled_features, treated,
};
use crate::tables::{
    all_float, frame_columns, series_cells, series_columns, series_kind, series_name,
    series_order, series_orders,
};
use crate::views::{
    any_null, complete_rows, count, countable, entries, fit, float_code, float_codes,
    float_entries, has_null, height, kept, kept_counts, kept_holds, level, matrix_codes,
    names_of, present, settled, settled_float, storable, ColumnView,
};

verus! {

/// `(x - least x) / (greatest x - least x)`.
pub open spec fn scaling() -> Formula {
    let x = Box::new(Formula::Itself);
    let least = Box::new(Formula::Least(x));
    let greatest = Box::new(Formula::Greatest(x));
    Formula::Over(
        Box::new(Formula::Minus(x, least)),
        Box::new(Formula::Minus(greatest, least)),
    )
}

/// Whether a cell of the columns is null.
pub open spec fn null_somewhere(columns: Seq<ColumnView>) -> bool {
    exists|c: int, r: int|
        0 <= c < columns.len() && 0 <= r < columns[c].2.len() && (#[trigger] columns[c].2[r])
            is None
}

/// Whether a policy lets a row of the inputs stay.
pub open spec fn stays(inputs: Seq<ColumnView>, policy: NullPolicy, r: int) -> bool {
    match policy {
        NullPolicy::SKIP => forall|c: int|
            0 <= c < inputs.len() ==> (#[trigger] inputs[c].2[r]) is Some,
        NullPolicy::FILL(_) => inputs[0].2[r] is Some,
        _ => true,
    }
}

/// Whether the true places of a mask are the rows of the inputs that a policy lets stay.
pub open spec fn marks_stays(inputs: Seq<ColumnView>, policy: NullPolicy, keep: Seq<bool>) -> bool {
    keep.len() == inputs[0].2.len() && forall|r: int|
        0 <= r < keep.len() ==> (#[trigger] keep[r]) == stays(inputs, policy, r)
}

/// Whether a policy replaces the nulls of features, and by which number.
pub open spec fn filler(policy: NullPolicy) -> Option<u64> {
    match policy {
        NullPolicy::FILL(x) => Some(x),
        NullPolicy::FILL_WINDOW(x) => Some(x),
        _ => None,
    }
}

/// What is scaled of a column, where its least and greatest value are settled.
pub open spec fn scaled_form(column: ColumnView, order: int) -> Option<(int, Seq<Option<int>>)> {
    computed(
        scaling(),
        column.1,
        if column.1 == 0 || column.1 == 3 {
            0
        } else {
            order
        },
        column.2,
    )
}

/// Whether a name is that of the constant column.
pub open spec fn constant_name(name: Seq<char>) -> bool {
    name == "literal"@
}

/// A null is a cell that is null.
pub proof fn nulls_are_cells(columns: Seq<ColumnView>)
    ensures
        any_null(columns) == null_somewhere(columns),
{
    if any_null(columns) {
        let c = choose|c: int| 0 <= c < columns.len() && has_null(#[trigger] columns[c].2);
        let r = choose|r: int| 0 <= r < columns[c].2.len() && #[trigger] columns[c].2[r] is None;
        assert(columns[c].2[r] is None);
    }
    if null_somewhere(columns) {
        let (c, r) = choose|c: int, r: int|
            0 <= c < columns.len() && 0 <= r < columns[c].2.len() && (#[trigger] columns[c].2[r])
                is None;
        assert(has_null(columns[c].2));
    }
}

/// Columns fit exactly where no two have the same name and all have the same number of rows.
pub proof fn fitting_columns(columns: Seq<ColumnView>)
    ensures
        fit(columns) <==> forall|i: int, j: int|
            0 <= i < j < columns.len() ==> (#[trigger] columns[i]).0 != (#[trigger] columns[j]).0
                && columns[i].2.len() == columns[j].2.len(),
{
    if fit(columns) {
        assert forall|i: int, j: int| 0 <= i < j < columns.len() implies (
        #[trigger] columns[i]).0 != (#[trigger] columns[j]).0 && columns[i].2.len()
            == columns[j].2.len() by {
            assert(names_of(columns)[i] != names_of(columns)[j]);
        }
    }
    if forall|i: int, j: int|
        0 <= i < j < columns.len() ==> (#[trigger] columns[i]).0 != (#[trigger] columns[j]).0
            && columns[i].2.len() == columns[j].2.len() {
        let names = names_of(columns);
        assert forall|i: int, j: int|
            0 <= i < names.len() && 0 <= j < names.len() && i != j implies names[i]
            != names[j] by {
            if i < j {
                assert(columns[i].0 != columns[j].0);
            } else {
                assert(columns[j].0 != columns[i].0);
            }
        }
        assert forall|c: int| 0 <= c < columns.len() implies (#[trigger] columns[c]).2.len()
            == height(columns) by {
            if c > 0 {
                assert(columns[0].2.len() == columns[c].2.len());
            }
        }
    }
}

/// The least and the greatest value of a column are settled exactly where the column is neither
/// `Float64` nor `Float32`, or holds a number and is not held to be sorted or is sorted so.
pub proof fn settling(kind: int, cells: Seq<Option<int>>, order: int)
    ensures
        kind != 0 && kind != 3 ==> settled(kind, order, cells),
        kind == 0 || kind == 3 ==> (settled(kind, 0, cells) <==> exists|r: int|
            0 <= r < cells.len() && (#[trigger] cells[r]) is Some && cells[r] != Some(
                0x7ff8_0000_0000_0000int,
            )),
        (kind == 0 || kind == 3) && settled(kind, order, cells) ==> settled(kind, 0, cells),
        settled(kind, 0, cells) && (forall|i: int, j: int|
            #![trigger cells[i], cells[j]]
            0 <= i < j < cells.len() ==> cells[i] is Some && cells[j] is Some && cells[i]->0
                <= cells[j]->0 && cells[j]->0 < 0x8000_0000_0000_0000) && (forall|i: int|
            0 <= i < cells.len() ==> (#[trigger] cells[i]) is Some && 0 <= cells[i]->0
                <= 0x7ff8_0000_0000_0000) ==> settled(kind, 1, cells),
        settled_float(kind, order, cells) <==> kind == 0 && settled(kind, order, cells),
{
    assert(float_code(NAN) == 0x7ff8_0000_0000_0000);
}

/// A mask that is true up to a place counts as many.
pub proof fn counts_true(mask: Seq<bool>, k: int)
    requires
        0 <= k <= mask.len(),
        forall|r: int| 0 <= r < k ==> #[trigger] mask[r],
    ensures
        count(mask.take(k)) == k,
    decreases k,
{
    if k > 0 {
        counts_true(mask, k - 1);
        assert(mask.take(k).drop_last() =~= mask.take(k - 1));
        assert(mask.take(k).last() == mask[k - 1]);
    }
}

/// The number of the row that a row of the inputs becomes.
proof fn row_moves(mask: Seq<bool>, cells: Seq<Option<int>>, r: int)
    requires
        cells.len() == mask.len(),
        0 <= r < mask.len(),
        mask[r],
    ensures
        kept(cells, mask).len() == count(mask),
        count(mask.take(r)) < count(mask),
        kept(cells, mask)[count(mask.take(r)) as int] == cells[r],
{
    kept_counts(cells, mask);
    kept_holds(cells, mask, r);
}

/// The column in place `c` of a table that is prepared, in terms of the one in the same place of
/// the table before nulls were treated.
proof fn treated_cell(
    inputs: Seq<ColumnView>,
    before: Seq<ColumnView>,
    policy: NullPolicy,
    table: Seq<ColumnView>,
    keep: Seq<bool>,
    c: int,
    r: int,
)
    requires
        inputs.len() > 0,
        fit(inputs),
        treated(inputs, before, policy) == Ok::<Seq<ColumnView>, Failure>(table),
        marks_stays(inputs, policy, keep),
        level(before, height(inputs)),
        0 <= c < before.len(),
        before[0].0 == inputs[0].0,
        c > 0 ==> before[c].0 != inputs[0].0,
        0 <= r < keep.len(),
        keep[r],
    ensures
        table.len() == before.len(),
        table[c].0 == before[c].0,
        table[c].2.len() == count(keep) || filler(policy) is Some && c > 0,
        c > 0 && filler(policy) is Some && any_null(inputs) ==> cast_form(before[c].1, before[c].2)
            is Some,
        c == 0 || filler(policy) is None || !any_null(inputs) ==> table[c].1 == before[c].1
            && count(keep.take(r)) < table[c].2.len() == count(keep)
            && table[c].2[count(keep.take(r)) as int] == before[c].2[r],
        c > 0 && filler(policy) is Some && any_null(inputs) ==> ({
            let number = cast_form(before[c].1, before[c].2)->0;
            number.1.len() == height(inputs) ==> table[c].1 == number.0 && count(keep.take(r))
                < table[c].2.len() == count(keep) && table[c].2[count(keep.take(r)) as int] == if number.1[r] is Some {
                number.1[r]
            } else {
                Some(float_code(filler(policy)->0))
            }
        }),
{
    nulls_are_cells(inputs);
    let target = inputs[0];
    assert(seq![target.0][0] == target.0);
    assert(c == 0 <==> seq![target.0].contains(before[c].0));
    counts_and_masks(inputs, policy, keep, r);
    if any_null(inputs) {
        if policy is SKIP {
            assert(keep =~= complete_rows(inputs));
            row_moves(keep, before[c].2, r);
        } else if filler(policy) is Some {
            let x = filler(policy)->0;
            let full = filled_columns(before, seq![target.0], x)->0;
            if policy is FILL && has_null(target.2) {
                assert(keep =~= present(target.2));
                if full[c].2.len() == keep.len() {
                    row_moves(keep, full[c].2, r);
                }
                if c == 0 {
                    row_moves(keep, before[0].2, r);
                }
            }
        }
    }
}

/// Where no row goes, each stays in its place.
proof fn counts_and_masks(inputs: Seq<ColumnView>, policy: NullPolicy, keep: Seq<bool>, r: int)
    requires
        inputs.len() > 0,
        fit(inputs),
        marks_stays(inputs, policy, keep),
        0 <= r < keep.len(),
    ensures
        !any_null(inputs) || !(policy is SKIP) && !(policy is FILL && has_null(inputs[0].2))
            ==> count(keep.take(r)) == r && count(keep) == keep.len(),
{
    nulls_are_cells(inputs);
    if !any_null(inputs) || !(policy is SKIP) && !(policy is FILL && has_null(inputs[0].2)) {
        assert forall|k: int| 0 <= k < keep.len() implies #[trigger] keep[k] by {
            if !any_null(inputs) {
                assert forall|c: int| 0 <= c < inputs.len() implies (#[trigger] inputs[c].2[k])
                    is Some by {
                    assert(inputs[c].2.len() == height(inputs));
                }
                assert(inputs[0].2[k] is Some);
            } else if policy is FILL {
                assert(inputs[0].2[k] is Some);
            }
        }
        counts_true(keep, r);
        counts_true(keep, keep.len() as int);
        assert(keep.take(keep.len() as int) =~= keep);
    }
}

/// A table with the constant column, where one is asked for: the columns of the table but for one
/// with the name of the constant column, and the constant column.
proof fn biased_cells(scaled: Seq<ColumnView>, add_bias: bool)
    requires
        scaled.len() > 0,
        fit(scaled),
    ensures
        level(biased(scaled, add_bias), height(scaled)),
        biased(scaled, add_bias).len() == scaled.len() + if add_bias && !names_of(scaled).contains(
            "literal"@,
        ) {
            1int
        } else {
            0
        },
        forall|c: int|
            #![trigger biased(scaled, add_bias)[c]]
            0 <= c < scaled.len() ==> biased(scaled, add_bias)[c].0 == scaled[c].0,
        forall|c: int|
            #![trigger biased(scaled, add_bias)[c]]
            0 <= c < scaled.len() && !(add_bias && constant_name(scaled[c].0)) ==> biased(
                scaled,
                add_bias,
            )[c] == scaled[c],
        forall|c: int|
            #![trigger biased(scaled, add_bias)[c]]
            0 <= c < biased(scaled, add_bias).len() && add_bias && (c == scaled.len()
                || constant_name(scaled[c].0)) ==> biased(scaled, add_bias)[c].0 == "literal"@
                && biased(scaled, add_bias)[c].1 == 0 && forall|r: int|
                0 <= r < height(scaled) ==> (#[trigger] biased(scaled, add_bias)[c].2[r]) == Some(
                    0x3ff0_0000_0000_0000int,
                ),
{
    let before = biased(scaled, add_bias);
    assert(float_code(ONE) == 0x3ff0_0000_0000_0000);
    if add_bias {
        let names = names_of(scaled);
        let name = "literal"@;
        if names.contains(name) {
            let at = names.index_of(name);
            assert(names[at] == name);
            assert forall|c: int| 0 <= c < scaled.len() && constant_name(scaled[c].0) implies c
                == at by {
                assert(names[c] == name);
            }
            assert forall|c: int| 0 <= c < before.len() implies (#[trigger] before[c]).2.len()
                == height(scaled) by {
                if c != at {
                    assert(before[c] == scaled[c]);
                }
            }
        } else {
            assert forall|c: int| 0 <= c < scaled.len() implies !constant_name(scaled[c].0) by {
                assert(names[c] == scaled[c].0);
                assert(names.contains(names[c]));
            }
            assert forall|c: int| 0 <= c < before.len() implies (#[trigger] before[c]).2.len()
                == height(scaled) by {
                if c < scaled.len() {
                    assert(before[c] == scaled[c]);
                }
            }
        }
    }
}

/// The table before nulls are treated, in terms of the inputs.
proof fn biased_columns(
    inputs: Seq<ColumnView>,
    orders: Seq<int>,
    scaled: Seq<ColumnView>,
    add_bias: bool,
)
    requires
        inputs.len() > 0,
        fit(inputs),
        scales_to(inputs, orders, scaled),
        level(scaled, height(inputs)),
    ensures
        scaled.len() == inputs.len(),
        scaled[0] == inputs[0],
        level(biased(scaled, add_bias), height(inputs)),
        biased(scaled, add_bias).len() == inputs.len() + if add_bias && !names_of(inputs).contains(
            "literal"@,
        ) {
            1int
        } else {
            0
        },
        forall|c: int|
            #![trigger biased(scaled, add_bias)[c]]
            0 <= c < inputs.len() ==> biased(scaled, add_bias)[c].0 == inputs[c].0,
        forall|c: int|
            #![trigger biased(scaled, add_bias)[c]]
            0 <= c < inputs.len() && !(add_bias && constant_name(inputs[c].0)) ==> biased(
                scaled,
                add_bias,
            )[c] == scaled[c],
        forall|c: int|
            #![trigger biased(scaled, add_bias)[c]]
            0 <= c < biased(scaled, add_bias).len() && add_bias && (c == inputs.len()
                || constant_name(inputs[c].0)) ==> biased(scaled, add_bias)[c].0 == "literal"@
                && biased(scaled, add_bias)[c].1 == 0 && forall|r: int|
                0 <= r < height(inputs) ==> (#[trigger] biased(scaled, add_bias)[c].2[r]) == Some(
                    0x3ff0_0000_0000_0000int,
                ),
{
    assert(seq![inputs[0].0][0] == inputs[0].0);
    assert(scaled[0] == inputs[0]);
    assert forall|c: int| 0 <= c < inputs.len() implies (#[trigger] scaled[c]).0 == inputs[c].0 by {
    }
    assert(names_of(scaled) =~= names_of(inputs));
    biased_cells(scaled, add_bias);
    assert forall|c: int|
        #![trigger biased(scaled, add_bias)[c]]
        0 <= c < inputs.len() implies scaled[c].0 == inputs[c].0 by {
    }
}

/// The scaled table behind a table that was prepared.
proof fn scaled_behind(
    inputs: Seq<ColumnView>,
    orders: Seq<int>,
    add_bias: bool,
    policy: NullPolicy,
    table: Seq<ColumnView>,
) -> (scaled: Seq<ColumnView>)
    requires
        inputs.len() > 0,
        prepares(inputs, orders, add_bias, policy, Ok(table)),
    ensures
        fit(inputs),
        height(inputs) > 0,
        scales_to(inputs, orders, scaled),
        level(scaled, height(inputs)),
        prepared(inputs, scaled, add_bias, policy) == Ok::<Seq<ColumnView>, Failure>(table),
        treated(inputs, biased(scaled, add_bias), policy) == Ok::<Seq<ColumnView>, Failure>(table),
{
    choose|scaled: Seq<ColumnView>|
        #![trigger scales_to(inputs, orders, scaled)]
        scales_to(inputs, orders, scaled) && level(scaled, height(inputs)) && Ok::<
            Seq<ColumnView>,
            Failure,
        >(table) == prepared(inputs, scaled, add_bias, policy)
}

/// The cells of a constant column: one in each row.
pub open spec fn ones(rows: nat) -> Seq<Option<int>> {
    Seq::new(rows, |r: int| Some(0x3ff0_0000_0000_0000int))
}

/// Whatever the scaled features are, the table of a regression holds them as they are, on the
/// rows that stay, with the target before them; where the policy fills and there is a null, each
/// null of a feature, as a number, has given way to the number of the policy. The constant column
/// stands behind them where one is asked for, or in place of the column with its name.
pub proof fn scaled_features_are_kept(
    inputs: Seq<ColumnView>,
    scaled: Seq<ColumnView>,
    add_bias: bool,
    policy: NullPolicy,
    table: Seq<ColumnView>,
    keep: Seq<bool>,
    c: int,
    r: int,
)
    requires
        inputs.len() > 0,
        fit(inputs),
        scaled.len() == inputs.len(),
        fit(scaled),
        scaled[0] == inputs[0],
        prepared(inputs, scaled, add_bias, policy) == Ok::<Seq<ColumnView>, Failure>(table),
        marks_stays(inputs, policy, keep),
        0 <= c < table.len(),
        0 <= r < keep.len(),
        keep[r],
    ensures
        table.len() == inputs.len() + if add_bias && forall|i: int|
            0 <= i < scaled.len() ==> (#[trigger] scaled[i]).0 != "literal"@ {
            1int
        } else {
            0
        },
        count(keep) >= inputs.len() - 1,
        c < scaled.len() ==> table[c].0 == scaled[c].0,
        c < scaled.len() && !(add_bias && scaled[c].0 == "literal"@) && (c == 0 || filler(policy)
            is None || !null_somewhere(inputs)) ==> table[c].1 == scaled[c].1 && count(
            keep.take(r),
        ) < table[c].2.len() == count(keep) && table[c].2[count(keep.take(r)) as int]
            == scaled[c].2[r],
        0 < c < scaled.len() && !(add_bias && scaled[c].0 == "literal"@) && filler(policy) is Some
            && null_somewhere(inputs) ==> (cast_form(scaled[c].1, scaled[c].2) matches Some(
            (kind, cells),
        ) && (cells.len() == keep.len() ==> table[c].1 == kind && count(keep.take(r))
            < table[c].2.len() == count(keep) && table[c].2[count(keep.take(r)) as int]
            == if cells[r] is Some {
            cells[r]
        } else {
            Some(float_code(filler(policy)->0))
        })),
        add_bias && (c == scaled.len() || scaled[c].0 == "literal"@) ==> table[c].0 == "literal"@,
        add_bias && (c == scaled.len() || scaled[c].0 == "literal"@) && (c == 0 || filler(policy)
            is None || !null_somewhere(inputs)) ==> table[c].1 == 0 && count(keep.take(r))
            < table[c].2.len() == count(keep) && table[c].2[count(keep.take(r)) as int] == Some(
            0x3ff0_0000_0000_0000int,
        ),
        c > 0 && add_bias && (c == scaled.len() || scaled[c].0 == "literal"@) && filler(policy)
            is Some && null_somewhere(inputs) ==> (cast_form(0, ones(keep.len())) matches Some(
            (kind, cells),
        ) && (cells.len() == keep.len() ==> table[c].1 == kind && count(keep.take(r))
            < table[c].2.len() == count(keep) && table[c].2[count(keep.take(r)) as int]
            == if cells[r] is Some {
            cells[r]
        } else {
            Some(float_code(filler(policy)->0))
        })),
{
    nulls_are_cells(inputs);
    biased_cells(scaled, add_bias);
    let before = biased(scaled, add_bias);
    let names = names_of(scaled);
    assert(names.contains("literal"@) <==> exists|i: int|
        0 <= i < scaled.len() && (#[trigger] scaled[i]).0 == "literal"@) by {
        if names.contains("literal"@) {
            let i = names.index_of("literal"@);
            assert(names[i] == "literal"@);
            assert(scaled[i].0 == "literal"@);
        }
        if exists|i: int| 0 <= i < scaled.len() && (#[trigger] scaled[i]).0 == "literal"@ {
            let i = choose|i: int|
                0 <= i < scaled.len() && (#[trigger] scaled[i]).0 == "literal"@;
            assert(names[i] == "literal"@);
        }
    }
    assert(before[0].0 == scaled[0].0);
    treated_height(inputs, before, policy, table, keep);
    assert(names[0] == scaled[0].0);
    if c > 0 {
        if c < scaled.len() {
            assert(names[c] != names[0]);
            assert(before[c].0 == scaled[c].0);
        } else {
            assert(names.contains(names[0]));
        }
    }
    assert(add_bias && (c == scaled.len() || scaled[c].0 == "literal"@) ==> before[c].2[r]
        == Some(0x3ff0_0000_0000_0000int));
    if add_bias && (c == scaled.len() || scaled[c].0 == "literal"@) {
        assert(before[c].2 =~= ones(keep.len()));
    }
    treated_cell(inputs, before, policy, table, keep, c, r);
}

/// Each feature of the table of a regression is, on the rows that stay, what
/// `(x - least x) / (greatest x - least x)` makes of the input in its place, under the name of
/// that input; where the policy fills and there is a null, each null of the scaled feature, as a
/// number, has given way to the number of the policy.
pub proof fn features_are_scaled_inputs(
    inputs: Seq<ColumnView>,
    orders: Seq<int>,
    add_bias: bool,
    policy: NullPolicy,
    table: Seq<ColumnView>,
    keep: Seq<bool>,
    c: int,
    r: int,
)
    requires
        inputs.len() > 0,
        prepares(inputs, orders, add_bias, policy, Ok(table)),
        marks_stays(inputs, policy, keep),
        1 <= c < inputs.len(),
        settled(inputs[c].1, orders[c], inputs[c].2),
        !(add_bias && constant_name(inputs[c].0)),
        0 <= r < keep.len(),
        keep[r],
    ensures
        scaled_form(inputs[c], orders[c]) is Some,
        c < table.len(),
        table[c].0 == inputs[c].0,
        filler(policy) is None || !null_somewhere(inputs) ==> ({
            let out = scaled_form(inputs[c], orders[c])->0;
            table[c].1 == out.0 && count(keep.take(r)) < table[c].2.len() == count(keep)
                && table[c].2[count(keep.take(r)) as int] == out.1[r]
        }),
        filler(policy) is Some && null_somewhere(inputs) ==> ({
            let out = scaled_form(inputs[c], orders[c])->0;
            let number = cast_form(out.0, out.1);
            number matches Some((kind, cells)) && (cells.len() == keep.len() ==> table[c].1 == kind
                && count(keep.take(r)) < table[c].2.len() == count(keep)
                && table[c].2[count(keep.take(r)) as int] == if cells[r] is Some {
                cells[r]
            } else {
                Some(float_code(filler(policy)->0))
            })
        }),
{
    nulls_are_cells(inputs);
    let scaled = scaled_behind(inputs, orders, add_bias, policy, table);
    biased_columns(inputs, orders, scaled, add_bias);
    let before = biased(scaled, add_bias);
    assert(names_of(inputs)[c] != names_of(inputs)[0]);
    assert(before[c].0 == inputs[c].0);
    assert(before[c] == scaled[c]);
    assert(!seq![inputs[0].0].contains(inputs[c].0));
    assert(min_max() == scaling());
    assert(before[0].0 == inputs[0].0);
    treated_cell(inputs, before, policy, table, keep, c, r);
}

/// The target of the table of a regression is, on the rows that stay, the first input as it is.
pub proof fn target_is_the_first_input(
    inputs: Seq<ColumnView>,
    orders: Seq<int>,
    add_bias: bool,
    policy: NullPolicy,
    table: Seq<ColumnView>,
    keep: Seq<bool>,
    r: int,
)
    requires
        inputs.len() > 0,
        prepares(inputs, orders, add_bias, policy, Ok(table)),
        marks_stays(inputs, policy, keep),
        !(add_bias && constant_name(inputs[0].0)),
        0 <= r < keep.len(),
        keep[r],
    ensures
        table.len() > 0,
        table[0].0 == inputs[0].0,
        table[0].1 == inputs[0].1,
        count(keep.take(r)) < table[0].2.len() == count(keep),
        table[0].2[count(keep.take(r)) as int] == inputs[0].2[r],
{
    let scaled = scaled_behind(inputs, orders, add_bias, policy, table);
    biased_columns(inputs, orders, scaled, add_bias);
    let before = biased(scaled, add_bias);
    assert(before[0] == scaled[0]);
    treated_cell(inputs, before, policy, table, keep, 0, r);
}

/// The table of a regression has a column for each input, and behind them the constant column
/// where one is asked for, unless an input has its name. The constant column is one in each row
/// that stays.
pub proof fn constant_column_is_one(
    inputs: Seq<ColumnView>,
    orders: Seq<int>,
    add_bias: bool,
    policy: NullPolicy,
    table: Seq<ColumnView>,
    keep: Seq<bool>,
    c: int,
    r: int,
)
    requires
        inputs.len() > 0,
        prepares(inputs, orders, add_bias, policy, Ok(table)),
        marks_stays(inputs, policy, keep),
        0 <= r < keep.len(),
        keep[r],
    ensures
        table.len() == inputs.len() + if add_bias && forall|i: int|
            0 <= i < inputs.len() ==> (#[trigger] inputs[i]).0 != "literal"@ {
            1int
        } else {
            0
        },
        0 < c < table.len() && add_bias && (c == inputs.len() || inputs[c].0 == "literal"@) && (
        filler(policy) is None || !null_somewhere(inputs)) ==> table[c].0 == "literal"@
            && table[c].1 == 0 && count(keep.take(r)) < table[c].2.len() == count(keep)
            && table[c].2[count(keep.take(r)) as int] == Some(0x3ff0_0000_0000_0000int),
{
    nulls_are_cells(inputs);
    let scaled = scaled_behind(inputs, orders, add_bias, policy, table);
    biased_columns(inputs, orders, scaled, add_bias);
    let before = biased(scaled, add_bias);
    let names = names_of(inputs);
    assert(names.contains("literal"@) <==> exists|i: int|
        0 <= i < inputs.len() && (#[trigger] inputs[i]).0 == "literal"@) by {
        if names.contains("literal"@) {
            let i = names.index_of("literal"@);
            assert(names[i] == "literal"@);
            assert(inputs[i].0 == "literal"@);
        }
        if exists|i: int| 0 <= i < inputs.len() && (#[trigger] inputs[i]).0 == "literal"@ {
            let i = choose|i: int|
                0 <= i < inputs.len() && (#[trigger] inputs[i]).0 == "literal"@;
            assert(names[i] == "literal"@);
        }
    }
    assert(before[0].0 == inputs[0].0);
    if 0 < c < before.len() && add_bias && (c == inputs.len() || constant_name(inputs[c].0)) {
        if c < inputs.len() {
            assert(names[c] != names[0]);
        } else {
            assert(names[0] == inputs[0].0);
            assert(names.contains(names[0]));
        }
        assert(before[c].2[r] == Some(0x3ff0_0000_0000_0000int));
        treated_cell(inputs, before, policy, table, keep, c, r);
    } else {
        treated_cell(inputs, before, policy, table, keep, 0, r);
    }
}

/// A table has as many rows as stay of the inputs.
proof fn treated_height(
    inputs: Seq<ColumnView>,
    before: Seq<ColumnView>,
    policy: NullPolicy,
    table: Seq<ColumnView>,
    keep: Seq<bool>,
)
    requires
        inputs.len() > 0,
        fit(inputs),
        height(inputs) > 0,
        treated(inputs, before, policy) == Ok::<Seq<ColumnView>, Failure>(table),
        marks_stays(inputs, policy, keep),
        level(before, height(inputs)),
        before.len() > 0,
        before[0].0 == inputs[0].0,
    ensures
        table.len() == before.len(),
        height(table) == count(keep),
{
    let target = inputs[0];
    assert(seq![target.0][0] == target.0);
    nulls_are_cells(inputs);
    counts_and_masks(inputs, policy, keep, 0);
    if any_null(inputs) {
        if policy is SKIP {
            assert(keep =~= complete_rows(inputs));
            kept_counts(before[0].2, keep);
        } else if policy is FILL && has_null(target.2) {
            assert(keep =~= present(target.2));
            kept_counts(before[0].2, keep);
        }
    }
}

/// Whether there is a table, and why there is none: polars reports columns that do not fit, and
/// a feature that cannot be scaled; there must be rows; no null may be there where the policy
/// forbids it; and as many rows must stay as there are features. Only where nulls are filled can
/// polars report something else, namely a feature that is no number.
pub proof fn outcomes_by_cause(
    inputs: Seq<ColumnView>,
    orders: Seq<int>,
    add_bias: bool,
    policy: NullPolicy,
    outcome: Result<Seq<ColumnView>, Failure>,
    keep: Seq<bool>,
)
    requires
        inputs.len() > 0,
        prepares(inputs, orders, add_bias, policy, outcome),
        marks_stays(inputs, policy, keep),
    ensures
        (exists|i: int, j: int|
            0 <= i < j < inputs.len() && ((#[trigger] inputs[i]).0 == (#[trigger] inputs[j]).0
                || inputs[i].2.len() != inputs[j].2.len())) ==> outcome == Err::<
            Seq<ColumnView>,
            Failure,
        >(Failure::Polars),
        fit(inputs) && inputs[0].2.len() == 0 ==> outcome == Err::<Seq<ColumnView>, Failure>(
            Failure::EmptyData,
        ),
        fit(inputs) && inputs[0].2.len() > 0 && (exists|c: int|
            1 <= c < inputs.len() && settled((#[trigger] inputs[c]).1, orders[c], inputs[c].2)
                && scaled_form(inputs[c], orders[c]) is None) ==> outcome == Err::<
            Seq<ColumnView>,
            Failure,
        >(Failure::Polars),
        fit(inputs) && inputs[0].2.len() > 0 && (forall|c: int|
            1 <= c < inputs.len() && settled((#[trigger] inputs[c]).1, orders[c], inputs[c].2)
                ==> scaled_form(inputs[c], orders[c]) is Some) ==> ({
            &&& null_somewhere(inputs) && policy is RAISE ==> outcome == Err::<
                Seq<ColumnView>,
                Failure,
            >(Failure::NullsFound)
            &&& !(null_somewhere(inputs) && policy is RAISE) ==> outcome is Ok || outcome == Err::<
                Seq<ColumnView>,
                Failure,
            >(Failure::TooFewRows) || filler(policy) is Some && null_somewhere(inputs) && outcome
                == Err::<Seq<ColumnView>, Failure>(Failure::Polars)
            &&& outcome is Ok ==> count(keep) >= inputs.len() - 1
            &&& outcome == Err::<Seq<ColumnView>, Failure>(Failure::TooFewRows) ==> count(keep)
                < inputs.len() - 1
        }),
{
    nulls_are_cells(inputs);
    fitting_columns(inputs);
    assert(min_max() == scaling());
    assert(seq![inputs[0].0][0] == inputs[0].0);
    if fit(inputs) && height(inputs) > 0 {
        assert forall|c: int| 1 <= c < inputs.len() implies !seq![inputs[0].0].contains(
            (#[trigger] inputs[c]).0,
        ) by {
            assert(names_of(inputs)[c] != names_of(inputs)[0]);
        }
        if scalable(inputs, orders) {
            let scaled = choose|scaled: Seq<ColumnView>|
                #![trigger scales_to(inputs, orders, scaled)]
                scales_to(inputs, orders, scaled) && level(scaled, height(inputs)) && outcome
                    == prepared(inputs, scaled, add_bias, policy);
            biased_columns(inputs, orders, scaled, add_bias);
            let before = biased(scaled, add_bias);
            assert(before[0].0 == inputs[0].0);
            if treated(inputs, before, policy) is Ok {
                let table = treated(inputs, before, policy)->Ok_0;
                treated_height(inputs, before, policy, table, keep);
            }
        }
    }
}

/// The mask says of each row whether it stays, where the policy drops rows and there is a row to
/// drop; else it has a single row, which is true where there is no null, or none but those of
/// features that the policy fills.
pub proof fn mask_by_rows(inputs: Seq<ColumnView>, policy: NullPolicy, keep: Seq<bool>)
    requires
        inputs.len() > 0,
        fit(inputs),
        marks_stays(inputs, policy, keep),
    ensures
        keep.contains(false) ==> mask_of(inputs, policy) == keep,
        policy is SKIP && null_somewhere(inputs) ==> keep.contains(false),
        !keep.contains(false) ==> mask_of(inputs, policy).len() == 1 && (mask_of(
            inputs,
            policy,
        )[0] <==> !null_somewhere(inputs) || filler(policy) is Some && forall|r: int|
            0 <= r < inputs[0].2.len() ==> (#[trigger] inputs[0].2[r]) is Some),
{
    nulls_are_cells(inputs);
    if height(inputs) > 0 {
        counts_and_masks(inputs, policy, keep, 0);
    }
    if keep.contains(false) {
        let r = choose|r: int| 0 <= r < keep.len() && keep[r] == false;
        assert(!stays(inputs, policy, r));
        if policy is SKIP {
            let c = choose|c: int| 0 <= c < inputs.len() && (#[trigger] inputs[c].2[r]) is None;
            assert(inputs[c].2[r] is None);
            assert(keep =~= complete_rows(inputs));
        } else {
            assert(inputs[0].2[r] is None);
            assert(has_null(inputs[0].2));
            assert(keep =~= present(inputs[0].2));
        }
    }
    if policy is SKIP && null_somewhere(inputs) {
        let (c, r) = choose|c: int, r: int|
            0 <= c < inputs.len() && 0 <= r < inputs[c].2.len() && (#[trigger] inputs[c].2[r])
                is None;
        assert(inputs[c].2.len() == height(inputs));
        assert(!stays(inputs, policy, r));
        assert(keep[r] == false);
    }
    if !keep.contains(false) && policy is FILL && has_null(inputs[0].2) {
        let r = choose|r: int| 0 <= r < inputs[0].2.len() && #[trigger] inputs[0].2[r] is None;
        assert(!stays(inputs, policy, r));
        assert(keep[r] == false);
    }
}

/// Series as columns: their names, their types and their cells, and the orders that polars holds
/// them to have.
pub proof fn columns_are_series(inputs: Seq<Series>)
    ensures
        series_columns(inputs).len() == inputs.len(),
        series_orders(inputs).len() == inputs.len(),
        forall|c: int|
            0 <= c < inputs.len() ==> (#[trigger] series_columns(inputs)[c]).0 == series_name(
                inputs[c],
            ) && series_columns(inputs)[c].1 == series_kind(inputs[c]) && series_columns(
                inputs,
            )[c].2 == series_cells(inputs[c]),
        forall|c: int|
            0 <= c < inputs.len() ==> (#[trigger] series_orders(inputs)[c]) == series_order(
                inputs[c],
            ),
{
}

/// The numbers of a matrix that was returned are those of its entries, and an error is seen as
/// it was returned.
pub proof fn results_are_seen<T>(r: Result<(Vec<Vec<u64>>, T), LstsqError>)
    ensures
        r is Ok <==> seen(r) is Ok,
        r matches Ok((matrix, beside)) ==> seen(r)->Ok_0.len() == matrix@.len() && forall|
            c: int,
            k: int,
        |
            0 <= c < matrix@.len() && 0 <= k < matrix@[c]@.len() ==> seen(r)->Ok_0[c].len()
                == matrix@[c]@.len() && (#[trigger] seen(r)->Ok_0[c][k]) == float_code(
                matrix@[c]@[k],
            ),
        r matches Err(e) ==> seen(r)->Err_0 == e@,
{
}

/// A matrix is read off a table column by column: each column of the table as numbers, with NaN
/// in place of each null. There is no matrix where there is no table, for the same reason, or
/// where a column holds no numbers.
pub proof fn matrix_is_read_off_a_table(
    inputs: Seq<ColumnView>,
    orders: Seq<int>,
    add_bias: bool,
    policy: NullPolicy,
    outcome: Result<Seq<Seq<int>>, Failure>,
) -> (table: Result<Seq<ColumnView>, Failure>)
    requires
        reads(inputs, orders, add_bias, policy, outcome),
    ensures
        prepares(inputs, orders, add_bias, policy, table),
        table matches Err(failure) ==> outcome == Err::<Seq<Seq<int>>, Failure>(failure),
        table is Ok && outcome is Err ==> outcome->Err_0 is Polars && exists|c: int|
            0 <= c < table->Ok_0.len() && !(cast_form(
                (#[trigger] table->Ok_0[c]).1,
                table->Ok_0[c].2,
            ) matches Some((kind, cells)) && kind == 0),
        outcome matches Ok(matrix) ==> table is Ok && matrix.len() == table->Ok_0.len() && forall|
            c: int,
        |
            0 <= c < matrix.len() ==> cast_form(table->Ok_0[c].1, table->Ok_0[c].2) is Some
                && matrix_column(
                cast_form(table->Ok_0[c].1, table->Ok_0[c].2)->0,
                #[trigger] matrix[c],
            ),
{
    let table = choose|table: Result<Seq<ColumnView>, Failure>|
        #![trigger prepares(inputs, orders, add_bias, policy, table)]
        prepares(inputs, orders, add_bias, policy, table) && outcome == matrix_of(table);
    if table is Ok && outcome is Ok {
        let columns = table->Ok_0;
        let matrix = outcome->Ok_0;
        assert(float_code(NAN) == 0x7ff8_0000_0000_0000);
        assert forall|c: int| 0 <= c < matrix.len() implies cast_form(columns[c].1, columns[c].2)
            is Some && matrix_column(
            cast_form(columns[c].1, columns[c].2)->0,
            #[trigger] matrix[c],
        ) by {
            assert(columns[c] == columns[c]);
        }
    }
    table
}

/// Whether a column of a matrix has the numbers of a column of `Float64`, and NaN in place of
/// each null.
pub open spec fn matrix_column(number: (int, Seq<Option<int>>), column: Seq<int>) -> bool {
    number.0 == 0 && column.len() == number.1.len() && forall|k: int|
        0 <= k < column.len() ==> (#[trigger] column[k]) == if number.1[k] is Some {
            number.1[k]->0
        } else {
            0x7ff8_0000_0000_0000
        }
}

/// Whether each input is `Float64`, and each feature has a settled least and greatest value.
pub open spec fn all_numbers(inputs: Seq<ColumnView>, orders: Seq<int>) -> bool {
    &&& forall|c: int| 0 <= c < inputs.len() ==> (#[trigger] inputs[c]).1 == 0
    &&& forall|c: int|
        1 <= c < inputs.len() ==> settled((#[trigger] inputs[c]).1, orders[c], inputs[c].2)
}

/// The table of a regression on `Float64`, cell by cell: the target is the first input; each
/// feature is the input in its place, scaled by `(x - least x) / (greatest x - least x)`, with the
/// number of the policy, where it has one, in place of each null; and the constant column, where
/// one is asked for, is one. The rows are those that stay, in order.
pub proof fn cells_of_the_table(
    inputs: Seq<ColumnView>,
    orders: Seq<int>,
    add_bias: bool,
    policy: NullPolicy,
    table: Seq<ColumnView>,
    keep: Seq<bool>,
    c: int,
    r: int,
)
    requires
        inputs.len() > 0,
        prepares(inputs, orders, add_bias, policy, Ok(table)),
        numbers_prepared(inputs, orders, add_bias, policy, Ok(table)),
        all_numbers(inputs, orders),
        marks_stays(inputs, policy, keep),
        0 <= r < keep.len(),
        keep[r],
        0 <= c < table.len(),
    ensures
        table.len() == inputs.len() + if add_bias && forall|i: int|
            0 <= i < inputs.len() ==> (#[trigger] inputs[i]).0 != "literal"@ {
            1int
        } else {
            0
        },
        table[c].1 == 0,
        count(keep.take(r)) < table[c].2.len() == count(keep),
        c == 0 && !(add_bias && inputs[0].0 == "literal"@) ==> table[0].0 == inputs[0].0
            && table[0].2[count(keep.take(r)) as int] == inputs[0].2[r],
        0 < c < inputs.len() && !(add_bias && inputs[c].0 == "literal"@) ==> table[c].0
            == inputs[c].0 && ({
            &&& scaled_form(inputs[c], orders[c]) matches Some((kind, cells))
            &&& kind == 0
            &&& cells[r] is Some <==> inputs[c].2[r] is Some
            &&& table[c].2[count(keep.take(r)) as int] == if cells[r] is None && filler(policy)
                is Some {
                Some(float_code(filler(policy)->0))
            } else {
                cells[r]
            }
        }),
        add_bias && (c == inputs.len() || inputs[c].0 == "literal"@) ==> table[c].0 == "literal"@
            && table[c].2[count(keep.take(r)) as int] == Some(0x3ff0_0000_0000_0000int),
{
    nulls_are_cells(inputs);
    assert(min_max() == scaling());
    let outcome = Ok::<Seq<ColumnView>, Failure>(table);
    let columns = table;
    let first = scaled_behind(inputs, orders, add_bias, policy, columns);
    assert(settled_features(inputs, orders)) by {
        assert forall|c: int| 1 <= c < inputs.len() implies settled_float(
            (#[trigger] inputs[c]).1,
            orders[c],
            inputs[c].2,
        ) by {
        }
    }
    let scaled = choose|scaled: Seq<ColumnView>|
        #![trigger scales_to(inputs, orders, scaled)]
        {
            &&& scales_to(inputs, orders, scaled)
            &&& level(scaled, height(inputs))
            &&& outcome == prepared(inputs, scaled, add_bias, policy)
            &&& features_scale(inputs, scaled)
            &&& any_null(inputs) ==> (policy matches NullPolicy::FILL(x) ==> fills_features(
                inputs[0].0,
                biased(scaled, add_bias),
                x,
            ))
            &&& any_null(inputs) ==> (policy matches NullPolicy::FILL_WINDOW(x) ==>
                fills_features(inputs[0].0, biased(scaled, add_bias), x))
        };
    biased_columns(inputs, orders, scaled, add_bias);
    let before = biased(scaled, add_bias);
    assert(before[0].0 == inputs[0].0);
    let names = names_of(inputs);
    assert(seq![inputs[0].0][0] == inputs[0].0);
    assert forall|i: int| 0 <= i < before.len() implies (#[trigger] before[i]).1 == 0 by {
        if i < inputs.len() && !(add_bias && constant_name(inputs[i].0)) {
            assert(before[i] == scaled[i]);
            if i > 0 {
                assert(scaled[i].1 == 0);
            } else {
                assert(inputs[0].1 == 0);
            }
        }
    }
    assert forall|i: int| 0 < i < before.len() implies (#[trigger] before[i]).0 != inputs[0].0 by {
        if i < inputs.len() {
            assert(names[i] != names[0]);
        } else {
            assert(names.contains(names[0]));
        }
    }
    assert(all_float(columns, 0)) by {
        assert forall|i: int| 0 <= i < columns.len() implies (#[trigger] columns[i]).1 == 0 by {
            assert(before[i].1 == 0);
        }
    }
    constant_column_is_one(inputs, orders, add_bias, policy, columns, keep, c, r);
    treated_height(inputs, before, policy, columns, keep);
    let k = count(keep.take(r)) as int;
    if c > 0 && filler(policy) is Some && any_null(inputs) {
        let x = filler(policy)->0;
        let full = filled_columns(before, seq![inputs[0].0], x)->0;
        assert(fills_features(inputs[0].0, before, x));
        assert(full[c].2.len() == keep.len());
        assert(full[c].2[r] == if before[c].2[r] is Some {
            before[c].2[r]
        } else {
            Some(float_code(x))
        });
        counts_and_masks(inputs, policy, keep, r);
        if policy is FILL && has_null(inputs[0].2) {
            assert(keep =~= present(inputs[0].2));
            row_moves(keep, full[c].2, r);
        }
        assert(columns[c].2[k] == full[c].2[r]);
    } else {
        treated_cell(inputs, before, policy, columns, keep, c, r);
        assert(columns[c].2[k] == before[c].2[r]);
    }
    if 0 < c < inputs.len() && !(add_bias && constant_name(inputs[c].0)) {
        assert(before[c] == scaled[c]);
        assert(names[c] != names[0]);
        assert(!seq![inputs[0].0].contains(inputs[c].0));
        assert(settled(inputs[c].1, orders[c], inputs[c].2));
        assert(present(scaled[c].2)[r] == present(inputs[c].2)[r]);
        if filler(policy) is Some && !any_null(inputs) {
            assert(inputs[c].2.len() == height(inputs));
            assert(inputs[c].2[r] is Some);
        }
    } else if c == 0 && !(add_bias && constant_name(inputs[0].0)) {
        assert(before[0] == scaled[0]);
    } else {
        assert(before[c].2[r] == Some(0x3ff0_0000_0000_0000int));
    }
}

/// The matrix of a regression on `Float64`, entry by entry: the target is the first input; each
/// feature is the input in its place, scaled by `(x - least x) / (greatest x - least x)`, with
/// the number of the policy, or else NaN, in place of each null; and the constant column, where
/// one is asked for, is one. The rows are those that stay, in order.
pub proof fn entries_of_the_matrix(
    inputs: Seq<ColumnView>,
    orders: Seq<int>,
    add_bias: bool,
    policy: NullPolicy,
    matrix: Seq<Seq<int>>,
    keep: Seq<bool>,
    c: int,
    r: int,
)
    requires
        inputs.len() > 0,
        reads(inputs, orders, add_bias, policy, Ok(matrix)),
        all_numbers(inputs, orders),
        marks_stays(inputs, policy, keep),
        0 <= r < keep.len(),
        keep[r],
        0 <= c < matrix.len(),
    ensures
        matrix.len() == inputs.len() + if add_bias && forall|i: int|
            0 <= i < inputs.len() ==> (#[trigger] inputs[i]).0 != "literal"@ {
            1int
        } else {
            0
        },
        count(keep.take(r)) < matrix[c].len() == count(keep),
        c == 0 && !(add_bias && inputs[0].0 == "literal"@) ==> matrix[0][count(
            keep.take(r),
        ) as int] == if inputs[0].2[r] is Some {
            inputs[0].2[r]->0
        } else {
            0x7ff8_0000_0000_0000
        },
        0 < c < inputs.len() && !(add_bias && inputs[c].0 == "literal"@) ==> ({
            &&& scaled_form(inputs[c], orders[c]) matches Some((kind, cells))
            &&& kind == 0
            &&& cells[r] is Some <==> inputs[c].2[r] is Some
            &&& matrix[c][count(keep.take(r)) as int] == if cells[r] is Some {
                cells[r]->0
            } else if filler(policy) is Some {
                float_code(filler(policy)->0)
            } else {
                0x7ff8_0000_0000_0000
            }
        }),
        add_bias && (c == inputs.len() || inputs[c].0 == "literal"@) ==> matrix[c][count(
            keep.take(r),
        ) as int] == 0x3ff0_0000_0000_0000,
{
    assert(float_code(NAN) == 0x7ff8_0000_0000_0000);
    let table = choose|table: Result<Seq<ColumnView>, Failure>|
        #![trigger prepares(inputs, orders, add_bias, policy, table)]
        {
            &&& prepares(inputs, orders, add_bias, policy, table)
            &&& numbers_prepared(inputs, orders, add_bias, policy, table)
            &&& Ok::<Seq<Seq<int>>, Failure>(matrix) == matrix_of(table)
            &&& table matches Ok(columns) ==> all_float(columns, 0) ==> Ok::<
                Seq<Seq<int>>,
                Failure,
            >(matrix) == Ok::<Seq<Seq<int>>, Failure>(float_entries(columns))
        };
    let columns = table->Ok_0;
    assert forall|i: int| 0 <= i < columns.len() implies (#[trigger] columns[i]).1 == 0 by {
        cells_of_the_table(inputs, orders, add_bias, policy, columns, keep, i, r);
    }
    assert(matrix == float_entries(columns));
    cells_of_the_table(inputs, orders, add_bias, policy, columns, keep, c, r);
    assert(matrix[c][count(keep.take(r)) as int] == entries(columns[c].2)[count(
        keep.take(r),
    ) as int]);
}

/// As many rows are left as stay, and they are enough where no null is forbidden and they are as
/// many as the features.
pub proof fn rows_left_are_those_that_stay(
    inputs: Seq<ColumnView>,
    policy: NullPolicy,
    keep: Seq<bool>,
)
    requires
        inputs.len() > 0,
        fit(inputs),
        marks_stays(inputs, policy, keep),
    ensures
        rows_left(inputs, policy) == count(keep),
        enough_rows(inputs, policy) <==> !(null_somewhere(inputs) && policy is RAISE) && count(
            keep,
        ) >= inputs.len() - 1,
        removes_nulls(policy) <==> policy is RAISE || policy is SKIP || policy is FILL,
{
    nulls_are_cells(inputs);
    if policy is SKIP {
        assert(keep =~= complete_rows(inputs));
    } else if policy is FILL {
        assert(keep =~= present(inputs[0].2));
    } else {
        counts_true(keep, keep.len() as int);
        assert(keep.take(keep.len() as int) =~= keep);
    }
}

/// A request whose null policy was not understood is answered by what is wrong with it, and any
/// other one by the matrix.
pub proof fn requests_are_answered(
    inputs: Seq<ColumnView>,
    orders: Seq<int>,
    add_bias: bool,
    policy: Result<NullPolicy, String>,
    outcome: Result<Seq<Seq<int>>, Failure>,
)
    requires
        requested(inputs, orders, add_bias, policy, outcome),
    ensures
        policy matches Err(text) ==> outcome == Err::<Seq<Seq<int>>, Failure>(
            Failure::Policy(text@),
        ),
        policy matches Ok(p) ==> reads(inputs, orders, add_bias, p, outcome),
{
}

/// The matrix of a table has the columns of the table as numbers, and NaN in place of each null;
/// there is none where a column holds no numbers.
pub proof fn tables_are_read(columns: Seq<ColumnView>)
    ensures
        matrix_of(Ok(columns)) matches Ok(matrix) ==> matrix.len() == columns.len() && forall|
            c: int,
        |
            0 <= c < matrix.len() ==> cast_form(columns[c].1, columns[c].2) is Some
                && matrix_column(cast_form(columns[c].1, columns[c].2)->0, #[trigger] matrix[c]),
        matrix_of(Ok(columns)) matches Err(failure) ==> failure is Polars && exists|c: int|
            0 <= c < columns.len() && !(cast_form(
                (#[trigger] columns[c]).1,
                columns[c].2,
            ) matches Some((kind, cells)) && kind == 0),
        forall|failure: Failure|
            #![trigger matrix_of(Err(failure))]
            matrix_of(Err(failure)) == Err::<Seq<Seq<int>>, Failure>(failure),
        read_columns(columns) is Some <==> matrix_of(Ok(columns)) is Ok,
        read_columns(columns) matches Some(matrix) ==> matrix_of(Ok(columns)) == Ok::<
            Seq<Seq<int>>,
            Failure,
        >(matrix),
        float_entries(columns).len() == columns.len(),
        forall|c: int|
            #![trigger float_entries(columns)[c]]
            0 <= c < columns.len() ==> matrix_column((0, columns[c].2), float_entries(columns)[c]),
{
    assert(float_code(NAN) == 0x7ff8_0000_0000_0000);
    if matrix_of(Ok(columns)) is Ok {
        let matrix = matrix_of(Ok(columns))->Ok_0;
        assert forall|c: int| 0 <= c < matrix.len() implies cast_form(columns[c].1, columns[c].2)
            is Some && matrix_column(
            cast_form(columns[c].1, columns[c].2)->0,
            #[trigger] matrix[c],
        ) by {
            assert(columns[c] == columns[c]);
        }
    }
}

/// The numbers of a matrix are those of its entries, and those of a list of its items.
pub proof fn codes_are_of_entries(matrix: Seq<Vec<u64>>, bits: Seq<u64>)
    ensures
        matrix_codes(matrix).len() == matrix.len(),
        forall|c: int|
            0 <= c < matrix.len() ==> (#[trigger] matrix_codes(matrix)[c]).len()
                == matrix[c]@.len(),
        forall|c: int, k: int|
            0 <= c < matrix.len() && 0 <= k < matrix[c]@.len() ==> (#[trigger] matrix_codes(
                matrix,
            )[c][k]) == float_code(matrix[c]@[k]),
        float_codes(bits).len() == bits.len(),
        forall|k: int|
            0 <= k < bits.len() ==> (#[trigger] float_codes(bits)[k]) == float_code(bits[k]),
{
}

/// The number that stands for a `Float64` is its bits, but zero for both zeros, and the same for
/// every NaN.
pub proof fn codes_by_bits(bits: u64)
    ensures
        0 < bits <= 0x7ff0_0000_0000_0000 ==> float_code(bits) == bits,
        0x8000_0000_0000_0000 < bits <= 0xfff0_0000_0000_0000 ==> float_code(bits) == bits,
        bits == 0 || bits == 0x8000_0000_0000_0000 ==> float_code(bits) == 0,
        0x7ff0_0000_0000_0000 < bits < 0x8000_0000_0000_0000 || bits > 0xfff0_0000_0000_0000
            ==> float_code(bits) == 0x7ff8_0000_0000_0000,
{
}

/// Columns can have less than the greatest 32-bit number of rows, and texts can be as long in
/// bytes.
pub proof fn limits_of_columns(rows: nat, text: Seq<char>)
    ensures
        countable(rows) <==> rows < 0xffff_ffff,
        storable(text) <==> encode_utf8(text).len() <= 0xffff_ffff,
{
}

/// A series that is left out of several ones is the first, where there are weights.
pub proof fn weights_are_the_first_series(inputs: Seq<Series>)
    requires
        inputs.len() > 0,
    ensures
        without_weights(inputs, false) == inputs,
        without_weights(inputs, true).len() == inputs.len() - 1,
        forall|i: int|
            0 <= i < inputs.len() - 1 ==> (#[trigger] without_weights(inputs, true)[i])
                == inputs[i + 1],
{
}

/// A table that was returned is seen as it is, and an error as it was returned.
pub proof fn frames_are_seen<T>(r: Result<(DataFrame, T), LstsqError>)
    ensures
        r matches Ok((df, beside)) ==> frame_seen(r) == Ok::<Seq<ColumnView>, Failure>(
            frame_columns(df),
        ),
        r matches Err(e) ==> frame_seen(r) == Err::<Seq<ColumnView>, Failure>(e@),
{
}

/// Of inputs that fit, have rows and are `Float64` there is a matrix exactly where no null is
/// forbidden and as many rows stay as there are features.
pub proof fn numbers_have_a_matrix(
    inputs: Seq<ColumnView>,
    policy: NullPolicy,
    success: bool,
    keep: Seq<bool>,
)
    requires
        inputs.len() > 0,
        numbers_read(inputs, Ok(policy), success),
        forall|i: int, j: int|
            0 <= i < j < inputs.len() ==> (#[trigger] inputs[i]).0 != (#[trigger] inputs[j]).0
                && inputs[i].2.len() == inputs[j].2.len(),
        inputs[0].2.len() > 0,
        forall|c: int| 0 <= c < inputs.len() ==> (#[trigger] inputs[c]).1 == 0,
        marks_stays(inputs, policy, keep),
    ensures
        success <==> !(null_somewhere(inputs) && policy is RAISE) && count(keep) >= inputs.len()
            - 1,
{
    fitting_columns(inputs);
    rows_left_are_those_that_stay(inputs, policy, keep);
}

/// The formulas, spelled out: `(x - least x) / (greatest x - least x)`, and a number in place of
/// each null of what is cast to numbers.
pub proof fn formulas_are_these(bits: u64)
    ensures
        min_max() == scaling(),
        as_filled(bits) == Formula::Filled(
            Box::new(Formula::Number(Box::new(Formula::Itself))),
            bits,
        ),
{
}

/// Filling, cell by cell: a column with a spared name stays as it is, and any other one is cast to
/// numbers, with the given one in place of each null. It fails only where a column cannot be
/// cast, or is no number then and has nulls.
pub proof fn filling_by_cells(
    columns: Seq<ColumnView>,
    spared: Seq<Seq<char>>,
    bits: u64,
    c: int,
    r: int,
)
    requires
        0 <= c < columns.len(),
    ensures
        filled_columns(columns, spared, bits) is Some <==> forall|i: int|
            0 <= i < columns.len() && !spared.contains((#[trigger] columns[i]).0) ==> (cast_form(
                columns[i].1,
                columns[i].2,
            ) matches Some((kind, cells)) && (kind == 0 || forall|k: int|
                0 <= k < cells.len() ==> (#[trigger] cells[k]) is Some)),
        filled_columns(columns, spared, bits) matches Some(full) ==> ({
            &&& full.len() == columns.len()
            &&& full[c].0 == columns[c].0
            &&& spared.contains(columns[c].0) ==> full[c] == columns[c]
            &&& !spared.contains(columns[c].0) ==> (cast_form(columns[c].1, columns[c].2) matches
                Some((kind, cells)) && full[c].1 == kind && full[c].2.len() == cells.len() && (0
                <= r < cells.len() ==> full[c].2[r] == if cells[r] is Some {
                cells[r]
            } else {
                Some(float_code(bits))
            }))
        }),
        number_filled(columns, spared, bits).len() == columns.len(),
        spared.contains(columns[c].0) ==> number_filled(columns, spared, bits)[c] == columns[c],
        !spared.contains(columns[c].0) ==> ({
            let full = number_filled(columns, spared, bits)[c];
            full.0 == columns[c].0 && full.1 == 0 && full.2.len() == columns[c].2.len() && (0 <= r
                < columns[c].2.len() ==> full.2[r] == if columns[c].2[r] is Some {
                columns[c].2[r]
            } else {
                Some(float_code(bits))
            })
        }),
{
    if filled_columns(columns, spared, bits) is Some {
        assert(spared.contains(columns[c].0) || filled_form(
            cast_form(columns[c].1, columns[c].2),
            float_code(bits),
        ) is Some);
    }
}

/// Whether a column can be filled: it is a number, or has no null, once it is cast to one.
pub open spec fn fillable(kind: int, cells: Seq<Option<int>>) -> bool {
    cast_form(kind, cells) matches Some((number, values)) && (number == 0 || forall|r: int|
        0 <= r < values.len() ==> (#[trigger] values[r]) is Some)
}

/// Filling gives a table, or leaves too few rows, where each scaled feature can be filled, and the
/// constant column too where there is one.
pub proof fn fillable_features_are_filled(
    inputs: Seq<ColumnView>,
    orders: Seq<int>,
    add_bias: bool,
    policy: NullPolicy,
    outcome: Result<Seq<ColumnView>, Failure>,
)
    requires
        inputs.len() > 0,
        fit(inputs),
        inputs[0].2.len() > 0,
        filler(policy) is Some,
        prepares(inputs, orders, add_bias, policy, outcome),
        forall|c: int|
            1 <= c < inputs.len() ==> settled((#[trigger] inputs[c]).1, orders[c], inputs[c].2) && (
            scaled_form(inputs[c], orders[c]) matches Some((kind, cells)) && fillable(kind, cells)),
        add_bias ==> fillable(0, ones(inputs[0].2.len())),
    ensures
        outcome is Ok || outcome == Err::<Seq<ColumnView>, Failure>(Failure::TooFewRows),
{
    assert(min_max() == scaling());
    assert(seq![inputs[0].0][0] == inputs[0].0);
    assert forall|c: int| 1 <= c < inputs.len() implies !seq![inputs[0].0].contains(
        (#[trigger] inputs[c]).0,
    ) by {
        assert(names_of(inputs)[c] != names_of(inputs)[0]);
    }
    assert(scalable(inputs, orders));
    let scaled = choose|scaled: Seq<ColumnView>|
        #![trigger scales_to(inputs, orders, scaled)]
        scales_to(inputs, orders, scaled) && level(scaled, height(inputs)) && outcome == prepared(
            inputs,
            scaled,
            add_bias,
            policy,
        );
    biased_columns(inputs, orders, scaled, add_bias);
    let before = biased(scaled, add_bias);
    let x = filler(policy)->0;
    assert forall|c: int|
        0 <= c < before.len() && !seq![inputs[0].0].contains(
            (#[trigger] before[c]).0,
        ) implies filled_form(cast_form(before[c].1, before[c].2), float_code(x)) is Some by {
        if c < inputs.len() && !(add_bias && constant_name(inputs[c].0)) {
            assert(before[c] == scaled[c]);
            assert(before[c].0 == inputs[c].0);
            assert(settled(inputs[c].1, orders[c], inputs[c].2));
        } else {
            assert(before[c].2 =~= ones(inputs[0].2.len()));
        }
    }
}

/// Whatever the scaled features are, there is a table exactly where no null is forbidden, as many
/// rows stay as there are features, and the columns behind the target can be filled where the
/// policy fills and there is a null.
pub proof fn scaled_features_by_cause(
    inputs: Seq<ColumnView>,
    scaled: Seq<ColumnView>,
    add_bias: bool,
    policy: NullPolicy,
    keep: Seq<bool>,
)
    requires
        inputs.len() > 0,
        fit(inputs),
        inputs[0].2.len() > 0,
        scaled.len() == inputs.len(),
        fit(scaled),
        scaled[0] == inputs[0],
        marks_stays(inputs, policy, keep),
    ensures
        ({
            let outcome = prepared(inputs, scaled, add_bias, policy);
            let constant = add_bias && inputs[0].0 != "literal"@;
            let unfillable = (exists|c: int|
                1 <= c < scaled.len() && !(add_bias && (#[trigger] scaled[c]).0 == "literal"@)
                    && !fillable(scaled[c].1, scaled[c].2)) || constant && !fillable(
                0,
                ones(inputs[0].2.len()),
            );
            let refused = null_somewhere(inputs) && (policy is RAISE || filler(policy) is Some
                && unfillable);
            &&& null_somewhere(inputs) && policy is RAISE ==> outcome == Err::<
                Seq<ColumnView>,
                Failure,
            >(Failure::NullsFound)
            &&& null_somewhere(inputs) && filler(policy) is Some && unfillable ==> outcome == Err::<
                Seq<ColumnView>,
                Failure,
            >(Failure::Polars)
            &&& !refused && count(keep) < inputs.len() - 1 ==> outcome == Err::<
                Seq<ColumnView>,
                Failure,
            >(Failure::TooFewRows)
            &&& !refused && count(keep) >= inputs.len() - 1 ==> outcome is Ok
        }),
{
    nulls_are_cells(inputs);
    biased_cells(scaled, add_bias);
    let before = biased(scaled, add_bias);
    let names = names_of(scaled);
    let name = "literal"@;
    let target = seq![inputs[0].0];
    assert(target[0] == inputs[0].0);
    assert(before[0].0 == scaled[0].0);
    assert(names[0] == inputs[0].0);
    if names.contains(name) {
        assert(names[names.index_of(name)] == name);
    }
    assert forall|c: int| 0 < c < before.len() implies !target.contains(
        (#[trigger] before[c]).0,
    ) by {
        if c < scaled.len() {
            assert(names[c] != names[0]);
            assert(before[c].0 == scaled[c].0);
        } else {
            assert(names.contains(names[0]));
        }
    }
    assert forall|c: int|
        0 <= c < before.len() && add_bias && (c == scaled.len() || constant_name(
            scaled[c].0,
        )) implies (#[trigger] before[c]).1 == 0 && before[c].2 == ones(inputs[0].2.len()) by {
        assert(before[c].2 =~= ones(inputs[0].2.len()));
    }
    if filler(policy) is Some {
        let code = float_code(filler(policy)->0);
        assert forall|kind: int, cells: Seq<Option<int>>|
            fillable(kind, cells) == ((#[trigger] filled_form(cast_form(kind, cells), code))
                is Some) by {
        }
        if add_bias && inputs[0].0 != name && !fillable(0, ones(inputs[0].2.len())) {
            let c = if names.contains(name) {
                names.index_of(name)
            } else {
                scaled.len() as int
            };
            assert(!target.contains(before[c].0));
            assert(filled_form(cast_form(before[c].1, before[c].2), code) is None);
        }
        if exists|c: int|
            1 <= c < scaled.len() && !(add_bias && (#[trigger] scaled[c]).0 == name) && !fillable(
                scaled[c].1,
                scaled[c].2,
            ) {
            let c = choose|c: int|
                1 <= c < scaled.len() && !(add_bias && (#[trigger] scaled[c]).0 == name)
                    && !fillable(scaled[c].1, scaled[c].2);
            assert(before[c] == scaled[c]);
            assert(filled_form(cast_form(before[c].1, before[c].2), code) is None);
        }
        if filled_columns(before, target, filler(policy)->0) is None {
            let c = choose|c: int|
                0 <= c < before.len() && !target.contains((#[trigger] before[c]).0)
                    && filled_form(cast_form(before[c].1, before[c].2), code) is None;
            assert(c > 0);
            if c < scaled.len() && !(add_bias && scaled[c].0 == name) {
                assert(before[c] == scaled[c]);
                assert(!fillable(scaled[c].1, scaled[c].2));
            } else {
                assert(!fillable(0, ones(inputs[0].2.len())));
            }
        }
    }
    if treated(inputs, before, policy) is Ok {
        treated_height(inputs, before, policy, treated(inputs, before, policy)->Ok_0, keep);
    }
}

} // verus!
