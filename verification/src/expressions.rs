//! What is computed of each column of a table: formulas, the polars expressions that stand for
//! them, and what they make of a table. Each function here that calls polars states what polars
//! does without a proof.
use vstd::prelude::*;

use polars::prelude::{
    col, lit, AnyValue, ChunkAnyValue, DataFrame, DataType, Expr, Float64Type, IndexOrder,
    IntoLazy, LiteralValue, NewChunkedArray, PlSmallStr, PolarsError, UInt64Chunked,
};

use crate::tables::{all_float, frame_columns, frame_orders, texts};
use crate::views::{
    all_null, entries, filled, fit, float_code, float_kind, has_null, height, holds_order, level,
    matrix_codes, nulls_stay, present, settled, settled_float, single_kind, unmarked, ColumnView,
};

verus! {

/// What is computed of a column.
#[derive(Debug)]
pub enum Formula {
    /// The column itself.
    Itself,
    /// The least value.
    Least(Box<Formula>),
    /// The greatest value.
    Greatest(Box<Formula>),
    /// The difference.
    Minus(Box<Formula>, Box<Formula>),
    /// The quotient.
    Over(Box<Formula>, Box<Formula>),
    /// The values as `Float64`.
    Number(Box<Formula>),
    /// The number of the given bits in place of each null.
    Filled(Box<Formula>, u64),
}

/// The place of each value between the least and the greatest one:
/// `(x - least x) / (greatest x - least x)`.
pub open spec fn min_max() -> Formula {
    Formula::Over(
        Box::new(
            Formula::Minus(
                Box::new(Formula::Itself),
                Box::new(Formula::Least(Box::new(Formula::Itself))),
            ),
        ),
        Box::new(
            Formula::Minus(
                Box::new(Formula::Greatest(Box::new(Formula::Itself))),
                Box::new(Formula::Least(Box::new(Formula::Itself))),
            ),
        ),
    )
}

/// The column as `Float64`.
pub open spec fn as_number() -> Formula {
    Formula::Number(Box::new(Formula::Itself))
}

/// The column as `Float64`, with the number of the given bits in place of each null.
pub open spec fn as_filled(bits: u64) -> Formula {
    Formula::Filled(Box::new(as_number()), bits)
}

/// An expression of polars: what to compute, of which columns.
#[verifier::external_type_specification]
#[verifier::external_body]
pub struct ExExpr(Expr);

/// The formula that an expression stands for.
pub uninterp spec fn expr_formula(e: Expr) -> Formula;

/// The names of the columns that an expression over all columns spares.
pub uninterp spec fn expr_spared(e: Expr) -> Seq<Seq<char>>;

/// What polars computes by a formula of a column of the given type, mark and cells, which
/// settle its least and greatest value: the type and the cells of the result, or `None` where
/// the type does not have what the formula asks for.
pub uninterp spec fn computed(
    f: Formula,
    kind: int,
    order: int,
    cells: Seq<Option<int>>,
) -> Option<(int, Seq<Option<int>>)>;

/// What `Series::cast` to `Float64` makes of a column of the given type and cells: the type and
/// the cells of the result, or `None` where it refuses the type. A value that is no number
/// becomes null.
pub uninterp spec fn cast_form(kind: int, cells: Seq<Option<int>>) -> Option<
    (int, Seq<Option<int>>),
>;

/// A column of numbers, where there is one, with the given value in place of each null. Structs
/// have no number in place of a null: of them it is there only where nothing is null.
pub open spec fn filled_form(number: Option<(int, Seq<Option<int>>)>, code: int) -> Option<
    (int, Seq<Option<int>>),
> {
    match number {
        None => None,
        Some((kind, cells)) => if kind == float_kind() || !has_null(cells) {
            Some((kind, filled(cells, code)))
        } else {
            None
        },
    }
}

/// The entries of a column of numbers in a matrix, where there is one. Structs have none.
pub open spec fn read_form(number: Option<(int, Seq<Option<int>>)>) -> Option<Seq<int>> {
    match number {
        None => None,
        Some((kind, cells)) => if kind == float_kind() {
            Some(entries(cells))
        } else {
            None
        },
    }
}

/// Whether a formula fills a column of numbers.
pub open spec fn fills(f: Formula) -> bool {
    f matches Formula::Filled(g, bits) && *g == as_number()
}

/// The mark that has a say in the least and greatest value of a settled column: where the
/// order of the cells is known to be that of the mark, none.
pub open spec fn telling_mark(kind: int, order: int) -> int {
    if kind == float_kind() || kind == single_kind() {
        unmarked()
    } else {
        order
    }
}

/// Whether polars can compute a formula of a column. A floating-point column always has its
/// least and its greatest value, though it may be null or NaN.
pub open spec fn computable(f: Formula, kind: int, order: int, cells: Seq<Option<int>>) -> bool {
    if fills(f) {
        filled_form(cast_form(kind, cells), float_code(f->Filled_1)) is Some
    } else if settled(kind, order, cells) {
        computed(f, kind, telling_mark(kind, order), cells) is Some
    } else {
        true
    }
}

/// Whether a type and cells can be what a formula makes of a column. Of a floating-point column
/// that is not settled only the type and that a null stays a null are sure; where it has the
/// order of its mark, it holds nothing but nulls and NaN, and either stays as it is or becomes
/// null altogether.
pub open spec fn computes(
    f: Formula,
    kind: int,
    order: int,
    cells: Seq<Option<int>>,
    result: (int, Seq<Option<int>>),
) -> bool {
    if fills(f) {
        filled_form(cast_form(kind, cells), float_code(f->Filled_1)) == Some(result)
    } else if settled(kind, order, cells) {
        computed(f, kind, telling_mark(kind, order), cells) == Some(result)
    } else {
        &&& result.0 == kind
        &&& nulls_stay(cells, result.1)
        &&& holds_order(order, cells) ==> result.1 == cells || all_null(result.1)
    }
}

/// Whether a formula can be computed of all columns but those with a spared name.
pub open spec fn computable_columns(
    columns: Seq<ColumnView>,
    orders: Seq<int>,
    spared: Seq<Seq<char>>,
    f: Formula,
) -> bool {
    forall|c: int|
        0 <= c < columns.len() && !spared.contains((#[trigger] columns[c]).0) ==> computable(
            f,
            columns[c].1,
            orders[c],
            columns[c].2,
        )
}

/// Whether a column can stand in the place of another one where a formula is computed: a column
/// with a spared name stays as it is.
pub open spec fn computes_at(
    column: ColumnView,
    order: int,
    spared: Seq<Seq<char>>,
    f: Formula,
    result: ColumnView,
) -> bool {
    if spared.contains(column.0) {
        result == column
    } else {
        result.0 == column.0 && computes(f, column.1, order, column.2, (result.1, result.2))
    }
}

/// Whether a table can be what is left of another one where each column gives way to what the
/// formula makes of it, but for those with a spared name.
pub open spec fn computes_columns(
    columns: Seq<ColumnView>,
    orders: Seq<int>,
    spared: Seq<Seq<char>>,
    f: Formula,
    result: Seq<ColumnView>,
) -> bool {
    result.len() == columns.len() && forall|c: int|
        0 <= c < columns.len() ==> computes_at(
            columns[c],
            orders[c],
            spared,
            f,
            #[trigger] result[c],
        )
}

/// Whether the columns behind the first one can be scaled.
pub open spec fn scalable(columns: Seq<ColumnView>, orders: Seq<int>) -> bool {
    computable_columns(columns, orders, seq![columns[0].0], min_max())
}

/// Whether a table can be another one with all columns scaled but the first.
pub open spec fn scales_to(
    columns: Seq<ColumnView>,
    orders: Seq<int>,
    scaled: Seq<ColumnView>,
) -> bool {
    computes_columns(columns, orders, seq![columns[0].0], min_max(), scaled)
}

/// What stands in the place of a column, given what is made of it: a column with a spared name
/// stays as it is.
pub open spec fn filled_at(
    column: ColumnView,
    spared: Seq<Seq<char>>,
    result: Option<(int, Seq<Option<int>>)>,
) -> ColumnView {
    if spared.contains(column.0) {
        column
    } else {
        let out = result->0;
        (column.0, out.0, out.1)
    }
}

/// The table whose columns are all numbers without nulls but those with a spared name, or
/// `None` where one of them cannot be.
pub open spec fn filled_columns(
    columns: Seq<ColumnView>,
    spared: Seq<Seq<char>>,
    bits: u64,
) -> Option<Seq<ColumnView>> {
    if forall|c: int|
        0 <= c < columns.len() && !spared.contains((#[trigger] columns[c]).0) ==> filled_form(
            cast_form(columns[c].1, columns[c].2),
            float_code(bits),
        ) is Some {
        Some(
            Seq::new(
                columns.len(),
                |c: int|
                    filled_at(
                        columns[c],
                        spared,
                        filled_form(cast_form(columns[c].1, columns[c].2), float_code(bits)),
                    ),
            ),
        )
    } else {
        None
    }
}

/// The table of `Float64` with the number of the given bits in place of each null, but for the
/// columns with a spared name.
pub open spec fn number_filled(
    columns: Seq<ColumnView>,
    spared: Seq<Seq<char>>,
    bits: u64,
) -> Seq<ColumnView> {
    Seq::new(
        columns.len(),
        |c: int|
            filled_at(
                columns[c],
                spared,
                Some((float_kind(), filled(columns[c].2, float_code(bits)))),
            ),
    )
}

/// The matrix of a table, column by column, or `None` where a column holds no numbers.
pub open spec fn read_columns(columns: Seq<ColumnView>) -> Option<Seq<Seq<int>>> {
    if forall|c: int|
        0 <= c < columns.len() ==> read_form(
            cast_form((#[trigger] columns[c]).1, columns[c].2),
        ) is Some {
        Some(
            Seq::new(
                columns.len(),
                |c: int| read_form(cast_form(columns[c].1, columns[c].2))->0,
            ),
        )
    } else {
        None
    }
}

/// Whether all columns are `Float64` but those with a spared name.
pub open spec fn float_but(columns: Seq<ColumnView>, spared: Seq<Seq<char>>) -> bool {
    forall|c: int|
        0 <= c < columns.len() && !spared.contains((#[trigger] columns[c]).0) ==> columns[c].1
            == float_kind()
}

/// `col("*")`: each column itself.
#[verifier::external_body]
pub(crate) fn expr_all() -> (e: Expr)
    ensures
        expr_formula(e) == Formula::Itself,
        expr_spared(e) == Seq::<Seq<char>>::empty(),
{
    col("*")
}

/// `Expr::exclude`: all columns but those with the given names.
#[verifier::external_body]
pub(crate) fn expr_exclude(e: Expr, names: &Vec<String>) -> (r: Expr)
    requires
        expr_formula(e) is Itself,
        expr_spared(e) == Seq::<Seq<char>>::empty(),
    ensures
        expr_formula(r) == Formula::Itself,
        expr_spared(r) == texts(names@),
{
    e.exclude(names.iter().map(|s| PlSmallStr::from_str(s)).collect::<Vec<PlSmallStr>>())
}

/// `Expr::min`: the least value.
#[verifier::external_body]
pub(crate) fn expr_min(e: Expr) -> (r: Expr)
    ensures
        expr_formula(r) == Formula::Least(Box::new(expr_formula(e))),
        expr_spared(r) == expr_spared(e),
{
    e.min()
}

/// `Expr::max`: the greatest value.
#[verifier::external_body]
pub(crate) fn expr_max(e: Expr) -> (r: Expr)
    ensures
        expr_formula(r) == Formula::Greatest(Box::new(expr_formula(e))),
        expr_spared(r) == expr_spared(e),
{
    e.max()
}

/// `-` on two expressions over the same columns: the difference.
#[verifier::external_body]
pub(crate) fn expr_sub(a: Expr, b: Expr) -> (r: Expr)
    requires
        expr_spared(a) == expr_spared(b),
    ensures
        expr_formula(r) == Formula::Minus(Box::new(expr_formula(a)), Box::new(expr_formula(b))),
        expr_spared(r) == expr_spared(a),
{
    a - b
}

/// `/` on two expressions over the same columns: the quotient.
#[verifier::external_body]
pub(crate) fn expr_div(a: Expr, b: Expr) -> (r: Expr)
    requires
        expr_spared(a) == expr_spared(b),
    ensures
        expr_formula(r) == Formula::Over(Box::new(expr_formula(a)), Box::new(expr_formula(b))),
        expr_spared(r) == expr_spared(a),
{
    a / b
}

/// `Expr::cast` to `Float64`.
#[verifier::external_body]
pub(crate) fn expr_cast(e: Expr) -> (r: Expr)
    ensures
        expr_formula(r) == Formula::Number(Box::new(expr_formula(e))),
        expr_spared(r) == expr_spared(e),
{
    e.cast(DataType::Float64)
}

/// `Expr::fill_null` with a `Float64` literal, which is given by its bits.
#[verifier::external_body]
pub(crate) fn expr_fill_null(e: Expr, bits: u64) -> (r: Expr)
    ensures
        expr_formula(r) == Formula::Filled(Box::new(expr_formula(e)), bits),
        expr_spared(r) == expr_spared(e),
{
    let number = UInt64Chunked::from_slice(PlSmallStr::EMPTY, &[bits])._reinterpret_float();
    let value: AnyValue = number.get_any_value(0).unwrap();
    e.fill_null(lit(LiteralValue::from(value)))
}

/// `LazyFrame::with_column` of an expression, collected: of each column on its own, under its
/// name, with as many rows as before. Of a settled `Float64` column the scaled form is always
/// there, is `Float64` too, and is null where the column was null; and the filled form of
/// `Float64` is always there too, and is the column with the number in place of each null. How a
/// floating-point column without any number scales is left open, for it rests on the mark of the
/// column and on the number of threads; and so is how one with a wrong mark scales, for polars
/// relies on the mark.
#[verifier::external_body]
pub(crate) fn frame_compute(df: &DataFrame, e: Expr) -> (r: Result<DataFrame, PolarsError>)
    requires
        fit(frame_columns(*df)),
        height(frame_columns(*df)) > 0,
        expr_formula(e) == min_max() || fills(expr_formula(e)),
    ensures
        r is Ok <==> computable_columns(
            frame_columns(*df),
            frame_orders(*df),
            expr_spared(e),
            expr_formula(e),
        ),
        r is Ok ==> computes_columns(
            frame_columns(*df),
            frame_orders(*df),
            expr_spared(e),
            expr_formula(e),
            frame_columns(r->Ok_0),
        ),
        expr_formula(e) == min_max() && r is Ok ==> forall|c: int|
            0 <= c < frame_columns(*df).len() && !expr_spared(e).contains(
                (#[trigger] frame_columns(*df)[c]).0,
            ) && settled(frame_columns(*df)[c].1, frame_orders(*df)[c], frame_columns(*df)[c].2)
                ==> computed(
                expr_formula(e),
                frame_columns(*df)[c].1,
                telling_mark(frame_columns(*df)[c].1, frame_orders(*df)[c]),
                frame_columns(*df)[c].2,
            ) == Some((frame_columns(r->Ok_0)[c].1, frame_columns(r->Ok_0)[c].2)),
        r is Ok ==> level(frame_columns(r->Ok_0), height(frame_columns(*df))),
        float_but(frame_columns(*df), expr_spared(e)) ==> r is Ok,
        expr_formula(e) == min_max() && r is Ok ==> forall|c: int|
            0 <= c < frame_columns(*df).len() && settled_float(
                (#[trigger] frame_columns(*df)[c]).1,
                frame_orders(*df)[c],
                frame_columns(*df)[c].2,
            ) ==> frame_columns(r->Ok_0)[c].1 == float_kind() && present(
                frame_columns(r->Ok_0)[c].2,
            ) == present(frame_columns(*df)[c].2),
        fills(expr_formula(e)) && r is Ok ==> forall|c: int|
            0 <= c < frame_columns(*df).len() && !expr_spared(e).contains(
                (#[trigger] frame_columns(*df)[c]).0,
            ) && frame_columns(*df)[c].1 == float_kind() ==> frame_columns(r->Ok_0)[c] == (
                frame_columns(*df)[c].0,
                float_kind(),
                filled(frame_columns(*df)[c].2, float_code(expr_formula(e)->Filled_1)),
            ),
{
    df.clone().lazy().with_column(e).collect()
}

/// `DataFrame::to_ndarray` of `Float64`: the columns of the matrix, each by the bits of its
/// entries. Each column is cast to `Float64`, and a null becomes NaN; a column that is not one
/// of `Float64` then is refused.
#[verifier::external_body]
pub(crate) fn frame_numbers(df: &DataFrame) -> (r: Result<Vec<Vec<u64>>, PolarsError>)
    ensures
        r is Ok <==> forall|c: int|
            0 <= c < frame_columns(*df).len() ==> read_form(
                cast_form((#[trigger] frame_columns(*df)[c]).1, frame_columns(*df)[c].2),
            ) is Some,
        r is Ok ==> matrix_codes(r->Ok_0@) == read_columns(frame_columns(*df))->0,
        all_float(frame_columns(*df), 0) ==> r is Ok,
        r is Ok ==> forall|c: int|
            0 <= c < frame_columns(*df).len() && (#[trigger] frame_columns(*df)[c]).1
                == float_kind() ==> matrix_codes(r->Ok_0@)[c] == entries(
                frame_columns(*df)[c].2,
            ),
{
    let matrix = df.to_ndarray::<Float64Type>(IndexOrder::Fortran)?;
    let columns = matrix.columns().into_iter();
    Ok(columns.map(|c| c.iter().map(|x| x.to_bits()).collect()).collect())
}

/// The formula by which features are scaled.
pub fn min_max_formula() -> (f: Formula)
    ensures
        f == min_max(),
{
    let above = Formula::Minus(
        Box::new(Formula::Itself),
        Box::new(Formula::Least(Box::new(Formula::Itself))),
    );
    let range = Formula::Minus(
        Box::new(Formula::Greatest(Box::new(Formula::Itself))),
        Box::new(Formula::Least(Box::new(Formula::Itself))),
    );
    Formula::Over(Box::new(above), Box::new(range))
}

/// The formula by which nulls are replaced by the number of the given bits.
pub fn fill_formula(bits: u64) -> (f: Formula)
    ensures
        f == as_filled(bits),
{
    Formula::Filled(Box::new(Formula::Number(Box::new(Formula::Itself))), bits)
}

/// The expression of a formula over all columns but those with the given names.
pub(crate) fn expression(f: &Formula, spared: &Vec<String>) -> (e: Expr)
    ensures
        expr_formula(e) == *f,
        expr_spared(e) == texts(spared@),
    decreases f,
{
    match f {
        Formula::Itself => expr_exclude(expr_all(), spared),
        Formula::Least(g) => expr_min(expression(g, spared)),
        Formula::Greatest(g) => expr_max(expression(g, spared)),
        Formula::Minus(a, b) => expr_sub(expression(a, spared), expression(b, spared)),
        Formula::Over(a, b) => expr_div(expression(a, spared), expression(b, spared)),
        Formula::Number(g) => expr_cast(expression(g, spared)),
        Formula::Filled(g, bits) => expr_fill_null(expression(g, spared), *bits),
    }
}

/// The table whose features are scaled. The first column is the target, of the given name.
pub(crate) fn frame_scale(df: &DataFrame, target: String) -> (r: Result<DataFrame, PolarsError>)
    requires
        fit(frame_columns(*df)),
        height(frame_columns(*df)) > 0,
        target@ == frame_columns(*df)[0].0,
    ensures
        r is Ok <==> scalable(frame_columns(*df), frame_orders(*df)),
        r matches Ok(out) ==> scales_to(
            frame_columns(*df),
            frame_orders(*df),
            frame_columns(out),
        ),
        r matches Ok(out) ==> level(frame_columns(out), height(frame_columns(*df))),
        all_float(frame_columns(*df), 1) ==> r is Ok,
        r matches Ok(out) ==> forall|c: int|
            1 <= c < frame_columns(*df).len() && settled_float(
                (#[trigger] frame_columns(*df)[c]).1,
                frame_orders(*df)[c],
                frame_columns(*df)[c].2,
            ) ==> frame_columns(out)[c].1 == float_kind() && present(frame_columns(out)[c].2)
                == present(frame_columns(*df)[c].2),
{
    let spared: Vec<String> = vec![target];
    let ghost columns = frame_columns(*df);
    assert(texts(spared@) =~= seq![columns[0].0]);
    assert(seq![columns[0].0][0] == columns[0].0);
    frame_compute(df, expression(&min_max_formula(), &spared))
}

/// The table whose columns are filled with the number of the given bits, but for those with a
/// spared name.
pub(crate) fn frame_fill(df: &DataFrame, spared: &Vec<String>, bits: u64) -> (r: Result<
    DataFrame,
    PolarsError,
>)
    requires
        fit(frame_columns(*df)),
        height(frame_columns(*df)) > 0,
    ensures
        r is Ok <==> filled_columns(frame_columns(*df), texts(spared@), bits) is Some,
        r matches Ok(out) ==> frame_columns(out) == filled_columns(
            frame_columns(*df),
            texts(spared@),
            bits,
        )->0,
        r matches Ok(out) ==> level(frame_columns(out), height(frame_columns(*df))),
        r matches Ok(out) ==> forall|c: int|
            0 <= c < frame_columns(*df).len() && !texts(spared@).contains(
                (#[trigger] frame_columns(*df)[c]).0,
            ) && frame_columns(*df)[c].1 == float_kind() ==> frame_columns(out)[c] == (
                frame_columns(*df)[c].0,
                float_kind(),
                filled(frame_columns(*df)[c].2, float_code(bits)),
            ),
        float_but(frame_columns(*df), texts(spared@)) ==> filled_columns(
            frame_columns(*df),
            texts(spared@),
            bits,
        ) == Some(number_filled(frame_columns(*df), texts(spared@), bits)),
{
    let r = frame_compute(df, expression(&fill_formula(bits), spared));
    proof {
        let columns = frame_columns(*df);
        if r is Ok {
            assert(frame_columns(r->Ok_0) =~= filled_columns(columns, texts(spared@), bits)->0);
        }
        if float_but(columns, texts(spared@)) {
            assert(filled_columns(columns, texts(spared@), bits)->0 =~= number_filled(
                columns,
                texts(spared@),
                bits,
            ));
        }
    }
    r
}

} // verus!
