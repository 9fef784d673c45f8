//! The calls into polars that read tables: what the library takes from series, data frames and
//! masks. Each function here that calls polars states what polars does without a proof.
use vstd::prelude::*;

use polars::prelude::{
    lit, AnyValue, BooleanChunked, ChunkAnyValue, Column, DataFrame, Float64Type, IntoColumn,
    IntoLazy, LiteralValue, NewChunkedArray, PlSmallStr, PolarsError, Series, UInt64Chunked,
};

use crate::views::{
    countable, fit, float_code, float_kind, has_null, height, kept_rows, level, present,
    with_constant, ColumnView,
};

verus! {

/// A column of values of one type, some of them null.
#[verifier::external_type_specification]
#[verifier::external_body]
pub struct ExSeries(Series);

/// A column of a data frame; only data frames hold one.
#[verifier::external_type_specification]
#[verifier::external_body]
pub struct ExColumn(Column);

/// A table of named columns of the same length.
#[verifier::external_type_specification]
#[verifier::external_body]
pub struct ExDataFrame(DataFrame);

/// What polars reports when it cannot do what it was asked.
#[verifier::external_type_specification]
#[verifier::external_body]
pub struct ExPolarsError(PolarsError);

/// A `BooleanChunked` without nulls: one truth value per row.
#[verifier::external_body]
pub struct Mask {
    inner: BooleanChunked,
}

/// The cells of a series from top to bottom: `None` for a null, else the number that stands
/// for the value. Within one type, equal values have the same number, as have all NaN, and
/// others have different ones. The number of a `Float64` is the `float_code` of its bits, that
/// of a `String` its `text_code`, and that of a list of `Float64` without nulls the `list_code`
/// of the numbers of its items. The number of a `Float32` is that of the `Float64` of the same
/// value.
pub uninterp spec fn series_cells(s: Series) -> Seq<Option<int>>;

/// The name of a series.
pub uninterp spec fn series_name(s: Series) -> Seq<char>;

/// The number of the type of a series: `float_kind()` for `Float64`, `text_kind()` for
/// `String`, `list_kind()` for lists of `Float64`, `single_kind()` for `Float32`, and for every
/// other type another number.
pub uninterp spec fn series_kind(s: Series) -> int;

/// The order that polars holds a series to have, `unmarked()` where it holds none.
pub uninterp spec fn series_order(s: Series) -> int;

/// The orders that polars holds the columns of a data frame to have, from left to right.
pub uninterp spec fn frame_orders(df: DataFrame) -> Seq<int>;

/// The columns of a data frame from left to right, in the terms of `series_name`,
/// `series_kind` and `series_cells`.
pub uninterp spec fn frame_columns(df: DataFrame) -> Seq<ColumnView>;

/// The truth values of a mask from top to bottom.
pub uninterp spec fn mask_rows(m: Mask) -> Seq<bool>;

/// A series as a column.
pub open spec fn series_column(s: Series) -> ColumnView {
    (series_name(s), series_kind(s), series_cells(s))
}

/// Several series as columns.
pub open spec fn series_columns(inputs: Seq<Series>) -> Seq<ColumnView> {
    Seq::new(inputs.len(), |i: int| series_column(inputs[i]))
}

/// The orders that polars holds several series to have.
pub open spec fn series_orders(inputs: Seq<Series>) -> Seq<int> {
    Seq::new(inputs.len(), |i: int| series_order(inputs[i]))
}

/// The strings of a vector.
pub open spec fn texts(strings: Seq<String>) -> Seq<Seq<char>> {
    Seq::new(strings.len(), |i: int| strings[i]@)
}

/// Whether all columns from the given one on are `Float64`.
pub open spec fn all_float(columns: Seq<ColumnView>, from: int) -> bool {
    forall|c: int| from <= c < columns.len() ==> (#[trigger] columns[c]).1 == float_kind()
}

/// `Series::len`: the number of cells.
#[verifier::external_body]
pub(crate) fn series_len(s: &Series) -> (n: usize)
    ensures
        n == series_cells(*s).len(),
{
    s.len()
}

/// `Series::name`.
#[verifier::external_body]
pub(crate) fn series_label(s: &Series) -> (name: String)
    ensures
        name@ == series_name(*s),
{
    s.name().to_string()
}

/// `Series::has_nulls`: whether a cell is null.
#[verifier::external_body]
pub(crate) fn series_has_nulls(s: &Series) -> (r: bool)
    ensures
        r == has_null(series_cells(*s)),
{
    s.has_nulls()
}

/// `SeriesTrait::unpack` to `Float64` and `ChunkedArray::get`: the bits of the number in the
/// first row, or `None` where it is null. It is an error where the series is not one of
/// `Float64`.
#[verifier::external_body]
pub(crate) fn series_first(s: &Series) -> (r: Result<Option<u64>, PolarsError>)
    requires
        series_kind(*s) == float_kind() ==> series_cells(*s).len() > 0,
    ensures
        r is Ok <==> series_kind(*s) == float_kind(),
        r is Ok ==> (r->Ok_0 is None <==> series_cells(*s)[0] is None),
        r is Ok && r->Ok_0 is Some ==> series_cells(*s)[0] == Some(float_code(r->Ok_0->0)),
{
    Ok(s.unpack::<Float64Type>()?.get(0).map(|x| x.to_bits()))
}

/// `Series::is_not_null`: the mask of the cells that are not null.
#[verifier::external_body]
pub(crate) fn series_is_not_null(s: &Series) -> (m: Mask)
    ensures
        mask_rows(m) == present(series_cells(*s)),
{
    Mask { inner: s.is_not_null() }
}

/// `&` on two `BooleanChunked`: row by row, on masks of the same length.
#[verifier::external_body]
pub(crate) fn mask_and(a: &Mask, b: &Mask) -> (m: Mask)
    requires
        mask_rows(*a).len() == mask_rows(*b).len(),
    ensures
        mask_rows(m) == Seq::new(
            mask_rows(*a).len(),
            |r: int| mask_rows(*a)[r] && mask_rows(*b)[r],
        ),
{
    Mask { inner: &a.inner & &b.inner }
}

/// `!` on a `BooleanChunked`: row by row.
#[verifier::external_body]
pub(crate) fn mask_not(a: &Mask) -> (m: Mask)
    ensures
        mask_rows(m) == Seq::new(mask_rows(*a).len(), |r: int| !mask_rows(*a)[r]),
{
    Mask { inner: !&a.inner }
}

/// `BooleanChunked::any`: whether a row is true.
#[verifier::external_body]
pub(crate) fn mask_any(a: &Mask) -> (r: bool)
    ensures
        r == mask_rows(*a).contains(true),
{
    a.inner.any()
}

/// `BooleanChunked::from_slice`: the mask of the given truth values.
#[verifier::external_body]
pub(crate) fn mask_from_slice(rows: &[bool]) -> (m: Mask)
    requires
        countable(rows@.len()),
    ensures
        mask_rows(m) == rows@,
{
    Mask { inner: BooleanChunked::from_slice(PlSmallStr::EMPTY, rows) }
}

/// `BooleanChunked::into_no_null_iter`: the truth values from top to bottom.
#[verifier::external_body]
pub(crate) fn mask_values(a: &Mask) -> (rows: Vec<bool>)
    ensures
        rows@ == mask_rows(*a),
{
    a.inner.into_no_null_iter().collect()
}

/// `DataFrame::new`: the series side by side, as they are, unless two of them have the same name
/// or their lengths differ.
#[verifier::external_body]
pub(crate) fn frame_new(inputs: &[Series]) -> (r: Result<DataFrame, PolarsError>)
    ensures
        r is Ok <==> fit(series_columns(inputs@)),
        r is Ok ==> frame_columns(r->Ok_0) == Seq::new(
            inputs@.len(),
            |i: int| (series_name(inputs@[i]), series_kind(inputs@[i]), series_cells(inputs@[i])),
        ),
        r is Ok ==> frame_orders(r->Ok_0) == Seq::new(
            inputs@.len(),
            |i: int| series_order(inputs@[i]),
        ),
{
    DataFrame::new(inputs.iter().map(|s| s.clone().into_column()).collect())
}

/// `DataFrame::is_empty`: whether the table has no column or no row.
#[verifier::external_body]
pub(crate) fn frame_is_empty(df: &DataFrame) -> (r: bool)
    ensures
        r == (height(frame_columns(*df)) == 0),
{
    df.is_empty()
}

/// `DataFrame::height`: the number of rows of a table that has a column.
#[verifier::external_body]
pub(crate) fn frame_height(df: &DataFrame) -> (n: usize)
    requires
        frame_columns(*df).len() > 0,
    ensures
        n == height(frame_columns(*df)),
{
    df.height()
}

/// `DataFrame::filter`: the rows whose place in the mask is true. It cannot fail where the
/// mask is as long as the columns are.
#[verifier::external_body]
pub(crate) fn frame_filter(df: &DataFrame, mask: &Mask) -> (r: Result<DataFrame, PolarsError>)
    requires
        frame_columns(*df).len() > 0,
        level(frame_columns(*df), mask_rows(*mask).len()),
    ensures
        r is Ok,
        frame_columns(r->Ok_0) == kept_rows(frame_columns(*df), mask_rows(*mask)),
{
    df.filter(&mask.inner)
}

/// `LazyFrame::with_column` of a literal, collected: a constant `Float64` column, which polars
/// names `literal`.
#[verifier::external_body]
pub(crate) fn frame_with_literal(df: &DataFrame, bits: u64) -> (r: Result<DataFrame, PolarsError>)
    requires
        fit(frame_columns(*df)),
    ensures
        r is Ok,
        frame_columns(r->Ok_0) == with_constant(
            frame_columns(*df),
            "literal"@,
            float_code(bits),
        ),
{
    let number = UInt64Chunked::from_slice(PlSmallStr::EMPTY, &[bits])._reinterpret_float();
    let value: AnyValue = number.get_any_value(0)?;
    df.clone().lazy().with_column(lit(LiteralValue::from(value))).collect()
}

impl Mask {
    /// The truth values from top to bottom.
    pub fn to_vec(&self) -> (rows: Vec<bool>)
        ensures
            rows@ == mask_rows(*self),
    {
        mask_values(self)
    }
}

/// The strings of a vector are its own, in order.
pub proof fn texts_are_strings(strings: Seq<String>, s: Series)
    ensures
        texts(strings).len() == strings.len(),
        forall|i: int| 0 <= i < strings.len() ==> (#[trigger] texts(strings)[i]) == strings[i]@,
        series_column(s).0 == series_name(s),
        series_column(s).1 == series_kind(s),
        series_column(s).2 == series_cells(s),
{
}

} // verus!
