//! The calls into polars that write columns: series of numbers, of lists and of structs. Each
//! function here states what polars does without a proof.
use vstd::prelude::*;

use polars::prelude::{
    ChunkedBuilder, DataType, Float64Type, IntoSeries, ListBuilderTrait,
    ListPrimitiveChunkedBuilder, NewChunkedArray, PlSmallStr, PolarsError,
    PrimitiveChunkedBuilder, Series, StringChunkedBuilder, StructChunked, UInt64Chunked,
};

use crate::tables::{series_cells, series_columns, series_kind, series_name};
use crate::views::{
    countable, fields_fit, float_cells, float_code, float_codes, float_kind, list_code,
    list_kind, spread, storable, text_cells, text_kind, ColumnView,
};

verus! {

/// A `ListPrimitiveChunkedBuilder` of `Float64`, to which lists and nulls are appended one by
/// one.
#[verifier::external_body]
pub struct ListBuilder {
    inner: ListPrimitiveChunkedBuilder<Float64Type>,
}

/// A `PrimitiveChunkedBuilder` of `Float64`, to which numbers and nulls are appended one by
/// one.
#[verifier::external_body]
pub struct NumberBuilder {
    inner: PrimitiveChunkedBuilder<Float64Type>,
}

/// A `StringChunkedBuilder`, to which strings are appended one by one.
#[verifier::external_body]
pub struct TextBuilder {
    inner: StringChunkedBuilder,
}

/// The cells that were appended to a builder of lists, in order.
pub uninterp spec fn list_cells(b: ListBuilder) -> Seq<Option<int>>;

/// The name that a builder of lists gives to the series it makes.
pub uninterp spec fn list_name(b: ListBuilder) -> Seq<char>;

/// The cells that were appended to a builder of numbers, in order.
pub uninterp spec fn number_cells(b: NumberBuilder) -> Seq<Option<int>>;

/// The name that a builder of numbers gives to the series it makes.
pub uninterp spec fn number_name(b: NumberBuilder) -> Seq<char>;

/// The strings that were appended to a builder of strings, in order.
pub uninterp spec fn builder_texts(b: TextBuilder) -> Seq<Seq<char>>;

/// The name that a builder of strings gives to the series it makes.
pub uninterp spec fn builder_name(b: TextBuilder) -> Seq<char>;

/// The fields of a series of structs, in the terms of `series_name`, `series_kind` and
/// `series_cells`.
pub uninterp spec fn struct_fields(s: Series) -> Seq<ColumnView>;

/// `Float64Chunked::from_slice`: the series of the numbers with the given bits.
#[verifier::external_body]
pub(crate) fn number_series(name: &str, bits: &Vec<u64>) -> (s: Series)
    requires
        countable(bits@.len()),
    ensures
        series_name(s) == name@,
        series_kind(s) == float_kind(),
        series_cells(s) == float_cells(bits@),
{
    let numbers = UInt64Chunked::from_slice(PlSmallStr::from_str(name), bits);
    numbers._reinterpret_float().into_series()
}

/// `ListPrimitiveChunkedBuilder::new`: a builder that holds nothing yet.
#[verifier::external_body]
pub(crate) fn list_builder(name: &str) -> (b: ListBuilder)
    ensures
        list_name(b) == name@,
        list_cells(b) == Seq::<Option<int>>::empty(),
{
    let name = PlSmallStr::from_str(name);
    ListBuilder { inner: ListPrimitiveChunkedBuilder::new(name, 0, 0, DataType::Float64) }
}

/// `ListPrimitiveChunkedBuilder::append_slice`: one more list at the end.
#[verifier::external_body]
pub(crate) fn list_append(b: &mut ListBuilder, bits: &Vec<u64>)
    requires
        countable(bits@.len()),
    ensures
        list_name(*final(b)) == list_name(*old(b)),
        list_cells(*final(b)) == list_cells(*old(b)).push(Some(list_code(float_codes(bits@)))),
{
    let numbers = UInt64Chunked::from_slice(PlSmallStr::EMPTY, bits)._reinterpret_float();
    b.inner.append_slice(numbers.cont_slice().unwrap())
}

/// `ListPrimitiveChunkedBuilder::append_null`: one more null at the end.
#[verifier::external_body]
pub(crate) fn list_append_null(b: &mut ListBuilder)
    ensures
        list_name(*final(b)) == list_name(*old(b)),
        list_cells(*final(b)) == list_cells(*old(b)).push(None),
{
    b.inner.append_null()
}

/// `ListPrimitiveChunkedBuilder::finish`: the series of what was appended.
#[verifier::external_body]
pub(crate) fn list_finish(b: ListBuilder) -> (s: Series)
    requires
        countable(list_cells(b).len()),
    ensures
        series_name(s) == list_name(b),
        series_kind(s) == list_kind(),
        series_cells(s) == list_cells(b),
{
    let mut b = b;
    b.inner.finish().into_series()
}

/// `PrimitiveChunkedBuilder::new`: a builder that holds nothing yet.
#[verifier::external_body]
pub(crate) fn number_builder(name: &str) -> (b: NumberBuilder)
    ensures
        number_name(b) == name@,
        number_cells(b) == Seq::<Option<int>>::empty(),
{
    NumberBuilder { inner: PrimitiveChunkedBuilder::new(PlSmallStr::from_str(name), 0) }
}

/// `PrimitiveChunkedBuilder::append_value`: the number of the given bits at the end.
#[verifier::external_body]
pub(crate) fn number_append(b: &mut NumberBuilder, bits: u64)
    ensures
        number_name(*final(b)) == number_name(*old(b)),
        number_cells(*final(b)) == number_cells(*old(b)).push(Some(float_code(bits))),
{
    let number = UInt64Chunked::from_slice(PlSmallStr::EMPTY, &[bits])._reinterpret_float();
    b.inner.append_value(number.get(0).unwrap())
}

/// `PrimitiveChunkedBuilder::append_null`: one more null at the end.
#[verifier::external_body]
pub(crate) fn number_append_null(b: &mut NumberBuilder)
    ensures
        number_name(*final(b)) == number_name(*old(b)),
        number_cells(*final(b)) == number_cells(*old(b)).push(None),
{
    b.inner.append_null()
}

/// `PrimitiveChunkedBuilder::finish`: the series of what was appended.
#[verifier::external_body]
pub(crate) fn number_finish(b: NumberBuilder) -> (s: Series)
    requires
        countable(number_cells(b).len()),
    ensures
        series_name(s) == number_name(b),
        series_kind(s) == float_kind(),
        series_cells(s) == number_cells(b),
{
    b.inner.finish().into_series()
}

/// `StringChunkedBuilder::new`: a builder that holds nothing yet.
#[verifier::external_body]
pub(crate) fn text_builder(name: &str) -> (b: TextBuilder)
    ensures
        builder_name(b) == name@,
        builder_texts(b) == Seq::<Seq<char>>::empty(),
{
    TextBuilder { inner: StringChunkedBuilder::new(PlSmallStr::from_str(name), 0) }
}

/// `StringChunkedBuilder::append_value`: one more string at the end, which must be one that a
/// column can hold.
#[verifier::external_body]
pub(crate) fn text_append(b: &mut TextBuilder, text: &str)
    requires
        storable(text@),
    ensures
        builder_name(*final(b)) == builder_name(*old(b)),
        builder_texts(*final(b)) == builder_texts(*old(b)).push(text@),
{
    b.inner.append_value(text)
}

/// `StringChunkedBuilder::finish`: the series of what was appended.
#[verifier::external_body]
pub(crate) fn text_finish(b: TextBuilder) -> (s: Series)
    requires
        countable(builder_texts(b).len()),
    ensures
        series_name(s) == builder_name(b),
        series_kind(s) == text_kind(),
        series_cells(s) == text_cells(builder_texts(b)),
{
    b.inner.finish().into_series()
}

/// `StructChunked::from_series`: as many structs as the length says, whose fields are the given
/// series. A series with a single row is repeated; one with another length, and a name that
/// occurs twice, is an error.
#[verifier::external_body]
pub(crate) fn struct_series(name: &str, length: usize, fields: &Vec<Series>) -> (r: Result<
    Series,
    PolarsError,
>)
    requires
        countable(length as nat),
    ensures
        r is Ok <==> fields_fit(series_columns(fields@), length as nat),
        r is Ok ==> series_name(r->Ok_0) == name@,
        r is Ok ==> series_cells(r->Ok_0).len() == length,
        r is Ok ==> struct_fields(r->Ok_0) == spread(series_columns(fields@), length as nat),
{
    let structs = StructChunked::from_series(PlSmallStr::from_str(name), length, fields.iter());
    Ok(structs?.into_series())
}

} // verus!
