//! The series that the regressions return, from the numbers that were computed. Numbers are
//! given by their bits.
use vstd::prelude::*;

use polars::prelude::Series;

use crate::columns::{
    builder_name, builder_texts, list_append, list_append_null, list_builder, list_cells,
    list_finish, list_name, number_append, number_append_null, number_builder, number_cells,
    number_finish, number_name, number_series, struct_fields, struct_series, text_append,
    text_builder, text_finish,
};
use crate::error::LstsqError;
use crate::multi::{pred_column_names, pred_names, pred_names_distinct};
use crate::schema::{
    coeff_pred_schema, coeff_singular_values_schema, report_schema, CellType,
};
use crate::tables::{
    series_cells, series_column, series_columns, series_len, series_name, texts,
};
use crate::views::{
    count, countable, fields_fit, float_cells, float_code, float_codes, float_kind, list_code,
    list_kind, names_of, spread, storable, text_cells, text_code, text_kind, ColumnView,
};
use crate::windows::FittedRow;

verus! {

/// The columns of a report, one number for each coefficient in each.
#[derive(Debug)]
pub struct ReportColumns {
    pub beta: Vec<u64>,
    pub std_err: Vec<u64>,
    pub t: Vec<u64>,
    pub p: Vec<u64>,
    pub ci_lower: Vec<u64>,
    pub ci_upper: Vec<u64>,
}

/// Whether each column of a report can be a column of a series.
pub open spec fn report_countable(columns: ReportColumns) -> bool {
    &&& countable(columns.beta@.len())
    &&& countable(columns.std_err@.len())
    &&& countable(columns.t@.len())
    &&& countable(columns.p@.len())
    &&& countable(columns.ci_lower@.len())
    &&& countable(columns.ci_upper@.len())
}

/// A column of numbers.
pub open spec fn number_column(name: Seq<char>, bits: Seq<u64>) -> ColumnView {
    (name, float_kind(), float_cells(bits))
}

/// A column of lists of numbers with a single row.
pub open spec fn list_column(name: Seq<char>, bits: Seq<u64>) -> ColumnView {
    (name, list_kind(), seq![Some(list_code(float_codes(bits)))])
}

/// The fields of a report, before those with a single row are repeated.
pub open spec fn report_fields(names: Seq<Seq<char>>, columns: ReportColumns) -> Seq<ColumnView> {
    seq![
        ("features"@, text_kind(), text_cells(names)),
        number_column("beta"@, columns.beta@),
        number_column("std_err"@, columns.std_err@),
        number_column("t"@, columns.t@),
        number_column("p>|t|"@, columns.p@),
        number_column("0.025"@, columns.ci_lower@),
        number_column("0.975"@, columns.ci_upper@),
    ]
}

/// The names of the coefficients as a series.
fn features_series(names: &Vec<String>) -> (s: Series)
    requires
        countable(names@.len()),
        forall|i: int| 0 <= i < names@.len() ==> storable((#[trigger] names@[i])@),
    ensures
        series_column(s) == ("features"@, text_kind(), text_cells(texts(names@))),
{
    let mut builder = text_builder("features");
    let mut i: usize = 0;
    while i < names.len()
        invariant
            i <= names@.len(),
            forall|i: int| 0 <= i < names@.len() ==> storable((#[trigger] names@[i])@),
            builder_name(builder) == "features"@,
            builder_texts(builder) == texts(names@).take(i as int),
        decreases names@.len() - i,
    {
        text_append(&mut builder, names[i].as_str());
        assert(builder_texts(builder) =~= texts(names@).take(i + 1));
        i = i + 1;
    }
    assert(texts(names@).take(i as int) =~= texts(names@));
    text_finish(builder)
}

/// A report: the names of the coefficients, and a column for each number about them. Polars
/// reports an error where a column is neither as long as the names nor a single number.
pub fn report_series(names: &Vec<String>, columns: &ReportColumns) -> (r: Result<
    Series,
    LstsqError,
>)
    requires
        countable(names@.len()),
        forall|i: int| 0 <= i < names@.len() ==> storable((#[trigger] names@[i])@),
        report_countable(*columns),
    ensures
        ({
            let fields = report_fields(texts(names@), *columns);
            if fields_fit(fields, names@.len()) {
                r matches Ok(s) && series_name(s) == "lstsq_report"@ && series_cells(s).len()
                    == names@.len() && struct_fields(s) == spread(fields, names@.len())
            } else {
                r matches Err(e) && e is Polars
            }
        }),
{
    let features = features_series(names);
    let length = series_len(&features);
    let mut fields: Vec<Series> = Vec::new();
    fields.push(features);
    fields.push(number_series("beta", &columns.beta));
    fields.push(number_series("std_err", &columns.std_err));
    fields.push(number_series("t", &columns.t));
    fields.push(number_series("p>|t|", &columns.p));
    fields.push(number_series("0.025", &columns.ci_lower));
    fields.push(number_series("0.975", &columns.ci_upper));
    assert(series_columns(fields@) =~= report_fields(texts(names@), *columns));
    match struct_series("lstsq_report", length, &fields) {
        Err(e) => Err(LstsqError::Polars(e)),
        Ok(s) => Ok(s),
    }
}

/// A series of lists with a single row.
fn one_list(name: &str, bits: &Vec<u64>) -> (s: Series)
    requires
        countable(bits@.len()),
    ensures
        series_column(s) == list_column(name@, bits@),
{
    let mut builder = list_builder(name);
    list_append(&mut builder, bits);
    assert(list_cells(builder) =~= seq![Some(list_code(float_codes(bits@)))]);
    list_finish(builder)
}

/// The coefficients of a regression as a single list, or no list where there was no fit.
pub fn coeff_series(coeffs: Option<Vec<u64>>) -> (s: Series)
    requires
        coeffs matches Some(bits) ==> countable(bits@.len()),
    ensures
        match coeffs {
            Some(bits) => series_column(s) == list_column("coeffs"@, bits@),
            None => series_column(s) == ("coeffs"@, list_kind(), Seq::<Option<int>>::empty()),
        },
{
    match coeffs {
        Some(bits) => one_list("coeffs", &bits),
        None => list_finish(list_builder("coeffs")),
    }
}

/// The coefficients of a regression and the singular values of its matrix, as a list each.
pub fn coeff_singular_values_series(coeffs: &Vec<u64>, singular_values: &Vec<u64>) -> (r: Result<
    Series,
    LstsqError,
>)
    requires
        countable(coeffs@.len()),
        countable(singular_values@.len()),
    ensures
        r matches Ok(s) && series_name(s) == ""@ && series_cells(s).len() == 1 && struct_fields(s)
            == seq![
            list_column("coeffs"@, coeffs@),
            list_column("singular_values"@, singular_values@),
        ],
{
    let fields: Vec<Series> = vec![
        one_list("coeffs", coeffs),
        one_list("singular_values", singular_values),
    ];
    let ghost wanted = seq![
        list_column("coeffs"@, coeffs@),
        list_column("singular_values"@, singular_values@),
    ];
    assert(series_columns(fields@) =~= wanted);
    proof {
        reveal_strlit("coeffs");
        reveal_strlit("singular_values");
        assert("coeffs"@.len() != "singular_values"@.len());
        assert(names_of(wanted).no_duplicates());
        assert(spread(wanted, 1) =~= wanted);
    }
    match struct_series("", 1, &fields) {
        Err(e) => Err(LstsqError::Polars(e)),
        Ok(s) => Ok(s),
    }
}

/// The coefficients of each of several targets, as a list under its name.
pub open spec fn target_lists(names: Seq<Seq<char>>, coeffs: Seq<Vec<u64>>) -> Seq<ColumnView> {
    Seq::new(names.len(), |i: int| list_column(names[i], coeffs[i]@))
}

/// The coefficients of a regression with several targets: for each of `rows` rows, the list of
/// each target under the name of the target.
pub fn multi_coeff_series(names: &Vec<String>, coeffs: &Vec<Vec<u64>>, rows: usize) -> (r: Result<
    Series,
    LstsqError,
>)
    requires
        names@.len() <= coeffs@.len(),
        texts(names@).no_duplicates(),
        countable(rows as nat),
        forall|i: int| 0 <= i < names@.len() ==> countable((#[trigger] coeffs@[i])@.len()),
    ensures
        r matches Ok(s) && series_name(s) == "coeffs"@ && series_cells(s).len() == rows
            && struct_fields(s) == spread(target_lists(texts(names@), coeffs@), rows as nat),
{
    let ghost wanted = target_lists(texts(names@), coeffs@);
    let mut fields: Vec<Series> = Vec::new();
    let mut i: usize = 0;
    while i < names.len()
        invariant
            i <= names@.len() <= coeffs@.len(),
            forall|i: int| 0 <= i < names@.len() ==> countable((#[trigger] coeffs@[i])@.len()),
            wanted == target_lists(texts(names@), coeffs@),
            fields@.len() == i,
            forall|k: int| 0 <= k < i ==> series_column(#[trigger] fields@[k]) == wanted[k],
        decreases names@.len() - i,
    {
        fields.push(one_list(names[i].as_str(), &coeffs[i]));
        i = i + 1;
    }
    assert(series_columns(fields@) =~= wanted);
    assert(names_of(wanted) =~= texts(names@));
    match struct_series("coeffs", rows, &fields) {
        Err(e) => Err(LstsqError::Polars(e)),
        Ok(s) => Ok(s),
    }
}

/// The predictions and the residues of several targets, in the order of their columns.
pub open spec fn pred_columns(
    names: Seq<Seq<char>>,
    preds: Seq<Vec<u64>>,
    resids: Seq<Vec<u64>>,
) -> Seq<ColumnView> {
    Seq::new(
        2 * names.len(),
        |i: int|
            number_column(
                pred_names(names)[i],
                if i % 2 == 0 {
                    preds[i / 2]@
                } else {
                    resids[i / 2]@
                },
            ),
    )
}

/// The predictions and the residues of a regression with several targets on `rows` rows: two
/// columns for each target.
pub fn multi_pred_series(
    names: &Vec<String>,
    preds: &Vec<Vec<u64>>,
    resids: &Vec<Vec<u64>>,
    rows: usize,
) -> (r: Result<Series, LstsqError>)
    requires
        names@.len() <= preds@.len(),
        names@.len() <= resids@.len(),
        texts(names@).no_duplicates(),
        countable(rows as nat),
        forall|i: int| 0 <= i < names@.len() ==> (#[trigger] preds@[i])@.len() == rows,
        forall|i: int| 0 <= i < names@.len() ==> (#[trigger] resids@[i])@.len() == rows,
    ensures
        r matches Ok(s) && series_name(s) == "all_preds"@ && series_cells(s).len() == rows
            && struct_fields(s) == pred_columns(texts(names@), preds@, resids@),
        forall|k: int, i: int|
            0 <= k < names@.len() && 0 <= i < rows ==> (#[trigger] struct_fields(r->Ok_0)[2
                * k].2[i]) == Some(float_code(preds@[k]@[i])),
        forall|k: int, i: int|
            0 <= k < names@.len() && 0 <= i < rows ==> (#[trigger] struct_fields(r->Ok_0)[2 * k
                + 1].2[i]) == Some(float_code(resids@[k]@[i])),
{
    let ghost wanted = pred_columns(texts(names@), preds@, resids@);
    let labels = pred_column_names(names);
    let mut fields: Vec<Series> = Vec::new();
    let mut i: usize = 0;
    while i < names.len()
        invariant
            i <= names@.len() <= preds@.len(),
            names@.len() <= resids@.len(),
            countable(rows as nat),
            forall|i: int| 0 <= i < names@.len() ==> (#[trigger] preds@[i])@.len() == rows,
            forall|i: int| 0 <= i < names@.len() ==> (#[trigger] resids@[i])@.len() == rows,
            wanted == pred_columns(texts(names@), preds@, resids@),
            texts(labels@) == pred_names(texts(names@)),
            fields@.len() == 2 * i,
            forall|k: int| 0 <= k < 2 * i ==> series_column(#[trigger] fields@[k]) == wanted[k],
        decreases names@.len() - i,
    {
        assert(labels@.len() == texts(labels@).len());
        assert(labels@[2 * i]@ == texts(labels@)[2 * i]);
        assert(labels@[2 * i + 1]@ == texts(labels@)[2 * i + 1]);
        let at: usize = fields.len();
        fields.push(number_series(labels[at].as_str(), &preds[i]));
        fields.push(number_series(labels[at + 1].as_str(), &resids[i]));
        i = i + 1;
    }
    assert(series_columns(fields@) =~= wanted);
    proof {
        pred_names_distinct(texts(names@));
        assert(names_of(wanted) =~= pred_names(texts(names@)));
        assert(spread(wanted, rows as nat) =~= wanted);
        assert forall|k: int, i: int| 0 <= k < names@.len() && 0 <= i < rows implies (
        #[trigger] wanted[2 * k].2[i]) == Some(float_code(preds@[k]@[i])) by {
            residues_stand_behind_predictions(texts(names@), preds@, resids@, k);
        }
        assert forall|k: int, i: int| 0 <= k < names@.len() && 0 <= i < rows implies (
        #[trigger] wanted[2 * k + 1].2[i]) == Some(float_code(resids@[k]@[i])) by {
            residues_stand_behind_predictions(texts(names@), preds@, resids@, k);
        }
    }
    match struct_series("all_preds", rows, &fields) {
        Err(e) => Err(LstsqError::Polars(e)),
        Ok(s) => Ok(s),
    }
}

/// The number of rows among the first `r` that show a fit.
pub open spec fn fits_before(rows: Seq<Option<FittedRow>>, r: int) -> int
    decreases r,
{
    if r <= 0 {
        0
    } else {
        fits_before(rows, r - 1) + if rows[r - 1] is Some {
            1int
        } else {
            0
        }
    }
}

/// The column of the coefficients that hold for each row.
pub open spec fn coeff_cells(rows: Seq<Option<FittedRow>>, coeffs: Seq<Vec<u64>>) -> Seq<
    Option<int>,
> {
    Seq::new(
        rows.len(),
        |r: int|
            match rows[r] {
                None => None,
                Some(at) => Some(list_code(float_codes(coeffs[at.coeffs as int]@))),
            },
    )
}

/// The column of the predictions for each row, which are given for the rows with a fit only.
pub open spec fn pred_cells(rows: Seq<Option<FittedRow>>, preds: Seq<u64>) -> Seq<Option<int>> {
    Seq::new(
        rows.len(),
        |r: int|
            match rows[r] {
                None => None,
                Some(_) => Some(float_code(preds[fits_before(rows, r)])),
            },
    )
}

/// The number of rows that show a fit never falls.
proof fn fits_before_grows(rows: Seq<Option<FittedRow>>, r: int, s: int)
    requires
        0 <= r <= s <= rows.len(),
    ensures
        0 <= fits_before(rows, r) <= fits_before(rows, s),
    decreases s,
{
    if s > 0 {
        if r < s {
            fits_before_grows(rows, r, s - 1);
        } else {
            fits_before_grows(rows, s - 1, s - 1);
        }
    }
}

/// The output of a fit that moves along the rows: for each row the coefficients that hold for
/// it and the prediction by them, or nulls. The predictions are those of the rows with a fit,
/// in order.
pub fn coeff_pred_series(
    rows: &Vec<Option<FittedRow>>,
    coeffs: &Vec<Vec<u64>>,
    preds: &Vec<u64>,
) -> (r: Result<Series, LstsqError>)
    requires
        forall|i: int|
            0 <= i < rows@.len() ==> ((#[trigger] rows@[i]) matches Some(at) ==> at.coeffs
                < coeffs@.len()),
        fits_before(rows@, rows@.len() as int) <= preds@.len(),
        countable(rows@.len()),
        forall|i: int| 0 <= i < coeffs@.len() ==> countable((#[trigger] coeffs@[i])@.len()),
    ensures
        r matches Ok(s) && series_name(s) == ""@ && series_cells(s).len() == rows@.len()
            && struct_fields(s) == seq![
            ("coeffs"@, list_kind(), coeff_cells(rows@, coeffs@)),
            ("prediction"@, float_kind(), pred_cells(rows@, preds@)),
        ],
{
    let mut lists = list_builder("coeffs");
    let mut numbers = number_builder("prediction");
    let given = preds.len();
    let mut fit: usize = 0;
    let mut i: usize = 0;
    while i < rows.len()
        invariant
            i <= rows@.len(),
            fit == fits_before(rows@, i as int),
            forall|i: int|
                0 <= i < rows@.len() ==> ((#[trigger] rows@[i]) matches Some(at) ==> at.coeffs
                    < coeffs@.len()),
            fits_before(rows@, rows@.len() as int) <= preds@.len() == given,
            forall|i: int| 0 <= i < coeffs@.len() ==> countable((#[trigger] coeffs@[i])@.len()),
            list_name(lists) == "coeffs"@,
            list_cells(lists) == coeff_cells(rows@, coeffs@).take(i as int),
            number_name(numbers) == "prediction"@,
            number_cells(numbers) == pred_cells(rows@, preds@).take(i as int),
        decreases rows@.len() - i,
    {
        proof {
            fits_before_grows(rows@, i + 1, rows@.len() as int);
        }
        match rows[i] {
            None => {
                list_append_null(&mut lists);
                number_append_null(&mut numbers);
            },
            Some(at) => {
                list_append(&mut lists, &coeffs[at.coeffs]);
                number_append(&mut numbers, preds[fit]);
                fit = fit + 1;
            },
        }
        assert(list_cells(lists) =~= coeff_cells(rows@, coeffs@).take(i + 1));
        assert(number_cells(numbers) =~= pred_cells(rows@, preds@).take(i + 1));
        i = i + 1;
    }
    assert(coeff_cells(rows@, coeffs@).take(i as int) =~= coeff_cells(rows@, coeffs@));
    assert(pred_cells(rows@, preds@).take(i as int) =~= pred_cells(rows@, preds@));
    let lists = list_finish(lists);
    let length = series_len(&lists);
    let fields: Vec<Series> = vec![lists, number_finish(numbers)];
    let ghost wanted = seq![
        ("coeffs"@, list_kind(), coeff_cells(rows@, coeffs@)),
        ("prediction"@, float_kind(), pred_cells(rows@, preds@)),
    ];
    assert(series_columns(fields@) =~= wanted);
    proof {
        reveal_strlit("coeffs");
        reveal_strlit("prediction");
        assert("coeffs"@.len() != "prediction"@.len());
        assert(names_of(wanted).no_duplicates());
        assert(spread(wanted, length as nat) =~= wanted);
    }
    match struct_series("", length, &fields) {
        Err(e) => Err(LstsqError::Polars(e)),
        Ok(s) => Ok(s),
    }
}

/// The number of the type of a column without fields.
pub open spec fn cell_kind(cells: CellType) -> int {
    match cells {
        CellType::Text => text_kind(),
        CellType::Number => float_kind(),
        CellType::NumberList => list_kind(),
    }
}

/// Whether columns have the names and the types of the given fields, in order.
pub open spec fn of_schema(
    columns: Seq<ColumnView>,
    schema: Seq<(Seq<char>, CellType)>,
) -> bool {
    columns.len() == schema.len() && forall|i: int|
        0 <= i < schema.len() ==> (#[trigger] columns[i]).0 == schema[i].0 && columns[i].1
            == cell_kind(schema[i].1)
}

/// A report has the fields that its type announces; and where each of its columns has a number
/// for each of the names, no two fields share a name and the columns are the fields as they
/// are.
pub proof fn report_has_its_schema(names: Seq<Seq<char>>, columns: ReportColumns)
    ensures
        of_schema(spread(report_fields(names, columns), names.len()), report_schema()),
        columns.beta@.len() == names.len() && columns.std_err@.len() == names.len()
            && columns.t@.len() == names.len() && columns.p@.len() == names.len()
            && columns.ci_lower@.len() == names.len() && columns.ci_upper@.len() == names.len()
            ==> fields_fit(report_fields(names, columns), names.len()) && spread(
            report_fields(names, columns),
            names.len(),
        ) == report_fields(names, columns),
{
    let fields = report_fields(names, columns);
    report_labels_differ(names, columns);
    if columns.beta@.len() == names.len() && columns.std_err@.len() == names.len()
        && columns.t@.len() == names.len() && columns.p@.len() == names.len()
        && columns.ci_lower@.len() == names.len() && columns.ci_upper@.len() == names.len() {
        assert(spread(fields, names.len()) =~= fields);
    }
}

/// The output of a fit that moves along the rows has the fields that its type announces.
pub proof fn coeff_pred_has_its_schema(
    rows: Seq<Option<FittedRow>>,
    coeffs: Seq<Vec<u64>>,
    preds: Seq<u64>,
)
    ensures
        of_schema(
            seq![
                ("coeffs"@, list_kind(), coeff_cells(rows, coeffs)),
                ("prediction"@, float_kind(), pred_cells(rows, preds)),
            ],
            coeff_pred_schema(),
        ),
{
}

/// Coefficients with singular values have the fields that their type announces.
pub proof fn coeff_singular_values_have_their_schema(coeffs: Seq<u64>, singular_values: Seq<u64>)
    ensures
        of_schema(
            seq![
                list_column("coeffs"@, coeffs),
                list_column("singular_values"@, singular_values),
            ],
            coeff_singular_values_schema(),
        ),
{
}

/// A column of numbers has its name and the numbers in order, and a list stands in a single row.
pub proof fn columns_by_row(name: Seq<char>, bits: Seq<u64>, texts: Seq<Seq<char>>)
    ensures
        number_column(name, bits).0 == name,
        number_column(name, bits).1 == 0,
        number_column(name, bits).2.len() == bits.len(),
        forall|r: int|
            0 <= r < bits.len() ==> (#[trigger] number_column(name, bits).2[r]) == Some(
                float_code(bits[r]),
            ),
        list_column(name, bits).0 == name,
        list_column(name, bits).1 == 2,
        list_column(name, bits).2.len() == 1,
        list_column(name, bits).2[0] == Some(
            list_code(Seq::new(bits.len(), |i: int| float_code(bits[i]))),
        ),
        text_cells(texts).len() == texts.len(),
        forall|r: int|
            0 <= r < texts.len() ==> (#[trigger] text_cells(texts)[r]) == Some(
                text_code(texts[r]),
            ),
{
    assert(float_codes(bits) =~= Seq::new(bits.len(), |i: int| float_code(bits[i])));
}

/// Of a regression with several targets, the columns come in pairs, in the order of the targets:
/// the predictions of a target under its name and `_pred`, and behind them its own residues under
/// its name and `_resid`, both row by row.
pub proof fn residues_stand_behind_predictions(
    names: Seq<Seq<char>>,
    preds: Seq<Vec<u64>>,
    resids: Seq<Vec<u64>>,
    k: int,
)
    requires
        0 <= k < names.len(),
    ensures
        pred_columns(names, preds, resids).len() == 2 * names.len(),
        pred_columns(names, preds, resids)[2 * k].0 == names[k] + "_pred"@,
        pred_columns(names, preds, resids)[2 * k].1 == 0,
        pred_columns(names, preds, resids)[2 * k].2.len() == preds[k]@.len(),
        forall|r: int|
            0 <= r < preds[k]@.len() ==> (#[trigger] pred_columns(names, preds, resids)[2
                * k].2[r]) == Some(float_code(preds[k]@[r])),
        pred_columns(names, preds, resids)[2 * k + 1].0 == names[k] + "_resid"@,
        pred_columns(names, preds, resids)[2 * k + 1].1 == 0,
        pred_columns(names, preds, resids)[2 * k + 1].2.len() == resids[k]@.len(),
        forall|r: int|
            0 <= r < resids[k]@.len() ==> (#[trigger] pred_columns(names, preds, resids)[2 * k
                + 1].2[r]) == Some(float_code(resids[k]@[r])),
{
    assert((2 * k) / 2 == k && (2 * k) % 2 == 0);
    assert((2 * k + 1) / 2 == k && (2 * k + 1) % 2 == 1);
}

/// Columns are the fields of structs exactly where no two have the same name and each has a row
/// for each struct, or a single one.
pub proof fn fields_by_name_and_length(fields: Seq<ColumnView>, length: nat)
    ensures
        fields_fit(fields, length) <==> (forall|i: int, j: int|
            0 <= i < j < fields.len() ==> (#[trigger] fields[i]).0 != (#[trigger] fields[j]).0)
            && (forall|c: int|
            0 <= c < fields.len() ==> (#[trigger] fields[c]).2.len() == length
                || fields[c].2.len() == 1),
{
    let names = names_of(fields);
    if fields_fit(fields, length) {
        assert forall|i: int, j: int| 0 <= i < j < fields.len() implies (#[trigger] fields[i]).0
            != (#[trigger] fields[j]).0 by {
            assert(names[i] != names[j]);
        }
    }
    if forall|i: int, j: int|
        0 <= i < j < fields.len() ==> (#[trigger] fields[i]).0 != (#[trigger] fields[j]).0 {
        assert forall|i: int, j: int|
            0 <= i < names.len() && 0 <= j < names.len() && i != j implies names[i]
            != names[j] by {
            if i < j {
                assert(fields[i].0 != fields[j].0);
            } else {
                assert(fields[j].0 != fields[i].0);
            }
        }
    }
}

/// The row of a column that stands in row `r` of a report: the same one, or the only one.
pub open spec fn report_row(bits: Seq<u64>, length: nat, r: int) -> Option<int> {
    Some(
        float_code(
            bits[if bits.len() == length {
                r
            } else {
                0
            }],
        ),
    )
}

/// There is a report exactly where each of its columns has a number for each name, or a single
/// one. Each may have less than the greatest 32-bit number of rows.
pub proof fn report_by_length(names: Seq<Seq<char>>, columns: ReportColumns)
    ensures
        fields_fit(report_fields(names, columns), names.len()) <==> {
            &&& columns.beta@.len() == names.len() || columns.beta@.len() == 1
            &&& columns.std_err@.len() == names.len() || columns.std_err@.len() == 1
            &&& columns.t@.len() == names.len() || columns.t@.len() == 1
            &&& columns.p@.len() == names.len() || columns.p@.len() == 1
            &&& columns.ci_lower@.len() == names.len() || columns.ci_lower@.len() == 1
            &&& columns.ci_upper@.len() == names.len() || columns.ci_upper@.len() == 1
        },
        report_countable(columns) <==> {
            &&& columns.beta@.len() < 0xffff_ffff
            &&& columns.std_err@.len() < 0xffff_ffff
            &&& columns.t@.len() < 0xffff_ffff
            &&& columns.p@.len() < 0xffff_ffff
            &&& columns.ci_lower@.len() < 0xffff_ffff
            &&& columns.ci_upper@.len() < 0xffff_ffff
        },
{
    let fields = report_fields(names, columns);
    report_labels_differ(names, columns);
    assert(fields[0].2.len() == names.len());
    assert(fields[1].2.len() == columns.beta@.len());
    assert(fields[2].2.len() == columns.std_err@.len());
    assert(fields[3].2.len() == columns.t@.len());
    assert(fields[4].2.len() == columns.p@.len());
    assert(fields[5].2.len() == columns.ci_lower@.len());
    assert(fields[6].2.len() == columns.ci_upper@.len());
}

/// A report, field by field and row by row: the name of each coefficient, and its estimate, its
/// standard error, its t value, its p value and the bounds of its confidence interval. A column
/// with a single number has it in each row.
pub proof fn report_by_field(names: Seq<Seq<char>>, columns: ReportColumns)
    requires
        fields_fit(report_fields(names, columns), names.len()),
    ensures
        ({
            let fields = spread(report_fields(names, columns), names.len());
            let n = names.len();
            &&& fields.len() == 7
            &&& forall|c: int| 0 <= c < 7 ==> (#[trigger] fields[c]).2.len() == n
            &&& forall|c: int| 1 <= c < 7 ==> (#[trigger] fields[c]).1 == 0
            &&& fields[0].1 == 1
            &&& fields[0].0 == "features"@ && fields[1].0 == "beta"@
            &&& fields[2].0 == "std_err"@ && fields[3].0 == "t"@
            &&& fields[4].0 == "p>|t|"@ && fields[5].0 == "0.025"@ && fields[6].0 == "0.975"@
            &&& forall|r: int|
                0 <= r < n ==> (#[trigger] fields[0].2[r]) == Some(text_code(names[r]))
            &&& forall|r: int|
                0 <= r < n ==> (#[trigger] fields[1].2[r]) == report_row(columns.beta@, n, r)
            &&& forall|r: int|
                0 <= r < n ==> (#[trigger] fields[2].2[r]) == report_row(columns.std_err@, n, r)
            &&& forall|r: int|
                0 <= r < n ==> (#[trigger] fields[3].2[r]) == report_row(columns.t@, n, r)
            &&& forall|r: int|
                0 <= r < n ==> (#[trigger] fields[4].2[r]) == report_row(columns.p@, n, r)
            &&& forall|r: int|
                0 <= r < n ==> (#[trigger] fields[5].2[r]) == report_row(columns.ci_lower@, n, r)
            &&& forall|r: int|
                0 <= r < n ==> (#[trigger] fields[6].2[r]) == report_row(columns.ci_upper@, n, r)
        }),
{
    report_by_length(names, columns);
}

/// No two fields of a report have the same name.
proof fn report_labels_differ(names: Seq<Seq<char>>, columns: ReportColumns)
    ensures
        names_of(report_fields(names, columns)).no_duplicates(),
{
    reveal_strlit("features");
    reveal_strlit("beta");
    reveal_strlit("std_err");
    reveal_strlit("t");
    reveal_strlit("p>|t|");
    reveal_strlit("0.025");
    reveal_strlit("0.975");
    let labels = names_of(report_fields(names, columns));
    assert(labels[0].len() == 8 && labels[1].len() == 4 && labels[2].len() == 7
        && labels[3].len() == 1);
    assert(labels[4].len() == 5 && labels[5].len() == 5 && labels[6].len() == 5);
    assert(labels[4][0] == 'p' && labels[5][0] == '0' && labels[6][0] == '0');
    assert(labels[5][2] == '0' && labels[6][2] == '9');
    assert forall|i: int, j: int| 0 <= i < 7 && 0 <= j < 7 && i != j implies labels[i]
        != labels[j] by {
        assert(i == 0 || i == 1 || i == 2 || i == 3 || i == 4 || i == 5 || i == 6);
        assert(j == 0 || j == 1 || j == 2 || j == 3 || j == 4 || j == 5 || j == 6);
    }
}

/// The coefficients of several targets stand under the names of the targets, in order, as lists
/// of their own, the same one in each row.
pub proof fn coefficients_by_target(
    names: Seq<Seq<char>>,
    coeffs: Seq<Vec<u64>>,
    rows: nat,
    k: int,
)
    requires
        names.len() <= coeffs.len(),
        0 <= k < names.len(),
    ensures
        ({
            let fields = spread(target_lists(names, coeffs), rows);
            &&& fields.len() == names.len()
            &&& fields[k].0 == names[k]
            &&& fields[k].1 == 2
            &&& fields[k].2.len() == rows
            &&& forall|r: int|
                0 <= r < rows ==> (#[trigger] fields[k].2[r]) == Some(
                    list_code(Seq::new(coeffs[k]@.len(), |i: int| float_code(coeffs[k]@[i]))),
                )
        }),
{
    columns_by_row(names[k], coeffs[k]@, names);
}

/// The output of a fit that moves along the rows, row by row: a row without a fit has two nulls;
/// any other one has the coefficients of its own fit, and the prediction whose number is that of
/// the rows with a fit before it.
pub proof fn fits_by_row(
    rows: Seq<Option<FittedRow>>,
    coeffs: Seq<Vec<u64>>,
    preds: Seq<u64>,
    shown: Seq<bool>,
    r: int,
)
    requires
        shown.len() == rows.len(),
        forall|k: int| 0 <= k < rows.len() ==> (#[trigger] shown[k]) == (rows[k] is Some),
        0 <= r < rows.len(),
    ensures
        coeff_cells(rows, coeffs).len() == rows.len(),
        pred_cells(rows, preds).len() == rows.len(),
        rows[r] is None ==> coeff_cells(rows, coeffs)[r] is None && pred_cells(rows, preds)[r]
            is None,
        rows[r] matches Some(at) ==> coeff_cells(rows, coeffs)[r] == Some(
            list_code(
                Seq::new(
                    coeffs[at.coeffs as int]@.len(),
                    |i: int| float_code(coeffs[at.coeffs as int]@[i]),
                ),
            ),
        ) && pred_cells(rows, preds)[r] == Some(float_code(preds[count(shown.take(r)) as int])),
{
    fits_are_counted(rows, shown, r);
    if rows[r] is Some {
        let at = rows[r]->0;
        columns_by_row(Seq::empty(), coeffs[at.coeffs as int]@, Seq::empty());
    }
}

/// The rows with a fit are counted as the true places of the mask that marks them.
pub proof fn fits_are_counted(rows: Seq<Option<FittedRow>>, shown: Seq<bool>, r: int)
    requires
        shown.len() == rows.len(),
        forall|k: int| 0 <= k < rows.len() ==> (#[trigger] shown[k]) == (rows[k] is Some),
        0 <= r <= rows.len(),
    ensures
        fits_before(rows, r) == count(shown.take(r)),
    decreases r,
{
    if r > 0 {
        fits_are_counted(rows, shown, r - 1);
        assert(shown.take(r).drop_last() =~= shown.take(r - 1));
        assert(shown.take(r).last() == shown[r - 1]);
    }
}

/// Types of columns are told apart by their numbers, and columns of given names and types have
/// them in order.
pub proof fn columns_of_a_schema(
    columns: Seq<ColumnView>,
    schema: Seq<(Seq<char>, CellType)>,
    cells: CellType,
)
    requires
        of_schema(columns, schema),
    ensures
        columns.len() == schema.len(),
        forall|i: int|
            0 <= i < schema.len() ==> (#[trigger] columns[i]).0 == schema[i].0 && columns[i].1
                == match schema[i].1 {
                CellType::Number => 0int,
                CellType::Text => 1,
                CellType::NumberList => 2,
            },
        cell_kind(cells) == match cells {
            CellType::Number => 0int,
            CellType::Text => 1,
            CellType::NumberList => 2,
        },
{
}

} // verus!
