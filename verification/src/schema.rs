//! The types of what the regressions return.
use vstd::prelude::*;

verus! {

/// The type of a column without fields.
#[derive(Clone, Copy, Debug, PartialEq, Eq, Structural)]
pub enum CellType {
    /// Strings.
    Text,
    /// Numbers.
    Number,
    /// Lists of numbers.
    NumberList,
}

/// A named column without fields.
#[derive(Debug)]
pub struct CellField {
    pub name: String,
    pub cells: CellType,
}

/// The type of what is returned.
#[derive(Debug)]
pub enum OutputType {
    /// A column without fields.
    Cells(CellType),
    /// A column of structs with the given fields, in order.
    Struct(Vec<CellField>),
}

/// The name and the type of what is returned.
#[derive(Debug)]
pub struct OutputField {
    pub name: String,
    pub output: OutputType,
}

/// Fields by the text of their names.
pub open spec fn fields_view(fields: Seq<CellField>) -> Seq<(Seq<char>, CellType)> {
    Seq::new(fields.len(), |i: int| (fields[i].name@, fields[i].cells))
}

/// Whether a field is a struct of the given name and fields.
pub open spec fn is_struct(
    field: OutputField,
    name: Seq<char>,
    fields: Seq<(Seq<char>, CellType)>,
) -> bool {
    field.name@ == name && (field.output matches OutputType::Struct(inner) && fields_view(inner@)
        == fields)
}

/// The fields of a report.
pub open spec fn report_schema() -> Seq<(Seq<char>, CellType)> {
    seq![
        ("features"@, CellType::Text),
        ("beta"@, CellType::Number),
        ("std_err"@, CellType::Number),
        ("t"@, CellType::Number),
        ("p>|t|"@, CellType::Number),
        ("0.025"@, CellType::Number),
        ("0.975"@, CellType::Number),
    ]
}

/// The fields of the coefficients that hold for a row and the prediction by them.
pub open spec fn coeff_pred_schema() -> Seq<(Seq<char>, CellType)> {
    seq![("coeffs"@, CellType::NumberList), ("prediction"@, CellType::Number)]
}

/// The fields of coefficients with singular values.
pub open spec fn coeff_singular_values_schema() -> Seq<(Seq<char>, CellType)> {
    seq![("coeffs"@, CellType::NumberList), ("singular_values"@, CellType::NumberList)]
}

/// A field without fields of its own.
fn cell_field(name: &str, cells: CellType) -> (f: CellField)
    ensures
        f.name@ == name@,
        f.cells == cells,
{
    CellField { name: name.to_owned(), cells }
}

/// A report: for each coefficient its feature, its estimate, standard error, t value, p value
/// and the bounds of its confidence interval.
pub fn report_output() -> (f: OutputField)
    ensures
        is_struct(f, "lstsq_report"@, report_schema()),
{
    let fields: Vec<CellField> = vec![
        cell_field("features", CellType::Text),
        cell_field("beta", CellType::Number),
        cell_field("std_err", CellType::Number),
        cell_field("t", CellType::Number),
        cell_field("p>|t|", CellType::Number),
        cell_field("0.025", CellType::Number),
        cell_field("0.975", CellType::Number),
    ];
    assert(fields_view(fields@) =~= report_schema());
    OutputField { name: "lstsq_report".to_owned(), output: OutputType::Struct(fields) }
}

/// A prediction and its residue.
pub fn pred_residue_output() -> (f: OutputField)
    ensures
        is_struct(
            f,
            "pred"@,
            seq![("pred"@, CellType::Number), ("resid"@, CellType::Number)],
        ),
{
    let fields: Vec<CellField> = vec![
        cell_field("pred", CellType::Number),
        cell_field("resid", CellType::Number),
    ];
    assert(fields_view(fields@) =~= seq![
        ("pred"@, CellType::Number),
        ("resid"@, CellType::Number),
    ]);
    OutputField { name: "pred".to_owned(), output: OutputType::Struct(fields) }
}

/// The coefficients that hold for a row and the prediction by them.
pub fn coeff_pred_output() -> (f: OutputField)
    ensures
        is_struct(f, ""@, coeff_pred_schema()),
{
    let fields: Vec<CellField> = vec![
        cell_field("coeffs", CellType::NumberList),
        cell_field("prediction", CellType::Number),
    ];
    assert(fields_view(fields@) =~= coeff_pred_schema());
    OutputField { name: "".to_owned(), output: OutputType::Struct(fields) }
}

/// The coefficients and the singular values of the matrix.
pub fn coeff_singular_values_output() -> (f: OutputField)
    ensures
        is_struct(f, ""@, coeff_singular_values_schema()),
{
    let fields: Vec<CellField> = vec![
        cell_field("coeffs", CellType::NumberList),
        cell_field("singular_values", CellType::NumberList),
    ];
    assert(fields_view(fields@) =~= coeff_singular_values_schema());
    OutputField { name: "".to_owned(), output: OutputType::Struct(fields) }
}

/// The coefficients.
pub fn coeff_output() -> (f: OutputField)
    ensures
        f.name@ == "coeffs"@,
        f.output == OutputType::Cells(CellType::NumberList),
{
    OutputField {
        name: "coeffs".to_owned(),
        output: OutputType::Cells(CellType::NumberList),
    }
}

/// A struct of given name and fields has each field in its place, with its name and its type.
pub proof fn structs_have_their_fields(
    field: OutputField,
    name: Seq<char>,
    fields: Seq<(Seq<char>, CellType)>,
)
    requires
        is_struct(field, name, fields),
    ensures
        field.name@ == name,
        field.output is Struct,
        field.output->Struct_0@.len() == fields.len(),
        forall|i: int|
            0 <= i < fields.len() ==> (#[trigger] field.output->Struct_0@[i]).name@ == fields[i].0
                && field.output->Struct_0@[i].cells == fields[i].1,
{
    let inner = field.output->Struct_0;
    assert(fields_view(inner@) == fields);
    assert forall|i: int| 0 <= i < fields.len() implies (#[trigger] inner@[i]).name@ == fields[i].0
        && inner@[i].cells == fields[i].1 by {
        assert(fields_view(inner@)[i] == fields[i]);
    }
}

/// The announced fields, name by name and type by type.
pub proof fn schemas_by_field()
    ensures
        report_schema().len() == 7,
        report_schema()[0] == ("features"@, CellType::Text),
        report_schema()[1] == ("beta"@, CellType::Number),
        report_schema()[2] == ("std_err"@, CellType::Number),
        report_schema()[3] == ("t"@, CellType::Number),
        report_schema()[4] == ("p>|t|"@, CellType::Number),
        report_schema()[5] == ("0.025"@, CellType::Number),
        report_schema()[6] == ("0.975"@, CellType::Number),
        coeff_pred_schema().len() == 2,
        coeff_pred_schema()[0] == ("coeffs"@, CellType::NumberList),
        coeff_pred_schema()[1] == ("prediction"@, CellType::Number),
        coeff_singular_values_schema().len() == 2,
        coeff_singular_values_schema()[0] == ("coeffs"@, CellType::NumberList),
        coeff_singular_values_schema()[1] == ("singular_values"@, CellType::NumberList),
{
}

} // verus!
