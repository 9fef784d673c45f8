use num_ext::entropy::{
    entropy_exists, entropy_matrix, entropy_series, entropy_windows, EntropyWindows, Window,
};
use num_ext::error::LstsqError;
use num_ext::output::{
    coeff_pred_series, coeff_series, coeff_singular_values_series, multi_coeff_series,
    multi_pred_series, report_series, ReportColumns,
};
use num_ext::policy::NullPolicy;
use num_ext::report::{degrees_of_freedom, feature_labels, report_matrix};
use num_ext::schema::{
    coeff_output, coeff_pred_output, coeff_singular_values_output, pred_residue_output,
    report_output, CellType, OutputField, OutputType,
};
use num_ext::windows::FittedRow;
use polars::prelude::{DataType, NamedFrom, Series};

fn numbers(cells: &[f64]) -> Vec<u64> {
    cells.iter().map(|x| x.to_bits()).collect()
}

fn series(name: &str, cells: &[f64]) -> Series {
    Series::new(name.into(), cells.to_vec())
}

fn fields(s: &Series) -> Vec<Series> {
    s.struct_().unwrap().fields_as_series()
}

fn names(all: &[Series]) -> Vec<String> {
    all.iter().map(|s| s.name().to_string()).collect()
}

fn cells(s: &Series) -> Vec<Option<f64>> {
    s.f64().unwrap().into_iter().collect()
}

fn lists(s: &Series) -> Vec<Option<Vec<Option<f64>>>> {
    s.list().unwrap().into_iter().map(|row| row.map(|list| cells(&list))).collect()
}

fn list(items: &[f64]) -> Option<Vec<Option<f64>>> {
    Some(items.iter().map(|x| Some(*x)).collect())
}

fn labels(names: &[&str]) -> Vec<String> {
    names.iter().map(|n| n.to_string()).collect()
}

fn report_columns(n: usize) -> ReportColumns {
    let from = |base: f64| numbers(&(0..n).map(|i| base + i as f64).collect::<Vec<f64>>());
    ReportColumns {
        beta: from(10.0),
        std_err: from(20.0),
        t: from(30.0),
        p: from(40.0),
        ci_lower: from(50.0),
        ci_upper: from(60.0),
    }
}

#[test]
fn a_report_has_seven_columns() {
    let features = Series::new("features".into(), vec!["a", "b"]);
    let s = report_series(&labels(&["a", "b"]), &report_columns(2)).unwrap();
    assert_eq!(s.name().as_str(), "lstsq_report");
    let all = fields(&s);
    assert_eq!(
        names(&all),
        vec!["features", "beta", "std_err", "t", "p>|t|", "0.025", "0.975"]
    );
    assert!(all[0].equals(&features));
    for (i, base) in [10.0, 20.0, 30.0, 40.0, 50.0, 60.0].iter().enumerate() {
        assert_eq!(cells(&all[i + 1]), vec![Some(*base), Some(base + 1.0)]);
    }
}

#[test]
fn a_report_needs_a_number_for_each_name() {
    let names = labels(&["a", "b", "c"]);
    let e = report_series(&names, &report_columns(2)).err().unwrap();
    assert!(matches!(e, LstsqError::Polars(_)));
    let s = report_series(&names, &report_columns(1)).unwrap();
    assert_eq!(cells(&fields(&s)[1]), vec![Some(10.0), Some(10.0), Some(10.0)]);
}

#[test]
fn a_report_names_features_and_bias() {
    let inputs = [
        series("w", &[1.0, 1.0, 1.0]),
        series("y", &[1.0, 2.0, 3.0]),
        series("a", &[1.0, 2.0, 4.0]),
    ];
    assert_eq!(feature_labels(&inputs, 0, false), vec!["y", "a"]);
    assert_eq!(feature_labels(&inputs, 1, true), vec!["a", "__bias__"]);
    let (m, labels) = report_matrix(&inputs, 1, true, Ok(NullPolicy::RAISE)).unwrap();
    assert_eq!(labels, vec!["a", "__bias__"]);
    assert_eq!(m.len(), 1 + labels.len());
    assert_eq!(m[0], numbers(&[1.0, 2.0, 3.0]));
    let e = report_matrix(&inputs, 1, true, Err("hm".to_string())).err().unwrap();
    assert_eq!(e.into_message().unwrap(), "hm");
}

#[test]
fn degrees_of_freedom_may_be_negative() {
    assert_eq!(degrees_of_freedom(10, 4), (3, 7));
    assert_eq!(degrees_of_freedom(2, 6), (5, -3));
    assert_eq!(degrees_of_freedom(5, 1), (0, 5));
}

#[test]
fn coefficients_are_a_list() {
    let s = coeff_series(Some(numbers(&[1.5, -2.0])));
    assert_eq!(s.name().as_str(), "coeffs");
    assert_eq!(lists(&s), vec![list(&[1.5, -2.0])]);
    assert_eq!(lists(&coeff_series(Some(vec![]))), vec![list(&[])]);
    let s = coeff_series(None);
    assert_eq!(s.len(), 0);
    assert_eq!(s.name().as_str(), "coeffs");
    assert_eq!(s.dtype(), &DataType::List(Box::new(DataType::Float64)));
}

#[test]
fn coefficients_come_with_singular_values() {
    let s = coeff_singular_values_series(&numbers(&[1.0]), &numbers(&[3.0, 2.0])).unwrap();
    let all = fields(&s);
    assert_eq!(names(&all), vec!["coeffs", "singular_values"]);
    assert_eq!(lists(&all[0]), vec![list(&[1.0])]);
    assert_eq!(lists(&all[1]), vec![list(&[3.0, 2.0])]);
}

#[test]
fn coefficients_of_several_targets_are_repeated() {
    let targets = vec!["y".to_string(), "z".to_string()];
    let coeffs = vec![numbers(&[1.0, 2.0]), numbers(&[3.0, 4.0])];
    let s = multi_coeff_series(&targets, &coeffs, 3).unwrap();
    assert_eq!(s.name().as_str(), "coeffs");
    assert_eq!(s.len(), 3);
    let all = fields(&s);
    assert_eq!(names(&all), vec!["y", "z"]);
    assert_eq!(lists(&all[1]), vec![list(&[3.0, 4.0]); 3]);
}

#[test]
fn predictions_of_several_targets_have_two_columns_each() {
    let targets = vec!["y".to_string(), "z".to_string()];
    let preds = vec![numbers(&[1.0, 2.0]), numbers(&[3.0, 4.0])];
    let resids = vec![numbers(&[5.0, 6.0]), numbers(&[7.0, 8.0])];
    let s = multi_pred_series(&targets, &preds, &resids, 2).unwrap();
    assert_eq!(s.name().as_str(), "all_preds");
    let all = fields(&s);
    assert_eq!(names(&all), vec!["y_pred", "y_resid", "z_pred", "z_resid"]);
    assert_eq!(cells(&all[1]), vec![Some(5.0), Some(6.0)]);
    assert_eq!(cells(&all[2]), vec![Some(3.0), Some(4.0)]);
}

#[test]
fn moving_fits_show_coefficients_and_predictions() {
    let rows = vec![
        None,
        Some(FittedRow { coeffs: 0, row: 1 }),
        None,
        Some(FittedRow { coeffs: 2, row: 3 }),
    ];
    let coeffs = vec![numbers(&[1.0, 2.0]), vec![], numbers(&[5.0, f64::NAN])];
    let s = coeff_pred_series(&rows, &coeffs, &numbers(&[0.25, -0.5])).unwrap();
    assert_eq!(s.len(), 4);
    let all = fields(&s);
    assert_eq!(names(&all), vec!["coeffs", "prediction"]);
    let shown = lists(&all[0]);
    assert_eq!(shown[0..3], [None, list(&[1.0, 2.0]), None]);
    assert!(shown[3].as_ref().unwrap()[1].unwrap().is_nan());
    assert_eq!(cells(&all[1]), vec![None, Some(0.25), None, Some(-0.5)]);
    let s = coeff_pred_series(&vec![], &coeffs, &vec![]).unwrap();
    assert_eq!(s.len(), 0);
}

fn shape(f: OutputField) -> (String, Vec<(String, CellType)>) {
    match f.output {
        OutputType::Struct(inner) => {
            (f.name, inner.into_iter().map(|c| (c.name, c.cells)).collect())
        }
        OutputType::Cells(cells) => (f.name, vec![("".to_string(), cells)]),
    }
}

#[test]
fn output_types_are_announced() {
    let (name, inner) = shape(report_output());
    assert_eq!(name, "lstsq_report");
    assert_eq!(inner.len(), 7);
    assert_eq!(inner[0], ("features".to_string(), CellType::Text));
    assert_eq!(inner[6], ("0.975".to_string(), CellType::Number));
    let (name, inner) = shape(pred_residue_output());
    assert_eq!(name, "pred");
    assert_eq!(inner[1], ("resid".to_string(), CellType::Number));
    let (name, inner) = shape(coeff_pred_output());
    assert_eq!(name, "");
    assert_eq!(inner[0], ("coeffs".to_string(), CellType::NumberList));
    assert_eq!(inner[1], ("prediction".to_string(), CellType::Number));
    let (_, inner) = shape(coeff_singular_values_output());
    assert_eq!(inner[1], ("singular_values".to_string(), CellType::NumberList));
    let (name, inner) = shape(coeff_output());
    assert_eq!(name, "coeffs");
    assert_eq!(inner[0].1, CellType::NumberList);
}

#[test]
fn a_report_has_the_columns_of_its_type() {
    let (name, announced) = shape(report_output());
    let s = report_series(&labels(&["a"]), &report_columns(1)).unwrap();
    assert_eq!(s.name().as_str(), name);
    let given = names(&fields(&s));
    assert_eq!(given, announced.into_iter().map(|(n, _)| n).collect::<Vec<String>>());
}

#[test]
fn moving_fits_have_the_columns_of_their_type() {
    let (name, announced) = shape(coeff_pred_output());
    let rows = vec![None, Some(FittedRow { coeffs: 0, row: 1 })];
    let s = coeff_pred_series(&rows, &vec![numbers(&[1.0])], &numbers(&[2.0])).unwrap();
    assert_eq!(s.name().as_str(), name);
    let all = fields(&s);
    for (field, (name, cells)) in all.iter().zip(&announced) {
        assert_eq!(field.name().as_str(), name);
        let dtype = match cells {
            CellType::Text => DataType::String,
            CellType::Number => DataType::Float64,
            CellType::NumberList => DataType::List(Box::new(DataType::Float64)),
        };
        assert_eq!(field.dtype(), &dtype);
    }
    assert_eq!(all.len(), announced.len());
}

#[test]
fn entropies_compare_two_windows() {
    let r = 0.5f64.to_bits();
    let wanted = EntropyWindows {
        short: Window { rows: 10, cols: 2 },
        long: Window { rows: 9, cols: 3 },
    };
    assert_eq!(entropy_windows(r, 10, 3), Some(wanted));
    assert!(entropy_exists(r, 3, 3));
    assert_eq!(entropy_windows(r, 2, 3), None);
    for bad in [0.0, -0.0, -1.0, f64::NAN, f64::INFINITY] {
        assert_eq!(entropy_windows(bad.to_bits(), 10, 3), None);
        assert!(!entropy_exists(bad.to_bits(), 10, 3));
    }
}

#[test]
fn entropies_read_the_shifted_columns() {
    let inputs = [series("r", &[0.5]), series("x", &[1.0, 2.0]), series("x1", &[2.0, 3.0])];
    let (radius, m) = entropy_matrix(&inputs).unwrap().unwrap();
    assert_eq!(f64::from_bits(radius), 0.5);
    assert_eq!(m, vec![numbers(&[1.0, 2.0]), numbers(&[2.0, 3.0])]);
    let empty = [series("r", &[0.5]), series("x", &[]), series("x1", &[])];
    let (_, m) = entropy_matrix(&empty).unwrap().unwrap();
    assert_eq!(m, vec![Vec::<u64>::new(), vec![]]);
    let (_, m) = entropy_matrix(&empty[..1]).unwrap().unwrap();
    assert!(m.is_empty());
    let uneven = [series("r", &[0.5]), series("x", &[1.0]), series("x1", &[2.0, 3.0])];
    let e = entropy_matrix(&uneven).err().unwrap();
    assert!(matches!(e, LstsqError::Polars(_)));
    let lists = Series::new("x".into(), vec![series("i", &[1.0])]);
    let e = entropy_matrix(&[series("r", &[0.5]), lists]).err().unwrap();
    assert!(matches!(e, LstsqError::Polars(_)));
}

#[test]
fn entropies_need_a_radius() {
    let none = Series::new("r".into(), vec![None, Some(0.5f64)]);
    assert!(entropy_matrix(&[none, series("x", &[1.0])]).unwrap().is_none());
    let whole = Series::new("r".into(), vec![1i64]);
    let e = entropy_matrix(&[whole, series("x", &[1.0])]).err().unwrap();
    assert!(matches!(e, LstsqError::Polars(_)));
}

#[test]
fn entropies_are_returned_in_a_single_row() {
    let s = entropy_series(Some(0.25f64.to_bits()));
    assert_eq!(s.name().as_str(), "");
    assert_eq!(cells(&s), vec![Some(0.25)]);
    let s = entropy_series(None);
    assert_eq!(s.len(), 1);
    assert!(cells(&s)[0].unwrap().is_nan());
}

#[test]
fn both_zeros_are_no_radius() {
    assert_eq!(entropy_exists(0.0f64.to_bits(), 3, 3), entropy_exists((-0.0f64).to_bits(), 3, 3));
}
