use num_ext::error::LstsqError;
use num_ext::expressions::{fill_formula, min_max_formula};
use num_ext::policy::NullPolicy;
use num_ext::prepare::{lstsq_frame, prepared_frame, series_to_mat_for_lstsq};
use polars::prelude::{DataFrame, DataType, NamedFrom, Series};
use polars::series::IsSorted;

fn series(name: &str, cells: Vec<Option<f64>>) -> Series {
    Series::new(name.into(), cells)
}

fn cells(df: &DataFrame, name: &str) -> Vec<Option<f64>> {
    df.column(name).unwrap().f64().unwrap().into_iter().collect()
}

fn names(df: &DataFrame) -> Vec<String> {
    df.get_column_names().iter().map(|n| n.to_string()).collect()
}

fn with_nulls() -> Vec<Series> {
    vec![
        series("y", vec![Some(1.0), None, Some(3.0), Some(4.0), Some(5.0)]),
        series("a", vec![Some(10.0), Some(20.0), None, Some(40.0), Some(50.0)]),
        series("b", vec![Some(-1.0), Some(0.0), Some(3.0), Some(1.0), None]),
    ]
}

fn without_nulls() -> Vec<Series> {
    vec![
        series("y", vec![Some(7.0), Some(8.0), Some(9.0)]),
        series("a", vec![Some(2.0), Some(4.0), Some(3.0)]),
    ]
}

#[test]
fn features_are_scaled_and_the_target_is_not() {
    let (df, mask) = lstsq_frame(&without_nulls(), false, NullPolicy::RAISE).unwrap();
    assert_eq!(names(&df), vec!["y", "a"]);
    assert_eq!(cells(&df, "y"), vec![Some(7.0), Some(8.0), Some(9.0)]);
    assert_eq!(cells(&df, "a"), vec![Some(0.0), Some(1.0), Some(0.5)]);
    assert_eq!(mask.to_vec(), vec![true]);
}

#[test]
fn the_bias_is_a_column_of_ones_behind_the_others() {
    let (df, _) = lstsq_frame(&without_nulls(), true, NullPolicy::RAISE).unwrap();
    assert_eq!(names(&df), vec!["y", "a", "literal"]);
    assert_eq!(cells(&df, "literal"), vec![Some(1.0), Some(1.0), Some(1.0)]);
}

#[test]
fn the_bias_takes_the_place_of_a_column_of_its_name() {
    let inputs = vec![
        series("y", vec![Some(7.0), Some(8.0), Some(9.0)]),
        series("literal", vec![Some(2.0), Some(4.0), Some(3.0)]),
        series("b", vec![Some(2.0), Some(4.0), Some(3.0)]),
    ];
    let (df, _) = lstsq_frame(&inputs, true, NullPolicy::RAISE).unwrap();
    assert_eq!(names(&df), vec!["y", "literal", "b"]);
    assert_eq!(cells(&df, "literal"), vec![Some(1.0), Some(1.0), Some(1.0)]);
}

#[test]
fn a_constant_feature_scales_to_nan() {
    let inputs = vec![
        series("y", vec![Some(7.0), Some(8.0)]),
        series("a", vec![Some(2.0), Some(2.0)]),
    ];
    let (df, _) = lstsq_frame(&inputs, false, NullPolicy::RAISE).unwrap();
    let a = cells(&df, "a");
    assert!(a[0].unwrap().is_nan());
    assert!(a[1].unwrap().is_nan());
}

#[test]
fn a_target_alone_is_left_alone() {
    let inputs = vec![series("y", vec![Some(7.0), Some(8.0)])];
    let (df, _) = lstsq_frame(&inputs, false, NullPolicy::SKIP).unwrap();
    assert_eq!(names(&df), vec!["y"]);
    assert_eq!(cells(&df, "y"), vec![Some(7.0), Some(8.0)]);
    let inputs = vec![series("y", vec![Some(7.0), None])];
    let (df, mask) =
        lstsq_frame(&inputs, false, NullPolicy::FILL(0.5f64.to_bits())).unwrap();
    assert_eq!(cells(&df, "y"), vec![Some(7.0)]);
    assert_eq!(mask.to_vec(), vec![true, false]);
}

#[test]
fn raise_reports_nulls() {
    let r = lstsq_frame(&with_nulls(), false, NullPolicy::RAISE);
    let e = r.err().unwrap();
    assert!(matches!(e, LstsqError::NullsFound));
    assert_eq!(e.into_message().unwrap(), "Nulls found in data");
}

#[test]
fn skip_drops_each_row_with_a_null() {
    let (df, mask) = lstsq_frame(&with_nulls(), false, NullPolicy::SKIP).unwrap();
    assert_eq!(mask.to_vec(), vec![true, false, false, true, false]);
    assert_eq!(cells(&df, "y"), vec![Some(1.0), Some(4.0)]);
    assert_eq!(cells(&df, "a"), vec![Some(0.0), Some(0.75)]);
    assert_eq!(cells(&df, "b"), vec![Some(0.0), Some(0.5)]);
}

#[test]
fn ignore_and_skip_window_leave_the_nulls() {
    for policy in [NullPolicy::IGNORE, NullPolicy::SKIP_WINDOW] {
        let (df, mask) = lstsq_frame(&with_nulls(), false, policy).unwrap();
        assert_eq!(mask.to_vec(), vec![false]);
        assert_eq!(df.height(), 5);
        assert_eq!(cells(&df, "y")[1], None);
        assert_eq!(cells(&df, "a"), vec![Some(0.0), Some(0.25), None, Some(0.75), Some(1.0)]);
    }
}

#[test]
fn fill_replaces_null_features_and_drops_null_targets() {
    let policy = NullPolicy::FILL(0.3f64.to_bits());
    let (df, mask) = lstsq_frame(&with_nulls(), true, policy).unwrap();
    assert_eq!(mask.to_vec(), vec![true, false, true, true, true]);
    assert_eq!(cells(&df, "y"), vec![Some(1.0), Some(3.0), Some(4.0), Some(5.0)]);
    assert_eq!(cells(&df, "a"), vec![Some(0.0), Some(0.3), Some(0.75), Some(1.0)]);
    assert_eq!(cells(&df, "b"), vec![Some(0.0), Some(1.0), Some(0.5), Some(0.3)]);
    assert_eq!(cells(&df, "literal"), vec![Some(1.0), Some(1.0), Some(1.0), Some(1.0)]);
}

#[test]
fn fill_keeps_all_rows_of_a_full_target() {
    let mut inputs = with_nulls();
    inputs[0] = series("y", vec![Some(1.0), Some(2.0), Some(3.0), Some(4.0), Some(5.0)]);
    let policy = NullPolicy::FILL(0.0f64.to_bits());
    let (df, mask) = lstsq_frame(&inputs, false, policy).unwrap();
    assert_eq!(mask.to_vec(), vec![true]);
    assert_eq!(df.height(), 5);
    assert_eq!(cells(&df, "a")[2], Some(0.0));
}

#[test]
fn fill_window_leaves_null_targets() {
    let policy = NullPolicy::FILL_WINDOW((-2.5f64).to_bits());
    let (df, mask) = lstsq_frame(&with_nulls(), false, policy).unwrap();
    assert_eq!(mask.to_vec(), vec![false]);
    assert_eq!(cells(&df, "y")[1], None);
    assert_eq!(cells(&df, "a")[2], Some(-2.5));
    let mut inputs = with_nulls();
    inputs[0] = series("y", vec![Some(1.0), Some(2.0), Some(3.0), Some(4.0), Some(5.0)]);
    let (_, mask) = lstsq_frame(&inputs, false, policy).unwrap();
    assert_eq!(mask.to_vec(), vec![true]);
}

#[test]
fn empty_data_are_reported() {
    let inputs = vec![series("y", vec![]), series("a", vec![])];
    let e = lstsq_frame(&inputs, true, NullPolicy::SKIP).err().unwrap();
    assert!(matches!(e, LstsqError::EmptyData));
    assert_eq!(e.into_message().unwrap(), "Empty data");
}

#[test]
fn fewer_rows_than_features_are_reported() {
    let inputs = vec![
        series("y", vec![Some(1.0), Some(2.0), Some(3.0)]),
        series("a", vec![Some(1.0), Some(2.0), None]),
        series("b", vec![None, Some(2.0), Some(5.0)]),
    ];
    let e = lstsq_frame(&inputs, false, NullPolicy::SKIP).err().unwrap();
    assert!(matches!(e, LstsqError::TooFewRows));
    assert_eq!(e.into_message().unwrap(), "#Data < #features. No conclusive result.");
    assert!(lstsq_frame(&inputs, false, NullPolicy::IGNORE).is_ok());
}

#[test]
fn columns_that_do_not_fit_are_reported_by_polars() {
    let twice = vec![series("y", vec![Some(1.0)]), series("y", vec![Some(1.0)])];
    let e = lstsq_frame(&twice, false, NullPolicy::SKIP).err().unwrap();
    assert!(matches!(e, LstsqError::Polars(_)));
    assert!(e.into_message().is_err());
    let uneven = vec![series("y", vec![Some(1.0)]), series("a", vec![Some(1.0), None])];
    let e = lstsq_frame(&uneven, false, NullPolicy::SKIP).err().unwrap();
    assert!(matches!(e, LstsqError::Polars(_)));
}

#[test]
fn text_cannot_be_scaled() {
    let inputs =
        vec![series("y", vec![Some(1.0), None]), Series::new("a".into(), vec!["u", "v"])];
    let e = lstsq_frame(&inputs, false, NullPolicy::RAISE).err().unwrap();
    assert!(matches!(e, LstsqError::Polars(_)));
}

#[test]
fn an_integer_feature_becomes_a_number_when_it_is_filled() {
    let inputs = vec![
        series("y", vec![Some(1.0), Some(2.0)]),
        Series::new("a".into(), vec![Some(3i64), None]),
    ];
    let policy = NullPolicy::FILL(0.25f64.to_bits());
    let (df, _) = lstsq_frame(&inputs, false, policy).unwrap();
    assert_eq!(df.column("a").unwrap().dtype(), &DataType::Float64);
    assert_eq!(cells(&df, "a")[1], Some(0.25));
}

#[test]
fn every_policy_prepares_full_data_alike() {
    let zero = 0.0f64.to_bits();
    let (first, _) = lstsq_frame(&without_nulls(), true, NullPolicy::RAISE).unwrap();
    for policy in [
        NullPolicy::SKIP,
        NullPolicy::SKIP_WINDOW,
        NullPolicy::IGNORE,
        NullPolicy::FILL(zero),
        NullPolicy::FILL_WINDOW(zero),
    ] {
        let (df, mask) = lstsq_frame(&without_nulls(), true, policy).unwrap();
        assert!(df.equals(&first));
        assert_eq!(mask.to_vec(), vec![true]);
    }
}

#[test]
fn regular_expression_names_are_taken_literally() {
    let inputs = vec![
        series("^.*$", vec![Some(7.0), None]),
        series("*", vec![Some(2.0), Some(4.0)]),
        series("a", vec![None, Some(4.0)]),
    ];
    let policy = NullPolicy::FILL_WINDOW(0.5f64.to_bits());
    let (df, _) = lstsq_frame(&inputs, false, policy).unwrap();
    assert_eq!(cells(&df, "^.*$"), vec![Some(7.0), None]);
    assert_eq!(cells(&df, "*"), vec![Some(0.0), Some(1.0)]);
    assert_eq!(cells(&df, "a")[0], Some(0.5));
}

#[test]
fn a_lone_target_is_filtered() {
    let y = Series::new("y".into(), vec![Some(1.0), None, Some(3.0)]);
    for policy in [NullPolicy::SKIP, NullPolicy::FILL(0)] {
        let (df, mask) = lstsq_frame(&[y.clone()], false, policy).unwrap();
        assert_eq!(cells(&df, "y"), vec![Some(1.0), Some(3.0)]);
        assert_eq!(mask.to_vec(), vec![true, false, true]);
    }
    let (df, mask) = lstsq_frame(&[y], true, NullPolicy::FILL_WINDOW(0)).unwrap();
    assert_eq!(df.shape(), (3, 2));
    assert_eq!(mask.to_vec(), vec![false]);
}

#[test]
fn formulas_are_as_written() {
    assert_eq!(
        format!("{:?}", min_max_formula()),
        "Over(Minus(Itself, Least(Itself)), Minus(Greatest(Itself), Least(Itself)))"
    );
    assert_eq!(format!("{:?}", fill_formula(7)), "Filled(Number(Itself), 7)");
}

#[test]
fn scaled_features_keep_their_nulls() {
    let inputs = with_nulls();
    let (df, _) = lstsq_frame(&inputs, false, NullPolicy::IGNORE).unwrap();
    assert_eq!(
        cells(&df, "a"),
        vec![Some(0.0), Some(0.25), None, Some(0.75), Some(1.0)]
    );
    assert_eq!(cells(&df, "b"), vec![Some(0.0), Some(0.25), Some(1.0), Some(0.5), None]);
}

#[test]
fn a_feature_without_values_stays_without() {
    let y = series("y", vec![Some(1.0), Some(2.0)]);
    let a = series("a", vec![None, None]);
    let inputs = [y, a];
    let (df, _) = lstsq_frame(&inputs, false, NullPolicy::IGNORE).unwrap();
    assert_eq!(cells(&df, "a"), vec![None, None]);
    let fill = NullPolicy::FILL(0.5f64.to_bits());
    let (df, _) = lstsq_frame(&inputs, false, fill).unwrap();
    assert_eq!(cells(&df, "a"), vec![Some(0.5), Some(0.5)]);
}

fn matrix(inputs: &[Series], add_bias: bool, policy: NullPolicy) -> Vec<Vec<f64>> {
    let (m, _) = series_to_mat_for_lstsq(inputs, add_bias, policy).unwrap();
    m.into_iter().map(|c| c.into_iter().map(f64::from_bits).collect()).collect()
}

#[test]
fn the_matrix_has_nan_in_place_of_nulls() {
    let m = matrix(&with_nulls(), true, NullPolicy::IGNORE);
    assert_eq!(m.len(), 4);
    assert_eq!(m[3], vec![1.0; 5]);
    assert_eq!(m[0][0], 1.0);
    assert!(m[0][1].is_nan());
    assert!(m[1][2].is_nan());
    assert_eq!(m[2][..4], [0.0, 0.25, 1.0, 0.5]);
    assert!(m[2][4].is_nan());
    let fill = NullPolicy::FILL(0.5f64.to_bits());
    let m = matrix(&with_nulls(), false, fill);
    assert_eq!(m[1], vec![0.0, 0.5, 0.75, 1.0]);
}

#[test]
fn the_matrix_is_made_of_numbers() {
    let y = Series::new("y".into(), vec![1i64, 2]);
    let a = Series::new("a".into(), vec![3i32, 5]);
    let m = matrix(&[y, a.clone()], false, NullPolicy::RAISE);
    assert_eq!(m, vec![vec![1.0, 2.0], vec![0.0, 1.0]]);
    let lists = Series::new("y".into(), vec![a.clone(), a.clone()]);
    let e = series_to_mat_for_lstsq(&[lists, a], false, NullPolicy::RAISE).err().unwrap();
    assert!(matches!(e, LstsqError::Polars(_)));
}

#[test]
fn a_sorted_feature_of_nulls_and_nan_becomes_null() {
    let y = series("y", vec![Some(1.0), Some(2.0)]);
    let plain = series("a", vec![None, Some(f64::NAN)]);
    let (df, _) = lstsq_frame(&[y.clone(), plain.clone()], false, NullPolicy::IGNORE).unwrap();
    assert!(cells(&df, "a")[0].is_none());
    assert!(cells(&df, "a")[1].is_none_or(f64::is_nan));

    let mut sorted = plain;
    sorted.set_sorted_flag(IsSorted::Ascending);
    let inputs = [y, sorted];
    let (df, _) = lstsq_frame(&inputs, false, NullPolicy::IGNORE).unwrap();
    assert_eq!(cells(&df, "a"), vec![None, None]);
    let (df, mask) = lstsq_frame(&inputs, false, NullPolicy::SKIP).unwrap();
    assert_eq!(cells(&df, "a"), vec![None]);
    assert_eq!(mask.to_vec(), vec![false, true]);
    assert!(matrix(&inputs, false, NullPolicy::SKIP)[1][0].is_nan());
    let fill = NullPolicy::FILL(0.5f64.to_bits());
    assert_eq!(matrix(&inputs, false, fill)[1], vec![0.5, 0.5]);
}

#[test]
fn a_sorted_feature_with_a_number_scales_as_any_other() {
    let y = series("y", vec![Some(1.0), Some(2.0), Some(3.0), Some(4.0)]);
    let a = series("a", vec![None, Some(2.0), Some(4.0), Some(f64::NAN)]);
    for order in [IsSorted::Not, IsSorted::Ascending] {
        let mut a = a.clone();
        a.set_sorted_flag(order);
        let (df, _) = lstsq_frame(&[y.clone(), a], false, NullPolicy::IGNORE).unwrap();
        let scaled = cells(&df, "a");
        assert_eq!(scaled[..3], [None, Some(0.0), Some(1.0)]);
        assert!(scaled[3].unwrap().is_nan());
    }
}

#[test]
fn twice_a_feature_scales_to_the_same() {
    let y = series("y", vec![Some(1.0), Some(2.0), Some(3.0)]);
    let a = series("a", vec![Some(0.3), Some(1.7), Some(0.9)]);
    let b = series("a", vec![Some(0.6), Some(3.4), Some(1.8)]);
    let policy = NullPolicy::RAISE;
    assert_eq!(matrix(&[y.clone(), a], true, policy), matrix(&[y, b], true, policy));
}

#[test]
fn a_scaled_table_is_prepared_as_it_is() {
    let inputs = with_nulls();
    let (scaled, _) = lstsq_frame(&inputs, false, NullPolicy::IGNORE).unwrap();
    let (df, mask) = prepared_frame(&inputs, scaled, true, NullPolicy::SKIP).unwrap();
    let (whole, other) = lstsq_frame(&inputs, true, NullPolicy::SKIP).unwrap();
    assert!(df.equals_missing(&whole));
    assert_eq!(mask.to_vec(), other.to_vec());
}

#[test]
fn the_mask_tells_nulls() {
    let fill = NullPolicy::FILL(0);
    let whole = without_nulls();
    let mut some = without_nulls();
    some[1] = series("a", vec![Some(2.0), None, Some(3.0)]);
    for (policy, nulls) in [
        (NullPolicy::SKIP, true),
        (NullPolicy::IGNORE, true),
        (NullPolicy::SKIP_WINDOW, true),
        (fill, false),
        (NullPolicy::FILL_WINDOW(0), false),
    ] {
        let (_, mask) = series_to_mat_for_lstsq(&some, false, policy).unwrap();
        assert_eq!(mask.to_vec().contains(&false), nulls);
        let (_, mask) = series_to_mat_for_lstsq(&whole, false, policy).unwrap();
        assert_eq!(mask.to_vec(), vec![true]);
    }
}
