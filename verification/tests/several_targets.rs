use num_ext::closed::{
    closed_form, multi_method, rcond_scale, ClosedFormLRMethods, LRMethods,
};
use num_ext::error::LstsqError;
use num_ext::multi::{
    multi_frame, multi_matrix, pred_column_names, series_to_mat_for_multi_lstsq, target_names,
};
use num_ext::policy::NullPolicy;
use polars::prelude::{DataFrame, DataType, IntoSeries, NamedFrom, Series, StructChunked};

fn series(name: &str, cells: Vec<Option<f64>>) -> Series {
    Series::new(name.into(), cells)
}

fn cells(df: &DataFrame, name: &str) -> Vec<Option<f64>> {
    df.column(name).unwrap().f64().unwrap().into_iter().collect()
}

fn inputs() -> Vec<Series> {
    vec![
        series("y", vec![Some(1.0), Some(2.0)]),
        series("z", vec![Some(3.0), Some(4.0)]),
        series("a", vec![Some(5.0), Some(9.0)]),
    ]
}

fn null_feature() -> Vec<Series> {
    let mut s = inputs();
    s[2] = series("a", vec![None, Some(9.0)]);
    s
}

fn null_target() -> Vec<Series> {
    let mut s = inputs();
    s[1] = series("z", vec![Some(3.0), None]);
    s
}

#[test]
fn several_targets_are_taken_as_they_are() {
    for policy in [NullPolicy::RAISE, NullPolicy::SKIP, NullPolicy::FILL(0)] {
        let df = multi_frame(&inputs(), 2, false, policy).unwrap();
        assert_eq!(df.shape(), (2, 3));
        assert_eq!(cells(&df, "a"), vec![Some(5.0), Some(9.0)]);
    }
    let df = multi_frame(&inputs(), 2, true, NullPolicy::RAISE).unwrap();
    assert_eq!(df.shape(), (2, 4));
    assert_eq!(cells(&df, "literal"), vec![Some(1.0), Some(1.0)]);
}

#[test]
fn several_targets_have_their_features_filled() {
    let policy = NullPolicy::FILL(0.5f64.to_bits());
    let df = multi_frame(&null_feature(), 2, false, policy).unwrap();
    assert_eq!(cells(&df, "a"), vec![Some(0.5), Some(9.0)]);
    let mut whole = null_feature();
    whole[1] = Series::new("z".into(), vec![3i64, 4]);
    whole.push(Series::new("b".into(), vec![1i64, 2]));
    let df = multi_frame(&whole, 2, false, policy).unwrap();
    assert_eq!(df.column("z").unwrap().dtype(), &DataType::Int64);
    assert_eq!(cells(&df, "b"), vec![Some(1.0), Some(2.0)]);
}

#[test]
fn several_targets_must_not_be_null() {
    let policy = NullPolicy::FILL(0.5f64.to_bits());
    let e = multi_frame(&null_target(), 2, false, policy).err().unwrap();
    assert!(matches!(e, LstsqError::TargetNulls));
    assert_eq!(
        e.into_message().unwrap(),
        "Filling null doesn't work for multi-target lstsq when there are nulls in any of the targets."
    );
    assert!(multi_frame(&null_target(), 1, false, policy).is_ok());
}

#[test]
fn several_targets_allow_two_policies_for_nulls() {
    for policy in [
        NullPolicy::SKIP,
        NullPolicy::SKIP_WINDOW,
        NullPolicy::IGNORE,
        NullPolicy::FILL_WINDOW(0),
    ] {
        let e = multi_frame(&null_feature(), 2, false, policy).err().unwrap();
        assert!(matches!(e, LstsqError::PolicyUnsupported));
        assert_eq!(
            e.into_message().unwrap(),
            "The null policy is not supported by multi-target linear regression."
        );
    }
    let e = multi_frame(&null_feature(), 2, false, NullPolicy::RAISE);
    assert!(matches!(e.err().unwrap(), LstsqError::NullsFound));
}

#[test]
fn several_targets_without_rows_are_empty() {
    let none = vec![series("y", vec![]), series("a", vec![])];
    for add_bias in [false, true] {
        let e = multi_frame(&none, 1, add_bias, NullPolicy::RAISE);
        assert!(matches!(e.err().unwrap(), LstsqError::EmptyData));
    }
    let e = multi_frame(&[], 0, false, NullPolicy::RAISE);
    assert!(matches!(e.err().unwrap(), LstsqError::EmptyData));
    let df = multi_frame(&[], 0, true, NullPolicy::RAISE).unwrap();
    assert_eq!(cells(&df, "literal"), vec![Some(1.0)]);
}

#[test]
fn several_targets_that_do_not_fit_are_reported_by_polars() {
    let mut twice = null_target();
    twice[2] = series("y", vec![Some(5.0), Some(9.0)]);
    let fill = NullPolicy::FILL(0);
    let e = multi_frame(&twice, 2, false, fill).err().unwrap();
    assert!(matches!(e, LstsqError::Polars(_)));
    let e = multi_frame(&twice, 2, false, NullPolicy::RAISE).err().unwrap();
    assert!(matches!(e, LstsqError::NullsFound));
    let twice = vec![inputs()[0].clone(), inputs()[0].clone()];
    let e = multi_frame(&twice, 1, false, NullPolicy::RAISE).err().unwrap();
    assert!(matches!(e, LstsqError::Polars(_)));
}

#[test]
fn several_targets_are_named() {
    assert_eq!(target_names(&inputs(), 2), vec!["y", "z"]);
    let (m, names) = multi_matrix(&inputs(), 2, false, Ok(NullPolicy::RAISE)).unwrap();
    assert_eq!(names, vec!["y", "z"]);
    assert_eq!(m.len(), 3);
    let e = multi_matrix(&inputs(), 9, false, Err("huh".to_string())).err().unwrap();
    assert_eq!(e.into_message().unwrap(), "huh");
}

#[test]
fn predictions_and_residues_alternate() {
    let names = vec!["y".to_string(), "z".to_string()];
    assert_eq!(pred_column_names(&names), vec!["y_pred", "y_resid", "z_pred", "z_resid"]);
    assert!(pred_column_names(&vec![]).is_empty());
}

#[test]
fn several_targets_have_two_methods() {
    assert_eq!(multi_method(LRMethods::Normal).unwrap(), ClosedFormLRMethods::Normal);
    assert_eq!(multi_method(LRMethods::L2).unwrap(), ClosedFormLRMethods::L2);
    let e = multi_method(LRMethods::Other).err().unwrap();
    assert!(matches!(e, LstsqError::MethodUnsupported));
    assert_eq!(e.into_message().unwrap(), "The method is not supported.");
}

#[test]
fn a_penalty_greater_than_zero_is_applied() {
    assert_eq!(closed_form(0.1f64.to_bits()), ClosedFormLRMethods::L2);
    assert_eq!(closed_form(f64::INFINITY.to_bits()), ClosedFormLRMethods::L2);
    for l2 in [0.0, -0.0, -1.0, f64::NAN] {
        assert_eq!(closed_form(l2.to_bits()), ClosedFormLRMethods::Normal);
    }
}

#[test]
fn the_greater_count_scales_the_tolerance() {
    assert_eq!(rcond_scale(3, 12), 12);
    assert_eq!(rcond_scale(3, 2), 3);
}

#[test]
fn structs_are_filled_only_where_nothing_is_null() {
    let inner = [series("y", vec![Some(1.0), Some(2.0)])];
    let structs = StructChunked::from_series("s".into(), 2, inner.iter()).unwrap().into_series();
    let mut whole = null_feature();
    whole.push(structs.clone());
    let fill = NullPolicy::FILL(0.5f64.to_bits());
    let df = multi_frame(&whole, 2, false, fill).unwrap();
    assert_eq!(df.column("s").unwrap().dtype(), structs.dtype());
    assert_eq!(cells(&df, "a"), vec![Some(0.5), Some(9.0)]);

    let mut part = structs.head(Some(1));
    part.append(&Series::full_null("s".into(), 1, structs.dtype())).unwrap();
    let mut inputs = inputs();
    inputs.push(part);
    let e = multi_frame(&inputs, 2, false, fill).err().unwrap();
    assert!(matches!(e, LstsqError::Polars(_)));

    let mut none = null_feature();
    none.push(Series::full_null("s".into(), 2, structs.dtype()));
    let df = multi_frame(&none, 2, false, fill).unwrap();
    assert_eq!(cells(&df, "s"), vec![Some(0.5), Some(0.5)]);
}

#[test]
fn several_targets_are_read_as_a_matrix() {
    let fill = NullPolicy::FILL(0.5f64.to_bits());
    let m = series_to_mat_for_multi_lstsq(&null_feature(), 2, true, fill).unwrap();
    let m: Vec<Vec<f64>> =
        m.into_iter().map(|c| c.into_iter().map(f64::from_bits).collect()).collect();
    assert_eq!(
        m,
        vec![vec![1.0, 2.0], vec![3.0, 4.0], vec![0.5, 9.0], vec![1.0, 1.0]]
    );
    let mut text = inputs();
    text[2] = Series::new("a".into(), vec!["1.5", "x"]);
    let m = series_to_mat_for_multi_lstsq(&text, 2, false, NullPolicy::RAISE).unwrap();
    assert_eq!(f64::from_bits(m[2][0]), 1.5);
    assert!(f64::from_bits(m[2][1]).is_nan());
}
