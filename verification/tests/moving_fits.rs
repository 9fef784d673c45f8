use num_ext::error::LstsqError;
use num_ext::policy::{windowed_policy, NullPolicy};
use num_ext::prepare::{regression_matrix, series_to_mat_for_lstsq};
use num_ext::tables::Mask;
use num_ext::windows::{
    recursive_fits, recursive_rows, rolling_fits, rolling_matrix, rolling_method, rolling_rows,
    FittedRow, RollingMethod,
};
use polars::prelude::{NamedFrom, Series};

fn series(name: &str, cells: Vec<Option<f64>>) -> Series {
    Series::new(name.into(), cells)
}

fn at(coeffs: usize, row: usize) -> Option<FittedRow> {
    Some(FittedRow { coeffs, row })
}

/// A mask with the given places, of which one is false.
fn mask(places: &[bool]) -> Mask {
    let y = places.iter().map(|p| if *p { Some(1.0) } else { None }).collect();
    let (_, mask) = series_to_mat_for_lstsq(&[series("y", y)], false, NullPolicy::SKIP).unwrap();
    assert_eq!(mask.to_vec(), places);
    mask
}

/// The mask of data without nulls.
fn full() -> Mask {
    let y = series("y", vec![Some(1.0), Some(2.0)]);
    series_to_mat_for_lstsq(&[y], false, NullPolicy::SKIP).unwrap().1
}

#[test]
fn recursive_rows_wait_for_enough_rows() {
    let m = mask(&[true, false, true, true, false, true]);
    assert!(recursive_fits(&m, 2, 3, 4));
    assert_eq!(
        recursive_rows(&m, 2, 3, 4),
        vec![None, None, at(0, 0), at(1, 1), None, at(2, 2)]
    );
    assert_eq!(
        recursive_rows(&m, 1, 4, 4),
        vec![at(0, 0), None, at(1, 1), at(2, 2), None, at(3, 3)]
    );
    assert_eq!(recursive_rows(&m, 9, 0, 4), vec![None; 6]);
    assert!(!recursive_fits(&m, 2, 2, 4));
    assert!(!recursive_fits(&m, 1, 4, 3));
}

#[test]
fn recursive_rows_start_at_once_where_no_row_is_asked_for() {
    let m = mask(&[false, true]);
    assert_eq!(recursive_rows(&m, 0, 1, 1), vec![None, at(0, 0)]);
    assert_eq!(recursive_rows(&full(), 0, 2, 3), vec![None, at(0, 1), at(1, 2)]);
    assert!(!recursive_fits(&full(), 0, 3, 3));
}

#[test]
fn recursive_rows_without_nulls_show_each_fit_at_its_row() {
    assert!(recursive_fits(&full(), 3, 2, 4));
    assert_eq!(recursive_rows(&full(), 3, 2, 4), vec![None, None, at(0, 2), at(1, 3)]);
    assert_eq!(recursive_rows(&full(), 5, 0, 2), vec![None; 4]);
    assert!(!recursive_fits(&full(), 3, 3, 4));
}

#[test]
fn recursive_rows_of_ignored_nulls_are_a_single_null() {
    let inputs = [series("y", vec![Some(1.0), None, Some(3.0)])];
    let (columns, m) = regression_matrix(&inputs, 0, false, Ok(NullPolicy::IGNORE)).unwrap();
    assert_eq!(columns[0].len(), 3);
    assert_eq!(recursive_rows(&m, 1, 3, 3), vec![None]);
}

#[test]
fn one_fit_for_each_row_from_the_start_on_is_within() {
    let m = mask(&[false, true, true, false, true, true, true]);
    for n in 1..=5 {
        assert!(recursive_fits(&m, n, 5 - n + 1, 5));
        let rows = recursive_rows(&m, n, 5 - n + 1, 5);
        assert_eq!(rows.len(), 7);
        let shown: Vec<usize> = rows.iter().flatten().map(|at| at.coeffs).collect();
        assert_eq!(shown, (0..5 - n + 1).collect::<Vec<usize>>());
    }
}

#[test]
fn rolling_rows_skip_windows_without_coefficients() {
    let shapes = vec![(2, 1), (0, 0), (2, 1)];
    assert!(rolling_fits(2, &shapes, true, 4));
    assert_eq!(rolling_rows(2, &shapes, true, 4), vec![None, at(0, 1), None, at(2, 3)]);
    assert_eq!(
        rolling_rows(2, &shapes, false, 4),
        vec![None, at(0, 1), at(1, 2), at(2, 3)]
    );
    assert!(!rolling_fits(2, &shapes, true, 3));
    assert!(!rolling_fits(0, &shapes, true, 4));
    assert!(rolling_fits(3, &vec![(0, 0)], true, 0));
    assert_eq!(rolling_rows(3, &vec![(0, 0), (0, 1)], true, 4), vec![None, None, None, at(1, 3)]);
}

#[test]
fn windows_are_skipped_where_nulls_stay() {
    let y = series("y", vec![Some(1.0), Some(2.0), Some(3.0)]);
    let y_null = series("y", vec![Some(1.0), None, Some(3.0)]);
    let a = series("a", vec![Some(1.0), Some(2.0), Some(3.0)]);
    let a_null = series("a", vec![Some(1.0), None, Some(3.0)]);
    let zero = 0.0f64.to_bits();
    let skips = |y: &Series, a: &Series, policy: NullPolicy| {
        let inputs = [y.clone(), a.clone()];
        let (columns, skip) = rolling_matrix(&inputs, false, Ok(policy)).unwrap();
        assert_eq!(columns[0].len(), 3);
        skip
    };
    assert!(!skips(&y, &a, NullPolicy::SKIP));
    assert!(skips(&y, &a_null, NullPolicy::SKIP));
    assert!(skips(&y_null, &a, NullPolicy::SKIP_WINDOW));
    assert!(!skips(&y, &a_null, NullPolicy::FILL(zero)));
    assert!(skips(&y_null, &a, NullPolicy::FILL(zero)));
    assert!(skips(&y_null, &a_null, NullPolicy::FILL_WINDOW(zero)));
    assert!(!skips(&y_null, &a_null, NullPolicy::IGNORE));
    let e = rolling_matrix(&[y, a_null.clone()], false, Ok(NullPolicy::RAISE)).err().unwrap();
    assert!(matches!(e, LstsqError::NullsFound));
    let e = rolling_matrix(&[a_null], false, Err("no".to_string())).err().unwrap();
    assert_eq!(e.into_message().unwrap(), "no");
}

#[test]
fn windows_take_the_place_of_dropped_rows() {
    assert_eq!(windowed_policy(NullPolicy::SKIP), NullPolicy::SKIP_WINDOW);
    assert_eq!(windowed_policy(NullPolicy::FILL(7)), NullPolicy::FILL_WINDOW(7));
    for policy in [
        NullPolicy::RAISE,
        NullPolicy::IGNORE,
        NullPolicy::SKIP_WINDOW,
        NullPolicy::FILL_WINDOW(7),
    ] {
        assert_eq!(windowed_policy(policy), policy);
    }
}

#[test]
fn the_least_size_of_a_window_counts_where_windows_are_skipped() {
    assert_eq!(rolling_method(false, 3), RollingMethod::Plain);
    assert_eq!(rolling_method(false, 3), rolling_method(false, 4));
    assert_eq!(rolling_method(true, 3), RollingMethod::Skipping(3));
}

#[test]
fn rolling_and_recursive_fits_of_full_data_have_the_same_rows() {
    let y = series("y", vec![Some(1.0), Some(2.0), Some(4.0), Some(8.0)]);
    let a = series("a", vec![Some(3.0), Some(1.0), Some(2.0), Some(5.0)]);
    let inputs = [y, a];
    let (one, mask) = regression_matrix(&inputs, 0, true, Ok(NullPolicy::FILL(0))).unwrap();
    let (other, skip) = rolling_matrix(&inputs, true, Ok(NullPolicy::SKIP)).unwrap();
    assert_eq!(one, other);
    let rows = rolling_rows(2, &vec![(2, 1); 3], skip, 4);
    assert_eq!(rows, recursive_rows(&mask, 2, 3, 4));
    assert_eq!(rows, vec![None, at(0, 1), at(1, 2), at(2, 3)]);
}

#[test]
fn a_masked_row_is_null_until_enough_rows_are_there() {
    let places = [true, false, true, true, false, true];
    let m = mask(&places);
    for n in 1..=4 {
        let rows = recursive_rows(&m, n, 4, 4);
        let mut seen = 0;
        for (row, place) in rows.iter().zip(places) {
            seen += place as usize;
            assert_eq!(row.is_none(), !place || seen < n);
        }
    }
}
