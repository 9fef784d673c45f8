use num_ext::error::LstsqError;
use num_ext::folds::{cv_folds, fold, lstsq_matrix, min_mse_index, Span, CV_ROWS, NUM_ALPHAS};
use num_ext::policy::NullPolicy;
use polars::prelude::{NamedFrom, Series};

fn span(start: usize, len: usize) -> Span {
    Span { start, len }
}

fn bits(numbers: &[f64]) -> Vec<u64> {
    numbers.iter().map(|x| x.to_bits()).collect()
}

fn ramp(name: &str, rows: usize) -> Series {
    Series::new(name.into(), (0..rows).map(|i| i as f64).collect::<Vec<f64>>())
}

#[test]
fn folds_have_their_rows() {
    let wanted = [
        (vec![span(0, 8), span(15, 21)], span(8, 7)),
        (vec![span(0, 15), span(22, 14)], span(15, 7)),
        (vec![span(0, 22), span(29, 7)], span(22, 7)),
        (vec![span(0, 29)], span(29, 7)),
        (vec![span(8, 28)], span(0, 8)),
    ];
    let folds = cv_folds();
    assert_eq!(folds.len(), 5);
    for (fold, (train, test)) in folds.iter().zip(wanted) {
        assert_eq!(fold.train, train);
        assert_eq!(fold.test, test);
    }
    assert_eq!(fold(0).test, span(0, 8));
    assert_eq!(NUM_ALPHAS, 100);
}

#[test]
fn each_row_of_a_fold_trains_or_tests_and_tests_once() {
    let mut tested = vec![0; CV_ROWS];
    for fold in cv_folds() {
        let mut seen = vec![0; CV_ROWS];
        for s in fold.train.iter().chain([&fold.test]) {
            for row in s.start..s.start + s.len {
                seen[row] += 1;
            }
        }
        assert_eq!(seen, vec![1; CV_ROWS]);
        for row in fold.test.start..fold.test.start + fold.test.len {
            tested[row] += 1;
        }
    }
    assert_eq!(tested, vec![1; CV_ROWS]);
}

#[test]
fn the_least_error_wins() {
    assert_eq!(min_mse_index(&bits(&[3.0, 1.0, 2.0])), 1);
    assert_eq!(min_mse_index(&bits(&[0.5])), 0);
    assert_eq!(min_mse_index(&bits(&[1.0, 2.0, 3.0])), 0);
}

#[test]
fn the_last_of_equal_errors_wins() {
    assert_eq!(min_mse_index(&bits(&[2.0, 1.0, 1.0, 3.0, 1.0, 4.0])), 4);
    assert_eq!(min_mse_index(&bits(&[0.0, -0.0])), 1);
}

#[test]
fn an_error_that_is_nan_passes_the_win_on() {
    let nan = f64::NAN;
    assert_eq!(min_mse_index(&bits(&[1.0, nan, 2.0, 3.0])), 2);
    assert_eq!(min_mse_index(&bits(&[1.0, 2.0, nan])), 2);
    assert_eq!(min_mse_index(&bits(&[nan, nan])), 1);
}

#[test]
fn short_series_are_not_fitted() {
    let inputs = vec![ramp("y", 35), ramp("a", 35)];
    let bad = Err("bad".to_string());
    assert!(lstsq_matrix(&inputs, false, true, bad).unwrap().is_none());
    let inputs = vec![ramp("y", 36), ramp("a", 36)];
    let m = lstsq_matrix(&inputs, false, true, Ok(NullPolicy::RAISE)).unwrap().unwrap();
    assert_eq!(m.len(), 3);
    assert!(m.iter().all(|column| column.len() == 36));
}

#[test]
fn weights_are_left_out_of_the_matrix() {
    let weights = Series::new("w".into(), vec![2.5f64; 40]);
    let inputs = vec![weights, ramp("y", 40), ramp("a", 40)];
    let m = lstsq_matrix(&inputs, true, false, Ok(NullPolicy::RAISE)).unwrap().unwrap();
    assert_eq!(m.len(), 2);
    assert_eq!(f64::from_bits(m[0][39]), 39.0);
    assert_eq!(f64::from_bits(m[1][39]), 1.0);
    let m = lstsq_matrix(&inputs, false, false, Ok(NullPolicy::RAISE)).unwrap().unwrap();
    assert_eq!(m.len(), 3);
    assert_eq!(f64::from_bits(m[0][39]), 2.5);
}

#[test]
fn a_policy_that_is_not_understood_is_reported() {
    let inputs = vec![ramp("y", 40), ramp("a", 40)];
    let e = lstsq_matrix(&inputs, false, false, Err("what?".to_string())).err().unwrap();
    assert!(matches!(e, LstsqError::Policy(_)));
    assert_eq!(e.into_message().unwrap(), "what?");
}
