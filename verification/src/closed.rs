//! Regressions whose solution has a closed form.
use vstd::prelude::*;

use crate::error::LstsqError;
use crate::ieee::{is_positive, positive};

verus! {

/// The kinds of regression that a caller can ask for.
#[derive(Clone, Copy, Debug, PartialEq, Eq, Structural)]
pub enum LRMethods {
    /// Least squares.
    Normal,
    /// Least squares with a penalty on the squares of the coefficients.
    L2,
    /// Any other kind.
    Other,
}

/// The kinds of regression whose solution has a closed form.
#[derive(Clone, Copy, Debug, PartialEq, Eq, Structural)]
pub enum ClosedFormLRMethods {
    /// Least squares.
    Normal,
    /// Least squares with a penalty on the squares of the coefficients.
    L2,
}

/// The closed form by which several targets are fitted: those of least squares with and
/// without a penalty on squares, and no other.
pub fn multi_method(method: LRMethods) -> (r: Result<ClosedFormLRMethods, LstsqError>)
    ensures
        match method {
            LRMethods::Normal => r matches Ok(m) && m is Normal,
            LRMethods::L2 => r matches Ok(m) && m is L2,
            LRMethods::Other => r matches Err(e) && e is MethodUnsupported,
        },
{
    match method {
        LRMethods::Normal => Ok(ClosedFormLRMethods::Normal),
        LRMethods::L2 => Ok(ClosedFormLRMethods::L2),
        LRMethods::Other => Err(LstsqError::MethodUnsupported),
    }
}

/// The closed form for a penalty on squares, which is given by its bits: the penalized one
/// exactly where the penalty is greater than zero.
pub fn closed_form(l2_reg: u64) -> (r: ClosedFormLRMethods)
    ensures
        r == if positive(l2_reg) {
            ClosedFormLRMethods::L2
        } else {
            ClosedFormLRMethods::Normal
        },
{
    if is_positive(l2_reg) {
        ClosedFormLRMethods::L2
    } else {
        ClosedFormLRMethods::Normal
    }
}

/// The number by which the rounding unit is multiplied for the least ratio of singular values
/// that counts: the number of inputs or that of the cells of the matrix, whichever is greater.
pub fn rcond_scale(inputs: usize, cells: usize) -> (r: usize)
    ensures
        r == vstd::math::max(inputs as int, cells as int),
{
    if inputs < cells {
        cells
    } else {
        inputs
    }
}

} // verus!
