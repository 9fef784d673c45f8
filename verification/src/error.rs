//! Why a regression is not attempted.
use vstd::prelude::*;

use polars::prelude::PolarsError;

verus! {

/// Why a regression is not attempted.
#[derive(Debug)]
pub enum LstsqError {
    /// There are no rows.
    EmptyData,
    /// There are nulls, and the policy forbids them.
    NullsFound,
    /// There are fewer rows than features.
    TooFewRows,
    /// There are nulls among several targets, which filling does not treat.
    TargetNulls,
    /// There are nulls, and several targets do not allow the policy.
    PolicyUnsupported,
    /// Several targets do not allow the method.
    MethodUnsupported,
    /// The text of the null policy was not understood.
    Policy(String),
    /// Polars reported an error.
    Polars(PolarsError),
}

/// The cases of [`LstsqError`], without what polars reported.
pub enum Failure {
    EmptyData,
    NullsFound,
    TooFewRows,
    TargetNulls,
    PolicyUnsupported,
    MethodUnsupported,
    Policy(Seq<char>),
    Polars,
}

impl View for LstsqError {
    type V = Failure;

    open spec fn view(&self) -> Failure {
        match *self {
            LstsqError::EmptyData => Failure::EmptyData,
            LstsqError::NullsFound => Failure::NullsFound,
            LstsqError::TooFewRows => Failure::TooFewRows,
            LstsqError::TargetNulls => Failure::TargetNulls,
            LstsqError::PolicyUnsupported => Failure::PolicyUnsupported,
            LstsqError::MethodUnsupported => Failure::MethodUnsupported,
            LstsqError::Policy(text) => Failure::Policy(text@),
            LstsqError::Polars(_) => Failure::Polars,
        }
    }
}

/// The message of a failure that polars did not report.
pub open spec fn message(failure: Failure) -> Seq<char> {
    match failure {
        Failure::EmptyData => "Empty data"@,
        Failure::NullsFound => "Nulls found in data"@,
        Failure::TooFewRows => "#Data < #features. No conclusive result."@,
        Failure::TargetNulls => "Filling null doesn't work for multi-target lstsq when there are nulls in any of the targets."@,
        Failure::PolicyUnsupported => "The null policy is not supported by multi-target linear regression."@,
        Failure::MethodUnsupported => "The method is not supported."@,
        Failure::Policy(text) => text,
        Failure::Polars => Seq::empty(),
    }
}

impl LstsqError {
    /// The message, or what polars reported.
    pub fn into_message(self) -> (r: Result<String, PolarsError>)
        ensures
            r is Err <==> self is Polars,
            r matches Ok(text) ==> text@ == message(self@),
            r matches Err(e) ==> self == LstsqError::Polars(e),
    {
        match self {
            LstsqError::EmptyData => Ok("Empty data".to_owned()),
            LstsqError::NullsFound => Ok("Nulls found in data".to_owned()),
            LstsqError::TooFewRows => Ok("#Data < #features. No conclusive result.".to_owned()),
            LstsqError::TargetNulls => Ok(
                "Filling null doesn't work for multi-target lstsq when there are nulls in any of the targets.".to_owned(),
            ),
            LstsqError::PolicyUnsupported => Ok(
                "The null policy is not supported by multi-target linear regression.".to_owned(),
            ),
            LstsqError::MethodUnsupported => Ok("The method is not supported.".to_owned()),
            LstsqError::Policy(text) => Ok(text),
            LstsqError::Polars(e) => Err(e),
        }
    }
}

/// The messages of the failures, and which failure an error is.
pub proof fn errors_say_what_failed(e: LstsqError)
    ensures
        e is EmptyData <==> e@ is EmptyData,
        e is NullsFound <==> e@ is NullsFound,
        e is TooFewRows <==> e@ is TooFewRows,
        e is TargetNulls <==> e@ is TargetNulls,
        e is PolicyUnsupported <==> e@ is PolicyUnsupported,
        e is MethodUnsupported <==> e@ is MethodUnsupported,
        e is Polars <==> e@ is Polars,
        e matches LstsqError::Policy(text) ==> e@ == Failure::Policy(text@) && message(e@)
            == text@,
        e is EmptyData ==> message(e@) == "Empty data"@,
        e is NullsFound ==> message(e@) == "Nulls found in data"@,
        e is TooFewRows ==> message(e@) == "#Data < #features. No conclusive result."@,
        e is TargetNulls ==> message(e@)
            == "Filling null doesn't work for multi-target lstsq when there are nulls in any of the targets."@,
        e is PolicyUnsupported ==> message(e@)
            == "The null policy is not supported by multi-target linear regression."@,
        e is MethodUnsupported ==> message(e@) == "The method is not supported."@,
{
}

} // verus!
