//! What to do about nulls.
use vstd::prelude::*;

verus! {

/// How rows with nulls are treated. A number to fill with is given by its bits.
#[allow(non_camel_case_types)]
#[derive(Clone, Copy, Debug, PartialEq, Eq, Structural)]
pub enum NullPolicy {
    /// Nulls are an error.
    RAISE,
    /// A row with a null is dropped.
    SKIP,
    /// The data are taken as they are, and a window with too many nulls is skipped later.
    SKIP_WINDOW,
    /// The data are taken as they are.
    IGNORE,
    /// A null feature is replaced by the number, and a row with a null target is dropped.
    FILL(u64),
    /// A null feature is replaced by the number, and a null target stays.
    FILL_WINDOW(u64),
}

/// The policy that stands for the given one where the fit moves in windows: what would drop
/// rows leaves them in their place.
pub open spec fn windowed(policy: NullPolicy) -> NullPolicy {
    match policy {
        NullPolicy::SKIP => NullPolicy::SKIP_WINDOW,
        NullPolicy::FILL(x) => NullPolicy::FILL_WINDOW(x),
        _ => policy,
    }
}

/// The policy for a fit in windows.
pub fn windowed_policy(policy: NullPolicy) -> (r: NullPolicy)
    ensures
        policy matches NullPolicy::FILL(x) ==> r == NullPolicy::FILL_WINDOW(x),
        policy is SKIP ==> r is SKIP_WINDOW,
        !(policy is FILL) && !(policy is SKIP) ==> r == policy,
        r == windowed(policy),
{
    match policy {
        NullPolicy::SKIP => NullPolicy::SKIP_WINDOW,
        NullPolicy::FILL(x) => NullPolicy::FILL_WINDOW(x),
        _ => policy,
    }
}

/// A policy for windows never drops rows, and is its own policy for windows.
pub proof fn windowed_keeps_rows(policy: NullPolicy)
    ensures
        !(windowed(policy) is SKIP),
        !(windowed(policy) is FILL),
        windowed(windowed(policy)) == windowed(policy),
{
}

/// Where the fit moves in windows, nulls are filled with the number that was asked for, rows
/// that would be skipped become windows that are, and nothing else changes.
pub proof fn windows_keep_the_request(policy: NullPolicy)
    ensures
        policy matches NullPolicy::FILL(x) ==> windowed(policy) == NullPolicy::FILL_WINDOW(x),
        policy is SKIP <==> windowed(policy) != policy && !(policy is FILL),
        policy is SKIP ==> windowed(policy) is SKIP_WINDOW,
        forall|x: u64, y: u64|
            x != y ==> #[trigger] windowed(NullPolicy::FILL(x)) != #[trigger] windowed(
                NullPolicy::FILL(y),
            ),
{
}

} // verus!
