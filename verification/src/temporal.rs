//! Effects that are followed by a cleanup step: how the two outcomes combine.
use vstd::prelude::*;

verus! {

/// The error of `r`, if it failed.
pub open spec fn error_of<T, E>(r: Result<T, E>) -> Option<E> {
    match r {
        Ok(_) => None,
        Err(e) => Some(e),
    }
}

/// The outcome of an effect `primary` whose cleanup ended as `cleanup`. An effect counts as
/// completed only when both succeeded. A failed cleanup always fails the whole: `combine` gets
/// the primary failure (none when the effect itself succeeded) and the cleanup failure, and its
/// result is the error, so a double failure keeps both. A failed effect with a clean cleanup
/// keeps its own error.
pub fn finish_with_cleanup<T, E>(
    primary: Result<T, E>,
    cleanup: Result<(), E>,
    combine: impl FnOnce(Option<E>, E) -> E,
) -> (r: Result<T, E>)
    requires
        cleanup matches Err(c) ==> call_requires(combine, (error_of(primary), c)),
    ensures
        match cleanup {
            Ok(_) => r == primary,
            Err(c) => r matches Err(e) && call_ensures(combine, (error_of(primary), c), e),
        },
{
    match cleanup {
        Ok(()) => primary,
        Err(c) => {
            let p = match primary {
                Ok(_) => None,
                Err(e) => Some(e),
            };
            Err(combine(p, c))
        },
    }
}

} // verus!
