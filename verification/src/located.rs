//! The wrapper that gives a plain error a location.

use crate::chain::{DynStackError, StdError};
use crate::location::Location;
use crate::private::{AsDynStackError, AsDynStdError, SealedStack, SealedStd};
use crate::stack_error::StackError;
use vstd::prelude::*;

verus! {

/// Wrapper that records the call-site for any plain error and exposes it as
/// a [`StackError`].
///
/// This is useful when you already have an error type that cannot be changed
/// to report a chain itself: the wrapper puts one frame with a location in
/// front of it and then hands over to the plain causes of the error.
#[derive(Debug)]
pub struct LocatedError<E> {
    source: E,
    location: Location,
}

impl<E> LocatedError<E> {
    /// The error that was wrapped.
    pub closed spec fn spec_inner(&self) -> E {
        self.source
    }

    /// The location that the wrapper records.
    pub closed spec fn spec_location(&self) -> Location {
        self.location
    }

    /// Wraps `value`, recording that it was made at `location`.
    pub fn new(value: E, location: Location) -> (located: LocatedError<E>)
        ensures
            located.spec_inner() == value,
            located.spec_location() == location,
    {
        LocatedError { source: value, location }
    }

    /// Returns the inner value
    pub fn into_inner(self) -> (inner: E)
        ensures
            inner == self.spec_inner(),
    {
        self.source
    }
}

impl<E: AsDynStdError> SealedStd for LocatedError<E> {

}

impl<E: AsDynStdError> AsDynStdError for LocatedError<E> {
    /// As a plain error the wrapper is the error that it wraps: same text, same cause.
    open spec fn spec_std(&self) -> StdError {
        self.spec_inner().spec_std()
    }

    fn as_dyn_std_error(&self) -> (error: &StdError) {
        self.source.as_dyn_std_error()
    }
}

impl<E: AsDynStdError> SealedStack for LocatedError<E> {

}

impl<E: AsDynStdError> AsDynStackError for LocatedError<E> {
    /// As a chain-reporting error the wrapper is the wrapped error at the
    /// recorded location.
    open spec fn spec_stack(&self) -> DynStackError<'_> {
        DynStackError::Located {
            location: &self.spec_location(),
            inner: &self.spec_inner().spec_std(),
        }
    }

    fn as_dyn_stack_error(&self) -> (error: DynStackError<'_>) {
        DynStackError::Located { location: &self.location, inner: self.source.as_dyn_std_error() }
    }
}

impl<E: AsDynStdError> StackError for LocatedError<E> {

}

/// A wrapped error makes a chain of one stacked link, which shows the text
/// of the error at the recorded location, followed by the plain causes of
/// the error.
pub proof fn law_located_is_one_frame<E: AsDynStdError>(located: &LocatedError<E>)
    ensures
        located.spec_stack().links() == seq![
            crate::chain::Link {
                stacked: true,
                text: located.spec_inner().spec_std().text@,
                location: Some(located.spec_location()@),
            },
        ] + match located.spec_inner().spec_std().source {
            Some(source) => source.links(),
            None => Seq::empty(),
        },
{
}

} // verus!
