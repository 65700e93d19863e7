//! The coercions behind [`Chain`](crate::chain::Chain): how a value is
//! borrowed as a plain error or as a chain-reporting error, whatever its type.

use crate::chain::{DynStackError, StackedError, StdError};
use vstd::prelude::*;

verus! {

/// Marks the types that can be borrowed as a plain error.
pub trait SealedStd {

}

/// Marks the types that can be borrowed as a chain-reporting error.
pub trait SealedStack {

}

/// A value that can be borrowed as a plain error: a text and a cause.
pub trait AsDynStdError: SealedStd {
    /// The plain error that the value is borrowed as.
    spec fn spec_std(&self) -> StdError;

    /// Borrows the value as a plain error.
    fn as_dyn_std_error(&self) -> (error: &StdError)
        ensures
            *error == self.spec_std(),
    ;
}

/// A value that can be borrowed as a chain-reporting error. As every
/// chain-reporting error is an error, it can be borrowed as a plain error too.
pub trait AsDynStackError: SealedStack + AsDynStdError {
    /// The chain-reporting error that the value is borrowed as.
    spec fn spec_stack(&self) -> DynStackError<'_>;

    /// Borrows the value as a chain-reporting error.
    fn as_dyn_stack_error(&self) -> (error: DynStackError<'_>)
        ensures
            error == self.spec_stack(),
    ;
}

impl SealedStd for StdError {

}

impl AsDynStdError for StdError {
    open spec fn spec_std(&self) -> StdError {
        *self
    }

    fn as_dyn_std_error(&self) -> (error: &StdError) {
        self
    }
}

impl SealedStd for StackedError {

}

impl AsDynStdError for StackedError {
    open spec fn spec_std(&self) -> StdError {
        self.error
    }

    fn as_dyn_std_error(&self) -> (error: &StdError) {
        &self.error
    }
}

impl SealedStack for StackedError {

}

impl AsDynStackError for StackedError {
    open spec fn spec_stack(&self) -> DynStackError<'_> {
        DynStackError::Record(self)
    }

    fn as_dyn_stack_error(&self) -> (error: DynStackError<'_>) {
        DynStackError::Record(self)
    }
}

} // verus!
