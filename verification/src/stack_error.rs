//! What every chain-reporting error offers: its location, its next link, and
//! the walk and the rendering of its chain.

use crate::chain::{first_std_of, last_stacked_of, Chain, DynStackError, Iter, StackedError, StdError};
use crate::location::Location;
use crate::private::AsDynStackError;
use crate::writer::ChainWriter;
use vstd::prelude::*;

verus! {

/// Error types that can report a stack trace-like chain.
pub trait StackError: AsDynStackError {
    /// Returns the source location of this error.
    fn location(&self) -> (location: &Location)
        ensures
            *location == self.spec_stack().spec_location(),
    {
        self.as_dyn_stack_error().location()
    }

    /// Returns the next detail in the stack.
    fn next<'a>(&'a self) -> (next: Option<Chain<'a>>)
        ensures
            next == self.spec_stack().spec_next(),
    {
        self.as_dyn_stack_error().next()
    }

    /// Creates an iterator over this error's stack details.
    fn iter<'a>(&'a self) -> (iter: Iter<'a>) where Self: Sized
        ensures
            iter.stack == Some(Chain::Stacked(self.spec_stack())),
    {
        Iter::new(self)
    }
}

impl<'a> Chain<'a> {
    /// The first link of the chain of the error `stack_error`.
    pub fn from<E: AsDynStackError>(stack_error: &'a E) -> (chain: Chain<'a>)
        ensures
            chain == Chain::Stacked(stack_error.spec_stack()),
    {
        Chain::Stacked(stack_error.as_dyn_stack_error())
    }
}

/// Convenience helpers for types implementing [`StackError`].
pub trait StackErrorExt: StackError + Sized {
    /// Returns a [`ChainWriter`] that walks this error stack from the top and
    /// prints a single trailing plain cause when formatting.
    fn to_chain<'a>(&'a self) -> (writer: ChainWriter<'a>)
        ensures
            writer.std_limit == 1,
            writer.stack == Chain::Stacked(self.spec_stack()),
    {
        self.to_chain_with_limit(1)
    }

    /// Returns a [`ChainWriter`] capped to `limit` trailing plain causes.
    fn to_chain_with_limit<'a>(&'a self, limit: usize) -> (writer: ChainWriter<'a>)
        ensures
            writer.std_limit == limit,
            writer.stack == Chain::Stacked(self.spec_stack()),
    {
        ChainWriter { std_limit: limit, stack: Chain::from(self) }
    }

    /// Returns the deepest link in the chain.
    fn last<'a>(&'a self) -> (last: Chain<'a>)
        ensures
            last == Chain::Stacked(self.spec_stack()).walk().last(),
    {
        Chain::from(self).last()
    }

    /// Returns the deepest stacked error in the chain; that is this error
    /// where nothing stacked lies below it.
    fn last_stacked<'a>(&'a self) -> (last: DynStackError<'a>)
        ensures
            last == last_stacked_of(Chain::Stacked(self.spec_stack()).walk(), self.spec_stack()),
    {
        Chain::from(self).last_stacked(self.as_dyn_stack_error())
    }

    /// Returns the first plain error in the chain, if the chain has one.
    fn last_std<'a>(&'a self) -> (first: Option<&'a StdError>)
        ensures
            first == first_std_of(Chain::Stacked(self.spec_stack()).walk()),
    {
        Chain::from(self).last_std()
    }
}

impl<E: StackError> StackErrorExt for E {

}

impl StackError for StackedError {

}

} // verus!
