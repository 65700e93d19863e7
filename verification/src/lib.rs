//! Error chains with call-site locations.
//!
//! The crate has two halves. The first works on the description of an error
//! type and decides which field reports the call site and which field is the
//! next cause. The second walks a chain of causes and renders it.

pub mod ast;
pub mod attr;
pub mod bounds;
pub mod chain;
pub mod diagnostic;
pub mod expand;
pub mod least;
pub mod located;
pub mod location;
pub mod private;
pub mod resolve;
pub mod stack_error;
pub mod syntax;
pub mod text;
pub mod writer;

pub use chain::{Cause, Chain, DynStackError, Iter, StackedError, StdError};
pub use located::LocatedError;
pub use location::Location;
pub use stack_error::{StackError, StackErrorExt};
pub use writer::ChainWriter;
