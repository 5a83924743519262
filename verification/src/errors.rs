//! Typed runtime errors of the interpreter core. Parse errors live with
//! the grammar; lock failures belong to the unverified shell that owns
//! the process-wide state map.

use vstd::prelude::*;

verus! {

/// An error surfaced by statement evaluation or built-in dispatch.
#[derive(Debug, PartialEq)]
pub enum InterpError {
    /// A built-in was called with the wrong arity or argument shape.
    ArgumentError { builtin: String, expected: usize, received: usize },
    /// A transfer of control named a step label that the program lacks.
    FlowError { label: String },
    /// A random selection was requested from an empty set.
    SelectionError,
}

} // verus!
