//! Errors surfaced by the algebra-level checker.

use crate::id::Id;
use vstd::prelude::*;

verus! {

/// A failure while building proof obligations.  Each variant names the
/// identifier that provoked it.
#[derive(Clone, Copy, PartialEq, Eq, Structural, Debug)]
pub enum CheckError {
    /// Substitution met an event with no binding: the IR is ill-typed.
    UnboundEvent(Id),
    /// An invocation names an instance that was never declared.
    UndefinedInstance(Id),
    /// An instance names a component with no known signature.
    UndefinedComponent(Id),
    /// A time expression carries an offset too large to substitute.
    OffsetOverflow(Id),
    /// A port reference names an invocation that was never bound.
    UndefinedInvocation(Id),
    /// A port reference names a port the signature does not declare.
    UndefinedPort(Id),
    /// An instance name was declared twice.
    DuplicateInstance(Id),
    /// An invocation name was bound twice.
    DuplicateInvocation(Id),
    /// A signature port carries no liveness interval.
    MissingLiveness(Id),
}

} // verus!
