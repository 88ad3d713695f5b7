//! Interned identifiers and source positions.

use vstd::prelude::*;

verus! {

/// An interned name.  After interning, equality and hashing are
/// identity-based: two identifiers are the same exactly when their
/// indices are the same.
#[derive(Clone, Copy, PartialEq, Eq, Structural, Hash, Debug)]
pub struct Id(pub u64);

/// A source position: a file handle and a byte span inside it, served by
/// an external position table.
#[derive(Clone, Copy, PartialEq, Eq, Structural, Debug)]
pub struct Pos {
    /// File handle in the external position table.
    pub file: u32,
    /// Byte offset where the span starts.
    pub start: u32,
    /// Byte offset one past the span's end.
    pub end: u32,
}

} // verus!
