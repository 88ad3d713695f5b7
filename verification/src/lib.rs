//! Interval-checking core of a timing-sensitive hardware description
//! language compiler.
//!
//! The library proves, for a component whose ports are annotated with
//! liveness intervals, that every connection satisfies the requirement of
//! its destination using the guarantee of its source.  It is split into a
//! symbolic time algebra ([`fsm_idx`]), the surface data model ([`ast`]),
//! the algebra-level obligation checker ([`checker`]), and an SMT
//! discharge session ([`discharge`]) that lowers an indexed IR ([`ir`])
//! into solver commands.  The solver subprocess itself is outside the
//! library: the session hands command strings out and takes responses in.

pub mod ast;
pub mod checker;
pub mod discharge;
pub mod errors;
pub mod fsm_idx;
pub mod id;
pub mod interval;
pub mod ir;
pub mod lhm;
pub mod sexp;
pub mod text;
