//! Compile-time dispatch synthesis by auto(de)ref specialization.
//!
//! Given a subject expression and an ordered list of type-guarded arms, the
//! library parses the invocation grammar into a structured arm list and emits
//! a block of code in which same-named capability traits are implemented at
//! distinct reference-indirection depths, so that the host's method lookup
//! (which peels automatic references one layer at a time) selects exactly the
//! first arm, in declaration order, whose type pattern the subject satisfies.
//!
//! Tokens are modelled by the library's own [`token::Tok`] type; the boundary
//! that converts real macro token streams to and from that model is ordinary
//! glue and lives outside the verified library.

pub mod arms;
pub mod codegen;
pub mod parse;
pub mod resolve;
pub mod slot;
pub mod token;
