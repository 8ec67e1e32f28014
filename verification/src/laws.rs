//! What the operations promise, stated of their inputs and results: how two
//! calls relate, and what a result has to satisfy.

pub mod compiled;
pub mod counted;
pub mod encoded;
pub mod found;
pub mod moved;
pub mod named;
pub mod replaced;
pub mod texts;
pub mod wildcards;
