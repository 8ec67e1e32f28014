//! The core of Acervo, a desktop tool that searches, replaces, copies, moves
//! and compresses files.

pub mod archive;
pub mod compile;
pub mod defender;
pub mod engines;
pub mod folders;
pub mod hits;
pub mod inspection;
pub mod laws;
pub mod matchers;
pub mod names;
pub mod occurrences;
pub mod replace;
pub mod request;
pub mod search;
pub mod session;
pub mod terms;
pub mod text;
pub mod transfer;
pub mod wildcard;
