//! A simplified, renderable commit graph extracted from a repository's
//! history: commits are annotated with the references pointing at them,
//! then long linear chains of unremarkable commits are collapsed, with
//! parent edges re-linked to the nearest interesting ancestor.

pub mod commits;
pub mod ids;
pub mod simplify;
pub mod refs;
pub mod checkout;
