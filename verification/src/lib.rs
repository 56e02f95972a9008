//! Small data-structure primitives: a generational handle table, a
//! borrow-or-own wrapper, a process-wide unique token, and compile-time
//! boolean predicate helpers.

pub mod handle_map;
pub mod maybe_owned;
pub mod misc;
pub mod unique;
