//! A safe, race-free environment-variable source for layered configuration.
//!
//! The library takes one immutable snapshot of the process environment
//! (handed in as plain key/value pairs, where a missing side marks an entry
//! that was not valid Unicode), filters it by a name prefix and a caller
//! predicate, and transforms the surviving entries into a mapping from
//! dot-delimited key paths to typed values.

pub mod laws;
pub mod literals;
pub mod source;
pub mod text;
pub mod value;
