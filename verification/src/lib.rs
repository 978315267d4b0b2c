//! A minimal command-line flag parser.
//!
//! A [`FlagHandler`] captures an argument vector once and then answers pure
//! queries against that snapshot: whether a flag `-<name>` is present, the
//! typed value following a flag, or a bracketed comma-separated list of
//! values. Every failure path (flag absent, missing value, parse failure)
//! falls back to a caller-supplied default; no query ever fails.

pub mod handler;
pub mod laws;
pub mod model;
pub mod value;

pub use handler::FlagHandler;
pub use value::FlagValue;
