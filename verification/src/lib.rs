//! Parses `KEY=VALUE` declaration lines, as found in `.env` files, into an
//! ordered list of key/value pairs.
//!
//! The two central pieces are [`line::parse_line`], which scans a single
//! declaration line, and [`aggregate::parse`], which folds a sequence of raw
//! lines into either a pair list or a structured error report. Both carry
//! contracts that pin their results down to mathematical specifications of
//! the scan. Reading files and writing process environment variables are left
//! to unverified callers, which hand lines in and take pairs out.

pub mod aggregate;
pub mod errors;
pub mod laws;
pub mod line;
pub mod text;

pub use aggregate::{file_to_vec, parse, to_env, to_vec};
pub use errors::{SimpleEnvError, SimpleEnvErrorWrapper};
pub use line::parse_line;

