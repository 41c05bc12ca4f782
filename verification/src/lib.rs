//! A small file-concatenation library: the verified core of a `cat`-style
//! command-line tool. It interprets command-line tokens into a configuration,
//! copies byte streams to an output sink in order, and can prefix every line
//! of the output with a right-aligned, 1-based line number.
//!
//! All file and terminal I/O lives outside this crate: callers hand the
//! library plain tokens and the bytes they read, and write the bytes the
//! library's sink accumulates.
#![verifier::loop_isolation(false)]

pub mod args;
pub mod engine;
pub mod format;
pub mod numbering;
pub mod sink;
