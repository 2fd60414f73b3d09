//! Errors raised while reading the lines of a text file.
//!
//! The engine itself performs no input or output; these values describe, as
//! plain data, the two failures a line source can report.

use vstd::prelude::*;

verus! {

/// The ways in which reading a file can fail.
#[derive(Debug, PartialEq, Eq, Clone)]
pub enum ErrorArchivo {
    /// The path does not name a readable file.
    Path(String),
    /// A line of the file could not be read; carries the path and the
    /// one-based number of the offending line.
    Lectura(String, usize),
}

} // verus!
