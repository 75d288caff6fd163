//! Job content and the errors of command construction.

use vstd::prelude::*;

verus! {

/// Print content variants: raw text or a file path.
#[derive(Debug, Clone)]
pub enum DruckerContent {
    /// Print a text string (written to a scratch file before submission).
    Text(String),
    /// Print an existing file at this path.
    File(String),
}

/// Why a job description could not be turned into a command line.
#[derive(Debug, Clone, Copy, PartialEq, Eq, Structural)]
pub enum BuildError {
    /// The content was a file reference with an empty path.
    EmptyPath,
    /// The scratch file for inline text could not be created or written.
    ScratchIoError,
}

} // verus!
