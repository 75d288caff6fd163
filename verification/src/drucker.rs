//! The job handle: stored options plus command construction.

use vstd::prelude::*;

use crate::command::command_spec;
use crate::content::BuildError;
use crate::content::DruckerContent;
use crate::options::DruckerOptions;

verus! {

/// Handle that stores printer options and can describe multiple jobs.
pub struct Drucker {
    /// CUPS/LP options that control the job.
    pub options: DruckerOptions,
}

impl Drucker {
    /// Create a new [`Drucker`] configured with the provided options.
    pub fn new(options: DruckerOptions) -> (r: Self)
        ensures
            r.options == options,
    {
        Drucker { options }
    }

    /// Build a full shell-safe command line string to submit the job.
    ///
    /// `scratch_path` is the path of the scratch file into which the caller
    /// materializes inline text; it is used only when `content` is `Text`.
    pub fn build_command(&self, content: &DruckerContent, scratch_path: &str) -> (r: Result<
        String,
        BuildError,
    >)
        ensures
            r is Ok <==> !(content matches DruckerContent::File(p) && p@.len() == 0),
            content matches DruckerContent::File(p) ==> if p@.len() == 0 {
                r == Err::<String, BuildError>(BuildError::EmptyPath)
            } else {
                r matches Ok(c) && c@ == command_spec(self.options, p@)
            },
            content is Text ==> (r matches Ok(c) && c@ == command_spec(
                self.options,
                scratch_path@,
            )),
    {
        crate::command::build_command(&self.options, content, scratch_path)
    }
}

} // verus!
