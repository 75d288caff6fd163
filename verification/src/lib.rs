//! Shell-safe print job submission for the CUPS `lp`/`lpr` tools.
//!
//! The crate synthesizes a single POSIX shell command line from a structured
//! job description.  Every attacker-influenced field is routed through a
//! single-quote escaper whose round-trip behaviour is proved, so no field
//! value can escape its argument position.

pub mod command;
pub mod content;
pub mod drucker;
pub mod escape;
pub mod options;
pub mod order;

pub use command::build_command;
pub use content::BuildError;
pub use content::DruckerContent;
pub use drucker::Drucker;
pub use escape::sh_escape;
pub use escape::sh_escape_path;
pub use options::DruckerOptions;
pub use options::DruckerOptionsBuilder;
