//! Command-line options and the application shell around them.

use vstd::prelude::*;
use crate::output::OutputFormat;

verus! {

/// The command-line options: the target to trace and the output switches.
#[derive(Debug, Clone)]
pub struct Args {
    /// Target file or binary name to trace.
    pub target: String,
    /// Enable verbose logging.
    pub verbose: bool,
    /// Output in JSON format.
    pub json: bool,
}

impl Args {
    /// The output format the flags select: JSON when asked for, the tree
    /// otherwise.
    pub fn output_format(&self) -> (r: OutputFormat)
        ensures
            r == (if self.json {
                OutputFormat::Json
            } else {
                OutputFormat::Tree
            }),
    {
        if self.json {
            OutputFormat::Json
        } else {
            OutputFormat::Tree
        }
    }
}

/// The application around one set of options.
#[derive(Debug, Clone)]
pub struct Cli {
    pub args: Args,
}

impl Cli {
    /// Wrap already-parsed options.
    pub fn with_args(args: Args) -> (r: Self)
        ensures
            r.args == args,
    {
        Cli { args }
    }
}

} // verus!
