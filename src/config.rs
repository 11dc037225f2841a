//! The command line's arguments and the configuration built from them.

use vstd::prelude::*;
use vstd::string::*;
use crate::error::Pdf2MdError;

use crate::chars::joined;

verus! {

/// The command line's arguments.
#[derive(Debug)]
pub struct Args {
    /// Path to the input PDF file.
    pub input: String,
    /// Path to the output Markdown file.
    pub output: String,
    /// Verbose output.
    pub verbose: bool,
    /// Preview the PDF's structure instead of converting it.
    pub dry_run: bool,
}

/// The configuration of one run.
#[derive(Debug, Clone)]
pub struct Config {
    /// Path to the input PDF file.
    pub input_path: String,
    /// Path to the output Markdown file.
    pub output_path: String,
    /// Verbose output.
    pub verbose: bool,
    /// Preview the PDF's structure instead of converting it.
    pub dry_run: bool,
}

/// Checks the input path, given what the file system says of it: it must
/// exist, and be a file.
pub fn validate_input_path(path: &str, exists: bool, is_file: bool) -> (r: Result<(), Pdf2MdError>)
    ensures
        !exists ==> (r matches Err(Pdf2MdError::InvalidInput(m))
            && m@ == "Input file does not exist: "@ + path@),
        exists && !is_file ==> (r matches Err(Pdf2MdError::InvalidInput(m))
            && m@ == "Input path is not a file: "@ + path@),
        exists && is_file ==> r is Ok,
{
    if !exists {
        return Err(Pdf2MdError::InvalidInput(joined("Input file does not exist: ", path)));
    }
    if !is_file {
        return Err(Pdf2MdError::InvalidInput(joined("Input path is not a file: ", path)));
    }
    Ok(())
}

impl Config {
    /// The configuration that the arguments ask for.
    pub fn from_args(args: Args) -> (r: Config)
        ensures
            r.input_path == args.input,
            r.output_path == args.output,
            r.verbose == args.verbose,
            r.dry_run == args.dry_run,
    {
        Config {
            input_path: args.input,
            output_path: args.output,
            verbose: args.verbose,
            dry_run: args.dry_run,
        }
    }

    /// Checks the configuration, given what the file system says of the
    /// input path. The output path is not checked: its directories are
    /// created when it is written.
    pub fn validate(&self, input_exists: bool, input_is_file: bool) -> (r: Result<(), Pdf2MdError>)
        ensures
            !input_exists ==> (r matches Err(Pdf2MdError::InvalidInput(m))
                && m@ == "Input file does not exist: "@ + self.input_path@),
            input_exists && !input_is_file ==> (r matches Err(Pdf2MdError::InvalidInput(m))
                && m@ == "Input path is not a file: "@ + self.input_path@),
            input_exists && input_is_file ==> r is Ok,
    {
        validate_input_path(self.input_path.as_str(), input_exists, input_is_file)
    }
}

} // verus!
