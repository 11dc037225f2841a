//! The converter's error type and the exit codes it maps to.

use vstd::prelude::*;
use vstd::string::*;

use crate::chars::joined;

verus! {

/// std's I/O error, carried through opaquely.
#[verifier::external_type_specification]
#[verifier::external_body]
pub struct ExIoError(std::io::Error);

/// What can go wrong while converting a document.
#[derive(Debug)]
pub enum Pdf2MdError {
    /// Invalid input arguments or file paths.
    InvalidInput(String),
    /// Error reading or processing the PDF.
    PdfProcessing(String),
    /// Error generating Markdown.
    MarkdownGeneration(String),
    /// I/O error.
    IoError(std::io::Error),
}

/// The process exit code that reports `e`.
pub open spec fn exit_code(e: Pdf2MdError) -> i32 {
    match e {
        Pdf2MdError::InvalidInput(_) => 1,
        Pdf2MdError::IoError(_) => 2,
        Pdf2MdError::MarkdownGeneration(_) => 3,
        Pdf2MdError::PdfProcessing(_) => 4,
    }
}

/// Relies on `std::io::Error`'s `Display`: the error's own description.
#[verifier::external_body]
fn io_error_text(e: &std::io::Error) -> String {
    e.to_string()
}

impl Pdf2MdError {
    /// The message that describes the error to a user.
    pub fn message(&self) -> (r: String)
        ensures
            match self {
                Pdf2MdError::InvalidInput(m) => r@ == "Invalid input: "@ + m@,
                Pdf2MdError::PdfProcessing(m) => r@ == "PDF processing error: "@ + m@,
                Pdf2MdError::MarkdownGeneration(m) => r@ == "Markdown generation error: "@ + m@,
                Pdf2MdError::IoError(_) => "I/O error: "@.is_prefix_of(r@),
            },
    {
        match self {
            Pdf2MdError::InvalidInput(m) => joined("Invalid input: ", m.as_str()),
            Pdf2MdError::PdfProcessing(m) => joined("PDF processing error: ", m.as_str()),
            Pdf2MdError::MarkdownGeneration(m) => joined("Markdown generation error: ", m.as_str()),
            Pdf2MdError::IoError(e) => {
                let text = io_error_text(e);
                let r = joined("I/O error: ", text.as_str());
                proof {
                    assert(r@.take("I/O error: "@.len() as int) =~= "I/O error: "@);
                }
                r
            },
        }
    }
}

impl From<std::io::Error> for Pdf2MdError {
    fn from(error: std::io::Error) -> (r: Self) {
        Pdf2MdError::IoError(error)
    }
}

impl vstd::std_specs::convert::FromSpecImpl<std::io::Error> for Pdf2MdError {
    open spec fn obeys_from_spec() -> bool {
        true
    }

    open spec fn from_spec(v: std::io::Error) -> Self {
        Pdf2MdError::IoError(v)
    }
}

/// The process exit code for an error: 1 for invalid input, 2 for I/O, 3
/// for Markdown generation and 4 for PDF processing.
pub fn error_to_exit_code(error: &Pdf2MdError) -> (r: i32)
    ensures
        r == exit_code(*error),
{
    match error {
        Pdf2MdError::InvalidInput(_) => 1,
        Pdf2MdError::PdfProcessing(_) => 4,
        Pdf2MdError::MarkdownGeneration(_) => 3,
        Pdf2MdError::IoError(_) => 2,
    }
}

/// What can go wrong while reading a PDF.
#[derive(Debug)]
pub enum PdfError {
    /// Invalid input arguments or file paths.
    InvalidInput(String),
    /// Error reading or processing the PDF.
    Processing(String),
    /// I/O error.
    Io(std::io::Error),
}

impl PdfError {
    /// The message that describes the error to a user.
    pub fn message(&self) -> (r: String)
        ensures
            match self {
                PdfError::InvalidInput(m) => r@ == "Invalid input: "@ + m@,
                PdfError::Processing(m) => r@ == "PDF processing error: "@ + m@,
                PdfError::Io(_) => "I/O error: "@.is_prefix_of(r@),
            },
    {
        match self {
            PdfError::InvalidInput(m) => joined("Invalid input: ", m.as_str()),
            PdfError::Processing(m) => joined("PDF processing error: ", m.as_str()),
            PdfError::Io(e) => {
                let r = joined("I/O error: ", io_error_text(e).as_str());
                proof {
                    assert(r@.take("I/O error: "@.len() as int) =~= "I/O error: "@);
                }
                r
            },
        }
    }
}

impl From<std::io::Error> for PdfError {
    fn from(error: std::io::Error) -> (r: Self) {
        PdfError::Io(error)
    }
}

impl vstd::std_specs::convert::FromSpecImpl<std::io::Error> for PdfError {
    open spec fn obeys_from_spec() -> bool {
        true
    }

    open spec fn from_spec(v: std::io::Error) -> Self {
        PdfError::Io(v)
    }
}

/// What can go wrong while writing Markdown.
#[derive(Debug)]
pub enum MarkdownError {
    /// I/O error.
    Io(std::io::Error),
}

impl MarkdownError {
    /// The message that describes the error to a user.
    pub fn message(&self) -> (r: String)
        ensures
            "I/O error: "@.is_prefix_of(r@),
    {
        match self {
            MarkdownError::Io(e) => {
                let r = joined("I/O error: ", io_error_text(e).as_str());
                proof {
                    assert(r@.take("I/O error: "@.len() as int) =~= "I/O error: "@);
                }
                r
            },
        }
    }
}

impl From<std::io::Error> for MarkdownError {
    fn from(error: std::io::Error) -> (r: Self) {
        MarkdownError::Io(error)
    }
}

impl vstd::std_specs::convert::FromSpecImpl<std::io::Error> for MarkdownError {
    open spec fn obeys_from_spec() -> bool {
        true
    }

    open spec fn from_spec(v: std::io::Error) -> Self {
        MarkdownError::Io(v)
    }
}

} // verus!
