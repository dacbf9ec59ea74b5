//! The library's errors.

use vstd::prelude::*;

verus! {

/// What can go wrong on the way from a template to a rendered document.
#[derive(Debug)]
pub enum DocError {
    /// The template's context is not valid JSON; the parser's message.
    InvalidContext(String),
    /// The template could not be rendered; the renderer's message.
    Template(String),
    /// The DOCX package could not be written; the packer's message.
    Docx(String),
    /// No PDF backend is built in.
    PdfBackendDisabled,
}


impl DocError {
    /// The message that describes the error.
    pub open spec fn spec_message(&self) -> Seq<char> {
        match self {
            DocError::InvalidContext(m) => m@,
            DocError::Template(m) => m@,
            DocError::Docx(m) => m@,
            DocError::PdfBackendDisabled => "PDF generation disabled: build with feature `pdf-typst-cli` or provide another PDF backend."@,
        }
    }

    /// The message that describes the error.
    pub fn message(&self) -> (r: String)
        ensures
            r@ == self.spec_message(),
    {
        match self {
            DocError::InvalidContext(m) => m.clone(),
            DocError::Template(m) => m.clone(),
            DocError::Docx(m) => m.clone(),
            DocError::PdfBackendDisabled => String::from_str(
                "PDF generation disabled: build with feature `pdf-typst-cli` or provide another PDF backend.",
            ),
        }
    }
}

} // verus!
