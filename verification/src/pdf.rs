//! PDF output.

use vstd::prelude::*;
use crate::error::DocError;

verus! {

/// PDF from Typst source. No PDF backend is built into the library: this always
/// reports that (the application may compile Typst with the `typst` command instead).
pub fn typst_to_pdf_bytes(_typst_src: &str) -> (r: Result<Vec<u8>, DocError>)
    ensures
        r matches Err(e) && e == DocError::PdfBackendDisabled,
{
    Err(DocError::PdfBackendDisabled)
}

} // verus!
