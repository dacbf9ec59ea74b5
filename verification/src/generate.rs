//! The whole pipeline: template, Markdown, document, output bytes.

use vstd::prelude::*;
use crate::error::DocError;
use crate::events::spec_markdown_events_ext;
use crate::docx_out::{spec_docx_package, written_blocks};
use crate::markdown::{built_sections, markdown_body, markdown_to_document};
use crate::pdf::typst_to_pdf_bytes;
use crate::render_docx::{document_plan, document_to_docx_bytes};
use crate::render_typst::document_to_typst;
use crate::template::{render_template_to_markdown, spec_context_error, spec_rendered_template};

verus! {

/// Why generating a document failed, by stage.
#[derive(Debug)]
pub enum GenerateError {
    TemplateRender(DocError),
    MarkdownParse(DocError),
    DocxRender(DocError),
    PdfRender(DocError),
    /// The output format asked for is neither `docx` nor `pdf`.
    UnsupportedFormat(String),
}

impl GenerateError {
    /// Whether the failure lies with the input (reported as a value error) rather than
    /// with rendering (a runtime error).
    pub open spec fn spec_is_value_error(&self) -> bool {
        self is TemplateRender || self is MarkdownParse || self is UnsupportedFormat
    }

    pub fn is_value_error(&self) -> (r: bool)
        ensures
            r == self.spec_is_value_error(),
    {
        match self {
            GenerateError::TemplateRender(_) | GenerateError::MarkdownParse(_) | GenerateError::UnsupportedFormat(_) => true,
            _ => false,
        }
    }

    /// The message: the stage, then the cause.
    pub open spec fn spec_message(&self) -> Seq<char> {
        match self {
            GenerateError::TemplateRender(e) => "Template render error: "@ + e.spec_message(),
            GenerateError::MarkdownParse(e) => "Markdown parse error: "@ + e.spec_message(),
            GenerateError::DocxRender(e) => "DOCX render error: "@ + e.spec_message(),
            GenerateError::PdfRender(e) => "PDF render error: "@ + e.spec_message(),
            GenerateError::UnsupportedFormat(f) => "Unsupported output_format: "@ + f@,
        }
    }

    pub fn message(&self) -> (r: String)
        ensures
            r@ == self.spec_message(),
    {
        let (prefix, cause) = match self {
            GenerateError::TemplateRender(e) => (String::from_str("Template render error: "), e.message()),
            GenerateError::MarkdownParse(e) => (String::from_str("Markdown parse error: "), e.message()),
            GenerateError::DocxRender(e) => (String::from_str("DOCX render error: "), e.message()),
            GenerateError::PdfRender(e) => (String::from_str("PDF render error: "), e.message()),
            GenerateError::UnsupportedFormat(f) => (String::from_str("Unsupported output_format: "), f.clone()),
        };
        let mut r = prefix;
        r.append(cause.as_str());
        r
    }
}

/// Whether two texts are equal.
pub fn str_equal(a: &str, b: &str) -> (r: bool)
    ensures
        r == (a@ == b@),
{
    let x = String::from_str(a);
    let y = String::from_str(b);
    x == y
}

/// Renders the template with the context, parses the Markdown into a document and
/// renders it as `docx` or `pdf`.
pub fn generate_from_markdown(template_markdown: &str, context_json: &str, output_format: &str) -> (r: Result<
    Vec<u8>,
    GenerateError,
>)
    ensures
        match spec_context_error(context_json@) {
            Some(m) => r matches Err(GenerateError::TemplateRender(DocError::InvalidContext(x))) && x@ == m,
            None => match spec_rendered_template(template_markdown@, context_json@) {
                Err(m) => r matches Err(GenerateError::TemplateRender(DocError::Template(x))) && x@ == m,
                Ok(md) => if output_format@ == "docx"@ {
                    match spec_docx_package(
                        written_blocks(document_plan(None, built_sections(spec_markdown_events_ext(markdown_body(md))))),
                    ) {
                        Some(b) => r matches Ok(v) && v@ == b,
                        None => r matches Err(GenerateError::DocxRender(e)) && e is Docx,
                    }
                } else if output_format@ == "pdf"@ {
                    (r matches Err(GenerateError::PdfRender(e)) && e == DocError::PdfBackendDisabled)
                } else {
                    (r matches Err(GenerateError::UnsupportedFormat(f)) && f@ == output_format@)
                },
            },
        },
{
    let rendered_md = match render_template_to_markdown(template_markdown, context_json) {
        Ok(s) => s,
        Err(e) => {
            return Err(GenerateError::TemplateRender(e));
        },
    };
    let doc = match markdown_to_document(rendered_md.as_str()) {
        Ok(d) => d,
        Err(e) => {
            return Err(GenerateError::MarkdownParse(e));
        },
    };
    if str_equal(output_format, "docx") {
        match document_to_docx_bytes(&doc) {
            Ok(bytes) => Ok(bytes),
            Err(e) => Err(GenerateError::DocxRender(e)),
        }
    } else if str_equal(output_format, "pdf") {
        let typst_src = document_to_typst(&doc);
        match typst_to_pdf_bytes(typst_src.as_str()) {
            Ok(bytes) => Ok(bytes),
            Err(e) => Err(GenerateError::PdfRender(e)),
        }
    } else {
        Err(GenerateError::UnsupportedFormat(String::from_str(output_format)))
    }
}

} // verus!
