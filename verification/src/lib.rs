//! Document generation: Markdown templates to a structured document model,
//! and from that model to Typst source and DOCX packages.
//!
//! The crate root holds the first, flat document model (text spans, page breaks
//! and lists under headed sections) that [`legacy`] renders; [`schema`] holds the
//! nested model that the rest of the crate builds and renders.

use vstd::prelude::*;
use std::collections::HashMap;

pub mod text;
pub mod schema;
pub mod events;
pub mod markdown;
pub mod builder;
pub mod error;
pub mod render_typst;
pub mod docx_plan;
pub mod render_docx;
pub mod docx_out;
pub mod template;
pub mod pdf;
pub mod generate;
pub mod legacy;
pub mod legacy_render;
pub mod pdf_plan;

verus! {

/// A body element of the flat model.
#[derive(Debug)]
pub enum BodyElement {
    TextSpan(TextSpan),
    PageBreak(PageBreak),
    List(ListElement),
}

/// A run of text with its style.
#[derive(Debug, Clone)]
pub struct TextSpan {
    pub text: String,
    pub bold: bool,
    pub italic: bool,
    pub underline: bool,
    pub font: Option<String>,
    pub href: Option<String>,
}

/// A page break.
#[derive(Debug, Clone, Copy)]
pub struct PageBreak {}

/// A list: whether it is numbered, and its items.
#[derive(Debug)]
pub struct ListElement {
    pub ordered: bool,
    pub items: Vec<Vec<BodyElement>>,
}

/// A section of the flat model.
#[derive(Debug)]
pub struct Section {
    pub heading: Option<String>,
    pub body: Vec<BodyElement>,
    pub subsections: Vec<Section>,
}

/// A document of the flat model.
#[derive(Debug, Clone)]
pub struct Document {
    pub doc_type: String,
    pub title: String,
    pub date: Option<String>,
    pub author: Option<String>,
    pub from_: Option<String>,
    pub to: Option<String>,
    pub subject: Option<String>,
    pub sections: Vec<Section>,
    pub attachments: Option<Vec<()>>,
    pub signatures: Option<Vec<()>>,
    pub footnotes: Option<Vec<()>>,
    pub metadata: Option<HashMap<String, serde_json::Value>>,
}

} // verus!
