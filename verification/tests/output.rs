use docgen::docx_plan::DocxBlock;
use docgen::error::DocError;
use docgen::generate::{generate_from_markdown, GenerateError};
use docgen::pdf::typst_to_pdf_bytes;
use docgen::render_docx::{docx_plan, document_to_docx_bytes};
use docgen::schema::{BodyElement, Document, InlineStyle, Section};
use docgen::template::render_template_to_markdown;
use docgen::text::usize_to_decimal;

#[test]
fn template_renders_without_escaping() {
    let r = render_template_to_markdown("Hi {{name}}", "{\"name\": \"<A & B>\"}");
    assert_eq!(r.ok(), Some("Hi <A & B>".to_string()));
}

#[test]
fn template_context_must_be_json() {
    assert!(matches!(render_template_to_markdown("Hi", "{"), Err(DocError::InvalidContext(_))));
}

#[test]
fn template_errors_are_reported() {
    assert!(matches!(render_template_to_markdown("{{#if}}", "{}"), Err(DocError::Template(_))));
}

#[test]
fn pdf_backend_is_disabled() {
    let r = typst_to_pdf_bytes("= x");
    match r {
        Err(e) => {
            assert!(matches!(e, DocError::PdfBackendDisabled));
            assert_eq!(
                e.message(),
                "PDF generation disabled: build with feature `pdf-typst-cli` or provide another PDF backend."
            );
        },
        Ok(_) => panic!("expected an error"),
    }
}

#[test]
fn generate_rejects_unknown_format() {
    match generate_from_markdown("# T", "{}", "txt") {
        Err(e) => {
            assert!(matches!(e, GenerateError::UnsupportedFormat(_)));
            assert!(e.is_value_error());
            assert_eq!(e.message(), "Unsupported output_format: txt");
        },
        Ok(_) => panic!("expected an error"),
    }
}

#[test]
fn generate_pdf_reports_disabled_backend() {
    match generate_from_markdown("# {{t}}", "{\"t\": \"x\"}", "pdf") {
        Err(e) => {
            assert!(matches!(e, GenerateError::PdfRender(DocError::PdfBackendDisabled)));
            assert!(!e.is_value_error());
            assert!(e.message().starts_with("PDF render error: PDF generation disabled"));
        },
        Ok(_) => panic!("expected an error"),
    }
}

#[test]
fn generate_template_error_is_a_value_error() {
    match generate_from_markdown("x", "not json", "docx") {
        Err(e) => {
            assert!(matches!(e, GenerateError::TemplateRender(DocError::InvalidContext(_))));
            assert!(e.is_value_error());
            assert!(e.message().starts_with("Template render error: "));
        },
        Ok(_) => panic!("expected an error"),
    }
}

#[test]
fn generate_docx_gives_a_zip() {
    let bytes = generate_from_markdown("# {{t}}\n\nbody", "{\"t\": \"Title\"}", "docx").ok().expect("docx");
    assert!(bytes.starts_with(b"PK\x03\x04"));
}

fn span(text: &str, bold: bool) -> BodyElement {
    let mut style = InlineStyle::default();
    style.bold = bold;
    BodyElement::TextSpan { text: text.to_string(), style }
}

#[test]
fn docx_plan_title_headings_and_runs() {
    let mut doc = Document::default();
    doc.metadata.title = Some("Title".to_string());
    doc.sections.push(Section {
        level: 1,
        heading: "H".to_string(),
        body: vec![
            BodyElement::Paragraph(vec![span("a", false), span("b", true)]),
            BodyElement::List { ordered: false, items: vec![vec![BodyElement::Paragraph(vec![span("i", false)])]] },
            BodyElement::Callout { kind: "warn".to_string(), content: vec![span("x", false)] },
            BodyElement::PageBreak,
        ],
        subsections: vec![],
    });
    let plan = docx_plan(&doc);
    assert_eq!(plan.len(), 6);
    match &plan[0] {
        DocxBlock::Paragraph(p) => {
            assert_eq!(p.runs[0].texts, vec!["Title".to_string()]);
            assert!(p.runs[0].bold);
            assert_eq!(p.runs[0].size, Some(48));
        },
        _ => panic!(),
    }
    match &plan[2] {
        DocxBlock::Paragraph(p) => {
            assert_eq!(p.runs.len(), 1);
            assert_eq!(p.runs[0].texts, vec!["a".to_string(), "b".to_string()]);
            assert!(p.runs[0].bold);
        },
        _ => panic!(),
    }
    match &plan[3] {
        DocxBlock::Paragraph(p) => assert_eq!(p.numbering, Some(2)),
        _ => panic!(),
    }
    match &plan[4] {
        DocxBlock::Paragraph(p) => assert_eq!(p.runs[0].texts, vec!["[WARN] ".to_string(), "x".to_string()]),
        _ => panic!(),
    }
    match &plan[5] {
        DocxBlock::Paragraph(p) => {
            assert!(p.page_break_before);
            assert!(p.runs.is_empty());
        },
        _ => panic!(),
    }
}

#[test]
fn docx_plan_tables() {
    let mut doc = Document::default();
    doc.sections.push(Section {
        level: 1,
        heading: String::new(),
        body: vec![BodyElement::Table {
            headers: Some(vec!["A".to_string()]),
            rows: vec![vec![BodyElement::Paragraph(vec![span("c", false)]), BodyElement::PageBreak]],
        }],
        subsections: vec![],
    });
    let plan = docx_plan(&doc);
    assert_eq!(plan.len(), 1);
    match &plan[0] {
        DocxBlock::Table(rows) => {
            assert_eq!(rows.len(), 2);
            assert!(rows[0][0].runs[0].bold);
            assert_eq!(rows[1][0].runs[0].texts, vec!["c".to_string()]);
            assert_eq!(rows[1][1].runs[0].texts, vec![" ".to_string()]);
        },
        _ => panic!(),
    }
    let bytes = document_to_docx_bytes(&doc).ok().expect("docx");
    assert!(bytes.starts_with(b"PK\x03\x04"));
}

#[test]
fn decimal_forms() {
    assert_eq!(usize_to_decimal(0), "0");
    assert_eq!(usize_to_decimal(7), "7");
    assert_eq!(usize_to_decimal(1203), "1203");
}

#[test]
fn docx_bytes_depend_on_title_and_sections_only() {
    let mut d1 = Document::default();
    d1.metadata.title = Some("T".to_string());
    d1.sections.push(Section { level: 1, heading: "H".to_string(), body: vec![span("x", true)], subsections: vec![] });
    let mut d2 = Document::default();
    d2.metadata.title = Some("T".to_string());
    d2.metadata.author = Some("someone".to_string());
    d2.sections.push(Section { level: 1, heading: "H".to_string(), body: vec![span("x", true)], subsections: vec![] });
    let b1 = document_to_docx_bytes(&d1).ok().expect("docx");
    let b2 = document_to_docx_bytes(&d2).ok().expect("docx");
    assert_eq!(b1, b2);
    d2.metadata.title = Some("U".to_string());
    let b3 = document_to_docx_bytes(&d2).ok().expect("docx");
    assert_ne!(b1, b3);
}

#[test]
fn cloned_document_renders_the_same() {
    let mut d = Document::default();
    d.metadata.title = Some("T".to_string());
    d.sections.push(Section {
        level: 1,
        heading: "H".to_string(),
        body: vec![BodyElement::List { ordered: true, items: vec![vec![span("a", false)]] }],
        subsections: vec![Section { level: 2, heading: "S".to_string(), body: vec![span("b", true)], subsections: vec![] }],
    });
    let c = d.clone();
    assert_eq!(document_to_docx_bytes(&d).ok(), document_to_docx_bytes(&c).ok());
    assert_eq!(docx_plan(&d).len(), docx_plan(&c).len());
}

#[test]
fn line_breaks_in_run_texts_are_not_written() {
    let mut d1 = Document::default();
    d1.sections.push(Section { level: 1, heading: String::new(), body: vec![span("x\ny", false)], subsections: vec![] });
    let mut d2 = Document::default();
    d2.sections.push(Section { level: 1, heading: String::new(), body: vec![span("xy", false)], subsections: vec![] });
    assert_eq!(document_to_docx_bytes(&d1).ok(), document_to_docx_bytes(&d2).ok());
}
