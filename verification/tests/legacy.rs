use docgen::legacy::{is_pagebreak_marker, markdown_to_document};
use docgen::legacy_render::generate_docx_from_markdown;
use docgen::pdf_plan::{pdf_plan, pdf_plan_from_markdown, PdfBlock};
use docgen::{BodyElement, Section};

fn span_text(e: &BodyElement) -> (String, bool, bool) {
    match e {
        BodyElement::TextSpan(t) => (t.text.clone(), t.bold, t.italic),
        _ => panic!("not a text span"),
    }
}

#[test]
fn heading_opens_a_titled_empty_section() {
    let doc = markdown_to_document("# Title\nHello\n## Sub\nMore", "T");
    assert_eq!(doc.doc_type, "testdoc");
    assert_eq!(doc.title, "T");
    let headings: Vec<Option<String>> = doc.sections.iter().map(|s: &Section| s.heading.clone()).collect();
    assert_eq!(headings, vec![Some("Title".to_string()), Some("Sub".to_string())]);
    assert!(doc.sections.iter().all(|s| s.body.is_empty() && s.subsections.is_empty()));
    assert!(doc.author.is_none() && doc.metadata.is_none());
}

#[test]
fn untitled_section_holds_body_and_split_marker_text() {
    // The parser hands the bracketed marker over in several text events, so no
    // single event equals the marker and it stays text.
    let doc = markdown_to_document("Hello\n\n  [[PAGEBREAK]] \n\n**Bye** *now*", "T");
    assert_eq!(doc.sections.len(), 1);
    let s = &doc.sections[0];
    assert!(s.heading.is_none());
    let n = s.body.len();
    assert!(n > 5);
    assert_eq!(span_text(&s.body[0]), ("Hello".to_string(), false, false));
    assert!(s.body.iter().all(|e| !matches!(e, BodyElement::PageBreak(_))));
    let mut middle = String::new();
    for e in &s.body[1..n - 3] {
        middle.push_str(&span_text(e).0);
    }
    assert_eq!(middle, "[[PAGEBREAK]]");
    assert_eq!(span_text(&s.body[n - 3]), ("Bye".to_string(), true, false));
    assert_eq!(span_text(&s.body[n - 2]), (" ".to_string(), false, false));
    assert_eq!(span_text(&s.body[n - 1]), ("now".to_string(), false, true));
}

#[test]
fn numbered_list_from_one() {
    let doc = markdown_to_document("1. one\n2. two", "T");
    let s = &doc.sections[0];
    match &s.body[0] {
        BodyElement::List(l) => {
            assert!(l.ordered);
            assert_eq!(l.items.len(), 2);
            assert_eq!(span_text(&l.items[0][0]).0, "one");
            assert_eq!(span_text(&l.items[1][0]).0, "two");
        },
        _ => panic!("not a list"),
    }
}

#[test]
fn list_numbered_from_three_is_not_collected() {
    let doc = markdown_to_document("3. x", "T");
    let s = &doc.sections[0];
    assert_eq!(s.body.len(), 2);
    assert_eq!(span_text(&s.body[0]).0, "x");
    match &s.body[1] {
        BodyElement::List(l) => {
            assert!(!l.ordered);
            assert_eq!(l.items.len(), 1);
            assert!(l.items[0].is_empty());
        },
        _ => panic!("not a list"),
    }
}

#[test]
fn pagebreak_marker_is_trimmed() {
    assert!(is_pagebreak_marker("[[PAGEBREAK]]"));
    assert!(is_pagebreak_marker(" \t[[PAGEBREAK]]\n"));
    assert!(!is_pagebreak_marker("[[PAGEBREAK]] x"));
    assert!(!is_pagebreak_marker(""));
}

#[test]
fn pdf_plan_numbers_list_items() {
    let plan = pdf_plan_from_markdown("1. a\n2. b", None);
    assert_eq!(plan.title, "Document");
    let texts: Vec<String> = plan
        .blocks
        .iter()
        .filter_map(|b| match b {
            PdfBlock::Paragraph(p) => Some(p.text.clone()),
            _ => None,
        })
        .collect();
    assert_eq!(texts, vec!["Document".to_string(), "1. a".to_string(), "2. b".to_string()]);
    assert!(matches!(plan.blocks[1], PdfBlock::Break(1)));
    match &plan.blocks[0] {
        PdfBlock::Paragraph(p) => {
            assert!(p.bold && p.centered);
            assert_eq!(p.size, Some(24));
        },
        _ => panic!(),
    }
}

#[test]
fn pdf_plan_headings_author_and_page_breaks() {
    let mut doc = markdown_to_document("- a\n- b", "Report");
    doc.author = Some("Ann".to_string());
    doc.sections[0].heading = Some("Intro".to_string());
    doc.sections[0].body.push(BodyElement::PageBreak(docgen::PageBreak {}));
    let plan = pdf_plan(&doc);
    assert_eq!(plan.title, "Report");
    match &plan.blocks[1] {
        PdfBlock::Paragraph(p) => {
            assert_eq!(p.text, "Author: Ann");
            assert!(p.centered);
        },
        _ => panic!(),
    }
    match &plan.blocks[3] {
        PdfBlock::Paragraph(p) => {
            assert_eq!(p.text, "Intro");
            assert_eq!(p.size, Some(18));
            assert!(p.bold);
        },
        _ => panic!(),
    }
    match &plan.blocks[4] {
        PdfBlock::Paragraph(p) => assert_eq!(p.text, "- a"),
        _ => panic!(),
    }
    assert!(matches!(plan.blocks[6], PdfBlock::PageBreak));
}

#[test]
fn legacy_docx_bytes_are_a_zip() {
    let bytes = generate_docx_from_markdown("# T\nhi\n\n- a", Some("Doc")).expect("docx");
    assert!(bytes.starts_with(b"PK\x03\x04"));
}

#[test]
fn docx_without_title_is_titled_document() {
    let md = "# Heading\n\nSome *text*\n\n- a\n- b\n";
    let a = generate_docx_from_markdown(md, None).ok().expect("docx");
    let b = generate_docx_from_markdown(md, Some("Document")).ok().expect("docx");
    assert_eq!(a, b);
    let c = generate_docx_from_markdown(md, Some("Other")).ok().expect("docx");
    assert_ne!(a, c);
}
