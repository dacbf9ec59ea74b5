use docgen::render_typst::{document_to_typst, esc, render_body, render_inline, render_para, render_section};
use docgen::schema::{BodyElement, Document, InlineStyle, Section};

fn span(text: &str, style: InlineStyle) -> BodyElement {
    BodyElement::TextSpan { text: text.to_string(), style }
}

fn plain() -> InlineStyle {
    InlineStyle::default()
}

#[test]
fn esc_escapes_hash_and_brackets() {
    assert_eq!(esc("a#[b]c"), "a\\#\\[b\\]c");
    assert_eq!(esc("plain text"), "plain text");
    assert_eq!(esc(""), "");
}

#[test]
fn render_inline_wraps_in_order() {
    let mut st = plain();
    st.code = true;
    st.bold = true;
    st.italic = true;
    st.href = Some("https://x.org".to_string());
    assert_eq!(render_inline(&span("a#", st)), "[***`a\\#`***](https://x.org)");
    assert_eq!(render_inline(&BodyElement::PageBreak), "");
}

#[test]
fn render_para_concatenates() {
    let mut bold = plain();
    bold.bold = true;
    let inl = vec![span("Hello ", plain()), span("world", bold)];
    assert_eq!(render_para(&inl), "Hello **world**");
}

#[test]
fn render_body_each_kind() {
    let body = vec![
        BodyElement::Paragraph(vec![span("p", plain())]),
        BodyElement::List {
            ordered: true,
            items: vec![
                vec![BodyElement::Paragraph(vec![span("one", plain())])],
                vec![BodyElement::Paragraph(vec![span("a", plain())]), BodyElement::Paragraph(vec![span("b", plain())])],
            ],
        },
        BodyElement::Image { src: "x.png".to_string(), alt: None, caption: Some("C#".to_string()) },
        BodyElement::Image { src: "y.png".to_string(), alt: None, caption: None },
        BodyElement::Table {
            headers: Some(vec!["H1".to_string(), "H#".to_string()]),
            rows: vec![vec![BodyElement::Paragraph(vec![span("c", plain())]), BodyElement::PageBreak]],
        },
        BodyElement::BlockQuote(vec![span("q", plain())]),
        BodyElement::CodeBlock { lang: None, code: "x = 1".to_string() },
        BodyElement::PageBreak,
        BodyElement::FootnoteRef("n1".to_string()),
        BodyElement::Callout { kind: "note".to_string(), content: vec![span("careful", plain())] },
        BodyElement::TableOfContents,
        span("t", plain()),
    ];
    let expected = [
        "p\n\n",
        "1. one\n1. a b\n\n",
        "figure(image(\"x.png\"), caption: [C\\#])\n\n",
        "image(\"y.png\")\n\n",
        "#table(\n  [[H1], [H\\#]],\n  [[c], []],\n)\n\n",
        "quote([q])\n\n",
        "```text\nx = 1\n```\n\n",
        "#pagebreak()\n",
        "[^n1]\n\n",
        "note[note: careful]\n\n",
        "#outline()\n\n",
        "t\n\n",
    ]
    .join("");
    assert_eq!(render_body(&body), expected);
}

#[test]
fn render_section_heading_line() {
    let sec = Section {
        level: 2,
        heading: "Intro".to_string(),
        body: vec![BodyElement::Paragraph(vec![span("x", plain())])],
        subsections: vec![Section { level: 3, heading: String::new(), body: vec![], subsections: vec![] }],
    };
    assert_eq!(render_section(&sec), "## Intro\n\nx\n\n");
}

#[test]
fn document_to_typst_preamble_and_body() {
    let mut doc = Document::default();
    doc.metadata.title = Some("T".to_string());
    doc.metadata.author = Some("A".to_string());
    doc.sections.push(Section { level: 1, heading: "H".to_string(), body: vec![], subsections: vec![] });
    assert_eq!(
        document_to_typst(&doc),
        "#set page(margin: 1in)\n#set par(justify: true)\n#set document(title: \"T\")\n#set document(author: \"A\")\n# H\n\n\n"
    );
}
