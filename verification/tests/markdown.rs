use docgen::events::{heading_level_to_u8, MdHeadingLevel};
use docgen::markdown::{markdown_to_document, split_front_matter};
use docgen::schema::{BodyElement, Document, Section};

fn parse(md: &str) -> Document {
    match markdown_to_document(md) {
        Ok(d) => d,
        Err(_) => panic!("markdown failed to parse"),
    }
}

fn text_of(e: &BodyElement) -> String {
    match e {
        BodyElement::TextSpan { text, .. } => text.clone(),
        _ => panic!("not a text span"),
    }
}

fn para(e: &BodyElement) -> &Vec<BodyElement> {
    match e {
        BodyElement::Paragraph(v) => v,
        _ => panic!("not a paragraph"),
    }
}

#[test]
fn heading_levels_are_numbered() {
    assert_eq!(heading_level_to_u8(MdHeadingLevel::H1), 1);
    assert_eq!(heading_level_to_u8(MdHeadingLevel::H4), 4);
    assert_eq!(heading_level_to_u8(MdHeadingLevel::H6), 6);
}

#[test]
fn heading_then_paragraph_gives_title_and_work_section() {
    let doc = parse("# Title\n\nHello *world*\n");
    assert_eq!(doc.sections.len(), 2);
    let s0: &Section = &doc.sections[0];
    assert_eq!(s0.level, 1);
    assert_eq!(s0.heading, "Title");
    assert!(s0.body.is_empty());
    let s1 = &doc.sections[1];
    assert_eq!(s1.level, 1);
    assert_eq!(s1.heading, "");
    assert_eq!(s1.body.len(), 1);
    let p = para(&s1.body[0]);
    assert_eq!(p.len(), 2);
    assert_eq!(text_of(&p[0]), "Hello ");
    match &p[1] {
        BodyElement::TextSpan { text, style } => {
            assert_eq!(text, "world");
            assert!(style.italic);
            assert!(!style.bold);
        },
        _ => panic!("not a text span"),
    }
    assert!(doc.front_matter.is_none());
    assert!(doc.metadata.title.is_none());
}

#[test]
fn sections_nest_under_lower_levels() {
    let doc = parse("# A\n## B\ntext\n# C\n");
    let headings: Vec<(u8, String)> = doc.sections.iter().map(|s| (s.level, s.heading.clone())).collect();
    assert_eq!(
        headings,
        vec![(1, "A".to_string()), (1, String::new()), (1, "C".to_string()), (1, String::new())]
    );
    let work = &doc.sections[1];
    assert_eq!(work.subsections.len(), 2);
    assert_eq!(work.subsections[0].level, 2);
    assert_eq!(work.subsections[0].heading, "B");
    assert_eq!(work.subsections[1].level, 2);
    assert_eq!(text_of(&para(&work.subsections[1].body[0])[0]), "text");
}

#[test]
fn text_before_any_heading_is_not_kept() {
    let doc = parse("- a\n- b\n");
    assert!(doc.sections.is_empty());
}

#[test]
fn lists_collect_items() {
    let doc = parse("# L\n1. x\n2. y\n\n- z\n");
    let body = &doc.sections[1].body;
    assert_eq!(body.len(), 2);
    match &body[0] {
        BodyElement::List { ordered, items } => {
            assert!(*ordered);
            assert_eq!(items.len(), 2);
            assert_eq!(text_of(&para(&items[0][0])[0]), "x");
            assert_eq!(text_of(&para(&items[1][0])[0]), "y");
        },
        _ => panic!("not a list"),
    }
    match &body[1] {
        BodyElement::List { ordered, items } => {
            assert!(!*ordered);
            assert_eq!(items.len(), 1);
        },
        _ => panic!("not a list"),
    }
}

#[test]
fn fenced_code_block_keeps_language_and_text() {
    let doc = parse("# C\n```rust\nfn main() {}\n```\n");
    match &doc.sections[1].body[0] {
        BodyElement::CodeBlock { lang, code } => {
            assert_eq!(lang.as_deref(), Some("rust"));
            assert_eq!(code, "fn main() {}\n");
        },
        _ => panic!("not a code block"),
    }
}

#[test]
fn inline_styles_links_and_code() {
    let doc = parse("# T\n~~s~~ and `c` [l](http://u)\n");
    let p = para(&doc.sections[1].body[0]);
    match &p[0] {
        BodyElement::TextSpan { text, style } => {
            assert_eq!(text, "s");
            assert!(style.strike);
        },
        _ => panic!(),
    }
    assert_eq!(text_of(&p[1]), " and ");
    match &p[2] {
        BodyElement::TextSpan { text, style } => {
            assert_eq!(text, "c");
            assert!(style.code);
        },
        _ => panic!(),
    }
    match &p[4] {
        BodyElement::TextSpan { text, style } => {
            assert_eq!(text, "l");
            assert_eq!(style.href.as_deref(), Some("http://u"));
        },
        _ => panic!(),
    }
}

#[test]
fn image_becomes_an_element_with_title_as_alt() {
    let doc = parse("# T\n![alt](img.png \"Cap\")\n");
    let p = para(&doc.sections[1].body[0]);
    match &p[0] {
        BodyElement::Image { src, alt, caption } => {
            assert_eq!(src, "img.png");
            assert_eq!(alt.as_deref(), Some("Cap"));
            assert!(caption.is_none());
        },
        _ => panic!("not an image"),
    }
    assert_eq!(text_of(&p[1]), "alt");
}

#[test]
fn footnote_reference_and_soft_break() {
    let doc = parse("# T\nx[^1]\ny\n\n[^1]: note\n");
    let p = para(&doc.sections[1].body[0]);
    assert_eq!(text_of(&p[0]), "x");
    match &p[1] {
        BodyElement::FootnoteRef(n) => assert_eq!(n, "1"),
        _ => panic!("not a footnote reference"),
    }
    assert_eq!(text_of(&p[2]), "\n");
    assert_eq!(text_of(&p[3]), "y");
}

#[test]
fn heading_text_joins_fragments() {
    let doc = parse("## Hello *W*\n");
    assert_eq!(doc.sections[0].heading, "Hello W");
    assert_eq!(doc.sections[0].level, 2);
}

#[test]
fn front_matter_is_read_as_yaml() {
    let doc = parse("---\ntitle: Hello\n---\n# H\n");
    let fm = doc.front_matter.expect("front matter");
    assert_eq!(fm.get("title"), Some(&serde_json::Value::String("Hello".to_string())));
    assert_eq!(doc.sections[0].heading, "H");
}

#[test]
fn front_matter_that_is_not_a_mapping_is_dropped() {
    let (front, rest) = split_front_matter("  ---\n- a\n---\n# H\n");
    assert!(front.is_none());
    assert_eq!(rest, "\n# H\n");
}

#[test]
fn no_front_matter_keeps_text() {
    let (front, rest) = split_front_matter("  # H\n---\n");
    assert!(front.is_none());
    assert_eq!(rest, "  # H\n---\n");
    let (front, rest) = split_front_matter("---\nno closing fence\n");
    assert!(front.is_none());
    assert_eq!(rest, "---\nno closing fence\n");
}


fn check_paired(ss: &[Section]) {
    for (j, s) in ss.iter().enumerate() {
        if !s.heading.is_empty() {
            assert!(s.body.is_empty() && s.subsections.is_empty());
            assert!(j + 1 < ss.len());
            assert!(ss[j + 1].heading.is_empty());
            assert_eq!(ss[j + 1].level, s.level);
        }
        check_paired(&s.subsections);
    }
}

#[test]
fn headed_sections_are_followed_by_their_content() {
    let doc = parse("# A\ntext\n## B\n- x\n- y\n### C\n# D\nmore\n");
    check_paired(&doc.sections);
    assert_eq!(doc.sections[0].heading, "A");
    assert_eq!(doc.sections[1].heading, "");
    assert_eq!(doc.sections[1].subsections[0].heading, "B");
    assert_eq!(doc.sections[1].subsections[1].level, 2);
}

#[test]
fn split_front_matter_gives_the_parsed_map() {
    let (front, rest) = split_front_matter("---\nkey: val\nn: 3\n---\n# Title");
    let fm = front.expect("front matter");
    assert_eq!(fm.len(), 2);
    assert_eq!(fm.get("key"), Some(&serde_json::Value::String("val".to_string())));
    assert_eq!(fm.get("n"), Some(&serde_json::Value::from(3)));
    assert_eq!(rest, "\n# Title");
}

fn titles(ss: &[Section], out: &mut Vec<String>) {
    for s in ss {
        if !s.heading.is_empty() {
            out.push(s.heading.clone());
        }
        titles(&s.subsections, out);
    }
}

#[test]
fn titled_sections_follow_the_headings_in_order() {
    let doc = parse("## B\n# A\ntext\n### C\n```\n# not a heading\n```\n## D\n# E\n");
    let mut out = Vec::new();
    titles(&doc.sections, &mut out);
    assert_eq!(out, vec!["B".to_string(), "A".to_string(), "C".to_string(), "D".to_string(), "E".to_string()]);
}
