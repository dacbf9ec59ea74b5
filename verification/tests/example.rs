use docgen::generate::generate_from_markdown;
use docgen::markdown::markdown_to_document;
use docgen::render_typst::document_to_typst;
use docgen::schema::Section;

const PROPOSAL: &str = "# ACME Proposal – Data Platform

**Client:** City of Metropolis  
**Submission Date:** 2025-08-19

## Executive Summary

This proposal outlines a scalable, secure, cloud-native data platform to meet the City’s requirements. We address ingestion, processing, storage, and user access.

## Requirements Overview

- **R1:** Ingest streaming sensor data with sub-minute latency.
- **R2:** Provide role-based dashboards and search.
- **R3:** Satisfy CJIS data handling requirements.

## Technical Approach

### Architecture Overview

![System Architecture](./architecture.png \"System Architecture\")

### Key Components

1. **Ingestion:** Kafka with schema registry.
2. **Processing:** Flink jobs with autoscaling.
3. **Storage:** Object storage + columnar warehouse.
4. **Interfaces:** REST + GraphQL + OData.

## Code Sample

```python
def greet(name: str) -> str:
    return f\"Hello, {name}!\"
print(greet(\"Metropolis\"))
```
";

fn nested(s: &Section) -> bool {
    s.subsections.iter().all(|c| c.level > s.level && nested(c))
}

fn headings(s: &[Section], out: &mut Vec<String>) {
    for c in s {
        if !c.heading.is_empty() {
            out.push(c.heading.clone());
        }
        headings(&c.subsections, out);
    }
}

#[test]
fn example_proposal_keeps_every_heading_nested() {
    let doc = markdown_to_document(PROPOSAL).ok().expect("the example parses");
    assert!(doc.sections.iter().all(|s| s.level >= 1 && nested(s)));
    let mut hs = Vec::new();
    headings(&doc.sections, &mut hs);
    assert_eq!(
        hs,
        vec![
            "ACME Proposal – Data Platform".to_string(),
            "Executive Summary".to_string(),
            "Requirements Overview".to_string(),
            "Technical Approach".to_string(),
            "Architecture Overview".to_string(),
            "Key Components".to_string(),
            "Code Sample".to_string(),
        ]
    );
    let typst = document_to_typst(&doc);
    assert!(typst.starts_with("#set page(margin: 1in)\n#set par(justify: true)\n"));
    assert!(typst.contains("# ACME Proposal – Data Platform\n"));
    assert!(typst.contains("### Key Components\n"));
}

#[test]
fn example_proposal_renders_to_docx() {
    let bytes = generate_from_markdown(PROPOSAL, "{}", "docx").ok().expect("docx");
    assert!(bytes.starts_with(b"PK\x03\x04"));
}
