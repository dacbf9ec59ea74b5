//! The document model: sections, body elements and inline styles.

use vstd::prelude::*;
use std::collections::HashMap;

verus! {

/// A JSON value, as held in front matter and metadata.
#[verifier::external_type_specification]
#[verifier::external_body]
pub struct ExJsonValue(serde_json::Value);

/// Inline style flags.
#[derive(Debug, Clone)]
pub struct InlineStyle {
    pub bold: bool,
    pub italic: bool,
    pub underline: bool,
    pub strike: bool,
    pub code: bool,
    pub font: Option<String>,
    pub href: Option<String>,
}

/// A block or inline node of a section's body.
#[derive(Debug)]
pub enum BodyElement {
    TextSpan { text: String, style: InlineStyle },
    Paragraph(Vec<BodyElement>),
    BlockQuote(Vec<BodyElement>),
    CodeBlock { lang: Option<String>, code: String },
    PageBreak,
    Image { src: String, alt: Option<String>, caption: Option<String> },
    Table { headers: Option<Vec<String>>, rows: Vec<Vec<BodyElement>> },
    List { ordered: bool, items: Vec<Vec<BodyElement>> },
    FootnoteRef(String),
    Callout { kind: String, content: Vec<BodyElement> },
    TableOfContents,
}

/// A section: a heading at a level (1 to 6; 0 for the root), a body and nested sections.
#[derive(Debug)]
pub struct Section {
    pub level: u8,
    pub heading: String,
    pub body: Vec<BodyElement>,
    pub subsections: Vec<Section>,
}

/// The view of an [`InlineStyle`].
pub struct StyleView {
    pub bold: bool,
    pub italic: bool,
    pub underline: bool,
    pub strike: bool,
    pub code: bool,
    pub font: Option<Seq<char>>,
    pub href: Option<Seq<char>>,
}

/// The view of a [`BodyElement`].
pub enum Elem {
    TextSpan { text: Seq<char>, style: StyleView },
    Paragraph(Seq<Elem>),
    BlockQuote(Seq<Elem>),
    CodeBlock { lang: Option<Seq<char>>, code: Seq<char> },
    PageBreak,
    Image { src: Seq<char>, alt: Option<Seq<char>>, caption: Option<Seq<char>> },
    Table { headers: Option<Seq<Seq<char>>>, rows: Seq<Seq<Elem>> },
    List { ordered: bool, items: Seq<Seq<Elem>> },
    FootnoteRef(Seq<char>),
    Callout { kind: Seq<char>, content: Seq<Elem> },
    TableOfContents,
}

/// The view of a [`Section`].
pub struct Sec {
    pub level: u8,
    pub heading: Seq<char>,
    pub body: Seq<Elem>,
    pub subsections: Seq<Sec>,
}

pub open spec fn opt_str(o: Option<String>) -> Option<Seq<char>> {
    match o {
        Some(s) => Some(s@),
        None => None,
    }
}

pub open spec fn strs_view(s: Seq<String>) -> Seq<Seq<char>> {
    s.map_values(|x: String| x@)
}

pub open spec fn opt_strs(o: Option<Vec<String>>) -> Option<Seq<Seq<char>>> {
    match o {
        Some(h) => Some(strs_view(h@)),
        None => None,
    }
}

impl View for InlineStyle {
    type V = StyleView;

    open spec fn view(&self) -> StyleView {
        StyleView {
            bold: self.bold,
            italic: self.italic,
            underline: self.underline,
            strike: self.strike,
            code: self.code,
            font: opt_str(self.font),
            href: opt_str(self.href),
        }
    }
}

pub open spec fn elem_view(e: BodyElement) -> Elem
    decreases e,
{
    match e {
        BodyElement::TextSpan { text, style } => Elem::TextSpan { text: text@, style: style@ },
        BodyElement::Paragraph(v) => Elem::Paragraph(elems_view(v@)),
        BodyElement::BlockQuote(v) => Elem::BlockQuote(elems_view(v@)),
        BodyElement::CodeBlock { lang, code } => Elem::CodeBlock { lang: opt_str(lang), code: code@ },
        BodyElement::PageBreak => Elem::PageBreak,
        BodyElement::Image { src, alt, caption } => Elem::Image {
            src: src@,
            alt: opt_str(alt),
            caption: opt_str(caption),
        },
        BodyElement::Table { headers, rows } => Elem::Table {
            headers: opt_strs(headers),
            rows: rows_view(rows@),
        },
        BodyElement::List { ordered, items } => Elem::List { ordered, items: rows_view(items@) },
        BodyElement::FootnoteRef(n) => Elem::FootnoteRef(n@),
        BodyElement::Callout { kind, content } => Elem::Callout {
            kind: kind@,
            content: elems_view(content@),
        },
        BodyElement::TableOfContents => Elem::TableOfContents,
    }
}

pub open spec fn elems_view(s: Seq<BodyElement>) -> Seq<Elem>
    decreases s,
{
    if s.len() == 0 {
        Seq::empty()
    } else {
        elems_view(s.subrange(0, s.len() - 1)).push(elem_view(s[s.len() - 1]))
    }
}

pub open spec fn rows_view(s: Seq<Vec<BodyElement>>) -> Seq<Seq<Elem>>
    decreases s,
{
    if s.len() == 0 {
        Seq::empty()
    } else {
        rows_view(s.subrange(0, s.len() - 1)).push(elems_view(s[s.len() - 1]@))
    }
}

pub open spec fn section_view(s: Section) -> Sec
    decreases s,
{
    Sec {
        level: s.level,
        heading: s.heading@,
        body: elems_view(s.body@),
        subsections: sections_view(s.subsections@),
    }
}

pub open spec fn sections_view(s: Seq<Section>) -> Seq<Sec>
    decreases s,
{
    if s.len() == 0 {
        Seq::empty()
    } else {
        sections_view(s.subrange(0, s.len() - 1)).push(section_view(s[s.len() - 1]))
    }
}

impl View for BodyElement {
    type V = Elem;

    open spec fn view(&self) -> Elem {
        elem_view(*self)
    }
}

impl View for Section {
    type V = Sec;

    open spec fn view(&self) -> Sec {
        section_view(*self)
    }
}


/// An attachment listed at the end of a document.
#[derive(Debug, Clone, Default)]
pub struct Attachment {
    pub filename: String,
    pub description: Option<String>,
}

/// A signature block.
#[derive(Debug, Clone, Default)]
pub struct Signature {
    pub signer: String,
    pub title: Option<String>,
    pub date: Option<String>,
}

/// A footnote: its label and its content.
#[derive(Debug, Clone, Default)]
pub struct Footnote {
    pub id: String,
    pub content: Vec<BodyElement>,
}

/// Document-level styling. Page margins, in millimetres (left, top, right, bottom),
/// are held as the bit patterns of `f32` values (`f32::to_bits`).
#[derive(Debug, Clone)]
pub struct DocStyle {
    pub body_font: Option<String>,
    pub heading_font: Option<String>,
    pub margins_mm: Option<(u32, u32, u32, u32)>,
    pub header_text: Option<String>,
    pub footer_text: Option<String>,
    pub page_numbers: bool,
    pub logo_path: Option<String>,
}

/// Document metadata.
#[derive(Debug, Clone)]
pub struct Metadata {
    pub doc_type: Option<String>,
    pub title: Option<String>,
    pub date: Option<String>,
    pub author: Option<String>,
    pub from_: Option<String>,
    pub to: Option<String>,
    pub subject: Option<String>,
    pub extra: HashMap<String, serde_json::Value>,
}

/// A whole document.
#[derive(Debug, Clone)]
pub struct Document {
    pub metadata: Metadata,
    pub style: DocStyle,
    pub front_matter: Option<HashMap<String, serde_json::Value>>,
    pub sections: Vec<Section>,
    pub attachments: Vec<Attachment>,
    pub signatures: Vec<Signature>,
    pub footnotes: Vec<Footnote>,
}

/// The style of plain text: no flag set, no font, no link.
pub open spec fn plain_style() -> StyleView {
    StyleView {
        bold: false,
        italic: false,
        underline: false,
        strike: false,
        code: false,
        font: None,
        href: None,
    }
}

/// Metadata with every field empty.
pub open spec fn is_empty_metadata(m: Metadata) -> bool {
    &&& m.doc_type is None
    &&& m.title is None
    &&& m.date is None
    &&& m.author is None
    &&& m.from_ is None
    &&& m.to is None
    &&& m.subject is None
    &&& m.extra@ == Map::<String, serde_json::Value>::empty()
}

/// Styling with every field empty.
pub open spec fn is_empty_style(s: DocStyle) -> bool {
    &&& s.body_font is None
    &&& s.heading_font is None
    &&& s.margins_mm is None
    &&& s.header_text is None
    &&& s.footer_text is None
    &&& !s.page_numbers
    &&& s.logo_path is None
}

pub fn clone_opt_string(o: &Option<String>) -> (r: Option<String>)
    ensures
        r == *o,
{
    match o {
        Some(s) => Some(s.clone()),
        None => None,
    }
}

/// A copy of a list of texts.
pub fn copy_strings(v: &Vec<String>) -> (r: Vec<String>)
    ensures
        strs_view(r@) == strs_view(v@),
{
    let mut out: Vec<String> = Vec::new();
    let mut i: usize = 0;
    while i < v.len()
        invariant
            0 <= i <= v@.len(),
            strs_view(out@) == strs_view(v@.take(i as int)),
        decreases v@.len() - i,
    {
        let c = v[i].clone();
        proof {
            assert(strs_view(out@.push(c)) =~= strs_view(out@).push(c@));
            assert(strs_view(v@.take(i + 1)) =~= strs_view(v@.take(i as int)).push(v@[i as int]@));
        }
        out.push(c);
        i = i + 1;
    }
    assert(v@.take(v@.len() as int) =~= v@);
    out
}

/// A copy of a body element and everything in it.
pub fn copy_elem(e: &BodyElement) -> (r: BodyElement)
    ensures
        elem_view(r) == elem_view(*e),
    decreases *e,
{
    match e {
        BodyElement::TextSpan { text, style } => BodyElement::TextSpan { text: text.clone(), style: style.duplicate() },
        BodyElement::Paragraph(v) => BodyElement::Paragraph(copy_elems(v)),
        BodyElement::BlockQuote(v) => BodyElement::BlockQuote(copy_elems(v)),
        BodyElement::CodeBlock { lang, code } => BodyElement::CodeBlock { lang: clone_opt_string(lang), code: code.clone() },
        BodyElement::PageBreak => BodyElement::PageBreak,
        BodyElement::Image { src, alt, caption } => BodyElement::Image {
            src: src.clone(),
            alt: clone_opt_string(alt),
            caption: clone_opt_string(caption),
        },
        BodyElement::Table { headers, rows } => {
            let h = match headers {
                Some(hs) => Some(copy_strings(hs)),
                None => None,
            };
            BodyElement::Table { headers: h, rows: copy_rows(rows) }
        },
        BodyElement::List { ordered, items } => BodyElement::List { ordered: *ordered, items: copy_rows(items) },
        BodyElement::FootnoteRef(n) => BodyElement::FootnoteRef(n.clone()),
        BodyElement::Callout { kind, content } => BodyElement::Callout { kind: kind.clone(), content: copy_elems(content) },
        BodyElement::TableOfContents => BodyElement::TableOfContents,
    }
}

/// A copy of a sequence of body elements.
pub fn copy_elems(v: &Vec<BodyElement>) -> (r: Vec<BodyElement>)
    ensures
        elems_view(r@) == elems_view(v@),
    decreases *v,
{
    let mut out: Vec<BodyElement> = Vec::new();
    let mut i: usize = 0;
    while i < v.len()
        invariant
            0 <= i <= v@.len(),
            elems_view(out@) == elems_view(v@.take(i as int)),
        decreases v@.len() - i,
    {
        let c = copy_elem(&v[i]);
        proof {
            lemma_elems_view_push(out@, c);
            assert(v@.take(i + 1) =~= v@.take(i as int).push(v@[i as int]));
            lemma_elems_view_push(v@.take(i as int), v@[i as int]);
        }
        out.push(c);
        i = i + 1;
    }
    assert(v@.take(v@.len() as int) =~= v@);
    out
}

/// A copy of rows (or list items) of body elements.
pub fn copy_rows(v: &Vec<Vec<BodyElement>>) -> (r: Vec<Vec<BodyElement>>)
    ensures
        rows_view(r@) == rows_view(v@),
    decreases *v,
{
    let mut out: Vec<Vec<BodyElement>> = Vec::new();
    let mut i: usize = 0;
    while i < v.len()
        invariant
            0 <= i <= v@.len(),
            rows_view(out@) == rows_view(v@.take(i as int)),
        decreases v@.len() - i,
    {
        let c = copy_elems(&v[i]);
        proof {
            lemma_rows_view_push(out@, c);
            assert(v@.take(i + 1) =~= v@.take(i as int).push(v@[i as int]));
            lemma_rows_view_push(v@.take(i as int), v@[i as int]);
        }
        out.push(c);
        i = i + 1;
    }
    assert(v@.take(v@.len() as int) =~= v@);
    out
}

/// A copy of a section and everything under it.
pub fn copy_section(s: &Section) -> (r: Section)
    ensures
        section_view(r) == section_view(*s),
    decreases *s,
{
    Section {
        level: s.level,
        heading: s.heading.clone(),
        body: copy_elems(&s.body),
        subsections: copy_sections(&s.subsections),
    }
}

/// A copy of a sequence of sections.
pub fn copy_sections(v: &Vec<Section>) -> (r: Vec<Section>)
    ensures
        sections_view(r@) == sections_view(v@),
    decreases *v,
{
    let mut out: Vec<Section> = Vec::new();
    let mut i: usize = 0;
    while i < v.len()
        invariant
            0 <= i <= v@.len(),
            sections_view(out@) == sections_view(v@.take(i as int)),
        decreases v@.len() - i,
    {
        let c = copy_section(&v[i]);
        proof {
            lemma_sections_view_push(out@, c);
            assert(v@.take(i + 1) =~= v@.take(i as int).push(v@[i as int]));
            lemma_sections_view_push(v@.take(i as int), v@[i as int]);
        }
        out.push(c);
        i = i + 1;
    }
    assert(v@.take(v@.len() as int) =~= v@);
    out
}

impl Clone for BodyElement {
    fn clone(&self) -> (r: BodyElement)
        ensures
            r@ == self@,
    {
        copy_elem(self)
    }
}

impl Clone for Section {
    fn clone(&self) -> (r: Section)
        ensures
            r@ == self@,
    {
        copy_section(self)
    }
}

impl InlineStyle {
    /// A copy of this style.
    pub fn duplicate(&self) -> (r: InlineStyle)
        ensures
            r == *self,
    {
        InlineStyle {
            bold: self.bold,
            italic: self.italic,
            underline: self.underline,
            strike: self.strike,
            code: self.code,
            font: clone_opt_string(&self.font),
            href: clone_opt_string(&self.href),
        }
    }
}

impl Default for InlineStyle {
    fn default() -> (r: InlineStyle)
        ensures
            r@ == plain_style(),
    {
        InlineStyle {
            bold: false,
            italic: false,
            underline: false,
            strike: false,
            code: false,
            font: None,
            href: None,
        }
    }
}

impl Default for Section {
    fn default() -> (r: Section)
        ensures
            r.level == 0,
            r.heading@.len() == 0,
            r.body@.len() == 0,
            r.subsections@.len() == 0,
    {
        Section { level: 0, heading: String::new(), body: Vec::new(), subsections: Vec::new() }
    }
}

impl Default for DocStyle {
    fn default() -> (r: DocStyle)
        ensures
            is_empty_style(r),
    {
        DocStyle {
            body_font: None,
            heading_font: None,
            margins_mm: None,
            header_text: None,
            footer_text: None,
            page_numbers: false,
            logo_path: None,
        }
    }
}

impl Default for Metadata {
    fn default() -> (r: Metadata)
        ensures
            is_empty_metadata(r),
    {
        Metadata {
            doc_type: None,
            title: None,
            date: None,
            author: None,
            from_: None,
            to: None,
            subject: None,
            extra: HashMap::new(),
        }
    }
}

impl Default for Document {
    fn default() -> (r: Document)
        ensures
            is_empty_metadata(r.metadata),
            is_empty_style(r.style),
            r.front_matter is None,
            r.sections@.len() == 0,
            r.attachments@.len() == 0,
            r.signatures@.len() == 0,
            r.footnotes@.len() == 0,
    {
        Document {
            metadata: Metadata::default(),
            style: DocStyle::default(),
            front_matter: None,
            sections: Vec::new(),
            attachments: Vec::new(),
            signatures: Vec::new(),
            footnotes: Vec::new(),
        }
    }
}

pub proof fn lemma_elems_view_push(s: Seq<BodyElement>, x: BodyElement)
    ensures
        elems_view(s.push(x)) == elems_view(s).push(elem_view(x)),
{
    assert(s.push(x).subrange(0, s.len() as int) =~= s);
}

pub proof fn lemma_rows_view_push(s: Seq<Vec<BodyElement>>, x: Vec<BodyElement>)
    ensures
        rows_view(s.push(x)) == rows_view(s).push(elems_view(x@)),
{
    assert(s.push(x).subrange(0, s.len() as int) =~= s);
}

pub proof fn lemma_sections_view_push(s: Seq<Section>, x: Section)
    ensures
        sections_view(s.push(x)) == sections_view(s).push(section_view(x)),
{
    assert(s.push(x).subrange(0, s.len() as int) =~= s);
}

pub proof fn lemma_elems_view_len(s: Seq<BodyElement>)
    ensures
        elems_view(s).len() == s.len(),
    decreases s.len(),
{
    if s.len() > 0 {
        lemma_elems_view_len(s.subrange(0, s.len() - 1));
    }
}

pub proof fn lemma_sections_view_len(s: Seq<Section>)
    ensures
        sections_view(s).len() == s.len(),
    decreases s.len(),
{
    if s.len() > 0 {
        lemma_sections_view_len(s.subrange(0, s.len() - 1));
    }
}

pub proof fn lemma_sections_view_index(s: Seq<Section>, i: int)
    requires
        0 <= i < s.len(),
    ensures
        sections_view(s)[i] == section_view(s[i]),
        sections_view(s).len() == s.len(),
    decreases s.len(),
{
    lemma_sections_view_len(s);
    if i < s.len() - 1 {
        lemma_sections_view_index(s.subrange(0, s.len() - 1), i);
    }
}


pub proof fn lemma_elems_view_index(s: Seq<BodyElement>, i: int)
    requires
        0 <= i < s.len(),
    ensures
        elems_view(s)[i] == elem_view(s[i]),
        elems_view(s).len() == s.len(),
    decreases s.len(),
{
    lemma_elems_view_len(s);
    if i < s.len() - 1 {
        lemma_elems_view_index(s.subrange(0, s.len() - 1), i);
    }
}

pub proof fn lemma_rows_view_len(s: Seq<Vec<BodyElement>>)
    ensures
        rows_view(s).len() == s.len(),
    decreases s.len(),
{
    if s.len() > 0 {
        lemma_rows_view_len(s.subrange(0, s.len() - 1));
    }
}

pub proof fn lemma_rows_view_index(s: Seq<Vec<BodyElement>>, i: int)
    requires
        0 <= i < s.len(),
    ensures
        rows_view(s)[i] == elems_view(s[i]@),
        rows_view(s).len() == s.len(),
    decreases s.len(),
{
    lemma_rows_view_len(s);
    if i < s.len() - 1 {
        lemma_rows_view_index(s.subrange(0, s.len() - 1), i);
    }
}


/// The view of a prefix one element longer.
pub proof fn lemma_elems_view_take_step(s: Seq<BodyElement>, i: int)
    requires
        0 <= i < s.len(),
    ensures
        elems_view(s.take(i + 1)) == elems_view(s.take(i)).push(elem_view(s[i])),
        elems_view(s.take(i + 1)).drop_last() == elems_view(s.take(i)),
        elems_view(s.take(i + 1)).last() == elem_view(s[i]),
        elems_view(s.take(i + 1)).len() > 0,
{
    assert(s.take(i + 1) =~= s.take(i).push(s[i]));
    lemma_elems_view_push(s.take(i), s[i]);
    assert(elems_view(s.take(i)).push(elem_view(s[i])).drop_last() =~= elems_view(s.take(i)));
}

} // verus!
