//! What goes into a PDF of a flat document: centred title lines, headings, styled
//! paragraphs, bulleted or numbered list lines and page breaks.
//!
//! The application lays the plan out with genpdf, whose fonts are loaded from disk.

use vstd::prelude::*;
use crate::legacy::{
    flat_elem_view, flat_elems_view, flat_items_view, flat_sec_view, flat_secs_view, flat_sections,
    lemma_flat_items_index, lemma_flat_items_len, lemma_flat_secs_index, lemma_flat_secs_len, markdown_to_document,
    FlatElem, FlatSec, SpanV,
};
use crate::legacy_render::{lemma_flat_take_step, title_or_default};
use crate::events::spec_markdown_events;
use crate::schema::opt_str;
use crate::text::{decimal, usize_to_decimal};
use crate::{BodyElement, Document, Section};

verus! {

/// A paragraph of the PDF: its text and style.
#[derive(Debug)]
pub struct PdfParagraph {
    pub text: String,
    pub bold: bool,
    pub italic: bool,
    /// The font size in points, when not the default.
    pub size: Option<u8>,
    pub centered: bool,
}

/// A block of the PDF.
#[derive(Debug)]
pub enum PdfBlock {
    Paragraph(PdfParagraph),
    /// Empty lines.
    Break(usize),
    PageBreak,
}

/// The PDF of a document: its title (document metadata) and its blocks.
#[derive(Debug)]
pub struct PdfPlan {
    pub title: String,
    pub blocks: Vec<PdfBlock>,
}

pub struct PdfParaV {
    pub text: Seq<char>,
    pub bold: bool,
    pub italic: bool,
    pub size: Option<u8>,
    pub centered: bool,
}

pub enum PdfBlockV {
    Paragraph(PdfParaV),
    Break(usize),
    PageBreak,
}

impl View for PdfBlock {
    type V = PdfBlockV;

    open spec fn view(&self) -> PdfBlockV {
        match self {
            PdfBlock::Paragraph(p) => PdfBlockV::Paragraph(
                PdfParaV { text: p.text@, bold: p.bold, italic: p.italic, size: p.size, centered: p.centered },
            ),
            PdfBlock::Break(n) => PdfBlockV::Break(*n),
            PdfBlock::PageBreak => PdfBlockV::PageBreak,
        }
    }
}

pub open spec fn pdf_blocks_view(s: Seq<PdfBlock>) -> Seq<PdfBlockV> {
    s.map_values(|b: PdfBlock| b@)
}

pub open spec fn line(text: Seq<char>) -> PdfBlockV {
    PdfBlockV::Paragraph(PdfParaV { text, bold: false, italic: false, size: None, centered: false })
}

/// The texts of the text spans of a list item, one after the other.
pub open spec fn item_text(item: Seq<FlatElem>) -> Seq<char>
    decreases item.len(),
{
    if item.len() == 0 {
        Seq::empty()
    } else {
        item_text(item.drop_last()) + match item.last() {
            FlatElem::TextSpan(t) => t.text,
            _ => Seq::empty(),
        }
    }
}

/// The bullet of the item at index `i`: its number and a dot when ordered, a dash otherwise.
pub open spec fn bullet(ordered: bool, i: nat) -> Seq<char> {
    if ordered {
        decimal(i + 1) + ". "@
    } else {
        "- "@
    }
}

pub open spec fn list_lines(ordered: bool, items: Seq<Seq<FlatElem>>) -> Seq<PdfBlockV> {
    Seq::new(items.len(), |i: int| line(bullet(ordered, i as nat) + item_text(items[i])))
}

pub open spec fn elem_blocks(e: FlatElem) -> Seq<PdfBlockV> {
    match e {
        FlatElem::TextSpan(t) => seq![
            PdfBlockV::Paragraph(PdfParaV { text: t.text, bold: t.bold, italic: t.italic, size: None, centered: false }),
        ],
        FlatElem::PageBreak => seq![PdfBlockV::PageBreak],
        FlatElem::List { ordered, items } => list_lines(ordered, items),
    }
}

pub open spec fn body_blocks(s: Seq<FlatElem>) -> Seq<PdfBlockV>
    decreases s.len(),
{
    if s.len() == 0 {
        Seq::empty()
    } else {
        body_blocks(s.drop_last()) + elem_blocks(s.last())
    }
}

/// A text span of a flat body becomes one PDF paragraph: the span's text, bold and
/// italic exactly as the span is, at the default size, not centred.
pub proof fn lemma_span_paragraph(s: Seq<FlatElem>, t: SpanV)
    ensures
        body_blocks(s.push(FlatElem::TextSpan(t))) == body_blocks(s).push(
            PdfBlockV::Paragraph(
                PdfParaV {
                    text: t.text,
                    bold: t.bold,
                    italic: t.italic,
                    size: None,
                    centered: false,
                },
            ),
        ),
{
    let x = s.push(FlatElem::TextSpan(t));
    assert(x.drop_last() =~= s);
    assert(body_blocks(x) =~= body_blocks(s) + elem_blocks(FlatElem::TextSpan(t)));
}

/// A flat list becomes one plain PDF paragraph per item, in order: `1. `, `2. `, ...
/// before the item's text when the list is ordered, `- ` when it is not.
pub proof fn lemma_list_paragraphs(ordered: bool, items: Seq<Seq<FlatElem>>)
    ensures
        elem_blocks(FlatElem::List { ordered, items }).len() == items.len(),
        forall|i: int|
            0 <= i < items.len() ==> #[trigger] elem_blocks(FlatElem::List { ordered, items })[i] == PdfBlockV::Paragraph(
                PdfParaV {
                    text: (if ordered {
                        decimal((i + 1) as nat) + ". "@
                    } else {
                        "- "@
                    }) + item_text(items[i]),
                    bold: false,
                    italic: false,
                    size: None,
                    centered: false,
                },
            ),
{
}

/// A section: its heading in bold at 18 points, then its body (subsections are not drawn).
pub open spec fn section_blocks(s: FlatSec) -> Seq<PdfBlockV> {
    (match s.heading {
        Some(h) => seq![PdfBlockV::Paragraph(PdfParaV { text: h, bold: true, italic: false, size: Some(18u8), centered: false })],
        None => Seq::empty(),
    }) + body_blocks(s.body)
}

pub open spec fn sections_blocks(s: Seq<FlatSec>) -> Seq<PdfBlockV>
    decreases s.len(),
{
    if s.len() == 0 {
        Seq::empty()
    } else {
        sections_blocks(s.drop_last()) + section_blocks(s.last())
    }
}

pub open spec fn centered_line(label: Seq<char>, v: Option<Seq<char>>) -> Seq<PdfBlockV> {
    match v {
        Some(a) => seq![PdfBlockV::Paragraph(PdfParaV { text: label + a, bold: false, italic: false, size: None, centered: true })],
        None => Seq::empty(),
    }
}

/// A flat document as PDF blocks: the title centred in bold at 24 points, centred
/// `Author: ...` and `Date: ...` lines when given, one empty line, then the sections.
pub open spec fn document_blocks(
    title: Seq<char>,
    author: Option<Seq<char>>,
    date: Option<Seq<char>>,
    sections: Seq<FlatSec>,
) -> Seq<PdfBlockV> {
    seq![PdfBlockV::Paragraph(PdfParaV { text: title, bold: true, italic: false, size: Some(24u8), centered: true })]
        + centered_line("Author: "@, author) + centered_line("Date: "@, date) + seq![PdfBlockV::Break(1usize)]
        + sections_blocks(sections)
}

fn push_block(blocks: &mut Vec<PdfBlock>, b: PdfBlock)
    ensures
        pdf_blocks_view(final(blocks)@) == pdf_blocks_view(old(blocks)@).push(b@),
{
    let ghost old_blocks = blocks@;
    blocks.push(b);
    assert(pdf_blocks_view(blocks@) =~= pdf_blocks_view(old_blocks).push(b@));
}

fn paragraph(text: String, bold: bool, italic: bool, size: Option<u8>, centered: bool) -> (b: PdfBlock)
    ensures
        b@ == PdfBlockV::Paragraph(PdfParaV { text: text@, bold, italic, size, centered }),
{
    PdfBlock::Paragraph(PdfParagraph { text, bold, italic, size, centered })
}

fn list_item_text(item: &Vec<BodyElement>) -> (r: String)
    ensures
        r@ == item_text(flat_elems_view(item@)),
{
    let mut out = String::new();
    let mut i: usize = 0;
    while i < item.len()
        invariant
            0 <= i <= item@.len(),
            out@ == item_text(flat_elems_view(item@.take(i as int))),
        decreases item@.len() - i,
    {
        proof {
            lemma_flat_take_step(item@, i as int);
        }
        match &item[i] {
            BodyElement::TextSpan(t) => out.append(t.text.as_str()),
            _ => {},
        }
        proof {
            let x = flat_elems_view(item@.take(i + 1));
            assert(out@ =~= item_text(x));
        }
        i = i + 1;
    }
    assert(item@.take(item@.len() as int) =~= item@);
    out
}

fn push_elem(blocks: &mut Vec<PdfBlock>, elem: &BodyElement)
    ensures
        pdf_blocks_view(final(blocks)@) == pdf_blocks_view(old(blocks)@) + elem_blocks(flat_elem_view(*elem)),
{
    match elem {
        BodyElement::TextSpan(t) => {
            push_block(blocks, paragraph(t.text.clone(), t.bold, t.italic, None, false));
            assert(pdf_blocks_view(blocks@) =~= pdf_blocks_view(old(blocks)@) + elem_blocks(flat_elem_view(*elem)));
        },
        BodyElement::PageBreak(_) => {
            push_block(blocks, PdfBlock::PageBreak);
            assert(pdf_blocks_view(blocks@) =~= pdf_blocks_view(old(blocks)@) + elem_blocks(flat_elem_view(*elem)));
        },
        BodyElement::List(l) => {
            let ghost start = pdf_blocks_view(blocks@);
            let ghost items = flat_items_view(l.items@);
            proof {
                lemma_flat_items_len(l.items@);
            }
            let mut i: usize = 0;
            while i < l.items.len()
                invariant
                    0 <= i <= l.items@.len(),
                    items == flat_items_view(l.items@),
                    items.len() == l.items@.len(),
                    pdf_blocks_view(blocks@) == start + list_lines(l.ordered, items.take(i as int)),
                decreases l.items@.len() - i,
            {
                proof {
                    lemma_flat_items_index(l.items@, i as int);
                }
                let mut text = if l.ordered {
                    let mut b = usize_to_decimal(i + 1);
                    b.append(". ");
                    b
                } else {
                    String::from_str("- ")
                };
                let t = list_item_text(&l.items[i]);
                text.append(t.as_str());
                push_block(blocks, paragraph(text, false, false, None, false));
                proof {
                    assert(list_lines(l.ordered, items.take(i + 1)) =~= list_lines(l.ordered, items.take(i as int)).push(
                        line(bullet(l.ordered, i as nat) + item_text(items[i as int])),
                    ));
                }
                i = i + 1;
            }
            assert(items.take(l.items@.len() as int) =~= items);
        },
    }
}

fn push_section(blocks: &mut Vec<PdfBlock>, section: &Section)
    ensures
        pdf_blocks_view(final(blocks)@) == pdf_blocks_view(old(blocks)@) + section_blocks(flat_sec_view(*section)),
{
    let ghost start = pdf_blocks_view(blocks@);
    match &section.heading {
        Some(h) => push_block(blocks, paragraph(h.clone(), true, false, Some(18), false)),
        None => {},
    }
    let ghost before = pdf_blocks_view(blocks@);
    let mut i: usize = 0;
    while i < section.body.len()
        invariant
            0 <= i <= section.body@.len(),
            pdf_blocks_view(blocks@) == before + body_blocks(flat_elems_view(section.body@.take(i as int))),
        decreases section.body@.len() - i,
    {
        proof {
            lemma_flat_take_step(section.body@, i as int);
        }
        push_elem(blocks, &section.body[i]);
        proof {
            let x = flat_elems_view(section.body@.take(i + 1));
            assert(body_blocks(x) == body_blocks(x.drop_last()) + elem_blocks(x.last()));
            assert(pdf_blocks_view(blocks@) =~= before + body_blocks(x));
        }
        i = i + 1;
    }
    assert(section.body@.take(section.body@.len() as int) =~= section.body@);
    assert(pdf_blocks_view(blocks@) =~= start + section_blocks(flat_sec_view(*section)));
}

fn push_centered(blocks: &mut Vec<PdfBlock>, label: &str, v: &Option<String>)
    ensures
        pdf_blocks_view(final(blocks)@) == pdf_blocks_view(old(blocks)@) + centered_line(label@, opt_str(*v)),
{
    match v {
        Some(a) => {
            let mut t = String::from_str(label);
            t.append(a.as_str());
            push_block(blocks, paragraph(t, false, false, None, true));
        },
        None => {},
    }
    assert(pdf_blocks_view(blocks@) =~= pdf_blocks_view(old(blocks)@) + centered_line(label@, opt_str(*v)));
}

/// The PDF of a flat document: its title, and the blocks that [`document_blocks`] gives.
pub fn pdf_plan(document: &Document) -> (plan: PdfPlan)
    ensures
        plan.title@ == document.title@,
        pdf_blocks_view(plan.blocks@) == document_blocks(
            document.title@,
            opt_str(document.author),
            opt_str(document.date),
            flat_secs_view(document.sections@),
        ),
{
    let mut blocks: Vec<PdfBlock> = Vec::new();
    push_block(&mut blocks, paragraph(document.title.clone(), true, false, Some(24), true));
    push_centered(&mut blocks, "Author: ", &document.author);
    push_centered(&mut blocks, "Date: ", &document.date);
    push_block(&mut blocks, PdfBlock::Break(1));
    let ghost before = pdf_blocks_view(blocks@);
    let ghost secs = flat_secs_view(document.sections@);
    proof {
        lemma_flat_secs_len(document.sections@);
    }
    let mut i: usize = 0;
    while i < document.sections.len()
        invariant
            0 <= i <= document.sections@.len(),
            secs == flat_secs_view(document.sections@),
            secs.len() == document.sections@.len(),
            pdf_blocks_view(blocks@) == before + sections_blocks(secs.take(i as int)),
        decreases document.sections@.len() - i,
    {
        proof {
            lemma_flat_secs_index(document.sections@, i as int);
            assert(secs.take(i + 1).drop_last() =~= secs.take(i as int));
        }
        push_section(&mut blocks, &document.sections[i]);
        proof {
            assert(pdf_blocks_view(blocks@) =~= before + sections_blocks(secs.take(i + 1)));
        }
        i = i + 1;
    }
    assert(secs.take(document.sections@.len() as int) =~= secs);
    assert(pdf_blocks_view(blocks@) =~= document_blocks(
        document.title@,
        opt_str(document.author),
        opt_str(document.date),
        secs,
    ));
    PdfPlan { title: document.title.clone(), blocks }
}


/// Parses Markdown into a flat document, titled as given or `Document`, and gives its PDF plan.
pub fn pdf_plan_from_markdown(markdown: &str, title: Option<&str>) -> (plan: PdfPlan)
    ensures
        plan.title@ == title_or_default(title),
        pdf_blocks_view(plan.blocks@) == document_blocks(
            title_or_default(title),
            None,
            None,
            flat_sections(spec_markdown_events(markdown@)),
        ),
{
    let doc_title = match title {
        Some(t) => t,
        None => "Document",
    };
    let document = markdown_to_document(markdown, doc_title);
    pdf_plan(&document)
}

} // verus!
