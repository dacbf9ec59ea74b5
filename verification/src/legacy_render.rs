//! Rendering the flat document model: a DOCX plan and a PDF plan.

use vstd::prelude::*;
use crate::docx_out::{pack_docx, packs_plan, starts_as_zip};
use crate::events::spec_markdown_events;
use crate::docx_plan::{
    blocks_view, new_paragraph, new_text_run, plain_para, push_paragraph, single_run_paragraph, text_run, BlockV, DocxBlock, DocxParagraph, DocxRun, ParaV, RunV,
};
use crate::error::DocError;
use crate::legacy::{
    flat_elem_view, flat_elems_view, flat_items_view, flat_sec_view, flat_secs_view, flat_sections, lemma_flat_items_index, lemma_flat_items_len,
    lemma_flat_secs_index, lemma_flat_secs_len, markdown_to_document, FlatElem, FlatSec, SpanV,
};
use crate::schema::opt_str;
use crate::{BodyElement, Document, Section};

verus! {

pub open spec fn flat_take_step(s: Seq<BodyElement>, i: int) -> bool {
    &&& flat_elems_view(s.take(i + 1)).drop_last() == flat_elems_view(s.take(i))
    &&& flat_elems_view(s.take(i + 1)).last() == flat_elem_view(s[i])
    &&& flat_elems_view(s.take(i + 1)).len() > 0
}

pub proof fn lemma_flat_take_step(s: Seq<BodyElement>, i: int)
    requires
        0 <= i < s.len(),
    ensures
        flat_take_step(s, i),
{
    assert(s.take(i + 1) =~= s.take(i).push(s[i]));
    crate::legacy::lemma_flat_elems_push(s.take(i), s[i]);
    assert(flat_elems_view(s.take(i)).push(flat_elem_view(s[i])).drop_last() =~= flat_elems_view(s.take(i)));
}

/// One run per text span of a list item, holding its text.
pub open spec fn flat_item_runs(item: Seq<FlatElem>) -> Seq<RunV>
    decreases item.len(),
{
    if item.len() == 0 {
        Seq::empty()
    } else {
        let r0 = flat_item_runs(item.drop_last());
        match item.last() {
            FlatElem::TextSpan(t) => r0.push(text_run(t.text)),
            _ => r0,
        }
    }
}

pub open spec fn flat_item_block(ordered: bool, item: Seq<FlatElem>) -> BlockV {
    BlockV::Paragraph(ParaV { numbering: Some(if ordered { 1usize } else { 2usize }), ..plain_para(flat_item_runs(item)) })
}

/// The DOCX blocks of a flat body element.
pub open spec fn flat_block_plan(e: FlatElem) -> Seq<BlockV> {
    match e {
        FlatElem::TextSpan(t) => seq![
            BlockV::Paragraph(plain_para(seq![
                RunV { texts: seq![t.text], bold: t.bold, italic: t.italic, underline: t.underline, size: None },
            ])),
        ],
        FlatElem::PageBreak => seq![BlockV::Paragraph(ParaV { page_break_before: true, ..plain_para(Seq::empty()) })],
        FlatElem::List { ordered, items } => items.map_values(|item: Seq<FlatElem>| flat_item_block(ordered, item)),
    }
}

pub open spec fn flat_body_plan(s: Seq<FlatElem>) -> Seq<BlockV>
    decreases s.len(),
{
    if s.len() == 0 {
        Seq::empty()
    } else {
        flat_body_plan(s.drop_last()) + flat_block_plan(s.last())
    }
}

/// A text span of a flat body becomes one DOCX paragraph of one run: the span's text,
/// bold, italic and underlined exactly as the span is, at the default size.
pub proof fn lemma_flat_span_run(s: Seq<FlatElem>, t: SpanV)
    ensures
        flat_body_plan(s.push(FlatElem::TextSpan(t))) == flat_body_plan(s).push(
            BlockV::Paragraph(
                ParaV {
                    runs: seq![RunV { texts: seq![t.text], bold: t.bold, italic: t.italic, underline: t.underline, size: None }],
                    bold: false,
                    size: None,
                    numbering: None,
                    indent_left: None,
                    page_break_before: false,
                },
            ),
        ),
{
    let x = s.push(FlatElem::TextSpan(t));
    assert(x.drop_last() =~= s);
    assert(flat_body_plan(x) =~= flat_body_plan(s) + flat_block_plan(FlatElem::TextSpan(t)));
}

/// A flat list becomes one DOCX paragraph per item, in order, each numbered with
/// definition 1 when the list is ordered and 2 when it is not, with one plain run per
/// text span of the item.
pub proof fn lemma_flat_list_numbering(ordered: bool, items: Seq<Seq<FlatElem>>)
    ensures
        flat_block_plan(FlatElem::List { ordered, items }).len() == items.len(),
        forall|i: int|
            0 <= i < items.len() ==> (#[trigger] flat_block_plan(FlatElem::List { ordered, items })[i] matches BlockV::Paragraph(
                p,
            ) && p.numbering == Some(if ordered {
                1usize
            } else {
                2usize
            }) && p.runs == flat_item_runs(items[i])),
{
}

pub open spec fn bold_line(t: Seq<char>) -> BlockV {
    BlockV::Paragraph(ParaV { bold: true, ..plain_para(seq![text_run(t)]) })
}

/// A flat section: its heading as a bold paragraph, its body, its subsections.
pub open spec fn flat_section_plan(s: FlatSec) -> Seq<BlockV>
    decreases s,
{
    (match s.heading {
        Some(h) => seq![bold_line(h)],
        None => Seq::empty(),
    }) + flat_body_plan(s.body) + flat_sections_plan(s.subsections)
}

pub open spec fn flat_sections_plan(s: Seq<FlatSec>) -> Seq<BlockV>
    decreases s,
{
    if s.len() == 0 {
        Seq::empty()
    } else {
        flat_sections_plan(s.subrange(0, s.len() - 1)) + flat_section_plan(s[s.len() - 1])
    }
}

pub open spec fn labelled_line(label: Seq<char>, v: Option<Seq<char>>) -> Seq<BlockV> {
    match v {
        Some(a) => seq![BlockV::Paragraph(plain_para(seq![text_run(label + a)]))],
        None => Seq::empty(),
    }
}

/// A flat document: its title in bold at size 48, `Author: ...` and `Date: ...` lines
/// when given, then its sections.
pub open spec fn flat_document_plan(
    title: Seq<char>,
    author: Option<Seq<char>>,
    date: Option<Seq<char>>,
    sections: Seq<FlatSec>,
) -> Seq<BlockV> {
    seq![BlockV::Paragraph(ParaV { bold: true, size: Some(48usize), ..plain_para(seq![text_run(title)]) })]
        + labelled_line("Author: "@, author) + labelled_line("Date: "@, date) + flat_sections_plan(sections)
}

fn item_paragraph(ordered: bool, item: &Vec<BodyElement>) -> (p: DocxParagraph)
    ensures
        BlockV::Paragraph(p@) == flat_item_block(ordered, flat_elems_view(item@)),
{
    let mut runs: Vec<DocxRun> = Vec::new();
    let mut i: usize = 0;
    while i < item.len()
        invariant
            0 <= i <= item@.len(),
            runs@.map_values(|r: DocxRun| r@) == flat_item_runs(flat_elems_view(item@.take(i as int))),
        decreases item@.len() - i,
    {
        proof {
            lemma_flat_take_step(item@, i as int);
        }
        match &item[i] {
            BodyElement::TextSpan(t) => {
                let r = new_text_run(t.text.clone());
                let ghost old_runs = runs@;
                runs.push(r);
                assert(runs@.map_values(|r: DocxRun| r@) =~= old_runs.map_values(|r: DocxRun| r@).push(r@));
            },
            _ => {},
        }
        i = i + 1;
    }
    assert(item@.take(item@.len() as int) =~= item@);
    let mut p = new_paragraph(runs);
    p.numbering = Some(if ordered { 1 } else { 2 });
    p
}

fn add_flat_block(plan: &mut Vec<DocxBlock>, elem: &BodyElement)
    ensures
        blocks_view(final(plan)@) == blocks_view(old(plan)@) + flat_block_plan(flat_elem_view(*elem)),
{
    match elem {
        BodyElement::TextSpan(t) => {
            let mut run = new_text_run(t.text.clone());
            run.bold = t.bold;
            run.italic = t.italic;
            run.underline = t.underline;
            let p = single_run_paragraph(run);
            push_paragraph(plan, p);
            assert(blocks_view(plan@) =~= blocks_view(old(plan)@) + flat_block_plan(flat_elem_view(*elem)));
        },
        BodyElement::PageBreak(_) => {
            let mut p = new_paragraph(Vec::new());
            p.page_break_before = true;
            push_paragraph(plan, p);
            assert(p@.runs =~= Seq::<RunV>::empty());
            assert(blocks_view(plan@) =~= blocks_view(old(plan)@) + flat_block_plan(flat_elem_view(*elem)));
        },
        BodyElement::List(l) => {
            let ghost start = blocks_view(plan@);
            let ghost items = flat_items_view(l.items@);
            proof {
                lemma_flat_items_len(l.items@);
            }
            let mut i: usize = 0;
            while i < l.items.len()
                invariant
                    0 <= i <= l.items@.len(),
                    items == flat_items_view(l.items@),
                    items.len() == l.items@.len(),
                    blocks_view(plan@) == start + items.take(i as int).map_values(
                        |item: Seq<FlatElem>| flat_item_block(l.ordered, item),
                    ),
                decreases l.items@.len() - i,
            {
                proof {
                    lemma_flat_items_index(l.items@, i as int);
                }
                let p = item_paragraph(l.ordered, &l.items[i]);
                push_paragraph(plan, p);
                proof {
                    assert(items.take(i + 1).map_values(|item: Seq<FlatElem>| flat_item_block(l.ordered, item))
                        =~= items.take(i as int).map_values(|item: Seq<FlatElem>| flat_item_block(l.ordered, item)).push(
                        flat_item_block(l.ordered, items[i as int]),
                    ));
                }
                i = i + 1;
            }
            assert(items.take(l.items@.len() as int) =~= items);
        },
    }
}

/// Adds the blocks of a flat body to the plan.
pub fn add_body_to_doc(plan: &mut Vec<DocxBlock>, body: &[BodyElement])
    ensures
        blocks_view(final(plan)@) == blocks_view(old(plan)@) + flat_body_plan(flat_elems_view(body@)),
{
    let ghost start = blocks_view(plan@);
    let mut i: usize = 0;
    while i < body.len()
        invariant
            0 <= i <= body@.len(),
            blocks_view(plan@) == start + flat_body_plan(flat_elems_view(body@.take(i as int))),
        decreases body@.len() - i,
    {
        proof {
            lemma_flat_take_step(body@, i as int);
        }
        add_flat_block(plan, &body[i]);
        proof {
            let x = flat_elems_view(body@.take(i + 1));
            assert(flat_body_plan(x) == flat_body_plan(x.drop_last()) + flat_block_plan(x.last()));
            assert(blocks_view(plan@) =~= start + flat_body_plan(x));
        }
        i = i + 1;
    }
    assert(body@.take(body@.len() as int) =~= body@);
}

fn push_bold_line(plan: &mut Vec<DocxBlock>, text: String)
    ensures
        blocks_view(final(plan)@) == blocks_view(old(plan)@).push(bold_line(text@)),
{
    let mut p = single_run_paragraph(new_text_run(text));
    p.bold = true;
    push_paragraph(plan, p);
}

/// Adds a flat section and its subsections to the plan.
pub fn add_section(plan: &mut Vec<DocxBlock>, section: &Section)
    ensures
        blocks_view(final(plan)@) == blocks_view(old(plan)@) + flat_section_plan(flat_sec_view(*section)),
    decreases flat_sec_view(*section),
{
    let ghost start = blocks_view(plan@);
    match &section.heading {
        Some(h) => push_bold_line(plan, h.clone()),
        None => {},
    }
    add_body_to_doc(plan, section.body.as_slice());
    let ghost before = blocks_view(plan@);
    let ghost subs = flat_secs_view(section.subsections@);
    proof {
        lemma_flat_secs_len(section.subsections@);
    }
    let mut i: usize = 0;
    while i < section.subsections.len()
        invariant
            0 <= i <= section.subsections@.len(),
            subs == flat_secs_view(section.subsections@),
            subs.len() == section.subsections@.len(),
            flat_sec_view(*section).subsections == subs,
            blocks_view(plan@) == before + flat_sections_plan(subs.take(i as int)),
        decreases section.subsections@.len() - i,
    {
        proof {
            lemma_flat_secs_index(section.subsections@, i as int);
            assert(subs.take(i + 1).subrange(0, i as int) =~= subs.take(i as int));
        }
        add_section(plan, &section.subsections[i]);
        proof {
            assert(blocks_view(plan@) =~= before + flat_sections_plan(subs.take(i + 1)));
        }
        i = i + 1;
    }
    assert(subs.take(section.subsections@.len() as int) =~= subs);
    assert(blocks_view(plan@) =~= start + flat_section_plan(flat_sec_view(*section)));
}

fn push_labelled(plan: &mut Vec<DocxBlock>, label: &str, v: &Option<String>)
    ensures
        blocks_view(final(plan)@) == blocks_view(old(plan)@) + labelled_line(label@, opt_str(*v)),
{
    match v {
        Some(a) => {
            let mut t = String::from_str(label);
            t.append(a.as_str());
            let p = single_run_paragraph(new_text_run(t));
            push_paragraph(plan, p);
            assert(blocks_view(plan@) =~= blocks_view(old(plan)@) + labelled_line(label@, opt_str(*v)));
        },
        None => {
            assert(blocks_view(plan@) =~= blocks_view(old(plan)@) + labelled_line(label@, opt_str(*v)));
        },
    }
}

/// The DOCX blocks of a flat document.
pub fn docx_plan(document: &Document) -> (plan: Vec<DocxBlock>)
    ensures
        blocks_view(plan@) == flat_document_plan(
            document.title@,
            opt_str(document.author),
            opt_str(document.date),
            flat_secs_view(document.sections@),
        ),
{
    let mut plan: Vec<DocxBlock> = Vec::new();
    let mut p = single_run_paragraph(new_text_run(document.title.clone()));
    p.bold = true;
    p.size = Some(48);
    push_paragraph(&mut plan, p);
    push_labelled(&mut plan, "Author: ", &document.author);
    push_labelled(&mut plan, "Date: ", &document.date);
    let ghost before = blocks_view(plan@);
    let ghost secs = flat_secs_view(document.sections@);
    proof {
        lemma_flat_secs_len(document.sections@);
    }
    let mut i: usize = 0;
    while i < document.sections.len()
        invariant
            0 <= i <= document.sections@.len(),
            secs == flat_secs_view(document.sections@),
            secs.len() == document.sections@.len(),
            blocks_view(plan@) == before + flat_sections_plan(secs.take(i as int)),
        decreases document.sections@.len() - i,
    {
        proof {
            lemma_flat_secs_index(document.sections@, i as int);
            assert(secs.take(i + 1).subrange(0, i as int) =~= secs.take(i as int));
        }
        add_section(&mut plan, &document.sections[i]);
        proof {
            assert(blocks_view(plan@) =~= before + flat_sections_plan(secs.take(i + 1)));
        }
        i = i + 1;
    }
    assert(secs.take(document.sections@.len() as int) =~= secs);
    assert(blocks_view(plan@) =~= flat_document_plan(
        document.title@,
        opt_str(document.author),
        opt_str(document.date),
        secs,
    ));
    plan
}

/// Renders a flat document as the bytes of a DOCX package: the blocks of
/// [`docx_plan`], handed to docx-rs and packed.
pub fn document_to_docx_bytes(document: &Document) -> (r: Result<Vec<u8>, DocError>)
    ensures
        packs_plan(
            r,
            flat_document_plan(
                document.title@,
                opt_str(document.author),
                opt_str(document.date),
                flat_secs_view(document.sections@),
            ),
        ),
        r matches Ok(b) ==> starts_as_zip(b@),
        r matches Err(e) ==> e is Docx,
{
    let plan = docx_plan(document);
    pack_docx(&plan)
}


/// The title a document gets: the one given, or `Document`.
pub open spec fn title_or_default(title: Option<&str>) -> Seq<char> {
    match title {
        Some(t) => t@,
        None => "Document"@,
    }
}

/// Parses Markdown into a flat document, titled as given or `Document`, and renders it as DOCX.
pub fn generate_docx_from_markdown(markdown: &str, title: Option<&str>) -> (r: Result<Vec<u8>, DocError>)
    ensures
        packs_plan(
            r,
            flat_document_plan(title_or_default(title), None, None, flat_sections(spec_markdown_events(markdown@))),
        ),
        r matches Ok(b) ==> starts_as_zip(b@),
        r matches Err(e) ==> e is Docx,
{
    let doc_title = match title {
        Some(t) => t,
        None => "Document",
    };
    let document = markdown_to_document(markdown, doc_title);
    document_to_docx_bytes(&document)
}

} // verus!
