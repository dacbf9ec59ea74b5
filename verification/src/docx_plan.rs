//! What goes into a DOCX package: paragraphs of runs, and tables of such paragraphs.
//!
//! The renderers decide the plan; [`crate::render_docx`] hands it to docx-rs.

use vstd::prelude::*;
use crate::schema::strs_view;

verus! {

/// A run: its texts in order and its character formatting.
#[derive(Debug)]
pub struct DocxRun {
    pub texts: Vec<String>,
    pub bold: bool,
    pub italic: bool,
    pub underline: bool,
    pub size: Option<usize>,
}

/// A paragraph: its runs and its paragraph-level formatting.
#[derive(Debug)]
pub struct DocxParagraph {
    pub runs: Vec<DocxRun>,
    pub bold: bool,
    pub size: Option<usize>,
    /// The numbering definition of a list paragraph (at indent level 0).
    pub numbering: Option<usize>,
    /// The left indent, in twentieths of a point.
    pub indent_left: Option<i32>,
    pub page_break_before: bool,
}

/// A block of the document body.
#[derive(Debug)]
pub enum DocxBlock {
    Paragraph(DocxParagraph),
    /// A table: its rows, each a list of cells holding one paragraph.
    Table(Vec<Vec<DocxParagraph>>),
}

pub struct RunV {
    pub texts: Seq<Seq<char>>,
    pub bold: bool,
    pub italic: bool,
    pub underline: bool,
    pub size: Option<usize>,
}

pub struct ParaV {
    pub runs: Seq<RunV>,
    pub bold: bool,
    pub size: Option<usize>,
    pub numbering: Option<usize>,
    pub indent_left: Option<i32>,
    pub page_break_before: bool,
}

pub enum BlockV {
    Paragraph(ParaV),
    Table(Seq<Seq<ParaV>>),
}

impl View for DocxRun {
    type V = RunV;

    open spec fn view(&self) -> RunV {
        RunV {
            texts: strs_view(self.texts@),
            bold: self.bold,
            italic: self.italic,
            underline: self.underline,
            size: self.size,
        }
    }
}

impl View for DocxParagraph {
    type V = ParaV;

    open spec fn view(&self) -> ParaV {
        ParaV {
            runs: self.runs@.map_values(|r: DocxRun| r@),
            bold: self.bold,
            size: self.size,
            numbering: self.numbering,
            indent_left: self.indent_left,
            page_break_before: self.page_break_before,
        }
    }
}

pub open spec fn paras_view(s: Seq<DocxParagraph>) -> Seq<ParaV> {
    s.map_values(|p: DocxParagraph| p@)
}

impl View for DocxBlock {
    type V = BlockV;

    open spec fn view(&self) -> BlockV {
        match self {
            DocxBlock::Paragraph(p) => BlockV::Paragraph(p@),
            DocxBlock::Table(rows) => BlockV::Table(rows@.map_values(|r: Vec<DocxParagraph>| paras_view(r@))),
        }
    }
}

pub open spec fn blocks_view(s: Seq<DocxBlock>) -> Seq<BlockV> {
    s.map_values(|b: DocxBlock| b@)
}

pub open spec fn empty_run() -> RunV {
    RunV { texts: Seq::empty(), bold: false, italic: false, underline: false, size: None }
}

pub open spec fn text_run(t: Seq<char>) -> RunV {
    RunV { texts: seq![t], ..empty_run() }
}

pub open spec fn add_text(r: RunV, t: Seq<char>) -> RunV {
    RunV { texts: r.texts.push(t), ..r }
}

pub open spec fn plain_para(runs: Seq<RunV>) -> ParaV {
    ParaV { runs, bold: false, size: None, numbering: None, indent_left: None, page_break_before: false }
}

pub fn new_run() -> (r: DocxRun)
    ensures
        r@ == empty_run(),
{
    let r = DocxRun { texts: Vec::new(), bold: false, italic: false, underline: false, size: None };
    assert(r@.texts =~= Seq::<Seq<char>>::empty());
    r
}

pub fn run_push_text(r: &mut DocxRun, t: String)
    ensures
        final(r)@ == add_text(old(r)@, t@),
{
    let ghost old_texts = r.texts@;
    r.texts.push(t);
    assert(strs_view(r.texts@) =~= strs_view(old_texts).push(t@));
}

pub fn new_text_run(t: String) -> (r: DocxRun)
    ensures
        r@ == text_run(t@),
{
    let mut r = new_run();
    run_push_text(&mut r, t);
    assert(r@.texts =~= seq![t@]);
    r
}

pub fn new_paragraph(runs: Vec<DocxRun>) -> (p: DocxParagraph)
    ensures
        p@ == plain_para(runs@.map_values(|r: DocxRun| r@)),
{
    DocxParagraph { runs, bold: false, size: None, numbering: None, indent_left: None, page_break_before: false }
}

pub fn single_run_paragraph(run: DocxRun) -> (p: DocxParagraph)
    ensures
        p@ == plain_para(seq![run@]),
{
    let mut runs: Vec<DocxRun> = Vec::new();
    runs.push(run);
    let p = new_paragraph(runs);
    assert(p@.runs =~= seq![run@]);
    p
}

pub fn push_paragraph(plan: &mut Vec<DocxBlock>, p: DocxParagraph)
    ensures
        blocks_view(final(plan)@) == blocks_view(old(plan)@).push(BlockV::Paragraph(p@)),
{
    let ghost old_plan = plan@;
    plan.push(DocxBlock::Paragraph(p));
    assert(blocks_view(plan@) =~= blocks_view(old_plan).push(BlockV::Paragraph(p@)));
}

} // verus!
