//! Writing a DOCX plan out through docx-rs.
//!
//! docx-rs values are opaque here: the plan ([`crate::docx_plan`]) is what the
//! library decides and proves things of; this module hands it over call by call.
//!
//! What a docx-rs value holds is modelled by the names below, as the plan values that
//! the builders here put into it: `Some` of that model when the value is one that
//! these builders make from a fresh value (every paragraph id left empty, for docx-rs
//! to number the paragraphs when it builds the package), `None` otherwise. docx-rs drops
//! the line breaks of a text added to a run, so the package holds the plan as written
//! ([`written_blocks`]).

use vstd::prelude::*;
use crate::docx_plan::{
    add_text, blocks_view, empty_run, paras_view, plain_para, BlockV, DocxBlock, DocxParagraph, DocxRun, ParaV, RunV,
};
use crate::error::DocError;

verus! {

/// docx-rs's document builder.
#[verifier::external_type_specification]
#[verifier::external_body]
pub struct ExDocx(docx_rs::Docx);

/// docx-rs's built document parts.
#[verifier::external_type_specification]
#[verifier::external_body]
pub struct ExXmlDocx(docx_rs::XMLDocx);

/// docx-rs's paragraph.
#[verifier::external_type_specification]
#[verifier::external_body]
pub struct ExParagraph(docx_rs::Paragraph);

/// docx-rs's run.
#[verifier::external_type_specification]
#[verifier::external_body]
pub struct ExRun(docx_rs::Run);

/// docx-rs's table.
#[verifier::external_type_specification]
#[verifier::external_body]
pub struct ExTable(docx_rs::Table);

/// docx-rs's table row.
#[verifier::external_type_specification]
#[verifier::external_body]
pub struct ExTableRow(docx_rs::TableRow);

/// docx-rs's table cell.
#[verifier::external_type_specification]
#[verifier::external_body]
pub struct ExTableCell(docx_rs::TableCell);

/// What a docx-rs run holds: its texts and formatting.
pub uninterp spec fn run_model(r: docx_rs::Run) -> Option<RunV>;

/// What a docx-rs paragraph holds: its id and what the plan says of it.
pub uninterp spec fn paragraph_model(p: docx_rs::Paragraph) -> Option<(Seq<char>, ParaV)>;

/// What a docx-rs table cell holds: its paragraphs.
pub uninterp spec fn cell_model(c: docx_rs::TableCell) -> Option<Seq<(Seq<char>, ParaV)>>;

/// What a docx-rs table row holds: its cells.
pub uninterp spec fn row_model(r: docx_rs::TableRow) -> Option<Seq<Seq<(Seq<char>, ParaV)>>>;

/// What a docx-rs table holds: its rows.
pub uninterp spec fn table_model(t: docx_rs::Table) -> Option<Seq<Seq<Seq<(Seq<char>, ParaV)>>>>;

/// What a docx-rs document holds: the blocks of its body, in order.
pub uninterp spec fn docx_model(d: docx_rs::Docx) -> Option<Seq<BlockV>>;

/// What a built docx-rs document holds: the blocks of the document it was built from.
pub uninterp spec fn xml_docx_model(x: docx_rs::XMLDocx) -> Option<Seq<BlockV>>;

/// The bytes of the DOCX package that docx-rs packs for a fresh document holding these
/// blocks; `None` when packing fails.
pub uninterp spec fn spec_docx_package(blocks: Seq<BlockV>) -> Option<Seq<u8>>;

/// A cell that holds one paragraph, whose id is empty.
pub open spec fn single_plain_cell(c: Seq<(Seq<char>, ParaV)>) -> bool {
    c.len() == 1 && c[0].0.len() == 0
}

/// Every cell of the rows holds one paragraph, whose id is empty.
pub open spec fn plain_cells(rows: Seq<Seq<Seq<(Seq<char>, ParaV)>>>) -> bool {
    forall|i: int, j: int| 0 <= i < rows.len() && 0 <= j < rows[i].len() ==> single_plain_cell(#[trigger] rows[i][j])
}

/// The paragraph of each cell, row by row.
pub open spec fn cell_paras(rows: Seq<Seq<Seq<(Seq<char>, ParaV)>>>) -> Seq<Seq<ParaV>> {
    rows.map_values(|row: Seq<Seq<(Seq<char>, ParaV)>>| row.map_values(|c: Seq<(Seq<char>, ParaV)>| c[0].1))
}

/// Table rows whose cells each hold one of the given paragraphs, with an empty id.
pub open spec fn plain_table(rows: Seq<Seq<ParaV>>) -> Seq<Seq<Seq<(Seq<char>, ParaV)>>> {
    rows.map_values(|row: Seq<ParaV>| plain_row(row))
}

pub open spec fn plain_row(row: Seq<ParaV>) -> Seq<Seq<(Seq<char>, ParaV)>> {
    row.map_values(|p: ParaV| seq![(Seq::<char>::empty(), p)])
}

/// A text as docx-rs keeps it in a run: `Run::add_text` drops its line breaks.
pub open spec fn run_text(t: Seq<char>) -> Seq<char> {
    t.filter(|c: char| c != '\n')
}

/// A run as it is written: its texts without line breaks.
pub open spec fn written_run(r: RunV) -> RunV {
    RunV { texts: r.texts.map_values(|t: Seq<char>| run_text(t)), ..r }
}

/// A paragraph as it is written: its runs' texts without line breaks.
pub open spec fn written_para(p: ParaV) -> ParaV {
    ParaV { runs: p.runs.map_values(|r: RunV| written_run(r)), ..p }
}

pub open spec fn written_row(row: Seq<ParaV>) -> Seq<ParaV> {
    row.map_values(|p: ParaV| written_para(p))
}

pub open spec fn written_rows(rows: Seq<Seq<ParaV>>) -> Seq<Seq<ParaV>> {
    rows.map_values(|row: Seq<ParaV>| written_row(row))
}

pub open spec fn written_block(b: BlockV) -> BlockV {
    match b {
        BlockV::Paragraph(p) => BlockV::Paragraph(written_para(p)),
        BlockV::Table(rows) => BlockV::Table(written_rows(rows)),
    }
}

/// The blocks of a plan as they are written into the package: every line break inside
/// a run's texts dropped, everything else as planned.
pub open spec fn written_blocks(plan: Seq<BlockV>) -> Seq<BlockV> {
    plan.map_values(|b: BlockV| written_block(b))
}

/// Whether `r` is what packing the plan gives: the bytes of the package of the plan as
/// written ([`written_blocks`]), or a packing error.
pub open spec fn packs_plan(r: Result<Vec<u8>, DocError>, plan: Seq<BlockV>) -> bool {
    match spec_docx_package(written_blocks(plan)) {
        Some(b) => r matches Ok(v) && v@ == b,
        None => r matches Err(e) && e is Docx,
    }
}

/// `Docx::new`: an empty document.
///
/// Trusted: the document holds no blocks.
#[verifier::external_body]
fn docx_new() -> (r: docx_rs::Docx)
    ensures
        docx_model(r) == Some(Seq::<BlockV>::empty()),
{
    docx_rs::Docx::new()
}

/// `Docx::add_paragraph`: appends a paragraph to the body.
///
/// Trusted: a paragraph with an empty id is appended as a paragraph block.
#[verifier::external_body]
fn docx_add_paragraph(doc: docx_rs::Docx, p: docx_rs::Paragraph) -> (r: docx_rs::Docx)
    ensures
        docx_model(doc) is Some && paragraph_model(p) is Some && paragraph_model(p).unwrap().0.len() == 0
            ==> docx_model(r) == Some(docx_model(doc).unwrap().push(BlockV::Paragraph(paragraph_model(p).unwrap().1))),
{
    doc.add_paragraph(p)
}

/// `Docx::add_table`: appends a table to the body.
///
/// Trusted: a table whose cells each hold one paragraph with an empty id is appended as
/// a table block of those paragraphs.
#[verifier::external_body]
fn docx_add_table(doc: docx_rs::Docx, t: docx_rs::Table) -> (r: docx_rs::Docx)
    ensures
        docx_model(doc) is Some && table_model(t) is Some && plain_cells(table_model(t).unwrap())
            ==> docx_model(r) == Some(docx_model(doc).unwrap().push(BlockV::Table(cell_paras(table_model(t).unwrap())))),
{
    doc.add_table(t)
}

/// `Docx::build`: renders the package parts.
///
/// Trusted: the built document holds the blocks of the document. docx-rs resets its
/// paragraph-id counter at the start of a build and gives every paragraph with an empty
/// id the next id, so the parts depend on the document alone.
#[verifier::external_body]
fn docx_build(doc: docx_rs::Docx) -> (r: docx_rs::XMLDocx)
    ensures
        docx_model(doc) is Some ==> xml_docx_model(r) == docx_model(doc),
{
    doc.build()
}

/// Whether bytes begin as a ZIP archive does: with the signature of a local file
/// header, `PK` followed by the bytes 3 and 4.
pub open spec fn starts_as_zip(b: Seq<u8>) -> bool {
    &&& b.len() >= 4
    &&& b[0] == 0x50u8
    &&& b[1] == 0x4bu8
    &&& b[2] == 0x03u8
    &&& b[3] == 0x04u8
}

/// `XMLDocx::pack` into an in-memory buffer: the ZIP bytes, or the packer's error message.
///
/// Trusted: for a built document that holds given blocks, the result is the named
/// [`spec_docx_package`] of those blocks (zip writes fixed entry times and docx-rs fixed
/// document dates, so the bytes depend on the parts alone). Packed bytes start as a ZIP
/// archive ([`starts_as_zip`]): the packer first adds the `word/` directory entry, whose
/// local file header is written at offset 0. The error message is not stated.
#[verifier::external_body]
fn xml_docx_pack(x: docx_rs::XMLDocx) -> (r: Result<Vec<u8>, String>)
    ensures
        r matches Ok(b) ==> starts_as_zip(b@),
        xml_docx_model(x) is Some ==> match spec_docx_package(xml_docx_model(x).unwrap()) {
            Some(b) => r matches Ok(v) && v@ == b,
            None => r is Err,
        },
{
    let mut buf = std::io::Cursor::new(Vec::new());
    x.pack(&mut buf).map_err(|e| e.to_string())?;
    Ok(buf.into_inner())
}

/// `Paragraph::new`.
///
/// Trusted: an empty paragraph, with the id that docx-rs's counter gives it.
#[verifier::external_body]
fn paragraph_new() -> (r: docx_rs::Paragraph)
    ensures
        paragraph_model(r) is Some,
        paragraph_model(r).unwrap().1 == plain_para(Seq::empty()),
{
    docx_rs::Paragraph::new()
}

/// `Paragraph::id`.
///
/// Trusted: the paragraph with its id replaced.
#[verifier::external_body]
fn paragraph_id(p: docx_rs::Paragraph, id: &str) -> (r: docx_rs::Paragraph)
    ensures
        paragraph_model(p) is Some ==> paragraph_model(r) == Some((id@, paragraph_model(p).unwrap().1)),
{
    p.id(id)
}

/// `Paragraph::add_run`.
///
/// Trusted: the run is appended to the paragraph's runs.
#[verifier::external_body]
fn paragraph_add_run(p: docx_rs::Paragraph, run: docx_rs::Run) -> (r: docx_rs::Paragraph)
    ensures
        paragraph_model(p) is Some && run_model(run) is Some ==> paragraph_model(r) == Some(
            (
                paragraph_model(p).unwrap().0,
                ParaV { runs: paragraph_model(p).unwrap().1.runs.push(run_model(run).unwrap()), ..paragraph_model(p).unwrap().1 },
            ),
        ),
{
    p.add_run(run)
}

/// `Paragraph::bold`.
///
/// Trusted: the paragraph is bold.
#[verifier::external_body]
fn paragraph_bold(p: docx_rs::Paragraph) -> (r: docx_rs::Paragraph)
    ensures
        paragraph_model(p) is Some ==> paragraph_model(r) == Some(
            (paragraph_model(p).unwrap().0, ParaV { bold: true, ..paragraph_model(p).unwrap().1 }),
        ),
{
    p.bold()
}

/// `Paragraph::size`.
///
/// Trusted: the paragraph has the size.
#[verifier::external_body]
fn paragraph_size(p: docx_rs::Paragraph, size: usize) -> (r: docx_rs::Paragraph)
    ensures
        paragraph_model(p) is Some ==> paragraph_model(r) == Some(
            (paragraph_model(p).unwrap().0, ParaV { size: Some(size), ..paragraph_model(p).unwrap().1 }),
        ),
{
    p.size(size)
}

/// `Paragraph::numbering` with `NumberingId::new(id)` and `IndentLevel::new(level)`.
///
/// Trusted: at level 0, the paragraph has the numbering definition.
#[verifier::external_body]
fn paragraph_numbering(p: docx_rs::Paragraph, id: usize, level: usize) -> (r: docx_rs::Paragraph)
    ensures
        paragraph_model(p) is Some && level == 0 ==> paragraph_model(r) == Some(
            (paragraph_model(p).unwrap().0, ParaV { numbering: Some(id), ..paragraph_model(p).unwrap().1 }),
        ),
{
    p.numbering(docx_rs::NumberingId::new(id), docx_rs::IndentLevel::new(level))
}

/// `Paragraph::indent` with a left indent only.
///
/// Trusted: the paragraph has the left indent.
#[verifier::external_body]
fn paragraph_indent_left(p: docx_rs::Paragraph, left: i32) -> (r: docx_rs::Paragraph)
    ensures
        paragraph_model(p) is Some ==> paragraph_model(r) == Some(
            (paragraph_model(p).unwrap().0, ParaV { indent_left: Some(left), ..paragraph_model(p).unwrap().1 }),
        ),
{
    p.indent(Some(left), None, None, None)
}

/// `Paragraph::page_break_before`.
///
/// Trusted: with `true`, the paragraph starts on a new page.
#[verifier::external_body]
fn paragraph_page_break_before(p: docx_rs::Paragraph, v: bool) -> (r: docx_rs::Paragraph)
    ensures
        paragraph_model(p) is Some && v ==> paragraph_model(r) == Some(
            (paragraph_model(p).unwrap().0, ParaV { page_break_before: true, ..paragraph_model(p).unwrap().1 }),
        ),
{
    p.page_break_before(v)
}

/// `Run::new`.
///
/// Trusted: an empty, unformatted run.
#[verifier::external_body]
fn run_new() -> (r: docx_rs::Run)
    ensures
        run_model(r) == Some(empty_run()),
{
    docx_rs::Run::new()
}

/// `Run::add_text`.
///
/// Trusted: the text, with its line breaks removed ([`run_text`]), is appended to the
/// run's texts.
#[verifier::external_body]
fn run_add_text(r: docx_rs::Run, text: &str) -> (out: docx_rs::Run)
    ensures
        run_model(r) is Some ==> run_model(out) == Some(add_text(run_model(r).unwrap(), run_text(text@))),
{
    r.add_text(text)
}

/// `Run::bold`.
///
/// Trusted: the run is bold.
#[verifier::external_body]
fn run_bold(r: docx_rs::Run) -> (out: docx_rs::Run)
    ensures
        run_model(r) is Some ==> run_model(out) == Some(RunV { bold: true, ..run_model(r).unwrap() }),
{
    r.bold()
}

/// `Run::italic`.
///
/// Trusted: the run is italic.
#[verifier::external_body]
fn run_italic(r: docx_rs::Run) -> (out: docx_rs::Run)
    ensures
        run_model(r) is Some ==> run_model(out) == Some(RunV { italic: true, ..run_model(r).unwrap() }),
{
    r.italic()
}

/// `Run::underline`.
///
/// Trusted: with the line type `single`, the run is underlined.
#[verifier::external_body]
fn run_underline(r: docx_rs::Run, line: &str) -> (out: docx_rs::Run)
    ensures
        run_model(r) is Some && line@ == "single"@ ==> run_model(out) == Some(
            RunV { underline: true, ..run_model(r).unwrap() },
        ),
{
    r.underline(line)
}

/// `Run::size`.
///
/// Trusted: the run has the size.
#[verifier::external_body]
fn run_size(r: docx_rs::Run, size: usize) -> (out: docx_rs::Run)
    ensures
        run_model(r) is Some ==> run_model(out) == Some(RunV { size: Some(size), ..run_model(r).unwrap() }),
{
    r.size(size)
}

/// `Table::new` with no rows.
///
/// Trusted: a table without rows.
#[verifier::external_body]
fn table_new() -> (t: docx_rs::Table)
    ensures
        table_model(t) == Some(Seq::<Seq<Seq<(Seq<char>, ParaV)>>>::empty()),
{
    docx_rs::Table::new(Vec::new())
}

/// `Table::add_row`.
///
/// Trusted: the row is appended to the table's rows.
#[verifier::external_body]
fn table_add_row(t: docx_rs::Table, row: docx_rs::TableRow) -> (out: docx_rs::Table)
    ensures
        table_model(t) is Some && row_model(row) is Some ==> table_model(out) == Some(
            table_model(t).unwrap().push(row_model(row).unwrap()),
        ),
{
    t.add_row(row)
}

/// `TableRow::new`.
///
/// Trusted: a row of the cells, in order.
#[verifier::external_body]
fn table_row_new(cells: Vec<docx_rs::TableCell>) -> (r: docx_rs::TableRow)
    ensures
        (forall|j: int| 0 <= j < cells@.len() ==> cell_model(#[trigger] cells@[j]) is Some) ==> row_model(r) == Some(
            Seq::new(cells@.len(), |j: int| cell_model(cells@[j]).unwrap()),
        ),
{
    docx_rs::TableRow::new(cells)
}

/// `TableCell::new`.
///
/// Trusted: a cell without paragraphs.
#[verifier::external_body]
fn table_cell_new() -> (c: docx_rs::TableCell)
    ensures
        cell_model(c) == Some(Seq::<(Seq<char>, ParaV)>::empty()),
{
    docx_rs::TableCell::new()
}

/// `TableCell::add_paragraph`.
///
/// Trusted: the paragraph is appended to the cell's paragraphs.
#[verifier::external_body]
fn table_cell_add_paragraph(c: docx_rs::TableCell, p: docx_rs::Paragraph) -> (out: docx_rs::TableCell)
    ensures
        cell_model(c) is Some && paragraph_model(p) is Some ==> cell_model(out) == Some(
            cell_model(c).unwrap().push(paragraph_model(p).unwrap()),
        ),
{
    c.add_paragraph(p)
}

fn emit_run(r: &DocxRun) -> (out: docx_rs::Run)
    ensures
        run_model(out) == Some(written_run(r@)),
{
    let ghost texts = r@.texts;
    let mut run = run_new();
    assert(texts.take(0).map_values(|t: Seq<char>| run_text(t)) =~= Seq::<Seq<char>>::empty());
    let mut i: usize = 0;
    while i < r.texts.len()
        invariant
            0 <= i <= r.texts@.len(),
            texts == r@.texts,
            texts.len() == r.texts@.len(),
            run_model(run) == Some(
                RunV { texts: texts.take(i as int).map_values(|t: Seq<char>| run_text(t)), ..empty_run() },
            ),
        decreases r.texts@.len() - i,
    {
        run = run_add_text(run, r.texts[i].as_str());
        assert(texts.take(i + 1).map_values(|t: Seq<char>| run_text(t)) =~= texts.take(i as int).map_values(
            |t: Seq<char>| run_text(t),
        ).push(run_text(r.texts@[i as int]@)));
        i = i + 1;
    }
    assert(texts.take(i as int).map_values(|t: Seq<char>| run_text(t)) =~= texts.map_values(|t: Seq<char>| run_text(t)));
    if r.bold {
        run = run_bold(run);
    }
    if r.italic {
        run = run_italic(run);
    }
    if r.underline {
        run = run_underline(run, "single");
    }
    match r.size {
        Some(s) => {
            run = run_size(run, s);
        },
        None => {},
    }
    run
}

fn emit_paragraph(p: &DocxParagraph) -> (out: docx_rs::Paragraph)
    ensures
        paragraph_model(out) == Some((Seq::<char>::empty(), written_para(p@))),
{
    let ghost runs = p@.runs;
    let mut para = paragraph_new();
    proof {
        reveal_strlit("");
    }
    para = paragraph_id(para, "");
    assert(""@ =~= Seq::<char>::empty());
    assert(runs.take(0).map_values(|r: RunV| written_run(r)) =~= Seq::<RunV>::empty());
    let mut i: usize = 0;
    while i < p.runs.len()
        invariant
            0 <= i <= p.runs@.len(),
            runs == p@.runs,
            runs.len() == p.runs@.len(),
            paragraph_model(para) == Some(
                (Seq::<char>::empty(), plain_para(runs.take(i as int).map_values(|r: RunV| written_run(r)))),
            ),
        decreases p.runs@.len() - i,
    {
        let run = emit_run(&p.runs[i]);
        para = paragraph_add_run(para, run);
        assert(runs.take(i + 1).map_values(|r: RunV| written_run(r)) =~= runs.take(i as int).map_values(
            |r: RunV| written_run(r),
        ).push(written_run(p.runs@[i as int]@)));
        i = i + 1;
    }
    assert(runs.take(i as int).map_values(|r: RunV| written_run(r)) =~= runs.map_values(|r: RunV| written_run(r)));
    if p.bold {
        para = paragraph_bold(para);
    }
    match p.size {
        Some(s) => {
            para = paragraph_size(para, s);
        },
        None => {},
    }
    match p.numbering {
        Some(id) => {
            para = paragraph_numbering(para, id, 0);
        },
        None => {},
    }
    match p.indent_left {
        Some(left) => {
            para = paragraph_indent_left(para, left);
        },
        None => {},
    }
    if p.page_break_before {
        para = paragraph_page_break_before(para, true);
    }
    para
}

fn emit_table(rows: &Vec<Vec<DocxParagraph>>) -> (out: docx_rs::Table)
    ensures
        table_model(out) == Some(plain_table(written_rows(rows@.map_values(|r: Vec<DocxParagraph>| paras_view(r@))))),
{
    let ghost rv = written_rows(rows@.map_values(|r: Vec<DocxParagraph>| paras_view(r@)));
    let mut table = table_new();
    let mut i: usize = 0;
    while i < rows.len()
        invariant
            0 <= i <= rows@.len(),
            rv == written_rows(rows@.map_values(|r: Vec<DocxParagraph>| paras_view(r@))),
            table_model(table) == Some(plain_table(rv.take(i as int))),
        decreases rows@.len() - i,
    {
        let row = &rows[i];
        let ghost pv = written_row(paras_view(row@));
        let mut cells: Vec<docx_rs::TableCell> = Vec::new();
        let mut j: usize = 0;
        while j < row.len()
            invariant
                0 <= j <= row@.len(),
                pv == written_row(paras_view(row@)),
                cells@.len() == j,
                forall|k: int| 0 <= k < j ==> cell_model(#[trigger] cells@[k]) == Some(seq![(Seq::<char>::empty(), pv[k])]),
            decreases row@.len() - j,
        {
            let cell = table_cell_add_paragraph(table_cell_new(), emit_paragraph(&row[j]));
            assert(seq![(Seq::<char>::empty(), pv[j as int])] =~= Seq::<(Seq<char>, ParaV)>::empty().push(
                (Seq::<char>::empty(), pv[j as int]),
            ));
            cells.push(cell);
            j = j + 1;
        }
        let ghost cells_view = cells@;
        let new_row = table_row_new(cells);
        assert(rv[i as int] == pv);
        assert(Seq::new(cells_view.len(), |k: int| cell_model(cells_view[k]).unwrap()) =~= plain_row(pv));
        table = table_add_row(table, new_row);
        assert(plain_table(rv.take(i + 1)) =~= plain_table(rv.take(i as int)).push(plain_row(pv)));
        i = i + 1;
    }
    assert(rv.take(i as int) =~= rv);
    table
}

/// Plain rows, read back: every cell holds one paragraph with an empty id, and the
/// paragraphs are the rows' own.
proof fn lemma_plain_table(rows: Seq<Seq<ParaV>>)
    ensures
        plain_cells(plain_table(rows)),
        cell_paras(plain_table(rows)) == rows,
{
    let t = plain_table(rows);
    assert forall|i: int, j: int| 0 <= i < t.len() && 0 <= j < t[i].len() implies single_plain_cell(#[trigger] t[i][j]) by {
        assert(t[i] == plain_row(rows[i]));
    }
    assert forall|i: int| 0 <= i < rows.len() implies #[trigger] cell_paras(t)[i] == rows[i] by {
        assert(cell_paras(t)[i] =~= rows[i]);
    }
    assert(cell_paras(t) =~= rows);
}

/// Hands a plan to docx-rs, block by block, and packs the result: the bytes of the
/// DOCX package of the plan (a ZIP archive), or the packer's error.
pub fn pack_docx(plan: &Vec<DocxBlock>) -> (r: Result<Vec<u8>, DocError>)
    ensures
        packs_plan(r, blocks_view(plan@)),
        r matches Ok(b) ==> starts_as_zip(b@),
        r matches Err(e) ==> e is Docx,
{
    let ghost bv = blocks_view(plan@);
    let mut doc = docx_new();
    assert(written_blocks(bv.take(0)) =~= Seq::<BlockV>::empty());
    let mut i: usize = 0;
    while i < plan.len()
        invariant
            0 <= i <= plan@.len(),
            bv == blocks_view(plan@),
            docx_model(doc) == Some(written_blocks(bv.take(i as int))),
        decreases plan@.len() - i,
    {
        match &plan[i] {
            DocxBlock::Paragraph(p) => {
                doc = docx_add_paragraph(doc, emit_paragraph(p));
            },
            DocxBlock::Table(rows) => {
                let t = emit_table(rows);
                proof {
                    lemma_plain_table(written_rows(rows@.map_values(|r: Vec<DocxParagraph>| paras_view(r@))));
                }
                doc = docx_add_table(doc, t);
            },
        }
        assert(written_blocks(bv.take(i + 1)) =~= written_blocks(bv.take(i as int)).push(written_block(bv[i as int])));
        i = i + 1;
    }
    assert(written_blocks(bv.take(i as int)) =~= written_blocks(bv));
    match xml_docx_pack(docx_build(doc)) {
        Ok(bytes) => Ok(bytes),
        Err(msg) => Err(DocError::Docx(msg)),
    }
}

} // verus!
