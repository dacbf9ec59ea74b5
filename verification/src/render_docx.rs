//! Rendering the document model as a DOCX package.

use vstd::prelude::*;
use crate::docx_plan::{
    add_text, blocks_view, empty_run, new_run, new_text_run, paras_view, plain_para, push_paragraph,
    run_push_text, single_run_paragraph, text_run, BlockV, DocxBlock, DocxParagraph, DocxRun, ParaV, RunV,
};
use crate::schema::{
    elems_view, lemma_elems_view_index, lemma_elems_view_len, lemma_elems_view_take_step,
    lemma_rows_view_index, lemma_rows_view_len, lemma_sections_view_index, lemma_sections_view_len, opt_str,
    rows_view, section_view, sections_view, strs_view, BodyElement, Document, Elem, InlineStyle, Sec, Section,
    StyleView,
};
use crate::text::{spec_to_uppercase, to_uppercase};
use crate::docx_out::{pack_docx, packs_plan, starts_as_zip};
use crate::error::DocError;

verus! {

/// A text span added to a run: its text appended, and its bold, italic and underline
/// switched on in the run when set in the span.
pub open spec fn span_run(r: RunV, text: Seq<char>, style: StyleView) -> RunV {
    RunV {
        texts: r.texts.push(text),
        bold: r.bold || style.bold,
        italic: r.italic || style.italic,
        underline: r.underline || style.underline,
        size: r.size,
    }
}

/// The placeholder text of an image: `[Image: src] caption`.
pub open spec fn image_label(src: Seq<char>, caption: Option<Seq<char>>) -> Seq<char> {
    "[Image: "@ + src + "] "@ + match caption {
        Some(c) => c,
        None => Seq::empty(),
    }
}

/// The text spans among `s` added to a run, in order.
pub open spec fn spans_run(r: RunV, s: Seq<Elem>) -> RunV
    decreases s.len(),
{
    if s.len() == 0 {
        r
    } else {
        let r0 = spans_run(r, s.drop_last());
        match s.last() {
            Elem::TextSpan { text, style } => span_run(r0, text, style),
            _ => r0,
        }
    }
}

/// The text spans and images of a paragraph added to a run, in order.
pub open spec fn para_run(r: RunV, s: Seq<Elem>) -> RunV
    decreases s.len(),
{
    if s.len() == 0 {
        r
    } else {
        let r0 = para_run(r, s.drop_last());
        match s.last() {
            Elem::TextSpan { text, style } => span_run(r0, text, style),
            Elem::Image { src, caption, .. } => add_text(r0, image_label(src, caption)),
            _ => r0,
        }
    }
}

/// The text spans of the paragraphs of a list item added to a run, in order.
pub open spec fn item_run(r: RunV, item: Seq<Elem>) -> RunV
    decreases item.len(),
{
    if item.len() == 0 {
        r
    } else {
        let r0 = item_run(r, item.drop_last());
        match item.last() {
            Elem::Paragraph(inl) => spans_run(r0, inl),
            _ => r0,
        }
    }
}

pub open spec fn header_para(h: Seq<char>) -> ParaV {
    plain_para(seq![RunV { texts: seq![h], bold: true, ..empty_run() }])
}

/// A table cell: a paragraph's text spans in one run; a single space for anything else.
pub open spec fn cell_para(e: Elem) -> ParaV {
    match e {
        Elem::Paragraph(inl) => plain_para(seq![spans_run(empty_run(), inl)]),
        _ => plain_para(seq![text_run(" "@)]),
    }
}

pub open spec fn row_paras(row: Seq<Elem>) -> Seq<ParaV> {
    row.map_values(|e: Elem| cell_para(e))
}

pub open spec fn table_rows_plan(rows: Seq<Seq<Elem>>) -> Seq<Seq<ParaV>> {
    rows.map_values(|row: Seq<Elem>| row_paras(row))
}

/// A table: a bold header row when there are headers, then one row per body row.
pub open spec fn table_plan(headers: Option<Seq<Seq<char>>>, rows: Seq<Seq<Elem>>) -> Seq<Seq<ParaV>> {
    match headers {
        Some(hs) => seq![hs.map_values(|h: Seq<char>| header_para(h))] + table_rows_plan(rows),
        None => table_rows_plan(rows),
    }
}

/// A list item: one numbered paragraph (numbering 1 when ordered, 2 otherwise) of one run.
pub open spec fn item_block(ordered: bool, item: Seq<Elem>) -> BlockV {
    BlockV::Paragraph(
        ParaV { numbering: Some(if ordered { 1usize } else { 2usize }), ..plain_para(seq![item_run(empty_run(), item)]) },
    )
}

pub open spec fn list_plan(ordered: bool, items: Seq<Seq<Elem>>) -> Seq<BlockV> {
    items.map_values(|item: Seq<Elem>| item_block(ordered, item))
}

pub open spec fn one_run_block(r: RunV) -> Seq<BlockV> {
    seq![BlockV::Paragraph(plain_para(seq![r]))]
}

/// The DOCX blocks of a body element.
pub open spec fn block_plan(e: Elem) -> Seq<BlockV> {
    match e {
        Elem::Paragraph(inl) => one_run_block(para_run(empty_run(), inl)),
        Elem::List { ordered, items } => list_plan(ordered, items),
        Elem::Table { headers, rows } => seq![BlockV::Table(table_plan(headers, rows))],
        Elem::BlockQuote(children) => seq![
            BlockV::Paragraph(ParaV { indent_left: Some(720i32), ..plain_para(seq![spans_run(empty_run(), children)]) }),
        ],
        Elem::CodeBlock { code, .. } => one_run_block(text_run(code)),
        Elem::PageBreak => seq![BlockV::Paragraph(ParaV { page_break_before: true, ..plain_para(Seq::empty()) })],
        Elem::FootnoteRef(name) => one_run_block(text_run("[^"@ + name + "]"@)),
        Elem::Callout { kind, content } => one_run_block(
            spans_run(text_run("["@ + spec_to_uppercase(kind) + "] "@), content),
        ),
        Elem::TableOfContents => one_run_block(text_run("[Table of Contents]"@)),
        Elem::TextSpan { text, style } => one_run_block(span_run(empty_run(), text, style)),
        Elem::Image { src, caption, .. } => one_run_block(text_run(image_label(src, caption))),
    }
}

/// A list becomes one DOCX paragraph per item, in order, each numbered with definition
/// 1 when the list is ordered and 2 when it is not, at no other formatting.
pub proof fn lemma_list_numbering(ordered: bool, items: Seq<Seq<Elem>>)
    ensures
        block_plan(Elem::List { ordered, items }).len() == items.len(),
        forall|i: int|
            0 <= i < items.len() ==> (#[trigger] block_plan(Elem::List { ordered, items })[i] matches BlockV::Paragraph(
                p,
            ) && p.numbering == Some(if ordered {
                1usize
            } else {
                2usize
            }) && p.runs.len() == 1 && !p.bold && p.size is None && p.indent_left is None && !p.page_break_before),
{
}

/// Whether a body element is a text span with the given style flag set: `0` bold,
/// `1` italic, `2` underlined.
pub open spec fn span_flag(e: Elem, which: int) -> bool {
    match e {
        Elem::TextSpan { style, .. } => if which == 0 {
            style.bold
        } else if which == 1 {
            style.italic
        } else {
            style.underline
        },
        _ => false,
    }
}

pub open spec fn run_flag(r: RunV, which: int) -> bool {
    if which == 0 {
        r.bold
    } else if which == 1 {
        r.italic
    } else {
        r.underline
    }
}

proof fn lemma_para_run_flags(r: RunV, s: Seq<Elem>, which: int)
    ensures
        run_flag(para_run(r, s), which) == (run_flag(r, which) || exists|i: int|
            0 <= i < s.len() && #[trigger] span_flag(s[i], which)),
    decreases s.len(),
{
    if s.len() > 0 {
        let p = s.drop_last();
        lemma_para_run_flags(r, p, which);
        let last = s[s.len() - 1];
        assert(s.last() == last);
        match last {
            Elem::TextSpan { text, style } => {
                assert(run_flag(para_run(r, s), which) == (run_flag(para_run(r, p), which) || span_flag(last, which)));
            },
            Elem::Image { src, caption, .. } => {
                assert(run_flag(para_run(r, s), which) == run_flag(para_run(r, p), which));
            },
            _ => {
                assert(run_flag(para_run(r, s), which) == run_flag(para_run(r, p), which));
            },
        }
        if exists|i: int| 0 <= i < p.len() && #[trigger] span_flag(p[i], which) {
            let i = choose|i: int| 0 <= i < p.len() && #[trigger] span_flag(p[i], which);
            assert(s[i] == p[i]);
        }
        if exists|i: int| 0 <= i < s.len() && #[trigger] span_flag(s[i], which) {
            let i = choose|i: int| 0 <= i < s.len() && #[trigger] span_flag(s[i], which);
            if i < s.len() - 1 {
                assert(p[i] == s[i]);
            }
        }
    }
}

/// A paragraph becomes one DOCX paragraph of one run, which is bold, italic or
/// underlined exactly when one of the paragraph's text spans is.
pub proof fn lemma_paragraph_run_styles(inl: Seq<Elem>)
    ensures
        block_plan(Elem::Paragraph(inl)).len() == 1,
        block_plan(Elem::Paragraph(inl))[0] matches BlockV::Paragraph(p) && p.runs.len() == 1 && {
            &&& p.runs[0].bold == exists|i: int| 0 <= i < inl.len() && #[trigger] span_flag(inl[i], 0)
            &&& p.runs[0].italic == exists|i: int| 0 <= i < inl.len() && #[trigger] span_flag(inl[i], 1)
            &&& p.runs[0].underline == exists|i: int| 0 <= i < inl.len() && #[trigger] span_flag(inl[i], 2)
        },
{
    lemma_para_run_flags(empty_run(), inl, 0);
    lemma_para_run_flags(empty_run(), inl, 1);
    lemma_para_run_flags(empty_run(), inl, 2);
}

pub open spec fn body_plan(s: Seq<Elem>) -> Seq<BlockV>
    decreases s.len(),
{
    if s.len() == 0 {
        Seq::empty()
    } else {
        body_plan(s.drop_last()) + block_plan(s.last())
    }
}

/// A section: its heading in bold, unless empty; its body; its subsections.
pub open spec fn section_plan(s: Sec) -> Seq<BlockV>
    decreases s,
{
    (if s.heading.len() > 0 {
        one_run_block(RunV { texts: seq![s.heading], bold: true, ..empty_run() })
    } else {
        Seq::empty()
    }) + body_plan(s.body) + sections_plan(s.subsections)
}

pub open spec fn sections_plan(s: Seq<Sec>) -> Seq<BlockV>
    decreases s,
{
    if s.len() == 0 {
        Seq::empty()
    } else {
        sections_plan(s.subrange(0, s.len() - 1)) + section_plan(s[s.len() - 1])
    }
}

/// A document: its title in bold at size 48 (half-points) when it has one, then its sections.
pub open spec fn document_plan(title: Option<Seq<char>>, sections: Seq<Sec>) -> Seq<BlockV> {
    (match title {
        Some(t) => one_run_block(RunV { texts: seq![t], bold: true, size: Some(48usize), ..empty_run() }),
        None => Seq::empty(),
    }) + sections_plan(sections)
}

/// Adds a text span to a run.
pub fn add_run_from_span(run: &mut DocxRun, text: &String, style: &InlineStyle)
    ensures
        final(run)@ == span_run(old(run)@, text@, style@),
{
    run_push_text(run, text.clone());
    if style.bold {
        run.bold = true;
    }
    if style.italic {
        run.italic = true;
    }
    if style.underline {
        run.underline = true;
    }
}

fn add_spans(run: &mut DocxRun, s: &[BodyElement])
    ensures
        final(run)@ == spans_run(old(run)@, elems_view(s@)),
{
    let ghost r0 = run@;
    let mut i: usize = 0;
    while i < s.len()
        invariant
            0 <= i <= s@.len(),
            run@ == spans_run(r0, elems_view(s@.take(i as int))),
        decreases s@.len() - i,
    {
        proof {
            lemma_elems_view_take_step(s@, i as int);
        }
        match &s[i] {
            BodyElement::TextSpan { text, style } => add_run_from_span(run, text, style),
            _ => {},
        }
        i = i + 1;
    }
    assert(s@.take(s@.len() as int) =~= s@);
}

fn image_text(src: &String, caption: &Option<String>) -> (r: String)
    ensures
        r@ == image_label(src@, opt_str(*caption)),
{
    let mut t = String::new();
    t.append("[Image: ");
    t.append(src.as_str());
    t.append("] ");
    match caption {
        Some(c) => t.append(c.as_str()),
        None => {},
    }
    t
}

fn add_para_inlines(run: &mut DocxRun, s: &[BodyElement])
    ensures
        final(run)@ == para_run(old(run)@, elems_view(s@)),
{
    let ghost r0 = run@;
    let mut i: usize = 0;
    while i < s.len()
        invariant
            0 <= i <= s@.len(),
            run@ == para_run(r0, elems_view(s@.take(i as int))),
        decreases s@.len() - i,
    {
        proof {
            lemma_elems_view_take_step(s@, i as int);
        }
        match &s[i] {
            BodyElement::TextSpan { text, style } => add_run_from_span(run, text, style),
            BodyElement::Image { src, caption, .. } => {
                let t = image_text(src, caption);
                run_push_text(run, t);
            },
            _ => {},
        }
        i = i + 1;
    }
    assert(s@.take(s@.len() as int) =~= s@);
}

fn add_item(run: &mut DocxRun, item: &[BodyElement])
    ensures
        final(run)@ == item_run(old(run)@, elems_view(item@)),
{
    let ghost r0 = run@;
    let mut i: usize = 0;
    while i < item.len()
        invariant
            0 <= i <= item@.len(),
            run@ == item_run(r0, elems_view(item@.take(i as int))),
        decreases item@.len() - i,
    {
        proof {
            lemma_elems_view_take_step(item@, i as int);
        }
        match &item[i] {
            BodyElement::Paragraph(inl) => add_spans(run, inl.as_slice()),
            _ => {},
        }
        i = i + 1;
    }
    assert(item@.take(item@.len() as int) =~= item@);
}


fn push_blocks_list(plan: &mut Vec<DocxBlock>, ordered: bool, items: &Vec<Vec<BodyElement>>)
    ensures
        blocks_view(final(plan)@) == blocks_view(old(plan)@) + list_plan(ordered, rows_view(items@)),
{
    let ghost start = blocks_view(plan@);
    proof {
        lemma_rows_view_len(items@);
    }
    let mut i: usize = 0;
    while i < items.len()
        invariant
            0 <= i <= items@.len(),
            rows_view(items@).len() == items@.len(),
            blocks_view(plan@) == start + list_plan(ordered, rows_view(items@).take(i as int)),
        decreases items@.len() - i,
    {
        proof {
            lemma_rows_view_index(items@, i as int);
        }
        let mut run = new_run();
        add_item(&mut run, items[i].as_slice());
        let mut para = single_run_paragraph(run);
        para.numbering = Some(if ordered { 1 } else { 2 });
        push_paragraph(plan, para);
        proof {
            assert(list_plan(ordered, rows_view(items@).take(i + 1)) =~= list_plan(
                ordered,
                rows_view(items@).take(i as int),
            ).push(item_block(ordered, rows_view(items@)[i as int])));
        }
        i = i + 1;
    }
    assert(rows_view(items@).take(items@.len() as int) =~= rows_view(items@));
}

fn header_row(hs: &Vec<String>) -> (r: Vec<DocxParagraph>)
    ensures
        paras_view(r@) == strs_view(hs@).map_values(|h: Seq<char>| header_para(h)),
{
    let mut cells: Vec<DocxParagraph> = Vec::new();
    let mut j: usize = 0;
    while j < hs.len()
        invariant
            0 <= j <= hs@.len(),
            paras_view(cells@) == strs_view(hs@).take(j as int).map_values(|h: Seq<char>| header_para(h)),
        decreases hs@.len() - j,
    {
        let mut run = new_text_run(hs[j].clone());
        run.bold = true;
        let p = single_run_paragraph(run);
        let ghost old_cells = cells@;
        cells.push(p);
        proof {
            assert(run@ == (RunV { texts: seq![hs@[j as int]@], bold: true, ..empty_run() }));
            assert(paras_view(cells@) =~= paras_view(old_cells).push(p@));
            assert(strs_view(hs@).take(j + 1).map_values(|h: Seq<char>| header_para(h)) =~= strs_view(hs@).take(
                j as int,
            ).map_values(|h: Seq<char>| header_para(h)).push(header_para(hs@[j as int]@)));
        }
        j = j + 1;
    }
    assert(strs_view(hs@).take(hs@.len() as int) =~= strs_view(hs@));
    cells
}

fn body_row(row: &Vec<BodyElement>) -> (r: Vec<DocxParagraph>)
    ensures
        paras_view(r@) == row_paras(elems_view(row@)),
{
    proof {
        lemma_elems_view_len(row@);
    }
    let mut cells: Vec<DocxParagraph> = Vec::new();
    let mut j: usize = 0;
    while j < row.len()
        invariant
            0 <= j <= row@.len(),
            elems_view(row@).len() == row@.len(),
            paras_view(cells@) == row_paras(elems_view(row@).take(j as int)),
        decreases row@.len() - j,
    {
        proof {
            lemma_elems_view_index(row@, j as int);
        }
        let p = match &row[j] {
            BodyElement::Paragraph(inl) => {
                let mut run = new_run();
                add_spans(&mut run, inl.as_slice());
                single_run_paragraph(run)
            },
            _ => {
                let mut sp = String::new();
                sp.push(' ');
                proof {
                    reveal_strlit(" ");
                    assert(sp@ =~= " "@);
                }
                single_run_paragraph(new_text_run(sp))
            },
        };
        let ghost old_cells = cells@;
        cells.push(p);
        proof {
            assert(paras_view(cells@) =~= paras_view(old_cells).push(p@));
            assert(row_paras(elems_view(row@).take(j + 1)) =~= row_paras(elems_view(row@).take(j as int)).push(
                cell_para(elems_view(row@)[j as int]),
            ));
        }
        j = j + 1;
    }
    assert(elems_view(row@).take(row@.len() as int) =~= elems_view(row@));
    cells
}

fn table_block(headers: &Option<Vec<String>>, rows: &Vec<Vec<BodyElement>>) -> (r: DocxBlock)
    ensures
        r@ == BlockV::Table(table_plan(crate::schema::opt_strs(*headers), rows_view(rows@))),
{
    let mut table: Vec<Vec<DocxParagraph>> = Vec::new();
    match headers {
        Some(hs) => {
            let h = header_row(hs);
            table.push(h);
            assert(table@.map_values(|r: Vec<DocxParagraph>| paras_view(r@)) =~= seq![
                strs_view(hs@).map_values(|h: Seq<char>| header_para(h)),
            ]);
        },
        None => {
            assert(table@.map_values(|r: Vec<DocxParagraph>| paras_view(r@)) =~= Seq::<Seq<ParaV>>::empty());
        },
    }
    let ghost head = table@.map_values(|r: Vec<DocxParagraph>| paras_view(r@));
    proof {
        lemma_rows_view_len(rows@);
    }
    let mut i: usize = 0;
    while i < rows.len()
        invariant
            0 <= i <= rows@.len(),
            rows_view(rows@).len() == rows@.len(),
            table@.map_values(|r: Vec<DocxParagraph>| paras_view(r@)) == head + table_rows_plan(
                rows_view(rows@).take(i as int),
            ),
        decreases rows@.len() - i,
    {
        proof {
            lemma_rows_view_index(rows@, i as int);
        }
        let row = body_row(&rows[i]);
        let ghost old_table = table@;
        table.push(row);
        proof {
            assert(table@.map_values(|r: Vec<DocxParagraph>| paras_view(r@)) =~= old_table.map_values(
                |r: Vec<DocxParagraph>| paras_view(r@),
            ).push(paras_view(row@)));
            assert(table_rows_plan(rows_view(rows@).take(i + 1)) =~= table_rows_plan(
                rows_view(rows@).take(i as int),
            ).push(row_paras(rows_view(rows@)[i as int])));
        }
        i = i + 1;
    }
    assert(rows_view(rows@).take(rows@.len() as int) =~= rows_view(rows@));
    let ghost expect = table_plan(
        crate::schema::opt_strs(*headers),
        rows_view(rows@),
    );
    assert(table@.map_values(|r: Vec<DocxParagraph>| paras_view(r@)) =~= expect);
    DocxBlock::Table(table)
}

fn push_one_run(plan: &mut Vec<DocxBlock>, run: DocxRun)
    ensures
        blocks_view(final(plan)@) == blocks_view(old(plan)@) + one_run_block(run@),
{
    let p = single_run_paragraph(run);
    push_paragraph(plan, p);
    assert(blocks_view(plan@) =~= blocks_view(old(plan)@) + one_run_block(run@));
}

fn add_block(plan: &mut Vec<DocxBlock>, elem: &BodyElement)
    ensures
        blocks_view(final(plan)@) == blocks_view(old(plan)@) + block_plan(elem@),
{
    match elem {
        BodyElement::Paragraph(inlines) => {
            let mut run = new_run();
            add_para_inlines(&mut run, inlines.as_slice());
            push_one_run(plan, run);
        },
        BodyElement::List { ordered, items } => {
            push_blocks_list(plan, *ordered, items);
        },
        BodyElement::Table { headers, rows } => {
            let b = table_block(headers, rows);
            let ghost old_plan = plan@;
            plan.push(b);
            assert(blocks_view(plan@) =~= blocks_view(old_plan) + seq![b@]);
        },
        BodyElement::BlockQuote(children) => {
            let mut run = new_run();
            add_spans(&mut run, children.as_slice());
            let mut p = single_run_paragraph(run);
            p.indent_left = Some(720);
            push_paragraph(plan, p);
            assert(blocks_view(plan@) =~= blocks_view(old(plan)@) + block_plan(elem@));
        },
        BodyElement::CodeBlock { code, .. } => {
            push_one_run(plan, new_text_run(code.clone()));
        },
        BodyElement::PageBreak => {
            let mut p = crate::docx_plan::new_paragraph(Vec::new());
            p.page_break_before = true;
            push_paragraph(plan, p);
            assert(p@.runs =~= Seq::<RunV>::empty());
            assert(blocks_view(plan@) =~= blocks_view(old(plan)@) + block_plan(elem@));
        },
        BodyElement::FootnoteRef(name) => {
            let mut t = String::new();
            t.append("[^");
            t.append(name.as_str());
            t.append("]");
            push_one_run(plan, new_text_run(t));
        },
        BodyElement::Callout { kind, content } => {
            let upper = to_uppercase(kind.as_str());
            let mut t = String::new();
            t.append("[");
            t.append(upper.as_str());
            t.append("] ");
            let mut run = new_text_run(t);
            add_spans(&mut run, content.as_slice());
            push_one_run(plan, run);
        },
        BodyElement::TableOfContents => {
            let t = String::from_str("[Table of Contents]");
            push_one_run(plan, new_text_run(t));
        },
        BodyElement::TextSpan { text, style } => {
            let mut run = new_run();
            add_run_from_span(&mut run, text, style);
            push_one_run(plan, run);
        },
        BodyElement::Image { src, caption, .. } => {
            let t = image_text(src, caption);
            push_one_run(plan, new_text_run(t));
        },
    }
}

/// Adds the blocks of a body to the plan.
pub fn add_body_to_doc(plan: &mut Vec<DocxBlock>, body: &[BodyElement])
    ensures
        blocks_view(final(plan)@) == blocks_view(old(plan)@) + body_plan(elems_view(body@)),
{
    let ghost start = blocks_view(plan@);
    let mut i: usize = 0;
    while i < body.len()
        invariant
            0 <= i <= body@.len(),
            blocks_view(plan@) == start + body_plan(elems_view(body@.take(i as int))),
        decreases body@.len() - i,
    {
        proof {
            lemma_elems_view_take_step(body@, i as int);
        }
        add_block(plan, &body[i]);
        proof {
            let x = elems_view(body@.take(i + 1));
            assert(body_plan(x) == body_plan(x.drop_last()) + block_plan(x.last()));
            assert(blocks_view(plan@) =~= start + body_plan(x));
        }
        i = i + 1;
    }
    assert(body@.take(body@.len() as int) =~= body@);
}

/// Adds a section and its subsections to the plan.
pub fn add_section(plan: &mut Vec<DocxBlock>, section: &Section)
    ensures
        blocks_view(final(plan)@) == blocks_view(old(plan)@) + section_plan(section_view(*section)),
    decreases section_view(*section),
{
    let ghost start = blocks_view(plan@);
    if !section.heading.as_str().is_empty() {
        let mut run = new_text_run(section.heading.clone());
        run.bold = true;
        push_one_run(plan, run);
    }
    let ghost after_heading = blocks_view(plan@);
    add_body_to_doc(plan, section.body.as_slice());
    let ghost before = blocks_view(plan@);
    let ghost subs = sections_view(section.subsections@);
    proof {
        lemma_sections_view_len(section.subsections@);
    }
    let mut i: usize = 0;
    while i < section.subsections.len()
        invariant
            0 <= i <= section.subsections@.len(),
            subs == sections_view(section.subsections@),
            subs.len() == section.subsections@.len(),
            section_view(*section).subsections == subs,
            blocks_view(plan@) == before + sections_plan(subs.take(i as int)),
        decreases section.subsections@.len() - i,
    {
        proof {
            lemma_sections_view_index(section.subsections@, i as int);
            assert(subs.take(i + 1).subrange(0, i as int) =~= subs.take(i as int));
        }
        add_section(plan, &section.subsections[i]);
        proof {
            assert(blocks_view(plan@) =~= before + sections_plan(subs.take(i + 1)));
        }
        i = i + 1;
    }
    assert(subs.take(section.subsections@.len() as int) =~= subs);
    assert(blocks_view(plan@) =~= start + section_plan(section_view(*section)));
}

/// The DOCX blocks of a document: its title, then its sections.
pub fn docx_plan(document: &Document) -> (plan: Vec<DocxBlock>)
    ensures
        blocks_view(plan@) == document_plan(opt_str(document.metadata.title), sections_view(document.sections@)),
{
    let mut plan: Vec<DocxBlock> = Vec::new();
    match &document.metadata.title {
        Some(title) => {
            let mut run = new_text_run(title.clone());
            run.bold = true;
            run.size = Some(48);
            push_one_run(&mut plan, run);
        },
        None => {},
    }
    let ghost before = blocks_view(plan@);
    let ghost secs = sections_view(document.sections@);
    proof {
        lemma_sections_view_len(document.sections@);
    }
    let mut i: usize = 0;
    while i < document.sections.len()
        invariant
            0 <= i <= document.sections@.len(),
            secs == sections_view(document.sections@),
            secs.len() == document.sections@.len(),
            blocks_view(plan@) == before + sections_plan(secs.take(i as int)),
        decreases document.sections@.len() - i,
    {
        proof {
            lemma_sections_view_index(document.sections@, i as int);
            assert(secs.take(i + 1).subrange(0, i as int) =~= secs.take(i as int));
        }
        add_section(&mut plan, &document.sections[i]);
        proof {
            assert(blocks_view(plan@) =~= before + sections_plan(secs.take(i + 1)));
        }
        i = i + 1;
    }
    assert(secs.take(document.sections@.len() as int) =~= secs);
    assert(blocks_view(plan@) =~= document_plan(opt_str(document.metadata.title), secs));
    plan
}


/// Renders a document as the bytes of a DOCX package: the blocks of [`docx_plan`],
/// handed to docx-rs and packed.
pub fn document_to_docx_bytes(document: &Document) -> (r: Result<Vec<u8>, DocError>)
    ensures
        packs_plan(r, document_plan(opt_str(document.metadata.title), sections_view(document.sections@))),
        r matches Ok(b) ==> starts_as_zip(b@),
        r matches Err(e) ==> e is Docx,
{
    let plan = docx_plan(document);
    pack_docx(&plan)
}

} // verus!
