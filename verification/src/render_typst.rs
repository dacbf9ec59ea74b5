//! Rendering the document model as Typst markup.

use vstd::prelude::*;
use crate::schema::{
    elem_view, elems_view, lemma_elems_view_index, lemma_elems_view_len, lemma_elems_view_push,
    lemma_rows_view_index, lemma_sections_view_index, lemma_sections_view_len, opt_str, rows_view, section_view, sections_view, strs_view, BodyElement, Document, Elem, Sec, Section, StyleView,
};

verus! {

/// A character as Typst markup: `#`, `[` and `]` get a backslash before them.
pub open spec fn esc_char(c: char) -> Seq<char> {
    if c == '#' || c == '[' || c == ']' {
        seq!['\\', c]
    } else {
        seq![c]
    }
}

/// A text with `#`, `[` and `]` escaped.
pub open spec fn escape(s: Seq<char>) -> Seq<char>
    decreases s.len(),
{
    if s.len() == 0 {
        Seq::empty()
    } else {
        escape(s.drop_last()) + esc_char(s.last())
    }
}

/// Whether a character is one that Typst markup escapes.
pub open spec fn is_markup_char(c: char) -> bool {
    c == '#' || c == '[' || c == ']'
}

/// Escaping leaves a text without `#`, `[` and `]` as it is.
pub proof fn lemma_escape_plain_text(s: Seq<char>)
    requires
        forall|i: int| 0 <= i < s.len() ==> !is_markup_char(#[trigger] s[i]),
    ensures
        escape(s) == s,
    decreases s.len(),
{
    if s.len() > 0 {
        let d = s.drop_last();
        assert forall|i: int| 0 <= i < d.len() implies !is_markup_char(#[trigger] d[i]) by {
            assert(d[i] == s[i]);
        }
        lemma_escape_plain_text(d);
        assert(esc_char(s.last()) =~= seq![s.last()]);
        assert(d.push(s.last()) =~= s);
    }
}

/// Escaping adds one backslash for each `#`, `[` and `]`, and nothing else: the
/// escaped text is longer by the number of those characters.
pub proof fn lemma_escape_length(s: Seq<char>)
    ensures
        escape(s).len() == s.len() + s.filter(|c: char| is_markup_char(c)).len(),
    decreases s.len(),
{
    reveal_with_fuel(Seq::<char>::filter, 1);
    if s.len() > 0 {
        lemma_escape_length(s.drop_last());
    }
}

/// The parts joined, with `sep` between each two.
pub open spec fn join(parts: Seq<Seq<char>>, sep: Seq<char>) -> Seq<char>
    decreases parts.len(),
{
    if parts.len() == 0 {
        Seq::empty()
    } else if parts.len() == 1 {
        parts[0]
    } else {
        join(parts.drop_last(), sep) + sep + parts.last()
    }
}

/// An inline element as markup: escaped text, wrapped in backticks when code, in `**`
/// when bold, in `*` when italic (in that order), and made a link when it has one.
/// Other elements give nothing.
pub open spec fn inline_markup(e: Elem) -> Seq<char> {
    match e {
        Elem::TextSpan { text, style } => {
            let t0 = escape(text);
            let t1 = if style.code { "`"@ + t0 + "`"@ } else { t0 };
            let t2 = if style.bold { "**"@ + t1 + "**"@ } else { t1 };
            let t3 = if style.italic { "*"@ + t2 + "*"@ } else { t2 };
            match style.href {
                Some(h) => "["@ + t3 + "]("@ + h + ")"@,
                None => t3,
            }
        },
        _ => Seq::empty(),
    }
}

/// Inline elements as markup, one after the other.
pub open spec fn para_markup(s: Seq<Elem>) -> Seq<char>
    decreases s.len(),
{
    if s.len() == 0 {
        Seq::empty()
    } else {
        para_markup(s.drop_last()) + inline_markup(s.last())
    }
}

/// The text that an element of a list item contributes: a paragraph's markup.
pub open spec fn list_part(e: Elem) -> Seq<char> {
    match e {
        Elem::Paragraph(inl) => para_markup(inl),
        _ => Seq::empty(),
    }
}

pub open spec fn list_parts(item: Seq<Elem>) -> Seq<Seq<char>> {
    item.map_values(|e: Elem| list_part(e))
}

/// One line per item: `1.` (ordered) or `-`, a space, the item's paragraphs joined by spaces.
pub open spec fn list_lines(ordered: bool, items: Seq<Seq<Elem>>) -> Seq<char>
    decreases items.len(),
{
    if items.len() == 0 {
        Seq::empty()
    } else {
        list_lines(ordered, items.drop_last()) + (if ordered { "1."@ } else { "-"@ }) + " "@ + join(
            list_parts(items.last()),
            " "@,
        ) + "\n"@
    }
}

/// The bullet that starts each line of a list's markup: `1. ` when the list is ordered,
/// `- ` when it is not.
pub open spec fn list_bullet(ordered: bool) -> Seq<char> {
    if ordered {
        "1. "@
    } else {
        "- "@
    }
}

proof fn lemma_list_lines_prefix(ordered: bool, items: Seq<Seq<Elem>>, k: int)
    requires
        0 <= k <= items.len(),
    ensures
        list_lines(ordered, items.take(k)).len() <= list_lines(ordered, items).len(),
        list_lines(ordered, items).subrange(0, list_lines(ordered, items.take(k)).len() as int) == list_lines(
            ordered,
            items.take(k),
        ),
    decreases items.len(),
{
    if k == items.len() {
        assert(items.take(k) =~= items);
    } else {
        let p = items.drop_last();
        assert(p.take(k) =~= items.take(k));
        lemma_list_lines_prefix(ordered, p, k);
        let a = list_lines(ordered, p);
        let b = list_lines(ordered, p.take(k));
        assert(list_lines(ordered, items).subrange(0, a.len() as int) =~= a);
        assert(list_lines(ordered, items).subrange(0, b.len() as int) =~= a.subrange(0, b.len() as int));
    }
}

/// Every item of a list starts a line of the list's markup with the list's bullet:
/// `1. ` for an ordered list, `- ` for an unordered one. The line of item `k` begins
/// where the markup of the items before it ends.
pub proof fn lemma_list_items_start_with_bullet(ordered: bool, items: Seq<Seq<Elem>>, k: int)
    requires
        0 <= k < items.len(),
    ensures
        ({
            let m = list_lines(ordered, items);
            let start = list_lines(ordered, items.take(k)).len() as int;
            &&& start + list_bullet(ordered).len() <= m.len()
            &&& m.subrange(start, start + list_bullet(ordered).len()) == list_bullet(ordered)
        }),
{
    reveal_strlit("1.");
    reveal_strlit("-");
    reveal_strlit(" ");
    reveal_strlit("1. ");
    reveal_strlit("- ");
    lemma_list_lines_prefix(ordered, items, k + 1);
    let q = items.take(k + 1);
    assert(q.drop_last() =~= items.take(k));
    let m = list_lines(ordered, items);
    let line = list_lines(ordered, q);
    let start = list_lines(ordered, items.take(k)).len() as int;
    let bullet = list_bullet(ordered);
    assert(line.subrange(start, start + bullet.len()) =~= bullet);
    assert(m.subrange(start, start + bullet.len()) =~= m.subrange(0, line.len() as int).subrange(
        start,
        start + bullet.len(),
    ));
}

pub open spec fn header_cells(hs: Seq<Seq<char>>) -> Seq<Seq<char>> {
    hs.map_values(|h: Seq<char>| "["@ + escape(h) + "]"@)
}

/// A table cell: a paragraph's markup, escaped, in brackets; `[]` for anything else.
pub open spec fn body_cell(e: Elem) -> Seq<char> {
    match e {
        Elem::Paragraph(inl) => "["@ + escape(para_markup(inl)) + "]"@,
        _ => "[]"@,
    }
}

pub open spec fn body_cells(row: Seq<Elem>) -> Seq<Seq<char>> {
    row.map_values(|e: Elem| body_cell(e))
}

pub open spec fn row_line(cells: Seq<Seq<char>>) -> Seq<char> {
    "  ["@ + join(cells, ", "@) + "],\n"@
}

pub open spec fn table_rows(rows: Seq<Seq<Elem>>) -> Seq<char>
    decreases rows.len(),
{
    if rows.len() == 0 {
        Seq::empty()
    } else {
        table_rows(rows.drop_last()) + row_line(body_cells(rows.last()))
    }
}

/// A body element as Typst markup.
pub open spec fn block_markup(e: Elem) -> Seq<char> {
    match e {
        Elem::Paragraph(inl) => para_markup(inl) + "\n\n"@,
        Elem::List { ordered, items } => list_lines(ordered, items) + "\n"@,
        Elem::Image { src, caption, .. } => match caption {
            Some(c) => "figure(image(\""@ + src + "\"), caption: ["@ + escape(c) + "])\n\n"@,
            None => "image(\""@ + src + "\")\n\n"@,
        },
        Elem::Table { headers, rows } => "#table(\n"@ + (match headers {
            Some(hs) => row_line(header_cells(hs)),
            None => Seq::empty(),
        }) + table_rows(rows) + ")\n\n"@,
        Elem::BlockQuote(children) => "quote(["@ + escape(para_markup(children)) + "])\n\n"@,
        Elem::CodeBlock { lang, code } => "```"@ + (match lang {
            Some(l) => l,
            None => "text"@,
        }) + "\n"@ + code + "\n```\n\n"@,
        Elem::PageBreak => "#pagebreak()\n"@,
        Elem::FootnoteRef(name) => "[^"@ + name + "]\n\n"@,
        Elem::Callout { kind, content } => "note["@ + kind + ": "@ + escape(para_markup(content)) + "]\n\n"@,
        Elem::TableOfContents => "#outline()\n\n"@,
        Elem::TextSpan { .. } => inline_markup(e) + "\n\n"@,
    }
}

pub open spec fn body_markup(s: Seq<Elem>) -> Seq<char>
    decreases s.len(),
{
    if s.len() == 0 {
        Seq::empty()
    } else {
        body_markup(s.drop_last()) + block_markup(s.last())
    }
}

/// A section as markup: unless its heading is empty, a heading line of `level` hashes,
/// a space and the heading (not escaped); then its body; then its subsections.
pub open spec fn section_markup(s: Sec) -> Seq<char>
    decreases s,
{
    (if s.heading.len() > 0 {
        Seq::new(s.level as nat, |i: int| '#') + " "@ + s.heading + "\n\n"@
    } else {
        Seq::empty()
    }) + body_markup(s.body) + sections_markup(s.subsections)
}

pub open spec fn sections_markup(s: Seq<Sec>) -> Seq<char>
    decreases s,
{
    if s.len() == 0 {
        Seq::empty()
    } else {
        sections_markup(s.subrange(0, s.len() - 1)) + section_markup(s[s.len() - 1])
    }
}

/// A whole Typst document: page and paragraph settings, the title and author when
/// given, the sections, and a final line break.
pub open spec fn typst_document(title: Option<Seq<char>>, author: Option<Seq<char>>, sections: Seq<Sec>) -> Seq<char> {
    "#set page(margin: 1in)\n#set par(justify: true)\n"@ + (match title {
        Some(t) => "#set document(title: \""@ + t + "\")\n"@,
        None => Seq::empty(),
    }) + (match author {
        Some(a) => "#set document(author: \""@ + a + "\")\n"@,
        None => Seq::empty(),
    }) + sections_markup(sections) + "\n"@
}

/// A plain text span (no code, no link) is marked up as its escaped text, in `**` when
/// bold and then in `*` when italic; whatever its style, its escaped text stands in the
/// middle of the markup.
pub proof fn lemma_inline_emphasis_markup(text: Seq<char>, style: StyleView)
    requires
        !style.code,
        style.href is None,
    ensures
        ({
            let m = inline_markup(Elem::TextSpan { text, style });
            let e = escape(text);
            &&& !style.bold && !style.italic ==> m == e
            &&& style.bold && !style.italic ==> m == "**"@ + e + "**"@
            &&& !style.bold && style.italic ==> m == "*"@ + e + "*"@
            &&& style.bold && style.italic ==> m == "***"@ + e + "***"@
        }),
{
    reveal_strlit("*");
    reveal_strlit("**");
    reveal_strlit("***");
    let e = escape(text);
    if style.bold && style.italic {
        assert("*"@ + ("**"@ + e + "**"@) + "*"@ =~= "***"@ + e + "***"@);
    }
}

/// A section with a heading starts with one `#` per level, a space and the heading.
pub proof fn lemma_heading_line(s: Sec)
    requires
        s.heading.len() > 0,
    ensures
        ({
            let m = section_markup(s);
            let l = s.level as int;
            &&& l + 1 + s.heading.len() <= m.len()
            &&& forall|i: int| 0 <= i < l ==> m[i] == '#'
            &&& m[l] == ' '
            &&& m.subrange(l + 1, l + 1 + s.heading.len()) == s.heading
        }),
{
    reveal_strlit(" ");
    reveal_strlit("\n\n");
    let l = s.level as int;
    let line = Seq::new(s.level as nat, |i: int| '#') + " "@ + s.heading + "\n\n"@;
    let m = section_markup(s);
    assert(m == line + body_markup(s.body) + sections_markup(s.subsections));
    assert forall|i: int| 0 <= i < l implies m[i] == '#' by {
        assert(m[i] == line[i]);
    }
    assert(m[l] == line[l]);
    assert(m.subrange(l + 1, l + 1 + s.heading.len()) =~= s.heading);
}

fn concat3(a: &str, b: &str, c: &str) -> (r: String)
    ensures
        r@ == a@ + b@ + c@,
{
    let mut r = String::new();
    r.append(a);
    r.append(b);
    r.append(c);
    r
}

/// Escapes `#`, `[` and `]` with a backslash.
pub fn esc(s: &str) -> (r: String)
    ensures
        r@ == escape(s@),
{
    let mut out = String::new();
    for c in it: s.chars()
        invariant
            it.seq() == s@,
            out@ == escape(it.seq().take(it.index() as int)),
    {
        let ghost prefix = it.seq().take(it.index() as int);
        if c == '#' || c == '[' || c == ']' {
            out.push('\\');
        }
        out.push(c);
        proof {
            let next = it.seq().take(it.index() + 1);
            assert(next.drop_last() =~= prefix);
            assert(out@ =~= escape(next));
        }
    }
    assert(s@.take(s@.len() as int) =~= s@);
    out
}

/// An inline element as Typst markup.
pub fn render_inline(el: &BodyElement) -> (r: String)
    ensures
        r@ == inline_markup(el@),
{
    match el {
        BodyElement::TextSpan { text, style } => {
            let mut t = esc(text.as_str());
            if style.code {
                t = concat3("`", t.as_str(), "`");
            }
            if style.bold {
                t = concat3("**", t.as_str(), "**");
            }
            if style.italic {
                t = concat3("*", t.as_str(), "*");
            }
            match &style.href {
                Some(href) => {
                    let mut r = concat3("[", t.as_str(), "](");
                    r.append(href.as_str());
                    r.append(")");
                    r
                },
                None => t,
            }
        },
        _ => String::new(),
    }
}

/// Inline elements as Typst markup, one after the other.
pub fn render_para(inlines: &[BodyElement]) -> (r: String)
    ensures
        r@ == para_markup(elems_view(inlines@)),
{
    let mut out = String::new();
    let mut i: usize = 0;
    while i < inlines.len()
        invariant
            0 <= i <= inlines@.len(),
            out@ == para_markup(elems_view(inlines@.take(i as int))),
        decreases inlines@.len() - i,
    {
        let part = render_inline(&inlines[i]);
        proof {
            assert(inlines@.take(i + 1) =~= inlines@.take(i as int).push(inlines@[i as int]));
            lemma_elems_view_push(inlines@.take(i as int), inlines@[i as int]);
            let x = elems_view(inlines@.take(i as int));
            assert(x.push(elem_view(inlines@[i as int])).drop_last() =~= x);
        }
        out.append(part.as_str());
        i = i + 1;
    }
    assert(inlines@.take(inlines@.len() as int) =~= inlines@);
    out
}

/// The elements of a list item as one line of text.
fn render_list_item(item: &Vec<BodyElement>) -> (r: String)
    ensures
        r@ == join(list_parts(elems_view(item@)), " "@),
{
    let mut out = String::new();
    let ghost parts = list_parts(elems_view(item@));
    proof {
        lemma_elems_view_len(item@);
    }
    let mut j: usize = 0;
    while j < item.len()
        invariant
            0 <= j <= item@.len(),
            parts == list_parts(elems_view(item@)),
            parts.len() == item@.len(),
            out@ == join(parts.take(j as int), " "@),
        decreases item@.len() - j,
    {
        proof {
            lemma_elems_view_index(item@, j as int);
            assert(parts.take(j + 1).drop_last() =~= parts.take(j as int));
        }
        if j > 0 {
            out.append(" ");
        }
        match &item[j] {
            BodyElement::Paragraph(inl) => {
                let p = render_para(inl.as_slice());
                out.append(p.as_str());
            },
            _ => {},
        }
        proof {
            assert(parts.take(j + 1).last() == parts[j as int]);
            if j == 0 {
                assert(out@ =~= join(parts.take(j + 1), " "@));
            }
        }
        j = j + 1;
    }
    assert(parts.take(item@.len() as int) =~= parts);
    out
}

fn render_list(ordered: bool, items: &Vec<Vec<BodyElement>>) -> (r: String)
    ensures
        r@ == list_lines(ordered, rows_view(items@)),
{
    let mut out = String::new();
    let mut i: usize = 0;
    while i < items.len()
        invariant
            0 <= i <= items@.len(),
            out@ == list_lines(ordered, rows_view(items@).take(i as int)),
        decreases items@.len() - i,
    {
        proof {
            lemma_rows_view_index(items@, i as int);
            assert(rows_view(items@).take(i + 1).drop_last() =~= rows_view(items@).take(i as int));
        }
        if ordered {
            out.append("1.");
        } else {
            out.append("-");
        }
        out.append(" ");
        let text = render_list_item(&items[i]);
        out.append(text.as_str());
        out.append("\n");
        i = i + 1;
    }
    proof {
        crate::schema::lemma_rows_view_len(items@);
        assert(rows_view(items@).take(items@.len() as int) =~= rows_view(items@));
    }
    out
}

fn render_header_row(hs: &Vec<String>) -> (r: String)
    ensures
        r@ == row_line(header_cells(strs_view(hs@))),
{
    let ghost parts = header_cells(strs_view(hs@));
    let mut out = String::new();
    out.append("  [");
    let mut j: usize = 0;
    while j < hs.len()
        invariant
            0 <= j <= hs@.len(),
            parts == header_cells(strs_view(hs@)),
            parts.len() == hs@.len(),
            out@ == "  ["@ + join(parts.take(j as int), ", "@),
        decreases hs@.len() - j,
    {
        proof {
            assert(parts.take(j + 1).drop_last() =~= parts.take(j as int));
        }
        if j > 0 {
            out.append(", ");
        }
        let e = esc(hs[j].as_str());
        out.append("[");
        out.append(e.as_str());
        out.append("]");
        proof {
            if j == 0 {
                assert(out@ =~= "  ["@ + join(parts.take(j + 1), ", "@));
            } else {
                assert(out@ =~= "  ["@ + join(parts.take(j + 1), ", "@));
            }
        }
        j = j + 1;
    }
    assert(parts.take(hs@.len() as int) =~= parts);
    out.append("],\n");
    out
}

fn render_table_row(row: &Vec<BodyElement>) -> (r: String)
    ensures
        r@ == row_line(body_cells(elems_view(row@))),
{
    proof {
        lemma_elems_view_len(row@);
    }
    let ghost parts = body_cells(elems_view(row@));
    let mut out = String::new();
    out.append("  [");
    let mut j: usize = 0;
    while j < row.len()
        invariant
            0 <= j <= row@.len(),
            parts == body_cells(elems_view(row@)),
            parts.len() == row@.len(),
            out@ == "  ["@ + join(parts.take(j as int), ", "@),
        decreases row@.len() - j,
    {
        proof {
            lemma_elems_view_index(row@, j as int);
            assert(parts.take(j + 1).drop_last() =~= parts.take(j as int));
        }
        if j > 0 {
            out.append(", ");
        }
        match &row[j] {
            BodyElement::Paragraph(inl) => {
                let p = render_para(inl.as_slice());
                let e = esc(p.as_str());
                out.append("[");
                out.append(e.as_str());
                out.append("]");
            },
            _ => {
                out.append("[]");
            },
        }
        proof {
            assert(out@ =~= "  ["@ + join(parts.take(j + 1), ", "@));
        }
        j = j + 1;
    }
    assert(parts.take(row@.len() as int) =~= parts);
    out.append("],\n");
    out
}

fn render_table(headers: &Option<Vec<String>>, rows: &Vec<Vec<BodyElement>>) -> (r: String)
    ensures
        r@ == block_markup(Elem::Table {
            headers: crate::schema::opt_strs(*headers),
            rows: rows_view(rows@),
        }),
{
    let mut out = String::new();
    out.append("#table(\n");
    match headers {
        Some(hs) => {
            let h = render_header_row(hs);
            out.append(h.as_str());
        },
        None => {},
    }
    let ghost before = out@;
    let mut i: usize = 0;
    while i < rows.len()
        invariant
            0 <= i <= rows@.len(),
            out@ == before + table_rows(rows_view(rows@).take(i as int)),
        decreases rows@.len() - i,
    {
        proof {
            lemma_rows_view_index(rows@, i as int);
            assert(rows_view(rows@).take(i + 1).drop_last() =~= rows_view(rows@).take(i as int));
        }
        let line = render_table_row(&rows[i]);
        out.append(line.as_str());
        i = i + 1;
    }
    proof {
        crate::schema::lemma_rows_view_len(rows@);
        assert(rows_view(rows@).take(rows@.len() as int) =~= rows_view(rows@));
    }
    out.append(")\n\n");
    out
}

fn render_block(el: &BodyElement) -> (r: String)
    ensures
        r@ == block_markup(el@),
{
    let mut out = String::new();
    match el {
        BodyElement::Paragraph(inlines) => {
            let p = render_para(inlines.as_slice());
            out.append(p.as_str());
            out.append("\n\n");
        },
        BodyElement::List { ordered, items } => {
            let l = render_list(*ordered, items);
            out.append(l.as_str());
            out.append("\n");
        },
        BodyElement::Image { src, caption, .. } => {
            match caption {
                Some(c) => {
                    out.append("figure(image(\"");
                    out.append(src.as_str());
                    out.append("\"), caption: [");
                    let e = esc(c.as_str());
                    out.append(e.as_str());
                    out.append("])\n\n");
                },
                None => {
                    out.append("image(\"");
                    out.append(src.as_str());
                    out.append("\")\n\n");
                },
            }
        },
        BodyElement::Table { headers, rows } => {
            out = render_table(headers, rows);
        },
        BodyElement::BlockQuote(children) => {
            let content = render_para(children.as_slice());
            let e = esc(content.as_str());
            out.append("quote([");
            out.append(e.as_str());
            out.append("])\n\n");
        },
        BodyElement::CodeBlock { lang, code } => {
            out.append("```");
            match lang {
                Some(l) => out.append(l.as_str()),
                None => out.append("text"),
            }
            out.append("\n");
            out.append(code.as_str());
            out.append("\n```\n\n");
        },
        BodyElement::PageBreak => {
            out.append("#pagebreak()\n");
        },
        BodyElement::FootnoteRef(name) => {
            out.append("[^");
            out.append(name.as_str());
            out.append("]\n\n");
        },
        BodyElement::Callout { kind, content } => {
            let txt = render_para(content.as_slice());
            let e = esc(txt.as_str());
            out.append("note[");
            out.append(kind.as_str());
            out.append(": ");
            out.append(e.as_str());
            out.append("]\n\n");
        },
        BodyElement::TableOfContents => {
            out.append("#outline()\n\n");
        },
        BodyElement::TextSpan { .. } => {
            let t = render_inline(el);
            out.append(t.as_str());
            out.append("\n\n");
        },
    }
    out
}

/// Body elements as Typst markup, one after the other.
pub fn render_body(body: &[BodyElement]) -> (r: String)
    ensures
        r@ == body_markup(elems_view(body@)),
{
    let mut out = String::new();
    let mut i: usize = 0;
    while i < body.len()
        invariant
            0 <= i <= body@.len(),
            out@ == body_markup(elems_view(body@.take(i as int))),
        decreases body@.len() - i,
    {
        let part = render_block(&body[i]);
        proof {
            assert(body@.take(i + 1) =~= body@.take(i as int).push(body@[i as int]));
            lemma_elems_view_push(body@.take(i as int), body@[i as int]);
            let x = elems_view(body@.take(i as int));
            assert(x.push(elem_view(body@[i as int])).drop_last() =~= x);
        }
        out.append(part.as_str());
        i = i + 1;
    }
    assert(body@.take(body@.len() as int) =~= body@);
    out
}

fn hashes(n: u8) -> (r: String)
    ensures
        r@ == Seq::new(n as nat, |i: int| '#'),
{
    let mut out = String::new();
    let mut i: u8 = 0;
    while i < n
        invariant
            i <= n,
            out@ == Seq::new(i as nat, |k: int| '#'),
        decreases n - i,
    {
        out.push('#');
        i = i + 1;
        assert(out@ =~= Seq::new(i as nat, |k: int| '#'));
    }
    out
}

/// A section and its subsections as Typst markup.
pub fn render_section(sec: &Section) -> (r: String)
    ensures
        r@ == section_markup(section_view(*sec)),
    decreases section_view(*sec),
{
    let mut out = String::new();
    if !sec.heading.as_str().is_empty() {
        let h = hashes(sec.level);
        out.append(h.as_str());
        out.append(" ");
        out.append(sec.heading.as_str());
        out.append("\n\n");
    }
    let b = render_body(sec.body.as_slice());
    out.append(b.as_str());
    let ghost before = out@;
    let ghost subs = sections_view(sec.subsections@);
    proof {
        lemma_sections_view_len(sec.subsections@);
    }
    let mut i: usize = 0;
    while i < sec.subsections.len()
        invariant
            0 <= i <= sec.subsections@.len(),
            subs == sections_view(sec.subsections@),
            subs.len() == sec.subsections@.len(),
            section_view(*sec).subsections == subs,
            out@ == before + sections_markup(subs.take(i as int)),
        decreases sec.subsections@.len() - i,
    {
        proof {
            lemma_sections_view_index(sec.subsections@, i as int);
            assert(subs.take(i + 1).subrange(0, i as int) =~= subs.take(i as int));
        }
        let s = render_section(&sec.subsections[i]);
        out.append(s.as_str());
        i = i + 1;
    }
    assert(subs.take(sec.subsections@.len() as int) =~= subs);
    out
}

/// A document as Typst source.
pub fn document_to_typst(document: &Document) -> (r: String)
    ensures
        r@ == typst_document(
            opt_str(document.metadata.title),
            opt_str(document.metadata.author),
            sections_view(document.sections@),
        ),
{
    let mut out = String::new();
    out.append("#set page(margin: 1in)\n#set par(justify: true)\n");
    match &document.metadata.title {
        Some(title) => {
            out.append("#set document(title: \"");
            out.append(title.as_str());
            out.append("\")\n");
        },
        None => {},
    }
    match &document.metadata.author {
        Some(author) => {
            out.append("#set document(author: \"");
            out.append(author.as_str());
            out.append("\")\n");
        },
        None => {},
    }
    let ghost before = out@;
    let ghost secs = sections_view(document.sections@);
    proof {
        lemma_sections_view_len(document.sections@);
    }
    let mut i: usize = 0;
    while i < document.sections.len()
        invariant
            0 <= i <= document.sections@.len(),
            secs == sections_view(document.sections@),
            secs.len() == document.sections@.len(),
            out@ == before + sections_markup(secs.take(i as int)),
        decreases document.sections@.len() - i,
    {
        proof {
            lemma_sections_view_index(document.sections@, i as int);
            assert(secs.take(i + 1).subrange(0, i as int) =~= secs.take(i as int));
        }
        let s = render_section(&document.sections[i]);
        out.append(s.as_str());
        i = i + 1;
    }
    assert(secs.take(document.sections@.len() as int) =~= secs);
    out.append("\n");
    out
}

} // verus!
