//! From Markdown to the document model.

use vstd::prelude::*;
use std::collections::HashMap;
use crate::builder::document_from_events;
use crate::error::DocError;
use crate::events::{
    closing, level_number, markdown_events_ext, open_tags, spec_markdown_events_ext, well_nested, MdEvent, MdTag, MdTagEnd,
};
use crate::schema::{
    is_empty_metadata, is_empty_style, opt_str, plain_style, sections_view, Document, Elem, Sec, StyleView,
};
use crate::text::{chars_of, leading_white_space, skip_white_space, string_from_chars, trim_start};

verus! {

/// Where the document builder stands after some events: the open sections (the
/// root at the bottom), the paragraph being collected, the open lists with their
/// items, the inline style in force, a heading being collected, and a code block
/// being collected.
pub struct BuildState {
    pub stack: Seq<Sec>,
    pub para: Seq<Elem>,
    pub lists: Seq<(bool, Seq<Seq<Elem>>)>,
    pub style: StyleView,
    pub pending: Option<u8>,
    pub heading: Seq<char>,
    pub in_code: bool,
    pub code_lang: Option<Seq<char>>,
    pub code: Seq<char>,
}

pub open spec fn empty_sec(level: u8) -> Sec {
    Sec { level, heading: Seq::empty(), body: Seq::empty(), subsections: Seq::empty() }
}

pub open spec fn initial_state() -> BuildState {
    BuildState {
        stack: seq![empty_sec(0)],
        para: Seq::empty(),
        lists: Seq::empty(),
        style: plain_style(),
        pending: None,
        heading: Seq::empty(),
        in_code: false,
        code_lang: None,
        code: Seq::empty(),
    }
}

/// Appends `e` to the body of the innermost open section.
pub open spec fn push_body(stack: Seq<Sec>, e: Elem) -> Seq<Sec> {
    if stack.len() == 0 {
        stack
    } else {
        let top = stack.last();
        stack.drop_last().push(
            Sec { level: top.level, heading: top.heading, body: top.body.push(e), subsections: top.subsections },
        )
    }
}

/// Closes the paragraph being collected, if it holds anything.
pub open spec fn flush(stack: Seq<Sec>, para: Seq<Elem>) -> Seq<Sec> {
    if para.len() == 0 {
        stack
    } else {
        push_body(stack, Elem::Paragraph(para))
    }
}

/// Appends `child` to the subsections of the innermost open section.
pub open spec fn attach(stack: Seq<Sec>, child: Sec) -> Seq<Sec> {
    if stack.len() == 0 {
        stack
    } else {
        let top = stack.last();
        stack.drop_last().push(
            Sec { level: top.level, heading: top.heading, body: top.body, subsections: top.subsections.push(child) },
        )
    }
}

/// Closes every open section at level `lvl` or deeper, each into its parent.
pub open spec fn unwind(stack: Seq<Sec>, lvl: u8) -> Seq<Sec>
    decreases stack.len(),
{
    if stack.len() > 0 && stack.last().level >= lvl {
        unwind(attach(stack.drop_last(), stack.last()), lvl)
    } else {
        stack
    }
}

/// At the end of a heading: the heading becomes a section of its own under the
/// nearest open section of a lower level, and a new open section at the heading's
/// level collects what follows.
pub open spec fn close_heading(st: BuildState) -> BuildState {
    let lvl: u8 = match st.pending {
        Some(l) => l,
        None => 1u8,
    };
    let sec = Sec { level: lvl, heading: st.heading, body: Seq::empty(), subsections: Seq::empty() };
    BuildState { stack: attach(unwind(st.stack, lvl), sec).push(empty_sec(lvl)), pending: None, ..st }
}

pub open spec fn set_italic(s: StyleView, b: bool) -> StyleView {
    StyleView { italic: b, ..s }
}

pub open spec fn set_bold(s: StyleView, b: bool) -> StyleView {
    StyleView { bold: b, ..s }
}

pub open spec fn set_strike(s: StyleView, b: bool) -> StyleView {
    StyleView { strike: b, ..s }
}

pub open spec fn set_href(s: StyleView, h: Option<Seq<char>>) -> StyleView {
    StyleView { href: h, ..s }
}

pub open spec fn set_code(s: StyleView) -> StyleView {
    StyleView { code: true, ..s }
}

pub open spec fn image_alt(title: Seq<char>) -> Option<Seq<char>> {
    if title.len() == 0 {
        None
    } else {
        Some(title)
    }
}

pub open spec fn step_start(st: BuildState, tag: MdTag) -> BuildState {
    match tag {
        MdTag::Heading(level) => BuildState {
            stack: flush(st.stack, st.para),
            para: Seq::empty(),
            pending: Some(level_number(level)),
            heading: Seq::empty(),
            ..st
        },
        MdTag::Emphasis => BuildState { style: set_italic(st.style, true), ..st },
        MdTag::Strong => BuildState { style: set_bold(st.style, true), ..st },
        MdTag::Strikethrough => BuildState { style: set_strike(st.style, true), ..st },
        MdTag::CodeBlock(lang) => BuildState {
            in_code: true,
            code_lang: opt_str(lang),
            code: Seq::empty(),
            ..st
        },
        MdTag::List(start) => BuildState { lists: st.lists.push((start is Some, Seq::empty())), ..st },
        MdTag::Item => BuildState { para: Seq::empty(), ..st },
        MdTag::Link(url) => BuildState { style: set_href(st.style, Some(url@)), ..st },
        MdTag::Image { url, title } => BuildState {
            para: st.para.push(Elem::Image { src: url@, alt: image_alt(title@), caption: None }),
            ..st
        },
        _ => st,
    }
}

pub open spec fn finished_item(para: Seq<Elem>) -> Seq<Elem> {
    if para.len() == 0 {
        Seq::empty()
    } else {
        seq![Elem::Paragraph(para)]
    }
}

pub open spec fn step_end(st: BuildState, tag: MdTagEnd) -> BuildState {
    match tag {
        MdTagEnd::Heading => close_heading(st),
        MdTagEnd::Paragraph => BuildState { stack: flush(st.stack, st.para), para: Seq::empty(), ..st },
        MdTagEnd::Emphasis => BuildState { style: set_italic(st.style, false), ..st },
        MdTagEnd::Strong => BuildState { style: set_bold(st.style, false), ..st },
        MdTagEnd::Strikethrough => BuildState { style: set_strike(st.style, false), ..st },
        MdTagEnd::List => if st.lists.len() == 0 {
            st
        } else {
            let (ordered, items) = st.lists.last();
            BuildState {
                stack: push_body(st.stack, Elem::List { ordered, items }),
                lists: st.lists.drop_last(),
                ..st
            }
        },
        MdTagEnd::Item => if st.lists.len() == 0 {
            st
        } else {
            let (ordered, items) = st.lists.last();
            BuildState {
                para: Seq::empty(),
                lists: st.lists.drop_last().push((ordered, items.push(finished_item(st.para)))),
                ..st
            }
        },
        MdTagEnd::Link => BuildState { style: set_href(st.style, None), ..st },
        MdTagEnd::CodeBlock => BuildState {
            in_code: false,
            stack: push_body(st.stack, Elem::CodeBlock { lang: st.code_lang, code: st.code }),
            code_lang: None,
            code: Seq::empty(),
            ..st
        },
        _ => st,
    }
}

/// What one event does to the builder's state.
pub open spec fn step(st: BuildState, ev: MdEvent) -> BuildState {
    match ev {
        MdEvent::Start(tag) => step_start(st, tag),
        MdEvent::End(tag) => step_end(st, tag),
        MdEvent::Text(t) => if st.in_code {
            BuildState { code: st.code + t@, ..st }
        } else if st.pending is Some {
            BuildState { heading: st.heading + t@, ..st }
        } else {
            BuildState { para: st.para.push(Elem::TextSpan { text: t@, style: st.style }), ..st }
        },
        MdEvent::Code(t) => if st.in_code {
            BuildState { code: st.code + t@, ..st }
        } else {
            BuildState {
                para: st.para.push(Elem::TextSpan { text: t@, style: set_code(st.style) }),
                ..st
            }
        },
        MdEvent::SoftBreak | MdEvent::HardBreak => if st.in_code {
            BuildState { code: st.code.push('\n'), ..st }
        } else {
            BuildState { para: st.para.push(Elem::TextSpan { text: seq!['\n'], style: st.style }), ..st }
        },
        MdEvent::FootnoteReference(name) => BuildState {
            para: st.para.push(Elem::FootnoteRef(name@)),
            ..st
        },
        MdEvent::Other => st,
    }
}

/// The builder's state after the events, from the initial state.
pub open spec fn state_after(events: Seq<MdEvent>) -> BuildState
    decreases events.len(),
{
    if events.len() == 0 {
        initial_state()
    } else {
        step(state_after(events.drop_last()), events.last())
    }
}

/// Closes the open sections, each into its parent, and gives the root's subsections.
pub open spec fn collapse(stack: Seq<Sec>) -> Seq<Sec>
    decreases stack.len(),
{
    if stack.len() == 0 {
        Seq::empty()
    } else if stack.last().level == 0 {
        stack.last().subsections
    } else {
        collapse(attach(stack.drop_last(), stack.last()))
    }
}

/// The sections of the document that the events describe.
pub open spec fn built_sections(events: Seq<MdEvent>) -> Seq<Sec> {
    let st = state_after(events);
    collapse(flush(st.stack, st.para))
}

pub open spec fn closes_list_or_item(ev: MdEvent) -> bool {
    ev == MdEvent::End(MdTagEnd::List) || ev == MdEvent::End(MdTagEnd::Item)
}

/// Every end of a list or of a list item comes while a list is open.
pub open spec fn lists_closed_properly(events: Seq<MdEvent>) -> bool {
    forall|i: int|
        0 <= i < events.len() && closes_list_or_item(#[trigger] events[i])
            ==> state_after(events.take(i)).lists.len() > 0
}


/// A section lies deeper than its parent's level and no deeper than 6, and so do its
/// subsections, under it.
pub open spec fn sec_nested(s: Sec, parent: u8) -> bool
    decreases s,
{
    parent < s.level && s.level <= 6 && subs_nested(s.subsections, s.level)
}

/// Every section of `ss` is nested under a parent at level `parent`.
pub open spec fn subs_nested(ss: Seq<Sec>, parent: u8) -> bool
    decreases ss,
{
    if ss.len() == 0 {
        true
    } else {
        subs_nested(ss.subrange(0, ss.len() - 1), parent) && sec_nested(ss[ss.len() - 1], parent)
    }
}

proof fn lemma_subs_nested_push(ss: Seq<Sec>, x: Sec, parent: u8)
    ensures
        subs_nested(ss.push(x), parent) == (subs_nested(ss, parent) && sec_nested(x, parent)),
{
    assert(ss.push(x).subrange(0, ss.len() as int) =~= ss);
}

/// The open sections: the root at level 0 at the bottom, levels rising strictly up to
/// at most 6, and everything attached to each of them nested under it.
pub open spec fn stack_nested(stack: Seq<Sec>) -> bool {
    &&& stack.len() >= 1
    &&& stack[0].level == 0
    &&& forall|i: int| 0 <= i < stack.len() ==> subs_nested(#[trigger] stack[i].subsections, stack[i].level)
    &&& forall|i: int| 1 <= i < stack.len() ==> stack[i - 1].level < #[trigger] stack[i].level && stack[i].level <= 6
}

pub open spec fn state_nested(st: BuildState) -> bool {
    &&& stack_nested(st.stack)
    &&& match st.pending {
        Some(l) => 1 <= l <= 6,
        None => true,
    }
}

proof fn lemma_push_body_nested(stack: Seq<Sec>, e: Elem)
    requires
        stack_nested(stack),
    ensures
        stack_nested(push_body(stack, e)),
        push_body(stack, e).len() == stack.len(),
        forall|i: int| 0 <= i < stack.len() ==> (#[trigger] push_body(stack, e)[i]).level == stack[i].level,
{
    let r = push_body(stack, e);
    assert forall|i: int| 0 <= i < stack.len() implies (#[trigger] r[i]).level == stack[i].level && r[i].subsections
        == stack[i].subsections by {
        if i < stack.len() - 1 {
            assert(r[i] == stack[i]);
        }
    }
}

proof fn lemma_flush_nested(stack: Seq<Sec>, para: Seq<Elem>)
    requires
        stack_nested(stack),
    ensures
        stack_nested(flush(stack, para)),
{
    if para.len() > 0 {
        lemma_push_body_nested(stack, Elem::Paragraph(para));
    }
}

proof fn lemma_attach_nested(stack: Seq<Sec>, child: Sec)
    requires
        stack_nested(stack),
        sec_nested(child, stack.last().level),
    ensures
        stack_nested(attach(stack, child)),
        attach(stack, child).len() == stack.len(),
        forall|i: int| 0 <= i < stack.len() ==> (#[trigger] attach(stack, child)[i]).level == stack[i].level,
{
    let r = attach(stack, child);
    let n = stack.len() - 1;
    lemma_subs_nested_push(stack[n].subsections, child, stack[n].level);
    assert forall|i: int| 0 <= i < stack.len() implies (#[trigger] r[i]).level == stack[i].level && subs_nested(
        r[i].subsections,
        r[i].level,
    ) by {
        if i < n {
            assert(r[i] == stack[i]);
        }
    }
}

/// Closing the innermost open section, above the root, into its parent keeps the
/// stack nested.
proof fn lemma_close_top_nested(stack: Seq<Sec>)
    requires
        stack_nested(stack),
        stack.len() >= 2,
    ensures
        stack_nested(attach(stack.drop_last(), stack.last())),
{
    let n = stack.len() - 1;
    let rest = stack.drop_last();
    assert(stack_nested(rest)) by {
        assert forall|i: int| 0 <= i < rest.len() implies subs_nested(#[trigger] rest[i].subsections, rest[i].level) by {
            assert(rest[i] == stack[i]);
        }
        assert forall|i: int| 1 <= i < rest.len() implies rest[i - 1].level < #[trigger] rest[i].level && rest[i].level <= 6 by {
            assert(rest[i] == stack[i]);
            assert(rest[i - 1] == stack[i - 1]);
        }
    }
    assert(stack[n - 1].level < stack[n].level);
    assert(subs_nested(stack[n].subsections, stack[n].level));
    assert(sec_nested(stack.last(), rest.last().level));
    lemma_attach_nested(rest, stack.last());
}

proof fn lemma_unwind_nested(stack: Seq<Sec>, lvl: u8)
    requires
        stack_nested(stack),
        1 <= lvl,
    ensures
        stack_nested(unwind(stack, lvl)),
        unwind(stack, lvl).last().level < lvl,
    decreases stack.len(),
{
    if stack.len() > 0 && stack.last().level >= lvl {
        assert(stack.len() >= 2);
        let rest = stack.drop_last();
        lemma_close_top_nested(stack);
        lemma_unwind_nested(attach(rest, stack.last()), lvl);
    }
}

proof fn lemma_close_heading_nested(st: BuildState)
    requires
        state_nested(st),
    ensures
        state_nested(close_heading(st)),
{
    let lvl: u8 = match st.pending {
        Some(l) => l,
        None => 1u8,
    };
    let sec = Sec { level: lvl, heading: st.heading, body: Seq::empty(), subsections: Seq::empty() };
    lemma_unwind_nested(st.stack, lvl);
    let u = unwind(st.stack, lvl);
    assert(subs_nested(Seq::<Sec>::empty(), lvl));
    assert(sec_nested(sec, u.last().level));
    lemma_attach_nested(u, sec);
    let a = attach(u, sec);
    let r = a.push(empty_sec(lvl));
    assert(subs_nested(empty_sec(lvl).subsections, lvl));
    assert forall|i: int| 0 <= i < r.len() implies subs_nested(#[trigger] r[i].subsections, r[i].level) by {
        if i < a.len() {
            assert(r[i] == a[i]);
        }
    }
    assert forall|i: int| 1 <= i < r.len() implies r[i - 1].level < #[trigger] r[i].level && r[i].level <= 6 by {
        if i < a.len() {
            assert(r[i] == a[i]);
            assert(r[i - 1] == a[i - 1]);
        } else {
            assert(r[i - 1] == a[i - 1]);
            assert(a[i - 1].level == u[i - 1].level);
        }
    }
}

proof fn lemma_step_nested(st: BuildState, ev: MdEvent)
    requires
        state_nested(st),
    ensures
        state_nested(step(st, ev)),
{
    lemma_flush_nested(st.stack, st.para);
    match ev {
        MdEvent::Start(tag) => {},
        MdEvent::End(tag) => match tag {
            MdTagEnd::Heading => lemma_close_heading_nested(st),
            MdTagEnd::List => {
                if st.lists.len() > 0 {
                    let (ordered, items) = st.lists.last();
                    lemma_push_body_nested(st.stack, Elem::List { ordered, items });
                }
            },
            MdTagEnd::CodeBlock => {
                lemma_push_body_nested(st.stack, Elem::CodeBlock { lang: st.code_lang, code: st.code });
            },
            _ => {},
        },
        _ => {},
    }
}

proof fn lemma_state_after_nested(events: Seq<MdEvent>)
    ensures
        state_nested(state_after(events)),
    decreases events.len(),
{
    if events.len() == 0 {
        assert(subs_nested(Seq::<Sec>::empty(), 0));
        assert(subs_nested(initial_state().stack[0].subsections, 0));
    } else {
        lemma_state_after_nested(events.drop_last());
        lemma_step_nested(state_after(events.drop_last()), events.last());
    }
}

proof fn lemma_collapse_nested(stack: Seq<Sec>)
    requires
        stack_nested(stack),
    ensures
        subs_nested(collapse(stack), 0),
    decreases stack.len(),
{
    if stack.len() == 1 {
        assert(stack.last() == stack[0]);
    } else {
        let rest = stack.drop_last();
        lemma_close_top_nested(stack);
        lemma_collapse_nested(attach(rest, stack.last()));
    }
}

/// Sections nest by heading level: every section that a Markdown text gives has a
/// level from 1 to 6, and every subsection lies at a deeper level than the section
/// that holds it.
pub proof fn lemma_sections_nest_by_level(events: Seq<MdEvent>)
    ensures
        subs_nested(built_sections(events), 0),
{
    lemma_state_after_nested(events);
    let st = state_after(events);
    lemma_flush_nested(st.stack, st.para);
    lemma_collapse_nested(flush(st.stack, st.para));
}

/// A section with a heading holds nothing itself and is followed directly by an
/// untitled section at its level, which holds what comes under the heading.
pub open spec fn heading_paired(ss: Seq<Sec>, j: int) -> bool {
    ss[j].heading.len() > 0 ==> {
        &&& ss[j].body.len() == 0
        &&& ss[j].subsections.len() == 0
        &&& j + 1 < ss.len()
        &&& ss[j + 1].heading.len() == 0
        &&& ss[j + 1].level == ss[j].level
    }
}

/// Every section of `ss`, at any depth, has its headed sections paired.
pub open spec fn secs_paired(ss: Seq<Sec>) -> bool
    decreases ss,
{
    if ss.len() == 0 {
        true
    } else {
        secs_paired(ss.subrange(0, ss.len() - 1)) && sec_paired(ss[ss.len() - 1])
    }
}

/// The subsections of `s`, at any depth, have their headed sections paired.
pub open spec fn sec_paired(s: Sec) -> bool
    decreases s,
{
    secs_paired(s.subsections) && forall|j: int| 0 <= j < s.subsections.len() ==> #[trigger] heading_paired(s.subsections, j)
}

/// A list of sections, and every list of subsections under it, has its headed sections
/// paired.
pub open spec fn subs_paired(ss: Seq<Sec>) -> bool {
    secs_paired(ss) && forall|j: int| 0 <= j < ss.len() ==> #[trigger] heading_paired(ss, j)
}

proof fn lemma_secs_paired_push(ss: Seq<Sec>, x: Sec)
    ensures
        secs_paired(ss.push(x)) == (secs_paired(ss) && sec_paired(x)),
{
    assert(ss.push(x).subrange(0, ss.len() as int) =~= ss);
}

/// The open section at `i` is untitled, what it holds is paired except perhaps its last
/// subsection, and a last subsection with a heading is empty and has the next open
/// section, at its level, as its content section.
pub open spec fn open_sec_paired(stack: Seq<Sec>, i: int) -> bool {
    let ss = stack[i].subsections;
    &&& stack[i].heading.len() == 0
    &&& secs_paired(ss)
    &&& forall|j: int| 0 <= j < ss.len() - 1 ==> #[trigger] heading_paired(ss, j)
    &&& ss.len() > 0 && ss.last().heading.len() > 0 ==> {
        &&& ss.last().body.len() == 0
        &&& ss.last().subsections.len() == 0
        &&& i + 1 < stack.len()
        &&& stack[i + 1].level == ss.last().level
    }
}

pub open spec fn stack_paired(stack: Seq<Sec>) -> bool {
    forall|i: int| 0 <= i < stack.len() ==> #[trigger] open_sec_paired(stack, i)
}

proof fn lemma_push_body_paired(stack: Seq<Sec>, e: Elem)
    requires
        stack_paired(stack),
        stack.len() > 0,
    ensures
        stack_paired(push_body(stack, e)),
{
    let r = push_body(stack, e);
    assert forall|i: int| 0 <= i < r.len() implies #[trigger] open_sec_paired(r, i) by {
        assert(open_sec_paired(stack, i));
        assert(r[i].subsections == stack[i].subsections);
        assert(r[i].heading == stack[i].heading);
        if i + 1 < r.len() {
            assert(r[i + 1].level == stack[i + 1].level);
        }
    }
}

proof fn lemma_flush_paired(stack: Seq<Sec>, para: Seq<Elem>)
    requires
        stack_paired(stack),
        stack.len() > 0,
    ensures
        stack_paired(flush(stack, para)),
{
    if para.len() > 0 {
        lemma_push_body_paired(stack, Elem::Paragraph(para));
    }
}

/// Closing the innermost open section into its parent keeps the stack paired.
proof fn lemma_attach_top_paired(stack: Seq<Sec>)
    requires
        stack_paired(stack),
        stack.len() >= 2,
    ensures
        stack_paired(attach(stack.drop_last(), stack.last())),
{
    let n = stack.len() - 1;
    let t = stack[n];
    let rest = stack.drop_last();
    let r = attach(rest, t);
    assert(open_sec_paired(stack, n));
    assert(open_sec_paired(stack, n - 1));
    let ts = t.subsections;
    assert(sec_paired(t)) by {
        assert forall|j: int| 0 <= j < ts.len() implies #[trigger] heading_paired(ts, j) by {
            if j < ts.len() - 1 {
            } else {
                assert(ts[j] == ts.last());
            }
        }
    }
    let ps = stack[n - 1].subsections;
    let ns = ps.push(t);
    lemma_secs_paired_push(ps, t);
    assert(r[n - 1].subsections == ns);
    assert forall|i: int| 0 <= i < r.len() implies #[trigger] open_sec_paired(r, i) by {
        if i < n - 1 {
            assert(r[i] == stack[i]);
            assert(open_sec_paired(stack, i));
            if i + 1 < n - 1 {
                assert(r[i + 1] == stack[i + 1]);
            } else {
                assert(r[i + 1].level == stack[i + 1].level);
            }
        } else {
            assert(i == n - 1);
            assert forall|j: int| 0 <= j < ns.len() - 1 implies #[trigger] heading_paired(ns, j) by {
                if j < ps.len() - 1 {
                    assert(heading_paired(ps, j));
                    assert(ns[j] == ps[j]);
                    assert(ns[j + 1] == ps[j + 1]);
                } else {
                    assert(j == ps.len() - 1);
                    assert(ns[j] == ps.last());
                    assert(ns[j + 1] == t);
                }
            }
            assert(ns.last() == t);
        }
    }
}

proof fn lemma_unwind_paired(stack: Seq<Sec>, lvl: u8)
    requires
        stack_nested(stack),
        stack_paired(stack),
        1 <= lvl,
    ensures
        stack_paired(unwind(stack, lvl)),
    decreases stack.len(),
{
    if stack.len() > 0 && stack.last().level >= lvl {
        assert(stack.len() >= 2);
        let rest = stack.drop_last();
        lemma_close_top_nested(stack);
        lemma_attach_top_paired(stack);
        lemma_unwind_paired(attach(rest, stack.last()), lvl);
    }
}

proof fn lemma_close_heading_paired(st: BuildState)
    requires
        state_nested(st),
        stack_paired(st.stack),
    ensures
        stack_paired(close_heading(st).stack),
{
    let lvl: u8 = match st.pending {
        Some(l) => l,
        None => 1u8,
    };
    let sec = Sec { level: lvl, heading: st.heading, body: Seq::empty(), subsections: Seq::empty() };
    lemma_unwind_nested(st.stack, lvl);
    lemma_unwind_paired(st.stack, lvl);
    let u = unwind(st.stack, lvl);
    let n = u.len() - 1;
    let a = attach(u, sec);
    let r = a.push(empty_sec(lvl));
    assert(open_sec_paired(u, n));
    let us = u[n].subsections;
    let ns = us.push(sec);
    assert(sec_paired(sec)) by {
        assert(secs_paired(Seq::<Sec>::empty()));
    }
    lemma_secs_paired_push(us, sec);
    assert(a[n].subsections == ns);
    assert(secs_paired(Seq::<Sec>::empty()));
    assert forall|i: int| 0 <= i < r.len() implies #[trigger] open_sec_paired(r, i) by {
        if i < n {
            assert(r[i] == u[i]);
            assert(open_sec_paired(u, i));
            if i + 1 < n {
                assert(r[i + 1] == u[i + 1]);
            } else {
                assert(r[i + 1].level == u[i + 1].level);
            }
        } else if i == n {
            assert(r[i] == a[n]);
            assert forall|j: int| 0 <= j < ns.len() - 1 implies #[trigger] heading_paired(ns, j) by {
                assert(ns[j] == us[j]);
                if j < us.len() - 1 {
                    assert(heading_paired(us, j));
                    assert(ns[j + 1] == us[j + 1]);
                } else {
                    assert(us[j] == us.last());
                }
            }
            assert(ns.last() == sec);
            assert(r[n + 1] == empty_sec(lvl));
        } else {
            assert(r[i] == empty_sec(lvl));
            assert(r[i].subsections =~= Seq::<Sec>::empty());
        }
    }
}

proof fn lemma_step_paired(st: BuildState, ev: MdEvent)
    requires
        state_nested(st),
        stack_paired(st.stack),
    ensures
        stack_paired(step(st, ev).stack),
{
    lemma_flush_paired(st.stack, st.para);
    match ev {
        MdEvent::End(tag) => match tag {
            MdTagEnd::Heading => lemma_close_heading_paired(st),
            MdTagEnd::List => {
                if st.lists.len() > 0 {
                    let (ordered, items) = st.lists.last();
                    lemma_push_body_paired(st.stack, Elem::List { ordered, items });
                }
            },
            MdTagEnd::CodeBlock => {
                lemma_push_body_paired(st.stack, Elem::CodeBlock { lang: st.code_lang, code: st.code });
            },
            _ => {},
        },
        _ => {},
    }
}

proof fn lemma_state_after_paired(events: Seq<MdEvent>)
    ensures
        stack_paired(state_after(events).stack),
    decreases events.len(),
{
    if events.len() == 0 {
        let s = initial_state().stack;
        assert(secs_paired(Seq::<Sec>::empty()));
        assert(open_sec_paired(s, 0));
    } else {
        lemma_state_after_paired(events.drop_last());
        lemma_state_after_nested(events.drop_last());
        lemma_step_paired(state_after(events.drop_last()), events.last());
    }
}

proof fn lemma_collapse_paired(stack: Seq<Sec>)
    requires
        stack_nested(stack),
        stack_paired(stack),
    ensures
        subs_paired(collapse(stack)),
    decreases stack.len(),
{
    if stack.len() == 1 {
        assert(stack.last() == stack[0]);
        assert(open_sec_paired(stack, 0));
        let ss = stack[0].subsections;
        assert forall|j: int| 0 <= j < ss.len() implies #[trigger] heading_paired(ss, j) by {
            if j == ss.len() - 1 {
                assert(ss[j] == ss.last());
            }
        }
    } else {
        let rest = stack.drop_last();
        lemma_close_top_nested(stack);
        lemma_attach_top_paired(stack);
        lemma_collapse_paired(attach(rest, stack.last()));
    }
}

/// A heading gives a section of its own, which holds nothing and is followed directly,
/// in the same list, by an untitled section at the heading's level that holds what comes
/// under the heading; so at every depth of the sections a Markdown text gives.
pub proof fn lemma_headings_paired(events: Seq<MdEvent>)
    ensures
        subs_paired(built_sections(events)),
{
    lemma_state_after_paired(events);
    lemma_state_after_nested(events);
    let st = state_after(events);
    lemma_flush_nested(st.stack, st.para);
    lemma_flush_paired(st.stack, st.para);
    lemma_collapse_paired(flush(st.stack, st.para));
}

/// What a reading of the events knows of headings: whether a heading is open, whether a
/// code block is open, the text gathered for the current heading, and the texts of the
/// closed headings that have any, in order.
pub struct HeadingScan {
    pub open: bool,
    pub in_code: bool,
    pub text: Seq<char>,
    pub titles: Seq<Seq<char>>,
}

/// One event read: a heading start opens a heading with no text, text outside code
/// blocks goes to an open heading, and a heading end records the heading's text.
pub open spec fn scan_step(sc: HeadingScan, e: MdEvent) -> HeadingScan {
    match e {
        MdEvent::Start(MdTag::Heading(_)) => HeadingScan { open: true, text: Seq::empty(), ..sc },
        MdEvent::End(MdTagEnd::Heading) => HeadingScan {
            open: false,
            titles: if sc.text.len() > 0 {
                sc.titles.push(sc.text)
            } else {
                sc.titles
            },
            ..sc
        },
        MdEvent::Start(MdTag::CodeBlock(_)) => HeadingScan { in_code: true, ..sc },
        MdEvent::End(MdTagEnd::CodeBlock) => HeadingScan { in_code: false, ..sc },
        MdEvent::Text(t) => if !sc.in_code && sc.open {
            HeadingScan { text: sc.text + t@, ..sc }
        } else {
            sc
        },
        _ => sc,
    }
}

pub open spec fn scan_after(events: Seq<MdEvent>) -> HeadingScan
    decreases events.len(),
{
    if events.len() == 0 {
        HeadingScan { open: false, in_code: false, text: Seq::empty(), titles: Seq::empty() }
    } else {
        scan_step(scan_after(events.drop_last()), events.last())
    }
}

/// The texts of the headings of the events that have any, in source order.
pub open spec fn source_headings(events: Seq<MdEvent>) -> Seq<Seq<char>> {
    scan_after(events).titles
}

/// The titles of a section and of everything under it, in document order.
pub open spec fn sec_titles(s: Sec) -> Seq<Seq<char>>
    decreases s,
{
    (if s.heading.len() > 0 {
        seq![s.heading]
    } else {
        Seq::empty()
    }) + secs_titles(s.subsections)
}

/// The titles of the sections and of everything under them, in document order.
pub open spec fn secs_titles(ss: Seq<Sec>) -> Seq<Seq<char>>
    decreases ss,
{
    if ss.len() == 0 {
        Seq::empty()
    } else {
        secs_titles(ss.subrange(0, ss.len() - 1)) + sec_titles(ss[ss.len() - 1])
    }
}

/// The titles held by the open sections, outermost first.
pub open spec fn stack_titles(stack: Seq<Sec>) -> Seq<Seq<char>>
    decreases stack.len(),
{
    if stack.len() == 0 {
        Seq::empty()
    } else {
        stack_titles(stack.drop_last()) + secs_titles(stack.last().subsections)
    }
}

proof fn lemma_secs_titles_push(ss: Seq<Sec>, x: Sec)
    ensures
        secs_titles(ss.push(x)) == secs_titles(ss) + sec_titles(x),
{
    assert(ss.push(x).subrange(0, ss.len() as int) =~= ss);
}

proof fn lemma_push_body_titles(stack: Seq<Sec>, e: Elem)
    requires
        stack.len() > 0,
    ensures
        stack_titles(push_body(stack, e)) == stack_titles(stack),
{
    let r = push_body(stack, e);
    assert(r.drop_last() =~= stack.drop_last());
}

proof fn lemma_flush_titles(stack: Seq<Sec>, para: Seq<Elem>)
    requires
        stack.len() > 0,
    ensures
        stack_titles(flush(stack, para)) == stack_titles(stack),
{
    if para.len() > 0 {
        lemma_push_body_titles(stack, Elem::Paragraph(para));
    }
}

proof fn lemma_attach_titles(stack: Seq<Sec>, c: Sec)
    requires
        stack.len() > 0,
    ensures
        stack_titles(attach(stack, c)) == stack_titles(stack) + sec_titles(c),
{
    let r = attach(stack, c);
    assert(r.drop_last() =~= stack.drop_last());
    lemma_secs_titles_push(stack.last().subsections, c);
    assert(stack_titles(r) =~= stack_titles(stack) + sec_titles(c));
}

proof fn lemma_attach_top_titles(stack: Seq<Sec>)
    requires
        stack.len() >= 2,
        stack.last().heading.len() == 0,
    ensures
        stack_titles(attach(stack.drop_last(), stack.last())) == stack_titles(stack),
{
    lemma_attach_titles(stack.drop_last(), stack.last());
    assert(sec_titles(stack.last()) =~= secs_titles(stack.last().subsections));
}

proof fn lemma_unwind_titles(stack: Seq<Sec>, lvl: u8)
    requires
        stack_nested(stack),
        stack_paired(stack),
        1 <= lvl,
    ensures
        stack_titles(unwind(stack, lvl)) == stack_titles(stack),
    decreases stack.len(),
{
    if stack.len() > 0 && stack.last().level >= lvl {
        assert(stack.len() >= 2);
        assert(open_sec_paired(stack, stack.len() - 1));
        lemma_attach_top_titles(stack);
        lemma_close_top_nested(stack);
        lemma_attach_top_paired(stack);
        lemma_unwind_titles(attach(stack.drop_last(), stack.last()), lvl);
    }
}

proof fn lemma_close_heading_titles(st: BuildState)
    requires
        state_nested(st),
        stack_paired(st.stack),
    ensures
        stack_titles(close_heading(st).stack) == stack_titles(st.stack) + if st.heading.len() > 0 {
            seq![st.heading]
        } else {
            Seq::empty()
        },
{
    let lvl: u8 = match st.pending {
        Some(l) => l,
        None => 1u8,
    };
    let sec = Sec { level: lvl, heading: st.heading, body: Seq::empty(), subsections: Seq::empty() };
    lemma_unwind_nested(st.stack, lvl);
    lemma_unwind_titles(st.stack, lvl);
    let u = unwind(st.stack, lvl);
    lemma_attach_titles(u, sec);
    let a = attach(u, sec);
    let r = a.push(empty_sec(lvl));
    assert(r.drop_last() =~= a);
    assert(secs_titles(Seq::<Sec>::empty()) =~= Seq::<Seq<char>>::empty());
    assert(stack_titles(r) =~= stack_titles(a));
    assert(sec_titles(sec) =~= if st.heading.len() > 0 {
        seq![st.heading]
    } else {
        Seq::<Seq<char>>::empty()
    });
}

/// What one event does to the builder's heading text, open heading, open code block, and
/// the titles its open sections hold.
proof fn lemma_step_titles(st: BuildState, e: MdEvent)
    requires
        state_nested(st),
        stack_paired(st.stack),
    ensures
        stack_titles(step(st, e).stack) == stack_titles(st.stack) + if e == MdEvent::End(MdTagEnd::Heading)
            && st.heading.len() > 0 {
            seq![st.heading]
        } else {
            Seq::empty()
        },
        step(st, e).heading == match e {
            MdEvent::Start(MdTag::Heading(_)) => Seq::empty(),
            MdEvent::Text(t) => if !st.in_code && st.pending is Some {
                st.heading + t@
            } else {
                st.heading
            },
            _ => st.heading,
        },
        (step(st, e).pending is Some) == match e {
            MdEvent::Start(MdTag::Heading(_)) => true,
            MdEvent::End(MdTagEnd::Heading) => false,
            _ => st.pending is Some,
        },
        step(st, e).in_code == match e {
            MdEvent::Start(MdTag::CodeBlock(_)) => true,
            MdEvent::End(MdTagEnd::CodeBlock) => false,
            _ => st.in_code,
        },
{
    lemma_flush_titles(st.stack, st.para);
    assert(Seq::<Seq<char>>::empty() + stack_titles(st.stack) =~= stack_titles(st.stack));
    assert(stack_titles(st.stack) + Seq::<Seq<char>>::empty() =~= stack_titles(st.stack));
    match e {
        MdEvent::Start(t) => {
            match t {
                MdTag::Heading(_) => {},
                _ => {},
            }
        },
        MdEvent::End(x) => match x {
            MdTagEnd::Heading => lemma_close_heading_titles(st),
            MdTagEnd::List => {
                if st.lists.len() > 0 {
                    let (ordered, items) = st.lists.last();
                    lemma_push_body_titles(st.stack, Elem::List { ordered, items });
                }
            },
            MdTagEnd::CodeBlock => {
                lemma_push_body_titles(st.stack, Elem::CodeBlock { lang: st.code_lang, code: st.code });
            },
            _ => {},
        },
        _ => {},
    }
}

/// The builder tracks the reading of the headings: the titles its open sections hold
/// are the texts of the closed headings, in order.
proof fn lemma_state_after_titles(events: Seq<MdEvent>)
    ensures
        stack_titles(state_after(events).stack) == scan_after(events).titles,
        state_after(events).heading == scan_after(events).text,
        (state_after(events).pending is Some) == scan_after(events).open,
        state_after(events).in_code == scan_after(events).in_code,
    decreases events.len(),
{
    if events.len() == 0 {
        let s = initial_state().stack;
        assert(s.drop_last() =~= Seq::<Sec>::empty());
        assert(stack_titles(s.drop_last()) == Seq::<Seq<char>>::empty());
        assert(s.last().subsections =~= Seq::<Sec>::empty());
        assert(secs_titles(s.last().subsections) == Seq::<Seq<char>>::empty());
        assert(stack_titles(s) =~= Seq::<Seq<char>>::empty());
    } else {
        let p = events.drop_last();
        lemma_state_after_titles(p);
        lemma_state_after_nested(p);
        lemma_state_after_paired(p);
        lemma_step_titles(state_after(p), events.last());
    }
}

proof fn lemma_collapse_titles(stack: Seq<Sec>)
    requires
        stack_nested(stack),
        stack_paired(stack),
    ensures
        secs_titles(collapse(stack)) == stack_titles(stack),
    decreases stack.len(),
{
    if stack.len() == 1 {
        assert(stack.last() == stack[0]);
        assert(stack.drop_last() =~= Seq::<Sec>::empty());
        assert(stack_titles(stack.drop_last()) == Seq::<Seq<char>>::empty());
        assert(stack_titles(stack) =~= secs_titles(stack[0].subsections));
    } else {
        assert(open_sec_paired(stack, stack.len() - 1));
        lemma_attach_top_titles(stack);
        lemma_close_top_nested(stack);
        lemma_attach_top_paired(stack);
        lemma_collapse_titles(attach(stack.drop_last(), stack.last()));
    }
}

/// Headings keep their order: the titled sections of the document, in document order
/// (each section before what lies under it), are the headings of the text that have
/// any text, in source order.
pub proof fn lemma_headings_in_order(events: Seq<MdEvent>)
    ensures
        secs_titles(built_sections(events)) == source_headings(events),
{
    lemma_state_after_titles(events);
    lemma_state_after_nested(events);
    lemma_state_after_paired(events);
    let st = state_after(events);
    lemma_flush_titles(st.stack, st.para);
    lemma_flush_nested(st.stack, st.para);
    lemma_flush_paired(st.stack, st.para);
    lemma_collapse_titles(flush(st.stack, st.para));
}

/// Whether strong emphasis is in force after the events: the last start or end of
/// strong emphasis among them is a start.
pub open spec fn strong_in_force(events: Seq<MdEvent>) -> bool
    decreases events.len(),
{
    if events.len() == 0 {
        false
    } else {
        match events.last() {
            MdEvent::Start(MdTag::Strong) => true,
            MdEvent::End(MdTagEnd::Strong) => false,
            _ => strong_in_force(events.drop_last()),
        }
    }
}

/// Whether emphasis is in force after the events: the last start or end of emphasis
/// among them is a start.
pub open spec fn emphasis_in_force(events: Seq<MdEvent>) -> bool
    decreases events.len(),
{
    if events.len() == 0 {
        false
    } else {
        match events.last() {
            MdEvent::Start(MdTag::Emphasis) => true,
            MdEvent::End(MdTagEnd::Emphasis) => false,
            _ => emphasis_in_force(events.drop_last()),
        }
    }
}

proof fn lemma_step_emphasis(st: BuildState, e: MdEvent)
    ensures
        step(st, e).style.bold == match e {
            MdEvent::Start(MdTag::Strong) => true,
            MdEvent::End(MdTagEnd::Strong) => false,
            _ => st.style.bold,
        },
        step(st, e).style.italic == match e {
            MdEvent::Start(MdTag::Emphasis) => true,
            MdEvent::End(MdTagEnd::Emphasis) => false,
            _ => st.style.italic,
        },
{
    match e {
        MdEvent::Start(t) => {
            match t {
                MdTag::Heading(_) => {},
                _ => {},
            }
        },
        MdEvent::End(x) => {
            match x {
                MdTagEnd::Heading => {},
                MdTagEnd::List => {},
                MdTagEnd::Item => {},
                _ => {},
            }
        },
        _ => {},
    }
}

proof fn lemma_style_tracks_emphasis(events: Seq<MdEvent>)
    ensures
        state_after(events).style.bold == strong_in_force(events),
        state_after(events).style.italic == emphasis_in_force(events),
    decreases events.len(),
{
    if events.len() > 0 {
        lemma_style_tracks_emphasis(events.drop_last());
        lemma_step_emphasis(state_after(events.drop_last()), events.last());
    }
}

/// Text outside code blocks and headings becomes a text span of the paragraph being
/// collected, bold exactly when strong emphasis is in force and italic exactly when
/// emphasis is.
pub proof fn lemma_text_spans_carry_emphasis(events: Seq<MdEvent>, t: String)
    requires
        !scan_after(events).in_code,
        !scan_after(events).open,
    ensures
        state_after(events.push(MdEvent::Text(t))).para.last() matches Elem::TextSpan { text, style } && text
            == t@ && style.bold == strong_in_force(events) && style.italic == emphasis_in_force(events),
{
    let evs = events.push(MdEvent::Text(t));
    assert(evs.drop_last() =~= events);
    lemma_state_after_titles(events);
    lemma_style_tracks_emphasis(events);
}

/// The number of lists among the open tags.
pub open spec fn num_lists(open: Seq<MdTagEnd>) -> nat
    decreases open.len(),
{
    if open.len() == 0 {
        0
    } else {
        num_lists(open.drop_last()) + if open.last() == MdTagEnd::List {
            1nat
        } else {
            0nat
        }
    }
}

/// The open tag at `j`, if a list item, lies directly in an open list.
pub open spec fn item_in_list(open: Seq<MdTagEnd>, j: int) -> bool {
    open[j] == MdTagEnd::Item ==> j > 0 && open[j - 1] == MdTagEnd::List
}

/// Every open list item lies directly in an open list.
pub open spec fn items_in_lists(open: Seq<MdTagEnd>) -> bool {
    forall|j: int| 0 <= j < open.len() ==> #[trigger] item_in_list(open, j)
}

proof fn lemma_num_lists_pos(open: Seq<MdTagEnd>, j: int)
    requires
        0 <= j < open.len(),
        open[j] == MdTagEnd::List,
    ensures
        num_lists(open) > 0,
    decreases open.len(),
{
    if j < open.len() - 1 {
        lemma_num_lists_pos(open.drop_last(), j);
    }
}

proof fn lemma_open_tags_prefix(events: Seq<MdEvent>, k: int)
    requires
        open_tags(events) is Some,
        0 <= k <= events.len(),
    ensures
        open_tags(events.take(k)) is Some,
    decreases events.len(),
{
    if k == events.len() {
        assert(events.take(k) =~= events);
    } else {
        assert(events.drop_last().take(k) =~= events.take(k));
        lemma_open_tags_prefix(events.drop_last(), k);
    }
}

/// How one event changes the number of the builder's open lists: a list start opens
/// one, a list end closes one, nothing else changes the number.
proof fn lemma_step_lists(st: BuildState, e: MdEvent)
    ensures
        (e matches MdEvent::Start(MdTag::List(_))) ==> step(st, e).lists.len() == st.lists.len() + 1,
        e == MdEvent::End(MdTagEnd::List) && st.lists.len() > 0 ==> step(st, e).lists.len() == st.lists.len() - 1,
        !(e matches MdEvent::Start(MdTag::List(_))) && e != MdEvent::End(MdTagEnd::List) ==> step(st, e).lists.len()
            == st.lists.len(),
{
    match e {
        MdEvent::Start(t) => {
            match t {
                MdTag::Heading(_) => {},
                _ => {},
            }
        },
        MdEvent::End(x) => {
            match x {
                MdTagEnd::Heading => {},
                MdTagEnd::List => {},
                MdTagEnd::Item => {},
                _ => {},
            }
        },
        _ => {},
    }
}

/// The change in open lists that one event makes: one more at a list start, one fewer
/// at a list end.
pub open spec fn list_delta(before: nat, e: MdEvent) -> int {
    if e matches MdEvent::Start(MdTag::List(_)) {
        before + 1int
    } else if e == MdEvent::End(MdTagEnd::List) {
        before - 1
    } else {
        before as int
    }
}

proof fn lemma_push_tag(open: Seq<MdTagEnd>, tag: MdTagEnd)
    ensures
        num_lists(open.push(tag)) == num_lists(open) + if tag == MdTagEnd::List {
            1int
        } else {
            0int
        },
        items_in_lists(open) && (tag == MdTagEnd::Item ==> open.len() > 0 && open.last() == MdTagEnd::List)
            ==> items_in_lists(open.push(tag)),
{
    let next = open.push(tag);
    assert(next.drop_last() =~= open);
    if items_in_lists(open) && (tag == MdTagEnd::Item ==> open.len() > 0 && open.last() == MdTagEnd::List) {
        assert forall|j: int| 0 <= j < next.len() implies #[trigger] item_in_list(next, j) by {
            if j < open.len() {
                assert(item_in_list(open, j));
                assert(open[j] == next[j]);
                if j > 0 {
                    assert(open[j - 1] == next[j - 1]);
                }
            }
        }
    }
}

proof fn lemma_pop_tag(open: Seq<MdTagEnd>)
    requires
        open.len() > 0,
    ensures
        num_lists(open.drop_last()) == num_lists(open) - if open.last() == MdTagEnd::List {
            1int
        } else {
            0int
        },
        items_in_lists(open) ==> items_in_lists(open.drop_last()),
{
    let next = open.drop_last();
    if items_in_lists(open) {
        assert forall|j: int| 0 <= j < next.len() implies #[trigger] item_in_list(next, j) by {
            assert(item_in_list(open, j));
            assert(open[j] == next[j]);
            if j > 0 {
                assert(open[j - 1] == next[j - 1]);
            }
        }
    }
}

/// One more event on well-nested open tags: the lists among them change as
/// [`list_delta`] says, and list items stay directly in lists.
proof fn lemma_open_tags_step(events: Seq<MdEvent>)
    requires
        events.len() > 0,
        open_tags(events) is Some,
        open_tags(events.drop_last()) is Some,
        items_in_lists(open_tags(events.drop_last()).unwrap()),
    ensures
        num_lists(open_tags(events).unwrap()) == list_delta(
            num_lists(open_tags(events.drop_last()).unwrap()),
            events.last(),
        ),
        items_in_lists(open_tags(events).unwrap()),
{
    let open = open_tags(events.drop_last()).unwrap();
    let next = open_tags(events).unwrap();
    let e = events.last();
    match e {
        MdEvent::Start(t) => {
            if t is Item {
                assert(next == open.push(MdTagEnd::Item));
                lemma_push_tag(open, MdTagEnd::Item);
            } else {
                assert(next == open.push(closing(t)));
                assert(closing(t) == MdTagEnd::List <==> t is List);
                lemma_push_tag(open, closing(t));
            }
        },
        MdEvent::End(x) => {
            assert(next == open.drop_last());
            assert(open.last() == x);
            lemma_pop_tag(open);
        },
        _ => {
            assert(next == open);
        },
    }
}

/// The builder's open lists after one more event change as [`list_delta`] says, given
/// that a list end comes while a list is open.
proof fn lemma_state_after_lists(events: Seq<MdEvent>)
    requires
        events.len() > 0,
        events.last() == MdEvent::End(MdTagEnd::List) ==> state_after(events.drop_last()).lists.len() > 0,
    ensures
        state_after(events).lists.len() == list_delta(state_after(events.drop_last()).lists.len(), events.last()),
{
    lemma_step_lists(state_after(events.drop_last()), events.last());
}

/// While the events stay well nested, the builder holds one open list for each list
/// among the open tags.
proof fn lemma_lists_track(events: Seq<MdEvent>, k: int)
    requires
        0 <= k <= events.len(),
        open_tags(events.take(k)) is Some,
    ensures
        state_after(events.take(k)).lists.len() == num_lists(open_tags(events.take(k)).unwrap()),
        items_in_lists(open_tags(events.take(k)).unwrap()),
    decreases k,
{
    if k == 0 {
        assert(events.take(0) =~= Seq::<MdEvent>::empty());
    } else {
        let s = events.take(k);
        let p = events.take(k - 1);
        assert(s.drop_last() =~= p);
        assert(open_tags(p) is Some);
        lemma_lists_track(events, k - 1);
        lemma_open_tags_step(s);
        if s.last() == MdEvent::End(MdTagEnd::List) {
            let open = open_tags(p).unwrap();
            lemma_num_lists_pos(open, open.len() - 1);
        }
        lemma_state_after_lists(s);
    }
}

/// Well-nested events close lists and list items only while a list is open.
pub proof fn lemma_well_nested_lists_closed(events: Seq<MdEvent>)
    requires
        well_nested(events),
    ensures
        lists_closed_properly(events),
{
    assert forall|i: int| 0 <= i < events.len() && closes_list_or_item(#[trigger] events[i]) implies state_after(
        events.take(i),
    ).lists.len() > 0 by {
        lemma_open_tags_prefix(events, i + 1);
        lemma_open_tags_prefix(events, i);
        lemma_lists_track(events, i);
        let s = events.take(i + 1);
        assert(s.drop_last() =~= events.take(i));
        assert(s.last() == events[i]);
        let open = open_tags(events.take(i)).unwrap();
        if events[i] == MdEvent::End(MdTagEnd::List) {
            lemma_num_lists_pos(open, open.len() - 1);
        } else {
            assert(open[open.len() - 1] == MdTagEnd::Item);
            assert(item_in_list(open, open.len() - 1));
            lemma_num_lists_pos(open, open.len() - 2);
        }
    }
}

/// The YAML front matter of a Markdown text and the text after it: when the text,
/// after its leading white space, opens with `---` and a line break, and a later
/// line break is followed by `---`, the YAML is what lies between and the rest
/// follows the closing `---` (the first one found).
pub open spec fn front_matter_split(md: Seq<char>) -> Option<(Seq<char>, Seq<char>)> {
    let t = trim_start(md);
    if t.len() >= 4 && t[0] == '-' && t[1] == '-' && t[2] == '-' && t[3] == '\n' && exists|j: int|
        4 <= j && #[trigger] is_fence_at(t, j) {
        let j = choose|j: int|
            4 <= j && #[trigger] is_fence_at(t, j) && forall|k: int| 4 <= k < j ==> !is_fence_at(t, k);
        Some((t.subrange(4, j), t.skip(j + 4)))
    } else {
        None
    }
}

/// A line break followed by `---` at index `j`.
pub open spec fn is_fence_at(s: Seq<char>, j: int) -> bool {
    0 <= j && j + 4 <= s.len() && s[j] == '\n' && s[j + 1] == '-' && s[j + 2] == '-' && s[j + 3] == '-'
}

/// The Markdown that follows the front matter (all of it when there is none).
pub open spec fn markdown_body(md: Seq<char>) -> Seq<char> {
    match front_matter_split(md) {
        Some((_, rest)) => rest,
        None => md,
    }
}

/// The map from strings to JSON values that serde_yaml reads from the text; `None` when
/// it does not read the text as such a map.
pub uninterp spec fn spec_yaml_mapping(yaml: Seq<char>) -> Option<Map<String, serde_json::Value>>;

/// The front matter of a Markdown text: the map that serde_yaml reads from its YAML
/// block; `None` when there is no such block or it is not such a map.
pub open spec fn front_matter_map(md: Seq<char>) -> Option<Map<String, serde_json::Value>> {
    match front_matter_split(md) {
        Some((yaml, _)) => spec_yaml_mapping(yaml),
        None => None,
    }
}

/// Parses YAML front matter with `serde_yaml::from_str` into a map from strings to JSON values.
///
/// Trusted: the result is the named [`spec_yaml_mapping`] of the text, taken by its view
/// (the map's entries); the parse depends on the text alone.
#[verifier::external_body]
fn parse_yaml_mapping(yaml: &str) -> (r: Option<HashMap<String, serde_json::Value>>)
    ensures
        match r {
            Some(m) => spec_yaml_mapping(yaml@) == Some(m@),
            None => spec_yaml_mapping(yaml@) is None,
        },
{
    serde_yaml::from_str::<HashMap<String, serde_json::Value>>(yaml).ok()
}

fn find_fence(cs: &Vec<char>, from: usize) -> (r: Option<usize>)
    requires
        from <= cs@.len(),
    ensures
        r matches Some(j) ==> from <= j && is_fence_at(cs@, j as int) && forall|k: int|
            from <= k < j ==> !is_fence_at(cs@, k),
        r is None ==> forall|k: int| from <= k ==> !is_fence_at(cs@, k),
{
    let n = cs.len();
    let mut j = from;
    while j < n && n - j >= 4
        invariant
            from <= j <= n,
            n == cs@.len(),
            forall|k: int| from <= k < j ==> !is_fence_at(cs@, k),
        decreases n - j,
    {
        if cs[j] == '\n' && cs[j + 1] == '-' && cs[j + 2] == '-' && cs[j + 3] == '-' {
            return Some(j);
        }
        j = j + 1;
    }
    None
}

proof fn lemma_fence_shift(cs: Seq<char>, start: int, t: Seq<char>)
    requires
        0 <= start <= cs.len(),
        t == cs.subrange(start, cs.len() as int),
    ensures
        forall|k: int| 0 <= k ==> (#[trigger] is_fence_at(t, k) == is_fence_at(cs, k + start)),
{
}

proof fn lemma_fence_found(md: Seq<char>, cs: Seq<char>, start: int, j: int)
    requires
        cs == md,
        start == leading_white_space(md),
        start + 4 <= j,
        trim_start(md).len() >= 4,
        trim_start(md)[0] == '-' && trim_start(md)[1] == '-' && trim_start(md)[2] == '-' && trim_start(md)[3] == '\n',
        is_fence_at(cs, j),
        forall|k: int| start + 4 <= k < j ==> !is_fence_at(cs, k),
    ensures
        front_matter_split(md) == Some((cs.subrange(start + 4, j), cs.subrange(j + 4, cs.len() as int))),
{
    let t = trim_start(md);
    let jj = j - start;
    assert(t =~= cs.subrange(start, cs.len() as int));
    lemma_fence_shift(cs, start, t);
    assert(is_fence_at(t, jj));
    assert(forall|k: int| 4 <= k < jj ==> !is_fence_at(t, k));
    let c = choose|j: int| 4 <= j && #[trigger] is_fence_at(t, j) && forall|k: int| 4 <= k < j ==> !is_fence_at(t, k);
    assert(4 <= c && is_fence_at(t, c) && forall|k: int| 4 <= k < c ==> !is_fence_at(t, k));
    assert(c == jj) by {
        if c < jj {
            assert(!is_fence_at(t, c));
        }
        if jj < c {
            assert(!is_fence_at(t, jj));
        }
    }
    assert(t.subrange(4, jj) =~= cs.subrange(start + 4, j));
    assert(t.skip(jj + 4) =~= cs.subrange(j + 4, cs.len() as int));
}

proof fn lemma_fence_missing(md: Seq<char>, cs: Seq<char>, start: int)
    requires
        cs == md,
        start == leading_white_space(md),
        start + 4 <= cs.len(),
        forall|k: int| start + 4 <= k ==> !is_fence_at(cs, k),
    ensures
        front_matter_split(md) is None,
{
    let t = trim_start(md);
    assert(t =~= cs.subrange(start, cs.len() as int));
    lemma_fence_shift(cs, start, t);
}

/// Splits optional YAML front matter off a Markdown text.
pub fn split_front_matter(md: &str) -> (r: (Option<HashMap<String, serde_json::Value>>, String))
    ensures
        r.1@ == markdown_body(md@),
        match front_matter_map(md@) {
            Some(fm) => r.0 matches Some(m) && m@ == fm,
            None => r.0 is None,
        },
{
    let cs = chars_of(md);
    let start = skip_white_space(&cs);
    let n = cs.len();
    proof {
        assert(trim_start(md@) =~= cs@.subrange(start as int, n as int));
    }
    if n - start >= 4 && cs[start] == '-' && cs[start + 1] == '-' && cs[start + 2] == '-' && cs[start + 3] == '\n' {
        match find_fence(&cs, start + 4) {
            Some(j) => {
                proof {
                    lemma_fence_found(md@, cs@, start as int, j as int);
                }
                let yaml = string_from_chars(&cs, start + 4, j);
                let rest = string_from_chars(&cs, j + 4, n);
                let front = parse_yaml_mapping(yaml.as_str());
                (front, rest)
            },
            None => {
                proof {
                    lemma_fence_missing(md@, cs@, start as int);
                }
                let all = string_from_chars(&cs, 0, n);
                assert(all@ =~= md@);
                (None, all)
            },
        }
    } else {
        let all = string_from_chars(&cs, 0, n);
        assert(all@ =~= md@);
        (None, all)
    }
}

/// Parses a Markdown text (with optional YAML front matter) into a document whose
/// sections nest by heading level.
pub fn markdown_to_document(md: &str) -> (r: Result<Document, DocError>)
    ensures
        r is Ok,
        r matches Ok(doc) ==> {
            &&& sections_view(doc.sections@) == built_sections(spec_markdown_events_ext(markdown_body(md@)))
            &&& subs_nested(sections_view(doc.sections@), 0)
            &&& subs_paired(sections_view(doc.sections@))
            &&& secs_titles(sections_view(doc.sections@)) == source_headings(
                spec_markdown_events_ext(markdown_body(md@)),
            )
            &&& match front_matter_map(md@) {
                Some(fm) => doc.front_matter matches Some(m) && m@ == fm,
                None => doc.front_matter is None,
            }
            &&& is_empty_metadata(doc.metadata)
            &&& is_empty_style(doc.style)
            &&& doc.attachments@.len() == 0
            &&& doc.signatures@.len() == 0
            &&& doc.footnotes@.len() == 0
        },
{
    let (front, body) = split_front_matter(md);
    let events = markdown_events_ext(body.as_str());
    proof {
        lemma_well_nested_lists_closed(events@);
        lemma_sections_nest_by_level(events@);
        lemma_headings_paired(events@);
        lemma_headings_in_order(events@);
    }
    Ok(document_from_events(front, &events))
}

} // verus!
