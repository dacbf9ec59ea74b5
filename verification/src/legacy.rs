//! The flat document model of the crate root: from Markdown, and to DOCX and PDF plans.
//!
//! A Markdown text becomes one section per heading (its text taken from the
//! heading's first text span); list items hold plain text spans, and a paragraph
//! that reads `[[PAGEBREAK]]` is a page break.

use vstd::prelude::*;
use crate::events::{markdown_events, spec_markdown_events, MdEvent, MdTag, MdTagEnd};
use crate::markdown::{emphasis_in_force, strong_in_force};
use crate::schema::opt_str;
use crate::text::{chars_of, trim, trimmed_bounds};
use crate::{BodyElement, Document, ListElement, PageBreak, Section, TextSpan};

verus! {

/// The view of a [`TextSpan`].
pub struct SpanV {
    pub text: Seq<char>,
    pub bold: bool,
    pub italic: bool,
    pub underline: bool,
    pub font: Option<Seq<char>>,
    pub href: Option<Seq<char>>,
}

/// The view of a flat [`BodyElement`].
pub enum FlatElem {
    TextSpan(SpanV),
    PageBreak,
    List { ordered: bool, items: Seq<Seq<FlatElem>> },
}

/// The view of a flat [`Section`].
pub struct FlatSec {
    pub heading: Option<Seq<char>>,
    pub body: Seq<FlatElem>,
    pub subsections: Seq<FlatSec>,
}

impl View for TextSpan {
    type V = SpanV;

    open spec fn view(&self) -> SpanV {
        SpanV {
            text: self.text@,
            bold: self.bold,
            italic: self.italic,
            underline: self.underline,
            font: opt_str(self.font),
            href: opt_str(self.href),
        }
    }
}

pub open spec fn flat_elem_view(e: BodyElement) -> FlatElem
    decreases e,
{
    match e {
        BodyElement::TextSpan(t) => FlatElem::TextSpan(t@),
        BodyElement::PageBreak(_) => FlatElem::PageBreak,
        BodyElement::List(l) => FlatElem::List { ordered: l.ordered, items: flat_items_view(l.items@) },
    }
}

pub open spec fn flat_elems_view(s: Seq<BodyElement>) -> Seq<FlatElem>
    decreases s,
{
    if s.len() == 0 {
        Seq::empty()
    } else {
        flat_elems_view(s.subrange(0, s.len() - 1)).push(flat_elem_view(s[s.len() - 1]))
    }
}

pub open spec fn flat_items_view(s: Seq<Vec<BodyElement>>) -> Seq<Seq<FlatElem>>
    decreases s,
{
    if s.len() == 0 {
        Seq::empty()
    } else {
        flat_items_view(s.subrange(0, s.len() - 1)).push(flat_elems_view(s[s.len() - 1]@))
    }
}

pub open spec fn flat_sec_view(s: Section) -> FlatSec
    decreases s,
{
    FlatSec { heading: opt_str(s.heading), body: flat_elems_view(s.body@), subsections: flat_secs_view(s.subsections@) }
}

pub open spec fn flat_secs_view(s: Seq<Section>) -> Seq<FlatSec>
    decreases s,
{
    if s.len() == 0 {
        Seq::empty()
    } else {
        flat_secs_view(s.subrange(0, s.len() - 1)).push(flat_sec_view(s[s.len() - 1]))
    }
}

pub proof fn lemma_flat_elems_push(s: Seq<BodyElement>, x: BodyElement)
    ensures
        flat_elems_view(s.push(x)) == flat_elems_view(s).push(flat_elem_view(x)),
{
    assert(s.push(x).subrange(0, s.len() as int) =~= s);
}

pub proof fn lemma_flat_items_push(s: Seq<Vec<BodyElement>>, x: Vec<BodyElement>)
    ensures
        flat_items_view(s.push(x)) == flat_items_view(s).push(flat_elems_view(x@)),
{
    assert(s.push(x).subrange(0, s.len() as int) =~= s);
}

pub proof fn lemma_flat_secs_push(s: Seq<Section>, x: Section)
    ensures
        flat_secs_view(s.push(x)) == flat_secs_view(s).push(flat_sec_view(x)),
{
    assert(s.push(x).subrange(0, s.len() as int) =~= s);
}

pub proof fn lemma_flat_elems_len(s: Seq<BodyElement>)
    ensures
        flat_elems_view(s).len() == s.len(),
    decreases s.len(),
{
    if s.len() > 0 {
        lemma_flat_elems_len(s.subrange(0, s.len() - 1));
    }
}

pub proof fn lemma_flat_elems_index(s: Seq<BodyElement>, i: int)
    requires
        0 <= i < s.len(),
    ensures
        flat_elems_view(s)[i] == flat_elem_view(s[i]),
        flat_elems_view(s).len() == s.len(),
    decreases s.len(),
{
    lemma_flat_elems_len(s);
    if i < s.len() - 1 {
        lemma_flat_elems_index(s.subrange(0, s.len() - 1), i);
    }
}

pub proof fn lemma_flat_items_len(s: Seq<Vec<BodyElement>>)
    ensures
        flat_items_view(s).len() == s.len(),
    decreases s.len(),
{
    if s.len() > 0 {
        lemma_flat_items_len(s.subrange(0, s.len() - 1));
    }
}

pub proof fn lemma_flat_items_index(s: Seq<Vec<BodyElement>>, i: int)
    requires
        0 <= i < s.len(),
    ensures
        flat_items_view(s)[i] == flat_elems_view(s[i]@),
        flat_items_view(s).len() == s.len(),
    decreases s.len(),
{
    lemma_flat_items_len(s);
    if i < s.len() - 1 {
        lemma_flat_items_index(s.subrange(0, s.len() - 1), i);
    }
}

pub proof fn lemma_flat_secs_len(s: Seq<Section>)
    ensures
        flat_secs_view(s).len() == s.len(),
    decreases s.len(),
{
    if s.len() > 0 {
        lemma_flat_secs_len(s.subrange(0, s.len() - 1));
    }
}

pub proof fn lemma_flat_secs_index(s: Seq<Section>, i: int)
    requires
        0 <= i < s.len(),
    ensures
        flat_secs_view(s)[i] == flat_sec_view(s[i]),
        flat_secs_view(s).len() == s.len(),
    decreases s.len(),
{
    lemma_flat_secs_len(s);
    if i < s.len() - 1 {
        lemma_flat_secs_index(s.subrange(0, s.len() - 1), i);
    }
}


/// A text span with no style.
pub open spec fn plain_span(t: Seq<char>) -> SpanV {
    SpanV { text: t, bold: false, italic: false, underline: false, font: None, href: None }
}

/// Where the flat builder stands: the closed sections, the section opened by the
/// last heading, the body collected since, the list being collected, the style.
pub struct FlatState {
    pub sections: Seq<FlatSec>,
    pub current: Option<FlatSec>,
    pub body: Seq<FlatElem>,
    pub in_list: bool,
    pub items: Seq<Seq<FlatElem>>,
    pub ordered: bool,
    pub bold: bool,
    pub italic: bool,
}

pub open spec fn flat_initial() -> FlatState {
    FlatState {
        sections: Seq::empty(),
        current: None,
        body: Seq::empty(),
        in_list: false,
        items: Seq::empty(),
        ordered: false,
        bold: false,
        italic: false,
    }
}

/// The text of the first text span among `body`.
pub open spec fn first_text(body: Seq<FlatElem>) -> Option<Seq<char>>
    decreases body.len(),
{
    if body.len() == 0 {
        None
    } else {
        match body[0] {
            FlatElem::TextSpan(t) => Some(t.text),
            _ => first_text(body.drop_first()),
        }
    }
}

pub open spec fn close_current(st: FlatState) -> Seq<FlatSec> {
    match st.current {
        Some(s) => st.sections.push(s),
        None => st.sections,
    }
}

/// What one event does to the flat builder. A list starts only when unnumbered or
/// numbered from 1.
pub open spec fn flat_step(st: FlatState, ev: MdEvent) -> FlatState {
    match ev {
        MdEvent::Start(MdTag::Heading(_)) => FlatState {
            sections: close_current(st),
            current: None,
            body: Seq::empty(),
            ..st
        },
        MdEvent::End(MdTagEnd::Heading) => match first_text(st.body) {
            Some(t) => FlatState {
                current: Some(FlatSec { heading: Some(t), body: Seq::empty(), subsections: Seq::empty() }),
                body: Seq::empty(),
                ..st
            },
            None => FlatState { body: Seq::empty(), ..st },
        },
        MdEvent::Start(MdTag::List(start)) => if start == Some(1u64) {
            FlatState { in_list: true, ordered: true, items: Seq::empty(), ..st }
        } else if start is None {
            FlatState { in_list: true, ordered: false, items: Seq::empty(), ..st }
        } else {
            st
        },
        MdEvent::End(MdTagEnd::List) => FlatState {
            body: st.body.push(FlatElem::List { ordered: st.ordered, items: st.items }),
            in_list: false,
            ..st
        },
        MdEvent::Start(MdTag::Item) => FlatState { items: st.items.push(Seq::empty()), ..st },
        MdEvent::Text(t) => if st.in_list {
            if st.items.len() > 0 {
                FlatState {
                    items: st.items.drop_last().push(st.items.last().push(FlatElem::TextSpan(plain_span(t@)))),
                    ..st
                }
            } else {
                st
            }
        } else if trim(t@) == "[[PAGEBREAK]]"@ {
            FlatState { body: st.body.push(FlatElem::PageBreak), ..st }
        } else {
            FlatState {
                body: st.body.push(FlatElem::TextSpan(SpanV { bold: st.bold, italic: st.italic, ..plain_span(t@) })),
                ..st
            }
        },
        MdEvent::Start(MdTag::Emphasis) => FlatState { italic: true, ..st },
        MdEvent::End(MdTagEnd::Emphasis) => FlatState { italic: false, ..st },
        MdEvent::Start(MdTag::Strong) => FlatState { bold: true, ..st },
        MdEvent::End(MdTagEnd::Strong) => FlatState { bold: false, ..st },
        MdEvent::SoftBreak | MdEvent::HardBreak => FlatState {
            body: st.body.push(FlatElem::TextSpan(plain_span(seq!['\n']))),
            ..st
        },
        _ => st,
    }
}

pub open spec fn flat_state_after(events: Seq<MdEvent>) -> FlatState
    decreases events.len(),
{
    if events.len() == 0 {
        flat_initial()
    } else {
        flat_step(flat_state_after(events.drop_last()), events.last())
    }
}

proof fn lemma_flat_emphasis_tracks(events: Seq<MdEvent>)
    ensures
        flat_state_after(events).bold == strong_in_force(events),
        flat_state_after(events).italic == emphasis_in_force(events),
        (forall|i: int| 0 <= i < events.len() ==> !(#[trigger] events[i] matches MdEvent::Start(MdTag::List(_))))
            ==> !flat_state_after(events).in_list,
    decreases events.len(),
{
    if events.len() > 0 {
        let p = events.drop_last();
        lemma_flat_emphasis_tracks(p);
        if forall|i: int| 0 <= i < events.len() ==> !(#[trigger] events[i] matches MdEvent::Start(MdTag::List(_))) {
            assert forall|i: int| 0 <= i < p.len() implies !(#[trigger] p[i] matches MdEvent::Start(MdTag::List(_))) by {
                assert(p[i] == events[i]);
            }
            assert(!(events[events.len() - 1] matches MdEvent::Start(MdTag::List(_))));
        }
    }
}

/// Outside lists, text that is not the page-break marker becomes a text span of the
/// body, bold exactly when strong emphasis is in force and italic exactly when emphasis
/// is, and otherwise unstyled.
pub proof fn lemma_flat_text_spans_carry_emphasis(events: Seq<MdEvent>, t: String)
    requires
        forall|i: int| 0 <= i < events.len() ==> !(#[trigger] events[i] matches MdEvent::Start(MdTag::List(_))),
        trim(t@) != "[[PAGEBREAK]]"@,
    ensures
        flat_state_after(events.push(MdEvent::Text(t))).body.last() == FlatElem::TextSpan(
            SpanV {
                text: t@,
                bold: strong_in_force(events),
                italic: emphasis_in_force(events),
                underline: false,
                font: None,
                href: None,
            },
        ),
{
    let evs = events.push(MdEvent::Text(t));
    assert(evs.drop_last() =~= events);
    lemma_flat_emphasis_tracks(events);
}

/// The sections that the events give: one per heading that has text; when there is
/// none, a single untitled section with everything collected, if anything was.
pub open spec fn flat_sections(events: Seq<MdEvent>) -> Seq<FlatSec> {
    let st = flat_state_after(events);
    let secs = close_current(st);
    if secs.len() == 0 && st.body.len() > 0 {
        seq![FlatSec { heading: None, body: st.body, subsections: Seq::empty() }]
    } else {
        secs
    }
}

/// A section opened by a heading: titled, with nothing in it.
pub open spec fn titled_and_empty(s: FlatSec) -> bool {
    s.heading is Some && s.body.len() == 0 && s.subsections.len() == 0
}

pub open spec fn flat_state_shaped(st: FlatState) -> bool {
    &&& forall|i: int| 0 <= i < st.sections.len() ==> titled_and_empty(#[trigger] st.sections[i])
    &&& st.current matches Some(c) ==> titled_and_empty(c)
}

proof fn lemma_flat_step_shaped(st: FlatState, ev: MdEvent)
    requires
        flat_state_shaped(st),
    ensures
        flat_state_shaped(flat_step(st, ev)),
{
    let secs = close_current(st);
    assert forall|i: int| 0 <= i < secs.len() implies titled_and_empty(#[trigger] secs[i]) by {
        if i < st.sections.len() {
            assert(secs[i] == st.sections[i]);
        }
    }
}

proof fn lemma_flat_state_after_shaped(events: Seq<MdEvent>)
    ensures
        flat_state_shaped(flat_state_after(events)),
    decreases events.len(),
{
    if events.len() > 0 {
        lemma_flat_state_after_shaped(events.drop_last());
        lemma_flat_step_shaped(flat_state_after(events.drop_last()), events.last());
    }
}

/// The flat parser gives one titled, empty section per heading that has text; when
/// it gives an untitled section, that section is the only one, and no section has
/// subsections.
pub proof fn lemma_flat_sections_shape(events: Seq<MdEvent>)
    ensures
        forall|i: int| 0 <= i < flat_sections(events).len() ==> {
            let s = #[trigger] flat_sections(events)[i];
            titled_and_empty(s) || (flat_sections(events).len() == 1 && s.heading is None && s.subsections.len() == 0)
        },
{
    lemma_flat_state_after_shaped(events);
    let st = flat_state_after(events);
    let secs = close_current(st);
    assert forall|i: int| 0 <= i < secs.len() implies titled_and_empty(#[trigger] secs[i]) by {
        if i < st.sections.len() {
            assert(secs[i] == st.sections[i]);
        }
    }
}

/// Whether a text, trimmed of white space, is the page-break marker `[[PAGEBREAK]]`.
pub fn is_pagebreak_marker(t: &str) -> (r: bool)
    ensures
        r == (trim(t@) == "[[PAGEBREAK]]"@),
{
    let cs = chars_of(t);
    let marker = chars_of("[[PAGEBREAK]]");
    let (lo, hi) = trimmed_bounds(&cs);
    if hi - lo != marker.len() {
        return false;
    }
    let mut k: usize = 0;
    while k < marker.len()
        invariant
            0 <= k <= marker@.len(),
            hi - lo == marker@.len(),
            lo <= hi <= cs@.len(),
            marker@ == "[[PAGEBREAK]]"@,
            cs@.subrange(lo as int, hi as int) == trim(t@),
            forall|j: int| 0 <= j < k ==> cs@[lo + j] == marker@[j],
        decreases marker@.len() - k,
    {
        if cs[lo + k] != marker[k] {
            assert(cs@.subrange(lo as int, hi as int)[k as int] != marker@[k as int]);
            return false;
        }
        k = k + 1;
    }
    assert(cs@.subrange(lo as int, hi as int) =~= marker@);
    true
}

/// A copy of a text span.
pub fn copy_span(t: &TextSpan) -> (r: TextSpan)
    ensures
        r@ == t@,
{
    TextSpan {
        text: t.text.clone(),
        bold: t.bold,
        italic: t.italic,
        underline: t.underline,
        font: crate::schema::clone_opt_string(&t.font),
        href: crate::schema::clone_opt_string(&t.href),
    }
}

/// A copy of a body element.
pub fn copy_elem(e: &BodyElement) -> (r: BodyElement)
    ensures
        flat_elem_view(r) == flat_elem_view(*e),
    decreases *e,
{
    match e {
        BodyElement::TextSpan(t) => BodyElement::TextSpan(copy_span(t)),
        BodyElement::PageBreak(_) => BodyElement::PageBreak(PageBreak {}),
        BodyElement::List(l) => BodyElement::List(ListElement { ordered: l.ordered, items: copy_items(&l.items) }),
    }
}

/// A copy of a sequence of body elements.
pub fn copy_elems(v: &Vec<BodyElement>) -> (r: Vec<BodyElement>)
    ensures
        flat_elems_view(r@) == flat_elems_view(v@),
    decreases *v,
{
    let mut out: Vec<BodyElement> = Vec::new();
    let mut i: usize = 0;
    while i < v.len()
        invariant
            0 <= i <= v@.len(),
            flat_elems_view(out@) == flat_elems_view(v@.take(i as int)),
        decreases v@.len() - i,
    {
        let c = copy_elem(&v[i]);
        proof {
            lemma_flat_elems_push(out@, c);
            assert(v@.take(i + 1) =~= v@.take(i as int).push(v@[i as int]));
            lemma_flat_elems_push(v@.take(i as int), v@[i as int]);
        }
        out.push(c);
        i = i + 1;
    }
    assert(v@.take(v@.len() as int) =~= v@);
    out
}

/// A copy of the items of a list.
pub fn copy_items(v: &Vec<Vec<BodyElement>>) -> (r: Vec<Vec<BodyElement>>)
    ensures
        flat_items_view(r@) == flat_items_view(v@),
    decreases *v,
{
    let mut out: Vec<Vec<BodyElement>> = Vec::new();
    let mut i: usize = 0;
    while i < v.len()
        invariant
            0 <= i <= v@.len(),
            flat_items_view(out@) == flat_items_view(v@.take(i as int)),
        decreases v@.len() - i,
    {
        let c = copy_elems(&v[i]);
        proof {
            lemma_flat_items_push(out@, c);
            assert(v@.take(i + 1) =~= v@.take(i as int).push(v@[i as int]));
            lemma_flat_items_push(v@.take(i as int), v@[i as int]);
        }
        out.push(c);
        i = i + 1;
    }
    assert(v@.take(v@.len() as int) =~= v@);
    out
}

/// A copy of a section and everything under it.
pub fn copy_section(s: &Section) -> (r: Section)
    ensures
        flat_sec_view(r) == flat_sec_view(*s),
    decreases *s,
{
    Section {
        heading: crate::schema::clone_opt_string(&s.heading),
        body: copy_elems(&s.body),
        subsections: copy_sections(&s.subsections),
    }
}

/// A copy of a sequence of sections.
pub fn copy_sections(v: &Vec<Section>) -> (r: Vec<Section>)
    ensures
        flat_secs_view(r@) == flat_secs_view(v@),
    decreases *v,
{
    let mut out: Vec<Section> = Vec::new();
    let mut i: usize = 0;
    while i < v.len()
        invariant
            0 <= i <= v@.len(),
            flat_secs_view(out@) == flat_secs_view(v@.take(i as int)),
        decreases v@.len() - i,
    {
        let c = copy_section(&v[i]);
        proof {
            lemma_flat_secs_push(out@, c);
            assert(v@.take(i + 1) =~= v@.take(i as int).push(v@[i as int]));
            lemma_flat_secs_push(v@.take(i as int), v@[i as int]);
        }
        out.push(c);
        i = i + 1;
    }
    assert(v@.take(v@.len() as int) =~= v@);
    out
}

impl Clone for BodyElement {
    fn clone(&self) -> (r: BodyElement)
        ensures
            flat_elem_view(r) == flat_elem_view(*self),
    {
        copy_elem(self)
    }
}

impl Clone for ListElement {
    fn clone(&self) -> (r: ListElement)
        ensures
            r.ordered == self.ordered,
            flat_items_view(r.items@) == flat_items_view(self.items@),
    {
        ListElement { ordered: self.ordered, items: copy_items(&self.items) }
    }
}

impl Clone for Section {
    fn clone(&self) -> (r: Section)
        ensures
            flat_sec_view(r) == flat_sec_view(*self),
    {
        copy_section(self)
    }
}

struct FlatBuilder {
    sections: Vec<Section>,
    current: Option<Section>,
    body: Vec<BodyElement>,
    in_list: bool,
    items: Vec<Vec<BodyElement>>,
    ordered: bool,
    bold: bool,
    italic: bool,
}

pub open spec fn opt_sec_view(o: Option<Section>) -> Option<FlatSec> {
    match o {
        Some(s) => Some(flat_sec_view(s)),
        None => None,
    }
}

fn plain_text_span(text: String) -> (r: TextSpan)
    ensures
        r@ == plain_span(text@),
{
    TextSpan { text, bold: false, italic: false, underline: false, font: None, href: None }
}

fn empty_section(heading: Option<String>) -> (r: Section)
    ensures
        flat_sec_view(r) == (FlatSec { heading: opt_str(heading), body: Seq::empty(), subsections: Seq::empty() }),
{
    let r = Section { heading, body: Vec::new(), subsections: Vec::new() };
    assert(flat_elems_view(r.body@) =~= Seq::empty());
    assert(flat_secs_view(r.subsections@) =~= Seq::empty());
    r
}

impl FlatBuilder {
    spec fn state(&self) -> FlatState {
        FlatState {
            sections: flat_secs_view(self.sections@),
            current: opt_sec_view(self.current),
            body: flat_elems_view(self.body@),
            in_list: self.in_list,
            items: flat_items_view(self.items@),
            ordered: self.ordered,
            bold: self.bold,
            italic: self.italic,
        }
    }

    fn new() -> (b: FlatBuilder)
        ensures
            b.state() == flat_initial(),
    {
        let b = FlatBuilder {
            sections: Vec::new(),
            current: None,
            body: Vec::new(),
            in_list: false,
            items: Vec::new(),
            ordered: false,
            bold: false,
            italic: false,
        };
        assert(b.state().sections =~= flat_initial().sections);
        assert(b.state().body =~= flat_initial().body);
        assert(b.state().items =~= flat_initial().items);
        b
    }

    fn push_body(&mut self, e: BodyElement)
        ensures
            final(self).state() == (FlatState { body: old(self).state().body.push(flat_elem_view(e)), ..old(self).state() }),
    {
        proof {
            lemma_flat_elems_push(self.body@, e);
        }
        self.body.push(e);
    }

    fn close_current(&mut self)
        ensures
            final(self).state() == (FlatState { sections: close_current(old(self).state()), current: None, ..old(self).state() }),
    {
        match self.current.take() {
            Some(s) => {
                proof {
                    lemma_flat_secs_push(self.sections@, s);
                }
                self.sections.push(s);
            },
            None => {},
        }
    }

    fn first_text(&self) -> (r: Option<String>)
        ensures
            opt_str(r) == first_text(self.state().body),
    {
        proof {
            lemma_flat_elems_len(self.body@);
        }
        let ghost b = self.state().body;
        assert(b.skip(0) =~= b);
        let mut i: usize = 0;
        while i < self.body.len()
            invariant
                0 <= i <= self.body@.len(),
                b == flat_elems_view(self.body@),
                b.len() == self.body@.len(),
                first_text(b) == first_text(b.skip(i as int)),
            decreases self.body@.len() - i,
        {
            proof {
                lemma_flat_elems_index(self.body@, i as int);
                assert(b.skip(i as int)[0] == b[i as int]);
                assert(b.skip(i as int).drop_first() =~= b.skip(i + 1));
            }
            match &self.body[i] {
                BodyElement::TextSpan(t) => {
                    return Some(t.text.clone());
                },
                _ => {},
            }
            i = i + 1;
        }
        proof {
            assert(b.skip(i as int).len() == 0);
        }
        None
    }

    fn apply(&mut self, ev: &MdEvent)
        ensures
            final(self).state() == flat_step(old(self).state(), *ev),
    {
        match ev {
            MdEvent::Start(MdTag::Heading(_)) => {
                self.close_current();
                self.body = Vec::new();
                assert(flat_elems_view(self.body@) =~= Seq::empty());
            },
            MdEvent::End(MdTagEnd::Heading) => {
                match self.first_text() {
                    Some(t) => {
                        self.current = Some(empty_section(Some(t)));
                    },
                    None => {},
                }
                self.body = Vec::new();
                assert(flat_elems_view(self.body@) =~= Seq::empty());
            },
            MdEvent::Start(MdTag::List(start)) => {
                match start {
                    Some(n) => {
                        if *n == 1 {
                            self.in_list = true;
                            self.ordered = true;
                            self.items = Vec::new();
                            assert(flat_items_view(self.items@) =~= Seq::empty());
                        }
                    },
                    None => {
                        self.in_list = true;
                        self.ordered = false;
                        self.items = Vec::new();
                        assert(flat_items_view(self.items@) =~= Seq::empty());
                    },
                }
            },
            MdEvent::End(MdTagEnd::List) => {
                let items = copy_items(&self.items);
                let l = ListElement { ordered: self.ordered, items };
                self.push_body(BodyElement::List(l));
                self.in_list = false;
            },
            MdEvent::Start(MdTag::Item) => {
                let fresh: Vec<BodyElement> = Vec::new();
                proof {
                    lemma_flat_items_push(self.items@, fresh);
                    assert(flat_elems_view(fresh@) =~= Seq::empty());
                }
                self.items.push(fresh);
            },
            MdEvent::Text(t) => {
                if self.in_list {
                    let ghost old_items = self.items@;
                    match self.items.pop() {
                        Some(mut last) => {
                            proof {
                                assert(old_items.drop_last() == old_items.subrange(0, old_items.len() - 1));
                                lemma_flat_items_push(self.items@, last);
                                assert(self.items@.push(last) =~= old_items);
                                assert(flat_items_view(old_items).drop_last() =~= flat_items_view(self.items@));
                            }
                            let span = BodyElement::TextSpan(plain_text_span(t.clone()));
                            proof {
                                lemma_flat_elems_push(last@, span);
                            }
                            last.push(span);
                            proof {
                                lemma_flat_items_push(self.items@, last);
                            }
                            self.items.push(last);
                        },
                        None => {},
                    }
                } else if is_pagebreak_marker(t.as_str()) {
                    self.push_body(BodyElement::PageBreak(PageBreak {}));
                } else {
                    let span = TextSpan {
                        text: t.clone(),
                        bold: self.bold,
                        italic: self.italic,
                        underline: false,
                        font: None,
                        href: None,
                    };
                    self.push_body(BodyElement::TextSpan(span));
                }
            },
            MdEvent::Start(MdTag::Emphasis) => {
                self.italic = true;
            },
            MdEvent::End(MdTagEnd::Emphasis) => {
                self.italic = false;
            },
            MdEvent::Start(MdTag::Strong) => {
                self.bold = true;
            },
            MdEvent::End(MdTagEnd::Strong) => {
                self.bold = false;
            },
            MdEvent::SoftBreak | MdEvent::HardBreak => {
                let mut text = String::new();
                text.push('\n');
                assert(text@ =~= seq!['\n']);
                self.push_body(BodyElement::TextSpan(plain_text_span(text)));
            },
            _ => {},
        }
    }

    fn finish(self) -> (sections: Vec<Section>)
        ensures
            flat_secs_view(sections@) == ({
                let st = self.state();
                let secs = close_current(st);
                if secs.len() == 0 && st.body.len() > 0 {
                    seq![FlatSec { heading: None, body: st.body, subsections: Seq::empty() }]
                } else {
                    secs
                }
            }),
    {
        let mut b = self;
        b.close_current();
        proof {
            lemma_flat_secs_len(b.sections@);
            lemma_flat_elems_len(b.body@);
        }
        if b.sections.len() == 0 && b.body.len() > 0 {
            let sec = Section { heading: None, body: b.body, subsections: Vec::new() };
            let mut out: Vec<Section> = Vec::new();
            proof {
                lemma_flat_secs_push(out@, sec);
                assert(flat_secs_view(sec.subsections@) =~= Seq::empty());
                assert(flat_secs_view(out@) =~= Seq::empty());
            }
            out.push(sec);
            out
        } else {
            b.sections
        }
    }
}

/// Parses Markdown (CommonMark, no extensions) into a flat document with the given title.
pub fn markdown_to_document(md: &str, title: &str) -> (doc: Document)
    ensures
        flat_secs_view(doc.sections@) == flat_sections(spec_markdown_events(md@)),
        doc.doc_type@ == "testdoc"@,
        doc.title@ == title@,
        doc.date is None && doc.author is None && doc.from_ is None && doc.to is None && doc.subject is None,
        doc.attachments is None && doc.signatures is None && doc.footnotes is None && doc.metadata is None,
{
    let events = markdown_events(md);
    let mut b = FlatBuilder::new();
    for i in 0..events.len()
        invariant
            b.state() == flat_state_after(events@.take(i as int)),
    {
        assert(events@.take(i + 1).drop_last() =~= events@.take(i as int));
        b.apply(&events[i]);
    }
    assert(events@.take(events.len() as int) =~= events@);
    let sections = b.finish();
    Document {
        doc_type: String::from_str("testdoc"),
        title: String::from_str(title),
        date: None,
        author: None,
        from_: None,
        to: None,
        subject: None,
        sections,
        attachments: None,
        signatures: None,
        footnotes: None,
        metadata: None,
    }
}

} // verus!