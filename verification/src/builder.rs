//! The document builder: runs the Markdown event stream into sections.

use vstd::prelude::*;
use std::collections::HashMap;
use crate::events::{heading_level_to_u8, MdEvent, MdTag, MdTagEnd};
use crate::markdown::{
    attach, built_sections, close_heading, collapse, flush, initial_state, lists_closed_properly,
    push_body, state_after, step, step_end, step_start, unwind, BuildState,
};
use crate::schema::{
    clone_opt_string, elems_view, is_empty_metadata, is_empty_style, lemma_elems_view_len,
    lemma_elems_view_push, lemma_rows_view_push, lemma_sections_view_index, lemma_sections_view_len,
    lemma_sections_view_push, opt_str, rows_view, section_view, sections_view, BodyElement, Document,
    InlineStyle, Section,
};
use crate::text::{take_string, take_vec};

verus! {

pub open spec fn lists_view(s: Seq<(bool, Vec<Vec<BodyElement>>)>) -> Seq<(bool, Seq<Seq<crate::schema::Elem>>)> {
    s.map_values(|p: (bool, Vec<Vec<BodyElement>>)| (p.0, rows_view(p.1@)))
}

struct Builder {
    stack: Vec<Section>,
    para: Vec<BodyElement>,
    lists: Vec<(bool, Vec<Vec<BodyElement>>)>,
    style: InlineStyle,
    pending: Option<u8>,
    heading: String,
    in_code: bool,
    code_lang: Option<String>,
    code: String,
}

proof fn lemma_sections_view_pop(s: Seq<Section>)
    requires
        s.len() > 0,
    ensures
        sections_view(s) == sections_view(s.drop_last()).push(section_view(s.last())),
        sections_view(s).last() == section_view(s.last()),
        sections_view(s).drop_last() == sections_view(s.drop_last()),
{
    assert(s.drop_last() == s.subrange(0, s.len() - 1));
    assert(sections_view(s).drop_last() =~= sections_view(s.drop_last()));
}

impl Builder {
    spec fn state(&self) -> BuildState {
        BuildState {
            stack: sections_view(self.stack@),
            para: elems_view(self.para@),
            lists: lists_view(self.lists@),
            style: self.style@,
            pending: self.pending,
            heading: self.heading@,
            in_code: self.in_code,
            code_lang: opt_str(self.code_lang),
            code: self.code@,
        }
    }

    fn new() -> (b: Builder)
        ensures
            b.state() == initial_state(),
    {
        let mut stack: Vec<Section> = Vec::new();
        let root = Section { level: 0, heading: String::new(), body: Vec::new(), subsections: Vec::new() };
        proof {
            lemma_sections_view_push(stack@, root);
        }
        stack.push(root);
        let b = Builder {
            stack,
            para: Vec::new(),
            lists: Vec::new(),
            style: InlineStyle::default(),
            pending: None,
            heading: String::new(),
            in_code: false,
            code_lang: None,
            code: String::new(),
        };
        assert(b.state().lists =~= initial_state().lists);
        assert(b.state().stack =~= initial_state().stack);
        b
    }

    fn push_body(&mut self, e: BodyElement)
        ensures
            final(self).state() == (BuildState { stack: push_body(old(self).state().stack, e@), ..old(self).state() }),
    {
        let ghost old_stack = self.stack@;
        match self.stack.pop() {
            Some(mut top) => {
                proof {
                    lemma_sections_view_pop(old_stack);
                    lemma_elems_view_push(top.body@, e);
                }
                top.body.push(e);
                proof {
                    lemma_sections_view_push(self.stack@, top);
                }
                self.stack.push(top);
            },
            None => {},
        }
    }

    fn attach(&mut self, child: Section)
        ensures
            final(self).state() == (BuildState { stack: attach(old(self).state().stack, section_view(child)), ..old(self).state() }),
    {
        let ghost old_stack = self.stack@;
        match self.stack.pop() {
            Some(mut top) => {
                proof {
                    lemma_sections_view_pop(old_stack);
                    lemma_sections_view_push(top.subsections@, child);
                }
                top.subsections.push(child);
                proof {
                    lemma_sections_view_push(self.stack@, top);
                }
                self.stack.push(top);
            },
            None => {},
        }
    }

    fn flush(&mut self)
        ensures
            final(self).state() == (BuildState {
                stack: flush(old(self).state().stack, old(self).state().para),
                para: Seq::empty(),
                ..old(self).state()
            }),
    {
        proof {
            lemma_elems_view_len(self.para@);
        }
        if self.para.len() > 0 {
            let p = take_vec(&mut self.para);
            self.push_body(BodyElement::Paragraph(p));
        }
        assert(elems_view(self.para@) =~= Seq::empty());
    }

    fn top_level_at_least(&self, lvl: u8) -> (r: bool)
        ensures
            r == (self.state().stack.len() > 0 && self.state().stack.last().level >= lvl),
    {
        proof {
            lemma_sections_view_len(self.stack@);
        }
        let n = self.stack.len();
        if n == 0 {
            false
        } else {
            proof {
                lemma_sections_view_index(self.stack@, n - 1);
            }
            self.stack[n - 1].level >= lvl
        }
    }

    fn unwind(&mut self, lvl: u8)
        ensures
            final(self).state() == (BuildState { stack: unwind(old(self).state().stack, lvl), ..old(self).state() }),
    {
        let ghost start = self.state();
        while self.top_level_at_least(lvl)
            invariant
                unwind(self.state().stack, lvl) == unwind(start.stack, lvl),
                self.state() == (BuildState { stack: self.state().stack, ..start }),
            decreases self.state().stack.len(),
        {
            let ghost before = self.stack@;
            proof {
                lemma_sections_view_len(before);
            }
            let child = self.stack.pop().unwrap();
            proof {
                lemma_sections_view_pop(before);
            }
            self.attach(child);
        }
    }

    fn close_heading(&mut self)
        ensures
            final(self).state() == close_heading(old(self).state()),
    {
        let lvl: u8 = match self.pending {
            Some(l) => l,
            None => 1,
        };
        self.pending = None;
        let sec = Section { level: lvl, heading: self.heading.clone(), body: Vec::new(), subsections: Vec::new() };
        self.unwind(lvl);
        self.attach(sec);
        let work = Section { level: lvl, heading: String::new(), body: Vec::new(), subsections: Vec::new() };
        proof {
            lemma_sections_view_push(self.stack@, work);
        }
        self.stack.push(work);
        assert(elems_view(Seq::<BodyElement>::empty()) =~= Seq::empty());
        assert(sections_view(Seq::<Section>::empty()) =~= Seq::empty());
    }

    fn apply_start(&mut self, tag: &MdTag)
        ensures
            final(self).state() == step_start(old(self).state(), *tag),
    {
        match tag {
            MdTag::Heading(level) => {
                self.flush();
                self.pending = Some(heading_level_to_u8(*level));
                self.heading = String::new();
            },
            MdTag::Emphasis => {
                self.style.italic = true;
            },
            MdTag::Strong => {
                self.style.bold = true;
            },
            MdTag::Strikethrough => {
                self.style.strike = true;
            },
            MdTag::CodeBlock(lang) => {
                self.in_code = true;
                self.code_lang = clone_opt_string(lang);
                self.code = String::new();
            },
            MdTag::List(start) => {
                let ghost old_lists = self.lists@;
                self.lists.push((start.is_some(), Vec::new()));
                proof {
                    assert(rows_view(Seq::<Vec<BodyElement>>::empty()) =~= Seq::empty());
                    assert(lists_view(self.lists@) =~= lists_view(old_lists).push((start is Some, Seq::empty())));
                }
            },
            MdTag::Item => {
                self.para = Vec::new();
                assert(elems_view(self.para@) =~= Seq::empty());
            },
            MdTag::Link(url) => {
                self.style.href = Some(url.clone());
            },
            MdTag::Image { url, title } => {
                let alt = if title.as_str().is_empty() {
                    None
                } else {
                    Some(title.clone())
                };
                let img = BodyElement::Image { src: url.clone(), alt, caption: None };
                proof {
                    lemma_elems_view_push(self.para@, img);
                }
                self.para.push(img);
            },
            _ => {},
        }
    }

    fn apply_end(&mut self, tag: &MdTagEnd)
        ensures
            final(self).state() == step_end(old(self).state(), *tag),
    {
        match tag {
            MdTagEnd::Heading => {
                self.close_heading();
            },
            MdTagEnd::Paragraph => {
                self.flush();
            },
            MdTagEnd::Emphasis => {
                self.style.italic = false;
            },
            MdTagEnd::Strong => {
                self.style.bold = false;
            },
            MdTagEnd::Strikethrough => {
                self.style.strike = false;
            },
            MdTagEnd::List => {
                let ghost old_lists = self.lists@;
                match self.lists.pop() {
                    Some(pair) => {
                        let (ordered, items) = pair;
                        proof {
                            assert(lists_view(self.lists@) =~= lists_view(old_lists).drop_last());
                            assert(lists_view(old_lists).last() == (ordered, rows_view(items@)));
                        }
                        self.push_body(BodyElement::List { ordered, items });
                    },
                    None => {},
                }
            },
            MdTagEnd::Item => {
                if self.lists.len() > 0 {
                    let ghost old_lists = self.lists@;
                    let ghost old_para = self.para@;
                    proof {
                        lemma_elems_view_len(self.para@);
                    }
                    let item: Vec<BodyElement> = if self.para.len() == 0 {
                        Vec::new()
                    } else {
                        let p = take_vec(&mut self.para);
                        let mut v: Vec<BodyElement> = Vec::new();
                        let e = BodyElement::Paragraph(p);
                        proof {
                            lemma_elems_view_push(v@, e);
                        }
                        v.push(e);
                        v
                    };
                    assert(elems_view(item@) =~= crate::markdown::finished_item(elems_view(old_para)));
                    let pair = self.lists.pop().unwrap();
                    let (ordered, mut items) = pair;
                    proof {
                        assert(lists_view(old_lists).last() == (ordered, rows_view(items@)));
                        lemma_rows_view_push(items@, item);
                    }
                    items.push(item);
                    self.lists.push((ordered, items));
                    proof {
                        assert(lists_view(self.lists@) =~= lists_view(old_lists).drop_last().push(
                            (ordered, rows_view(items@)),
                        ));
                    }
                    assert(elems_view(self.para@) =~= Seq::empty());
                }
            },
            MdTagEnd::Link => {
                self.style.href = None;
            },
            MdTagEnd::CodeBlock => {
                self.in_code = false;
                let lang = self.code_lang.take();
                let code = take_string(&mut self.code);
                assert(self.code@ =~= Seq::<char>::empty());
                self.push_body(BodyElement::CodeBlock { lang, code });
            },
            _ => {},
        }
    }

    fn apply(&mut self, ev: &MdEvent)
        ensures
            final(self).state() == step(old(self).state(), *ev),
    {
        match ev {
            MdEvent::Start(tag) => self.apply_start(tag),
            MdEvent::End(tag) => self.apply_end(tag),
            MdEvent::Text(t) => {
                if self.in_code {
                    self.code.append(t.as_str());
                } else if self.pending.is_some() {
                    self.heading.append(t.as_str());
                } else {
                    let e = BodyElement::TextSpan { text: t.clone(), style: self.style.duplicate() };
                    proof {
                        lemma_elems_view_push(self.para@, e);
                    }
                    self.para.push(e);
                }
            },
            MdEvent::Code(t) => {
                if self.in_code {
                    self.code.append(t.as_str());
                } else {
                    let mut style = self.style.duplicate();
                    style.code = true;
                    let e = BodyElement::TextSpan { text: t.clone(), style };
                    proof {
                        lemma_elems_view_push(self.para@, e);
                    }
                    self.para.push(e);
                }
            },
            MdEvent::SoftBreak | MdEvent::HardBreak => {
                if self.in_code {
                    self.code.push('\n');
                } else {
                    let mut text = String::new();
                    text.push('\n');
                    assert(text@ =~= seq!['\n']);
                    let e = BodyElement::TextSpan { text, style: self.style.duplicate() };
                    proof {
                        lemma_elems_view_push(self.para@, e);
                    }
                    self.para.push(e);
                }
            },
            MdEvent::FootnoteReference(name) => {
                let e = BodyElement::FootnoteRef(name.clone());
                proof {
                    lemma_elems_view_push(self.para@, e);
                }
                self.para.push(e);
            },
            MdEvent::Other => {},
        }
    }

    fn finish(self) -> (sections: Vec<Section>)
        ensures
            sections_view(sections@) == collapse(flush(self.state().stack, self.state().para)),
    {
        let ghost orig = self.state();
        let mut b = self;
        b.flush();
        let ghost start = b.state().stack;
        while b.stack.len() > 0
            invariant
                collapse(b.state().stack) == collapse(start),
                start == flush(orig.stack, orig.para),
                orig == self.state(),
            decreases b.stack@.len(),
        {
            let ghost before = b.stack@;
            proof {
                lemma_sections_view_len(before);
                lemma_sections_view_pop(before);
            }
            let s = b.stack.pop().unwrap();
            if s.level == 0 {
                assert(collapse(sections_view(before)) == section_view(s).subsections);
                return s.subsections;
            }
            b.attach(s);
            proof {
                lemma_sections_view_len(b.stack@);
            }
        }
        proof {
            lemma_sections_view_len(b.stack@);
        }
        assert(sections_view(Seq::<Section>::empty()) =~= Seq::empty());
        Vec::new()
    }
}

/// Builds a document from a Markdown event stream: front matter as given, sections
/// as the events describe them, everything else empty.
pub fn document_from_events(
    front: Option<HashMap<String, serde_json::Value>>,
    events: &Vec<MdEvent>,
) -> (doc: Document)
    requires
        lists_closed_properly(events@),
    ensures
        sections_view(doc.sections@) == built_sections(events@),
        doc.front_matter == front,
        is_empty_metadata(doc.metadata),
        is_empty_style(doc.style),
        doc.attachments@.len() == 0,
        doc.signatures@.len() == 0,
        doc.footnotes@.len() == 0,
{
    let mut b = Builder::new();
    for i in 0..events.len()
        invariant
            b.state() == state_after(events@.take(i as int)),
    {
        assert(events@.take(i + 1).drop_last() =~= events@.take(i as int));
        b.apply(&events[i]);
    }
    assert(events@.take(events.len() as int) =~= events@);
    let sections = b.finish();
    let mut doc = Document::default();
    doc.front_matter = front;
    doc.sections = sections;
    doc
}

} // verus!