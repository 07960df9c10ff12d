//! The element types: a closed set of document node kinds, each
//! owning its text and its children, with the spec-level model of
//! every value.

use vstd::prelude::*;
use vstd::slice::slice_to_vec;
use vstd::string::StringSliceAdditionalSpecFns;
use crate::model::ElemModel;

verus! {

/// One text fragment with independently togglable bold, italic and
/// code styling.
pub struct RichText {
    pub bold: bool,
    pub italic: bool,
    pub code: bool,
    pub text: Vec<u8>,
}

/// A paragraph: a run of inline children followed by a blank line.
pub struct Paragraph {
    pub children: Vec<Element>,
}

/// A heading of level 1 to 6 over a run of inline children.
pub struct Heading {
    pub children: Vec<Element>,
    pub level: usize,
}

/// A link: inline children as the visible text, plus a target address.
pub struct Link {
    pub children: Vec<Element>,
    pub address: Vec<u8>,
}

/// Any document element. The set of kinds is closed, so children are
/// stored as an ordered sequence of this type itself and serialization
/// dispatches on the variant.
pub enum Element {
    /// A plain text leaf.
    Text(Vec<u8>),
    /// A styled text span.
    Rich(RichText),
    /// A link.
    Link(Link),
    /// A heading; well formed only at the top level.
    Heading(Heading),
    /// A paragraph; well formed only at the top level.
    Paragraph(Paragraph),
}

/// The abstract value of an element.
pub open spec fn elem_model(e: Element) -> ElemModel
    decreases e,
{
    match e {
        Element::Text(t) => ElemModel::Text { text: t@ },
        Element::Rich(r) => ElemModel::Rich {
            bold: r.bold,
            italic: r.italic,
            code: r.code,
            text: r.text@,
        },
        Element::Link(l) => ElemModel::Link {
            children: elems_model(l.children@),
            address: l.address@,
        },
        Element::Heading(h) => ElemModel::Heading {
            level: h.level as nat,
            children: elems_model(h.children@),
        },
        Element::Paragraph(p) => ElemModel::Paragraph { children: elems_model(p.children@) },
    }
}

/// The abstract values of a sequence of elements, in order.
pub open spec fn elems_model(s: Seq<Element>) -> Seq<ElemModel>
    decreases s,
{
    if s.len() == 0 {
        Seq::empty()
    } else {
        elems_model(s.drop_last()).push(elem_model(s.last()))
    }
}

impl View for Element {
    type V = ElemModel;

    open spec fn view(&self) -> ElemModel {
        elem_model(*self)
    }
}

impl View for RichText {
    type V = ElemModel;

    open spec fn view(&self) -> ElemModel {
        ElemModel::Rich { bold: self.bold, italic: self.italic, code: self.code, text: self.text@ }
    }
}

impl View for Paragraph {
    type V = ElemModel;

    open spec fn view(&self) -> ElemModel {
        ElemModel::Paragraph { children: elems_model(self.children@) }
    }
}

impl View for Heading {
    type V = ElemModel;

    open spec fn view(&self) -> ElemModel {
        ElemModel::Heading { level: self.level as nat, children: elems_model(self.children@) }
    }
}

impl View for Link {
    type V = ElemModel;

    open spec fn view(&self) -> ElemModel {
        ElemModel::Link { children: elems_model(self.children@), address: self.address@ }
    }
}

/// The model of a sequence is the sequence of models, index by index.
pub proof fn lemma_elems_model_index(s: Seq<Element>)
    ensures
        elems_model(s).len() == s.len(),
        forall|i: int| 0 <= i < s.len() ==> elems_model(s)[i] == elem_model(s[i]),
    decreases s,
{
    if s.len() > 0 {
        lemma_elems_model_index(s.drop_last());
    }
}

/// Appending an element appends its model.
pub proof fn lemma_elems_model_push(s: Seq<Element>, e: Element)
    ensures
        elems_model(s.push(e)) == elems_model(s).push(elem_model(e)),
{
    assert(s.push(e).drop_last() =~= s);
    assert(s.push(e).last() == e);
}

/// Taking one more element extends the model prefix by one model;
/// this is the shape the serialization loops preserve.
pub proof fn lemma_elems_model_take_step(s: Seq<Element>, i: int)
    requires
        0 <= i < s.len(),
    ensures
        elems_model(s.take(i + 1)) == elems_model(s.take(i)).push(elem_model(s[i])),
{
    assert(s.take(i + 1) =~= s.take(i).push(s[i]));
    lemma_elems_model_push(s.take(i), s[i]);
}

/// A copy of an element with the same abstract value.
pub fn dup_element(e: &Element) -> (r: Element)
    ensures
        r@ == e@,
    decreases e,
{
    match e {
        Element::Text(t) => Element::Text(slice_to_vec(t.as_slice())),
        Element::Rich(rt) => Element::Rich(
            RichText {
                bold: rt.bold,
                italic: rt.italic,
                code: rt.code,
                text: slice_to_vec(rt.text.as_slice()),
            },
        ),
        Element::Link(l) => Element::Link(
            Link {
                children: dup_elements(&l.children),
                address: slice_to_vec(l.address.as_slice()),
            },
        ),
        Element::Heading(h) => Element::Heading(
            Heading { children: dup_elements(&h.children), level: h.level },
        ),
        Element::Paragraph(p) => Element::Paragraph(
            Paragraph { children: dup_elements(&p.children) },
        ),
    }
}

/// A copy of a sequence of elements with the same abstract values.
pub fn dup_elements(v: &Vec<Element>) -> (r: Vec<Element>)
    ensures
        elems_model(r@) == elems_model(v@),
    decreases v,
{
    let mut r: Vec<Element> = Vec::new();
    let n = v.len();
    proof {
        assert(v@.take(0) =~= Seq::<Element>::empty());
        assert(r@ =~= Seq::<Element>::empty());
    }
    for i in 0..n
        invariant
            n == v@.len(),
            elems_model(r@) == elems_model(v@.take(i as int)),
    {
        let ghost r_old = r@;
        let e = dup_element(&v[i]);
        r.push(e);
        proof {
            lemma_elems_model_push(r_old, r@.last());
            assert(r@.drop_last() =~= r_old);
            assert(r@ =~= r_old.push(r@.last()));
            lemma_elems_model_take_step(v@, i as int);
        }
    }
    proof {
        assert(v@.take(n as int) =~= v@);
    }
    r
}

impl Paragraph {
    /// Creates an empty paragraph.
    pub fn new() -> (r: Paragraph)
        ensures
            r@ == (ElemModel::Paragraph { children: Seq::<ElemModel>::empty() }),
    {
        let r = Paragraph { children: Vec::new() };
        proof {
            assert(elems_model(r.children@) =~= Seq::<ElemModel>::empty());
        }
        r
    }
}

impl Heading {
    /// Creates an empty heading of the given level; levels outside
    /// 1 to 6 are rejected at construction.
    pub fn new(level: usize) -> (r: Heading)
        requires
            1 <= level <= 6,
        ensures
            r@ == (ElemModel::Heading {
                level: level as nat,
                children: Seq::<ElemModel>::empty(),
            }),
    {
        let r = Heading { children: Vec::new(), level };
        proof {
            assert(elems_model(r.children@) =~= Seq::<ElemModel>::empty());
        }
        r
    }
}

impl Link {
    /// Creates an empty link which leads to `address`.
    pub fn new(address: &str) -> (r: Link)
        ensures
            r@ == (ElemModel::Link {
                children: Seq::<ElemModel>::empty(),
                address: address.spec_bytes(),
            }),
    {
        let r = Link { children: Vec::new(), address: slice_to_vec(address.as_bytes()) };
        proof {
            assert(elems_model(r.children@) =~= Seq::<ElemModel>::empty());
        }
        r
    }
}

impl RichText {
    /// Creates an unstyled span over a copy of `text`.
    pub(crate) fn new(text: &str) -> (r: RichText)
        ensures
            r@ == (ElemModel::Rich {
                bold: false,
                italic: false,
                code: false,
                text: text.spec_bytes(),
            }),
    {
        RichText { bold: false, italic: false, code: false, text: slice_to_vec(text.as_bytes()) }
    }

    /// Styles the span bold.
    pub fn bold(&mut self) -> (r: &mut RichText)
        ensures
            (*r)@ == (ElemModel::Rich {
                bold: true,
                italic: old(self)@->Rich_italic,
                code: old(self)@->Rich_code,
                text: old(self)@->Rich_text,
            }),
            *final(self) == *final(r),
    {
        self.bold = true;
        self
    }

    /// Styles the span italic.
    pub fn italic(&mut self) -> (r: &mut RichText)
        ensures
            (*r)@ == (ElemModel::Rich {
                bold: old(self)@->Rich_bold,
                italic: true,
                code: old(self)@->Rich_code,
                text: old(self)@->Rich_text,
            }),
            *final(self) == *final(r),
    {
        self.italic = true;
        self
    }

    /// Styles the span as inline code.
    pub fn code(&mut self) -> (r: &mut RichText)
        ensures
            (*r)@ == (ElemModel::Rich {
                bold: old(self)@->Rich_bold,
                italic: old(self)@->Rich_italic,
                code: true,
                text: old(self)@->Rich_text,
            }),
            *final(self) == *final(r),
    {
        self.code = true;
        self
    }
}

} // verus!
