//! Fluent construction helpers: conversions that wrap plain text or
//! an existing element into a paragraph, heading, link or styled
//! span.

use vstd::prelude::*;
use vstd::pervasive::unreached;
use vstd::slice::slice_to_vec;
use vstd::string::StringSliceAdditionalSpecFns;
use crate::model::ElemModel;
use crate::elements::Heading;
use crate::elements::Link;
use crate::elements::Paragraph;
use crate::elements::RichText;
use crate::writer::MarkdownWritable;

verus! {

/// Trait for objects convertible to a Markdown element.
pub trait AsMarkdown: MarkdownWritable {
    /// Whether this value may become a link's body or take a style.
    /// A link may not: a link cannot contain another link, and a
    /// link's rendered body cannot be restyled after the fact (apply
    /// the style to the text before building the link).
    spec fn stylable(&self) -> bool;

    /// The styled span that applying a style starts from.
    spec fn rich_base(&self) -> ElemModel;

    /// Converts `self` to a paragraph holding it as the only child.
    fn paragraph(&self) -> (p: Paragraph)
        ensures
            p@ == (ElemModel::Paragraph { children: seq![self.as_model()] }),
    ;

    /// Converts `self` to a heading of the given level (1 to 6)
    /// holding it as the only child.
    fn heading(&self, level: usize) -> (h: Heading)
        requires
            1 <= level <= 6,
        ensures
            h@ == (ElemModel::Heading {
                level: level as nat,
                children: seq![self.as_model()],
            }),
    ;

    /// Converts `self` to a link leading to `address`, holding it as
    /// the visible text.
    fn link_to(&self, address: &str) -> (l: Link)
        requires
            self.stylable(),
        ensures
            l@ == (ElemModel::Link {
                children: seq![self.as_model()],
                address: address.spec_bytes(),
            }),
    ;

    /// A bold copy of `self`.
    fn bold(&self) -> (r: RichText)
        requires
            self.stylable(),
        ensures
            r@ == (ElemModel::Rich {
                bold: true,
                italic: self.rich_base()->Rich_italic,
                code: self.rich_base()->Rich_code,
                text: self.rich_base()->Rich_text,
            }),
    ;

    /// An italic copy of `self`.
    fn italic(&self) -> (r: RichText)
        requires
            self.stylable(),
        ensures
            r@ == (ElemModel::Rich {
                bold: self.rich_base()->Rich_bold,
                italic: true,
                code: self.rich_base()->Rich_code,
                text: self.rich_base()->Rich_text,
            }),
    ;

    /// An inline-code copy of `self`.
    fn code(&self) -> (r: RichText)
        requires
            self.stylable(),
        ensures
            r@ == (ElemModel::Rich {
                bold: self.rich_base()->Rich_bold,
                italic: self.rich_base()->Rich_italic,
                code: true,
                text: self.rich_base()->Rich_text,
            }),
    ;
}

impl AsMarkdown for str {
    open spec fn stylable(&self) -> bool {
        true
    }

    open spec fn rich_base(&self) -> ElemModel {
        ElemModel::Rich { bold: false, italic: false, code: false, text: self.spec_bytes() }
    }

    fn paragraph(&self) -> (p: Paragraph) {
        let mut p = Paragraph::new();
        p.append(self);
        proof {
            assert(Seq::<ElemModel>::empty().push(self.as_model()) =~= seq![self.as_model()]);
        }
        p
    }

    fn heading(&self, level: usize) -> (h: Heading) {
        let mut h = Heading::new(level);
        h.append(self);
        proof {
            assert(Seq::<ElemModel>::empty().push(self.as_model()) =~= seq![self.as_model()]);
        }
        h
    }

    fn link_to(&self, address: &str) -> (l: Link) {
        let mut l = Link::new(address);
        l.append(self);
        proof {
            assert(Seq::<ElemModel>::empty().push(self.as_model()) =~= seq![self.as_model()]);
        }
        l
    }

    fn bold(&self) -> (r: RichText) {
        RichText { bold: true, italic: false, code: false, text: slice_to_vec(self.as_bytes()) }
    }

    fn italic(&self) -> (r: RichText) {
        RichText { bold: false, italic: true, code: false, text: slice_to_vec(self.as_bytes()) }
    }

    fn code(&self) -> (r: RichText) {
        RichText { bold: false, italic: false, code: true, text: slice_to_vec(self.as_bytes()) }
    }
}

impl AsMarkdown for RichText {
    open spec fn stylable(&self) -> bool {
        true
    }

    open spec fn rich_base(&self) -> ElemModel {
        self@
    }

    fn paragraph(&self) -> (p: Paragraph) {
        let mut p = Paragraph::new();
        p.append(self);
        proof {
            assert(Seq::<ElemModel>::empty().push(self.as_model()) =~= seq![self.as_model()]);
        }
        p
    }

    fn heading(&self, level: usize) -> (h: Heading) {
        let mut h = Heading::new(level);
        h.append(self);
        proof {
            assert(Seq::<ElemModel>::empty().push(self.as_model()) =~= seq![self.as_model()]);
        }
        h
    }

    fn link_to(&self, address: &str) -> (l: Link) {
        let mut l = Link::new(address);
        l.append(self);
        proof {
            assert(Seq::<ElemModel>::empty().push(self.as_model()) =~= seq![self.as_model()]);
        }
        l
    }

    fn bold(&self) -> (r: RichText) {
        RichText {
            bold: true,
            italic: self.italic,
            code: self.code,
            text: slice_to_vec(self.text.as_slice()),
        }
    }

    fn italic(&self) -> (r: RichText) {
        RichText {
            bold: self.bold,
            italic: true,
            code: self.code,
            text: slice_to_vec(self.text.as_slice()),
        }
    }

    fn code(&self) -> (r: RichText) {
        RichText {
            bold: self.bold,
            italic: self.italic,
            code: true,
            text: slice_to_vec(self.text.as_slice()),
        }
    }
}

impl AsMarkdown for Link {
    open spec fn stylable(&self) -> bool {
        false
    }

    open spec fn rich_base(&self) -> ElemModel {
        ElemModel::Rich { bold: false, italic: false, code: false, text: Seq::empty() }
    }

    fn paragraph(&self) -> (p: Paragraph) {
        let mut p = Paragraph::new();
        p.append(self);
        proof {
            assert(Seq::<ElemModel>::empty().push(self.as_model()) =~= seq![self.as_model()]);
        }
        p
    }

    fn heading(&self, level: usize) -> (h: Heading) {
        let mut h = Heading::new(level);
        h.append(self);
        proof {
            assert(Seq::<ElemModel>::empty().push(self.as_model()) =~= seq![self.as_model()]);
        }
        h
    }

    fn link_to(&self, address: &str) -> (l: Link) {
        unreached()
    }

    fn bold(&self) -> (r: RichText) {
        unreached()
    }

    fn italic(&self) -> (r: RichText) {
        unreached()
    }

    fn code(&self) -> (r: RichText) {
        unreached()
    }
}

} // verus!
