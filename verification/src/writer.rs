//! Serialization: the writable capability every element type
//! implements, and the single-pass depth-first emitter behind it.

use vstd::prelude::*;
use vstd::pervasive::unreached;
use vstd::slice::slice_to_vec;
use vstd::string::StringSliceAdditionalSpecFns;
use crate::escape::ASTERISK;
use crate::escape::BACKTICK;
use crate::escape::HASH;
use crate::escape::LEFT_BRACKET;
use crate::escape::LEFT_PAREN;
use crate::escape::NEWLINE;
use crate::escape::RIGHT_BRACKET;
use crate::escape::RIGHT_PAREN;
use crate::escape::SPACE;
use crate::escape::Escaping;
use crate::escape::append_bytes;
use crate::escape::write_escaped;
use crate::streak::count_streak;
use crate::model::ElemModel;
use crate::model::all_inline;
use crate::model::children_bytes;
use crate::model::children_size;
use crate::model::children_streak;
use crate::model::content_size;
use crate::model::elem_streak;
use crate::model::lemma_all_inline_index;
use crate::model::lemma_children_bytes_push;
use crate::model::lemma_children_size_push;
use crate::model::lemma_children_size_take_le;
use crate::model::lemma_children_streak_push;
use crate::model::md_bytes;
use crate::model::repeat_byte;
use crate::model::rich_symbol;
use crate::model::wf;
use crate::elements::Element;
use crate::elements::Heading;
use crate::elements::Link;
use crate::elements::Paragraph;
use crate::elements::RichText;
use crate::elements::dup_elements;
use crate::elements::elem_model;
use crate::elements::elems_model;
use crate::elements::lemma_elems_model_index;
use crate::elements::lemma_elems_model_take_step;

verus! {

/// The failure a write call can surface: the element tree was
/// composed against the structural rules (a heading or paragraph
/// nested inside another element, or a heading level outside 1 to 6),
/// so the call stops before emitting ambiguous output.
#[derive(Clone, Copy, Debug, PartialEq, Eq, Structural)]
pub enum WriteError {
    /// The tree breaks a structural rule; nothing was written.
    InvalidStructure,
}

/// Trait for objects writable to Markdown documents.
pub trait MarkdownWritable {
    /// The abstract element this value serializes as.
    spec fn as_model(&self) -> ElemModel;

    /// Serializes `self` into `out`. `inner` says whether the element
    /// stands inside another element; `esc` is the escaping context
    /// inherited from the parent. A well-formed element writes
    /// exactly its serialized bytes; a malformed one writes nothing
    /// and reports the structural misuse.
    fn write_to(&self, out: &mut Vec<u8>, inner: bool, esc: Escaping) -> (r: Result<
        (),
        WriteError,
    >)
        ensures
            wf(self.as_model(), inner) ==> r is Ok && final (out)@ == old(out)@ + md_bytes(
                self.as_model(),
                inner,
                esc,
            ),
            !wf(self.as_model(), inner) ==> r == Err::<(), WriteError>(
                WriteError::InvalidStructure,
            ) && final (out)@ == old(out)@,
    ;

    /// The longest run of `ch` in this element's content, continuing
    /// a run of length `carry` left open by a previously scanned
    /// sibling, and the run this element leaves open behind itself.
    fn count_max_streak(&self, ch: u8, carry: usize) -> (r: (usize, usize))
        requires
            carry + content_size(self.as_model()) <= usize::MAX,
        ensures
            r.0 as nat == elem_streak(self.as_model(), ch, carry as nat).0,
            r.1 as nat == elem_streak(self.as_model(), ch, carry as nat).1,
    ;

    /// An owned element with the same abstract value, for storing
    /// this value as a child of another element.
    fn to_element(&self) -> (e: Element)
        ensures
            e@ == self.as_model(),
    ;
}

/// Whether `e` may stand inside another element: headings and
/// paragraphs may not, and children must be valid recursively.
pub fn check_inline(e: &Element) -> (b: bool)
    ensures
        b == wf(e@, true),
    decreases e,
{
    match e {
        Element::Text(_) => true,
        Element::Rich(_) => true,
        Element::Link(l) => check_children(&l.children),
        Element::Heading(_) => false,
        Element::Paragraph(_) => false,
    }
}

/// Whether every element of `v` may stand inside another element.
pub fn check_children(v: &Vec<Element>) -> (b: bool)
    ensures
        b == all_inline(elems_model(v@)),
    decreases v,
{
    let n = v.len();
    proof {
        assert(v@.take(0) =~= Seq::<Element>::empty());
    }
    for i in 0..n
        invariant
            n == v@.len(),
            all_inline(elems_model(v@.take(i as int))),
    {
        if !check_inline(&v[i]) {
            proof {
                lemma_elems_model_index(v@);
                lemma_all_inline_index(elems_model(v@));
                assert(elems_model(v@)[i as int] == elem_model(v@[i as int]));
                assert(!wf(elem_model(v@[i as int]), true));
            }
            return false;
        }
        proof {
            lemma_elems_model_take_step(v@, i as int);
            let cs = elems_model(v@.take(i as int));
            let m = elem_model(v@[i as int]);
            assert(cs.push(m).drop_last() =~= cs);
            assert(cs.push(m).last() == m);
        }
    }
    proof {
        assert(v@.take(n as int) =~= v@);
    }
    true
}

/// Writes one element that stands inside another: no block separator
/// of its own, under the inherited escaping context.
pub fn write_inner(e: &Element, out: &mut Vec<u8>, esc: Escaping)
    requires
        wf(e@, true),
    ensures
        final (out)@ == old(out)@ + md_bytes(e@, true, esc),
    decreases e,
{
    match e {
        Element::Text(t) => {
            write_escaped(out, t.as_slice(), esc);
            proof {
                assert(out@ =~= old(out)@ + md_bytes(e@, true, esc));
            }
        },
        Element::Rich(rt) => {
            write_rich(rt, out, true, esc);
        },
        Element::Link(l) => {
            write_link(l, out, true, esc);
        },
        Element::Heading(_) => unreached(),
        Element::Paragraph(_) => unreached(),
    }
}

/// Writes a run of children, each as an inner element, carrying the
/// inherited escaping context to every child.
pub fn write_children(v: &Vec<Element>, out: &mut Vec<u8>, esc: Escaping)
    requires
        all_inline(elems_model(v@)),
    ensures
        final (out)@ == old(out)@ + children_bytes(elems_model(v@), esc),
    decreases v,
{
    let n = v.len();
    proof {
        assert(v@.take(0) =~= Seq::<Element>::empty());
        assert(out@ + children_bytes(elems_model(v@.take(0)), esc) =~= out@);
    }
    for i in 0..n
        invariant
            n == v@.len(),
            all_inline(elems_model(v@)),
            out@ == old(out)@ + children_bytes(elems_model(v@.take(i as int)), esc),
    {
        proof {
            lemma_elems_model_index(v@);
            lemma_all_inline_index(elems_model(v@));
            assert(elems_model(v@)[i as int] == elem_model(v@[i as int]));
            assert(wf(elem_model(v@[i as int]), true));
        }
        write_inner(&v[i], out, esc);
        proof {
            lemma_elems_model_take_step(v@, i as int);
            lemma_children_bytes_push(
                elems_model(v@.take(i as int)),
                elem_model(v@[i as int]),
                esc,
            );
            assert(out@ =~= old(out)@ + children_bytes(elems_model(v@.take(i + 1)), esc));
        }
    }
    proof {
        assert(v@.take(n as int) =~= v@);
    }
}

/// Writes a styled span: opening delimiter, the text under the code
/// context when the span is code, the reversed delimiter, and the
/// block separator when the span stands at the top level.
#[verifier::rlimit(50)]
pub fn write_rich(rt: &RichText, out: &mut Vec<u8>, inner: bool, esc: Escaping)
    ensures
        final (out)@ == old(out)@ + md_bytes(rt@, inner, esc),
{
    let sym = make_rich_symbol(rt);
    let text_esc: Escaping = if rt.code {
        Escaping::InlineCode
    } else {
        esc
    };
    let ghost symv = sym@;
    let ghost esced = crate::escape::escaped_bytes(rt.text@, text_esc);
    append_bytes(out, sym.as_slice());
    write_escaped(out, rt.text.as_slice(), text_esc);
    proof {
        assert(out@ =~= old(out)@ + (symv + esced));
    }
    write_reversed(out, &sym);
    proof {
        assert(out@ =~= old(out)@ + (symv + esced + symv.reverse()));
    }
    if !inner {
        out.push(NEWLINE);
        out.push(NEWLINE);
        proof {
            assert(out@ =~= old(out)@ + (symv + esced + symv.reverse() + seq![
                NEWLINE,
                NEWLINE,
            ]));
        }
    }
    proof {
        assert(md_bytes(rt@, inner, esc) == symv + esced + symv.reverse() + crate::model::block_sep(
            inner,
        ));
        if inner {
            assert(symv + esced + symv.reverse() + crate::model::block_sep(inner) =~= symv + esced
                + symv.reverse());
        }
    }
}

/// Builds the opening delimiter of a styled span.
fn make_rich_symbol(rt: &RichText) -> (sym: Vec<u8>)
    ensures
        sym@ == rich_symbol(rt.bold, rt.italic, rt.code, rt.text@),
{
    let ghost bold_part: Seq<u8> = if rt.bold {
        seq![ASTERISK, ASTERISK]
    } else {
        Seq::<u8>::empty()
    };
    let ghost italic_part: Seq<u8> = if rt.italic {
        seq![ASTERISK]
    } else {
        Seq::<u8>::empty()
    };
    let mut sym: Vec<u8> = Vec::new();
    if rt.bold {
        sym.push(ASTERISK);
        sym.push(ASTERISK);
    }
    proof {
        assert(sym@ =~= bold_part);
    }
    if rt.italic {
        sym.push(ASTERISK);
    }
    proof {
        assert(sym@ =~= bold_part + italic_part);
    }
    if rt.code {
        let text_len = rt.text.len();
        proof {
            assert(rt.text@.len() == text_len as int);
        }
        let (run, _) = count_streak(rt.text.as_slice(), BACKTICK, 0);
        sym.push(BACKTICK);
        let ghost sym_mid = sym@;
        let mut j: usize = 0;
        while j < run
            invariant
                j <= run,
                sym@ == sym_mid + repeat_byte(BACKTICK, j as nat),
            decreases run - j,
        {
            sym.push(BACKTICK);
            j = j + 1;
            proof {
                assert(sym@ =~= sym_mid + repeat_byte(BACKTICK, j as nat));
            }
        }
        sym.push(SPACE);
        proof {
            assert(sym@ =~= bold_part + italic_part + (repeat_byte(
                BACKTICK,
                run as nat + 1,
            ) + seq![SPACE]));
            assert(sym@ =~= rich_symbol(rt.bold, rt.italic, rt.code, rt.text@));
        }
    } else {
        proof {
            assert(bold_part + italic_part + Seq::<u8>::empty() =~= bold_part + italic_part);
            assert(sym@ =~= rich_symbol(rt.bold, rt.italic, rt.code, rt.text@));
        }
    }
    sym
}

/// Writes a link: bracketed visible text, then the parenthesized
/// address, both under the inherited escaping context, and a line
/// break when the link stands at the top level.
pub fn write_link(l: &Link, out: &mut Vec<u8>, inner: bool, esc: Escaping)
    requires
        all_inline(elems_model(l.children@)),
    ensures
        final (out)@ == old(out)@ + md_bytes(l@, inner, esc),
    decreases l,
{
    out.push(LEFT_BRACKET);
    write_children(&l.children, out, esc);
    out.push(RIGHT_BRACKET);
    out.push(LEFT_PAREN);
    write_escaped(out, l.address.as_slice(), esc);
    out.push(RIGHT_PAREN);
    if !inner {
        out.push(NEWLINE);
    }
    proof {
        assert(out@ =~= old(out)@ + md_bytes(l@, inner, esc));
    }
}

/// Appends `sym` to `out` backwards: the closing delimiter of a
/// styled span is the opening one reversed.
pub fn write_reversed(out: &mut Vec<u8>, sym: &Vec<u8>)
    ensures
        final (out)@ == old(out)@ + sym@.reverse(),
{
    let n = sym.len();
    proof {
        assert(out@ + sym@.reverse().take(0) =~= out@);
    }
    for i in 0..n
        invariant
            n == sym@.len(),
            out@ == old(out)@ + sym@.reverse().take(i as int),
    {
        out.push(sym[n - 1 - i]);
        proof {
            assert(sym@.reverse()[i as int] == sym@[n - 1 - i]);
            assert(out@ =~= old(out)@ + sym@.reverse().take(i + 1));
        }
    }
    proof {
        assert(sym@.reverse().take(n as int) =~= sym@.reverse());
    }
}

/// The streak counter over one stored element.
pub fn elem_streak_count(e: &Element, ch: u8, carry: usize) -> (r: (usize, usize))
    requires
        carry + content_size(e@) <= usize::MAX,
    ensures
        r.0 as nat == elem_streak(e@, ch, carry as nat).0,
        r.1 as nat == elem_streak(e@, ch, carry as nat).1,
    decreases e,
{
    match e {
        Element::Text(t) => count_streak(t.as_slice(), ch, carry),
        Element::Rich(rt) => {
            let (m, _) = count_streak(rt.text.as_slice(), ch, 0);
            (m, 0)
        },
        Element::Link(l) => {
            let (cm, _) = children_streak_count(&l.children, ch, 0);
            let (am, _) = count_streak(l.address.as_slice(), ch, 0);
            (if cm > am {
                cm
            } else {
                am
            }, 0)
        },
        Element::Heading(h) => children_streak_count(&h.children, ch, 0),
        Element::Paragraph(p) => {
            let (m, _) = children_streak_count(&p.children, ch, carry);
            (m, 0)
        },
    }
}

/// The streak counter over a run of stored children, threading each
/// child's open run into the next.
pub fn children_streak_count(v: &Vec<Element>, ch: u8, carry: usize) -> (r: (usize, usize))
    requires
        carry + children_size(elems_model(v@)) <= usize::MAX,
    ensures
        r.0 as nat == children_streak(elems_model(v@), ch, carry as nat).0,
        r.1 as nat == children_streak(elems_model(v@), ch, carry as nat).1,
    decreases v,
{
    let n = v.len();
    let mut best: usize = 0;
    let mut cur: usize = carry;
    proof {
        assert(v@.take(0) =~= Seq::<Element>::empty());
    }
    for i in 0..n
        invariant
            n == v@.len(),
            carry + children_size(elems_model(v@)) <= usize::MAX,
            best as nat == children_streak(elems_model(v@.take(i as int)), ch, carry as nat).0,
            cur as nat == children_streak(elems_model(v@.take(i as int)), ch, carry as nat).1,
    {
        proof {
            let vm = elems_model(v@);
            let pre = elems_model(v@.take(i as int));
            let pre1 = elems_model(v@.take(i as int + 1));
            lemma_elems_model_index(v@);
            lemma_elems_model_index(v@.take(i as int));
            lemma_elems_model_index(v@.take(i as int + 1));
            assert(vm.take(i as int) =~= pre);
            assert(vm.take(i as int + 1) =~= pre1);
            lemma_elems_model_take_step(v@, i as int);
            lemma_children_size_push(pre, elem_model(v@[i as int]));
            lemma_children_size_take_le(vm, i as int + 1);
            lemma_children_streak_bounds_for(v@, i as int, ch, carry as nat);
        }
        let (m, t) = elem_streak_count(&v[i], ch, cur);
        if m > best {
            best = m;
        }
        cur = t;
        proof {
            lemma_children_streak_push(
                elems_model(v@.take(i as int)),
                elem_model(v@[i as int]),
                ch,
                carry as nat,
            );
        }
    }
    proof {
        assert(v@.take(n as int) =~= v@);
    }
    (best, cur)
}

/// Bounds the running scan so the next child's count cannot overflow:
/// the open run after a prefix of children is no longer than the
/// carry plus the prefix's content size.
proof fn lemma_children_streak_bounds_for(s: Seq<Element>, i: int, ch: u8, carry: nat)
    requires
        0 <= i <= s.len(),
    ensures
        children_streak(elems_model(s.take(i)), ch, carry).1 <= carry + children_size(
            elems_model(s.take(i)),
        ),
        children_streak(elems_model(s.take(i)), ch, carry).0 <= carry + children_size(
            elems_model(s.take(i)),
        ),
{
    crate::model::lemma_children_streak_bounds(elems_model(s.take(i)), ch, carry);
}

impl MarkdownWritable for Paragraph {
    open spec fn as_model(&self) -> ElemModel {
        self@
    }

    fn write_to(&self, out: &mut Vec<u8>, inner: bool, esc: Escaping) -> (r: Result<
        (),
        WriteError,
    >) {
        if inner {
            return Err(WriteError::InvalidStructure);
        }
        if !check_children(&self.children) {
            return Err(WriteError::InvalidStructure);
        }
        write_children(&self.children, out, esc);
        out.push(NEWLINE);
        out.push(NEWLINE);
        proof {
            assert(out@ =~= old(out)@ + md_bytes(self@, inner, esc));
        }
        Ok(())
    }

    fn count_max_streak(&self, ch: u8, carry: usize) -> (r: (usize, usize)) {
        let (m, _) = children_streak_count(&self.children, ch, carry);
        (m, 0)
    }

    fn to_element(&self) -> (e: Element) {
        Element::Paragraph(Paragraph { children: dup_elements(&self.children) })
    }
}

impl MarkdownWritable for Heading {
    open spec fn as_model(&self) -> ElemModel {
        self@
    }

    fn write_to(&self, out: &mut Vec<u8>, inner: bool, esc: Escaping) -> (r: Result<
        (),
        WriteError,
    >) {
        if inner {
            return Err(WriteError::InvalidStructure);
        }
        if self.level < 1 || self.level > 6 {
            return Err(WriteError::InvalidStructure);
        }
        if !check_children(&self.children) {
            return Err(WriteError::InvalidStructure);
        }
        let level = self.level;
        let mut i: usize = 0;
        proof {
            assert(out@ + repeat_byte(HASH, 0) =~= out@);
        }
        while i < level
            invariant
                i <= level,
                out@ == old(out)@ + repeat_byte(HASH, i as nat),
            decreases level - i,
        {
            out.push(HASH);
            i = i + 1;
            proof {
                assert(out@ =~= old(out)@ + repeat_byte(HASH, i as nat));
            }
        }
        out.push(SPACE);
        write_children(&self.children, out, Escaping::Normal);
        out.push(NEWLINE);
        proof {
            assert(out@ =~= old(out)@ + md_bytes(self@, inner, esc));
        }
        Ok(())
    }

    fn count_max_streak(&self, ch: u8, carry: usize) -> (r: (usize, usize)) {
        children_streak_count(&self.children, ch, 0)
    }

    fn to_element(&self) -> (e: Element) {
        Element::Heading(Heading { children: dup_elements(&self.children), level: self.level })
    }
}

impl MarkdownWritable for Link {
    open spec fn as_model(&self) -> ElemModel {
        self@
    }

    fn write_to(&self, out: &mut Vec<u8>, inner: bool, esc: Escaping) -> (r: Result<
        (),
        WriteError,
    >) {
        if !check_children(&self.children) {
            return Err(WriteError::InvalidStructure);
        }
        write_link(self, out, inner, esc);
        Ok(())
    }

    fn count_max_streak(&self, ch: u8, carry: usize) -> (r: (usize, usize)) {
        let (cm, _) = children_streak_count(&self.children, ch, 0);
        let address_len = self.address.len();
        proof {
            assert(self.address@.len() == address_len as int);
        }
        let (am, _) = count_streak(self.address.as_slice(), ch, 0);
        (
            if cm > am {
                cm
            } else {
                am
            },
            0,
        )
    }

    fn to_element(&self) -> (e: Element) {
        Element::Link(
            Link {
                children: dup_elements(&self.children),
                address: slice_to_vec(self.address.as_slice()),
            },
        )
    }
}

impl MarkdownWritable for RichText {
    open spec fn as_model(&self) -> ElemModel {
        self@
    }

    fn write_to(&self, out: &mut Vec<u8>, inner: bool, esc: Escaping) -> (r: Result<
        (),
        WriteError,
    >) {
        write_rich(self, out, inner, esc);
        Ok(())
    }

    fn count_max_streak(&self, ch: u8, carry: usize) -> (r: (usize, usize)) {
        let (m, _) = count_streak(self.text.as_slice(), ch, 0);
        (m, 0)
    }

    fn to_element(&self) -> (e: Element) {
        Element::Rich(
            RichText {
                bold: self.bold,
                italic: self.italic,
                code: self.code,
                text: slice_to_vec(self.text.as_slice()),
            },
        )
    }
}

impl MarkdownWritable for str {
    open spec fn as_model(&self) -> ElemModel {
        ElemModel::Text { text: self.spec_bytes() }
    }

    fn write_to(&self, out: &mut Vec<u8>, inner: bool, esc: Escaping) -> (r: Result<
        (),
        WriteError,
    >) {
        write_escaped(out, self.as_bytes(), esc);
        if !inner {
            out.push(NEWLINE);
            out.push(NEWLINE);
        }
        proof {
            assert(out@ =~= old(out)@ + md_bytes(self.as_model(), inner, esc));
        }
        Ok(())
    }

    fn count_max_streak(&self, ch: u8, carry: usize) -> (r: (usize, usize)) {
        count_streak(self.as_bytes(), ch, carry)
    }

    fn to_element(&self) -> (e: Element) {
        Element::Text(slice_to_vec(self.as_bytes()))
    }
}

impl<'a, T: MarkdownWritable + ?Sized> MarkdownWritable for &'a T {
    open spec fn as_model(&self) -> ElemModel {
        (**self).as_model()
    }

    fn write_to(&self, out: &mut Vec<u8>, inner: bool, esc: Escaping) -> (r: Result<
        (),
        WriteError,
    >) {
        (**self).write_to(out, inner, esc)
    }

    fn count_max_streak(&self, ch: u8, carry: usize) -> (r: (usize, usize)) {
        (**self).count_max_streak(ch, carry)
    }

    fn to_element(&self) -> (e: Element) {
        (**self).to_element()
    }
}

impl<'a, T: MarkdownWritable + ?Sized> MarkdownWritable for &'a mut T {
    open spec fn as_model(&self) -> ElemModel {
        (**self).as_model()
    }

    fn write_to(&self, out: &mut Vec<u8>, inner: bool, esc: Escaping) -> (r: Result<
        (),
        WriteError,
    >) {
        (**self).write_to(out, inner, esc)
    }

    fn count_max_streak(&self, ch: u8, carry: usize) -> (r: (usize, usize)) {
        (**self).count_max_streak(ch, carry)
    }

    fn to_element(&self) -> (e: Element) {
        (**self).to_element()
    }
}

impl Paragraph {
    /// Appends an element to the paragraph.
    pub fn append<T: MarkdownWritable>(&mut self, element: T) -> (r: &mut Paragraph)
        ensures
            (*r)@ == (ElemModel::Paragraph {
                children: elems_model(old(self).children@).push(element.as_model()),
            }),
            *final (self) == *final (r),
    {
        let e = element.to_element();
        proof {
            crate::elements::lemma_elems_model_push(self.children@, e);
        }
        self.children.push(e);
        self
    }
}

impl Heading {
    /// Appends an element to the heading.
    pub fn append<T: MarkdownWritable>(&mut self, element: T) -> (r: &mut Heading)
        ensures
            (*r)@ == (ElemModel::Heading {
                level: old(self).level as nat,
                children: elems_model(old(self).children@).push(element.as_model()),
            }),
            *final (self) == *final (r),
    {
        let e = element.to_element();
        proof {
            crate::elements::lemma_elems_model_push(self.children@, e);
        }
        self.children.push(e);
        self
    }
}

impl Link {
    /// Appends an element to the link's visible text.
    pub fn append<T: MarkdownWritable>(&mut self, element: T) -> (r: &mut Link)
        ensures
            (*r)@ == (ElemModel::Link {
                children: elems_model(old(self).children@).push(element.as_model()),
                address: old(self).address@,
            }),
            *final (self) == *final (r),
    {
        let e = element.to_element();
        proof {
            crate::elements::lemma_elems_model_push(self.children@, e);
        }
        self.children.push(e);
        self
    }
}

} // verus!
