//! The mathematical model of a document element, and the specification
//! of its serialized form: which bytes a well-formed element writes,
//! when an element tree is well formed, and how the streak counter
//! aggregates over composite elements.

use vstd::prelude::*;
use crate::escape::BACKTICK;
use crate::escape::ASTERISK;
use crate::escape::LEFT_BRACKET;
use crate::escape::RIGHT_BRACKET;
use crate::escape::LEFT_PAREN;
use crate::escape::RIGHT_PAREN;
use crate::escape::HASH;
use crate::escape::SPACE;
use crate::escape::NEWLINE;
use crate::escape::Escaping;
use crate::escape::escaped_bytes;
use crate::streak::max_streak;
use crate::streak::nat_max;
use crate::streak::streak_scan;
use crate::streak::run_at;
use crate::streak::lemma_max_streak_exact;

verus! {

/// The abstract value of one document element: its kind, its text
/// content as byte sequences, and the models of its children in order.
pub enum ElemModel {
    /// A plain text leaf.
    Text { text: Seq<u8> },
    /// One text fragment with independently togglable styling flags.
    Rich { bold: bool, italic: bool, code: bool, text: Seq<u8> },
    /// Visible text (the children) plus a target address.
    Link { children: Seq<ElemModel>, address: Seq<u8> },
    /// A heading of the given level over its children.
    Heading { level: nat, children: Seq<ElemModel> },
    /// A paragraph over its children.
    Paragraph { children: Seq<ElemModel> },
}

/// Well-formedness of an element about to be serialized at nesting
/// position `inner`: headings and paragraphs are valid only at the top
/// level and only with a heading level between 1 and 6, and every
/// child must itself be valid in an inner position.
pub open spec fn wf(m: ElemModel, inner: bool) -> bool
    decreases m,
{
    match m {
        ElemModel::Text { .. } => true,
        ElemModel::Rich { .. } => true,
        ElemModel::Link { children, .. } => all_inline(children),
        ElemModel::Heading { level, children } => !inner && 1 <= level <= 6 && all_inline(
            children,
        ),
        ElemModel::Paragraph { children } => !inner && all_inline(children),
    }
}

/// Every element of `cs` is well formed in an inner position.
pub open spec fn all_inline(cs: Seq<ElemModel>) -> bool
    decreases cs,
{
    if cs.len() == 0 {
        true
    } else {
        all_inline(cs.drop_last()) && wf(cs.last(), true)
    }
}

/// `n` copies of the byte `b`.
pub open spec fn repeat_byte(b: u8, n: nat) -> Seq<u8> {
    Seq::new(n, |i: int| b)
}

/// The blank-line block separator written after a top-level text or
/// styled span, and nothing when the element is nested.
pub open spec fn block_sep(inner: bool) -> Seq<u8> {
    if inner {
        Seq::empty()
    } else {
        seq![NEWLINE, NEWLINE]
    }
}

/// The emphasis part of a styled span's delimiter: two asterisks for
/// bold, then one for italic.
pub open spec fn style_marks(bold: bool, italic: bool) -> Seq<u8> {
    (if bold {
        seq![ASTERISK, ASTERISK]
    } else {
        Seq::empty()
    }) + (if italic {
        seq![ASTERISK]
    } else {
        Seq::empty()
    })
}

/// The opening delimiter of a styled span: two asterisks for bold, one
/// for italic, and for code a backtick fence one longer than the
/// longest backtick run in the text, followed by one padding space.
/// The closing delimiter is this sequence reversed.
pub open spec fn rich_symbol(bold: bool, italic: bool, code: bool, text: Seq<u8>) -> Seq<u8> {
    style_marks(bold, italic) + (if code {
        repeat_byte(BACKTICK, max_streak(text, BACKTICK, 0).0 + 1) + seq![SPACE]
    } else {
        Seq::empty()
    })
}

/// The exact bytes that serializing `m` writes, given whether it is
/// nested inside another element and the inherited escaping context.
pub open spec fn md_bytes(m: ElemModel, inner: bool, esc: Escaping) -> Seq<u8>
    decreases m,
{
    match m {
        ElemModel::Text { text } => escaped_bytes(text, esc) + block_sep(inner),
        ElemModel::Rich { bold, italic, code, text } => {
            let sym = rich_symbol(bold, italic, code, text);
            let text_esc = if code {
                Escaping::InlineCode
            } else {
                esc
            };
            sym + escaped_bytes(text, text_esc) + sym.reverse() + block_sep(inner)
        },
        ElemModel::Link { children, address } => seq![LEFT_BRACKET] + children_bytes(
            children,
            esc,
        ) + seq![RIGHT_BRACKET, LEFT_PAREN] + escaped_bytes(address, esc) + seq![RIGHT_PAREN] + (
        if inner {
            Seq::empty()
        } else {
            seq![NEWLINE]
        }),
        ElemModel::Heading { level, children } => repeat_byte(HASH, level) + seq![SPACE]
            + children_bytes(children, Escaping::Normal) + seq![NEWLINE],
        ElemModel::Paragraph { children } => children_bytes(children, esc) + seq![
            NEWLINE,
            NEWLINE,
        ],
    }
}

/// The bytes written by a sequence of children, each serialized as an
/// inner element under the inherited escaping context.
pub open spec fn children_bytes(cs: Seq<ElemModel>, esc: Escaping) -> Seq<u8>
    decreases cs,
{
    if cs.len() == 0 {
        Seq::empty()
    } else {
        children_bytes(cs.drop_last(), esc) + md_bytes(cs.last(), true, esc)
    }
}

/// The total number of content bytes (text and addresses) in `m`;
/// no streak can be longer than its carry plus this.
pub open spec fn content_size(m: ElemModel) -> nat
    decreases m,
{
    match m {
        ElemModel::Text { text } => text.len(),
        ElemModel::Rich { text, .. } => text.len(),
        ElemModel::Link { children, address } => children_size(children) + address.len(),
        ElemModel::Heading { children, .. } => children_size(children),
        ElemModel::Paragraph { children } => children_size(children),
    }
}

/// The total number of content bytes in a sequence of children.
pub open spec fn children_size(cs: Seq<ElemModel>) -> nat
    decreases cs,
{
    if cs.len() == 0 {
        0
    } else {
        children_size(cs.drop_last()) + content_size(cs.last())
    }
}

/// The streak counter lifted to elements: the longest run of `ch` in
/// the element's content and the run still open at its end. A text
/// leaf extends the carried-in run; a styled span and a link count
/// their own content in isolation and close the run; a heading starts
/// a fresh count after its prefix; a paragraph extends the carry but
/// closes the run behind itself. A composite's maximum is the maximum
/// over its parts, never a sum; a link's address is an independent
/// candidate compared against the children's maximum.
pub open spec fn elem_streak(m: ElemModel, ch: u8, carry: nat) -> (nat, nat)
    decreases m,
{
    match m {
        ElemModel::Text { text } => max_streak(text, ch, carry),
        ElemModel::Rich { text, .. } => (max_streak(text, ch, 0).0, 0nat),
        ElemModel::Link { children, address } => (
            nat_max(children_streak(children, ch, 0).0, max_streak(address, ch, 0).0),
            0nat,
        ),
        ElemModel::Heading { children, .. } => children_streak(children, ch, 0),
        ElemModel::Paragraph { children } => (children_streak(children, ch, carry).0, 0nat),
    }
}

/// The streak counter over a sequence of children: the open run is
/// carried from each child to the next, and the maximum is the
/// maximum over all children.
pub open spec fn children_streak(cs: Seq<ElemModel>, ch: u8, carry: nat) -> (nat, nat)
    decreases cs,
{
    if cs.len() == 0 {
        (0nat, carry)
    } else {
        let prev = children_streak(cs.drop_last(), ch, carry);
        let last = elem_streak(cs.last(), ch, prev.1);
        (nat_max(prev.0, last.0), last.1)
    }
}

/// In a well-formed run of children, every child is well formed in an
/// inner position.
pub proof fn lemma_all_inline_index(cs: Seq<ElemModel>)
    ensures
        all_inline(cs) ==> forall|i: int| 0 <= i < cs.len() ==> wf(cs[i], true),
    decreases cs,
{
    if cs.len() > 0 {
        lemma_all_inline_index(cs.drop_last());
        if all_inline(cs) {
            assert forall|i: int| 0 <= i < cs.len() implies wf(cs[i], true) by {
                if i < cs.len() - 1 {
                    assert(cs.drop_last()[i] == cs[i]);
                } else {
                    assert(cs[i] == cs.last());
                }
            }
        }
    }
}

/// One more child appends its bytes to the run's serialized form.
pub proof fn lemma_children_bytes_push(cs: Seq<ElemModel>, m: ElemModel, esc: Escaping)
    ensures
        children_bytes(cs.push(m), esc) == children_bytes(cs, esc) + md_bytes(m, true, esc),
{
    assert(cs.push(m).drop_last() =~= cs);
    assert(cs.push(m).last() == m);
}

/// One more child adds its content bytes to the run's size.
pub proof fn lemma_children_size_push(cs: Seq<ElemModel>, m: ElemModel)
    ensures
        children_size(cs.push(m)) == children_size(cs) + content_size(m),
{
    assert(cs.push(m).drop_last() =~= cs);
    assert(cs.push(m).last() == m);
}

/// One more child folds its streak into the run's streak.
pub proof fn lemma_children_streak_push(cs: Seq<ElemModel>, m: ElemModel, ch: u8, carry: nat)
    ensures
        children_streak(cs.push(m), ch, carry) == ({
            let prev = children_streak(cs, ch, carry);
            let last = elem_streak(m, ch, prev.1);
            (nat_max(prev.0, last.0), last.1)
        }),
{
    assert(cs.push(m).drop_last() =~= cs);
    assert(cs.push(m).last() == m);
}

/// A prefix of a run of children has no more content bytes than the
/// whole run.
pub proof fn lemma_children_size_take_le(cs: Seq<ElemModel>, j: int)
    requires
        0 <= j <= cs.len(),
    ensures
        children_size(cs.take(j)) <= children_size(cs),
    decreases cs.len() - j,
{
    if j == cs.len() {
        assert(cs.take(j) =~= cs);
    } else {
        assert(cs.take(j + 1).drop_last() =~= cs.take(j));
        assert(cs.take(j + 1).last() == cs[j]);
        lemma_children_size_take_le(cs, j + 1);
    }
}

/// No streak is longer than the carried-in run plus the bytes scanned.
pub proof fn lemma_streak_scan_bounds(s: Seq<u8>, ch: u8, best: nat, cur: nat)
    ensures
        streak_scan(s, ch, best, cur).0 <= nat_max(best, cur + s.len()),
        streak_scan(s, ch, best, cur).1 <= cur + s.len(),
    decreases s.len(),
{
    if s.len() > 0 {
        if s[0] == ch {
            lemma_streak_scan_bounds(s.drop_first(), ch, best, cur + 1);
        } else {
            lemma_streak_scan_bounds(s.drop_first(), ch, nat_max(best, cur), 0);
        }
    }
}

/// No streak of an element is longer than the carried-in run plus the
/// element's content size.
pub proof fn lemma_elem_streak_bounds(m: ElemModel, ch: u8, carry: nat)
    ensures
        elem_streak(m, ch, carry).0 <= carry + content_size(m),
        elem_streak(m, ch, carry).1 <= carry + content_size(m),
    decreases m,
{
    match m {
        ElemModel::Text { text } => {
            lemma_streak_scan_bounds(text, ch, 0, carry);
        },
        ElemModel::Rich { text, .. } => {
            lemma_streak_scan_bounds(text, ch, 0, 0);
        },
        ElemModel::Link { children, address } => {
            lemma_children_streak_bounds(children, ch, 0);
            lemma_streak_scan_bounds(address, ch, 0, 0);
        },
        ElemModel::Heading { children, .. } => {
            lemma_children_streak_bounds(children, ch, 0);
        },
        ElemModel::Paragraph { children } => {
            lemma_children_streak_bounds(children, ch, carry);
        },
    }
}

/// No streak of a run of children is longer than the carried-in run
/// plus the run's content size.
pub proof fn lemma_children_streak_bounds(cs: Seq<ElemModel>, ch: u8, carry: nat)
    ensures
        children_streak(cs, ch, carry).0 <= carry + children_size(cs),
        children_streak(cs, ch, carry).1 <= carry + children_size(cs),
    decreases cs,
{
    if cs.len() > 0 {
        lemma_children_streak_bounds(cs.drop_last(), ch, carry);
        let prev = children_streak(cs.drop_last(), ch, carry);
        lemma_elem_streak_bounds(cs.last(), ch, prev.1);
    }
}

/// Fence sizing law: when the longest run of backticks in a code
/// span's text has length `k` (no run is longer, and some run has
/// exactly that length unless `k` is zero), the span serializes with
/// a fence of exactly `k + 1` backticks on each side, one padding
/// space inside each fence, and the text itself between them,
/// unescaped.
#[verifier::rlimit(50)]
pub proof fn lemma_fence_sizing(
    bold: bool,
    italic: bool,
    text: Seq<u8>,
    inner: bool,
    esc: Escaping,
    k: nat,
)
    requires
        forall|i: int, len: int| run_at(text, BACKTICK, i, len) ==> len <= k,
        k == 0 || exists|i: int| run_at(text, BACKTICK, i, k as int),
    ensures
        max_streak(text, BACKTICK, 0).0 == k,
        md_bytes(ElemModel::Rich { bold, italic, code: true, text }, inner, esc) == style_marks(
            bold,
            italic,
        ) + repeat_byte(BACKTICK, k + 1) + seq![SPACE] + text + seq![SPACE] + repeat_byte(
            BACKTICK,
            k + 1,
        ) + style_marks(bold, italic).reverse() + block_sep(inner),
{
    lemma_max_streak_exact(text, BACKTICK);
    let m = max_streak(text, BACKTICK, 0).0;
    if m != 0 {
        let i = choose|i: int| run_at(text, BACKTICK, i, m as int);
        assert(m <= k);
    }
    if k != 0 {
        let i = choose|i: int| run_at(text, BACKTICK, i, k as int);
        assert(k <= m);
    }
    assert(m == k);
    let sty = style_marks(bold, italic);
    let fence = repeat_byte(BACKTICK, k + 1);
    let sym = rich_symbol(bold, italic, true, text);
    assert(sym == sty + (fence + seq![SPACE]));
    lemma_reverse_concat(sty, fence + seq![SPACE]);
    lemma_reverse_concat(fence, seq![SPACE]);
    assert(fence.reverse() =~= fence);
    assert(seq![SPACE].reverse() =~= seq![SPACE]);
    assert(sym.reverse() == (seq![SPACE] + fence) + sty.reverse());
    assert(md_bytes(ElemModel::Rich { bold, italic, code: true, text }, inner, esc) == sym + text
        + sym.reverse() + block_sep(inner));
    assert(sym + text + sym.reverse() + block_sep(inner) =~= sty + fence + seq![SPACE] + text
        + seq![SPACE] + fence + sty.reverse() + block_sep(inner));
}

/// Reversing a concatenation reverses the parts in swapped order.
pub proof fn lemma_reverse_concat(a: Seq<u8>, b: Seq<u8>)
    ensures
        (a + b).reverse() == b.reverse() + a.reverse(),
{
    assert((a + b).reverse() =~= b.reverse() + a.reverse());
}

/// Heading serialization law: a heading of level `L` serializes as
/// exactly `L` marker characters, one separator space, the children
/// under the `Normal` context, and a line break; and a level outside
/// 1 to 6 is never well formed, so writing such a heading is
/// rejected.
pub proof fn lemma_heading_shape(level: nat, children: Seq<ElemModel>, inner: bool, esc: Escaping)
    ensures
        md_bytes(ElemModel::Heading { level, children }, inner, esc) == repeat_byte(HASH, level)
            + seq![SPACE] + children_bytes(children, Escaping::Normal) + seq![NEWLINE],
        forall|i: int|
            0 <= i < level ==> md_bytes(ElemModel::Heading { level, children }, inner, esc)[i]
                == HASH,
        md_bytes(ElemModel::Heading { level, children }, inner, esc)[level as int] == SPACE,
        !(1 <= level <= 6) ==> !wf(ElemModel::Heading { level, children }, inner),
{
    let out = md_bytes(ElemModel::Heading { level, children }, inner, esc);
    assert(out =~= repeat_byte(HASH, level) + (seq![SPACE] + children_bytes(
        children,
        Escaping::Normal,
    ) + seq![NEWLINE]));
    assert forall|i: int| 0 <= i < level implies out[i] == HASH by {
        assert(out[i] == repeat_byte(HASH, level)[i]);
    }
}

/// The children of an element, where it has any.
pub open spec fn child_elems(m: ElemModel) -> Seq<ElemModel> {
    match m {
        ElemModel::Text { .. } => Seq::empty(),
        ElemModel::Rich { .. } => Seq::empty(),
        ElemModel::Link { children, .. } => children,
        ElemModel::Heading { children, .. } => children,
        ElemModel::Paragraph { children } => children,
    }
}

/// Nesting law: an element holding a heading or a paragraph among
/// its children is never well formed, whatever the contents of that
/// child and wherever the element itself stands, so writing it is
/// rejected.
pub proof fn lemma_nested_block_rejected(m: ElemModel, inner: bool, i: int)
    requires
        0 <= i < child_elems(m).len(),
        child_elems(m)[i] is Heading || child_elems(m)[i] is Paragraph,
    ensures
        !wf(m, inner),
{
    lemma_all_inline_index(child_elems(m));
}

} // verus!
