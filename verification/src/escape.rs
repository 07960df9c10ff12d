//! The escaping engine: decides, byte by byte, which characters of a
//! text fragment must be prefixed with a backslash so that the target
//! format reads them as literal text.

use vstd::prelude::*;

verus! {

/// `\`
pub const BACKSLASH: u8 = 92;

/// `` ` ``
pub const BACKTICK: u8 = 96;

/// `*`
pub const ASTERISK: u8 = 42;

/// `_`
pub const UNDERSCORE: u8 = 95;

/// `{`
pub const LEFT_BRACE: u8 = 123;

/// `}`
pub const RIGHT_BRACE: u8 = 125;

/// `[`
pub const LEFT_BRACKET: u8 = 91;

/// `]`
pub const RIGHT_BRACKET: u8 = 93;

/// `(`
pub const LEFT_PAREN: u8 = 40;

/// `)`
pub const RIGHT_PAREN: u8 = 41;

/// `#`
pub const HASH: u8 = 35;

/// `+`
pub const PLUS: u8 = 43;

/// `-`
pub const MINUS: u8 = 45;

/// `.`
pub const DOT: u8 = 46;

/// `!`
pub const BANG: u8 = 33;

/// Line feed.
pub const NEWLINE: u8 = 10;

/// Space.
pub const SPACE: u8 = 32;

/// Specifies string escaping mode.
#[derive(Clone, Copy)]
pub enum Escaping {
    /// `` \`*_{}[]()#+-.! `` will be escaped with a backslash.
    Normal,
    /// Inline code: no escaping; the surrounding fence is sized instead.
    InlineCode,
}

/// The bytes that the `Normal` context escapes: backslash plus the
/// punctuation that the format reads as block or inline control
/// characters.
pub open spec fn is_special(b: u8) -> bool {
    ||| b == BACKSLASH
    ||| b == BACKTICK
    ||| b == ASTERISK
    ||| b == UNDERSCORE
    ||| b == LEFT_BRACE
    ||| b == RIGHT_BRACE
    ||| b == LEFT_BRACKET
    ||| b == RIGHT_BRACKET
    ||| b == LEFT_PAREN
    ||| b == RIGHT_PAREN
    ||| b == HASH
    ||| b == PLUS
    ||| b == MINUS
    ||| b == DOT
    ||| b == BANG
}

/// What one input byte contributes to the escaped output under `Normal`.
pub open spec fn escape_one(b: u8) -> Seq<u8> {
    if is_special(b) {
        seq![BACKSLASH, b]
    } else {
        seq![b]
    }
}

/// The escaped form of a byte sequence under the `Normal` context.
pub open spec fn escaped_normal(s: Seq<u8>) -> Seq<u8>
    decreases s.len(),
{
    if s.len() == 0 {
        Seq::empty()
    } else {
        escape_one(s[0]) + escaped_normal(s.drop_first())
    }
}

/// The escaped form of a byte sequence under a given context.
pub open spec fn escaped_bytes(s: Seq<u8>, esc: Escaping) -> Seq<u8> {
    match esc {
        Escaping::Normal => escaped_normal(s),
        Escaping::InlineCode => s,
    }
}

/// The format's own unescape rule: a backslash followed by any byte
/// stands for that byte alone; every other byte stands for itself.
pub open spec fn unescaped_bytes(t: Seq<u8>) -> Seq<u8>
    decreases t.len(),
{
    if t.len() == 0 {
        Seq::empty()
    } else if t[0] == BACKSLASH && t.len() >= 2 {
        seq![t[1]] + unescaped_bytes(t.skip(2))
    } else {
        seq![t[0]] + unescaped_bytes(t.skip(1))
    }
}

/// How many bytes of `s` the `Normal` context escapes.
pub open spec fn special_count(s: Seq<u8>) -> nat
    decreases s.len(),
{
    if s.len() == 0 {
        0
    } else {
        (if is_special(s[0]) {
            1nat
        } else {
            0nat
        }) + special_count(s.drop_first())
    }
}

/// Escaping distributes over concatenation.
pub proof fn lemma_escaped_normal_concat(a: Seq<u8>, b: Seq<u8>)
    ensures
        escaped_normal(a + b) == escaped_normal(a) + escaped_normal(b),
    decreases a.len(),
{
    if a.len() == 0 {
        assert(a + b =~= b);
        assert(escaped_normal(a) + escaped_normal(b) =~= escaped_normal(b));
    } else {
        assert((a + b).drop_first() =~= a.drop_first() + b);
        lemma_escaped_normal_concat(a.drop_first(), b);
        assert(escape_one(a[0]) + (escaped_normal(a.drop_first()) + escaped_normal(b)) =~= (
        escape_one(a[0]) + escaped_normal(a.drop_first())) + escaped_normal(b));
    }
}

/// Escaping one more byte extends the escaped prefix by that byte's
/// contribution; this is the shape the serialization loop preserves.
pub proof fn lemma_escaped_normal_take_step(s: Seq<u8>, i: int)
    requires
        0 <= i < s.len(),
    ensures
        escaped_normal(s.take(i + 1)) == escaped_normal(s.take(i)) + escape_one(s[i]),
{
    assert(s.take(i + 1) =~= s.take(i) + seq![s[i]]);
    lemma_escaped_normal_concat(s.take(i), seq![s[i]]);
    assert(escaped_normal(seq![s[i]]) =~= escape_one(s[i])) by {
        reveal_with_fuel(escaped_normal, 2);
        assert(seq![s[i]].drop_first() =~= Seq::<u8>::empty());
        assert(escape_one(s[i]) + Seq::<u8>::empty() =~= escape_one(s[i]));
    }
}

/// Escaping adds one byte per escaped character and nothing else.
pub proof fn lemma_escaped_normal_len(s: Seq<u8>)
    ensures
        escaped_normal(s).len() == s.len() + special_count(s),
    decreases s.len(),
{
    if s.len() > 0 {
        lemma_escaped_normal_len(s.drop_first());
    }
}

/// Escaping law for the `Normal` context: the output is the original
/// bytes of `s`, in order, with every escape-set byte immediately
/// preceded by exactly one backslash and no other bytes altered,
/// added or dropped. The byte `s[i]` stands at position
/// `i + special_count(s.take(i))` in the output, shifted one further
/// when it is itself escaped, and the output holds exactly one
/// inserted backslash per escaped byte.
pub proof fn lemma_escape_shape(s: Seq<u8>)
    ensures
        escaped_normal(s).len() == s.len() + special_count(s),
        forall|i: int|
            0 <= i < s.len() && !is_special(s[i]) ==> escaped_normal(s)[i + special_count(
                s.take(i),
            )] == s[i],
        forall|i: int|
            0 <= i < s.len() && is_special(s[i]) ==> escaped_normal(s)[i + special_count(
                s.take(i),
            )] == BACKSLASH && escaped_normal(s)[i + special_count(s.take(i)) + 1] == s[i],
{
    lemma_escaped_normal_len(s);
    assert forall|i: int| 0 <= i < s.len() implies {
        &&& !is_special(s[i]) ==> escaped_normal(s)[i + special_count(s.take(i))] == s[i]
        &&& is_special(s[i]) ==> escaped_normal(s)[i + special_count(s.take(i))] == BACKSLASH
            && escaped_normal(s)[i + special_count(s.take(i)) + 1] == s[i]
    } by {
        assert(s.take(i) + s.skip(i) =~= s);
        lemma_escaped_normal_concat(s.take(i), s.skip(i));
        lemma_escaped_normal_len(s.take(i));
        assert(s.take(i).len() == i);
        let head = escaped_normal(s.take(i));
        let tail = escaped_normal(s.skip(i));
        assert(escaped_normal(s) == head + tail);
        assert(s.skip(i).len() > 0);
        assert(s.skip(i)[0] == s[i]);
        assert(tail == escape_one(s[i]) + escaped_normal(s.skip(i).drop_first()));
        assert(tail[0] == escape_one(s[i])[0]);
        if is_special(s[i]) {
            assert(tail[1] == escape_one(s[i])[1]);
            assert(escaped_normal(s)[head.len() as int] == tail[0]);
            assert(escaped_normal(s)[head.len() as int + 1] == tail[1]);
        } else {
            assert(escaped_normal(s)[head.len() as int] == tail[0]);
        }
    }
}

/// Round-trip law: re-parsing the escaped output under the format's
/// own unescape rule yields back the original fragment, for every
/// byte sequence and the `Normal` context.
pub proof fn lemma_escape_round_trip(s: Seq<u8>)
    ensures
        unescaped_bytes(escaped_normal(s)) == s,
    decreases s.len(),
{
    if s.len() == 0 {
        assert(unescaped_bytes(escaped_normal(s)) =~= s);
    } else {
        lemma_escape_round_trip(s.drop_first());
        let e = escaped_normal(s);
        let rest = escaped_normal(s.drop_first());
        if is_special(s[0]) {
            assert(e == seq![BACKSLASH, s[0]] + rest);
            assert(e[0] == BACKSLASH);
            assert(e[1] == s[0]);
            assert(e.skip(2) =~= rest);
            assert(seq![s[0]] + s.drop_first() =~= s);
        } else {
            assert(e == seq![s[0]] + rest);
            assert(e[0] == s[0]);
            assert(e[0] != BACKSLASH);
            assert(e.skip(1) =~= rest);
            assert(seq![s[0]] + s.drop_first() =~= s);
        }
    }
}

/// Escaped output, emitted: scans `data` once and appends to `out` the
/// bytes of `data`, each escape-set byte prefixed with a backslash when
/// the context asks for it.
pub fn write_escaped(out: &mut Vec<u8>, data: &[u8], esc: Escaping)
    ensures
        final (out)@ == old(out)@ + escaped_bytes(data@, esc),
{
    match esc {
        Escaping::InlineCode => {
            append_bytes(out, data);
        },
        Escaping::Normal => {
            let n = data.len();
            for i in 0..n
                invariant
                    n == data@.len(),
                    out@ == old(out)@ + escaped_normal(data@.take(i as int)),
            {
                let b = data[i];
                if special(b) {
                    out.push(BACKSLASH);
                }
                out.push(b);
                proof {
                    lemma_escaped_normal_take_step(data@, i as int);
                    assert(out@ =~= old(out)@ + escaped_normal(data@.take(i + 1)));
                }
            }
            proof {
                assert(data@.take(n as int) =~= data@);
            }
        },
    }
}

/// Whether the `Normal` context escapes this byte.
pub fn special(b: u8) -> (r: bool)
    ensures
        r == is_special(b),
{
    b == BACKSLASH || b == BACKTICK || b == ASTERISK || b == UNDERSCORE || b == LEFT_BRACE || b == RIGHT_BRACE || b == LEFT_BRACKET
        || b == RIGHT_BRACKET || b == LEFT_PAREN || b == RIGHT_PAREN || b == HASH || b == PLUS || b == MINUS || b == DOT
        || b == BANG
}

/// Appends every byte of `data` to `out`, unchanged.
pub fn append_bytes(out: &mut Vec<u8>, data: &[u8])
    ensures
        final (out)@ == old(out)@ + data@,
{
    let n = data.len();
    for i in 0..n
        invariant
            n == data@.len(),
            out@ == old(out)@ + data@.take(i as int),
    {
        out.push(data[i]);
        proof {
            assert(out@ =~= old(out)@ + data@.take(i + 1));
        }
    }
    proof {
        assert(data@.take(n as int) =~= data@);
    }
}

} // verus!
