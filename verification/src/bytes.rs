//! Byte strings: prefix tests, search, equality, and the lexicographic order
//! that timestamps are compared by.

use vstd::prelude::*;
use vstd::utf8::{decode_utf8, encode_utf8, encode_utf8_decode_utf8};

verus! {

/// `pattern` occurs in `text` starting at index `at`.
pub open spec fn has_prefix_at(text: Seq<u8>, at: int, pattern: Seq<u8>) -> bool {
    &&& 0 <= at
    &&& at + pattern.len() <= text.len()
    &&& text.subrange(at, at + pattern.len()) == pattern
}

/// Tests whether `pattern` occurs in `text` starting at index `at`.
pub fn starts_with_at(text: &[u8], at: usize, pattern: &[u8]) -> (found: bool)
    ensures
        found == has_prefix_at(text@, at as int, pattern@),
{
    if pattern.len() > text.len() || at > text.len() - pattern.len() {
        return false;
    }
    let mut k: usize = 0;
    while k < pattern.len()
        invariant
            k <= pattern.len(),
            at + pattern.len() <= text.len(),
            text@.subrange(at as int, at + k) == pattern@.take(k as int),
        decreases pattern.len() - k,
    {
        if text[at + k] != pattern[k] {
            proof {
                let window = text@.subrange(at as int, at + pattern.len());
                assert(window[k as int] == text@[at + k]);
            }
            return false;
        }
        proof {
            assert(text@.subrange(at as int, at + k + 1) =~= text@.subrange(
                at as int,
                at + k,
            ).push(text@[at + k]));
            assert(pattern@.take(k + 1) =~= pattern@.take(k as int).push(pattern@[k as int]));
        }
        k += 1;
    }
    proof {
        assert(pattern@.take(pattern.len() as int) =~= pattern@);
    }
    true
}

/// Joining texts does not depend on where the brackets stand.
pub proof fn lemma_join(a: Seq<u8>, b: Seq<u8>, c: Seq<u8>)
    ensures
        (a + b) + c == a + (b + c),
{
    assert((a + b) + c =~= a + (b + c));
}

/// The first index from `pos` on that holds the byte `b`; the length of the
/// text if there is none.
pub open spec fn next_byte(text: Seq<u8>, pos: int, b: u8) -> int
    decreases text.len() - pos,
{
    if 0 <= pos < text.len() && text[pos] != b {
        next_byte(text, pos + 1, b)
    } else {
        pos
    }
}

/// What `next_byte` finds lies in range, holds the byte unless it is the
/// end, and has no such byte in front of it.
pub proof fn lemma_next_byte_bounds(text: Seq<u8>, pos: int, b: u8)
    requires
        0 <= pos <= text.len(),
    ensures
        pos <= next_byte(text, pos, b) <= text.len(),
        next_byte(text, pos, b) < text.len() ==> text[next_byte(text, pos, b)] == b,
        forall|i: int| pos <= i < next_byte(text, pos, b) ==> #[trigger] text[i] != b,
    decreases text.len() - pos,
{
    if pos < text.len() && text[pos] != b {
        lemma_next_byte_bounds(text, pos + 1, b);
    }
}

/// An index that holds the byte, or the end, with no such byte between
/// `pos` and it, is what `next_byte` finds.
pub proof fn lemma_next_byte_is(text: Seq<u8>, pos: int, b: u8, at: int)
    requires
        0 <= pos <= at <= text.len(),
        forall|i: int| pos <= i < at ==> #[trigger] text[i] != b,
        at == text.len() || text[at] == b,
    ensures
        next_byte(text, pos, b) == at,
    decreases at - pos,
{
    if pos < at {
        lemma_next_byte_is(text, pos + 1, b, at);
    }
}

/// Finds the first index from `pos` on that holds the byte `b`.
pub fn find_byte(text: &[u8], pos: usize, b: u8) -> (at: usize)
    requires
        pos <= text.len(),
    ensures
        at == next_byte(text@, pos as int, b),
        pos <= at <= text.len(),
{
    let mut at: usize = pos;
    while at < text.len() && text[at] != b
        invariant
            pos <= at <= text.len(),
            next_byte(text@, pos as int, b) == next_byte(text@, at as int, b),
        decreases text.len() - at,
    {
        at += 1;
    }
    at
}

/// Tests two byte strings for equality.
pub fn bytes_equal(a: &[u8], b: &[u8]) -> (same: bool)
    ensures
        same == (a@ == b@),
{
    if a.len() != b.len() {
        return false;
    }
    let found = starts_with_at(a, 0, b);
    proof {
        assert(a@.subrange(0, a@.len() as int) =~= a@);
    }
    found
}

/// Two texts with the same UTF-8 encoding are the same text.
pub proof fn lemma_encoding_injective(a: Seq<char>, b: Seq<char>)
    requires
        encode_utf8(a) == encode_utf8(b),
    ensures
        a == b,
{
    encode_utf8_decode_utf8(a);
    encode_utf8_decode_utf8(b);
    assert(decode_utf8(encode_utf8(a)) == decode_utf8(encode_utf8(b)));
}

/// The UTF-8 encoding of a text that starts with an ASCII character starts
/// with the byte of that character.
pub proof fn lemma_first_byte(text: Seq<char>, first: char)
    requires
        text.len() > 0,
        text[0] == first,
        first as u32 <= 0x7f,
    ensures
        encode_utf8(text).len() > 0,
        encode_utf8(text)[0] == first as u8,
{
    let scalar = first as u32;
    assert((scalar & 0x7F) as u8 == scalar as u8) by (bit_vector)
        requires
            scalar <= 0x7f,
    ;
}

/// Tests two texts for equality.
pub fn text_equal(a: &str, b: &str) -> (same: bool)
    ensures
        same == (a@ == b@),
{
    let same = bytes_equal(a.as_bytes(), b.as_bytes());
    proof {
        if same {
            lemma_encoding_injective(a@, b@);
        }
    }
    same
}

/// Strict lexicographic order on byte strings: `a` sorts before `b`.
///
/// A proper prefix sorts before any of its extensions; otherwise the first
/// differing byte decides.
pub open spec fn bytes_before(a: Seq<u8>, b: Seq<u8>) -> bool
    decreases a.len(),
{
    if b.len() == 0 {
        false
    } else if a.len() == 0 {
        true
    } else if a[0] != b[0] {
        a[0] < b[0]
    } else {
        bytes_before(a.drop_first(), b.drop_first())
    }
}

/// Decides the strict lexicographic order of two byte strings.
pub fn is_before(a: &[u8], b: &[u8]) -> (before: bool)
    ensures
        before == bytes_before(a@, b@),
{
    let mut k: usize = 0;
    proof {
        assert(a@.skip(0) =~= a@);
        assert(b@.skip(0) =~= b@);
    }
    while k < a.len() && k < b.len()
        invariant
            k <= a.len(),
            k <= b.len(),
            bytes_before(a@, b@) == bytes_before(a@.skip(k as int), b@.skip(k as int)),
        decreases a.len() - k,
    {
        proof {
            assert(a@.skip(k as int).drop_first() =~= a@.skip(k + 1));
            assert(b@.skip(k as int).drop_first() =~= b@.skip(k + 1));
            assert(a@.skip(k as int)[0] == a@[k as int]);
            assert(b@.skip(k as int)[0] == b@[k as int]);
        }
        if a[k] != b[k] {
            return a[k] < b[k];
        }
        k += 1;
    }
    k < b.len()
}

/// The order is irreflexive: nothing sorts before itself.
pub proof fn lemma_before_irreflexive(a: Seq<u8>)
    ensures
        !bytes_before(a, a),
    decreases a.len(),
{
    if a.len() > 0 {
        lemma_before_irreflexive(a.drop_first());
    }
}

/// The order is asymmetric: two byte strings never sort before each other.
pub proof fn lemma_before_asymmetric(a: Seq<u8>, b: Seq<u8>)
    ensures
        !(bytes_before(a, b) && bytes_before(b, a)),
    decreases a.len(),
{
    if a.len() > 0 && b.len() > 0 && a[0] == b[0] {
        lemma_before_asymmetric(a.drop_first(), b.drop_first());
    }
}

/// The order is transitive.
pub proof fn lemma_before_transitive(a: Seq<u8>, b: Seq<u8>, c: Seq<u8>)
    requires
        bytes_before(a, b),
        bytes_before(b, c),
    ensures
        bytes_before(a, c),
    decreases a.len(),
{
    if a.len() > 0 && b.len() > 0 && c.len() > 0 && a[0] == b[0] && b[0] == c[0] {
        lemma_before_transitive(a.drop_first(), b.drop_first(), c.drop_first());
    }
}

/// The order is total: distinct byte strings are ordered one way or the other.
pub proof fn lemma_before_total(a: Seq<u8>, b: Seq<u8>)
    ensures
        a == b || bytes_before(a, b) || bytes_before(b, a),
    decreases a.len(),
{
    if a.len() > 0 && b.len() > 0 && a[0] == b[0] {
        lemma_before_total(a.drop_first(), b.drop_first());
        if a.drop_first() == b.drop_first() {
            assert(a =~= seq![a[0]] + a.drop_first());
            assert(b =~= seq![b[0]] + b.drop_first());
        }
    } else if a.len() == 0 && b.len() == 0 {
        assert(a =~= b);
    }
}

} // verus!
