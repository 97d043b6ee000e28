//! Strings and their bytes.
//!
//! The library describes sentences as sequences of bytes. A `String` is
//! related to them through `encode_utf8`, the bytes that its characters
//! occupy.

use vstd::prelude::*;
use vstd::utf8::*;

verus! {

/// True when every byte of `bytes` is an ASCII byte.
pub open spec fn is_ascii_bytes(bytes: Seq<u8>) -> bool {
    forall|i: int| 0 <= i < bytes.len() ==> #[trigger] bytes[i] < 128
}

/// The bytes of a text are those of its first part followed by those of
/// its second part.
pub proof fn lemma_utf8_concat(a: Seq<char>, b: Seq<char>)
    ensures
        encode_utf8(a + b) == encode_utf8(a) + encode_utf8(b),
    decreases a.len(),
{
    if a.len() > 0 {
        lemma_utf8_concat(a.drop_first(), b);
        assert((a + b).drop_first() =~= a.drop_first() + b);
    }
}

/// An ASCII character occupies one byte: its code.
pub proof fn lemma_utf8_ascii_char(c: char)
    requires
        (c as u32) < 128,
    ensures
        encode_utf8(seq![c]) == seq![c as u8],
{
    let u = c as u32;
    assert(leading_byte_width_1(u) == u as u8) by (bit_vector)
        requires
            u < 128,
    ;
    reveal_with_fuel(encode_utf8, 2);
}

/// The bytes that an ASCII text occupies are the codes of its characters.
pub open spec fn ascii_codes(text: Seq<char>) -> Seq<u8> {
    Seq::new(text.len(), |i: int| text[i] as u8)
}

/// An ASCII text occupies one byte for each character: its code.
pub proof fn lemma_utf8_ascii_text(text: Seq<char>)
    requires
        is_ascii_chars(text),
    ensures
        encode_utf8(text) == ascii_codes(text),
{
    is_ascii_chars_encode_utf8(text);
}

/// `String::push` of std: the string afterwards holds the characters it
/// held before, followed by `c`.
#[verifier::external_body]
pub(crate) fn push_char(s: &mut String, c: char)
    ensures
        final(s)@ == old(s)@.push(c),
{
    s.push(c)
}

/// Appends the ASCII byte `b` to `s` as one character.
pub(crate) fn push_ascii(s: &mut String, b: u8)
    requires
        b < 128,
    ensures
        encode_utf8(final(s)@) == encode_utf8(old(s)@).push(b),
{
    let c = b as char;
    push_char(s, c);
    proof {
        lemma_utf8_ascii_char(c);
        lemma_utf8_concat(old(s)@, seq![c]);
        assert(old(s)@.push(c) =~= old(s)@ + seq![c]);
    }
}

/// Appends the ASCII bytes `bytes` to `s`, one character each.
pub(crate) fn push_ascii_bytes(s: &mut String, bytes: &[u8])
    requires
        is_ascii_bytes(bytes@),
    ensures
        encode_utf8(final(s)@) == encode_utf8(old(s)@) + bytes@,
{
    let mut i: usize = 0;
    while i < bytes.len()
        invariant
            i <= bytes.len(),
            is_ascii_bytes(bytes@),
            encode_utf8(s@) == encode_utf8(old(s)@) + bytes@.take(i as int),
        decreases bytes.len() - i,
    {
        push_ascii(s, bytes[i]);
        i = i + 1;
    }
}

/// The string whose bytes are the ASCII bytes `bytes`.
pub(crate) fn ascii_string(bytes: &[u8]) -> (s: String)
    requires
        is_ascii_bytes(bytes@),
    ensures
        encode_utf8(s@) == bytes@,
{
    let mut s = String::new();
    push_ascii_bytes(&mut s, bytes);
    s
}

/// Appends the string `other` to `s`.
pub(crate) fn push_text(s: &mut String, other: &str)
    ensures
        final(s)@ == old(s)@ + other@,
        encode_utf8(final(s)@) == encode_utf8(old(s)@) + encode_utf8(other@),
{
    s.append(other);
    proof {
        lemma_utf8_concat(old(s)@, other@);
    }
}

/// The position of the first `b` in `s`, or the length of `s` when `s`
/// holds no `b`.
pub open spec fn first_index(s: Seq<u8>, b: u8) -> int
    decreases s.len(),
{
    if s.len() == 0 || s[0] == b {
        0
    } else {
        1 + first_index(s.drop_first(), b)
    }
}

/// The position of the last `b` in `s`, or -1 when `s` holds no `b`.
pub open spec fn last_index(s: Seq<u8>, b: u8) -> int
    decreases s.len(),
{
    if s.len() == 0 {
        -1
    } else if s.last() == b {
        s.len() - 1
    } else {
        last_index(s.drop_last(), b)
    }
}

/// True when no byte of `s` is `b`.
pub open spec fn lacks(s: Seq<u8>, b: u8) -> bool {
    forall|i: int| 0 <= i < s.len() ==> #[trigger] s[i] != b
}

/// `first_index` is the one position that holds `b` with no `b` before it.
pub proof fn lemma_first_index(s: Seq<u8>, b: u8, i: int)
    requires
        0 <= i <= s.len(),
        lacks(s.take(i), b),
        i < s.len() ==> s[i] == b,
    ensures
        first_index(s, b) == i,
    decreases s.len(),
{
    if i > 0 {
        assert(s.take(i)[0] == s[0]);
        let r = s.drop_first();
        assert forall|j: int| 0 <= j < i - 1 implies #[trigger] r.take(i - 1)[j] != b by {
            assert(r.take(i - 1)[j] == s.take(i)[j + 1]);
        }
        lemma_first_index(r, b, i - 1);
    }
}

/// Where `first_index` points, and what lies before.
pub proof fn lemma_first_index_found(s: Seq<u8>, b: u8)
    ensures
        0 <= first_index(s, b) <= s.len(),
        lacks(s.take(first_index(s, b)), b),
        first_index(s, b) < s.len() ==> s[first_index(s, b)] == b,
        first_index(s, b) == s.len() <==> lacks(s, b),
    decreases s.len(),
{
    if s.len() > 0 && s[0] != b {
        let r = s.drop_first();
        lemma_first_index_found(r, b);
        let i = first_index(s, b);
        assert forall|j: int| 0 <= j < i implies #[trigger] s.take(i)[j] != b by {
            if j > 0 {
                assert(s.take(i)[j] == r.take(i - 1)[j - 1]);
            }
        }
        if i == s.len() {
            assert(s.take(i) =~= s);
        }
    }
}

/// `last_index` is the one position that holds `b` with no `b` after it.
pub proof fn lemma_last_index(s: Seq<u8>, b: u8, i: int)
    requires
        -1 <= i < s.len(),
        lacks(s.skip(i + 1), b),
        0 <= i ==> s[i] == b,
    ensures
        last_index(s, b) == i,
    decreases s.len(),
{
    if s.len() > 0 && i < s.len() - 1 {
        let t = s.skip(i + 1);
        assert(t[t.len() - 1] == s.last());
        let r = s.drop_last();
        assert forall|j: int| 0 <= j < r.skip(i + 1).len() implies #[trigger] r.skip(i + 1)[j]
            != b by {
            assert(r.skip(i + 1)[j] == t[j]);
        }
        lemma_last_index(r, b, i);
    }
}

/// Where `last_index` points, and what lies behind.
pub proof fn lemma_last_index_found(s: Seq<u8>, b: u8)
    ensures
        -1 <= last_index(s, b) < s.len(),
        last_index(s, b) >= 0 ==> s[last_index(s, b)] == b,
        lacks(s.skip(last_index(s, b) + 1), b),
    decreases s.len(),
{
    if s.len() > 0 && s.last() != b {
        let r = s.drop_last();
        lemma_last_index_found(r, b);
        let i = last_index(s, b);
        assert forall|j: int| 0 <= j < s.skip(i + 1).len() implies #[trigger] s.skip(i + 1)[j]
            != b by {
            if j < r.skip(i + 1).len() {
                assert(s.skip(i + 1)[j] == r.skip(i + 1)[j]);
            }
        }
    }
}

/// Finds the first `b` in `bytes`.
pub fn find_first(bytes: &[u8], b: u8) -> (i: usize)
    ensures
        i == first_index(bytes@, b),
        i <= bytes.len(),
{
    let mut i: usize = 0;
    while i < bytes.len() && bytes[i] != b
        invariant
            i <= bytes.len(),
            lacks(bytes@.take(i as int), b),
        decreases bytes.len() - i,
    {
        i = i + 1;
    }
    proof {
        lemma_first_index(bytes@, b, i as int);
    }
    i
}

/// Finds the last `b` in `bytes`.
pub fn find_last(bytes: &[u8], b: u8) -> (r: Option<usize>)
    ensures
        match r {
            Some(i) => i == last_index(bytes@, b) && i < bytes.len(),
            None => last_index(bytes@, b) == -1,
        },
{
    let mut i: usize = bytes.len();
    while i > 0 && bytes[i - 1] != b
        invariant
            i <= bytes.len(),
            lacks(bytes@.skip(i as int), b),
        decreases i,
    {
        proof {
            assert forall|j: int| 0 <= j < bytes@.skip(i - 1).len() implies #[trigger] bytes@.skip(
                i - 1,
            )[j] != b by {
                if j > 0 {
                    assert(bytes@.skip(i - 1)[j] == bytes@.skip(i as int)[j - 1]);
                }
            }
        }
        i = i - 1;
    }
    proof {
        lemma_last_index(bytes@, b, i as int - 1);
    }
    if i == 0 {
        None
    } else {
        Some(i - 1)
    }
}

} // verus!
