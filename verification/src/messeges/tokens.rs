//! Texts cut at a separator.

use vstd::prelude::*;
use vstd::slice::slice_subrange;
use crate::text::lacks;

verus! {

/// The parts of `s` between the separators `sep`, in order. A text with
/// `n` separators has `n + 1` parts, some of them possibly empty.
pub open spec fn split(s: Seq<u8>, sep: u8) -> Seq<Seq<u8>>
    decreases s.len(),
{
    if s.len() == 0 {
        seq![Seq::<u8>::empty()]
    } else {
        let before = split(s.drop_last(), sep);
        if s.last() == sep {
            before.push(Seq::<u8>::empty())
        } else {
            before.drop_last().push(before.last().push(s.last()))
        }
    }
}

/// The texts that the slices `tokens` hold.
pub open spec fn token_texts(tokens: Seq<&[u8]>) -> Seq<Seq<u8>> {
    Seq::new(tokens.len(), |i: int| tokens[i]@)
}

/// No part of a text holds a separator.
pub proof fn lemma_split_parts(s: Seq<u8>, sep: u8, k: int)
    requires
        0 <= k < split(s, sep).len(),
    ensures
        lacks(split(s, sep)[k], sep),
    decreases s.len(),
{
    if s.len() > 0 {
        let before = split(s.drop_last(), sep);
        if k < before.len() {
            lemma_split_parts(s.drop_last(), sep, k);
        }
    }
}

/// A text without separator is its own single part.
pub proof fn lemma_split_plain(s: Seq<u8>, sep: u8)
    requires
        lacks(s, sep),
    ensures
        split(s, sep) == seq![s],
    decreases s.len(),
{
    if s.len() > 0 {
        let r = s.drop_last();
        lemma_split_plain(r, sep);
        assert(seq![r].drop_last().push(r.push(s.last())) =~= seq![s]) by {
            assert(r.push(s.last()) =~= s);
        }
    } else {
        assert(s =~= Seq::<u8>::empty());
    }
}

/// A separator and a text without separator, set behind `a`, add that
/// text to the parts of `a`.
pub proof fn lemma_split_append(a: Seq<u8>, sep: u8, t: Seq<u8>)
    requires
        lacks(t, sep),
    ensures
        split(a + seq![sep] + t, sep) == split(a, sep).push(t),
    decreases t.len(),
{
    let s = a + seq![sep] + t;
    if t.len() == 0 {
        assert(s.drop_last() =~= a);
        assert(t =~= Seq::<u8>::empty());
    } else {
        let r = t.drop_last();
        lemma_split_append(a, sep, r);
        assert(s.drop_last() =~= a + seq![sep] + r);
        assert(r.push(t.last()) =~= t);
    }
}

/// The texts `parts` set one behind the other with `sep` between them.
pub open spec fn join(parts: Seq<Seq<u8>>, sep: u8) -> Seq<u8>
    decreases parts.len(),
{
    if parts.len() == 0 {
        Seq::<u8>::empty()
    } else if parts.len() == 1 {
        parts[0]
    } else {
        join(parts.drop_last(), sep) + seq![sep] + parts.last()
    }
}

/// A byte set behind the last of some parts is a byte set behind their
/// join.
pub proof fn lemma_join_push(parts: Seq<Seq<u8>>, sep: u8, b: u8)
    requires
        parts.len() >= 1,
    ensures
        join(parts.drop_last().push(parts.last().push(b)), sep) == join(parts, sep).push(b),
{
    let longer = parts.drop_last().push(parts.last().push(b));
    assert(longer.drop_last() =~= parts.drop_last());
}

/// Joining the parts of a text gives the text back.
pub proof fn lemma_join_split(s: Seq<u8>, sep: u8)
    ensures
        join(split(s, sep), sep) == s,
    decreases s.len(),
{
    if s.len() > 0 {
        let r = s.drop_last();
        let before = split(r, sep);
        lemma_join_split(r, sep);
        if s.last() == sep {
            let parts = before.push(Seq::<u8>::empty());
            assert(parts.drop_last() =~= before);
        } else {
            lemma_join_push(before, sep, s.last());
        }
    }
}

/// Cuts `text` at each `sep`.
pub fn split_at<'a>(text: &'a [u8], sep: u8) -> (tokens: Vec<&'a [u8]>)
    ensures
        token_texts(tokens@) == split(text@, sep),
        tokens.len() >= 1,
{
    let mut tokens: Vec<&'a [u8]> = Vec::new();
    let mut start: usize = 0;
    let mut i: usize = 0;
    proof {
        assert(text@.take(0) =~= Seq::<u8>::empty());
    }
    while i < text.len()
        invariant
            start <= i <= text.len(),
            token_texts(tokens@).push(text@.subrange(start as int, i as int)) == split(
                text@.take(i as int),
                sep,
            ),
        decreases text.len() - i,
    {
        let ghost current = text@.subrange(start as int, i as int);
        proof {
            assert(text@.take(i + 1).drop_last() =~= text@.take(i as int));
        }
        if text[i] == sep {
            let token = slice_subrange(text, start, i);
            tokens.push(token);
            start = i + 1;
            proof {
                assert(text@.subrange(start as int, i + 1) =~= Seq::<u8>::empty());
            }
        } else {
            proof {
                assert(text@.subrange(start as int, i + 1) =~= current.push(text@[i as int]));
            }
        }
        i = i + 1;
    }
    let token = slice_subrange(text, start, text.len());
    tokens.push(token);
    proof {
        assert(text@.take(i as int) =~= text@);
    }
    tokens
}

} // verus!
