//! The text of a document and the one way it changes: a byte range replaced
//! by new text, accepted only when the range falls between characters.
use vstd::prelude::*;
use crate::chars::{chars_of, string_from_chars};
use crate::text::{
    byte_len, char_index, is_boundary, lemma_char_index, lemma_pos_full, lemma_pos_le,
    lemma_pos_strict, locate, pos, text_byte_len,
};

verus! {

/// Whether the bytes `start..end` of `cs` can be replaced: in order, and
/// both ends between characters (or at the end of the text).
pub open spec fn replaceable(cs: Seq<char>, start: int, end: int) -> bool {
    start <= end && is_boundary(cs, start) && is_boundary(cs, end)
}

/// `cs` with the bytes `start..end` replaced by `with`.
pub open spec fn after_replace(cs: Seq<char>, start: int, end: int, with: Seq<char>) -> Seq<char> {
    cs.take(char_index(cs, start)) + with + cs.skip(char_index(cs, end))
}

/// The UTF-8 length of two texts one after the other.
pub proof fn lemma_byte_len_concat(a: Seq<char>, b: Seq<char>)
    ensures
        byte_len(a + b) == byte_len(a) + byte_len(b),
    decreases b.len(),
{
    if b.len() > 0 {
        lemma_byte_len_concat(a, b.drop_last());
        assert((a + b).drop_last() =~= a + b.drop_last());
    } else {
        assert(a + b =~= a);
    }
}

/// After a replacement, the text before it keeps its byte offsets, and the
/// end of the new text is a character boundary.
pub proof fn lemma_after_replace(cs: Seq<char>, start: int, end: int, with: Seq<char>)
    requires
        replaceable(cs, start, end),
    ensures
        ({
            let r = after_replace(cs, start, end, with);
            let a = char_index(cs, start);
            &&& 0 <= a <= char_index(cs, end) <= cs.len()
            &&& pos(cs, a) == start
            &&& r.len() == a + with.len() + cs.len() - char_index(cs, end)
            &&& pos(r, a) == start
            &&& is_boundary(r, start)
            &&& pos(r, a + with.len()) == start + byte_len(with)
            &&& is_boundary(r, start + byte_len(with))
            &&& byte_len(r) == byte_len(cs) - (end - start) + byte_len(with)
            &&& forall|k: int| 0 <= k <= a ==> #[trigger] pos(r, k) == pos(cs, k)
        }),
{
    let a = char_index(cs, start);
    let b = char_index(cs, end);
    let r = after_replace(cs, start, end, with);
    assert(0 <= a <= cs.len() && pos(cs, a) == start);
    assert(0 <= b <= cs.len() && pos(cs, b) == end);
    if b < a {
        lemma_pos_strict(cs, b, a);
    }
    assert forall|k: int| 0 <= k <= a implies #[trigger] pos(r, k) == pos(cs, k) by {
        assert(r.take(k) =~= cs.take(k));
    }
    assert(r.take(a + with.len()) =~= cs.take(a) + with);
    lemma_byte_len_concat(cs.take(a), with);
    lemma_char_index(r, a);
    lemma_char_index(r, a + with.len());
    assert(r =~= (cs.take(a) + with) + cs.skip(b));
    lemma_byte_len_concat(cs.take(a) + with, cs.skip(b));
    assert(cs =~= cs.take(b) + cs.skip(b));
    lemma_byte_len_concat(cs.take(b), cs.skip(b));
}

/// Replaces the bytes `start..end` of `buffer` by `with`. Refused, leaving
/// the text as it was, when the range is out of order or does not fall
/// between characters.
pub fn replace(buffer: &mut String, start: usize, end: usize, with: &str) -> (ok: bool)
    ensures
        ok == replaceable(old(buffer)@, start as int, end as int),
        ok ==> final(buffer)@ == after_replace(old(buffer)@, start as int, end as int, with@),
        !ok ==> *final(buffer) == *old(buffer),
{
    let (a, a_ok) = locate(buffer.as_str(), start);
    let (b, b_ok) = locate(buffer.as_str(), end);
    if !(start <= end && a_ok && b_ok) {
        return false;
    }
    let ghost cs = buffer@;
    proof {
        if b < a {
            lemma_pos_strict(cs, b as int, a as int);
        }
    }
    let old_chars = chars_of(buffer.as_str());
    let new_chars = chars_of(with);
    let mut out: Vec<char> = Vec::new();
    let mut i: usize = 0;
    while i < a
        invariant
            old_chars@ == cs,
            a <= b <= cs.len(),
            0 <= i <= a,
            out@ == cs.take(i as int),
        decreases a - i,
    {
        out.push(old_chars[i]);
        proof {
            assert(cs.take(i + 1) =~= cs.take(i as int).push(cs[i as int]));
        }
        i = i + 1;
    }
    let mut j: usize = 0;
    while j < new_chars.len()
        invariant
            new_chars@ == with@,
            0 <= j <= new_chars@.len(),
            out@ == cs.take(a as int) + with@.take(j as int),
        decreases new_chars@.len() - j,
    {
        out.push(new_chars[j]);
        proof {
            assert(cs.take(a as int) + with@.take(j + 1) =~= (cs.take(a as int) + with@.take(j as int)).push(
                with@[j as int],
            ));
        }
        j = j + 1;
    }
    proof {
        assert(with@.take(with@.len() as int) =~= with@);
    }
    let mut k: usize = b;
    while k < old_chars.len()
        invariant
            old_chars@ == cs,
            a <= b <= k <= cs.len(),
            out@ == cs.take(a as int) + with@ + cs.subrange(b as int, k as int),
        decreases cs.len() - k,
    {
        out.push(old_chars[k]);
        proof {
            assert(cs.take(a as int) + with@ + cs.subrange(b as int, k + 1) =~= (cs.take(a as int) + with@
                + cs.subrange(b as int, k as int)).push(cs[k as int]));
        }
        k = k + 1;
    }
    proof {
        assert(cs.subrange(b as int, cs.len() as int) =~= cs.skip(b as int));
    }
    *buffer = string_from_chars(&out);
    true
}

} // verus!
