//! Character classes and string building from std, with what is known of them.
use vstd::prelude::*;

verus! {

/// Whether std classifies `c` as alphanumeric (Unicode `Alphabetic` or
/// `Numeric`). The tables are Unicode's; nothing here restates them.
pub uninterp spec fn char_is_alphanumeric(c: char) -> bool;

/// Calls `char::is_alphanumeric`.
///
/// Claims that the answer is a function of the character, named
/// `char_is_alphanumeric`, and, as std documents for ASCII, that among ASCII
/// characters exactly the letters and the digits are alphanumeric; beyond
/// ASCII, which characters are alphanumeric is left to std's Unicode tables
/// and not stated.
#[verifier::external_body]
pub(crate) fn is_alphanumeric(c: char) -> (r: bool)
    ensures
        r == char_is_alphanumeric(c),
        (c as u32) < 0x80 ==> (r <==> (('a' <= c && c <= 'z') || ('A' <= c && c <= 'Z') || ('0' <= c && c <= '9'))),
{
    c.is_alphanumeric()
}

/// Calls `String::push`: the string afterwards is the one before followed by
/// `c`, as its documentation says.
#[verifier::external_body]
pub(crate) fn push_char(s: &mut String, c: char)
    ensures
        final(s)@ == old(s)@.push(c),
{
    s.push(c);
}

/// Unicode `White_Space`, the property `char::is_whitespace` is defined by.
pub open spec fn is_white_space(c: char) -> bool {
    let v = c as u32;
    ||| 0x09 <= v <= 0x0D
    ||| v == 0x20
    ||| v == 0x85
    ||| v == 0xA0
    ||| v == 0x1680
    ||| 0x2000 <= v <= 0x200A
    ||| v == 0x2028
    ||| v == 0x2029
    ||| v == 0x202F
    ||| v == 0x205F
    ||| v == 0x3000
}

/// `char::is_whitespace`.
pub fn is_whitespace(c: char) -> (r: bool)
    ensures
        r == is_white_space(c),
{
    let v = c as u32;
    (0x09 <= v && v <= 0x0D) || v == 0x20 || v == 0x85 || v == 0xA0 || v == 0x1680 || (0x2000
        <= v && v <= 0x200A) || v == 0x2028 || v == 0x2029 || v == 0x202F || v == 0x205F || v
        == 0x3000
}

/// Unicode general category `Cc`, which `char::is_control` tests.
pub open spec fn is_control_char(c: char) -> bool {
    let v = c as u32;
    v <= 0x1F || (0x7F <= v && v <= 0x9F)
}

/// `char::is_control`.
pub fn is_control(c: char) -> (r: bool)
    ensures
        r == is_control_char(c),
{
    let v = c as u32;
    v <= 0x1F || (0x7F <= v && v <= 0x9F)
}

/// A string made of the characters of `cs`.
pub fn string_from_chars(cs: &Vec<char>) -> (s: String)
    ensures
        s@ == cs@,
{
    let mut s = String::new();
    let mut i: usize = 0;
    while i < cs.len()
        invariant
            0 <= i <= cs.len(),
            s@ == cs@.take(i as int),
        decreases cs.len() - i,
    {
        push_char(&mut s, cs[i]);
        proof {
            assert(cs@.take(i + 1) =~= cs@.take(i as int).push(cs@[i as int]));
        }
        i = i + 1;
    }
    proof {
        assert(cs@.take(cs.len() as int) =~= cs@);
    }
    s
}

/// The characters of `text`, in order.
pub fn chars_of(text: &str) -> (v: Vec<char>)
    ensures
        v@ == text@,
{
    broadcast use vstd::string::group_string_axioms;
    let mut it = text.chars();
    let mut v: Vec<char> = Vec::new();
    loop
        invariant
            v@.len() <= text@.len(),
            v@ == text@.take(v@.len() as int),
            vstd::std_specs::iter::IteratorSpec::remaining(&it) == text@.skip(v@.len() as int),
        decreases text@.len() - v@.len(),
    {
        let ghost i = v@.len() as int;
        let next = it.next();
        match next {
            Some(c) => {
                proof {
                    assert(c == text@[i]);
                    assert(text@.skip(i).drop_first() =~= text@.skip(i + 1));
                    assert(text@.take(i + 1) =~= text@.take(i).push(c));
                }
                v.push(c);
            },
            None => {
                proof {
                    assert(text@.skip(i).len() == 0);
                    assert(text@.take(i) =~= text@);
                }
                return v;
            },
        }
    }
}

} // verus!
