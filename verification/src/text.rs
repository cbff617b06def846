//! Byte offsets and character positions in UTF-8 text.
//!
//! The editor counts the text in bytes, the drawing library in characters.
//! The model here is the character sequence `text@`; a byte offset is the
//! length of the UTF-8 encoding of a prefix of it, `pos(text@, i)`.
use vstd::prelude::*;
use vstd::std_specs::iter::IteratorSpec;
use vstd::utf8::{encode_utf8, encode_scalar, char_is_scalar};
use vstd::string::StringSliceAdditionalSpecFns;

verus! {

broadcast use vstd::string::group_string_axioms;

/// Number of bytes of the UTF-8 encoding of `c`.
pub open spec fn utf8_width(c: char) -> nat {
    if (c as u32) < 0x80 {
        1
    } else if (c as u32) < 0x800 {
        2
    } else if (c as u32) < 0x10000 {
        3
    } else {
        4
    }
}

/// Number of bytes of the UTF-8 encoding of `cs`.
pub open spec fn byte_len(cs: Seq<char>) -> nat
    decreases cs.len(),
{
    if cs.len() == 0 {
        0
    } else {
        byte_len(cs.drop_last()) + utf8_width(cs.last())
    }
}

/// Byte offset at which the character with index `i` starts.
pub open spec fn pos(cs: Seq<char>, i: int) -> nat {
    byte_len(cs.take(i))
}

/// Some character starts (or the text ends) exactly at byte `b`.
pub open spec fn is_boundary(cs: Seq<char>, b: int) -> bool {
    exists|k: int| 0 <= k <= cs.len() && #[trigger] pos(cs, k) == b
}

pub open spec fn min_nat(a: int, b: int) -> int {
    if a <= b {
        a
    } else {
        b
    }
}

/// How many times `c` occurs in `cs`.
pub open spec fn count_char(cs: Seq<char>, c: char) -> nat
    decreases cs.len(),
{
    if cs.len() == 0 {
        0
    } else {
        count_char(cs.drop_last(), c) + if cs.last() == c {
            1nat
        } else {
            0nat
        }
    }
}

/// The characters after the last line break of `cs`.
pub open spec fn last_line(cs: Seq<char>) -> Seq<char>
    decreases cs.len(),
{
    if cs.len() == 0 {
        cs
    } else if cs.last() == '\n' {
        Seq::empty()
    } else {
        last_line(cs.drop_last()).push(cs.last())
    }
}

/// Character index `s` starts line number `line` (counting from zero).
pub open spec fn is_line_start(cs: Seq<char>, s: int, line: int) -> bool {
    &&& 0 <= s <= cs.len()
    &&& (s == 0 || cs[s - 1] == '\n')
    &&& count_char(cs.take(s), '\n') == line
}

/// Number of characters of the line that starts at `s`, up to its break.
pub open spec fn line_len_from(cs: Seq<char>, s: int) -> nat
    decreases cs.len() - s,
{
    if s < 0 || s >= cs.len() || cs[s] == '\n' {
        0
    } else {
        1 + line_len_from(cs, s + 1)
    }
}

/// Index of the character that starts at byte `b`, when some does.
pub open spec fn char_index(cs: Seq<char>, b: int) -> int {
    choose|k: int| 0 <= k <= cs.len() && #[trigger] pos(cs, k) == b
}

/// The character that ends at byte `b`: `text.get(..b)` and its last char.
pub open spec fn char_before_spec(cs: Seq<char>, b: int) -> Option<char> {
    if is_boundary(cs, b) && char_index(cs, b) > 0 {
        Some(cs[char_index(cs, b) - 1])
    } else {
        None
    }
}

/// The character that starts at byte `b`: `text.get(b..)` and its first char.
pub open spec fn char_after_spec(cs: Seq<char>, b: int) -> Option<char> {
    if is_boundary(cs, b) && char_index(cs, b) < cs.len() {
        Some(cs[char_index(cs, b)])
    } else {
        None
    }
}

pub proof fn lemma_char_index(cs: Seq<char>, k: int)
    requires
        0 <= k <= cs.len(),
    ensures
        is_boundary(cs, pos(cs, k) as int),
        char_index(cs, pos(cs, k) as int) == k,
{
    let b = pos(cs, k) as int;
    assert(is_boundary(cs, b));
    let j = char_index(cs, b);
    lemma_pos_injective(cs, j, k);
}

pub proof fn lemma_width_encoding(c: char)
    ensures
        encode_scalar(c as u32).len() == utf8_width(c),
        1 <= utf8_width(c) <= 4,
{
    char_is_scalar(c);
}

pub proof fn lemma_pos_step(cs: Seq<char>, i: int)
    requires
        0 <= i < cs.len(),
    ensures
        pos(cs, i + 1) == pos(cs, i) + utf8_width(cs[i]),
{
    assert(cs.take(i + 1).drop_last() =~= cs.take(i));
}

pub proof fn lemma_pos_zero(cs: Seq<char>)
    ensures
        pos(cs, 0) == 0,
{
    assert(cs.take(0).len() == 0);
}

pub proof fn lemma_pos_full(cs: Seq<char>)
    ensures
        pos(cs, cs.len() as int) == byte_len(cs),
{
    assert(cs.take(cs.len() as int) =~= cs);
}

/// Byte offsets grow strictly with the character index.
pub proof fn lemma_pos_strict(cs: Seq<char>, i: int, j: int)
    requires
        0 <= i < j <= cs.len(),
    ensures
        pos(cs, i) < pos(cs, j),
        pos(cs, j) - pos(cs, i) >= j - i,
    decreases j - i,
{
    lemma_pos_step(cs, j - 1);
    lemma_width_encoding(cs[j - 1]);
    if i < j - 1 {
        lemma_pos_strict(cs, i, j - 1);
    }
}

pub proof fn lemma_pos_le(cs: Seq<char>, i: int, j: int)
    requires
        0 <= i <= j <= cs.len(),
    ensures
        pos(cs, i) <= pos(cs, j),
{
    if i < j {
        lemma_pos_strict(cs, i, j);
    }
}

/// At most one character index starts at a given byte.
pub proof fn lemma_pos_injective(cs: Seq<char>, i: int, j: int)
    requires
        0 <= i <= cs.len(),
        0 <= j <= cs.len(),
        pos(cs, i) == pos(cs, j),
    ensures
        i == j,
{
    if i < j {
        lemma_pos_strict(cs, i, j);
    } else if j < i {
        lemma_pos_strict(cs, j, i);
    }
}

pub proof fn lemma_byte_len_front(cs: Seq<char>)
    requires
        cs.len() > 0,
    ensures
        byte_len(cs) == utf8_width(cs[0]) + byte_len(cs.drop_first()),
    decreases cs.len(),
{
    if cs.len() > 1 {
        lemma_byte_len_front(cs.drop_last());
        assert(cs.drop_last().drop_first() =~= cs.drop_first().drop_last());
        assert(cs.drop_first().last() == cs.last());
        assert(cs.drop_last()[0] == cs[0]);
    } else {
        assert(cs.drop_first().len() == 0);
        assert(cs.drop_last().len() == 0);
        assert(byte_len(cs.drop_first()) == 0);
        assert(byte_len(cs.drop_last()) == 0);
    }
}

/// `byte_len` is the length of vstd's UTF-8 encoding.
pub proof fn lemma_byte_len_encode(cs: Seq<char>)
    ensures
        byte_len(cs) == encode_utf8(cs).len(),
    decreases cs.len(),
{
    if cs.len() > 0 {
        lemma_byte_len_front(cs);
        lemma_width_encoding(cs[0]);
        lemma_byte_len_encode(cs.drop_first());
    }
}

pub proof fn lemma_len_le_byte_len(cs: Seq<char>)
    ensures
        cs.len() <= byte_len(cs),
{
    lemma_pos_full(cs);
    lemma_pos_zero(cs);
    if cs.len() > 0 {
        lemma_pos_strict(cs, 0, cs.len() as int);
    }
}

pub proof fn lemma_count_step(cs: Seq<char>, i: int, c: char)
    requires
        0 <= i < cs.len(),
    ensures
        count_char(cs.take(i + 1), c) == count_char(cs.take(i), c) + if cs[i] == c {
            1nat
        } else {
            0nat
        },
        last_line(cs.take(i + 1)) == if cs[i] == '\n' {
            Seq::<char>::empty()
        } else {
            last_line(cs.take(i)).push(cs[i])
        },
{
    assert(cs.take(i + 1).drop_last() =~= cs.take(i));
}

pub proof fn lemma_count_prefix(cs: Seq<char>, i: int, c: char)
    requires
        0 <= i <= cs.len(),
    ensures
        count_char(cs.take(i), c) <= count_char(cs, c),
    decreases cs.len() - i,
{
    if i < cs.len() {
        lemma_count_step(cs, i, c);
        lemma_count_prefix(cs, i + 1, c);
    } else {
        assert(cs.take(i) =~= cs);
    }
}

/// Position of byte `offset` among the characters: the index of the character
/// starting there, and whether one does.
pub fn locate(text: &str, offset: usize) -> (r: (usize, bool))
    ensures
        r.1 == is_boundary(text@, offset as int),
        r.1 ==> r.0 <= text@.len() && pos(text@, r.0 as int) == offset && char_index(
            text@,
            offset as int,
        ) == r.0,
{
    let ghost cs = text@;
    let len = text_byte_len(text);
    let mut it = text.chars();
    let mut i: usize = 0;
    let mut b: usize = 0;
    proof {
        lemma_pos_zero(cs);
        lemma_pos_full(cs);
        lemma_len_le_byte_len(cs);
    }
    loop
        invariant
            cs == text@,
            len == byte_len(cs),
            pos(cs, cs.len() as int) == len,
            cs.len() <= len,
            0 <= i <= cs.len(),
            b == pos(cs, i as int),
            b <= offset,
            forall|k: int| 0 <= k < i ==> #[trigger] pos(cs, k) != offset,
            it.remaining() == cs.skip(i as int),
        decreases cs.len() - i,
    {
        if b == offset {
            proof {
                lemma_char_index(cs, i as int);
            }
            return (i, true);
        }
        let next = it.next();
        match next {
            Some(c) => {
                proof {
                    assert(c == cs[i as int]);
                    assert(cs.skip(i as int).drop_first() =~= cs.skip(i + 1));
                    lemma_pos_step(cs, i as int);
                    lemma_pos_le(cs, i + 1, cs.len() as int);
                }
                let w = char_width(c);
                if b + w > offset {
                    proof {
                        assert forall|k: int| 0 <= k <= cs.len() implies #[trigger] pos(cs, k) != offset by {
                            if k > i {
                                lemma_pos_le(cs, i + 1, k);
                            }
                        }
                    }
                    return (i, false);
                }
                b = b + w;
                i = i + 1;
            },
            None => {
                proof {
                    assert(cs.skip(i as int).len() == 0);
                }
                return (i, false);
            },
        }
    }
}

/// The character right before byte `offset`, when `offset` starts a
/// character (or ends the text) and is not the start of the text.
pub fn char_before(text: &str, offset: usize) -> (r: Option<char>)
    ensures
        r == char_before_spec(text@, offset as int),
{
    let (k, found) = locate(text, offset);
    if !found || k == 0 {
        return None;
    }
    let mut it = text.chars();
    let mut i: usize = 0;
    while i + 1 < k
        invariant
            0 <= i < k,
            k <= text@.len(),
            it.remaining() == text@.skip(i as int),
        decreases k - i,
    {
        let _ = it.next();
        proof {
            assert(text@.skip(i as int).drop_first() =~= text@.skip(i + 1));
        }
        i = i + 1;
    }
    let c = it.next();
    c
}

/// The character that starts at byte `offset`, when one does.
pub fn char_after(text: &str, offset: usize) -> (r: Option<char>)
    ensures
        r == char_after_spec(text@, offset as int),
{
    let (k, found) = locate(text, offset);
    if !found {
        return None;
    }
    let mut it = text.chars();
    let mut i: usize = 0;
    while i < k
        invariant
            0 <= i <= k,
            k <= text@.len(),
            it.remaining() == text@.skip(i as int),
        decreases k - i,
    {
        let _ = it.next();
        proof {
            assert(text@.skip(i as int).drop_first() =~= text@.skip(i + 1));
        }
        i = i + 1;
    }
    let c = it.next();
    c
}

/// Length of the text in bytes.
pub fn text_byte_len(text: &str) -> (n: usize)
    ensures
        n == byte_len(text@),
{
    let bytes = text.as_bytes();
    proof {
        lemma_byte_len_encode(text@);
    }
    bytes.len()
}

/// Width of `c` in UTF-8, in bytes.
pub fn char_width(c: char) -> (w: usize)
    ensures
        w == utf8_width(c),
{
    let v = c as u32;
    if v < 0x80 {
        1
    } else if v < 0x800 {
        2
    } else if v < 0x10000 {
        3
    } else {
        4
    }
}

/// How many characters come before byte `offset` (the end for an offset
/// past it), or all of them when `offset` falls inside a character.
pub open spec fn chars_upto(cs: Seq<char>, offset: int) -> int {
    let b = min_nat(offset, byte_len(cs) as int);
    if is_boundary(cs, b) {
        char_index(cs, b)
    } else {
        cs.len() as int
    }
}

/// How many characters come before byte `offset`.
///
/// An offset past the end counts up to the end. An offset that falls inside a
/// character does not name a prefix of the text, and counts the whole text.
pub fn chars_before(text: &str, offset: usize) -> (n: usize)
    ensures
        n == chars_upto(text@, offset as int),
        n <= text@.len(),
        pos(text@, n as int) == min_nat(offset as int, byte_len(text@) as int) || (n
            == text@.len() && !is_boundary(text@, min_nat(offset as int, byte_len(text@) as int))),
{
    let ghost cs = text@;
    let len = text_byte_len(text);
    let target = if offset < len {
        offset
    } else {
        len
    };
    let mut it = text.chars();
    let mut i: usize = 0;
    let mut b: usize = 0;
    let mut found: Option<usize> = None;
    proof {
        lemma_pos_zero(cs);
        lemma_pos_full(cs);
        lemma_len_le_byte_len(cs);
    }
    loop
        invariant
            cs == text@,
            len == byte_len(cs),
            pos(cs, cs.len() as int) == len,
            cs.len() <= len,
            target == min_nat(offset as int, len as int),
            0 <= i <= cs.len(),
            b == pos(cs, i as int),
            it.remaining() == cs.skip(i as int),
            found matches Some(k) ==> k <= i && pos(cs, k as int) == target,
            found is None ==> forall|k: int| 0 <= k < i ==> #[trigger] pos(cs, k) != target,
        decreases cs.len() - i,
    {
        if found.is_none() && b == target {
            found = Some(i);
        }
        let next = it.next();
        match next {
            Some(c) => {
                proof {
                    assert(c == cs[i as int]);
                    assert(cs.skip(i as int).drop_first() =~= cs.skip(i + 1));
                    lemma_pos_step(cs, i as int);
                    lemma_pos_le(cs, i + 1, cs.len() as int);
                }
                b = b + char_width(c);
                i = i + 1;
            },
            None => {
                assert(cs.skip(i as int).len() == 0);
                match found {
                    Some(k) => {
                        proof {
                            lemma_char_index(cs, k as int);
                        }
                        return k;
                    },
                    None => {
                        assert(!is_boundary(cs, target as int));
                        return i;
                    },
                }
            },
        }
    }
}


/// Byte offset at which the character number `chars` starts, or the length
/// of the text when it has fewer characters.
pub fn byte_at_char(text: &str, chars: usize) -> (b: usize)
    ensures
        b == pos(text@, min_nat(chars as int, text@.len() as int)),
{
    let ghost cs = text@;
    let len = text_byte_len(text);
    let mut it = text.chars();
    let mut i: usize = 0;
    let mut b: usize = 0;
    proof {
        lemma_pos_zero(cs);
        lemma_pos_full(cs);
        lemma_len_le_byte_len(cs);
    }
    while i < chars
        invariant
            cs == text@,
            len == byte_len(cs),
            pos(cs, cs.len() as int) == len,
            0 <= i <= chars,
            i <= cs.len(),
            b == pos(cs, i as int),
            it.remaining() == cs.skip(i as int),
        decreases chars - i,
    {
        let next = it.next();
        match next {
            Some(c) => {
                proof {
                    assert(c == cs[i as int]);
                    assert(cs.skip(i as int).drop_first() =~= cs.skip(i + 1));
                    lemma_pos_step(cs, i as int);
                    lemma_pos_le(cs, i + 1, cs.len() as int);
                }
                b = b + char_width(c);
                i = i + 1;
            },
            None => {
                assert(cs.skip(i as int).len() == 0);
                return b;
            },
        }
    }
    b
}

/// Byte offset of column `column` inside a line, or the length of the line
/// when it is shorter.
pub fn byte_at_column(text: &str, column: usize) -> (b: usize)
    ensures
        b == pos(text@, min_nat(column as int, text@.len() as int)),
{
    byte_at_char(text, column)
}

/// Line and column (in characters) of the byte offset `cursor`.
///
/// An offset past the end is the end of the text.
pub fn line_column(text: &str, cursor: usize) -> (r: (usize, usize))
    requires
        is_boundary(text@, min_nat(cursor as int, byte_len(text@) as int)),
    ensures
        forall|k: int|
            0 <= k <= text@.len() && #[trigger] pos(text@, k) == min_nat(
                cursor as int,
                byte_len(text@) as int,
            ) ==> r.0 == count_char(text@.take(k), '\n') && r.1 == last_line(text@.take(k)).len(),
{
    let ghost cs = text@;
    let len = text_byte_len(text);
    let target = if cursor < len {
        cursor
    } else {
        len
    };
    let ghost k0 = choose|k: int| 0 <= k <= cs.len() && #[trigger] pos(cs, k) == target;
    let mut it = text.chars();
    let mut i: usize = 0;
    let mut b: usize = 0;
    let mut line: usize = 0;
    let mut column: usize = 0;
    proof {
        lemma_pos_zero(cs);
        lemma_pos_full(cs);
        lemma_len_le_byte_len(cs);
        assert(cs.take(0) =~= Seq::<char>::empty());
    }
    loop
        invariant
            cs == text@,
            len == byte_len(cs),
            pos(cs, cs.len() as int) == len,
            cs.len() <= len,
            target == min_nat(cursor as int, len as int),
            0 <= k0 <= cs.len(),
            pos(cs, k0) == target,
            0 <= i <= k0,
            b == pos(cs, i as int),
            line == count_char(cs.take(i as int), '\n'),
            column == last_line(cs.take(i as int)).len(),
            line <= i,
            column <= i,
            it.remaining() == cs.skip(i as int),
        decreases cs.len() - i,
    {
        if b == target {
            proof {
                lemma_pos_injective(cs, i as int, k0);
                assert forall|k: int|
                    0 <= k <= cs.len() && #[trigger] pos(cs, k) == target implies k == i by {
                    lemma_pos_injective(cs, i as int, k);
                }
            }
            return (line, column);
        }
        proof {
            if i == k0 {
                assert(false);
            }
        }
        let next = it.next();
        match next {
            Some(c) => {
                proof {
                    assert(c == cs[i as int]);
                    assert(cs.skip(i as int).drop_first() =~= cs.skip(i + 1));
                    lemma_pos_step(cs, i as int);
                    lemma_pos_le(cs, i + 1, cs.len() as int);
                    lemma_count_step(cs, i as int, '\n');
                }
                if c == '\n' {
                    line = line + 1;
                    column = 0;
                } else {
                    column = column + 1;
                }
                b = b + char_width(c);
                i = i + 1;
            },
            None => {
                proof {
                    assert(cs.skip(i as int).len() == 0);
                    assert(false);
                }
                return (line, column);
            },
        }
    }
}

/// A line never reaches past the end of the text.
pub proof fn lemma_line_len_bound(cs: Seq<char>, s: int)
    requires
        0 <= s <= cs.len(),
    ensures
        s + line_len_from(cs, s) <= cs.len(),
    decreases cs.len() - s,
{
    if s < cs.len() && cs[s] != '\n' {
        lemma_line_len_bound(cs, s + 1);
    }
}

proof fn lemma_line_len_from(cs: Seq<char>, s: int, i: int)
    requires
        0 <= s <= i <= cs.len(),
        forall|j: int| s <= j < i ==> cs[j] != '\n',
    ensures
        line_len_from(cs, s) == (i - s) + line_len_from(cs, i),
    decreases i - s,
{
    if s < i {
        lemma_line_len_from(cs, s + 1, i);
    }
}

/// A line break before `j` makes the count of breaks grow from any earlier
/// point.
proof fn lemma_break_counts(cs: Seq<char>, i: int, j: int)
    requires
        0 <= i < j <= cs.len(),
        cs[j - 1] == '\n',
    ensures
        count_char(cs.take(j), '\n') >= count_char(cs.take(i), '\n') + 1,
{
    lemma_count_step(cs, j - 1, '\n');
    lemma_count_prefix(cs.take(j - 1), i, '\n');
    assert(cs.take(j - 1).take(i) =~= cs.take(i));
}

/// Each line starts in one place only.
pub proof fn lemma_line_start_unique(cs: Seq<char>, s1: int, s2: int, line: int)
    requires
        is_line_start(cs, s1, line),
        is_line_start(cs, s2, line),
    ensures
        s1 == s2,
{
    if s1 < s2 {
        lemma_break_counts(cs, s1, s2);
    } else if s2 < s1 {
        lemma_break_counts(cs, s2, s1);
    }
}

/// The line that ends at character `k` starts `last_line` characters
/// before it, and no break lies in between.
pub(crate) proof fn lemma_last_line_start(cs: Seq<char>, k: int)
    requires
        0 <= k <= cs.len(),
    ensures
        ({
            let c = last_line(cs.take(k)).len() as int;
            &&& c <= k
            &&& is_line_start(cs, k - c, count_char(cs.take(k), '\n') as int)
            &&& forall|j: int| k - c <= j < k ==> cs[j] != '\n'
        }),
    decreases k,
{
    if k == 0 {
        assert(cs.take(0) =~= Seq::<char>::empty());
    } else {
        lemma_last_line_start(cs, k - 1);
        lemma_count_step(cs, k - 1, '\n');
    }
}

/// The byte offset of a line and column, the column clamped to the line and
/// a line past the last one being the end of the text.
pub open spec fn offset_at(cs: Seq<char>, line: int, column: int) -> int {
    if line > count_char(cs, '\n') {
        byte_len(cs) as int
    } else {
        let s = choose|s: int| is_line_start(cs, s, line);
        pos(cs, s + min_nat(column, line_len_from(cs, s) as int)) as int
    }
}

/// What `offset_for_line_column` promises pins its answer down.
pub proof fn lemma_offset_at(cs: Seq<char>, line: int, column: int, r: int)
    requires
        line >= 0,
        line > count_char(cs, '\n') ==> r == byte_len(cs),
        line <= count_char(cs, '\n') ==> exists|s: int|
            #[trigger] is_line_start(cs, s, line) && r == pos(
                cs,
                s + min_nat(column, line_len_from(cs, s) as int),
            ),
    ensures
        r == offset_at(cs, line, column),
{
    if line <= count_char(cs, '\n') {
        let s = choose|s: int|
            #[trigger] is_line_start(cs, s, line) && r == pos(
                cs,
                s + min_nat(column, line_len_from(cs, s) as int),
            );
        let t = choose|s: int| is_line_start(cs, s, line);
        lemma_line_start_unique(cs, s, t, line);
    }
}

/// Going to the line and column that a place reports brings back that
/// place: `offset_at` undoes `line_column`.
pub proof fn law_line_and_column_lead_back(cs: Seq<char>, k: int)
    requires
        0 <= k <= cs.len(),
    ensures
        offset_at(
            cs,
            count_char(cs.take(k), '\n') as int,
            last_line(cs.take(k)).len() as int,
        ) == pos(cs, k),
{
    let line = count_char(cs.take(k), '\n') as int;
    let c = last_line(cs.take(k)).len() as int;
    lemma_last_line_start(cs, k);
    lemma_count_prefix(cs, k, '\n');
    let s = k - c;
    lemma_line_len_from(cs, s, k);
    let t = choose|x: int| is_line_start(cs, x, line);
    lemma_line_start_unique(cs, s, t, line);
}

/// Byte offset of a line and column, the column clamped to the length of the
/// line; a line past the last one is the end of the text.
pub fn offset_for_line_column(text: &str, target_line: usize, target_column: usize) -> (r: usize)
    ensures
        is_boundary(text@, r as int),
        target_line > count_char(text@, '\n') ==> r == byte_len(text@),
        target_line <= count_char(text@, '\n') ==> exists|s: int|
            #[trigger] is_line_start(text@, s, target_line as int) && r == pos(
                text@,
                s + min_nat(target_column as int, line_len_from(text@, s) as int),
            ),
{
    let ghost cs = text@;
    let len = text_byte_len(text);
    let mut it = text.chars();
    let mut i: usize = 0;
    let mut b: usize = 0;
    let mut line: usize = 0;
    let mut column: usize = 0;
    let ghost mut s: int = 0;
    proof {
        lemma_pos_zero(cs);
        lemma_pos_full(cs);
        lemma_len_le_byte_len(cs);
        assert(cs.take(0) =~= Seq::<char>::empty());
    }
    loop
        invariant
            cs == text@,
            len == byte_len(cs),
            pos(cs, cs.len() as int) == len,
            cs.len() <= len,
            0 <= i <= cs.len(),
            b == pos(cs, i as int),
            line == count_char(cs.take(i as int), '\n'),
            line <= target_line,
            line <= i,
            is_line_start(cs, s, line as int),
            0 <= s <= i,
            column == i - s,
            forall|j: int| s <= j < i ==> cs[j] != '\n',
            line == target_line ==> column <= target_column,
            it.remaining() == cs.skip(i as int),
        decreases cs.len() - i,
    {
        if line == target_line && column == target_column {
            proof {
                lemma_count_prefix(cs, i as int, '\n');
                lemma_line_len_from(cs, s, i as int);
                assert(is_line_start(cs, s, target_line as int));
            }
            return b;
        }
        let next = it.next();
        match next {
            Some(c) => {
                proof {
                    assert(c == cs[i as int]);
                    assert(cs.skip(i as int).drop_first() =~= cs.skip(i + 1));
                    lemma_pos_step(cs, i as int);
                    lemma_pos_le(cs, i + 1, cs.len() as int);
                    lemma_count_step(cs, i as int, '\n');
                }
                if c == '\n' {
                    if line == target_line {
                        proof {
                            lemma_count_prefix(cs, i as int, '\n');
                            lemma_line_len_from(cs, s, i as int);
                            assert(is_line_start(cs, s, target_line as int));
                        }
                        return b;
                    }
                    line = line + 1;
                    column = 0;
                    proof {
                        s = i + 1;
                    }
                } else {
                    column = column + 1;
                }
                b = b + char_width(c);
                i = i + 1;
            },
            None => {
                proof {
                    assert(cs.skip(i as int).len() == 0);
                    assert(cs.take(i as int) =~= cs);
                    lemma_line_len_from(cs, s, i as int);
                    if line == target_line {
                        assert(is_line_start(cs, s, target_line as int));
                    }
                }
                return b;
            },
        }
    }
}

/// Start of the character that ends right before byte `offset`, or zero at
/// the start of the text.
pub fn previous_boundary(text: &str, offset: usize) -> (r: usize)
    requires
        is_boundary(text@, min_nat(offset as int, byte_len(text@) as int)),
    ensures
        forall|k: int|
            0 <= k <= text@.len() && #[trigger] pos(text@, k) == min_nat(
                offset as int,
                byte_len(text@) as int,
            ) ==> r == if k > 0 {
                pos(text@, k - 1)
            } else {
                0
            },
{
    let ghost cs = text@;
    let len = text_byte_len(text);
    let target = if offset < len {
        offset
    } else {
        len
    };
    let ghost k0 = choose|k: int| 0 <= k <= cs.len() && #[trigger] pos(cs, k) == target;
    let mut it = text.chars();
    let mut i: usize = 0;
    let mut b: usize = 0;
    let mut previous: usize = 0;
    proof {
        lemma_pos_zero(cs);
        lemma_pos_full(cs);
        lemma_len_le_byte_len(cs);
    }
    loop
        invariant
            cs == text@,
            len == byte_len(cs),
            pos(cs, cs.len() as int) == len,
            cs.len() <= len,
            target == min_nat(offset as int, len as int),
            0 <= k0 <= cs.len(),
            pos(cs, k0) == target,
            0 <= i <= k0,
            b == pos(cs, i as int),
            previous == if i > 0 {
                pos(cs, i - 1)
            } else {
                0
            },
            it.remaining() == cs.skip(i as int),
        decreases cs.len() - i,
    {
        if b == target {
            proof {
                lemma_pos_injective(cs, i as int, k0);
                assert forall|k: int|
                    0 <= k <= cs.len() && #[trigger] pos(cs, k) == target implies k == i by {
                    lemma_pos_injective(cs, i as int, k);
                }
            }
            return previous;
        }
        proof {
            if i == k0 {
                assert(false);
            }
        }
        let next = it.next();
        match next {
            Some(c) => {
                proof {
                    assert(c == cs[i as int]);
                    assert(cs.skip(i as int).drop_first() =~= cs.skip(i + 1));
                    lemma_pos_step(cs, i as int);
                    lemma_pos_le(cs, i + 1, cs.len() as int);
                }
                previous = b;
                b = b + char_width(c);
                i = i + 1;
            },
            None => {
                proof {
                    assert(cs.skip(i as int).len() == 0);
                    assert(false);
                }
                return previous;
            },
        }
    }
}

/// Start of the character after the one at byte `offset`, or the length of
/// the text when that is the last one.
pub fn next_boundary(text: &str, offset: usize) -> (r: usize)
    requires
        is_boundary(text@, min_nat(offset as int, byte_len(text@) as int)),
    ensures
        forall|k: int|
            0 <= k <= text@.len() && #[trigger] pos(text@, k) == min_nat(
                offset as int,
                byte_len(text@) as int,
            ) ==> r == pos(text@, min_nat(k + 1, text@.len() as int)),
{
    let ghost cs = text@;
    let len = text_byte_len(text);
    let target = if offset < len {
        offset
    } else {
        len
    };
    let ghost k0 = choose|k: int| 0 <= k <= cs.len() && #[trigger] pos(cs, k) == target;
    let mut it = text.chars();
    let mut i: usize = 0;
    let mut b: usize = 0;
    proof {
        lemma_pos_zero(cs);
        lemma_pos_full(cs);
        lemma_len_le_byte_len(cs);
    }
    loop
        invariant
            cs == text@,
            len == byte_len(cs),
            pos(cs, cs.len() as int) == len,
            cs.len() <= len,
            target == min_nat(offset as int, len as int),
            0 <= k0 <= cs.len(),
            pos(cs, k0) == target,
            0 <= i <= k0,
            b == pos(cs, i as int),
            it.remaining() == cs.skip(i as int),
        decreases cs.len() - i,
    {
        let at_target = b == target;
        proof {
            if at_target {
                lemma_pos_injective(cs, i as int, k0);
                assert forall|k: int|
                    0 <= k <= cs.len() && #[trigger] pos(cs, k) == target implies k == i by {
                    lemma_pos_injective(cs, i as int, k);
                }
            } else if i == k0 {
                assert(false);
            }
        }
        let next = it.next();
        match next {
            Some(c) => {
                proof {
                    assert(c == cs[i as int]);
                    assert(cs.skip(i as int).drop_first() =~= cs.skip(i + 1));
                    lemma_pos_step(cs, i as int);
                    lemma_pos_le(cs, i + 1, cs.len() as int);
                }
                b = b + char_width(c);
                i = i + 1;
                if at_target {
                    return b;
                }
            },
            None => {
                proof {
                    assert(cs.skip(i as int).len() == 0);
                }
                return b;
            },
        }
    }
}

/// `target` falls between the carriage return and the line feed of a CRLF
/// line ending.
pub open spec fn inside_crlf(cs: Seq<char>, target: int) -> bool {
    is_boundary(cs, target) && 0 < char_index(cs, target) < cs.len() && cs[char_index(cs, target) - 1]
        == '\r' && cs[char_index(cs, target)] == '\n'
}

/// Where the cursor may stop when sent to byte `target`.
///
/// In a CRLF file there is no position between the carriage return and the
/// line feed: moving forward crosses the whole line ending, any other move
/// stops before it.
pub fn cursor_stop(text: &str, target: usize, forward: bool) -> (r: usize)
    ensures
        if inside_crlf(text@, target as int) {
            r == if forward {
                target + 1
            } else {
                target - 1
            }
        } else {
            r == target
        },
        inside_crlf(text@, target as int) ==> is_boundary(text@, r as int) && (forward ==> pos(
            text@,
            char_index(text@, target as int) + 1,
        ) == r) && (!forward ==> pos(text@, char_index(text@, target as int) - 1) == r),
{
    let len = text_byte_len(text);
    let before = char_before(text, target);
    let after = char_after(text, target);
    let crlf = match (before, after) {
        (Some(b), Some(a)) => b == '\r' && a == '\n',
        _ => false,
    };
    proof {
        let cs = text@;
        if crlf {
            let k = char_index(cs, target as int);
            lemma_pos_step(cs, k);
            lemma_pos_step(cs, k - 1);
            assert(pos(cs, k + 1) == target + 1);
            assert(pos(cs, k - 1) == target - 1);
            assert(is_boundary(cs, pos(cs, k + 1) as int));
            assert(is_boundary(cs, pos(cs, k - 1) as int));
            lemma_pos_le(cs, k + 1, cs.len() as int);
            lemma_pos_full(cs);
        }
    }
    if crlf {
        if forward {
            target + 1
        } else {
            target - 1
        }
    } else {
        target
    }
}

} // verus!
