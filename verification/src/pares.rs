//! Pairs that close by themselves, and the decisions they take.
//!
//! Nothing here touches the text: it only decides. Whoever owns the cursor and
//! the buffer writes. Quotes are symmetric (the same character opens and
//! closes) and decide in an order of their own: first whether to step over,
//! only then whether to open.
use std::ops::Range;
use vstd::prelude::*;
use crate::chars::{char_is_alphanumeric, chars_of, is_alphanumeric, push_char, string_from_chars};
use crate::text::{
    byte_len, char_after, char_after_spec, char_before, char_before_spec, char_index,
    char_width, is_boundary, lemma_char_index, locate, pos, text_byte_len, utf8_width,
};

verus! {

/// The closing character of an opener: only the real pairs, not quotes.
pub open spec fn closing_of(c: char) -> Option<char> {
    if c == '(' {
        Some(')')
    } else if c == '{' {
        Some('}')
    } else if c == '[' {
        Some(']')
    } else {
        None
    }
}

pub open spec fn is_closing(c: char) -> bool {
    c == ')' || c == '}' || c == ']'
}

/// The quotes: the same character on both sides.
pub open spec fn is_quote(c: char) -> bool {
    c == '\'' || c == '"' || c == '`'
}

/// The closing character of an opener.
///
/// Only the real pairs: the `Enter` asks this too, and a quote opens no block.
pub fn fechamento_de(caractere: char) -> (r: Option<char>)
    ensures
        r == closing_of(caractere),
{
    if caractere == '(' {
        Some(')')
    } else if caractere == '{' {
        Some('}')
    } else if caractere == '[' {
        Some(']')
    } else {
        None
    }
}

/// Whether the character closes some pair.
pub fn e_fechamento(caractere: char) -> (r: bool)
    ensures
        r == is_closing(caractere),
{
    caractere == ')' || caractere == '}' || caractere == ']'
}

fn is_quote_exec(c: char) -> (r: bool)
    ensures
        r == is_quote(c),
{
    c == '\'' || c == '"' || c == '`'
}

/// The character before byte `cursor` belongs to a word.
pub open spec fn word_before(cs: Seq<char>, cursor: int) -> bool {
    match char_before_spec(cs, cursor) {
        Some(c) => char_is_alphanumeric(c) || c == '_',
        None => false,
    }
}

/// Whether the character before the cursor is part of a word.
///
/// It is what tells `don't` apart from a string that starts.
pub fn palavra_antes(texto: &str, cursor: usize) -> (r: bool)
    ensures
        r == word_before(texto@, cursor as int),
        char_before_spec(texto@, cursor as int) matches Some(c) ==> ((c as u32) < 0x80 ==> (r <==> (('a' <= c
            && c <= 'z') || ('A' <= c && c <= 'Z') || ('0' <= c && c <= '9') || c == '_'))),
{
    match char_before(texto, cursor) {
        Some(c) => is_alphanumeric(c) || c == '_',
        None => false,
    }
}

/// What to do with the character just typed.
#[derive(Debug, PartialEq, Eq)]
pub enum Digitacao {
    /// Write both, and leave the cursor between them.
    Fecha(char, char),
    /// The closing one is already under the cursor: step over it.
    Pula(char),
    /// Wrap the selected text instead of replacing it.
    Envolve(char, char),
    /// No pair: write what came.
    Normal,
}

/// The decision for a key, over the text, the cursor, whether something is
/// selected and the typed characters.
pub open spec fn typing_decision(
    cs: Seq<char>,
    cursor: int,
    selected: bool,
    typed: Seq<char>,
) -> Digitacao {
    if typed.len() != 1 {
        Digitacao::Normal
    } else {
        let c = typed[0];
        let under = char_after_spec(cs, cursor);
        if is_quote(c) {
            if selected {
                Digitacao::Envolve(c, c)
            } else if under == Some(c) {
                Digitacao::Pula(c)
            } else if word_before(cs, cursor) {
                Digitacao::Normal
            } else {
                Digitacao::Fecha(c, c)
            }
        } else if closing_of(c) is Some {
            if selected {
                Digitacao::Envolve(c, closing_of(c)->0)
            } else {
                Digitacao::Fecha(c, closing_of(c)->0)
            }
        } else if selected || !is_closing(c) {
            Digitacao::Normal
        } else if under == Some(c) {
            Digitacao::Pula(c)
        } else {
            Digitacao::Normal
        }
    }
}

/// The decision for a key.
///
/// One character, and one only: pasting or composed text is not typing a
/// pair. Quotes ask first whether to step over, then whether to open.
pub fn ao_digitar(texto: &str, cursor: usize, selecao: Option<Range<usize>>, digitado: &str) -> (r:
    Digitacao)
    ensures
        r == typing_decision(texto@, cursor as int, selecao is Some, digitado@),
{
    let typed = chars_of(digitado);
    if typed.len() != 1 {
        return Digitacao::Normal;
    }
    let caractere = typed[0];
    let selected = selecao.is_some();
    let sob_o_cursor = char_after(texto, cursor);
    if is_quote_exec(caractere) {
        if selected {
            return Digitacao::Envolve(caractere, caractere);
        }
        if sob_o_cursor == Some(caractere) {
            return Digitacao::Pula(caractere);
        }
        if palavra_antes(texto, cursor) {
            return Digitacao::Normal;
        }
        return Digitacao::Fecha(caractere, caractere);
    }
    if let Some(fecha) = fechamento_de(caractere) {
        if selected {
            return Digitacao::Envolve(caractere, fecha);
        }
        return Digitacao::Fecha(caractere, fecha);
    }
    if selected || !e_fechamento(caractere) {
        return Digitacao::Normal;
    }
    if sob_o_cursor == Some(caractere) {
        return Digitacao::Pula(caractere);
    }
    Digitacao::Normal
}

/// Index of the closing character that matches, scanning from index `j` with
/// `depth` inner pairs still open; none when a line break or the end comes
/// first.
pub open spec fn matching_close(
    cs: Seq<char>,
    j: int,
    depth: nat,
    open: char,
    close: char,
) -> Option<int>
    decreases cs.len() - j,
{
    if j < 0 || j >= cs.len() || cs[j] == '\n' {
        None
    } else if cs[j] == open {
        matching_close(cs, j + 1, depth + 1, open, close)
    } else if cs[j] == close {
        if depth == 0 {
            Some(j)
        } else {
            matching_close(cs, j + 1, (depth - 1) as nat, open, close)
        }
    } else {
        matching_close(cs, j + 1, depth, open, close)
    }
}

/// What `Backspace` removes together with the opener before the cursor.
pub open spec fn deletion_spec(cs: Seq<char>, cursor: int) -> Option<(int, int, int, int)> {
    match char_before_spec(cs, cursor) {
        None => None,
        Some(open) => {
            let start = cursor - utf8_width(open);
            let k = char_index(cs, cursor);
            if is_quote(open) {
                if char_after_spec(cs, cursor) == Some(open) {
                    Some((start, cursor, cursor, cursor + utf8_width(open)))
                } else {
                    None
                }
            } else {
                match closing_of(open) {
                    None => None,
                    Some(close) => match matching_close(cs, k, 0, open, close) {
                        None => None,
                        Some(j) => Some((start, cursor, pos(cs, j) as int, (pos(cs, j) + utf8_width(close)) as int)),
                    },
                }
            }
        }
    }
}

/// The opener right before the cursor and its closing character, only while
/// both are on the same line.
///
/// Quotes have no depth to count: only the pair that touches the cursor.
pub fn a_apagar(texto: &str, cursor: usize) -> (r: Option<(Range<usize>, Range<usize>)>)
    ensures
        match deletion_spec(texto@, cursor as int) {
            None => r is None,
            Some((a, b, c, d)) => r matches Some((x, y)) && x.start == a && x.end == b && y.start
                == c && y.end == d,
        },
{
    let ghost cs = texto@;
    let abre = match char_before(texto, cursor) {
        Some(c) => c,
        None => return None,
    };
    let largura = char_width(abre);
    let ghost k = char_index(cs, cursor as int);
    proof {
        crate::text::lemma_pos_step(cs, k - 1);
        crate::text::lemma_char_index(cs, k);
        crate::text::lemma_pos_full(cs);
    }
    let inicio = cursor - largura;
    if is_quote_exec(abre) {
        if char_after(texto, cursor) != Some(abre) {
            return None;
        }
        let _len = text_byte_len(texto);
        proof {
            crate::text::lemma_pos_step(cs, k);
            crate::text::lemma_pos_le(cs, k + 1, cs.len() as int);
        }
        return Some((inicio..cursor, cursor..cursor + largura));
    }
    let fecha = match fechamento_de(abre) {
        Some(f) => f,
        None => return None,
    };
    let all = chars_of(texto);
    let (kk, _) = locate(texto, cursor);
    let _len = text_byte_len(texto);
    let mut j: usize = kk;
    let mut b: usize = cursor;
    let mut profundidade: usize = 0;
    proof {
        crate::text::lemma_len_le_byte_len(cs);
    }
    while j < all.len()
        invariant
            all@ == cs,
            cs == texto@,
            kk == k,
            0 <= k <= j <= cs.len(),
            b == pos(cs, j as int),
            profundidade <= j - k,
            pos(cs, cs.len() as int) == byte_len(cs),
            byte_len(cs) <= usize::MAX,
            cs.len() <= byte_len(cs),
            matching_close(cs, j as int, profundidade as nat, abre, fecha) == matching_close(
                cs,
                k,
                0,
                abre,
                fecha,
            ),
            deletion_spec(cs, cursor as int) == match matching_close(cs, k, 0, abre, fecha) {
                None => None,
                Some(jj) => Some(
                    (inicio as int, cursor as int, pos(cs, jj) as int, (pos(cs, jj) + utf8_width(fecha)) as int),
                ),
            },
        decreases cs.len() - j,
    {
        let caractere = all[j];
        proof {
            crate::text::lemma_pos_step(cs, j as int);
            crate::text::lemma_pos_le(cs, j + 1, cs.len() as int);
        }
        if caractere == '\n' {
            return None;
        }
        if caractere == abre {
            profundidade = profundidade + 1;
        } else if caractere == fecha {
            if profundidade == 0 {
                return Some((inicio..cursor, b..b + char_width(fecha)));
            }
            profundidade = profundidade - 1;
        }
        b = b + char_width(caractere);
        j = j + 1;
    }
    None
}


/// How many blanks (spaces or tabs) follow index `s`.
pub open spec fn blank_run(cs: Seq<char>, s: int) -> nat
    decreases cs.len() - s,
{
    if s < 0 || s >= cs.len() || !(cs[s] == ' ' || cs[s] == '\t') {
        0
    } else {
        1 + blank_run(cs, s + 1)
    }
}

proof fn lemma_blank_run(cs: Seq<char>, s: int, j: int)
    requires
        0 <= s <= j <= cs.len(),
        forall|i: int| s <= i < j ==> cs[i] == ' ' || cs[i] == '\t',
    ensures
        blank_run(cs, s) == (j - s) + blank_run(cs, j),
    decreases j - s,
{
    if s < j {
        lemma_blank_run(cs, s + 1, j);
    }
}

/// The line that `Enter` opens right after an opener.
#[derive(Debug, PartialEq, Eq)]
pub struct LinhaNova {
    /// Blanks that open the line where the opener is.
    pub abertura: String,
    /// Whether the closing character touches the cursor and goes to its line.
    pub fechamento_junto: bool,
}

/// The blanks that open the line of the opener before byte `cursor`, and
/// whether its closing character follows the cursor; none when no opener of
/// a real pair ends at `cursor`.
pub open spec fn new_line_spec(cs: Seq<char>, cursor: int) -> Option<(Seq<char>, bool)> {
    match char_before_spec(cs, cursor) {
        None => None,
        Some(open) => match closing_of(open) {
            None => None,
            Some(close) => {
                let k = char_index(cs, cursor);
                let s = k - crate::text::last_line(cs.take(k)).len();
                Some(
                    (
                        cs.subrange(s, s + blank_run(cs, s)),
                        char_after_spec(cs, cursor) == Some(close),
                    ),
                )
            },
        },
    }
}

/// What `Enter` finds when the cursor is right after an opener.
///
/// The blank line goes one level deeper than the line of the opener, and the
/// closing character lines up with that line again.
pub fn ao_abrir_linha(texto: &str, cursor: usize) -> (r: Option<LinhaNova>)
    ensures
        match new_line_spec(texto@, cursor as int) {
            None => r is None,
            Some((opening, together)) => r matches Some(l) && l.abertura@ == opening
                && l.fechamento_junto == together,
        },
{
    let ghost cs = texto@;
    let abre = match char_before(texto, cursor) {
        Some(c) => c,
        None => return None,
    };
    let fecha = match fechamento_de(abre) {
        Some(f) => f,
        None => return None,
    };
    let (k, _) = locate(texto, cursor);
    let all = chars_of(texto);
    // Start of the line: right after the last break before the cursor.
    let mut i: usize = 0;
    let mut inicio: usize = 0;
    proof {
        assert(cs.take(0) =~= Seq::<char>::empty());
    }
    while i < k
        invariant
            all@ == cs,
            0 <= i <= k,
            k <= cs.len(),
            inicio <= i,
            inicio == i - crate::text::last_line(cs.take(i as int)).len(),
        decreases k - i,
    {
        proof {
            crate::text::lemma_count_step(cs, i as int, '\n');
        }
        if all[i] == '\n' {
            inicio = i + 1;
        }
        i = i + 1;
    }
    let mut abertura: Vec<char> = Vec::new();
    let mut j: usize = inicio;
    while j < all.len() && (all[j] == ' ' || all[j] == '\t')
        invariant
            all@ == cs,
            inicio <= j <= cs.len(),
            abertura@ == cs.subrange(inicio as int, j as int),
            forall|x: int| inicio <= x < j ==> cs[x] == ' ' || cs[x] == '\t',
        decreases cs.len() - j,
    {
        abertura.push(all[j]);
        proof {
            assert(cs.subrange(inicio as int, j + 1) =~= cs.subrange(inicio as int, j as int).push(
                cs[j as int],
            ));
        }
        j = j + 1;
    }
    proof {
        lemma_blank_run(cs, inicio as int, j as int);
    }
    let fechamento_junto = char_after(texto, cursor) == Some(fecha);
    Some(LinhaNova { abertura: string_from_chars(&abertura), fechamento_junto })
}

/// The pieces of `cs` between line feeds: one more than there are breaks.
pub open spec fn split_nl(cs: Seq<char>) -> Seq<Seq<char>>
    decreases cs.len(),
{
    if cs.len() == 0 {
        seq![Seq::<char>::empty()]
    } else if cs.last() == '\n' {
        split_nl(cs.drop_last()).push(Seq::<char>::empty())
    } else {
        let s = split_nl(cs.drop_last());
        s.update(s.len() - 1, s.last().push(cs.last()))
    }
}

proof fn lemma_split_nl_len(cs: Seq<char>)
    ensures
        split_nl(cs).len() >= 1,
    decreases cs.len(),
{
    if cs.len() > 0 {
        lemma_split_nl_len(cs.drop_last());
    }
}

/// A line without the carriage return that preceded its line feed.
pub open spec fn strip_cr(l: Seq<char>) -> Seq<char> {
    if l.len() > 0 && l.last() == '\r' {
        l.drop_last()
    } else {
        l
    }
}

/// `str::lines`: the text split at `\n` or `\r\n`, the final line ending
/// optional, a `\r` kept when no `\n` follows it.
pub open spec fn lines_of(cs: Seq<char>) -> Seq<Seq<char>> {
    if cs.len() == 0 {
        Seq::empty()
    } else {
        let s = split_nl(cs);
        let n = if cs.last() == '\n' {
            s.len() - 1
        } else {
            s.len() as int
        };
        Seq::new(
            n as nat,
            |j: int|
                if j < s.len() - 1 {
                    strip_cr(s[j])
                } else {
                    s[j]
                },
        )
    }
}

/// The lines of `text`, as `str::lines` gives them.
pub fn split_lines(text: &str) -> (ls: Vec<Vec<char>>)
    ensures
        ls@.len() == lines_of(text@).len(),
        forall|j: int| 0 <= j < ls@.len() ==> #[trigger] ls@[j]@ == lines_of(text@)[j],
{
    let ghost cs = text@;
    let all = chars_of(text);
    let mut out: Vec<Vec<char>> = Vec::new();
    let mut cur: Vec<char> = Vec::new();
    let mut i: usize = 0;
    proof {
        assert(cs.take(0) =~= Seq::<char>::empty());
    }
    while i < all.len()
        invariant
            all@ == cs,
            0 <= i <= cs.len(),
            out@.len() == split_nl(cs.take(i as int)).len() - 1,
            forall|j: int|
                0 <= j < out@.len() ==> #[trigger] out@[j]@ == strip_cr(
                    split_nl(cs.take(i as int))[j],
                ),
            cur@ == split_nl(cs.take(i as int)).last(),
        decreases cs.len() - i,
    {
        let c = all[i];
        proof {
            assert(cs.take(i + 1).drop_last() =~= cs.take(i as int));
            lemma_split_nl_len(cs.take(i as int));
        }
        if c == '\n' {
            let mut line = cur;
            let n = line.len();
            if n > 0 && line[n - 1] == '\r' {
                line.pop();
                proof {
                    assert(line@ =~= strip_cr(split_nl(cs.take(i as int)).last()));
                }
            }
            out.push(line);
            cur = Vec::new();
        } else {
            cur.push(c);
        }
        i = i + 1;
    }
    proof {
        assert(cs.take(cs.len() as int) =~= cs);
        lemma_split_nl_len(cs);
    }
    if cur.len() > 0 {
        out.push(cur);
    }
    proof {
        let s = split_nl(cs);
        if cs.len() > 0 && cs.last() != '\n' {
            lemma_split_nl_len(cs.drop_last());
            assert(s.last() == split_nl(cs.drop_last()).last().push(cs.last()));
        }
        if cs.len() == 0 {
            assert(out@.len() == 0);
        }
        if cs.len() > 0 && cs.last() == '\n' {
            assert(s.last().len() == 0);
        }
    }
    out
}


/// A line made only of blanks (or empty) says nothing about the step.
pub open spec fn is_blank_line(l: Seq<char>) -> bool {
    blank_run(l, 0) == l.len()
}

/// An indented line that starts with a tab.
pub open spec fn is_tab_line(l: Seq<char>) -> bool {
    !is_blank_line(l) && l[0] == '\t'
}

/// How many lines of `ls` open with a tab.
pub open spec fn tab_lines(ls: Seq<Seq<char>>) -> nat
    decreases ls.len(),
{
    if ls.len() == 0 {
        0
    } else {
        tab_lines(ls.drop_last()) + if is_tab_line(ls.last()) {
            1nat
        } else {
            0nat
        }
    }
}

/// How many lines of `ls` are indented with something other than a tab first.
pub open spec fn space_lines(ls: Seq<Seq<char>>) -> nat
    decreases ls.len(),
{
    if ls.len() == 0 {
        0
    } else {
        space_lines(ls.drop_last()) + if !is_blank_line(ls.last()) && !is_tab_line(ls.last())
            && blank_run(ls.last(), 0) > 0 {
            1nat
        } else {
            0nat
        }
    }
}

/// The indentation widths of the lines that do not open with a tab, in order,
/// margin zero included.
pub open spec fn widths(ls: Seq<Seq<char>>) -> Seq<nat>
    decreases ls.len(),
{
    if ls.len() == 0 {
        Seq::empty()
    } else if !is_blank_line(ls.last()) && !is_tab_line(ls.last()) {
        widths(ls.drop_last()).push(blank_run(ls.last(), 0))
    } else {
        widths(ls.drop_last())
    }
}

/// The steps: how much deeper each width goes than the one before it (the
/// first compared with zero), when it goes deeper.
pub open spec fn steps(ws: Seq<nat>) -> Seq<nat>
    decreases ws.len(),
{
    if ws.len() == 0 {
        Seq::empty()
    } else {
        let previous: nat = if ws.len() > 1 {
            ws[ws.len() - 2]
        } else {
            0
        };
        if ws.last() > previous {
            steps(ws.drop_last()).push((ws.last() - previous) as nat)
        } else {
            steps(ws.drop_last())
        }
    }
}

/// How many times `d` occurs in `ss`.
pub open spec fn occurrences(ss: Seq<nat>, d: nat) -> nat
    decreases ss.len(),
{
    if ss.len() == 0 {
        0
    } else {
        occurrences(ss.drop_last(), d) + if ss.last() == d {
            1nat
        } else {
            0nat
        }
    }
}

/// `d` is the most common step, the smallest among equally common ones.
pub open spec fn is_best_step(ss: Seq<nat>, d: nat) -> bool {
    &&& occurrences(ss, d) > 0
    &&& forall|e: nat|
        #[trigger] occurrences(ss, e) < occurrences(ss, d) || (occurrences(ss, e) == occurrences(
            ss,
            d,
        ) && d <= e)
}

proof fn lemma_occurrences_member(ss: Seq<nat>, d: nat)
    requires
        occurrences(ss, d) > 0,
    ensures
        exists|i: int| 0 <= i < ss.len() && ss[i] == d,
    decreases ss.len(),
{
    if ss.last() != d {
        lemma_occurrences_member(ss.drop_last(), d);
        let i = choose|i: int| 0 <= i < ss.drop_last().len() && ss.drop_last()[i] == d;
        assert(ss[i] == d);
    }
}

proof fn lemma_occurrences_step(ss: Seq<nat>, i: int, d: nat)
    requires
        0 <= i < ss.len(),
    ensures
        occurrences(ss.take(i + 1), d) == occurrences(ss.take(i), d) + if ss[i] == d {
            1nat
        } else {
            0nat
        },
{
    assert(ss.take(i + 1).drop_last() =~= ss.take(i));
}

/// How many times `d` occurs in `ss`.
fn count_occurrences(ss: &Vec<usize>, d: usize) -> (n: usize)
    ensures
        n == occurrences(ss@.map_values(|x: usize| x as nat), d as nat),
{
    let ghost s = ss@.map_values(|x: usize| x as nat);
    let mut n: usize = 0;
    let mut i: usize = 0;
    proof {
        assert(s.take(0) =~= Seq::<nat>::empty());
    }
    while i < ss.len()
        invariant
            s == ss@.map_values(|x: usize| x as nat),
            0 <= i <= ss.len(),
            n <= i,
            n == occurrences(s.take(i as int), d as nat),
        decreases ss.len() - i,
    {
        proof {
            lemma_occurrences_step(s, i as int, d as nat);
        }
        if ss[i] == d {
            n = n + 1;
        }
        i = i + 1;
    }
    proof {
        assert(s.take(ss.len() as int) =~= s);
    }
    n
}

proof fn lemma_line_counts_step(ls: Seq<Seq<char>>, i: int)
    requires
        0 <= i < ls.len(),
    ensures
        tab_lines(ls.take(i + 1)) == tab_lines(ls.take(i)) + if is_tab_line(ls[i]) {
            1nat
        } else {
            0nat
        },
        space_lines(ls.take(i + 1)) == space_lines(ls.take(i)) + if !is_blank_line(ls[i])
            && !is_tab_line(ls[i]) && blank_run(ls[i], 0) > 0 {
            1nat
        } else {
            0nat
        },
        widths(ls.take(i + 1)) == if !is_blank_line(ls[i]) && !is_tab_line(ls[i]) {
            widths(ls.take(i)).push(blank_run(ls[i], 0))
        } else {
            widths(ls.take(i))
        },
{
    assert(ls.take(i + 1).drop_last() =~= ls.take(i));
}

proof fn lemma_steps_step(ws: Seq<nat>, i: int)
    requires
        0 <= i < ws.len(),
    ensures
        steps(ws.take(i + 1)) == {
            let previous: nat = if i > 0 {
                ws[i - 1]
            } else {
                0
            };
            if ws[i] > previous {
                steps(ws.take(i)).push((ws[i] - previous) as nat)
            } else {
                steps(ws.take(i))
            }
        },
{
    assert(ws.take(i + 1).drop_last() =~= ws.take(i));
}

/// Blanks at the start of a line, and whether the line is only blanks.
fn leading_blanks(l: &Vec<char>) -> (r: usize)
    ensures
        r == blank_run(l@, 0),
{
    let mut j: usize = 0;
    while j < l.len() && (l[j] == ' ' || l[j] == '\t')
        invariant
            0 <= j <= l.len(),
            forall|x: int| 0 <= x < j ==> l@[x] == ' ' || l@[x] == '\t',
        decreases l.len() - j,
    {
        j = j + 1;
    }
    proof {
        lemma_blank_run(l@, 0, j as int);
    }
    j
}

/// The indentation step of the file, read from the lines it already has.
///
/// From the file, not from a setting. The count is over steps, not over the
/// smallest indentation: the space that opens a line inside a block comment
/// would otherwise make the whole file indent one by one.
pub fn passo_de(texto: &str) -> (r: Option<String>)
    ensures
        ({
            let ls = lines_of(texto@);
            let ss = steps(widths(ls));
            if tab_lines(ls) > space_lines(ls) {
                r matches Some(s) && s@ == seq!['\t']
            } else if ss.len() == 0 {
                r is None
            } else {
                r matches Some(s) && is_best_step(ss, s@.len()) && forall|i: int|
                    0 <= i < s@.len() ==> s@[i] == ' '
            }
        }),
{
    let lines = split_lines(texto);
    let ghost ls = lines_of(texto@);
    let mut tabulacoes: usize = 0;
    let mut espacos: usize = 0;
    let mut larguras: Vec<usize> = Vec::new();
    let mut i: usize = 0;
    proof {
        assert(ls.take(0) =~= Seq::<Seq<char>>::empty());
    }
    while i < lines.len()
        invariant
            lines@.len() == ls.len(),
            forall|j: int| 0 <= j < lines@.len() ==> #[trigger] lines@[j]@ == ls[j],
            0 <= i <= lines.len(),
            tabulacoes <= i,
            espacos <= i,
            tabulacoes == tab_lines(ls.take(i as int)),
            espacos == space_lines(ls.take(i as int)),
            larguras@.map_values(|x: usize| x as nat) == widths(ls.take(i as int)),
        decreases lines.len() - i,
    {
        let linha = &lines[i];
        let brancos = leading_blanks(linha);
        proof {
            lemma_line_counts_step(ls, i as int);
            assert(lines@[i as int]@ == ls[i as int]);
        }
        if brancos != linha.len() {
            if linha[0] == '\t' {
                tabulacoes = tabulacoes + 1;
            } else {
                if brancos > 0 {
                    espacos = espacos + 1;
                }
                let ghost before = larguras@;
                larguras.push(brancos);
                proof {
                    assert(larguras@.map_values(|x: usize| x as nat) =~= before.map_values(
                        |x: usize| x as nat,
                    ).push(brancos as nat));
                }
            }
        }
        i = i + 1;
    }
    proof {
        assert(ls.take(lines.len() as int) =~= ls);
    }
    if tabulacoes > espacos {
        let mut s = String::new();
        push_char(&mut s, '\t');
        return Some(s);
    }
    let ghost ws = widths(ls);
    let mut degraus: Vec<usize> = Vec::new();
    let mut anterior: usize = 0;
    let mut j: usize = 0;
    proof {
        assert(ws.take(0) =~= Seq::<nat>::empty());
    }
    while j < larguras.len()
        invariant
            larguras@.map_values(|x: usize| x as nat) == ws,
            0 <= j <= larguras.len(),
            anterior == if j > 0 {
                larguras@[j - 1]
            } else {
                0
            },
            degraus@.map_values(|x: usize| x as nat) == steps(ws.take(j as int)),
        decreases larguras.len() - j,
    {
        let largura = larguras[j];
        proof {
            lemma_steps_step(ws, j as int);
            assert(ws[j as int] == largura);
            if j > 0 {
                assert(ws[j - 1] == larguras@[j - 1]);
            }
        }
        if largura > anterior {
            let ghost before = degraus@;
            degraus.push(largura - anterior);
            proof {
                assert(degraus@.map_values(|x: usize| x as nat) =~= before.map_values(
                    |x: usize| x as nat,
                ).push((largura - anterior) as nat));
            }
        }
        anterior = largura;
        j = j + 1;
    }
    proof {
        assert(ws.take(larguras.len() as int) =~= ws);
    }
    let ghost ss = steps(ws);
    if degraus.len() == 0 {
        return None;
    }
    let mut melhor: usize = degraus[0];
    let mut melhor_vezes: usize = count_occurrences(&degraus, melhor);
    let mut k: usize = 1;
    proof {
        assert(ss[0] == melhor);
        if occurrences(ss, melhor as nat) == 0 {
            assert(false) by {
                lemma_occurrences_positive(ss, 0);
            }
        }
    }
    while k < degraus.len()
        invariant
            degraus@.map_values(|x: usize| x as nat) == ss,
            1 <= k <= degraus.len(),
            melhor_vezes == occurrences(ss, melhor as nat),
            melhor_vezes > 0,
            forall|x: int|
                0 <= x < k ==> occurrences(ss, #[trigger] ss[x]) < melhor_vezes || (occurrences(
                    ss,
                    ss[x],
                ) == melhor_vezes && melhor <= ss[x]),
        decreases degraus.len() - k,
    {
        let candidato = degraus[k];
        let vezes = count_occurrences(&degraus, candidato);
        proof {
            assert(ss[k as int] == candidato);
        }
        if vezes > melhor_vezes || (vezes == melhor_vezes && candidato < melhor) {
            melhor = candidato;
            melhor_vezes = vezes;
        }
        k = k + 1;
    }
    proof {
        assert forall|e: nat|
            #[trigger] occurrences(ss, e) < occurrences(ss, melhor as nat) || (occurrences(ss, e)
                == occurrences(ss, melhor as nat) && melhor <= e) by {
            if occurrences(ss, e) > 0 {
                lemma_occurrences_member(ss, e);
                let x = choose|x: int| 0 <= x < ss.len() && ss[x] == e;
                assert(occurrences(ss, ss[x]) < melhor_vezes || (occurrences(ss, ss[x])
                    == melhor_vezes && melhor <= ss[x]));
            }
        }
    }
    let mut s = String::new();
    let mut n: usize = 0;
    while n < melhor
        invariant
            0 <= n <= melhor,
            s@.len() == n,
            forall|x: int| 0 <= x < n ==> s@[x] == ' ',
        decreases melhor - n,
    {
        push_char(&mut s, ' ');
        n = n + 1;
    }
    Some(s)
}

proof fn lemma_occurrences_positive(ss: Seq<nat>, i: int)
    requires
        0 <= i < ss.len(),
    ensures
        occurrences(ss, ss[i]) > 0,
    decreases ss.len(),
{
    if i < ss.len() - 1 {
        lemma_occurrences_positive(ss.drop_last(), i);
    }
}

/// A pair that typing just opened is a pair for the keys that follow: with
/// the cursor between the two characters, typing the closing one steps over
/// it, and `Backspace` takes both.
pub proof fn law_an_opened_pair_closes_and_deletes_whole(
    cs: Seq<char>,
    k: int,
    typed: Seq<char>,
    open: char,
    close: char,
)
    requires
        0 <= k <= cs.len(),
        typing_decision(cs, pos(cs, k) as int, false, typed) == Digitacao::Fecha(open, close),
    ensures
        ({
            let t = cs.take(k) + seq![open, close] + cs.skip(k);
            let c = pos(cs, k) + utf8_width(open);
            &&& typing_decision(t, c as int, false, seq![close]) == Digitacao::Pula(close)
            &&& deletion_spec(t, c as int) == Some(
                (pos(cs, k) as int, c as int, c as int, (c + utf8_width(close)) as int),
            )
        }),
{
    let t = cs.take(k) + seq![open, close] + cs.skip(k);
    let c = pos(cs, k) + utf8_width(open);
    assert(t.take(k) =~= cs.take(k));
    assert(t[k] == open);
    assert(t[k + 1] == close);
    crate::text::lemma_pos_step(t, k);
    crate::text::lemma_pos_step(t, k + 1);
    lemma_char_index(t, k + 1);
    assert(pos(t, k + 1) == c);
    assert(char_before_spec(t, c as int) == Some(open));
    assert(char_after_spec(t, c as int) == Some(close));
    if !is_quote(open) {
        assert(closing_of(open) == Some(close));
        assert(matching_close(t, k + 1, 0, open, close) == Some(k + 1));
    }
}

/// How many of the characters `lo..hi` are `x`.
pub open spec fn tally(cs: Seq<char>, lo: int, hi: int, x: char) -> nat
    decreases hi - lo,
{
    if lo >= hi {
        0
    } else {
        (if cs[lo] == x {
            1nat
        } else {
            0nat
        }) + tally(cs, lo + 1, hi, x)
    }
}

/// `close` at index `r` ends a pair that was opened before index `j`, with
/// `depth` more pairs still open there: on the same line, no stretch from
/// `j` closes more than it opens (with `depth`), and `j..r` closes exactly
/// as many.
pub open spec fn closes_at(cs: Seq<char>, j: int, depth: int, open: char, close: char, r: int) -> bool {
    &&& j <= r < cs.len()
    &&& cs[r] == close
    &&& forall|i: int| j <= i <= r ==> cs[i] != '\n'
    &&& depth + tally(cs, j, r, open) == tally(cs, j, r, close)
    &&& forall|m: int| j <= m <= r ==> #[trigger] tally(cs, j, m, close) <= depth + tally(cs, j, m, open)
}

proof fn lemma_tally_front(cs: Seq<char>, j: int, m: int, x: char)
    requires
        j < m,
    ensures
        tally(cs, j, m, x) == (if cs[j] == x {
            1nat
        } else {
            0nat
        }) + tally(cs, j + 1, m, x),
{
}

/// What `matching_close` finds is where the pair closes.
proof fn lemma_matching_close_closes(cs: Seq<char>, j: int, depth: nat, open: char, close: char)
    requires
        j >= 0,
        open != close,
        matching_close(cs, j, depth, open, close) is Some,
    ensures
        closes_at(cs, j, depth as int, open, close, matching_close(cs, j, depth, open, close)->0),
    decreases cs.len() - j,
{
    let r = matching_close(cs, j, depth, open, close)->0;
    if cs[j] == close && depth == 0 {
        assert(r == j);
    } else {
        let d2: nat = if cs[j] == open {
            depth + 1
        } else if cs[j] == close {
            (depth - 1) as nat
        } else {
            depth
        };
        assert(matching_close(cs, j + 1, d2, open, close) == matching_close(cs, j, depth, open, close));
        lemma_matching_close_closes(cs, j + 1, d2, open, close);
        lemma_tally_front(cs, j, r, open);
        lemma_tally_front(cs, j, r, close);
        assert forall|m: int| j <= m <= r implies #[trigger] tally(cs, j, m, close) <= depth + tally(cs, j, m, open) by {
            if m > j {
                lemma_tally_front(cs, j, m, open);
                lemma_tally_front(cs, j, m, close);
                assert(tally(cs, j + 1, m, close) <= d2 + tally(cs, j + 1, m, open));
            }
        }
    }
}

/// Where the pair closes is what `matching_close` finds.
proof fn lemma_closes_matching_close(cs: Seq<char>, j: int, depth: nat, open: char, close: char, r: int)
    requires
        j >= 0,
        open != close,
        open != '\n',
        closes_at(cs, j, depth as int, open, close, r),
    ensures
        matching_close(cs, j, depth, open, close) == Some(r),
    decreases r - j,
{
    if j < r {
        lemma_tally_front(cs, j, r, open);
        lemma_tally_front(cs, j, r, close);
        assert(cs[j] != '\n');
        if cs[j] == close {
            assert(tally(cs, j, j + 1, close) <= depth + tally(cs, j, j + 1, open));
            lemma_tally_front(cs, j, j + 1, open);
            lemma_tally_front(cs, j, j + 1, close);
        }
        let d2: nat = if cs[j] == open {
            depth + 1
        } else if cs[j] == close {
            (depth - 1) as nat
        } else {
            depth
        };
        assert forall|m: int| j + 1 <= m <= r implies #[trigger] tally(cs, j + 1, m, close) <= d2 + tally(
            cs,
            j + 1,
            m,
            open,
        ) by {
            lemma_tally_front(cs, j, m, open);
            lemma_tally_front(cs, j, m, close);
            assert(tally(cs, j, m, close) <= depth + tally(cs, j, m, open));
        }
        lemma_closes_matching_close(cs, j + 1, d2, open, close, r);
        assert(matching_close(cs, j + 1, d2, open, close) == matching_close(cs, j, depth, open, close));
    }
}

/// What `Backspace` takes with the opener: the opener that ends at the
/// cursor, and after the cursor, on the same line, its own closing
/// character; for a quote, the same quote touching the cursor.
pub proof fn law_backspace_takes_the_opener_and_its_own_closer(
    cs: Seq<char>,
    cursor: int,
    a: int,
    b: int,
    c: int,
    d: int,
)
    requires
        deletion_spec(cs, cursor) == Some((a, b, c, d)),
    ensures
        ({
            let k = char_index(cs, cursor);
            let open = cs[k - 1];
            &&& is_boundary(cs, cursor)
            &&& 0 < k <= cs.len()
            &&& b == cursor
            &&& a == cursor - utf8_width(open)
            &&& c >= cursor
            &&& is_quote(open) ==> c == cursor && d == cursor + utf8_width(open) && k < cs.len() && cs[k] == open
            &&& !is_quote(open) ==> (closing_of(open) matches Some(close) && exists|r: int|
                #[trigger] closes_at(cs, k, 0, open, close, r) && c == pos(cs, r) && d == c + utf8_width(close))
        }),
{
    let k = char_index(cs, cursor);
    let open = cs[k - 1];
    lemma_char_index(cs, k);
    assert(pos(cs, k) == cursor);
    if !is_quote(open) {
        let close = closing_of(open)->0;
        lemma_matching_close_closes(cs, k, 0, open, close);
        let r = matching_close(cs, k, 0, open, close)->0;
        crate::text::lemma_pos_le(cs, k, r);
        assert(closes_at(cs, k, 0, open, close, r));
    }
}

/// When `Backspace` takes a pair: exactly when a character ends at the
/// cursor and either it is a quote and the same quote follows, or it opens a
/// pair whose closing character comes later on the same line. A cursor past
/// the end, or inside a character, takes nothing.
pub proof fn law_backspace_takes_a_pair_exactly_when_it_closes(cs: Seq<char>, cursor: int)
    ensures
        (deletion_spec(cs, cursor) is Some) <==> (char_before_spec(cs, cursor) matches Some(open) && {
            let k = char_index(cs, cursor);
            ||| is_quote(open) && char_after_spec(cs, cursor) == Some(open)
            ||| closing_of(open) matches Some(close) && exists|r: int| #[trigger] closes_at(cs, k, 0, open, close, r)
        }),
        !is_boundary(cs, cursor) ==> deletion_spec(cs, cursor) is None,
{
    if let Some(open) = char_before_spec(cs, cursor) {
        let k = char_index(cs, cursor);
        if let Some(close) = closing_of(open) {
            if exists|r: int| #[trigger] closes_at(cs, k, 0, open, close, r) {
                let r = choose|r: int| #[trigger] closes_at(cs, k, 0, open, close, r);
                lemma_closes_matching_close(cs, k, 0, open, close, r);
            }
            if matching_close(cs, k, 0, open, close) is Some {
                lemma_matching_close_closes(cs, k, 0, open, close);
            }
        }
    }
}

proof fn lemma_blank_run_ends(cs: Seq<char>, s: int)
    requires
        0 <= s <= cs.len(),
    ensures
        s + blank_run(cs, s) <= cs.len(),
        forall|i: int| s <= i < s + blank_run(cs, s) ==> cs[i] == ' ' || cs[i] == '\t',
        s + blank_run(cs, s) < cs.len() ==> !(cs[s + blank_run(cs, s)] == ' ' || cs[s + blank_run(cs, s)] == '\t'),
    decreases cs.len() - s,
{
    if s < cs.len() && (cs[s] == ' ' || cs[s] == '\t') {
        lemma_blank_run_ends(cs, s + 1);
    }
}

/// `Enter` opens a block only right after an opener of a real pair (never
/// after a quote). The new line starts with the blanks that start the line
/// of the opener, all of them; and the closing character goes to a line of
/// its own exactly when it touches the cursor.
pub proof fn law_enter_opens_a_block_only_after_an_opener(cs: Seq<char>, cursor: int)
    ensures
        (new_line_spec(cs, cursor) is Some) <==> (char_before_spec(cs, cursor) matches Some(open) && closing_of(
            open,
        ) is Some),
        new_line_spec(cs, cursor) matches Some((w, joined)) ==> ({
            let k = char_index(cs, cursor);
            let open = cs[k - 1];
            &&& joined == (char_after_spec(cs, cursor) == Some(closing_of(open)->0))
            &&& exists|s: int|
                {
                    &&& 0 <= s <= k <= cs.len()
                    &&& (s == 0 || cs[s - 1] == '\n')
                    &&& forall|j: int| s <= j < k ==> cs[j] != '\n'
                    &&& s + w.len() <= cs.len()
                    &&& w == #[trigger] cs.subrange(s, s + w.len())
                    &&& forall|i: int| 0 <= i < w.len() ==> w[i] == ' ' || w[i] == '\t'
                    &&& s + w.len() < cs.len() ==> !(cs[s + w.len()] == ' ' || cs[s + w.len()] == '\t')
                }
        }),
{
    if let Some((w, joined)) = new_line_spec(cs, cursor) {
        let k = char_index(cs, cursor);
        let s = k - crate::text::last_line(cs.take(k)).len();
        crate::text::lemma_last_line_start(cs, k);
        lemma_blank_run_ends(cs, s);
        assert(w == cs.subrange(s, s + w.len()));
    }
}

/// With a selection, typing one character never steps over a closing
/// character nor opens an empty pair: a quote or an opener wraps the
/// selection in its pair, and anything else, a closing character included,
/// replaces it as typed.
pub proof fn law_with_a_selection_typing_wraps_or_replaces(cs: Seq<char>, cursor: int, x: char)
    ensures
        typing_decision(cs, cursor, true, seq![x]) == if x == '\'' || x == '"' || x == '`' {
            Digitacao::Envolve(x, x)
        } else if x == '(' {
            Digitacao::Envolve('(', ')')
        } else if x == '[' {
            Digitacao::Envolve('[', ']')
        } else if x == '{' {
            Digitacao::Envolve('{', '}')
        } else {
            Digitacao::Normal
        },
        (x == ')' || x == ']' || x == '}') ==> typing_decision(cs, cursor, true, seq![x]) == Digitacao::Normal,
{
}

/// Typing steps over a character only when nothing is selected, exactly
/// that one character was typed, it is a closing character or a quote, and
/// the same character is right after the cursor.
pub proof fn law_typing_steps_over_only_the_same_closer(cs: Seq<char>, cursor: int, selected: bool, typed: Seq<char>, y: char)
    requires
        typing_decision(cs, cursor, selected, typed) == Digitacao::Pula(y),
    ensures
        !selected,
        typed == seq![y],
        y == ')' || y == ']' || y == '}' || y == '\'' || y == '"' || y == '`',
        char_after_spec(cs, cursor) == Some(y),
{
    assert(typed =~= seq![typed[0]]);
}

} // verus!
