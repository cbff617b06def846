//! The changes the language asks for, applied to the document being edited.
//!
//! Each change comes with positions in the text as it was before any of them;
//! applying from the first to the last would move every following one. From
//! the last to the first, what was already applied always lies after what is
//! still to come.
use vstd::prelude::*;
use crate::buffer::{after_replace, replace, replaceable};
use crate::editor::EditorPane;
use crate::rename::{TextPosition, TextRange};
use crate::text::{byte_len, lemma_offset_at, offset_at, offset_for_line_column, text_byte_len};

verus! {

/// A change: the stretch it replaces and the text that goes there.
#[derive(Debug)]
pub struct TextEdit {
    pub range: TextRange,
    pub text: String,
}

/// `a` starts strictly before `b`.
pub open spec fn starts_before(a: TextPosition, b: TextPosition) -> bool {
    a.line < b.line || (a.line == b.line && a.column < b.column)
}

/// Where `x` goes among `s`, from `j` on: before the first that starts after
/// it, so that changes starting at the same place keep their order.
pub open spec fn slot_after(s: Seq<TextEdit>, x: TextEdit, j: int) -> int
    decreases s.len() - j,
{
    if j < 0 || j >= s.len() {
        s.len() as int
    } else if starts_before(x.range.start, s[j].range.start) {
        j
    } else {
        slot_after(s, x, j + 1)
    }
}

/// The changes ordered by where they start, those that start at the same
/// place in the order they came.
pub open spec fn by_start(s: Seq<TextEdit>) -> Seq<TextEdit>
    decreases s.len(),
{
    if s.len() == 0 {
        s
    } else {
        let t = by_start(s.drop_last());
        t.insert(slot_after(t, s.last(), 0), s.last())
    }
}

/// How far the cursor moves for a change of `removed` bytes into `added`
/// bytes before it, from `moved`: never below zero.
pub open spec fn shifted(moved: nat, added: nat, removed: int) -> nat {
    if moved + added >= removed {
        (moved + added - removed) as nat
    } else {
        0
    }
}

/// The text and the cursor's shift after applying `es[k - 1]`, then
/// `es[k - 2]`, down to `es[0]`, to `t`, having shifted `moved` so far. A
/// change out of order or not between characters is left out; one that
/// starts at or before `cursor` shifts it.
pub open spec fn applied(es: Seq<TextEdit>, k: int, t: Seq<char>, cursor: int, moved: nat) -> (
    Seq<char>,
    nat,
)
    decreases k,
{
    if k <= 0 || k > es.len() {
        (t, moved)
    } else {
        let e = es[k - 1];
        let a = offset_at(t, e.range.start.line as int, e.range.start.column as int);
        let b = offset_at(t, e.range.end.line as int, e.range.end.column as int);
        if replaceable(t, a, b) {
            let m = if a <= cursor {
                shifted(moved, byte_len(e.text@), b - a)
            } else {
                moved
            };
            applied(es, k - 1, after_replace(t, a, b, e.text@), cursor, m)
        } else {
            applied(es, k - 1, t, cursor, moved)
        }
    }
}

/// The bytes of all the texts the changes write.
pub open spec fn total_text(s: Seq<TextEdit>) -> nat
    decreases s.len(),
{
    if s.len() == 0 {
        0
    } else {
        total_text(s.drop_last()) + byte_len(s.last().text@)
    }
}

proof fn lemma_slot_after(s: Seq<TextEdit>, x: TextEdit, j: int)
    requires
        0 <= j <= s.len(),
    ensures
        j <= slot_after(s, x, j) <= s.len(),
    decreases s.len() - j,
{
    if j < s.len() {
        lemma_slot_after(s, x, j + 1);
    }
}

proof fn lemma_total_insert(t: Seq<TextEdit>, p: int, x: TextEdit)
    requires
        0 <= p <= t.len(),
    ensures
        total_text(t.insert(p, x)) == total_text(t) + byte_len(x.text@),
    decreases t.len(),
{
    if p == t.len() {
        assert(t.insert(p, x) =~= t.push(x));
        assert(t.push(x).drop_last() =~= t);
    } else {
        assert(t.insert(p, x).drop_last() =~= t.drop_last().insert(p, x));
        lemma_total_insert(t.drop_last(), p, x);
    }
}

/// Ordering the changes keeps them all, and so what they write.
proof fn lemma_by_start(s: Seq<TextEdit>)
    ensures
        by_start(s).len() == s.len(),
        total_text(by_start(s)) == total_text(s),
    decreases s.len(),
{
    if s.len() > 0 {
        let t = by_start(s.drop_last());
        lemma_by_start(s.drop_last());
        lemma_slot_after(t, s.last(), 0);
        lemma_total_insert(t, slot_after(t, s.last(), 0), s.last());
    }
}

fn copy_edit(e: &TextEdit) -> (r: TextEdit)
    ensures
        r == *e,
{
    TextEdit { range: e.range, text: e.text.clone() }
}

fn slot_after_of(s: &Vec<TextEdit>, x: &TextEdit) -> (r: usize)
    ensures
        r == slot_after(s@, *x, 0),
{
    let mut j: usize = 0;
    while j < s.len()
        invariant
            0 <= j <= s@.len(),
            slot_after(s@, *x, 0) == slot_after(s@, *x, j as int),
        decreases s@.len() - j,
    {
        let e = &s[j];
        if x.range.start.line < e.range.start.line || (x.range.start.line == e.range.start.line
            && x.range.start.column < e.range.start.column) {
            return j;
        }
        j = j + 1;
    }
    j
}

/// Applies the changes the language asked for, from the last to the first
/// by where they start, each at the positions it names in the text as it
/// stands when its turn comes. The cursor then moves by what the changes
/// that start at or before it added, so that it stays on what was being
/// written.
pub fn aplicar_trocas(pane: &mut EditorPane, buffer: &mut String, trocas: &[TextEdit])
    requires
        old(pane).cursor + total_text(trocas@) <= usize::MAX,
    ensures
        ({
            let (t, m) = applied(
                by_start(trocas@),
                trocas@.len() as int,
                old(buffer)@,
                old(pane).cursor as int,
                0,
            );
            &&& final(buffer)@ == t
            &&& final(pane).cursor == old(pane).cursor + m
        }),
        final(pane).selection is None,
        final(pane).source == old(pane).source,
        final(pane).history == old(pane).history,
        final(pane).multi == old(pane).multi,
        final(pane).capabilities == old(pane).capabilities,
{
    let cursor = pane.cursor();
    let mut ordenadas: Vec<TextEdit> = Vec::new();
    let mut i: usize = 0;
    while i < trocas.len()
        invariant
            0 <= i <= trocas@.len(),
            ordenadas@ == by_start(trocas@.take(i as int)),
        decreases trocas@.len() - i,
    {
        let x = copy_edit(&trocas[i]);
        let j = slot_after_of(&ordenadas, &x);
        proof {
            lemma_slot_after(ordenadas@, x, 0);
            assert(trocas@.take(i + 1).drop_last() =~= trocas@.take(i as int));
        }
        ordenadas.insert(j, x);
        i = i + 1;
    }
    proof {
        assert(trocas@.take(trocas@.len() as int) =~= trocas@);
        lemma_by_start(trocas@);
        assert(ordenadas@.take(ordenadas@.len() as int) =~= ordenadas@);
    }
    let ghost target = applied(ordenadas@, ordenadas@.len() as int, buffer@, cursor as int, 0);
    let mut movido: usize = 0;
    let mut k: usize = ordenadas.len();
    while k > 0
        invariant
            0 <= k <= ordenadas@.len(),
            ordenadas@.len() == trocas@.len(),
            total_text(ordenadas@) == total_text(trocas@),
            cursor + total_text(trocas@) <= usize::MAX,
            applied(ordenadas@, k as int, buffer@, cursor as int, movido as nat) == target,
            movido + total_text(ordenadas@.take(k as int)) <= total_text(ordenadas@),
        decreases k,
    {
        let e = &ordenadas[k - 1];
        let inicio = offset_for_line_column(
            buffer.as_str(),
            e.range.start.line as usize,
            e.range.start.column as usize,
        );
        let fim = offset_for_line_column(
            buffer.as_str(),
            e.range.end.line as usize,
            e.range.end.column as usize,
        );
        proof {
            lemma_offset_at(buffer@, e.range.start.line as int, e.range.start.column as int, inicio as int);
            lemma_offset_at(buffer@, e.range.end.line as int, e.range.end.column as int, fim as int);
            assert(ordenadas@.take(k as int).drop_last() =~= ordenadas@.take(k - 1));
        }
        if inicio <= fim && replace(buffer, inicio, fim, e.text.as_str()) && inicio <= cursor {
            let n = text_byte_len(e.text.as_str());
            movido = movido + n;
            movido = if movido >= fim - inicio {
                movido - (fim - inicio)
            } else {
                0
            };
        }
        k = k - 1;
    }
    proof {
        assert(ordenadas@.take(0) =~= Seq::<TextEdit>::empty());
    }
    pane.set_cursor(cursor + movido);
}

} // verus!
