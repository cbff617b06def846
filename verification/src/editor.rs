//! The editing pane: cursor and selection in bytes, undo, indentation,
//! movement by character and by line, and editing at several marked
//! occurrences at once. The pane does not own the text: each operation
//! receives the buffer.
use std::ops::Range;
use vstd::prelude::*;
use crate::buffer::{after_replace, lemma_after_replace, replace, replaceable};
use crate::chars::{chars_of, push_char};
use crate::fmt::string_of;
use crate::text::{
    byte_len, char_index, chars_before, chars_upto, count_char, cursor_stop, inside_crlf, is_boundary, is_line_start,
    last_line, lemma_char_index, lemma_line_len_bound, lemma_pos_full, lemma_pos_le, lemma_pos_step,
    lemma_pos_strict, lemma_pos_zero, line_column, line_len_from, min_nat, next_boundary,
    offset_for_line_column, pos, previous_boundary, text_byte_len,
};

verus! {

/// Behaviours a screen can switch on or off.
///
/// They are configuration, not different implementations.
#[derive(Clone, Copy, Debug, Eq, PartialEq)]
pub struct EditorCapabilities {
    /// `Ctrl+Click` asks for the definition of the symbol under the pointer.
    pub navigation: bool,
    /// The gutter takes clicks that set and clear breakpoints.
    pub breakpoint_gutter: bool,
    /// `Ctrl+S` saves the content.
    pub save: bool,
    /// The secondary click opens the context menu.
    pub context_menu: bool,
}

impl EditorCapabilities {
    /// Everything on: the editor of the main window.
    pub fn full() -> (c: Self)
        ensures
            c.navigation && c.breakpoint_gutter && c.save && c.context_menu,
    {
        Self { navigation: true, breakpoint_gutter: true, save: true, context_menu: true }
    }

    /// Text editing only: no file to save, no definition to reach, no line
    /// to stop at.
    pub fn plain() -> (c: Self)
        ensures
            !c.navigation && !c.breakpoint_gutter && !c.save && !c.context_menu,
    {
        Self { navigation: false, breakpoint_gutter: false, save: false, context_menu: false }
    }
}

impl Default for EditorCapabilities {
    fn default() -> (c: Self)
        ensures
            c.navigation && c.breakpoint_gutter && c.save && c.context_menu,
    {
        Self::full()
    }
}

/// How many snapshots undo keeps.
pub const HISTORY_LIMIT: usize = 10;

/// Width of a tab stop, in columns.
pub const INDENT_WIDTH: usize = 4;

/// A byte offset the pane can stand at: between two characters, or at or
/// past the end of the text.
pub open spec fn valid_offset(cs: Seq<char>, o: int) -> bool {
    is_boundary(cs, min_nat(o, byte_len(cs) as int))
}

/// What the screen has to do after a gesture on the pane.
#[derive(Clone, Copy, Debug, Eq, PartialEq, Structural)]
pub enum EditorAction {
    /// Nothing for the screen to do.
    Idle,
    /// `Ctrl+Click` on the byte offset given.
    Navigate(usize),
    /// A click on the gutter, at the line given.
    ToggleBreakpoint(usize),
    /// `Ctrl+S`.
    Save,
    /// The secondary click asks for the menu, at the place of the click.
    ContextMenu,
}

/// The text, cursor and selection before a change, for undo.
#[derive(Debug)]
pub struct EditSnapshot {
    pub text: String,
    pub cursor: usize,
    pub selection: Option<(usize, usize)>,
}

/// Occurrences marked together and edited at the same time: the marked
/// stretches, in increasing order and in bytes; the text searched for; the
/// state before the first change; where, from the start of each mark, the
/// editing happens; and whether anything was typed yet.
#[derive(Debug)]
pub struct MultiEdit {
    pub ranges: Vec<(usize, usize)>,
    pub needle: String,
    pub baseline: EditSnapshot,
    pub caret: usize,
    pub typed: bool,
}

/// The editing pane: its capabilities, the content it edits, the cursor and the selection's anchor
/// and focus (in bytes), the snapshots undo goes back to, and the marked
/// occurrences being edited together.
#[derive(Debug)]
pub struct EditorPane {
    pub capabilities: EditorCapabilities,
    /// The content being edited, as the screen names it.
    pub source: Option<u64>,
    pub cursor: usize,
    pub selection: Option<(usize, usize)>,
    pub history: Vec<EditSnapshot>,
    pub multi: Option<MultiEdit>,
    /// A press on the text that may become a selection by dragging.
    pub selecting: bool,
}

/// The selection as a range in increasing order, when it is not empty.
pub open spec fn ordered(sel: Option<(usize, usize)>) -> Option<(usize, usize)> {
    match sel {
        Some((a, f)) => if a < f {
            Some((a, f))
        } else if f < a {
            Some((f, a))
        } else {
            None
        },
        None => None,
    }
}

/// A snapshot as plain values.
pub open spec fn snap(s: EditSnapshot) -> (Seq<char>, usize, Option<(usize, usize)>) {
    (s.text@, s.cursor, s.selection)
}

/// The history as plain values.
pub open spec fn history_view(h: Seq<EditSnapshot>) -> Seq<(Seq<char>, usize, Option<(usize, usize)>)> {
    h.map_values(|s: EditSnapshot| snap(s))
}

/// The history after recording `x`: the oldest goes when there are more
/// than the limit.
pub open spec fn recorded(
    h: Seq<(Seq<char>, usize, Option<(usize, usize)>)>,
    x: (Seq<char>, usize, Option<(usize, usize)>),
) -> Seq<(Seq<char>, usize, Option<(usize, usize)>)> {
    if h.len() + 1 > HISTORY_LIMIT {
        h.push(x).drop_first()
    } else {
        h.push(x)
    }
}

/// The text after deleting the selection, when there is one to delete.
pub open spec fn text_after_delete(cs: Seq<char>, sel: Option<(usize, usize)>) -> Seq<char> {
    match ordered(sel) {
        Some((s, e)) => if replaceable(cs, s as int, e as int) {
            after_replace(cs, s as int, e as int, Seq::empty())
        } else {
            cs
        },
        None => cs,
    }
}

/// The cursor after deleting the selection: at its start when it went.
pub open spec fn cursor_after_delete(cs: Seq<char>, sel: Option<(usize, usize)>, cursor: usize) -> int {
    match ordered(sel) {
        Some((s, e)) => if replaceable(cs, s as int, e as int) {
            s as int
        } else {
            cursor as int
        },
        None => cursor as int,
    }
}

/// The selection after deleting it: gone when there was one.
pub open spec fn selection_after_delete(sel: Option<(usize, usize)>) -> Option<(usize, usize)> {
    if ordered(sel) is Some {
        None
    } else {
        sel
    }
}

/// Where the line that holds character `k` starts.
pub open spec fn line_start_before(cs: Seq<char>, k: int) -> int
    decreases k,
{
    if k <= 0 {
        0
    } else if cs[k - 1] == '\n' {
        k
    } else {
        line_start_before(cs, k - 1)
    }
}

/// How many spaces start at character `i`, up to `limit`.
pub open spec fn spaces_at(cs: Seq<char>, i: int, limit: nat) -> nat
    decreases limit,
{
    if limit == 0 || i < 0 || i >= cs.len() || cs[i] != ' ' {
        0
    } else {
        1 + spaces_at(cs, i + 1, (limit - 1) as nat)
    }
}

/// How many lines `str::lines` finds: a last line without a break counts,
/// an empty one after the last break does not.
pub open spec fn lines_count(cs: Seq<char>) -> nat {
    count_char(cs, '\n') + if cs.len() > 0 && cs.last() != '\n' {
        1nat
    } else {
        0nat
    }
}

/// The text of `n` spaces.
pub open spec fn spaces(n: nat) -> Seq<char> {
    Seq::new(n, |i: int| ' ')
}

/// How many spaces Tab writes at offset `c`: up to the next tab stop.
pub open spec fn indent_width(cs: Seq<char>, c: int) -> nat {
    (INDENT_WIDTH - column_of(cs, c) % (INDENT_WIDTH as nat)) as nat
}

/// Spaces take one byte each.
pub proof fn lemma_spaces_byte_len(n: nat)
    ensures
        byte_len(spaces(n)) == n,
    decreases n,
{
    if n > 0 {
        lemma_spaces_byte_len((n - 1) as nat);
        assert(spaces(n).drop_last() =~= spaces((n - 1) as nat));
    }
}

impl EditorPane {
    /// The cursor stands between characters (or past the end) of `text`,
    /// and undo keeps at most its limit.
    pub open spec fn wf(&self, text: Seq<char>) -> bool {
        &&& valid_offset(text, self.cursor as int)
        &&& self.history@.len() <= HISTORY_LIMIT
    }

    /// A pane at the start of its text, with nothing selected or remembered.
    pub fn new(capabilities: EditorCapabilities) -> (r: Self)
        ensures
            r.capabilities == capabilities,
            r.source is None,
            r.cursor == 0,
            r.selection is None,
            r.history@.len() == 0,
            r.multi is None,
    {
        EditorPane {
            capabilities,
            source: None,
            cursor: 0,
            selection: None,
            history: Vec::new(),
            multi: None,
            selecting: false,
        }
    }

    /// Says which content the pane edits from now on. Changing it throws
    /// away undo, the marks and the selection: they all speak of the other
    /// text. The first content keeps them, and cursor and scrolling stay for
    /// the screen to place.
    pub fn set_source(&mut self, source: u64)
        ensures
            final(self).source == Some(source),
            final(self).cursor == old(self).cursor,
            final(self).capabilities == old(self).capabilities,
            if old(self).source is None || old(self).source == Some(source) {
                final(self).history == old(self).history && final(self).multi == old(self).multi
                    && final(self).selection == old(self).selection && final(self).selecting == old(self).selecting
            } else {
                final(self).history@.len() == 0 && final(self).multi is None && final(self).selection is None
                    && !final(self).selecting
            },
    {
        if let Some(current) = self.source {
            if current == source {
                return;
            }
        } else {
            self.source = Some(source);
            return;
        }
        self.source = Some(source);
        self.history = Vec::new();
        self.multi = None;
        self.selection = None;
        self.selecting = false;
    }

    /// The selected text, when the selection falls between characters.
    pub fn selected_text(&self, buffer: &str) -> (r: Option<String>)
        ensures
            match ordered(self.selection) {
                Some((s, e)) => if replaceable(buffer@, s as int, e as int) {
                    r matches Some(t) && t@ == buffer@.subrange(char_index(buffer@, s as int), char_index(buffer@, e as int))
                } else {
                    r is None
                },
                None => r is None,
            },
    {
        match self.selection_range() {
            Some(g) => text_between(buffer, g.start, g.end),
            None => None,
        }
    }

    /// The capabilities the pane was made with.
    pub fn capabilities(&self) -> (r: EditorCapabilities)
        ensures
            r == self.capabilities,
    {
        self.capabilities
    }

    /// The cursor, in bytes.
    pub fn cursor(&self) -> (r: usize)
        ensures
            r == self.cursor,
    {
        self.cursor
    }

    /// Puts the cursor at byte `cursor`: moved, nothing selected.
    pub fn set_cursor(&mut self, cursor: usize)
        ensures
            final(self).cursor == cursor,
            final(self).selection is None,
            final(self).source == old(self).source,
            final(self).selecting == old(self).selecting,
            final(self).history == old(self).history,
            final(self).multi == old(self).multi,
            final(self).capabilities == old(self).capabilities,
    {
        self.cursor = cursor;
        self.selection = None;
    }

    /// The selection's anchor and focus.
    pub fn set_selection(&mut self, selection: Option<(usize, usize)>)
        ensures
            final(self).selection == selection,
            final(self).cursor == old(self).cursor,
            final(self).history == old(self).history,
            final(self).multi == old(self).multi,
            final(self).capabilities == old(self).capabilities,
            final(self).source == old(self).source,
            final(self).selecting == old(self).selecting,
    {
        self.selection = selection;
    }

    /// The selected range, in increasing order, when it is not empty.
    pub fn selection_range(&self) -> (r: Option<Range<usize>>)
        ensures
            match ordered(self.selection) {
                Some((s, e)) => r matches Some(g) && g.start == s && g.end == e,
                None => r is None,
            },
    {
        match self.selection {
            Some((anchor, focus)) => {
                let (start, end) = if anchor <= focus {
                    (anchor, focus)
                } else {
                    (focus, anchor)
                };
                if start < end {
                    Some(Range { start, end })
                } else {
                    None
                }
            },
            None => None,
        }
    }

    fn selection_pair(&self) -> (r: Option<(usize, usize)>)
        ensures
            r == ordered(self.selection),
    {
        match self.selection_range() {
            Some(g) => Some((g.start, g.end)),
            None => None,
        }
    }

    /// How many snapshots undo can go back to.
    pub fn undo_depth(&self) -> (r: usize)
        ensures
            r == self.history@.len(),
    {
        self.history.len()
    }

    /// Keeps the state before the change that comes next.
    pub fn remember(&mut self, text: &str)
        requires
            old(self).history@.len() <= HISTORY_LIMIT,
        ensures
            final(self).history@.len() <= HISTORY_LIMIT,
            history_view(final(self).history@) == recorded(
                history_view(old(self).history@),
                (text@, old(self).cursor, ordered(old(self).selection)),
            ),
            final(self).cursor == old(self).cursor,
            final(self).selection == old(self).selection,
            final(self).multi == old(self).multi,
            final(self).capabilities == old(self).capabilities,
            final(self).source == old(self).source,
            final(self).selecting == old(self).selecting,
    {
        let snapshot = EditSnapshot { text: string_of(text), cursor: self.cursor, selection: self.selection_pair() };
        let ghost h0 = self.history@;
        self.history.push(snapshot);
        proof {
            assert(history_view(self.history@) =~= history_view(h0).push(snap(snapshot)));
        }
        if self.history.len() > HISTORY_LIMIT {
            let ghost h1 = self.history@;
            self.history.remove(0);
            proof {
                assert(history_view(self.history@) =~= history_view(h1).drop_first());
            }
        }
    }

    /// Goes back to the state before the last change. False when there was
    /// nothing to undo. Undoing ends an edit at several occurrences: the
    /// marks speak of the text that just went away.
    pub fn undo(&mut self, buffer: &mut String) -> (r: bool)
        ensures
            final(self).history@.len() <= old(self).history@.len(),
            final(self).capabilities == old(self).capabilities,
            final(self).source == old(self).source,
            final(self).selecting == old(self).selecting,
            if old(self).history@.len() == 0 {
                !r && *final(self) == *old(self) && *final(buffer) == *old(buffer)
            } else {
                let last = history_view(old(self).history@).last();
                &&& r
                &&& final(buffer)@ == last.0
                &&& final(self).cursor == min_nat(last.1 as int, byte_len(last.0) as int)
                &&& final(self).selection == last.2
                &&& final(self).multi is None
                &&& history_view(final(self).history@) == history_view(old(self).history@).drop_last()
            },
    {
        if self.history.len() == 0 {
            return false;
        }
        let ghost h0 = self.history@;
        let previous = match self.history.pop() {
            Some(p) => p,
            None => return false,
        };
        proof {
            assert(history_view(self.history@) =~= history_view(h0).drop_last());
            assert(previous == h0.last());
        }
        self.multi = None;
        let len = text_byte_len(previous.text.as_str());
        self.cursor = if previous.cursor < len {
            previous.cursor
        } else {
            len
        };
        self.selection = previous.selection;
        *buffer = previous.text;
        true
    }

    /// Moves the cursor; when `selecting`, the selection stretches from its
    /// anchor (or from the cursor) to the new place.
    pub fn move_cursor(&mut self, target: usize, selecting: bool)
        ensures
            final(self).cursor == target,
            final(self).selection == if selecting {
                Some(
                    (
                        match old(self).selection {
                            Some((a, _)) => a,
                            None => old(self).cursor,
                        },
                        target,
                    ),
                )
            } else {
                None
            },
            final(self).history == old(self).history,
            final(self).multi == old(self).multi,
            final(self).capabilities == old(self).capabilities,
            final(self).source == old(self).source,
            final(self).selecting == old(self).selecting,
    {
        if selecting {
            let anchor = match self.selection {
                Some((a, _)) => a,
                None => self.cursor,
            };
            self.selection = Some((anchor, target));
        } else {
            self.selection = None;
        }
        self.cursor = target;
    }

    /// Deletes the selection. True when there was one and it went.
    pub fn delete_selection(&mut self, buffer: &mut String) -> (r: bool)
        ensures
            old(self).wf(old(buffer)@) ==> final(self).wf(final(buffer)@),
            r ==> valid_offset(final(buffer)@, final(self).cursor as int),
            final(buffer)@ == text_after_delete(old(buffer)@, old(self).selection),
            final(self).cursor == cursor_after_delete(old(buffer)@, old(self).selection, old(self).cursor),
            final(self).selection == selection_after_delete(old(self).selection),
            r == (ordered(old(self).selection) matches Some((s, e)) && replaceable(old(buffer)@, s as int, e as int)),
            final(self).history == old(self).history,
            final(self).multi == old(self).multi,
            final(self).capabilities == old(self).capabilities,
            final(self).source == old(self).source,
            final(self).selecting == old(self).selecting,
    {
        let range = match self.selection_range() {
            Some(g) => g,
            None => return false,
        };
        self.selection = None;
        let start = range.start;
        let ghost cs = buffer@;
        proof {
            reveal_strlit("");
        }
        if replace(buffer, range.start, range.end, "") {
            proof {
                reveal_strlit("");
                lemma_after_replace(cs, range.start as int, range.end as int, Seq::empty());
                assert(byte_len(Seq::<char>::empty()) == 0);
                lemma_pos_le(buffer@, char_index(cs, start as int), buffer@.len() as int);
                lemma_pos_full(buffer@);
            }
            self.cursor = start;
            return true;
        }
        false
    }

    /// Typed text goes in at the cursor, in place of what is selected; while
    /// occurrences are marked, it goes in at every mark.
    pub fn insert(&mut self, buffer: &mut String, text: &str) -> (r: bool)
        requires
            old(self).history@.len() <= HISTORY_LIMIT,
            old(self).multi matches Some(m) ==> typing_fits(m.ranges@, m.caret, byte_len(text@)),
        ensures
            final(self).history@.len() <= HISTORY_LIMIT,
            final(self).source == old(self).source,
            final(self).selecting == old(self).selecting,
            match old(self).multi {
                None => {
                    let t1 = text_after_delete(old(buffer)@, old(self).selection);
                    let c1 = cursor_after_delete(old(buffer)@, old(self).selection, old(self).cursor);
                    &&& r == is_boundary(t1, min_nat(c1, byte_len(t1) as int))
                    &&& old(self).wf(old(buffer)@) ==> r
                    &&& r ==> final(self).wf(final(buffer)@) && inserted(
                        *old(self),
                        old(buffer)@,
                        *final(self),
                        final(buffer)@,
                        text@,
                    )
                    &&& !r ==> not_inserted(*old(self), old(buffer)@, *final(self), final(buffer)@)
                },
                Some(m) => {
                    &&& history_view(final(self).history@) == recorded(
                        history_view(old(self).history@),
                        (old(buffer)@, old(self).cursor, ordered(old(self).selection)),
                    )
                    &&& final(self).capabilities == old(self).capabilities
                    &&& typed_marks(m, *old(self), old(buffer)@, *final(self), final(buffer)@, text@, r)
                },
            },
    {
        self.remember(buffer.as_str());
        if self.multi.is_some() {
            return self.replace_occurrences(buffer, text);
        }
        self.delete_selection(buffer);
        let len = text_byte_len(buffer.as_str());
        let cursor = if self.cursor < len {
            self.cursor
        } else {
            len
        };
        let ghost t1 = buffer@;
        let ok = replace(buffer, cursor, cursor, text);
        if !ok {
            return false;
        }
        proof {
            lemma_after_replace(t1, cursor as int, cursor as int, text@);
            lemma_pos_le(buffer@, char_index(t1, cursor as int) + text@.len(), buffer@.len() as int);
            lemma_pos_full(buffer@);
        }
        let n = text_byte_len(text);
        let _ = text_byte_len(buffer.as_str());
        self.cursor = cursor + n;
        true
    }
}

/// `w` typed at the cursor with no marked occurrences: the state is
/// remembered, the selection is deleted, and `w` goes in at the cursor (or
/// at the end), the cursor after it.
pub open spec fn inserted(
    before: EditorPane,
    bt: Seq<char>,
    after: EditorPane,
    at: Seq<char>,
    w: Seq<char>,
) -> bool {
    let t1 = text_after_delete(bt, before.selection);
    let c1 = cursor_after_delete(bt, before.selection, before.cursor);
    let c2 = min_nat(c1, byte_len(t1) as int);
    &&& history_view(after.history@) == recorded(
        history_view(before.history@),
        (bt, before.cursor, ordered(before.selection)),
    )
    &&& at == after_replace(t1, c2, c2, w)
    &&& after.cursor == c2 + byte_len(w)
    &&& after.selection == selection_after_delete(before.selection)
    &&& after.multi == before.multi
    &&& after.capabilities == before.capabilities
}

/// A typing whose place is not between characters: the state is remembered
/// and the selection deleted, and nothing is written.
pub open spec fn not_inserted(before: EditorPane, bt: Seq<char>, after: EditorPane, at: Seq<char>) -> bool {
    &&& history_view(after.history@) == recorded(
        history_view(before.history@),
        (bt, before.cursor, ordered(before.selection)),
    )
    &&& at == text_after_delete(bt, before.selection)
    &&& after.cursor == cursor_after_delete(bt, before.selection, before.cursor)
    &&& after.selection == selection_after_delete(before.selection)
    &&& after.multi == before.multi
    &&& after.capabilities == before.capabilities
}

/// An arrow up or down: the cursor goes to the same column of the line
/// above or below (or to its end), and stays when there is no such line.
pub open spec fn line_moved(before: EditorPane, cs: Seq<char>, after: EditorPane, down: bool, selecting: bool) -> bool {
            ({
                let line = line_of(cs, before.cursor as int);
                let lines = if lines_count(cs) > 0 {
                    lines_count(cs)
                } else {
                    1
                };
                if (!down && line == 0) || (down && line + 1 >= lines) {
                    after.cursor == before.cursor && after.selection == before.selection
                } else {
                    &&& target_line(line, down) <= count_char(cs, '\n')
                    &&& exists|s: int|
                        #[trigger] is_line_start(cs, s, target_line(line, down)) && after.cursor == stop_at(
                            cs,
                            pos(cs, s + min_nat(column_of(cs, before.cursor as int) as int, line_len_from(cs, s) as int)) as int,
                            false,
                        )
                    &&& after.selection == moved_selection(
                        before.selection,
                        before.cursor,
                        after.cursor,
                        selecting,
                    )
                }
            })
}

/// Shift+Tab: up to a tab stop of the spaces that start the line go, and
/// the cursor keeps its place among the characters after them.
pub open spec fn unindented(before: EditorPane, cs: Seq<char>, after: EditorPane, at: Seq<char>) -> bool {
            ({
                let c = min_nat(before.cursor as int, byte_len(cs) as int);
                let ls = line_start_before(cs, index_of(cs, before.cursor as int));
                let m = spaces_at(cs, ls, INDENT_WIDTH as nat);
                if m == 0 {
                    at == cs && after.cursor == before.cursor
                } else {
                    &&& at == after_replace(cs, pos(cs, ls) as int, (pos(cs, ls) + m) as int, Seq::empty())
                    &&& after.cursor == if c - m > pos(cs, ls) {
                        c - m
                    } else {
                        pos(cs, ls) as int
                    }
                }
            })
}

/// The character index of the place the pane stands at offset `c`.
pub open spec fn index_of(cs: Seq<char>, c: int) -> int {
    char_index(cs, min_nat(c, byte_len(cs) as int))
}

/// The line of the offset `c`, from zero.
pub open spec fn line_of(cs: Seq<char>, c: int) -> nat {
    count_char(cs.take(index_of(cs, c)), '\n')
}

/// The column of the offset `c`, in characters from the start of its line.
pub open spec fn column_of(cs: Seq<char>, c: int) -> nat {
    last_line(cs.take(index_of(cs, c))).len()
}

/// Where one step from offset `c` lands: the start of the character before
/// it (or zero), or of the character after it (or the end).
pub open spec fn step_target(cs: Seq<char>, c: int, forward: bool) -> int {
    let k = index_of(cs, c);
    if forward {
        pos(cs, min_nat(k + 1, cs.len() as int)) as int
    } else if k > 0 {
        pos(cs, k - 1) as int
    } else {
        0
    }
}

/// Where the cursor stops when sent to `t`: never between the carriage
/// return and the line feed of a line ending.
pub open spec fn stop_at(cs: Seq<char>, t: int, forward: bool) -> int {
    if inside_crlf(cs, t) {
        if forward {
            t + 1
        } else {
            t - 1
        }
    } else {
        t
    }
}

/// The selection after moving the cursor to `target`.
pub open spec fn moved_selection(
    sel: Option<(usize, usize)>,
    cursor: usize,
    target: usize,
    selecting: bool,
) -> Option<(usize, usize)> {
    if selecting {
        Some(
            (
                match sel {
                    Some((a, _)) => a,
                    None => cursor,
                },
                target,
            ),
        )
    } else {
        None
    }
}

/// The line an arrow up or down aims at.
pub open spec fn target_line(line: nat, down: bool) -> int {
    if down {
        line + 1int
    } else {
        line - 1
    }
}

/// Backspace with nothing selected: the character before the cursor goes,
/// and the cursor goes to where it started.
pub open spec fn erase_before(cs: Seq<char>, c: int) -> (Seq<char>, int) {
    let k = index_of(cs, c);
    if c <= byte_len(cs) && k > 0 {
        (after_replace(cs, pos(cs, k - 1) as int, c, Seq::empty()), pos(cs, k - 1) as int)
    } else {
        (cs, c)
    }
}

proof fn lemma_valid_index(cs: Seq<char>, c: int)
    requires
        valid_offset(cs, c),
    ensures
        0 <= index_of(cs, c) <= cs.len(),
        pos(cs, index_of(cs, c)) == min_nat(c, byte_len(cs) as int),
{
}

impl EditorPane {
    /// Backspace: takes the selection, or else the character before the
    /// cursor.
    pub fn erase(&mut self, buffer: &mut String)
        requires
            old(self).wf(old(buffer)@),
        ensures
            final(self).wf(final(buffer)@),
            final(self).history == old(self).history,
            final(self).multi == old(self).multi,
            final(self).capabilities == old(self).capabilities,
            final(self).source == old(self).source,
            final(self).selecting == old(self).selecting,
            final(self).selection == selection_after_delete(old(self).selection),
            if ordered(old(self).selection) matches Some((s, e)) && replaceable(old(buffer)@, s as int, e as int) {
                final(buffer)@ == text_after_delete(old(buffer)@, old(self).selection) && final(self).cursor == cursor_after_delete(
                    old(buffer)@,
                    old(self).selection,
                    old(self).cursor,
                )
            } else {
                let (t, c) = erase_before(old(buffer)@, old(self).cursor as int);
                final(buffer)@ == t && final(self).cursor == c
            },
    {
        if self.delete_selection(buffer) {
            return;
        }
        let ghost cs = buffer@;
        proof {
            lemma_valid_index(cs, self.cursor as int);
            reveal_strlit("");
        }
        let previous = previous_boundary(buffer.as_str(), self.cursor);
        let cursor = self.cursor;
        if previous < cursor && replace(buffer, previous, cursor, "") {
            proof {
                let k = index_of(cs, cursor as int);
                lemma_after_replace(cs, previous as int, cursor as int, Seq::empty());
                lemma_pos_full(cs);
                if k == 0 {
                    lemma_pos_zero(cs);
                }
                assert(k > 0);
                lemma_pos_le(buffer@, char_index(cs, previous as int), buffer@.len() as int);
                lemma_pos_full(buffer@);
            }
            self.cursor = previous;
        } else {
            proof {
                let k = index_of(cs, cursor as int);
                lemma_pos_full(cs);
                if cursor <= byte_len(cs) && k > 0 {
                    lemma_pos_strict(cs, k - 1, k);
                    lemma_char_index(cs, k - 1);
                    assert(replaceable(cs, pos(cs, k - 1) as int, cursor as int));
                }
            }
        }
    }

    /// An arrow to the side: the cursor steps one character, never stopping
    /// inside a line ending, and with Shift the selection follows.
    pub fn step(&mut self, buffer: &str, forward: bool, selecting: bool)
        requires
            old(self).wf(buffer@),
        ensures
            final(self).wf(buffer@),
            final(self).cursor == stop_at(buffer@, step_target(buffer@, old(self).cursor as int, forward), forward),
            final(self).selection == moved_selection(old(self).selection, old(self).cursor, final(self).cursor, selecting),
            final(self).history == old(self).history,
            final(self).multi == old(self).multi,
            final(self).capabilities == old(self).capabilities,
            final(self).source == old(self).source,
            final(self).selecting == old(self).selecting,
    {
        let ghost cs = buffer@;
        proof {
            lemma_valid_index(cs, self.cursor as int);
            lemma_pos_zero(cs);
        }
        let target = if forward {
            next_boundary(buffer, self.cursor)
        } else {
            previous_boundary(buffer, self.cursor)
        };
        proof {
            let k = index_of(cs, self.cursor as int);
            assert(target == step_target(cs, self.cursor as int, forward));
            if forward {
                lemma_char_index(cs, min_nat(k + 1, cs.len() as int));
            } else if k > 0 {
                lemma_char_index(cs, k - 1);
            } else {
                lemma_char_index(cs, 0);
            }
            assert(is_boundary(cs, target as int));
            lemma_pos_full(cs);
            if forward {
                lemma_pos_le(cs, min_nat(k + 1, cs.len() as int), cs.len() as int);
            } else if k > 0 {
                lemma_pos_le(cs, k - 1, cs.len() as int);
            }
            assert(target <= byte_len(cs));
        }
        let stop = cursor_stop(buffer, target, forward);
        proof {
            if !inside_crlf(cs, target as int) {
                assert(min_nat(stop as int, byte_len(cs) as int) == stop);
            } else {
                let j = char_index(cs, target as int);
                lemma_pos_le(cs, if forward {
                    j + 1
                } else {
                    j - 1
                }, cs.len() as int);
            }
        }
        self.move_cursor(stop, selecting);
    }

    /// An arrow up or down: the cursor goes to the same column of the line
    /// above or below (or to its end, when shorter), and stays when there is
    /// no such line.
    pub fn move_line(&mut self, buffer: &str, down: bool, selecting: bool)
        requires
            old(self).wf(buffer@),
        ensures
            final(self).wf(buffer@),
            final(self).history == old(self).history,
            final(self).multi == old(self).multi,
            final(self).capabilities == old(self).capabilities,
            final(self).source == old(self).source,
            final(self).selecting == old(self).selecting,
            line_moved(*old(self), buffer@, *final(self), down, selecting),
    {
        let ghost cs = buffer@;
        proof {
            lemma_valid_index(cs, self.cursor as int);
        }
        let (line, column) = line_column(buffer, self.cursor);
        let lines = count_lines(buffer);
        let lines = if lines > 0 {
            lines
        } else {
            1
        };
        if !down && line == 0 {
            return;
        }
        if down && line >= lines - 1 {
            return;
        }
        let target_line = if down {
            line + 1
        } else {
            line - 1
        };
        proof {
            let k = index_of(cs, self.cursor as int);
            crate::text::lemma_count_prefix(cs, k, '\n');
            assert(line == line_of(cs, self.cursor as int));
            assert(column == column_of(cs, self.cursor as int));
            assert(target_line == crate::editor::target_line(line as nat, down));
        }
        let target = offset_for_line_column(buffer, target_line, column);
        proof {
            lemma_pos_full(cs);
            let j = char_index(cs, target as int);
            lemma_pos_le(cs, j, cs.len() as int);
        }
        let stop = cursor_stop(buffer, target, false);
        proof {
            if !inside_crlf(cs, target as int) {
                assert(min_nat(stop as int, byte_len(cs) as int) == stop);
            } else {
                let j = char_index(cs, target as int);
                lemma_pos_le(cs, j - 1, cs.len() as int);
            }
        }
        self.move_cursor(stop, selecting);
    }
}

/// How many lines `str::lines` finds in `text`.
pub fn count_lines(text: &str) -> (n: usize)
    ensures
        n == lines_count(text@),
{
    let cs = chars_of(text);
    let mut n: usize = 0;
    let mut i: usize = 0;
    while i < cs.len()
        invariant
            cs@ == text@,
            0 <= i <= cs@.len(),
            n == count_char(cs@.take(i as int), '\n'),
            n <= i,
        decreases cs@.len() - i,
    {
        proof {
            crate::text::lemma_count_step(cs@, i as int, '\n');
        }
        if cs[i] == '\n' {
            n = n + 1;
        }
        i = i + 1;
    }
    proof {
        assert(cs@.take(cs@.len() as int) =~= cs@);
        if cs@.len() > 0 && cs@.last() != '\n' {
            crate::text::lemma_count_prefix(cs@, cs@.len() - 1, '\n');
            crate::text::lemma_count_step(cs@, cs@.len() - 1, '\n');
            lemma_count_le_len(cs@.take(cs@.len() - 1));
            assert(cs@.take(cs@.len() - 1 + 1) =~= cs@);
        }
    }
    if cs.len() > 0 && cs[cs.len() - 1] != '\n' {
        n + 1
    } else {
        n
    }
}

proof fn lemma_count_le_len(cs: Seq<char>)
    ensures
        count_char(cs, '\n') <= cs.len(),
    decreases cs.len(),
{
    if cs.len() > 0 {
        lemma_count_le_len(cs.drop_last());
    }
}

/// `spaces_at` counts characters of one byte each.
proof fn lemma_spaces_pos(cs: Seq<char>, i: int, limit: nat)
    requires
        0 <= i <= cs.len(),
    ensures
        i + spaces_at(cs, i, limit) <= cs.len(),
        pos(cs, i + spaces_at(cs, i, limit)) == pos(cs, i) + spaces_at(cs, i, limit),
        forall|j: int| i <= j < i + spaces_at(cs, i, limit) ==> cs[j] == ' ',
    decreases limit,
{
    if limit > 0 && i < cs.len() && cs[i] == ' ' {
        lemma_spaces_pos(cs, i + 1, (limit - 1) as nat);
        lemma_pos_step(cs, i);
    }
}

/// The bytes between two character indices are those of the characters
/// between them.
proof fn lemma_pos_sub(cs: Seq<char>, a: int, b: int)
    requires
        0 <= a <= b <= cs.len(),
    ensures
        byte_len(cs.subrange(a, b)) == pos(cs, b) - pos(cs, a),
{
    assert(cs.take(b) =~= cs.take(a) + cs.subrange(a, b));
    crate::buffer::lemma_byte_len_concat(cs.take(a), cs.subrange(a, b));
}

proof fn lemma_line_start_before(cs: Seq<char>, k: int)
    requires
        0 <= k <= cs.len(),
    ensures
        0 <= line_start_before(cs, k) <= k,
        line_start_before(cs, k) > 0 ==> cs[line_start_before(cs, k) - 1] == '\n',
        forall|j: int| line_start_before(cs, k) <= j < k ==> cs[j] != '\n',
    decreases k,
{
    if k > 0 && cs[k - 1] != '\n' {
        lemma_line_start_before(cs, k - 1);
    }
}

impl EditorPane {
    /// Tab with nothing selected: spaces up to the next tab stop (at every
    /// mark, while occurrences are marked).
    pub fn indent(&mut self, buffer: &mut String) -> (r: bool)
        requires
            old(self).wf(old(buffer)@),
            old(self).multi matches Some(m) ==> typing_fits(
                m.ranges@,
                m.caret,
                indent_width(old(buffer)@, old(self).cursor as int),
            ),
        ensures
            final(self).history@.len() <= HISTORY_LIMIT,
            final(self).source == old(self).source,
            final(self).selecting == old(self).selecting,
            match old(self).multi {
                None => r && final(self).wf(final(buffer)@) && inserted(
                    *old(self),
                    old(buffer)@,
                    *final(self),
                    final(buffer)@,
                    spaces(indent_width(old(buffer)@, old(self).cursor as int)),
                ),
                Some(m) => {
                    &&& history_view(final(self).history@) == recorded(
                        history_view(old(self).history@),
                        (old(buffer)@, old(self).cursor, ordered(old(self).selection)),
                    )
                    &&& final(self).capabilities == old(self).capabilities
                    &&& typed_marks(
                        m,
                        *old(self),
                        old(buffer)@,
                        *final(self),
                        final(buffer)@,
                        spaces(indent_width(old(buffer)@, old(self).cursor as int)),
                        r,
                    )
                },
            },
    {
        let ghost cs = buffer@;
        proof {
            lemma_valid_index(cs, self.cursor as int);
        }
        let (_, column) = line_column(buffer.as_str(), self.cursor);
        let n = INDENT_WIDTH - column % INDENT_WIDTH;
        let mut blank = String::new();
        let mut i: usize = 0;
        while i < n
            invariant
                0 <= i <= n,
                blank@ == spaces(i as nat),
            decreases n - i,
        {
            push_char(&mut blank, ' ');
            proof {
                assert(blank@ =~= spaces((i + 1) as nat));
            }
            i = i + 1;
        }
        proof {
            assert(column == column_of(cs, self.cursor as int));
            lemma_spaces_byte_len(n as nat);
        }
        self.insert(buffer, blank.as_str())
    }

    /// Shift+Tab with nothing selected: takes up to a tab stop of the spaces
    /// that start the line, whatever stands before the cursor.
    #[verifier::rlimit(40)]
    pub fn unindent(&mut self, buffer: &mut String)
        requires
            old(self).wf(old(buffer)@),
        ensures
            final(self).wf(final(buffer)@),
            final(self).selection == old(self).selection,
            final(self).history == old(self).history,
            final(self).multi == old(self).multi,
            final(self).capabilities == old(self).capabilities,
            final(self).source == old(self).source,
            final(self).selecting == old(self).selecting,
            unindented(*old(self), old(buffer)@, *final(self), final(buffer)@),
    {
        let ghost cs = buffer@;
        let len = text_byte_len(buffer.as_str());
        let cursor = if self.cursor < len {
            self.cursor
        } else {
            len
        };
        let (k, _) = crate::text::locate(buffer.as_str(), cursor);
        proof {
            lemma_valid_index(cs, self.cursor as int);
        }
        let chars = chars_of(buffer.as_str());
        let mut ls: usize = k;
        let mut lsb: usize = cursor;
        while ls > 0 && chars[ls - 1] != '\n'
            invariant
                chars@ == cs,
                0 <= ls <= k <= cs.len(),
                lsb == pos(cs, ls as int),
                line_start_before(cs, k as int) == line_start_before(cs, ls as int),
            decreases ls,
        {
            proof {
                lemma_pos_step(cs, ls - 1);
            }
            let w = crate::text::char_width(chars[ls - 1]);
            lsb = lsb - w;
            ls = ls - 1;
        }
        proof {
            assert(line_start_before(cs, ls as int) == ls);
        }
        let mut m: usize = 0;
        while m < INDENT_WIDTH && m < chars.len() - ls && chars[ls + m] == ' '
            invariant
                chars@ == cs,
                ls <= cs.len(),
                0 <= m <= INDENT_WIDTH,
                ls + m <= cs.len(),
                spaces_at(cs, ls as int, INDENT_WIDTH as nat) == m + spaces_at(cs, ls + m, (INDENT_WIDTH - m) as nat),
            decreases INDENT_WIDTH - m,
        {
            m = m + 1;
        }
        proof {
            assert(spaces_at(cs, ls + m, (INDENT_WIDTH - m) as nat) == 0);
            lemma_spaces_pos(cs, ls as int, INDENT_WIDTH as nat);
        }
        if m == 0 {
            return;
        }
        proof {
            reveal_strlit("");
            lemma_char_index(cs, ls as int);
            lemma_char_index(cs, ls + m);
            lemma_pos_full(cs);
            lemma_pos_le(cs, (ls + m) as int, cs.len() as int);
        }
        if replace(buffer, lsb, lsb + m, "") {
            let next = if cursor >= m && cursor - m > lsb {
                cursor - m
            } else {
                lsb
            };
            proof {
                lemma_after_replace(cs, lsb as int, (lsb + m) as int, Seq::empty());
                lemma_line_start_before(cs, k as int);
                lemma_pos_full(buffer@);
                if cursor >= m && cursor - m > lsb {
                    lemma_unindent_cursor(cs, ls as int, m as int, k as int);
                }
            }
            self.cursor = next;
        } else {
            proof {
                assert(false);
            }
        }
    }
}

/// Taking `m` characters of one byte after character `ls` keeps a later
/// character `k` in its place among the ones that follow, `m` bytes earlier.
proof fn lemma_unindent_cursor(cs: Seq<char>, ls: int, m: int, k: int)
    requires
        0 <= ls,
        0 < m,
        ls + m <= cs.len(),
        0 <= k <= cs.len(),
        pos(cs, ls + m) == pos(cs, ls) + m,
        pos(cs, k) - m > pos(cs, ls),
    ensures
        ({
            let t = cs.take(ls) + cs.skip(ls + m);
            &&& k >= ls + m
            &&& pos(t, k - m) == pos(cs, k) - m
            &&& is_boundary(t, pos(cs, k) - m)
            &&& pos(cs, k) - m <= byte_len(t)
        }),
{
    let t = cs.take(ls) + cs.skip(ls + m);
    if k < ls + m {
        lemma_pos_le(cs, k, ls + m);
    }
    assert(t.take(k - m) =~= cs.take(ls) + cs.subrange(ls + m, k));
    crate::buffer::lemma_byte_len_concat(cs.take(ls), cs.subrange(ls + m, k));
    lemma_pos_sub(cs, ls + m, k);
    lemma_char_index(t, k - m);
    lemma_pos_full(t);
    lemma_pos_le(t, k - m, t.len() as int);
}

/// The marks as plain values.
pub open spec fn marks(m: MultiEdit) -> Seq<(usize, usize)> {
    m.ranges@
}

/// `r` sorted in with the marks `v`, before the first that does not order
/// before it (pairs in lexicographic order).
pub open spec fn pair_less(a: (usize, usize), b: (usize, usize)) -> bool {
    a.0 < b.0 || (a.0 == b.0 && a.1 < b.1)
}

/// Where `x` goes among `v`, from `j` on: before the first that does not
/// order before it.
pub open spec fn mark_slot(v: Seq<(usize, usize)>, x: (usize, usize), j: int) -> int
    decreases v.len() - j,
{
    if j < 0 || j >= v.len() {
        v.len() as int
    } else if !pair_less(v[j], x) {
        j
    } else {
        mark_slot(v, x, j + 1)
    }
}

/// The last end among the marks, or zero.
pub open spec fn last_end(v: Seq<(usize, usize)>) -> usize
    decreases v.len(),
{
    if v.len() == 0 {
        0
    } else {
        let rest = last_end(v.drop_last());
        if v.last().1 > rest {
            v.last().1
        } else {
            rest
        }
    }
}

proof fn lemma_mark_slot(v: Seq<(usize, usize)>, x: (usize, usize), j: int)
    requires
        0 <= j <= v.len(),
    ensures
        j <= mark_slot(v, x, j) <= v.len(),
    decreases v.len() - j,
{
    if j < v.len() {
        lemma_mark_slot(v, x, j + 1);
    }
}

impl EditorPane {
    /// The marked stretches, in bytes.
    pub fn occurrences(&self) -> (r: Vec<(usize, usize)>)
        ensures
            match self.multi {
                Some(m) => r@ == m.ranges@,
                None => r@.len() == 0,
            },
    {
        match &self.multi {
            Some(m) => {
                let mut r: Vec<(usize, usize)> = Vec::new();
                let mut i: usize = 0;
                while i < m.ranges.len()
                    invariant
                        0 <= i <= m.ranges@.len(),
                        r@ == m.ranges@.take(i as int),
                    decreases m.ranges@.len() - i,
                {
                    r.push(m.ranges[i]);
                    proof {
                        assert(m.ranges@.take(i + 1) =~= m.ranges@.take(i as int).push(m.ranges@[i as int]));
                    }
                    i = i + 1;
                }
                proof {
                    assert(m.ranges@.take(m.ranges@.len() as int) =~= m.ranges@);
                }
                r
            },
            None => Vec::new(),
        }
    }

    /// Confirms the edit at several occurrences, keeping the text as it is.
    pub fn confirm_occurrences(&mut self) -> (r: bool)
        ensures
            r == old(self).multi is Some,
            final(self).multi is None,
            final(self).selection == if r {
                None
            } else {
                old(self).selection
            },
            final(self).cursor == old(self).cursor,
            final(self).history == old(self).history,
            final(self).capabilities == old(self).capabilities,
            final(self).source == old(self).source,
            final(self).selecting == old(self).selecting,
            marks_in_order(*old(self)) ==> marks_in_order(*final(self)),
    {
        if self.multi.take().is_none() {
            return false;
        }
        self.selection = None;
        true
    }

    /// Gives up the edit at several occurrences: the text goes back to what
    /// it was before it.
    pub fn cancel_occurrences(&mut self, buffer: &mut String) -> (r: bool)
        ensures
            r == old(self).multi is Some,
            final(self).multi is None,
            final(self).history == old(self).history,
            final(self).capabilities == old(self).capabilities,
            final(self).source == old(self).source,
            final(self).selecting == old(self).selecting,
            marks_in_order(*old(self)) ==> marks_in_order(*final(self)),
            match old(self).multi {
                Some(m) => {
                    &&& final(buffer)@ == m.baseline.text@
                    &&& final(self).cursor == min_nat(m.baseline.cursor as int, byte_len(m.baseline.text@) as int)
                    &&& final(self).selection is None
                },
                None => *final(buffer) == *old(buffer) && *final(self) == *old(self),
            },
    {
        let taken = self.multi.take();
        let multi = match taken {
            Some(m) => m,
            None => return false,
        };
        let len = text_byte_len(multi.baseline.text.as_str());
        *buffer = multi.baseline.text;
        self.cursor = if multi.baseline.cursor < len {
            multi.baseline.cursor
        } else {
            len
        };
        self.selection = None;
        true
    }

    /// The first step of `Ctrl+D`: the marking starts from the selection
    /// when there is none yet, and the search for the next occurrence goes
    /// on after the last mark. Answers the text to search for and the
    /// character where the search starts; `None` when there is nothing to
    /// search (no marks and no selection).
    pub fn occurrence_search(&mut self, buffer: &str) -> (r: Option<(String, usize)>)
        ensures
            final(self).cursor == old(self).cursor,
            final(self).selection == old(self).selection,
            final(self).history == old(self).history,
            final(self).capabilities == old(self).capabilities,
            final(self).source == old(self).source,
            final(self).selecting == old(self).selecting,
            marks_in_order(*old(self)) ==> marks_in_order(*final(self)),
            match old(self).multi {
                Some(m) => final(self).multi == old(self).multi,
                None => match ordered(old(self).selection) {
                    None => final(self).multi is None,
                    Some((s, e)) => if replaceable(buffer@, s as int, e as int) {
                        final(self).multi matches Some(m) && {
                            &&& m.ranges@ == seq![(s, e)]
                            &&& m.needle@ == buffer@.subrange(char_index(buffer@, s as int), char_index(buffer@, e as int))
                            &&& m.caret == (if old(self).cursor < s {
                                s
                            } else if old(self).cursor > e {
                                e
                            } else {
                                old(self).cursor
                            }) - s
                            &&& snap(m.baseline) == (buffer@, old(self).cursor, ordered(old(self).selection))
                            &&& !m.typed
                        }
                    } else {
                        final(self).multi is None
                    },
                },
            },
            match final(self).multi {
                Some(m) => {
                    let t = min_nat(last_end(m.ranges@) as int, byte_len(buffer@) as int);
                    r matches Some((n, from)) && n@ == m.needle@ && (is_boundary(buffer@, t) ==> from as int
                        == char_index(buffer@, t)) && (!is_boundary(buffer@, t) ==> from == buffer@.len())
                },
                None => r is None,
            },
    {
        if self.multi.is_none() {
            let range = match self.selection_range() {
                Some(g) => g,
                None => return None,
            };
            let needle = match text_between(buffer, range.start, range.end) {
                Some(n) => n,
                None => return None,
            };
            let cursor = self.cursor;
            let clamped = if cursor < range.start {
                range.start
            } else if cursor > range.end {
                range.end
            } else {
                cursor
            };
            let mut ranges: Vec<(usize, usize)> = Vec::new();
            ranges.push((range.start, range.end));
            let baseline = EditSnapshot { text: string_of(buffer), cursor, selection: self.selection_pair() };
            self.multi = Some(MultiEdit { ranges, needle, caret: clamped - range.start, baseline, typed: false });
        }
        let m = match &self.multi {
            Some(m) => m,
            None => return None,
        };
        let last = last_end_of(&m.ranges);
        let from = crate::text::chars_before(buffer, last);
        let needle = m.needle.clone();
        proof {
            crate::text::lemma_pos_full(buffer@);
            let t = min_nat(last as int, byte_len(buffer@) as int);
            if pos(buffer@, from as int) == t {
                lemma_char_index(buffer@, from as int);
            }
        }
        Some((needle, from))
    }
}

fn last_end_of(v: &Vec<(usize, usize)>) -> (r: usize)
    ensures
        r == last_end(v@),
{
    let mut best: usize = 0;
    let mut i: usize = 0;
    while i < v.len()
        invariant
            0 <= i <= v@.len(),
            best == last_end(v@.take(i as int)),
        decreases v@.len() - i,
    {
        proof {
            assert(v@.take(i + 1).drop_last() =~= v@.take(i as int));
        }
        if v[i].1 > best {
            best = v[i].1;
        }
        i = i + 1;
    }
    proof {
        assert(v@.take(v@.len() as int) =~= v@);
    }
    best
}

/// The text of the bytes `start..end`, when both fall between characters.
pub fn text_between(text: &str, start: usize, end: usize) -> (r: Option<String>)
    ensures
        match r {
            Some(t) => replaceable(text@, start as int, end as int) && t@ == text@.subrange(
                char_index(text@, start as int),
                char_index(text@, end as int),
            ),
            None => !replaceable(text@, start as int, end as int),
        },
{
    let (a, a_ok) = crate::text::locate(text, start);
    let (b, b_ok) = crate::text::locate(text, end);
    if !(start <= end && a_ok && b_ok) {
        return None;
    }
    proof {
        if b < a {
            lemma_pos_strict(text@, b as int, a as int);
        }
    }
    let cs = chars_of(text);
    let mut out: Vec<char> = Vec::new();
    let mut i: usize = a;
    while i < b
        invariant
            cs@ == text@,
            a <= i <= b <= cs@.len(),
            out@ == cs@.subrange(a as int, i as int),
        decreases b - i,
    {
        out.push(cs[i]);
        proof {
            assert(cs@.subrange(a as int, i + 1) =~= cs@.subrange(a as int, i as int).push(cs@[i as int]));
        }
        i = i + 1;
    }
    Some(crate::chars::string_from_chars(&out))
}

/// Where the editing happens inside the mark `r`: `caret` bytes after its
/// start, but not past its end.
pub open spec fn point_of(r: (usize, usize), caret: usize) -> int {
    min_nat(r.0 + caret, r.1 as int)
}

/// The text after writing `w` at the points of the marks `k..`, from the
/// last to the first, and whether every write was accepted (the writing
/// stops at the first one refused).
pub open spec fn typed_upto(t: Seq<char>, rs: Seq<(usize, usize)>, caret: usize, w: Seq<char>, k: int) -> (
    Seq<char>,
    bool,
)
    decreases rs.len() - k,
{
    if k < 0 || k >= rs.len() {
        (t, true)
    } else {
        let (cur, ok) = typed_upto(t, rs, caret, w, k + 1);
        let p = point_of(rs[k], caret);
        if !ok {
            (cur, false)
        } else if replaceable(cur, p, p) {
            (after_replace(cur, p, p, w), true)
        } else {
            (cur, false)
        }
    }
}

/// The marks after `n` bytes were written in each: each grows by `n`, and
/// moves by what the ones before it received.
pub open spec fn grown(rs: Seq<(usize, usize)>, n: nat) -> Seq<(int, int)> {
    Seq::new(rs.len(), |i: int| (rs[i].0 + i * n, rs[i].1 + (i + 1) * n))
}

/// Typing `w` at the marks of `m`: the text as `typed_upto` says; when every
/// write was accepted the marks grow, the caret moves past `w`, the cursor
/// goes to the editing point of the last mark and the selection is dropped;
/// otherwise the pane stays as it was.
pub open spec fn typed_marks(
    m: MultiEdit,
    before: EditorPane,
    bt: Seq<char>,
    after: EditorPane,
    at: Seq<char>,
    w: Seq<char>,
    r: bool,
) -> bool {
    let (t, ok) = typed_upto(bt, m.ranges@, m.caret, w, 0);
    let n = byte_len(w);
    &&& at == t
    &&& r == ok
    &&& !ok ==> (after.multi == before.multi && after.cursor == before.cursor && after.selection == before.selection)
    &&& ok ==> (after.multi matches Some(f) && {
        &&& f.ranges@.len() == m.ranges@.len()
        &&& forall|i: int|
            0 <= i < f.ranges@.len() ==> (#[trigger] f.ranges@[i]).0 == grown(m.ranges@, n)[i].0
                && f.ranges@[i].1 == grown(m.ranges@, n)[i].1
        &&& f.caret == m.caret + n
        &&& f.typed
        &&& f.needle == m.needle
        &&& f.baseline == m.baseline
        &&& after.cursor == (if m.ranges@.len() > 0 {
            grown(m.ranges@, n).last().0 + f.caret
        } else {
            before.cursor as int
        })
        &&& after.selection is None
    })
}

/// The numbers of writing `n` bytes at every mark fit: each mark in order,
/// its point, its growth, and the caret.
pub open spec fn typing_fits(rs: Seq<(usize, usize)>, caret: usize, n: nat) -> bool {
    &&& forall|i: int| 0 <= i < rs.len() ==> (#[trigger] rs[i]).0 <= rs[i].1
    &&& forall|i: int| 0 <= i < rs.len() ==> (#[trigger] rs[i]).0 + caret <= usize::MAX
    &&& forall|i: int| 0 <= i < rs.len() ==> (#[trigger] rs[i]).1 + (i + 1) * n <= usize::MAX
    &&& caret + n <= usize::MAX
    &&& rs.len() > 0 ==> rs.last().0 + (rs.len() - 1) * n + caret + n <= usize::MAX
}

impl EditorPane {
    /// Writes `text` at the editing point of every mark, from the last to the
    /// first: writing at one moves everything after it. Each mark is a
    /// cursor: what was there stays, and the marks grow.
    pub fn replace_occurrences(&mut self, buffer: &mut String, text: &str) -> (r: bool)
        requires
            old(self).multi matches Some(m) ==> typing_fits(m.ranges@, m.caret, byte_len(text@)),
        ensures
            final(self).history == old(self).history,
            final(self).capabilities == old(self).capabilities,
            final(self).source == old(self).source,
            final(self).selecting == old(self).selecting,
            marks_in_order(*old(self)) ==> marks_in_order(*final(self)),
            match old(self).multi {
                None => !r && *final(self) == *old(self) && *final(buffer) == *old(buffer),
                Some(m) => typed_marks(m, *old(self), old(buffer)@, *final(self), final(buffer)@, text@, r),
            },
    {
        let taken = self.multi.take();
        let mut multi = match taken {
            Some(m) => m,
            None => return false,
        };
        let ghost t0 = buffer@;
        let ghost rs = multi.ranges@;
        let ghost m0 = multi;
        let caret = multi.caret;
        let n = crate::text::text_byte_len(text);
        let mut i: usize = multi.ranges.len();
        while i > 0
            invariant
                multi == m0,
                t0 == old(buffer)@,
                old(self).multi == Some(m0),
                self.multi is None,
                self.history == old(self).history,
                self.source == old(self).source,
                self.capabilities == old(self).capabilities,
                self.cursor == old(self).cursor,
                self.selection == old(self).selection,
                self.selecting == old(self).selecting,
                rs == multi.ranges@,
                caret == multi.caret,
                n == byte_len(text@),
                typing_fits(rs, caret, n as nat),
                0 <= i <= rs.len(),
                (buffer@, true) == typed_upto(t0, rs, caret, text@, i as int),
            decreases i,
        {
            let (start, end) = multi.ranges[i - 1];
            let ponto = if start + caret < end {
                start + caret
            } else {
                end
            };
            proof {
                assert(rs[i - 1].0 + caret <= usize::MAX);
            }
            let ghost cur = buffer@;
            if !replace(buffer, ponto, ponto, text) {
                proof {
                    assert(ponto == point_of(rs[i - 1], caret));
                    assert(!replaceable(cur, ponto as int, ponto as int));
                    assert(typed_upto(t0, rs, caret, text@, i - 1) == (cur, false));
                    lemma_typed_stops(t0, rs, caret, text@, i - 1);
                }
                self.multi = Some(multi);
                return false;
            }
            i = i - 1;
        }
        let mut k: usize = 0;
        let mut shift: usize = 0;
        let ghost before = multi.ranges@;
        while k < multi.ranges.len()
            invariant
                old(self).multi == Some(m0),
                multi.needle == m0.needle,
                multi.baseline == m0.baseline,
                self.multi is None,
                self.history == old(self).history,
                self.source == old(self).source,
                self.capabilities == old(self).capabilities,
                before == rs,
                caret == multi.caret,
                n == byte_len(text@),
                typing_fits(rs, caret, n as nat),
                multi.ranges@.len() == rs.len(),
                0 <= k <= rs.len(),
                shift == k * n,
                forall|j: int| 0 <= j < k ==> (#[trigger] multi.ranges@[j]).0 == grown(rs, n as nat)[j].0
                    && multi.ranges@[j].1 == grown(rs, n as nat)[j].1,
                forall|j: int| k <= j < rs.len() ==> #[trigger] multi.ranges@[j] == rs[j],
            decreases rs.len() - k,
        {
            let (s0, e0) = multi.ranges[k];
            proof {
                assert(rs[k as int].1 + (k + 1) * n <= usize::MAX);
                assert((k + 1) * n == k * n + n) by (nonlinear_arith);
                assert(rs[k as int].0 <= rs[k as int].1);
            }
            let start = s0 + shift;
            let antes = e0 - s0;
            multi.ranges.set(k, (start, start + antes + n));
            proof {
                assert((k + 1) * n == k * n + n) by (nonlinear_arith);
            }
            shift = shift + n;
            k = k + 1;
        }
        multi.caret = caret + n;
        multi.typed = true;
        if multi.ranges.len() > 0 {
            let last = multi.ranges[multi.ranges.len() - 1];
            proof {
                let l = rs.len() - 1;
                assert(multi.ranges@[l].0 == grown(rs, n as nat)[l].0);
            }
            self.cursor = last.0 + multi.caret;
        }
        proof {
            if ascending(rs) {
                assert forall|a: int, b: int| 0 <= a < b < multi.ranges@.len() implies pair_less(
                    #[trigger] multi.ranges@[a],
                    #[trigger] multi.ranges@[b],
                ) by {
                    lemma_grown_keeps_the_order(rs, n as nat, a, b);
                }
            }
        }
        self.selection = None;
        self.multi = Some(multi);
        true
    }
}

proof fn lemma_typed_stops(t: Seq<char>, rs: Seq<(usize, usize)>, caret: usize, w: Seq<char>, k: int)
    requires
        0 <= k < rs.len(),
        !typed_upto(t, rs, caret, w, k).1,
    ensures
        typed_upto(t, rs, caret, w, 0) == typed_upto(t, rs, caret, w, k),
    decreases k,
{
    if k > 0 {
        lemma_typed_stops(t, rs, caret, w, k - 1);
    }
}

/// Backspace at the points of the marks `k..`, from the last to the first:
/// the text after it, the bytes taken at each of those marks (in order),
/// and how it went: `0` every taking accepted, `1` one refused (and the
/// rest not tried), `2` a point that does not fall between characters of
/// the text at that moment.
pub open spec fn erased_upto(t: Seq<char>, rs: Seq<(usize, usize)>, caret: usize, k: int) -> (
    Seq<char>,
    Seq<int>,
    int,
)
    decreases rs.len() - k,
{
    if k < 0 || k >= rs.len() {
        (t, Seq::empty(), 0)
    } else {
        let (cur, rem, st) = erased_upto(t, rs, caret, k + 1);
        if st != 0 {
            (cur, rem, st)
        } else {
            let p = point_of(rs[k], caret);
            let m = min_nat(p, byte_len(cur) as int);
            if !is_boundary(cur, m) {
                (cur, rem, 2)
            } else {
                let j = char_index(cur, m);
                let prev: int = if j > 0 {
                    pos(cur, j - 1) as int
                } else {
                    0
                };
                let r: int = if prev >= rs[k].0 {
                    p - prev
                } else {
                    0
                };
                if r > 0 && !replaceable(cur, prev, p) {
                    (cur, rem, 1)
                } else {
                    (
                        if r > 0 {
                            after_replace(cur, prev, p, Seq::empty())
                        } else {
                            cur
                        },
                        seq![r] + rem,
                        0,
                    )
                }
            }
        }
    }
}

/// The bytes taken at the marks before `i`.
pub open spec fn taken_before(rem: Seq<int>, i: int) -> int
    decreases i,
{
    if i <= 0 || i > rem.len() {
        0
    } else {
        taken_before(rem, i - 1) + rem[i - 1]
    }
}

/// Each mark keeps its place, moved back by what the marks before it lost
/// (never before the start of the text), and loses what it lost.
pub open spec fn shrunk(rs: Seq<(usize, usize)>, rem: Seq<int>) -> Seq<(int, int)> {
    Seq::new(
        rs.len(),
        |i: int|
            {
                let start = if rs[i].0 >= taken_before(rem, i) {
                    rs[i].0 - taken_before(rem, i)
                } else {
                    0
                };
                (start, start + (rs[i].1 - rs[i].0) - rem[i])
            },
    )
}

proof fn lemma_erased_stops(t: Seq<char>, rs: Seq<(usize, usize)>, caret: usize, k: int)
    requires
        0 <= k < rs.len(),
        erased_upto(t, rs, caret, k).2 != 0,
    ensures
        erased_upto(t, rs, caret, 0) == erased_upto(t, rs, caret, k),
    decreases k,
{
    if k > 0 {
        lemma_erased_stops(t, rs, caret, k - 1);
    }
}

proof fn lemma_erased_len(t: Seq<char>, rs: Seq<(usize, usize)>, caret: usize, k: int)
    requires
        0 <= k <= rs.len(),
        erased_upto(t, rs, caret, k).2 == 0,
    ensures
        erased_upto(t, rs, caret, k).1.len() == rs.len() - k,
    decreases rs.len() - k,
{
    if k < rs.len() {
        lemma_erased_len(t, rs, caret, k + 1);
    }
}

impl EditorPane {
    /// Backspace at every mark: one character before the editing point of
    /// each, from the last to the first, never out of the mark.
    #[verifier::rlimit(100)]
    #[verifier::spinoff_prover]
    pub fn backspace_occurrences(&mut self, buffer: &mut String) -> (r: bool)
        requires
            old(self).multi matches Some(m) ==> {
                &&& forall|i: int| 0 <= i < m.ranges@.len() ==> (#[trigger] m.ranges@[i]).0 <= m.ranges@[i].1
                &&& forall|i: int| 0 <= i < m.ranges@.len() ==> (#[trigger] m.ranges@[i]).0 + m.caret <= usize::MAX
                &&& erased_upto(old(buffer)@, m.ranges@, m.caret, 0).2 != 2
            },
        ensures
            final(self).history == old(self).history,
            final(self).capabilities == old(self).capabilities,
            final(self).source == old(self).source,
            final(self).selecting == old(self).selecting,
            match old(self).multi {
                None => !r && *final(self) == *old(self) && *final(buffer) == *old(buffer),
                Some(m) => {
                    let (t, rem, st) = erased_upto(old(buffer)@, m.ranges@, m.caret, 0);
                    &&& final(buffer)@ == t
                    &&& r == (st == 0)
                    &&& st != 0 ==> *final(self) == *old(self)
                    &&& st == 0 ==> (final(self).multi matches Some(f) && {
                        let first: int = if rem.len() > 0 {
                            rem[0]
                        } else {
                            0
                        };
                        &&& f.ranges@.len() == m.ranges@.len()
                        &&& forall|i: int|
                            0 <= i < f.ranges@.len() ==> (#[trigger] f.ranges@[i]).0 == shrunk(m.ranges@, rem)[i].0
                                && f.ranges@[i].1 == shrunk(m.ranges@, rem)[i].1
                        &&& f.caret == if m.caret >= first {
                            m.caret - first
                        } else {
                            0
                        }
                        &&& f.needle == m.needle
                        &&& f.baseline == m.baseline
                        &&& f.typed == m.typed
                        &&& final(self).cursor == (if m.ranges@.len() > 0 {
                            shrunk(m.ranges@, rem).last().0 + f.caret
                        } else {
                            old(self).cursor as int
                        })
                        &&& final(self).selection is None
                    })
                },
            },
    {
        let taken = self.multi.take();
        let mut multi = match taken {
            Some(m) => m,
            None => return false,
        };
        let ghost t0 = buffer@;
        let ghost rs = multi.ranges@;
        let ghost m0 = multi;
        let caret = multi.caret;
        let _ = crate::text::text_byte_len(buffer.as_str());
        let mut removed: Vec<usize> = Vec::new();
        let mut i: usize = multi.ranges.len();
        while i > 0
            invariant
                multi == m0,
                t0 == old(buffer)@,
                old(self).multi == Some(m0),
                self.multi is None,
                self.history == old(self).history,
                self.source == old(self).source,
                self.capabilities == old(self).capabilities,
                self.cursor == old(self).cursor,
                self.selection == old(self).selection,
                self.selecting == old(self).selecting,
                rs == multi.ranges@,
                caret == multi.caret,
                forall|j: int| 0 <= j < rs.len() ==> (#[trigger] rs[j]).0 <= rs[j].1,
                forall|j: int| 0 <= j < rs.len() ==> (#[trigger] rs[j]).0 + caret <= usize::MAX,
                erased_upto(t0, rs, caret, 0).2 != 2,
                0 <= i <= rs.len(),
                erased_upto(t0, rs, caret, i as int).2 == 0,
                buffer@ == erased_upto(t0, rs, caret, i as int).0,
                removed@.map_values(|x: usize| x as int) == erased_upto(t0, rs, caret, i as int).1,
                forall|j: int| 0 <= j < removed@.len() ==> removed@[j] <= rs[i + j].1 - rs[i + j].0,
            decreases i,
        {
            let (start, end) = multi.ranges[i - 1];
            let ponto = if start + caret < end {
                start + caret
            } else {
                end
            };
            let ghost cur = buffer@;
            proof {
                let m = min_nat(ponto as int, byte_len(cur) as int);
                if !is_boundary(cur, m) {
                    assert(erased_upto(t0, rs, caret, i - 1).2 == 2);
                    lemma_erased_stops(t0, rs, caret, i - 1);
                }
            }
            let previous = previous_boundary(buffer.as_str(), ponto);
            let removivel = if previous >= start {
                proof {
                    let m = min_nat(ponto as int, byte_len(cur) as int);
                    let j = char_index(cur, m);
                    if j > 0 {
                        lemma_pos_le(cur, j - 1, j);
                    }
                }
                ponto - previous
            } else {
                0
            };
            proof {
                reveal_strlit("");
                let m = min_nat(ponto as int, byte_len(cur) as int);
                let j = char_index(cur, m);
                assert(previous == (if j > 0 {
                    pos(cur, j - 1) as int
                } else {
                    0
                }));
            }
            if removivel > 0 && !replace(buffer, previous, ponto, "") {
                proof {
                    assert(erased_upto(t0, rs, caret, i - 1).2 == 1);
                    lemma_erased_stops(t0, rs, caret, i - 1);
                }
                self.multi = Some(multi);
                return false;
            }
            let ghost prev_removed = removed@;
            removed.insert(0, removivel);
            proof {
                assert(removed@.map_values(|x: usize| x as int) =~= seq![removivel as int] + prev_removed.map_values(
                    |x: usize| x as int,
                ));
                assert forall|j: int| 0 <= j < removed@.len() implies removed@[j] <= rs[i - 1 + j].1 - rs[i - 1 + j].0 by {
                    if j > 0 {
                        assert(removed@[j] == prev_removed[j - 1]);
                    }
                }
            }
            i = i - 1;
        }
        let ghost rem = erased_upto(t0, rs, caret, 0).1;
        let _ = crate::text::text_byte_len(buffer.as_str());
        proof {
            lemma_erased_len(t0, rs, caret, 0);
            lemma_erased_bytes(t0, rs, caret, 0);
        }
        let first: usize = if removed.len() > 0 {
            removed[0]
        } else {
            0
        };
        let mut k: usize = 0;
        let mut shift: usize = 0;
        while k < multi.ranges.len()
            invariant
                old(self).multi == Some(m0),
                multi.needle == m0.needle,
                multi.baseline == m0.baseline,
                multi.typed == m0.typed,
                caret == multi.caret,
                self.multi is None,
                self.history == old(self).history,
                self.source == old(self).source,
                self.capabilities == old(self).capabilities,
                rem.len() == rs.len(),
                taken_before(rem, rem.len() as int) <= usize::MAX,
                forall|j: int| 0 <= j < rem.len() ==> rem[j] >= 0,
                forall|j: int| 0 <= j < rs.len() ==> (#[trigger] rs[j]).0 + caret <= usize::MAX,
                removed@.len() == rs.len(),
                forall|j: int| 0 <= j < rs.len() ==> removed@[j] as int == rem[j],
                forall|j: int| 0 <= j < rs.len() ==> removed@[j] <= rs[j].1 - rs[j].0,
                forall|j: int| 0 <= j < rs.len() ==> (#[trigger] rs[j]).0 <= rs[j].1,
                multi.ranges@.len() == rs.len(),
                0 <= k <= rs.len(),
                shift == taken_before(rem, k as int),
                forall|j: int| 0 <= j < k ==> (#[trigger] multi.ranges@[j]).0 == shrunk(rs, rem)[j].0
                    && multi.ranges@[j].1 == shrunk(rs, rem)[j].1,
                forall|j: int| k <= j < rs.len() ==> #[trigger] multi.ranges@[j] == rs[j],
            decreases rs.len() - k,
        {
            let (s0, e0) = multi.ranges[k];
            let r = removed[k];
            let start = if s0 >= shift {
                s0 - shift
            } else {
                0
            };
            let antes = e0 - s0;
            multi.ranges.set(k, (start, start + antes - r));
            proof {
                assert(taken_before(rem, k + 1) == taken_before(rem, k as int) + rem[k as int]);
            }
            proof {
                lemma_taken_before_le(rem, k + 1);
            }
            shift = shift + r;
            k = k + 1;
        }
        multi.caret = if caret >= first {
            caret - first
        } else {
            0
        };
        if multi.ranges.len() > 0 {
            let last = multi.ranges[multi.ranges.len() - 1];
            proof {
                let l = rs.len() - 1;
                assert(multi.ranges@[l].0 == shrunk(rs, rem)[l].0);
                assert(rs[l].0 + caret <= usize::MAX);
                lemma_taken_before_nonneg(rem, l);
                assert(last.0 <= rs[l].0);
            }
            self.cursor = last.0 + multi.caret;
        }
        self.selection = None;
        self.multi = Some(multi);
        true
    }
}

proof fn lemma_taken_before_le(rem: Seq<int>, i: int)
    requires
        0 <= i <= rem.len(),
        forall|j: int| 0 <= j < rem.len() ==> rem[j] >= 0,
    ensures
        0 <= taken_before(rem, i) <= taken_before(rem, rem.len() as int),
    decreases rem.len() - i,
{
    if i < rem.len() {
        lemma_taken_before_le(rem, i + 1);
    }
    if i > 0 {
        lemma_taken_before_nonneg(rem, i);
    }
}

proof fn lemma_taken_before_nonneg(rem: Seq<int>, i: int)
    requires
        0 <= i <= rem.len(),
        forall|j: int| 0 <= j < rem.len() ==> rem[j] >= 0,
    ensures
        taken_before(rem, i) >= 0,
    decreases i,
{
    if i > 0 {
        lemma_taken_before_nonneg(rem, i - 1);
    }
}

proof fn lemma_taken_before_prepend(r: int, rest: Seq<int>, i: int)
    requires
        0 <= i <= rest.len(),
    ensures
        taken_before(seq![r] + rest, i + 1) == r + taken_before(rest, i),
    decreases i,
{
    let s = seq![r] + rest;
    assert(taken_before(s, i + 1) == taken_before(s, i) + s[i]);
    if i > 0 {
        lemma_taken_before_prepend(r, rest, i - 1);
        assert(s[i] == rest[i - 1]);
        assert(taken_before(rest, i) == taken_before(rest, i - 1) + rest[i - 1]);
    } else {
        assert(s[0] == r);
    }
}

/// What the backspaces take is what the text loses.
proof fn lemma_erased_bytes(t: Seq<char>, rs: Seq<(usize, usize)>, caret: usize, k: int)
    requires
        0 <= k <= rs.len(),
        erased_upto(t, rs, caret, k).2 == 0,
    ensures
        ({
            let (cur, rem, _) = erased_upto(t, rs, caret, k);
            &&& byte_len(cur) + taken_before(rem, rem.len() as int) == byte_len(t)
            &&& forall|j: int| 0 <= j < rem.len() ==> rem[j] >= 0
        }),
    decreases rs.len() - k,
{
    if k < rs.len() {
        lemma_erased_bytes(t, rs, caret, k + 1);
        lemma_erased_len(t, rs, caret, k + 1);
        let (cur, rem, st) = erased_upto(t, rs, caret, k + 1);
        let p = point_of(rs[k], caret);
        let m = min_nat(p, byte_len(cur) as int);
        let j = char_index(cur, m);
        let prev: int = if j > 0 {
            pos(cur, j - 1) as int
        } else {
            0
        };
        if j > 0 {
            lemma_pos_le(cur, j - 1, j);
        }
        let r: int = if prev >= rs[k].0 {
            p - prev
        } else {
            0
        };
        if r > 0 && replaceable(cur, prev, p) {
            lemma_after_replace(cur, prev, p, Seq::empty());
        }
        lemma_taken_before_prepend(r, rem, rem.len() as int);
        assert forall|i: int| 0 <= i < (seq![r] + rem).len() implies (seq![r] + rem)[i] >= 0 by {
            if i > 0 {
                assert((seq![r] + rem)[i] == rem[i - 1]);
            }
        }
    }
}

/// The numbers of moving the editing point inside the first mark fit, and
/// the point falls between characters.
pub open spec fn caret_fits(m: MultiEdit, cs: Seq<char>) -> bool {
    let first = m.ranges@[0];
    &&& first.0 <= first.1
    &&& first.0 <= byte_len(cs)
    &&& first.0 + m.caret <= usize::MAX
    &&& m.ranges@.last().0 + (first.1 - first.0) <= usize::MAX
    &&& valid_offset(cs, point_of(first, m.caret))
}

/// The marks in increasing order: each sorted in before the first that
/// does not order before it.
pub open spec fn sorted_marks(s: Seq<(usize, usize)>) -> Seq<(usize, usize)>
    decreases s.len(),
{
    if s.len() == 0 {
        s
    } else {
        let t = sorted_marks(s.drop_last());
        t.insert(mark_slot(t, s.last(), 0), s.last())
    }
}

proof fn lemma_sorted_marks_len(s: Seq<(usize, usize)>)
    ensures
        sorted_marks(s).len() == s.len(),
    decreases s.len(),
{
    if s.len() > 0 {
        lemma_sorted_marks_len(s.drop_last());
        lemma_mark_slot(sorted_marks(s.drop_last()), s.last(), 0);
    }
}

fn mark_slot_of(v: &Vec<(usize, usize)>, x: (usize, usize)) -> (r: usize)
    ensures
        r == mark_slot(v@, x, 0),
{
    let mut j: usize = 0;
    while j < v.len()
        invariant
            0 <= j <= v@.len(),
            mark_slot(v@, x, 0) == mark_slot(v@, x, j as int),
        decreases v@.len() - j,
    {
        let e = v[j];
        if !(e.0 < x.0 || (e.0 == x.0 && e.1 < x.1)) {
            return j;
        }
        j = j + 1;
    }
    j
}

fn sort_marks(v: &Vec<(usize, usize)>) -> (r: Vec<(usize, usize)>)
    ensures
        r@ == sorted_marks(v@),
{
    let mut out: Vec<(usize, usize)> = Vec::new();
    let mut i: usize = 0;
    while i < v.len()
        invariant
            0 <= i <= v@.len(),
            out@ == sorted_marks(v@.take(i as int)),
        decreases v@.len() - i,
    {
        let x = v[i];
        let j = mark_slot_of(&out, x);
        proof {
            lemma_mark_slot(out@, x, 0);
            assert(v@.take(i + 1).drop_last() =~= v@.take(i as int));
        }
        out.insert(j, x);
        i = i + 1;
    }
    proof {
        assert(v@.take(v@.len() as int) =~= v@);
    }
    out
}

impl EditorPane {
    /// The last step of `Ctrl+D`: the occurrence found (in characters, as
    /// the search answers) joins the marks, unless it is one of them (the
    /// search went all the way round); the cursor goes to its end and the
    /// selection is dropped. True when a mark was added.
    pub fn add_occurrence(&mut self, buffer: &str, found: Option<(usize, usize)>) -> (r: bool)
        ensures
            final(self).history == old(self).history,
            final(self).capabilities == old(self).capabilities,
            final(self).source == old(self).source,
            final(self).selecting == old(self).selecting,
            marks_in_order(*old(self)) ==> marks_in_order(*final(self)),
            match (old(self).multi, found) {
                (Some(m), Some((a, b))) => {
                    let novo = (
                        pos(buffer@, min_nat(a as int, buffer@.len() as int)) as usize,
                        pos(buffer@, min_nat(b as int, buffer@.len() as int)) as usize,
                    );
                    if m.ranges@.contains(novo) {
                        !r && *final(self) == *old(self)
                    } else {
                        &&& r
                        &&& final(self).multi matches Some(f) && f.ranges@ == sorted_marks(m.ranges@.push(novo))
                            && f.needle == m.needle && f.baseline == m.baseline && f.caret == m.caret && f.typed
                            == m.typed
                        &&& final(self).cursor == novo.1
                        &&& final(self).selection is None
                    }
                },
                _ => !r && *final(self) == *old(self),
            },
    {
        let f = match found {
            Some(f) => f,
            None => return false,
        };
        if self.multi.is_none() {
            return false;
        }
        let start = crate::text::byte_at_char(buffer, f.0);
        let end = crate::text::byte_at_char(buffer, f.1);
        let novo = (start, end);
        proof {
            assert(start as int == pos(buffer@, min_nat(f.0 as int, buffer@.len() as int)));
            assert(end as int == pos(buffer@, min_nat(f.1 as int, buffer@.len() as int)));
            assert(novo == (
                pos(buffer@, min_nat(f.0 as int, buffer@.len() as int)) as usize,
                pos(buffer@, min_nat(f.1 as int, buffer@.len() as int)) as usize,
            ));
        }
        let taken = self.multi.take();
        let mut multi = match taken {
            Some(m) => m,
            None => return false,
        };
        let ghost m0 = multi;
        let mut k: usize = 0;
        while k < multi.ranges.len()
            invariant
                multi == m0,
                old(self).multi == Some(m0),
                self.multi is None,
                self.history == old(self).history,
                self.source == old(self).source,
                self.capabilities == old(self).capabilities,
                self.cursor == old(self).cursor,
                self.selection == old(self).selection,
                self.selecting == old(self).selecting,
                0 <= k <= multi.ranges@.len(),
                found == Some(f),
                novo == (
                    pos(buffer@, min_nat(f.0 as int, buffer@.len() as int)) as usize,
                    pos(buffer@, min_nat(f.1 as int, buffer@.len() as int)) as usize,
                ),
                forall|j: int| 0 <= j < k ==> multi.ranges@[j] != novo,
            decreases multi.ranges@.len() - k,
        {
            if multi.ranges[k].0 == novo.0 && multi.ranges[k].1 == novo.1 {
                proof {
                    assert(multi.ranges@.contains(novo));
                }
                self.multi = Some(multi);
                return false;
            }
            k = k + 1;
        }
        proof {
            assert(!multi.ranges@.contains(novo));
        }
        let ghost before = multi.ranges@;
        proof {
            if ascending(before) {
                law_a_new_mark_keeps_the_marks_in_order(before, novo);
            }
        }
        multi.ranges.push(novo);
        let sorted = sort_marks(&multi.ranges);
        multi.ranges = sorted;
        self.cursor = end;
        self.selection = None;
        self.multi = Some(multi);
        true
    }

    /// An arrow while marks are being edited moves the editing point inside
    /// all of them at once, one character, and never out of the first mark.
    pub fn move_occurrence_caret(&mut self, buffer: &str, forward: bool) -> (r: bool)
        requires
            match old(self).multi {
                Some(m) => m.ranges@.len() > 0 ==> caret_fits(m, buffer@),
                None => true,
            },
        ensures
            final(self).history == old(self).history,
            final(self).capabilities == old(self).capabilities,
            final(self).source == old(self).source,
            final(self).selecting == old(self).selecting,
            marks_in_order(*old(self)) ==> marks_in_order(*final(self)),
            final(self).selection == old(self).selection,
            match old(self).multi {
                Some(m) => if m.ranges@.len() == 0 {
                    !r && *final(self) == *old(self)
                } else {
                    let first = m.ranges@[0];
                    let p = point_of(first, m.caret);
                    let alvo = if forward {
                        min_nat(step_target(buffer@, p, true), first.1 as int)
                    } else {
                        let t = step_target(buffer@, p, false);
                        if t > first.0 {
                            t
                        } else {
                            first.0 as int
                        }
                    };
                    &&& r
                    &&& final(self).multi matches Some(f) && f.ranges == m.ranges && f.needle == m.needle
                        && f.baseline == m.baseline && f.typed == m.typed && f.caret == alvo - first.0
                    &&& final(self).cursor == m.ranges@.last().0 + (alvo - first.0)
                },
                None => !r && *final(self) == *old(self),
            },
    {
        let taken = self.multi.take();
        let mut multi = match taken {
            Some(m) => m,
            None => return false,
        };
        if multi.ranges.len() == 0 {
            self.multi = Some(multi);
            return false;
        }
        let (start, end) = multi.ranges[0];
        let ponto = if start + multi.caret < end {
            start + multi.caret
        } else {
            end
        };
        let ghost cs = buffer@;
        proof {
            lemma_valid_index(cs, ponto as int);
            lemma_pos_zero(cs);
        }
        let alvo = if forward {
            let next = next_boundary(buffer, ponto);
            proof {
                let k = index_of(cs, ponto as int);
                assert(next == step_target(cs, ponto as int, true));
                lemma_pos_le(cs, k, min_nat(k + 1, cs.len() as int));
                lemma_pos_full(cs);
            }
            if next < end {
                next
            } else {
                end
            }
        } else {
            let previous = previous_boundary(buffer, ponto);
            proof {
                let k = index_of(cs, ponto as int);
                assert(previous == step_target(cs, ponto as int, false));
                if k > 0 {
                    lemma_pos_le(cs, k - 1, k);
                }
                lemma_pos_full(cs);
            }
            if previous > start {
                previous
            } else {
                start
            }
        };
        multi.caret = alvo - start;
        let last = multi.ranges[multi.ranges.len() - 1];
        self.cursor = last.0 + multi.caret;
        self.multi = Some(multi);
        true
    }
}

/// What a key asks for beyond the pane: the rules for words, for the
/// indentation of a line and for shifting a block of lines are the drawing
/// library's, and the search for the next occurrence too.
#[derive(Clone, Copy, Debug, Eq, PartialEq, Structural)]
pub enum KeyEffect {
    /// Done; the screen does what the action says.
    Done(EditorAction),
    /// Enter: a line break goes in with the indentation of the line that
    /// holds this byte offset (see `line_break`).
    NeedsIndentation(usize),
    /// Tab with a selection: the selected lines shift in (`true`) or out
    /// (see `set_shifted`); the state was remembered already.
    NeedsShiftedLines(bool),
    /// `Ctrl` and a side arrow: the cursor goes to the word boundary ahead
    /// (`true`) or behind (see `move_cursor`).
    NeedsWordBoundary(bool),
    /// `Ctrl+D`: the next occurrence is searched (see `occurrence_search`
    /// and `add_occurrence`).
    NeedsNextOccurrence,
}

/// The pane unchanged.
pub open spec fn unchanged(before: EditorPane, bt: Seq<char>, after: EditorPane, at: Seq<char>) -> bool {
    after == before && at == bt
}

/// Backspace with no marks: the state is remembered, then the selection
/// goes, or else the character before the cursor.
pub open spec fn erase_spec(before: EditorPane, bt: Seq<char>, after: EditorPane, at: Seq<char>) -> bool {
    &&& history_view(after.history@) == recorded(
        history_view(before.history@),
        (bt, before.cursor, ordered(before.selection)),
    )
    &&& after.multi == before.multi
    &&& after.capabilities == before.capabilities
    &&& after.selection == selection_after_delete(before.selection)
    &&& if ordered(before.selection) matches Some((s, e)) && replaceable(bt, s as int, e as int) {
        at == text_after_delete(bt, before.selection) && after.cursor == cursor_after_delete(
            bt,
            before.selection,
            before.cursor,
        )
    } else {
        let (t, c) = erase_before(bt, before.cursor as int);
        at == t && after.cursor == c
    }
}

/// A side arrow without `Ctrl`.
pub open spec fn step_spec(before: EditorPane, t: Seq<char>, after: EditorPane, forward: bool, selecting: bool) -> bool {
    &&& after.cursor == stop_at(t, step_target(t, before.cursor as int, forward), forward)
    &&& after.selection == moved_selection(before.selection, before.cursor, after.cursor, selecting)
    &&& after.history == before.history
    &&& after.multi == before.multi
    &&& after.capabilities == before.capabilities
}

/// The decision a key makes, before anything is done.
pub open spec fn key_choice(
    caps: EditorCapabilities,
    marking: bool,
    selected: bool,
    key: Seq<char>,
    shift: bool,
    control: bool,
) -> int {
    let k = key.map_values(|c: char| crate::explorer::ascii_lower(c));
    if control && caps.save && k == "s"@ {
        1
    } else if control && k == "z"@ {
        2
    } else if control && k == "d"@ {
        3
    } else if marking && k == "enter"@ {
        4
    } else if marking && k == "escape"@ {
        5
    } else if marking && k == "backspace"@ {
        6
    } else if marking && k == "arrowleft"@ {
        7
    } else if marking && k == "arrowright"@ {
        8
    } else if k == "backspace"@ {
        9
    } else if k == "enter"@ {
        10
    } else if k == "tab"@ && selected {
        11
    } else if k == "tab"@ && shift {
        12
    } else if k == "tab"@ {
        13
    } else if k == "arrowleft"@ && control {
        14
    } else if k == "arrowright"@ && control {
        15
    } else if k == "arrowleft"@ {
        16
    } else if k == "arrowright"@ {
        17
    } else if k == "arrowup"@ {
        18
    } else if k == "arrowdown"@ {
        19
    } else {
        0
    }
}

/// The pane with everything but its history as `before`.
pub open spec fn same_but_history(before: EditorPane, after: EditorPane) -> bool {
    &&& after.cursor == before.cursor
    &&& after.selection == before.selection
    &&& after.multi == before.multi
    &&& after.capabilities == before.capabilities
}

/// The history after the state of `before` over `bt` is remembered.
pub open spec fn remembered(before: EditorPane, bt: Seq<char>, after: EditorPane) -> bool {
    history_view(after.history@) == recorded(
        history_view(before.history@),
        (bt, before.cursor, ordered(before.selection)),
    )
}

/// Undo, as `undo` does it.
pub open spec fn undone(before: EditorPane, bt: Seq<char>, after: EditorPane, at: Seq<char>) -> bool {
    &&& after.capabilities == before.capabilities
    &&& if before.history@.len() == 0 {
        after == before && at == bt
    } else {
        let last = history_view(before.history@).last();
        &&& at == last.0
        &&& after.cursor == min_nat(last.1 as int, byte_len(last.0) as int)
        &&& after.selection == last.2
        &&& after.multi is None
        &&& history_view(after.history@) == history_view(before.history@).drop_last()
    }
}

/// Escape while marking, as `cancel_occurrences` does it.
pub open spec fn cancelled(before: EditorPane, bt: Seq<char>, after: EditorPane, at: Seq<char>) -> bool {
    &&& after.multi is None
    &&& after.history == before.history
    &&& after.capabilities == before.capabilities
    &&& match before.multi {
        Some(m) => {
            &&& at == m.baseline.text@
            &&& after.cursor == min_nat(m.baseline.cursor as int, byte_len(m.baseline.text@) as int)
            &&& after.selection is None
        },
        None => after == before && at == bt,
    }
}

/// Enter while marking, as `confirm_occurrences` does it.
pub open spec fn confirmed(before: EditorPane, after: EditorPane) -> bool {
    &&& after.multi is None
    &&& after.selection == if before.multi is Some {
        None
    } else {
        before.selection
    }
    &&& after.cursor == before.cursor
    &&& after.history == before.history
    &&& after.capabilities == before.capabilities
}

/// Backspace while marking: the state remembered, then one character taken
/// before the editing point of every mark, as `backspace_occurrences` does.
pub open spec fn erased_marks(before: EditorPane, bt: Seq<char>, after: EditorPane, at: Seq<char>) -> bool {
    &&& remembered(before, bt, after)
    &&& after.capabilities == before.capabilities
    &&& match before.multi {
        None => same_but_history(before, after) && at == bt,
        Some(m) => {
            let (t, rem, st) = erased_upto(bt, m.ranges@, m.caret, 0);
            &&& at == t
            &&& st != 0 ==> same_but_history(before, after)
            &&& st == 0 ==> (after.multi matches Some(f) && {
                let first: int = if rem.len() > 0 {
                    rem[0]
                } else {
                    0
                };
                &&& f.ranges@.len() == m.ranges@.len()
                &&& forall|i: int|
                    0 <= i < f.ranges@.len() ==> (#[trigger] f.ranges@[i]).0 == shrunk(m.ranges@, rem)[i].0
                        && f.ranges@[i].1 == shrunk(m.ranges@, rem)[i].1
                &&& f.caret == if m.caret >= first {
                    m.caret - first
                } else {
                    0
                }
                &&& f.needle == m.needle
                &&& f.baseline == m.baseline
                &&& f.typed == m.typed
                &&& after.cursor == (if m.ranges@.len() > 0 {
                    shrunk(m.ranges@, rem).last().0 + f.caret
                } else {
                    before.cursor as int
                })
                &&& after.selection is None
            })
        },
    }
}

/// A side arrow while marking, as `move_occurrence_caret` does it.
pub open spec fn caret_moved(before: EditorPane, t: Seq<char>, after: EditorPane, forward: bool) -> bool {
    &&& after.history == before.history
    &&& after.capabilities == before.capabilities
    &&& after.selection == before.selection
    &&& match before.multi {
        Some(m) => if m.ranges@.len() == 0 {
            after == before
        } else {
            let first = m.ranges@[0];
            let p = point_of(first, m.caret);
            let alvo = if forward {
                min_nat(step_target(t, p, true), first.1 as int)
            } else {
                let x = step_target(t, p, false);
                if x > first.0 {
                    x
                } else {
                    first.0 as int
                }
            };
            &&& after.multi matches Some(f) && f.ranges == m.ranges && f.needle == m.needle && f.baseline
                == m.baseline && f.typed == m.typed && f.caret == alvo - first.0
            &&& after.cursor == m.ranges@.last().0 + (alvo - first.0)
        },
        None => after == before,
    }
}

/// What a key needs of the state so that nothing it does would fail: undo
/// keeps its limit; keys that read the cursor need it between characters;
/// and the numbers of an edit at several marks must fit.
pub open spec fn key_ready(p: EditorPane, t: Seq<char>, key: Seq<char>, shift: bool, control: bool) -> bool {
    let c = key_choice(p.capabilities, p.multi is Some, ordered(p.selection) is Some, key, shift, control);
    &&& p.history@.len() <= HISTORY_LIMIT
    &&& (c == 9 || c == 12 || c == 13 || c == 16 || c == 17 || c == 18 || c == 19) ==> p.wf(t)
    &&& c == 6 ==> (p.multi matches Some(m) && {
        &&& forall|i: int| 0 <= i < m.ranges@.len() ==> (#[trigger] m.ranges@[i]).0 <= m.ranges@[i].1
        &&& forall|i: int| 0 <= i < m.ranges@.len() ==> (#[trigger] m.ranges@[i]).0 + m.caret <= usize::MAX
        &&& erased_upto(t, m.ranges@, m.caret, 0).2 != 2
    })
    &&& (c == 7 || c == 8) ==> (p.multi matches Some(m) && (m.ranges@.len() > 0 ==> caret_fits(m, t)))
    &&& c == 13 ==> (p.multi matches Some(m) ==> typing_fits(m.ranges@, m.caret, indent_width(t, p.cursor as int)))
}

/// What a key did, by the decision it made.
pub open spec fn key_done(
    before: EditorPane,
    bt: Seq<char>,
    after: EditorPane,
    at: Seq<char>,
    key: Seq<char>,
    shift: bool,
    control: bool,
    r: KeyEffect,
) -> bool {
    let c = key_choice(before.capabilities, before.multi is Some, ordered(before.selection) is Some, key, shift, control);
    if c == 1 {
        r == KeyEffect::Done(EditorAction::Save) && after == before && at == bt
    } else if c == 2 {
        r == KeyEffect::Done(EditorAction::Idle) && undone(before, bt, after, at)
    } else if c == 3 {
        r == KeyEffect::NeedsNextOccurrence && after == before && at == bt
    } else if c == 4 {
        r == KeyEffect::Done(EditorAction::Idle) && confirmed(before, after) && at == bt
    } else if c == 5 {
        r == KeyEffect::Done(EditorAction::Idle) && cancelled(before, bt, after, at)
    } else if c == 6 {
        r == KeyEffect::Done(EditorAction::Idle) && erased_marks(before, bt, after, at)
    } else if c == 7 || c == 8 {
        r == KeyEffect::Done(EditorAction::Idle) && caret_moved(before, bt, after, c == 8) && at == bt
    } else if c == 9 {
        r == KeyEffect::Done(EditorAction::Idle) && erase_spec(before, bt, after, at) && after.wf(at)
    } else if c == 10 {
        r == KeyEffect::NeedsIndentation(
            match ordered(before.selection) {
                Some((s, _)) => s,
                None => before.cursor,
            },
        ) && after == before && at == bt
    } else if c == 11 {
        r == KeyEffect::NeedsShiftedLines(!shift) && remembered(before, bt, after) && same_but_history(before, after)
            && at == bt
    } else if c == 12 {
        &&& r == KeyEffect::Done(EditorAction::Idle)
        &&& remembered(before, bt, after)
        &&& after.selection == before.selection
        &&& after.multi == before.multi
        &&& after.capabilities == before.capabilities
        &&& unindented(before, bt, after, at)
        &&& after.wf(at)
    } else if c == 13 {
        &&& r == KeyEffect::Done(EditorAction::Idle)
        &&& history_view(after.history@) == recorded(
            recorded(history_view(before.history@), (bt, before.cursor, ordered(before.selection))),
            (bt, before.cursor, ordered(before.selection)),
        )
        &&& after.capabilities == before.capabilities
        &&& match before.multi {
            None => {
                let t1 = text_after_delete(bt, before.selection);
                let c1 = cursor_after_delete(bt, before.selection, before.cursor);
                let c2 = min_nat(c1, byte_len(t1) as int);
                let w = spaces(indent_width(bt, before.cursor as int));
                &&& at == after_replace(t1, c2, c2, w)
                &&& after.cursor == c2 + byte_len(w)
                &&& after.selection == selection_after_delete(before.selection)
                &&& after.multi is None
                &&& after.wf(at)
            },
            Some(m) => typed_marks(m, before, bt, after, at, spaces(indent_width(bt, before.cursor as int)), true)
                || typed_marks(m, before, bt, after, at, spaces(indent_width(bt, before.cursor as int)), false),
        }
    } else if c == 14 || c == 15 {
        r == KeyEffect::NeedsWordBoundary(c == 15) && after == before && at == bt
    } else if c == 16 || c == 17 {
        r == KeyEffect::Done(EditorAction::Idle) && step_spec(before, bt, after, c == 17, shift) && at == bt && after.wf(at)
    } else if c == 18 || c == 19 {
        &&& r == KeyEffect::Done(EditorAction::Idle)
        &&& at == bt
        &&& after.history == before.history
        &&& after.multi == before.multi
        &&& after.capabilities == before.capabilities
        &&& line_moved(before, bt, after, c == 19, shift)
        &&& after.wf(at)
    } else {
        r == KeyEffect::Done(EditorAction::Idle) && after == before && at == bt
    }
}

impl EditorPane {
    /// A key of editing or movement. Answers what the screen has to do, or
    /// what the drawing library has to answer before the key is done.
    #[verifier::rlimit(100)]
    #[verifier::spinoff_prover]
    pub fn key(&mut self, buffer: &mut String, key: &str, shift: bool, control: bool) -> (r: KeyEffect)
        requires
            key_ready(*old(self), old(buffer)@, key@, shift, control),
        ensures
            key_done(*old(self), old(buffer)@, *final(self), final(buffer)@, key@, shift, control, r),
            final(self).source == old(self).source,
            final(self).selecting == old(self).selecting,
    {
        let k = crate::explorer::to_ascii_lowercase(key);
        let k = k.as_str();
        let marking = self.multi.is_some();
        let selected = self.selection_range().is_some();
        proof {
            reveal_strlit("s");
            reveal_strlit("z");
            reveal_strlit("d");
        }
        if control && self.capabilities.save && crate::fmt::str_eq(k, "s") {
            return KeyEffect::Done(EditorAction::Save);
        }
        if control && crate::fmt::str_eq(k, "z") {
            self.undo(buffer);
            return KeyEffect::Done(EditorAction::Idle);
        }
        if control && crate::fmt::str_eq(k, "d") {
            return KeyEffect::NeedsNextOccurrence;
        }
        if marking {
            if crate::fmt::str_eq(k, "enter") {
                self.confirm_occurrences();
                return KeyEffect::Done(EditorAction::Idle);
            }
            if crate::fmt::str_eq(k, "escape") {
                self.cancel_occurrences(buffer);
                return KeyEffect::Done(EditorAction::Idle);
            }
            if crate::fmt::str_eq(k, "backspace") {
                self.remember(buffer.as_str());
                self.backspace_occurrences(buffer);
                return KeyEffect::Done(EditorAction::Idle);
            }
            if crate::fmt::str_eq(k, "arrowleft") {
                self.move_occurrence_caret(buffer.as_str(), false);
                return KeyEffect::Done(EditorAction::Idle);
            }
            if crate::fmt::str_eq(k, "arrowright") {
                self.move_occurrence_caret(buffer.as_str(), true);
                return KeyEffect::Done(EditorAction::Idle);
            }
        }
        if crate::fmt::str_eq(k, "backspace") {
            self.remember(buffer.as_str());
            self.erase(buffer);
        } else if crate::fmt::str_eq(k, "enter") {
            let from = match self.selection_range() {
                Some(g) => g.start,
                None => self.cursor,
            };
            return KeyEffect::NeedsIndentation(from);
        } else if crate::fmt::str_eq(k, "tab") && selected {
            self.remember(buffer.as_str());
            return KeyEffect::NeedsShiftedLines(!shift);
        } else if crate::fmt::str_eq(k, "tab") && shift {
            self.remember(buffer.as_str());
            self.unindent(buffer);
        } else if crate::fmt::str_eq(k, "tab") {
            self.remember(buffer.as_str());
            self.indent(buffer);
        } else if crate::fmt::str_eq(k, "arrowleft") && control {
            return KeyEffect::NeedsWordBoundary(false);
        } else if crate::fmt::str_eq(k, "arrowright") && control {
            return KeyEffect::NeedsWordBoundary(true);
        } else if crate::fmt::str_eq(k, "arrowleft") {
            self.step(buffer.as_str(), false, shift);
        } else if crate::fmt::str_eq(k, "arrowright") {
            self.step(buffer.as_str(), true, shift);
        } else if crate::fmt::str_eq(k, "arrowup") {
            self.move_line(buffer.as_str(), false, shift);
        } else if crate::fmt::str_eq(k, "arrowdown") {
            self.move_line(buffer.as_str(), true, shift);
        }
        KeyEffect::Done(EditorAction::Idle)
    }

    /// Finishes Enter: a line break and the indentation of the line the
    /// drawing library read.
    pub fn line_break(&mut self, buffer: &mut String, indentation: &str) -> (r: bool)
        requires
            old(self).history@.len() <= HISTORY_LIMIT,
            old(self).multi is None ==> old(self).wf(old(buffer)@),
            old(self).multi matches Some(m) ==> typing_fits(m.ranges@, m.caret, 1 + byte_len(indentation@)),
        ensures
            final(self).history@.len() <= HISTORY_LIMIT,
            final(self).source == old(self).source,
            final(self).selecting == old(self).selecting,
            match old(self).multi {
                None => r && final(self).wf(final(buffer)@) && inserted(
                    *old(self),
                    old(buffer)@,
                    *final(self),
                    final(buffer)@,
                    seq!['\n'] + indentation@,
                ),
                Some(m) => {
                    &&& remembered(*old(self), old(buffer)@, *final(self))
                    &&& final(self).capabilities == old(self).capabilities
                    &&& typed_marks(m, *old(self), old(buffer)@, *final(self), final(buffer)@, seq!['\n'] + indentation@, r)
                },
            },
    {
        let mut text = String::new();
        push_char(&mut text, '\n');
        crate::fmt::push_str(&mut text, indentation);
        proof {
            assert(text@ =~= seq!['\n'] + indentation@);
            assert(seq!['\n'] + indentation@ =~= seq!['\n'].add(indentation@));
            crate::buffer::lemma_byte_len_concat(seq!['\n'], indentation@);
            assert(seq!['\n'].drop_last() =~= Seq::<char>::empty());
            assert(byte_len(Seq::<char>::empty()) == 0);
            assert(byte_len(seq!['\n']) == 1);
            assert(byte_len(text@) == 1 + byte_len(indentation@));
        }
        self.insert(buffer, text.as_str())
    }

    /// Finishes Tab with a selection: the text with the selected lines
    /// shifted, and the selection over them (in characters, as the drawing
    /// library answers).
    pub fn set_shifted(&mut self, buffer: &mut String, updated: &str, selection: Option<(usize, usize)>)
        ensures
            final(buffer)@ == updated@,
            final(self).history == old(self).history,
            final(self).multi == old(self).multi,
            final(self).capabilities == old(self).capabilities,
            final(self).source == old(self).source,
            final(self).selecting == old(self).selecting,
            match selection {
                Some((a, b)) => {
                    let s = pos(updated@, min_nat(a as int, updated@.len() as int));
                    let e = pos(updated@, min_nat(b as int, updated@.len() as int));
                    &&& final(self).selection == Some((s as usize, e as usize))
                    &&& final(self).cursor == e
                    &&& valid_offset(updated@, e as int)
                },
                None => final(self).selection is None && final(self).cursor == old(self).cursor,
            },
    {
        *buffer = string_of(updated);
        match selection {
            Some((a, b)) => {
                let start = crate::text::byte_at_char(updated, a);
                let end = crate::text::byte_at_char(updated, b);
                proof {
                    let cs = updated@;
                    let j = min_nat(b as int, cs.len() as int);
                    lemma_char_index(cs, j);
                    lemma_pos_full(cs);
                    lemma_pos_le(cs, j, cs.len() as int);
                }
                self.selection = Some((start, end));
                self.cursor = end;
            },
            None => {
                self.selection = None;
            },
        }
    }
}

/// Everything a gesture of the pointer leaves as it was.
pub open spec fn same_document_state(before: EditorPane, after: EditorPane) -> bool {
    &&& after.history == before.history
    &&& after.multi == before.multi
    &&& after.capabilities == before.capabilities
    &&& after.source == before.source
}

/// A press of the pointer (see `pointer_down`).
pub open spec fn pressed(
    before: EditorPane,
    inside: bool,
    gutter_line: Option<usize>,
    offset: usize,
    control: bool,
    shift: bool,
    after: EditorPane,
    r: EditorAction,
) -> bool {
    if !inside {
        r == EditorAction::Idle && after == before
    } else if gutter_line is Some && before.capabilities.breakpoint_gutter {
        r == EditorAction::ToggleBreakpoint(gutter_line->0) && after == before
    } else if control && before.capabilities.navigation {
        &&& r == EditorAction::Navigate(offset)
        &&& after.cursor == offset
        &&& after.selection == before.selection
        &&& after.selecting == before.selecting
        &&& same_document_state(before, after)
    } else if shift {
        &&& r == EditorAction::Idle
        &&& after.cursor == offset
        &&& after.selection == Some(
            (
                match before.selection {
                    Some((a, _)) => a,
                    None => before.cursor,
                },
                offset,
            ),
        )
        &&& after.selecting
        &&& same_document_state(before, after)
    } else {
        &&& r == EditorAction::Idle
        &&& after.cursor == offset
        &&& after.selection == Some((offset, offset))
        &&& after.selecting
        &&& same_document_state(before, after)
    }
}

/// A step of a drag to the byte `offset`, when `moved`: the cursor and the
/// end of the selection follow; otherwise nothing changes.
pub open spec fn dragged(before: EditorPane, moved: bool, offset: usize, after: EditorPane) -> bool {
    if moved {
        &&& after.cursor == offset
        &&& after.selection == match before.selection {
            Some((a, _)) => Some((a, offset)),
            None => None,
        }
        &&& after.selecting
        &&& same_document_state(before, after)
    } else {
        after == before
    }
}

/// The press ends; an empty selection was a click.
pub open spec fn released(before: EditorPane, after: EditorPane) -> bool {
    &&& !after.selecting
    &&& after.cursor == before.cursor
    &&& after.selection == match before.selection {
        Some((a, f)) => if a == f {
            None
        } else {
            before.selection
        },
        None => None,
    }
    &&& same_document_state(before, after)
}

impl EditorPane {
    /// A press of the pointer. `inside` says whether it fell on the pane,
    /// `gutter_line` the line when it fell on the gutter strip, and `offset`
    /// the byte the drawing library finds under it. Where the gutter takes
    /// clicks, it speaks of the whole line; `Ctrl` asks for the definition, when the screen offers
    /// it; `Shift` extends from the anchor there was (or the cursor); a plain
    /// press fixes the anchor, and the drag that follows decides whether it
    /// became a selection.
    pub fn pointer_down(&mut self, inside: bool, gutter_line: Option<usize>, offset: usize, control: bool, shift: bool) -> (r:
        EditorAction)
        ensures
            pressed(*old(self), inside, gutter_line, offset, control, shift, *final(self), r),
    {
        if !inside {
            return EditorAction::Idle;
        }
        if let Some(line) = gutter_line {
            if self.capabilities.breakpoint_gutter {
                return EditorAction::ToggleBreakpoint(line);
            }
        }
        if control && self.capabilities.navigation {
            self.cursor = offset;
            return EditorAction::Navigate(offset);
        }
        if shift {
            let anchor = match self.selection {
                Some((a, _)) => a,
                None => self.cursor,
            };
            self.cursor = offset;
            self.selection = Some((anchor, offset));
            self.selecting = true;
            return EditorAction::Idle;
        }
        self.cursor = offset;
        self.selection = Some((offset, offset));
        self.selecting = true;
        EditorAction::Idle
    }

    /// The secondary click asks for the menu, where the screen offers one
    /// and the click fell on the pane.
    pub fn secondary_pointer_down(&self, inside: bool) -> (r: EditorAction)
        ensures
            r == if self.capabilities.context_menu && inside {
                EditorAction::ContextMenu
            } else {
                EditorAction::Idle
            },
    {
        if !self.capabilities.context_menu || !inside {
            return EditorAction::Idle;
        }
        EditorAction::ContextMenu
    }

    fn extend_to(&mut self, focus: usize)
        ensures
            final(self).cursor == focus,
            final(self).selection == match old(self).selection {
                Some((a, _)) => Some((a, focus)),
                None => None,
            },
            final(self).history == old(self).history,
            final(self).multi == old(self).multi,
            final(self).capabilities == old(self).capabilities,
            final(self).source == old(self).source,
            final(self).selecting == old(self).selecting,
    {
        self.cursor = focus;
        if let Some((anchor, _)) = self.selection {
            self.selection = Some((anchor, focus));
        }
    }

    /// A drag to the byte `offset`: while a press is on, the cursor and the
    /// end of the selection follow it; the answer says whether it did.
    pub fn pointer_move(&mut self, offset: usize) -> (r: bool)
        ensures
            r == old(self).selecting,
            dragged(*old(self), r, offset, *final(self)),
    {
        if !self.selecting {
            return false;
        }
        self.extend_to(offset);
        true
    }

    /// A tick of the clock while a drag stays past the edge: when the view
    /// scrolled (`scrolled`), the selection follows to the byte `offset`
    /// under the pointer, as if it had moved. The answer says whether
    /// anything changed.
    pub fn drag_autoscroll(&mut self, scrolled: bool, offset: usize) -> (r: bool)
        ensures
            r == (old(self).selecting && scrolled),
            dragged(*old(self), r, offset, *final(self)),
    {
        if !self.selecting || !scrolled {
            return false;
        }
        self.extend_to(offset);
        true
    }

    /// The press ends. Pressing and releasing at the same place is a click,
    /// not an empty selection.
    pub fn pointer_up(&mut self)
        ensures
            released(*old(self), *final(self)),
    {
        self.selecting = false;
        if let Some((anchor, focus)) = self.selection {
            if anchor == focus {
                self.selection = None;
            }
        }
    }

    /// A double click found the word from byte `start` to byte `end` (the
    /// drawing library knows what a word is): it is selected, the cursor at
    /// its end, and no drag follows.
    pub fn select_word(&mut self, start: usize, end: usize)
        ensures
            final(self).cursor == end,
            final(self).selection == Some((start, end)),
            !final(self).selecting,
            final(self).history == old(self).history,
            final(self).multi == old(self).multi,
            final(self).capabilities == old(self).capabilities,
            final(self).source == old(self).source,
    {
        self.cursor = end;
        self.selection = Some((start, end));
        self.selecting = false;
    }
}

// ----------------------------------------------------------------------------
// Laws

/// Undo takes back the change remembered last: the text, the cursor (kept
/// inside the text) and the selection come back as they stood, the marks
/// end, and the history is again what it was, unless it was already full,
/// in which case its oldest snapshot is gone.
pub proof fn law_undo_reverts_the_last_change(
    before: EditorPane,
    bt: Seq<char>,
    edited: EditorPane,
    et: Seq<char>,
    after: EditorPane,
    at: Seq<char>,
)
    requires
        before.history@.len() <= HISTORY_LIMIT,
        remembered(before, bt, edited),
        undone(edited, et, after, at),
    ensures
        at == bt,
        after.cursor == min_nat(before.cursor as int, byte_len(bt) as int),
        after.selection == ordered(before.selection),
        after.multi is None,
        before.history@.len() < HISTORY_LIMIT ==> history_view(after.history@) == history_view(
            before.history@,
        ),
        before.history@.len() == HISTORY_LIMIT ==> history_view(after.history@) == history_view(
            before.history@,
        ).drop_first(),
{
    let h = history_view(before.history@);
    let x = (bt, before.cursor, ordered(before.selection));
    assert(history_view(edited.history@).len() == edited.history@.len());
    assert(h.len() == before.history@.len());
    if h.len() + 1 > HISTORY_LIMIT {
        assert(h.push(x).drop_first().drop_last() =~= h.drop_first());
        assert(h.push(x).drop_first().last() == x);
    } else {
        assert(h.push(x).drop_last() =~= h);
    }
}

/// What `Escape` gives back while marking rests on the snapshot taken when
/// the marks began, which typing at the marks keeps: Escape after typing
/// restores the same text, cursor and selection as Escape before it.
pub proof fn law_escape_ignores_typing_at_the_marks(
    m: MultiEdit,
    before: EditorPane,
    bt: Seq<char>,
    after: EditorPane,
    at: Seq<char>,
    w: Seq<char>,
    r: bool,
    x: EditorPane,
    xt: Seq<char>,
    y: EditorPane,
    yt: Seq<char>,
)
    requires
        before.multi == Some(m),
        typed_marks(m, before, bt, after, at, w, r),
        cancelled(before, bt, x, xt),
        cancelled(after, at, y, yt),
    ensures
        yt == xt,
        y.cursor == x.cursor,
        y.selection == x.selection,
{
}

/// The same for `Backspace` at the marks: Escape after it restores what
/// Escape before it would.
pub proof fn law_escape_ignores_erasing_at_the_marks(
    before: EditorPane,
    bt: Seq<char>,
    after: EditorPane,
    at: Seq<char>,
    x: EditorPane,
    xt: Seq<char>,
    y: EditorPane,
    yt: Seq<char>,
)
    requires
        before.multi is Some,
        erased_marks(before, bt, after, at),
        cancelled(before, bt, x, xt),
        cancelled(after, at, y, yt),
    ensures
        yt == xt,
        y.cursor == x.cursor,
        y.selection == x.selection,
{
}

/// The same for the side arrows while marking.
pub proof fn law_escape_ignores_moving_at_the_marks(
    before: EditorPane,
    t: Seq<char>,
    after: EditorPane,
    forward: bool,
    x: EditorPane,
    xt: Seq<char>,
    y: EditorPane,
    yt: Seq<char>,
)
    requires
        before.multi is Some,
        caret_moved(before, t, after, forward),
        cancelled(before, t, x, xt),
        cancelled(after, t, y, yt),
    ensures
        yt == xt,
        y.cursor == x.cursor,
        y.selection == x.selection,
{
}

/// A plain press and its release with nothing in between is a click: the
/// cursor goes where the press was, and nothing is selected.
pub proof fn law_a_press_and_release_in_place_is_a_click(
    before: EditorPane,
    at: usize,
    r: EditorAction,
    pressed_state: EditorPane,
    after: EditorPane,
)
    requires
        pressed(before, true, None, at, false, false, pressed_state, r),
        released(pressed_state, after),
    ensures
        r == EditorAction::Idle,
        after.cursor == at,
        after.selection is None,
        !after.selecting,
        same_document_state(before, after),
{
}

proof fn lemma_drag_keeps_the_anchor(
    steps: Seq<EditorPane>,
    moves: Seq<bool>,
    offsets: Seq<usize>,
    anchor: usize,
    k: int,
)
    requires
        steps.len() == moves.len() + 1,
        offsets.len() == moves.len(),
        0 <= k < steps.len(),
        steps[0].selection == Some((anchor, steps[0].cursor)),
        steps[0].selecting,
        forall|i: int| 0 <= i < moves.len() ==> #[trigger] dragged(steps[i], moves[i], offsets[i], steps[i + 1]),
    ensures
        steps[k].selection == Some((anchor, steps[k].cursor)),
        steps[k].selecting,
        same_document_state(steps[0], steps[k]),
    decreases k,
{
    if k > 0 {
        let j = k - 1;
        lemma_drag_keeps_the_anchor(steps, moves, offsets, anchor, j);
        assert(dragged(steps[j], moves[j], offsets[j], steps[j + 1]));
        assert(steps[j + 1] == steps[k]);
    }
}

/// A drag selects from where the press was: whatever steps the pointer and
/// the clock take, the anchor stays at the press, and at the release the
/// selection runs from it to the cursor, or is gone when they meet.
pub proof fn law_a_drag_selects_from_the_press(
    before: EditorPane,
    at: usize,
    r: EditorAction,
    steps: Seq<EditorPane>,
    moves: Seq<bool>,
    offsets: Seq<usize>,
    after: EditorPane,
)
    requires
        steps.len() == moves.len() + 1,
        offsets.len() == moves.len(),
        pressed(before, true, None, at, false, false, steps[0], r),
        forall|i: int| 0 <= i < moves.len() ==> #[trigger] dragged(steps[i], moves[i], offsets[i], steps[i + 1]),
        released(steps.last(), after),
    ensures
        after.cursor == steps.last().cursor,
        after.selection == if after.cursor == at {
            None
        } else {
            Some((at, after.cursor))
        },
        !after.selecting,
        same_document_state(before, after),
{
    lemma_drag_keeps_the_anchor(steps, moves, offsets, at, steps.len() - 1);
}

/// `Ctrl+S` asks to save where the pane offers saving, and is a no-op
/// elsewhere: it never touches the text or the pane, marks or not.
pub proof fn law_control_s_saves_only_where_saving_is_offered(
    before: EditorPane,
    bt: Seq<char>,
    after: EditorPane,
    at: Seq<char>,
    r: KeyEffect,
)
    requires
        key_done(before, bt, after, at, "s"@, false, true, r),
    ensures
        r == KeyEffect::Done(
            if before.capabilities.save {
                EditorAction::Save
            } else {
                EditorAction::Idle
            },
        ),
        after == before,
        at == bt,
{
    reveal_strlit("s");
    reveal_strlit("z");
    reveal_strlit("d");
    reveal_strlit("enter");
    reveal_strlit("escape");
    reveal_strlit("backspace");
    reveal_strlit("arrowleft");
    reveal_strlit("arrowright");
    reveal_strlit("arrowup");
    reveal_strlit("arrowdown");
    reveal_strlit("tab");
    let k = "s"@.map_values(|c: char| crate::explorer::ascii_lower(c));
    assert(k =~= "s"@);
    assert(k != "z"@) by {
        assert(k[0] != "z"@[0]);
    }
    assert(k != "d"@) by {
        assert(k[0] != "d"@[0]);
    }
    assert(k.len() != "enter"@.len());
    assert(k.len() != "escape"@.len());
    assert(k.len() != "backspace"@.len());
    assert(k.len() != "arrowleft"@.len());
    assert(k.len() != "arrowright"@.len());
    assert(k.len() != "arrowup"@.len());
    assert(k.len() != "arrowdown"@.len());
    assert(k.len() != "tab"@.len());
}

/// Marks in strictly increasing order.
pub open spec fn ascending(v: Seq<(usize, usize)>) -> bool {
    forall|i: int, j: int| 0 <= i < j < v.len() ==> pair_less(#[trigger] v[i], #[trigger] v[j])
}

proof fn lemma_mark_slot_place(v: Seq<(usize, usize)>, x: (usize, usize), i: int)
    requires
        0 <= i <= v.len(),
    ensures
        i <= mark_slot(v, x, i) <= v.len(),
        forall|j: int| i <= j < mark_slot(v, x, i) ==> pair_less(#[trigger] v[j], x),
        mark_slot(v, x, i) < v.len() ==> !pair_less(v[mark_slot(v, x, i)], x),
    decreases v.len() - i,
{
    if i < v.len() && pair_less(v[i], x) {
        lemma_mark_slot_place(v, x, i + 1);
    }
}

proof fn lemma_sorted_marks_of_ascending(v: Seq<(usize, usize)>)
    requires
        ascending(v),
    ensures
        sorted_marks(v) == v,
    decreases v.len(),
{
    if v.len() > 0 {
        let t = v.drop_last();
        assert(ascending(t));
        lemma_sorted_marks_of_ascending(t);
        lemma_mark_slot_place(t, v.last(), 0);
        if mark_slot(t, v.last(), 0) < t.len() {
            let p = mark_slot(t, v.last(), 0);
            assert(pair_less(v[p], v[v.len() - 1]));
        }
        assert(t.insert(t.len() as int, v.last()) =~= v);
    }
}

/// `Ctrl+D` keeps the marks in order: a mark that is not among marks in
/// increasing order joins them in its place, the others all stay, and the
/// marks are again in increasing order.
pub proof fn law_a_new_mark_keeps_the_marks_in_order(v: Seq<(usize, usize)>, x: (usize, usize))
    requires
        ascending(v),
        !v.contains(x),
    ensures
        ascending(sorted_marks(v.push(x))),
        sorted_marks(v.push(x)).len() == v.len() + 1,
        forall|y: (usize, usize)| #[trigger] sorted_marks(v.push(x)).contains(y) <==> (v.contains(y) || y == x),
{
    lemma_sorted_marks_of_ascending(v);
    assert(v.push(x).drop_last() =~= v);
    lemma_mark_slot_place(v, x, 0);
    let p = mark_slot(v, x, 0);
    let w = v.insert(p, x);
    assert(sorted_marks(v.push(x)) == w);
    if p < v.len() {
        assert(v[p] != x);
        assert(pair_less(x, v[p]));
    }
    assert forall|i: int, j: int| 0 <= i < j < w.len() implies pair_less(#[trigger] w[i], #[trigger] w[j]) by {
        if i < p && j < p {
            assert(w[i] == v[i] && w[j] == v[j]);
        } else if i < p && j == p {
        } else if i < p {
            assert(w[j] == v[j - 1]);
            assert(pair_less(v[i], x));
            if j - 1 > p {
                assert(pair_less(v[p], v[j - 1]));
            }
        } else if i == p {
            assert(w[j] == v[j - 1]);
            if j - 1 > p {
                assert(pair_less(v[p], v[j - 1]));
            }
        } else {
            assert(w[i] == v[i - 1] && w[j] == v[j - 1]);
        }
    }
    assert forall|y: (usize, usize)| #[trigger] w.contains(y) <==> (v.contains(y) || y == x) by {
        if w.contains(y) {
            let i = choose|i: int| 0 <= i < w.len() && w[i] == y;
            if i < p {
                assert(v[i] == y);
            } else if i > p {
                assert(v[i - 1] == y);
            }
        }
        if v.contains(y) {
            let i = choose|i: int| 0 <= i < v.len() && v[i] == y;
            if i < p {
                assert(w[i] == y);
            } else {
                assert(w[i + 1] == y);
            }
        }
        if y == x {
            assert(w[p] == x);
        }
    }
}

/// One edit while marking: typing at the marks, `Backspace` at the marks,
/// or a side arrow.
pub open spec fn marking_step(before: EditorPane, bt: Seq<char>, after: EditorPane, at: Seq<char>) -> bool {
    &&& before.multi is Some
    &&& {
        ||| exists|w: Seq<char>, r: bool| #[trigger] typed_marks(before.multi->0, before, bt, after, at, w, r)
        ||| erased_marks(before, bt, after, at)
        ||| at == bt && caret_moved(before, bt, after, true)
        ||| at == bt && caret_moved(before, bt, after, false)
    }
}

proof fn lemma_marking_step_keeps_the_baseline(before: EditorPane, bt: Seq<char>, after: EditorPane, at: Seq<char>)
    requires
        marking_step(before, bt, after, at),
    ensures
        after.multi matches Some(f) && f.baseline == before.multi->0.baseline,
{
    let m = before.multi->0;
    if exists|w: Seq<char>, r: bool| #[trigger] typed_marks(m, before, bt, after, at, w, r) {
        let (w, r) = choose|w: Seq<char>, r: bool| #[trigger] typed_marks(m, before, bt, after, at, w, r);
        assert(typed_marks(m, before, bt, after, at, w, r));
    }
}

proof fn lemma_marking_keeps_the_baseline(steps: Seq<EditorPane>, texts: Seq<Seq<char>>, m0: MultiEdit, k: int)
    requires
        steps.len() == texts.len(),
        0 <= k < steps.len(),
        steps[0].multi == Some(m0),
        forall|i: int| 0 <= i < steps.len() - 1 ==> #[trigger] marking_step(steps[i], texts[i], steps[i + 1], texts[i + 1]),
    ensures
        steps[k].multi matches Some(f) && f.baseline == m0.baseline,
    decreases k,
{
    if k > 0 {
        let j = k - 1;
        lemma_marking_keeps_the_baseline(steps, texts, m0, j);
        assert(marking_step(steps[j], texts[j], steps[j + 1], texts[j + 1]));
        lemma_marking_step_keeps_the_baseline(steps[j], texts[j], steps[j + 1], texts[j + 1]);
    }
}

/// Escape gives back the text from when the marking began, whatever was
/// typed, erased or moved at the marks since: the text and cursor of that
/// moment (the cursor kept inside that text), with no marks and nothing
/// selected.
pub proof fn law_escape_restores_the_text_from_when_marking_began(
    steps: Seq<EditorPane>,
    texts: Seq<Seq<char>>,
    m0: MultiEdit,
    after: EditorPane,
    at: Seq<char>,
)
    requires
        steps.len() == texts.len(),
        steps.len() > 0,
        steps[0].multi == Some(m0),
        forall|i: int| 0 <= i < steps.len() - 1 ==> #[trigger] marking_step(steps[i], texts[i], steps[i + 1], texts[i + 1]),
        cancelled(steps.last(), texts.last(), after, at),
    ensures
        at == m0.baseline.text@,
        after.cursor == min_nat(m0.baseline.cursor as int, byte_len(m0.baseline.text@) as int),
        after.selection is None,
        after.multi is None,
{
    lemma_marking_keeps_the_baseline(steps, texts, m0, steps.len() - 1);
}

/// Where the drawing library, which counts characters, puts the cursor, the
/// selection and every mark.
#[derive(Debug, PartialEq, Eq)]
pub struct ViewPositions {
    pub cursor: usize,
    pub selection: Option<(usize, usize)>,
    pub marks: Vec<(usize, usize)>,
}

impl EditorPane {
    /// The cursor, the selection (in increasing order, when not empty) and
    /// every marked occurrence, in characters of `text`: the view counts
    /// characters, and without the conversion the cursor would leave its
    /// place at the first accent. Every mark reaches the view, not only the
    /// last.
    pub fn view_positions(&self, text: &str) -> (r: ViewPositions)
        ensures
            r.cursor == chars_upto(text@, self.cursor as int),
            r.selection == match ordered(self.selection) {
                Some((s, e)) => Some((chars_upto(text@, s as int) as usize, chars_upto(text@, e as int) as usize)),
                None => None::<(usize, usize)>,
            },
            r.marks@.len() == match self.multi {
                Some(m) => m.ranges@.len(),
                None => 0,
            },
            self.multi matches Some(m) ==> forall|i: int|
                0 <= i < m.ranges@.len() ==> (#[trigger] r.marks@[i]).0 == chars_upto(text@, m.ranges@[i].0 as int)
                    && r.marks@[i].1 == chars_upto(text@, m.ranges@[i].1 as int),
    {
        let cursor = chars_before(text, self.cursor);
        let selection = match self.selection_pair() {
            Some((s, e)) => Some((chars_before(text, s), chars_before(text, e))),
            None => None,
        };
        let mut marks: Vec<(usize, usize)> = Vec::new();
        match &self.multi {
            Some(m) => {
                let mut i: usize = 0;
                while i < m.ranges.len()
                    invariant
                        0 <= i <= m.ranges@.len(),
                        marks@.len() == i,
                        forall|j: int|
                            0 <= j < i ==> (#[trigger] marks@[j]).0 == chars_upto(text@, m.ranges@[j].0 as int)
                                && marks@[j].1 == chars_upto(text@, m.ranges@[j].1 as int),
                    decreases m.ranges@.len() - i,
                {
                    let (a, b) = m.ranges[i];
                    let x = chars_before(text, a);
                    let y = chars_before(text, b);
                    marks.push((x, y));
                    i = i + 1;
                }
            },
            None => {},
        }
        ViewPositions { cursor, selection, marks }
    }
}

/// The marks of the pane, when it has any, are in strictly increasing order.
pub open spec fn marks_in_order(p: EditorPane) -> bool {
    p.multi matches Some(m) ==> ascending(m.ranges@)
}

proof fn lemma_grown_keeps_the_order(rs: Seq<(usize, usize)>, n: nat, i: int, j: int)
    requires
        ascending(rs),
        0 <= i < j < rs.len(),
    ensures
        grown(rs, n)[i].0 < grown(rs, n)[j].0 || (grown(rs, n)[i].0 == grown(rs, n)[j].0 && grown(rs, n)[i].1
            < grown(rs, n)[j].1),
{
    assert(pair_less(rs[i], rs[j]));
    assert(i * n <= j * n) by (nonlinear_arith)
        requires
            i < j,
    ;
    assert((i + 1) * n <= (j + 1) * n) by (nonlinear_arith)
        requires
            i < j,
    ;
}

/// Typing at the marks keeps them in order: each mark grows by what was
/// written at it and those after it move by what was written before them.
pub proof fn law_typing_keeps_the_marks_in_order(
    m: MultiEdit,
    before: EditorPane,
    bt: Seq<char>,
    after: EditorPane,
    at: Seq<char>,
    w: Seq<char>,
    r: bool,
)
    requires
        before.multi == Some(m),
        marks_in_order(before),
        typed_marks(m, before, bt, after, at, w, r),
    ensures
        marks_in_order(after),
{
    if r {
        let f = after.multi->0;
        let n = byte_len(w);
        assert forall|i: int, j: int| 0 <= i < j < f.ranges@.len() implies pair_less(
            #[trigger] f.ranges@[i],
            #[trigger] f.ranges@[j],
        ) by {
            lemma_grown_keeps_the_order(m.ranges@, n, i, j);
        }
    }
}

/// A side arrow at the marks moves only the editing point: the marks stay
/// as they were, in order.
pub proof fn law_moving_keeps_the_marks_in_order(before: EditorPane, t: Seq<char>, after: EditorPane, forward: bool)
    requires
        marks_in_order(before),
        caret_moved(before, t, after, forward),
    ensures
        marks_in_order(after),
{
}

/// Marks that do not touch: each one ends before the next one starts.
pub open spec fn spaced(rs: Seq<(usize, usize)>) -> bool {
    &&& forall|i: int| 0 <= i < rs.len() ==> (#[trigger] rs[i]).0 <= rs[i].1
    &&& forall|i: int, j: int| 0 <= i < j < rs.len() ==> (#[trigger] rs[i]).1 < (#[trigger] rs[j]).0
}

proof fn lemma_spaced_ascending(rs: Seq<(usize, usize)>)
    requires
        spaced(rs),
    ensures
        ascending(rs),
{
    assert forall|i: int, j: int| 0 <= i < j < rs.len() implies pair_less(#[trigger] rs[i], #[trigger] rs[j]) by {
        assert(rs[i].0 <= rs[i].1);
    }
}

proof fn lemma_erased_rem(t: Seq<char>, rs: Seq<(usize, usize)>, caret: usize, k: int)
    requires
        0 <= k <= rs.len(),
        forall|i: int| 0 <= i < rs.len() ==> (#[trigger] rs[i]).0 <= rs[i].1,
    ensures
        ({
            let (cur, rem, st) = erased_upto(t, rs, caret, k);
            st == 0 ==> rem.len() == rs.len() - k && forall|i: int|
                0 <= i < rem.len() ==> 0 <= #[trigger] rem[i] <= rs[k + i].1 - rs[k + i].0
        }),
    decreases rs.len() - k,
{
    if k < rs.len() {
        lemma_erased_rem(t, rs, caret, k + 1);
        let (cur, rem, st) = erased_upto(t, rs, caret, k + 1);
        if st == 0 {
            let p = point_of(rs[k], caret);
            let m = min_nat(p, byte_len(cur) as int);
            if is_boundary(cur, m) {
                let j = char_index(cur, m);
                assert(0 <= j <= cur.len() && pos(cur, j) == m);
                if j > 0 {
                    lemma_pos_le(cur, j - 1, j);
                }
                let prev: int = if j > 0 {
                    pos(cur, j - 1) as int
                } else {
                    0
                };
                let r: int = if prev >= rs[k].0 {
                    p - prev
                } else {
                    0
                };
                assert(prev <= m);
                assert(0 <= r <= rs[k].1 - rs[k].0);
                if erased_upto(t, rs, caret, k).2 == 0 {
                    let r0 = erased_upto(t, rs, caret, k).1;
                    assert(r0 == seq![r] + rem);
                    assert forall|i: int| 0 <= i < r0.len() implies 0 <= #[trigger] r0[i] <= rs[k + i].1
                        - rs[k + i].0 by {
                        if i > 0 {
                            assert(r0[i] == rem[i - 1]);
                            assert(k + 1 + (i - 1) == k + i);
                        }
                    }
                }
            }
        }
    }
}

proof fn lemma_taken_bounds(rs: Seq<(usize, usize)>, rem: Seq<int>, i: int)
    requires
        spaced(rs),
        rem.len() == rs.len(),
        forall|x: int| 0 <= x < rem.len() ==> 0 <= #[trigger] rem[x] <= rs[x].1 - rs[x].0,
        0 <= i < rs.len(),
    ensures
        0 <= taken_before(rem, i) <= rs[i].0,
        taken_before(rem, i + 1) <= rs[i].1,
    decreases i,
{
    if i > 0 {
        lemma_taken_bounds(rs, rem, i - 1);
        assert(rs[i - 1].1 < rs[i].0);
    }
    assert(taken_before(rem, i + 1) == taken_before(rem, i) + rem[i]);
}

proof fn lemma_taken_between(rs: Seq<(usize, usize)>, rem: Seq<int>, i: int, j: int)
    requires
        spaced(rs),
        rem.len() == rs.len(),
        forall|x: int| 0 <= x < rem.len() ==> 0 <= #[trigger] rem[x] <= rs[x].1 - rs[x].0,
        0 <= i < j < rs.len(),
    ensures
        taken_before(rem, j) - taken_before(rem, i + 1) <= rs[j].0 - rs[i].1 - 1,
    decreases j - i,
{
    if j > i + 1 {
        lemma_taken_between(rs, rem, i, j - 1);
        assert(taken_before(rem, j) == taken_before(rem, j - 1) + rem[j - 1]);
        assert(rs[j - 1].1 < rs[j].0);
    } else {
        assert(rs[i].1 < rs[j].0);
    }
}

/// `Backspace` at marks that do not touch keeps them apart and in order:
/// each mark loses at most what it held, and moves back by what the marks
/// before it lost. (Marks that touch may collapse onto one place: after
/// taking the last character of two adjacent one-character marks, both are
/// empty at the same place.)
pub proof fn law_backspace_keeps_marks_apart_and_in_order(
    m: MultiEdit,
    before: EditorPane,
    bt: Seq<char>,
    after: EditorPane,
    at: Seq<char>,
)
    requires
        before.multi == Some(m),
        spaced(m.ranges@),
        erased_marks(before, bt, after, at),
    ensures
        after.multi matches Some(f) && spaced(f.ranges@) && ascending(f.ranges@),
{
    let rs = m.ranges@;
    let (t, rem, st) = erased_upto(bt, rs, m.caret, 0);
    lemma_erased_rem(bt, rs, m.caret, 0);
    if st == 0 {
        let f = after.multi->0;
        assert forall|x: int| 0 <= x < rem.len() implies 0 <= #[trigger] rem[x] <= rs[x].1 - rs[x].0 by {
            assert(0 + x == x);
        }
        assert forall|i: int| 0 <= i < f.ranges@.len() implies (#[trigger] f.ranges@[i]).0 <= f.ranges@[i].1 by {
            lemma_taken_bounds(rs, rem, i);
            assert(f.ranges@[i].0 == shrunk(rs, rem)[i].0);
        }
        assert forall|i: int, j: int| 0 <= i < j < f.ranges@.len() implies (#[trigger] f.ranges@[i]).1
            < (#[trigger] f.ranges@[j]).0 by {
            lemma_taken_bounds(rs, rem, i);
            lemma_taken_bounds(rs, rem, j);
            lemma_taken_between(rs, rem, i, j);
            assert(taken_before(rem, i + 1) == taken_before(rem, i) + rem[i]);
            assert(f.ranges@[i].1 == shrunk(rs, rem)[i].1);
            assert(f.ranges@[j].0 == shrunk(rs, rem)[j].0);
        }
    }
    lemma_spaced_ascending(after.multi->0.ranges@);
}

/// Typing at marks that do not touch keeps them apart: what is written at
/// a mark lies inside it, before the next one.
pub proof fn law_typing_keeps_marks_apart(
    m: MultiEdit,
    before: EditorPane,
    bt: Seq<char>,
    after: EditorPane,
    at: Seq<char>,
    w: Seq<char>,
    r: bool,
)
    requires
        before.multi == Some(m),
        spaced(m.ranges@),
        typed_marks(m, before, bt, after, at, w, r),
    ensures
        after.multi matches Some(f) && spaced(f.ranges@) && ascending(f.ranges@),
{
    if r {
        let f = after.multi->0;
        let n = byte_len(w);
        let rs = m.ranges@;
        assert forall|i: int, j: int| 0 <= i < j < f.ranges@.len() implies (#[trigger] f.ranges@[i]).1
            < (#[trigger] f.ranges@[j]).0 by {
            assert(rs[i].1 < rs[j].0);
            assert((i + 1) * n <= j * n) by (nonlinear_arith)
                requires
                    i < j,
            ;
        }
        assert forall|i: int| 0 <= i < f.ranges@.len() implies (#[trigger] f.ranges@[i]).0 <= f.ranges@[i].1 by {
            assert(rs[i].0 <= rs[i].1);
            assert(i * n <= (i + 1) * n) by (nonlinear_arith);
        }
    }
    lemma_spaced_ascending(after.multi->0.ranges@);
}

/// `Enter` with no marks asks for the indentation of the line where the
/// selection starts (the smaller of its two ends), so the new line keeps the
/// indentation of the first selected line; with nothing selected, of the
/// cursor's line. Nothing changes before the answer.
pub proof fn law_enter_asks_for_the_indentation_where_the_selection_starts(
    before: EditorPane,
    bt: Seq<char>,
    after: EditorPane,
    at: Seq<char>,
    key: Seq<char>,
    r: KeyEffect,
)
    requires
        crate::explorer::eq_ascii_case(key, "enter"@),
        before.multi is None,
        key_done(before, bt, after, at, key, false, false, r),
    ensures
        r == KeyEffect::NeedsIndentation(
            match before.selection {
                Some((a, f)) => if a < f {
                    a
                } else if f < a {
                    f
                } else {
                    before.cursor
                },
                None => before.cursor,
            },
        ),
        after == before,
        at == bt,
{
    reveal_strlit("enter");
    reveal_strlit("backspace");
    let e = "enter"@;
    assert forall|i: int| 0 <= i < e.len() implies crate::explorer::ascii_lower(#[trigger] e[i]) == e[i] by {}
    crate::keys::lemma_same_case_match(key, e);
    let k = key.map_values(|c: char| crate::explorer::ascii_lower(c));
    assert(k =~= crate::explorer::lower_text(key));
    assert(k == e);
    assert(k.len() != "backspace"@.len());
}

} // verus!
