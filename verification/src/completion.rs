//! The completion list of the editor: which item is highlighted, what the
//! keys do while it shows, and what accepting writes.
//!
//! The name being written (the identifier before the cursor) is measured by
//! the editor's library; what it measured is handed in.
use vstd::prelude::*;
use crate::buffer::{after_replace, replace, replaceable};
use crate::editor::EditorPane;
use crate::explorer::{lower_text, to_ascii_lowercase};
use crate::fmt::{push_str, str_eq, string_of};
use crate::text::{byte_len, text_byte_len};

verus! {

/// How many letters of a name open the list by themselves: one would open
/// it with the whole alphabet inside; two is a name beginning.
pub const LETRAS_QUE_ABREM: usize = 2;

/// An item the language offers.
#[derive(Debug)]
pub struct CompletionItem {
    pub label: String,
}

/// What a key did to the open list.
#[derive(Clone, Copy, Debug, Eq, PartialEq, Structural)]
pub enum CompletionKey {
    /// The list is closed, or the key is not for it.
    Ignored,
    /// The highlight moved.
    Moved,
    /// `Enter` or `Tab`: the highlighted item is to be accepted.
    Accept,
    /// `Escape` closed the list.
    Closed,
}

/// The list, the highlighted item, and the item accepted since it was last
/// asked for.
#[derive(Debug)]
pub struct CompletionList {
    pub items: Vec<CompletionItem>,
    pub selected: usize,
    pub accepted: Option<String>,
}

impl CompletionList {
    /// Nothing shows, and the highlight is on a row of the list when it does.
    pub open spec fn wf(&self) -> bool {
        if self.items@.len() == 0 {
            self.selected == 0
        } else {
            self.selected < self.items@.len()
        }
    }

    pub fn new() -> (r: Self)
        ensures
            r.wf(),
            r.items@.len() == 0,
            r.accepted is None,
    {
        CompletionList { items: Vec::new(), selected: 0, accepted: None }
    }

    /// New items; the first is highlighted.
    pub fn set_completions(&mut self, items: Vec<CompletionItem>)
        ensures
            final(self).wf(),
            final(self).items == items,
            final(self).selected == 0,
            final(self).accepted == old(self).accepted,
    {
        self.items = items;
        self.selected = 0;
    }

    /// Whether the list shows.
    pub fn completion_open(&self) -> (r: bool)
        ensures
            r == (self.items@.len() > 0),
    {
        self.items.len() > 0
    }

    pub fn clear_completions(&mut self)
        ensures
            final(self).wf(),
            final(self).items@.len() == 0,
            final(self).accepted == old(self).accepted,
    {
        self.items = Vec::new();
        self.selected = 0;
    }

    /// What text just typed does to the open list: a name going on keeps it
    /// and asks for it again, filtered by the longer name (the answer); any
    /// other character ends the name and the list goes. A closed list stays
    /// closed: opening belongs to the language's trigger or `Ctrl+Space`.
    /// `typed_is_name` says whether every character typed belongs to a name.
    pub fn completion_follow_up(&mut self, typed: &str, typed_is_name: bool) -> (r: bool)
        requires
            old(self).wf(),
        ensures
            final(self).wf(),
            final(self).accepted == old(self).accepted,
            r == (old(self).items@.len() > 0 && typed@.len() > 0 && typed_is_name),
            r ==> final(self).items == old(self).items && final(self).selected == old(self).selected,
            !r && old(self).items@.len() > 0 ==> final(self).items@.len() == 0,
            old(self).items@.len() == 0 ==> final(self).items@.len() == 0,
    {
        if !self.completion_open() {
            return false;
        }
        if !typed.is_empty() && typed_is_name {
            return true;
        }
        self.clear_completions();
        false
    }

    /// A key while the list shows: the arrows move the highlight (never out
    /// of the list), `Enter` and `Tab` accept, `Escape` closes; keys are
    /// compared without regard to ASCII case.
    pub fn completion_key(&mut self, key: &str) -> (r: CompletionKey)
        requires
            old(self).wf(),
        ensures
            final(self).wf(),
            final(self).accepted == old(self).accepted,
            ({
                let k = lower_text(key@);
                let n = old(self).items@.len();
                if n == 0 {
                    r == CompletionKey::Ignored && final(self).items == old(self).items
                } else if k == "arrowdown"@ {
                    &&& r == CompletionKey::Moved
                    &&& final(self).items == old(self).items
                    &&& final(self).selected == if old(self).selected + 1 < n {
                        old(self).selected + 1
                    } else {
                        n - 1
                    }
                } else if k == "arrowup"@ {
                    &&& r == CompletionKey::Moved
                    &&& final(self).items == old(self).items
                    &&& final(self).selected == if old(self).selected > 0 {
                        old(self).selected - 1
                    } else {
                        0
                    }
                } else if k == "enter"@ || k == "tab"@ {
                    r == CompletionKey::Accept && final(self).items == old(self).items && final(self).selected
                        == old(self).selected
                } else if k == "escape"@ {
                    r == CompletionKey::Closed && final(self).items@.len() == 0
                } else {
                    r == CompletionKey::Ignored && final(self).items == old(self).items && final(self).selected
                        == old(self).selected
                }
            }),
    {
        if self.items.len() == 0 {
            return CompletionKey::Ignored;
        }
        let k = to_ascii_lowercase(key);
        let k = k.as_str();
        proof {
            reveal_strlit("arrowdown");
            reveal_strlit("arrowup");
            reveal_strlit("enter");
            reveal_strlit("tab");
            reveal_strlit("escape");
        }
        if str_eq(k, "arrowdown") {
            self.selected = if self.selected + 1 < self.items.len() {
                self.selected + 1
            } else {
                self.items.len() - 1
            };
            return CompletionKey::Moved;
        }
        if str_eq(k, "arrowup") {
            self.selected = if self.selected > 0 {
                self.selected - 1
            } else {
                0
            };
            return CompletionKey::Moved;
        }
        if str_eq(k, "enter") || str_eq(k, "tab") {
            return CompletionKey::Accept;
        }
        if str_eq(k, "escape") {
            self.clear_completions();
            return CompletionKey::Closed;
        }
        CompletionKey::Ignored
    }

    /// Accepts the highlighted item: the name being written (its last
    /// `prefix_len` bytes before the cursor) is replaced by the item, the
    /// cursor goes after it, and the item is kept for whoever asks what was
    /// accepted. The list closes either way. The answer is the status
    /// message, when something was written.
    pub fn accept_completion(&mut self, pane: &mut EditorPane, buffer: &mut String, prefix_len: usize) -> (r:
        Option<String>)
        requires
            old(self).wf(),
        ensures
            final(self).wf(),
            final(self).items@.len() == 0,
            ({
                let n = old(self).items@.len();
                let cursor: int = if old(pane).cursor <= byte_len(old(buffer)@) {
                    old(pane).cursor as int
                } else {
                    byte_len(old(buffer)@) as int
                };
                let start: int = if cursor >= prefix_len {
                    cursor - prefix_len
                } else {
                    0
                };
                if n > 0 && replaceable(old(buffer)@, start, cursor) {
                    let label = old(self).items@[old(self).selected as int].label@;
                    &&& final(buffer)@ == after_replace(old(buffer)@, start, cursor, label)
                    &&& final(pane).cursor == start + byte_len(label)
                    &&& final(pane).selection is None
                    &&& final(self).accepted matches Some(a) && a@ == label
                    &&& r matches Some(m) && m@ == "Completed "@ + label
                } else {
                    &&& *final(buffer) == *old(buffer)
                    &&& *final(pane) == *old(pane)
                    &&& final(self).accepted == old(self).accepted
                    &&& r is None
                }
            }),
    {
        if self.items.len() == 0 {
            return None;
        }
        let label = string_of(self.items[self.selected].label.as_str());
        let len = text_byte_len(buffer.as_str());
        let cursor = if pane.cursor() <= len {
            pane.cursor()
        } else {
            len
        };
        let start = if cursor >= prefix_len {
            cursor - prefix_len
        } else {
            0
        };
        let mut r = None;
        let ghost before = buffer@;
        if replace(buffer, start, cursor, label.as_str()) {
            let n = text_byte_len(label.as_str());
            let new_len = text_byte_len(buffer.as_str());
            proof {
                crate::buffer::lemma_after_replace(before, start as int, cursor as int, label@);
            }
            pane.set_cursor(start + n);
            let mut m = string_of("Completed ");
            push_str(&mut m, label.as_str());
            r = Some(m);
            self.accepted = Some(label);
        }
        self.clear_completions();
        r
    }

    /// The item accepted since the last time this was asked, taken out: the
    /// question that follows it (what else the file needs) makes sense once.
    pub fn completacao_aceita(&mut self) -> (r: Option<String>)
        ensures
            r == old(self).accepted,
            final(self).accepted is None,
            final(self).items == old(self).items,
            final(self).selected == old(self).selected,
    {
        self.accepted.take()
    }
}

/// Whether the name being written has just reached the length that opens
/// the list by itself: once, when it gets there, and not at every key, or
/// `Escape` would stop working.
pub fn completion_opens_now(prefix_chars: usize) -> (r: bool)
    ensures
        r == (prefix_chars == LETRAS_QUE_ABREM),
{
    prefix_chars == LETRAS_QUE_ABREM
}

} // verus!
