//! What the pane's drawing needs redone at each frame: the view is rebuilt
//! only when the document or its revision changed, the highlighting only
//! when a new version arrived, and the view follows the cursor only when the
//! cursor moved.
use vstd::prelude::*;

verus! {

/// What happens to the highlighting of the view.
#[derive(Clone, Copy, Debug, Eq, PartialEq, Structural)]
pub enum SyntaxStep {
    /// A new version arrived: the view takes it.
    Take,
    /// The highlighting went away: the view drops what it had.
    Clear,
    /// Nothing changed.
    Keep,
}

/// The work of one frame.
#[derive(Clone, Copy, Debug, Eq, PartialEq, Structural)]
pub struct SyncPlan {
    /// The view is built again from the text.
    pub rebuild: bool,
    pub syntax: SyntaxStep,
    /// A line that was asked to be shown.
    pub reveal_line: Option<usize>,
    /// The view scrolls to show the cursor's column.
    pub reveal_cursor: bool,
}

/// What the drawn view was built from, and what it was last told.
#[derive(Clone, Copy, Debug)]
pub struct ViewSync {
    /// The document and revision of the text the view holds.
    pub view: Option<(u64, u64)>,
    /// The document and version of the highlighting the view holds.
    pub syntax_key: Option<(u64, u64)>,
    /// The cursor the view last followed.
    pub revealed_cursor: Option<usize>,
    /// A line to show at the next frame.
    pub pending_reveal: Option<usize>,
}

/// The document the view speaks of: none counts as the first.
pub open spec fn origin(source: Option<u64>) -> u64 {
    match source {
        Some(s) => s,
        None => 0,
    }
}

impl ViewSync {
    /// Nothing drawn yet.
    pub fn new() -> (r: Self)
        ensures
            r.view is None,
            r.syntax_key is None,
            r.revealed_cursor is None,
            r.pending_reveal is None,
    {
        ViewSync { view: None, syntax_key: None, revealed_cursor: None, pending_reveal: None }
    }

    /// Asks the next frame to show `line`.
    pub fn reveal_line(&mut self, line: usize)
        ensures
            final(self).pending_reveal == Some(line),
            final(self).view == old(self).view,
            final(self).syntax_key == old(self).syntax_key,
            final(self).revealed_cursor == old(self).revealed_cursor,
    {
        self.pending_reveal = Some(line);
    }

    /// Another document: the view and its highlighting speak of the old one.
    pub fn forget_view(&mut self)
        ensures
            final(self).view is None,
            final(self).syntax_key is None,
            final(self).revealed_cursor == old(self).revealed_cursor,
            final(self).pending_reveal == old(self).pending_reveal,
    {
        self.view = None;
        self.syntax_key = None;
    }

    /// One frame for the document `source` at `revision`, with the
    /// highlighting of version `syntax` (if any) and the cursor at `cursor`.
    /// Rebuilding throws away the highlighting the old view had. A line
    /// asked for is shown once.
    pub fn sync(&mut self, source: Option<u64>, revision: u64, syntax: Option<u64>, cursor: usize) -> (r: SyncPlan)
        ensures
            synced(*old(self), source, revision, syntax, cursor, *final(self), r),
    {
        let o = match source {
            Some(s) => s,
            None => 0,
        };
        let stale = match self.view {
            Some((fonte, seen)) => !(fonte == o && seen == revision),
            None => true,
        };
        if stale {
            self.view = Some((o, revision));
            self.syntax_key = None;
        }
        let reveal_cursor = match self.revealed_cursor {
            Some(c) => c != cursor,
            None => true,
        };
        self.revealed_cursor = Some(cursor);
        let reveal_line = self.pending_reveal;
        self.pending_reveal = None;
        let step = match syntax {
            Some(v) => {
                let same = match self.syntax_key {
                    Some((a, b)) => a == o && b == v,
                    None => false,
                };
                if same {
                    SyntaxStep::Keep
                } else {
                    self.syntax_key = Some((o, v));
                    SyntaxStep::Take
                }
            },
            None => {
                if self.syntax_key.is_some() {
                    self.syntax_key = None;
                    SyntaxStep::Clear
                } else {
                    SyntaxStep::Keep
                }
            },
        };
        SyncPlan { rebuild: stale, syntax: step, reveal_line, reveal_cursor }
    }
}

/// Drawing again without a change is no work: right after a frame, the same
/// document, revision, highlighting and cursor rebuild nothing, set no
/// highlighting, and do not move the view.
pub proof fn law_a_second_frame_redoes_nothing(
    a: ViewSync,
    b: ViewSync,
    c: ViewSync,
    source: Option<u64>,
    revision: u64,
    syntax: Option<u64>,
    cursor: usize,
    first: SyncPlan,
    second: SyncPlan,
)
    requires
        synced(a, source, revision, syntax, cursor, b, first),
        synced(b, source, revision, syntax, cursor, c, second),
    ensures
        !second.rebuild,
        second.syntax == SyntaxStep::Keep,
        !second.reveal_cursor,
        second.reveal_line is None,
        c == b,
{
}

/// The frame as `sync` does it.
pub open spec fn synced(
    before: ViewSync,
    source: Option<u64>,
    revision: u64,
    syntax: Option<u64>,
    cursor: usize,
    after: ViewSync,
    r: SyncPlan,
) -> bool {
    let o = origin(source);
    let stale = before.view != Some((o, revision));
    let key = if stale {
        None
    } else {
        before.syntax_key
    };
    &&& r.rebuild == stale
    &&& after.view == Some((o, revision))
    &&& r.reveal_cursor == (before.revealed_cursor != Some(cursor))
    &&& after.revealed_cursor == Some(cursor)
    &&& r.reveal_line == before.pending_reveal
    &&& after.pending_reveal is None
    &&& match syntax {
        Some(v) => if key != Some((o, v)) {
            r.syntax == SyntaxStep::Take && after.syntax_key == Some((o, v))
        } else {
            r.syntax == SyntaxStep::Keep && after.syntax_key == key
        },
        None => if key is Some {
            r.syntax == SyntaxStep::Clear && after.syntax_key is None
        } else {
            r.syntax == SyntaxStep::Keep && after.syntax_key is None
        },
    }
}

} // verus!
