//! Debugging state shown by the interface, and the breakpoints per file.
use vstd::prelude::*;
use crate::fmt::{decimal, push_decimal, push_str, str_eq, string_of};
use crate::text::{byte_len, count_char, is_boundary, line_column, min_nat, pos};

verus! {

/// A stack frame: its name, and the file and line it stands at, if known.
#[derive(Clone, Debug, Default, Eq, PartialEq)]
pub struct DebugFrameView {
    pub name: String,
    pub location: Option<(String, u32)>,
}

/// A variable of the selected frame.
#[derive(Clone, Debug, Default, Eq, PartialEq)]
pub struct DebugVariableView {
    pub name: String,
    pub value: String,
    pub type_label: Option<String>,
    pub expandable: bool,
}

/// What the debugger reported last.
#[derive(Clone, Debug, Default, Eq, PartialEq)]
pub struct DebugView {
    pub attached: bool,
    pub status: String,
    pub stopped_at: Option<(String, u32)>,
    pub frames: Vec<DebugFrameView>,
    pub selected_frame: usize,
    pub variables: Vec<DebugVariableView>,
}

impl DebugView {
    /// Whether the target is stopped somewhere.
    pub fn is_stopped(&self) -> (r: bool)
        ensures
            r == self.stopped_at is Some,
    {
        self.stopped_at.is_some()
    }
}

/// Strictly increasing: a set of lines kept in order.
pub open spec fn sorted_strict(s: Seq<u32>) -> bool {
    forall|i: int, j: int| 0 <= i < j < s.len() ==> s[i] < s[j]
}

proof fn lemma_take_contains(s: Seq<u32>, i: int)
    requires
        0 <= i < s.len(),
    ensures
        forall|v: u32| #[trigger]
            s.take(i + 1).contains(v) == (s.take(i).contains(v) || v == s[i]),
{
    assert forall|v: u32| #[trigger] s.take(i + 1).contains(v) == (s.take(i).contains(v) || v == s[i]) by {
        let t0 = s.take(i);
        let t1 = s.take(i + 1);
        if v == s[i] {
            assert(t1[i] == v);
        }
        if t0.contains(v) {
            let k = choose|k: int| 0 <= k < t0.len() && t0[k] == v;
            assert(t1[k] == v);
        }
        if t1.contains(v) {
            let k = choose|k: int| 0 <= k < t1.len() && t1[k] == v;
            if k < i {
                assert(t0[k] == v);
            }
        }
    }
}

/// `lines` with `line` added when it was absent and removed when present.
fn toggle_line(lines: &Vec<u32>, line: u32) -> (r: Vec<u32>)
    requires
        sorted_strict(lines@),
    ensures
        sorted_strict(r@),
        forall|v: u32| r@.contains(v) == (lines@.contains(v) != (v == line)),
        r@.len() == if lines@.contains(line) {
            lines@.len() - 1
        } else {
            lines@.len() + 1int
        },
{
    let mut out: Vec<u32> = Vec::new();
    let mut placed = false;
    let mut present = false;
    let mut i: usize = 0;
    while i < lines.len()
        invariant
            sorted_strict(lines@),
            0 <= i <= lines.len(),
            sorted_strict(out@),
            i < lines.len() ==> forall|k: int| 0 <= k < out@.len() ==> out@[k] < lines@[i as int],
            !placed ==> out@ == lines@.take(i as int) && forall|k: int|
                0 <= k < out@.len() ==> out@[k] < line,
            !placed ==> !present,
            placed ==> forall|v: u32|
                out@.contains(v) == (lines@.take(i as int).contains(v) != (v == line)),
            placed ==> (present == lines@.take(i as int).contains(line)),
            placed && i < lines.len() ==> line < lines@[i as int],
            out@.len() == if !placed {
                i as int
            } else if present {
                i - 1
            } else {
                i + 1
            },
        decreases lines.len() - i,
    {
        let x = lines[i];
        proof {
            assert(lines@.take(i + 1) =~= lines@.take(i as int).push(x));
            lemma_take_contains(lines@, i as int);
            if !placed {
                assert forall|v: u32| lines@.take(i as int).contains(v) implies v < line by {
                    let k = choose|k: int| 0 <= k < i && lines@.take(i as int)[k] == v;
                    assert(out@[k] == v);
                }
            }
        }
        if !placed && x >= line {
            placed = true;
            if x == line {
                present = true;
                proof {
                    assert(!lines@.take(i as int).contains(line)) by {
                        if lines@.take(i as int).contains(line) {
                            let k = choose|k: int| 0 <= k < i && lines@.take(i as int)[k] == line;
                            assert(out@[k] == line);
                        }
                    }
                    assert forall|v: u32| out@.contains(v) == (lines@.take(i + 1).contains(v) != (
                    v == line)) by {
                        if out@.contains(v) {
                            let k = choose|k: int| 0 <= k < out@.len() && out@[k] == v;
                            assert(lines@.take(i as int)[k] == v);
                        }
                        if lines@.take(i as int).contains(v) {
                            let k = choose|k: int| 0 <= k < i && lines@.take(i as int)[k] == v;
                            assert(out@[k] == v);
                        }
                    }
                    if i + 1 < lines.len() {
                        assert(lines@[i as int] < lines@[i + 1]);
                    }
                }
                i = i + 1;
                continue ;
            }
            let ghost before = out@;
            out.push(line);
            proof {
                assert forall|v: u32| out@.contains(v) == (lines@.take(i as int).contains(v) != (v
                    == line)) by {
                    if out@.contains(v) {
                        let k = choose|k: int| 0 <= k < out@.len() && out@[k] == v;
                        if k < before.len() {
                            assert(lines@.take(i as int)[k] == v);
                        }
                    }
                    if lines@.take(i as int).contains(v) {
                        let k = choose|k: int| 0 <= k < i && lines@.take(i as int)[k] == v;
                        assert(out@[k] == v);
                    }
                    if v == line {
                        assert(out@[before.len() as int] == line);
                    }
                }
                assert(!lines@.take(i as int).contains(line)) by {
                    if lines@.take(i as int).contains(line) {
                        let k = choose|k: int| 0 <= k < i && lines@.take(i as int)[k] == line;
                        assert(before[k] == line);
                    }
                }
            }
        }
        let ghost before = out@;
        out.push(x);
        proof {
            if i + 1 < lines.len() {
                assert(lines@[i as int] < lines@[i + 1]);
            }
            assert forall|v: u32| out@.contains(v) == (before.contains(v) || v == x) by {
                if out@.contains(v) {
                    let k = choose|k: int| 0 <= k < out@.len() && out@[k] == v;
                    if k < before.len() {
                        assert(before[k] == v);
                    }
                }
                if before.contains(v) {
                    let k = choose|k: int| 0 <= k < before.len() && before[k] == v;
                    assert(out@[k] == v);
                }
                if v == x {
                    assert(out@[before.len() as int] == x);
                }
            }
            if !placed {
                assert(out@ =~= lines@.take(i + 1));
            } else {
                assert(x != line);
                let t1 = lines@.take(i + 1);
                lemma_take_contains(lines@, i as int);
                assert forall|v: u32| out@.contains(v) == (t1.contains(v) != (v == line)) by {
                    assert(t1.contains(v) == (lines@.take(i as int).contains(v) || v == x));
                    assert(before.contains(v) == (lines@.take(i as int).contains(v) != (v == line)));
                    assert(out@.contains(v) == (before.contains(v) || v == x));
                }
            }
        }
        i = i + 1;
    }
    proof {
        assert(lines@.take(lines.len() as int) =~= lines@);
    }
    if !placed {
        let ghost before = out@;
        out.push(line);
        proof {
            assert forall|v: u32| out@.contains(v) == (lines@.contains(v) != (v == line)) by {
                if out@.contains(v) {
                    let k = choose|k: int| 0 <= k < out@.len() && out@[k] == v;
                    if k < before.len() {
                        assert(lines@[k] == v);
                    }
                }
                if lines@.contains(v) {
                    let k = choose|k: int| 0 <= k < lines@.len() && lines@[k] == v;
                    assert(out@[k] == v);
                }
                if v == line {
                    assert(out@[before.len() as int] == line);
                }
            }
        }
    }
    out
}

/// `after` is `before` with `line` of `path` toggled: added when absent,
/// removed when present, every other file as it was.
pub open spec fn toggled(before: LineTable, after: LineTable, path: Seq<char>, line: u32) -> bool {
    &&& forall|p: Seq<char>| p != path ==> after.lines(p) == before.lines(p)
    &&& after.lines(path) == if before.lines(path).contains(line) {
        before.lines(path).remove(line)
    } else {
        before.lines(path).insert(line)
    }
    &&& after.total() == if before.lines(path).contains(line) {
        before.total() - 1
    } else {
        before.total() + 1int
    }
}

/// Toggling the same line twice gives back the lines as they were, in every
/// file, and the same count.
pub proof fn law_toggling_twice_changes_nothing(
    a: LineTable,
    b: LineTable,
    c: LineTable,
    path: Seq<char>,
    line: u32,
)
    requires
        toggled(a, b, path, line),
        toggled(b, c, path, line),
    ensures
        forall|p: Seq<char>| c.lines(p) == a.lines(p),
        c.total() == a.total(),
{
    if a.lines(path).contains(line) {
        assert(a.lines(path).remove(line).insert(line) =~= a.lines(path));
    } else {
        assert(a.lines(path).insert(line).remove(line) =~= a.lines(path));
    }
}

/// Lines of one file, each once, in increasing order; a file without lines
/// has no entry.
pub struct LineTable {
    entries: Vec<(String, Vec<u32>)>,
}

/// The lines of a path in a list of entries; none when the path has no entry.
pub open spec fn entry_lines(entries: Seq<(String, Vec<u32>)>, p: Seq<char>) -> Set<u32> {
    Set::new(
        |v: u32|
            exists|i: int| 0 <= i < entries.len() && entries[i].0@ == p && entries[i].1@.contains(v),
    )
}

/// The number of lines of all entries together.
pub open spec fn entry_total(entries: Seq<(String, Vec<u32>)>) -> nat
    decreases entries.len(),
{
    if entries.len() == 0 {
        0
    } else {
        entry_total(entries.drop_last()) + entries.last().1@.len()
    }
}

proof fn lemma_total_update(entries: Seq<(String, Vec<u32>)>, i: int, e: (String, Vec<u32>))
    requires
        0 <= i < entries.len(),
    ensures
        entry_total(entries.update(i, e)) == entry_total(entries) - entries[i].1@.len()
            + e.1@.len(),
    decreases entries.len(),
{
    if i < entries.len() - 1 {
        lemma_total_update(entries.drop_last(), i, e);
        assert(entries.update(i, e).drop_last() =~= entries.drop_last().update(i, e));
    } else {
        assert(entries.update(i, e).drop_last() =~= entries.drop_last());
    }
}

proof fn lemma_total_remove(entries: Seq<(String, Vec<u32>)>, i: int)
    requires
        0 <= i < entries.len(),
    ensures
        entry_total(entries.remove(i)) == entry_total(entries) - entries[i].1@.len(),
    decreases entries.len(),
{
    if i < entries.len() - 1 {
        lemma_total_remove(entries.drop_last(), i);
        assert(entries.remove(i).drop_last() =~= entries.drop_last().remove(i));
    } else {
        assert(entries.remove(i) =~= entries.drop_last());
    }
}

impl LineTable {
    #[verifier::type_invariant]
    closed spec fn wf(&self) -> bool {
        &&& forall|i: int, j: int|
            0 <= i < j < self.entries@.len() ==> self.entries@[i].0@ != self.entries@[j].0@
        &&& forall|i: int|
            0 <= i < self.entries@.len() ==> sorted_strict(#[trigger] self.entries@[i].1@)
                && self.entries@[i].1@.len() > 0
    }

    /// The lines recorded for `p`.
    pub closed spec fn lines(&self, p: Seq<char>) -> Set<u32> {
        entry_lines(self.entries@, p)
    }

    /// How many lines are recorded, over all files.
    pub closed spec fn total(&self) -> nat {
        entry_total(self.entries@)
    }

    pub fn new() -> (t: Self)
        ensures
            forall|p: Seq<char>| t.lines(p) == Set::<u32>::empty(),
            t.total() == 0,
    {
        let t = LineTable { entries: Vec::new() };
        proof {
            assert forall|p: Seq<char>| t.lines(p) == Set::<u32>::empty() by {
                assert(t.lines(p) =~= Set::<u32>::empty());
            }
        }
        t
    }

    /// Index of the entry of `path`, if it has one.
    fn find(&self, path: &str) -> (r: Option<usize>)
        ensures
            r matches Some(i) ==> i < self.entries@.len() && self.entries@[i as int].0@ == path@,
            r is None ==> forall|i: int|
                0 <= i < self.entries@.len() ==> self.entries@[i].0@ != path@,
    {
        let mut i: usize = 0;
        while i < self.entries.len()
            invariant
                0 <= i <= self.entries@.len(),
                forall|k: int| 0 <= k < i ==> self.entries@[k].0@ != path@,
            decreases self.entries@.len() - i,
        {
            if str_eq(self.entries[i].0.as_str(), path) {
                return Some(i);
            }
            i = i + 1;
        }
        None
    }

    proof fn lemma_lines_at(&self, i: int)
        requires
            self.wf(),
            0 <= i < self.entries@.len(),
        ensures
            forall|v: u32|
                self.lines(self.entries@[i].0@).contains(v) == self.entries@[i].1@.contains(v),
    {
        assert forall|v: u32|
            self.lines(self.entries@[i].0@).contains(v) implies self.entries@[i].1@.contains(v) by {
            let j = choose|j: int|
                0 <= j < self.entries@.len() && self.entries@[j].0@ == self.entries@[i].0@
                    && self.entries@[j].1@.contains(v);
            if j != i {
                if i < j {
                    assert(self.entries@[i].0@ != self.entries@[j].0@);
                } else {
                    assert(self.entries@[j].0@ != self.entries@[i].0@);
                }
            }
        }
    }

    /// The length of the entry of `p`, or zero without one.
    pub closed spec fn len_of(&self, p: Seq<char>) -> nat {
        if exists|i: int| 0 <= i < self.entries@.len() && self.entries@[i].0@ == p {
            self.entries@[choose|i: int|
                0 <= i < self.entries@.len() && self.entries@[i].0@ == p].1@.len()
        } else {
            0
        }
    }

    proof fn lemma_absent(&self, p: Seq<char>)
        requires
            forall|i: int| 0 <= i < self.entries@.len() ==> self.entries@[i].0@ != p,
        ensures
            self.lines(p) == Set::<u32>::empty(),
            self.len_of(p) == 0,
    {
        assert(self.lines(p) =~= Set::<u32>::empty());
    }

    proof fn lemma_present(&self, i: int)
        requires
            self.wf(),
            0 <= i < self.entries@.len(),
        ensures
            forall|v: u32|
                self.lines(self.entries@[i].0@).contains(v) == self.entries@[i].1@.contains(v),
            self.len_of(self.entries@[i].0@) == self.entries@[i].1@.len(),
    {
        self.lemma_lines_at(i);
        let p = self.entries@[i].0@;
        let j = choose|j: int| 0 <= j < self.entries@.len() && self.entries@[j].0@ == p;
        if j != i {
            if i < j {
                assert(self.entries@[i].0@ != self.entries@[j].0@);
            } else {
                assert(self.entries@[j].0@ != self.entries@[i].0@);
            }
        }
    }

    /// Makes `new_lines` the lines of `path`, removing its entry when empty.
    fn set_entry(&mut self, path: &str, new_lines: Vec<u32>)
        requires
            sorted_strict(new_lines@),
        ensures
            forall|p: Seq<char>| p != path@ ==> final(self).lines(p) == old(self).lines(p),
            forall|v: u32| final(self).lines(path@).contains(v) == new_lines@.contains(v),
            final(self).total() == old(self).total() - old(self).len_of(path@) + new_lines@.len(),
    {
        proof {
            use_type_invariant(&*self);
        }
        let ghost old_entries = self.entries@;
        let found = self.find(path);
        proof {
            match found {
                Some(i) => self.lemma_present(i as int),
                None => self.lemma_absent(path@),
            }
        }
        let mut entries: Vec<(String, Vec<u32>)> = Vec::new();
        std::mem::swap(&mut entries, &mut self.entries);
        let updated = new_lines;
        match found {
            Some(i) => {
                let name = entries[i].0.clone();
                if updated.len() == 0 {
                    entries.remove(i);
                    proof {
                        lemma_total_remove(old_entries, i as int);
                        assert forall|p: Seq<char>| #![auto]
                            entry_lines(entries@, p) == if p == path@ {
                                Set::<u32>::empty()
                            } else {
                                entry_lines(old_entries, p)
                            } by {
                            let target = if p == path@ {
                                Set::<u32>::empty()
                            } else {
                                entry_lines(old_entries, p)
                            };
                            assert forall|v: u32| #![auto]
                                entry_lines(entries@, p).contains(v) == target.contains(v) by {
                                if entry_lines(entries@, p).contains(v) {
                                    let j = choose|j: int|
                                        0 <= j < entries@.len() && entries@[j].0@ == p
                                            && entries@[j].1@.contains(v);
                                    let jj = if j < i {
                                        j
                                    } else {
                                        j + 1
                                    };
                                    assert(old_entries[jj] == entries@[j]);
                                    if jj < i {
                                        assert(old_entries[jj].0@ != old_entries[i as int].0@);
                                    } else {
                                        assert(old_entries[i as int].0@ != old_entries[jj].0@);
                                    }
                                }
                                if entry_lines(old_entries, p).contains(v) && p != path@ {
                                    let j = choose|j: int|
                                        0 <= j < old_entries.len() && old_entries[j].0@ == p
                                            && old_entries[j].1@.contains(v);
                                    let jj = if j < i {
                                        j
                                    } else {
                                        j - 1
                                    };
                                    assert(entries@[jj] == old_entries[j]);
                                }
                            }
                            assert(entry_lines(entries@, p) =~= target);
                        }
                        assert forall|a: int, b: int|
                            0 <= a < b < entries@.len() implies entries@[a].0@ != entries@[b].0@ by {
                            let aa = if a < i {
                                a
                            } else {
                                a + 1
                            };
                            let bb = if b < i {
                                b
                            } else {
                                b + 1
                            };
                            assert(old_entries[aa] == entries@[a]);
                            assert(old_entries[bb] == entries@[b]);
                        }
                        assert forall|a: int| 0 <= a < entries@.len() implies sorted_strict(
                            #[trigger] entries@[a].1@,
                        ) && entries@[a].1@.len() > 0 by {
                            let aa = if a < i {
                                a
                            } else {
                                a + 1
                            };
                            assert(old_entries[aa] == entries@[a]);
                        }
                    }
                    self.entries = entries;
                } else {
                    let ghost e = (name, updated);
                    entries.set(i, (name, updated));
                    proof {
                        lemma_total_update(old_entries, i as int, e);
                        assert forall|p: Seq<char>| #![auto]
                            entry_lines(entries@, p) == if p == path@ {
                                updated@.to_set()
                            } else {
                                entry_lines(old_entries, p)
                            } by {
                            let target = if p == path@ {
                                updated@.to_set()
                            } else {
                                entry_lines(old_entries, p)
                            };
                            assert forall|v: u32| #![auto]
                                entry_lines(entries@, p).contains(v) == target.contains(v) by {
                                if entry_lines(entries@, p).contains(v) {
                                    let j = choose|j: int|
                                        0 <= j < entries@.len() && entries@[j].0@ == p
                                            && entries@[j].1@.contains(v);
                                    if j != i {
                                        assert(old_entries[j] == entries@[j]);
                                        if j < i {
                                            assert(old_entries[j].0@ != old_entries[i as int].0@);
                                        } else {
                                            assert(old_entries[i as int].0@ != old_entries[j].0@);
                                        }
                                    }
                                }
                                if entry_lines(old_entries, p).contains(v) && p != path@ {
                                    let j = choose|j: int|
                                        0 <= j < old_entries.len() && old_entries[j].0@ == p
                                            && old_entries[j].1@.contains(v);
                                    assert(entries@[j] == old_entries[j]);
                                }
                                if p == path@ && target.contains(v) {
                                    assert(entries@[i as int].1@.contains(v));
                                }
                            }
                            assert(entry_lines(entries@, p) =~= target);
                        }
                        assert forall|a: int, b: int|
                            0 <= a < b < entries@.len() implies entries@[a].0@ != entries@[b].0@ by {
                            assert(entries@[a].0@ == old_entries[a].0@);
                            assert(entries@[b].0@ == old_entries[b].0@);
                        }
                    }
                    self.entries = entries;
                }
            },
            None => {
                if updated.len() == 0 {
                    self.entries = entries;
                    return ;
                }
                let ghost one = updated@;
                entries.push((string_of(path), updated));
                proof {
                    assert(entries@.drop_last() =~= old_entries);
                    assert forall|p: Seq<char>| #![auto]
                        entry_lines(entries@, p) == if p == path@ {
                            one.to_set()
                        } else {
                            entry_lines(old_entries, p)
                        } by {
                        let target = if p == path@ {
                            one.to_set()
                        } else {
                            entry_lines(old_entries, p)
                        };
                        assert forall|v: u32| #![auto]
                            entry_lines(entries@, p).contains(v) == target.contains(v) by {
                            if entry_lines(entries@, p).contains(v) {
                                let j = choose|j: int|
                                    0 <= j < entries@.len() && entries@[j].0@ == p
                                        && entries@[j].1@.contains(v);
                                if j < old_entries.len() {
                                    assert(old_entries[j] == entries@[j]);
                                }
                            }
                            if entry_lines(old_entries, p).contains(v) {
                                let j = choose|j: int|
                                    0 <= j < old_entries.len() && old_entries[j].0@ == p
                                        && old_entries[j].1@.contains(v);
                                assert(entries@[j] == old_entries[j]);
                            }
                            if p == path@ && one.contains(v) {
                                assert(entries@[old_entries.len() as int].1@.contains(v));
                            }
                        }
                        assert(entry_lines(entries@, p) =~= target);
                    }
                }
                self.entries = entries;
            },
        }
    }

    /// Adds `line` to the lines of `path` when absent, removes it when present;
    /// a file left without lines loses its entry.
    pub fn toggle(&mut self, path: &str, line: u32)
        ensures
            toggled(*old(self), *final(self), path@, line),
    {
        proof {
            use_type_invariant(&*self);
        }
        let current = self.lines_for(path);
        let updated = toggle_line(&current, line);
        proof {
            self.lemma_len_of(path@);
        }
        self.set_entry(path, updated);
        proof {
            let target = if old(self).lines(path@).contains(line) {
                old(self).lines(path@).remove(line)
            } else {
                old(self).lines(path@).insert(line)
            };
            assert forall|v: u32| self.lines(path@).contains(v) == target.contains(v) by {
                assert(current@.contains(v) == old(self).lines(path@).contains(v));
                assert(updated@.contains(v) == (current@.contains(v) != (v == line)));
            }
            assert(self.lines(path@) =~= target);
        }
    }

    proof fn lemma_len_of(&self, p: Seq<char>)
        requires
            self.wf(),
        ensures
            self.len_of(p) == 0 || exists|i: int|
                0 <= i < self.entries@.len() && self.entries@[i].0@ == p && self.len_of(p)
                    == self.entries@[i].1@.len(),
    {
        if exists|i: int| 0 <= i < self.entries@.len() && self.entries@[i].0@ == p {
            let i = choose|i: int| 0 <= i < self.entries@.len() && self.entries@[i].0@ == p;
            self.lemma_present(i);
        }
    }

    /// The lines of `path`, in increasing order.
    pub fn lines_for(&self, path: &str) -> (r: Vec<u32>)
        ensures
            sorted_strict(r@),
            forall|v: u32| r@.contains(v) == self.lines(path@).contains(v),
            r@.len() == self.len_of(path@),
    {
        proof {
            use_type_invariant(self);
        }
        match self.find(path) {
            None => {
                proof {
                    self.lemma_absent(path@);
                }
                Vec::new()
            },
            Some(i) => {
                proof {
                    self.lemma_present(i as int);
                }
                let lines = &self.entries[i].1;
                let mut r: Vec<u32> = Vec::new();
                let mut k: usize = 0;
                while k < lines.len()
                    invariant
                        0 <= k <= lines@.len(),
                        r@ == lines@.take(k as int),
                    decreases lines@.len() - k,
                {
                    r.push(lines[k]);
                    proof {
                        assert(lines@.take(k + 1) =~= lines@.take(k as int).push(lines@[k as int]));
                    }
                    k = k + 1;
                }
                proof {
                    assert(lines@.take(lines@.len() as int) =~= lines@);
                }
                r
            },
        }
    }

    /// Whether `line` is recorded for `path`.
    pub fn contains(&self, path: &str, line: u32) -> (r: bool)
        ensures
            r == self.lines(path@).contains(line),
    {
        let lines = self.lines_for(path);
        let mut k: usize = 0;
        while k < lines.len()
            invariant
                0 <= k <= lines@.len(),
                forall|j: int| 0 <= j < k ==> lines@[j] != line,
                forall|v: u32| lines@.contains(v) == self.lines(path@).contains(v),
            decreases lines@.len() - k,
        {
            if lines[k] == line {
                proof {
                    assert(lines@[k as int] == line);
                    assert(lines@.contains(line));
                }
                return true;
            }
            k = k + 1;
        }
        proof {
            if lines@.contains(line) {
                let j = choose|j: int| 0 <= j < lines@.len() && lines@[j] == line;
            }
        }
        false
    }

    /// Makes the lines of `path` exactly those of `lines`; an empty slice
    /// removes the entry.
    pub fn replace(&mut self, path: &str, lines: &[u32])
        ensures
            forall|p: Seq<char>| p != path@ ==> final(self).lines(p) == old(self).lines(p),
            final(self).lines(path@) == lines@.to_set(),
    {
        let mut set: Vec<u32> = Vec::new();
        let mut k: usize = 0;
        while k < lines.len()
            invariant
                0 <= k <= lines@.len(),
                sorted_strict(set@),
                forall|v: u32| set@.contains(v) == lines@.take(k as int).contains(v),
            decreases lines@.len() - k,
        {
            proof {
                lemma_take_contains(lines@, k as int);
            }
            let v = lines[k];
            let mut j: usize = 0;
            let mut present = false;
            while j < set.len()
                invariant
                    0 <= j <= set@.len(),
                    present == exists|x: int| 0 <= x < j && set@[x] == v,
                decreases set@.len() - j,
            {
                if set[j] == v {
                    present = true;
                }
                j = j + 1;
            }
            if !present {
                set = toggle_line(&set, v);
            }
            k = k + 1;
        }
        proof {
            assert(lines@.take(lines@.len() as int) =~= lines@);
        }
        let ghost final_set = set@;
        self.set_entry(path, set);
        proof {
            assert forall|v: u32| self.lines(path@).contains(v) == lines@.to_set().contains(v) by {
                assert(final_set.contains(v) == lines@.take(lines@.len() as int).contains(v));
            }
            assert(self.lines(path@) =~= lines@.to_set());
        }
    }

    /// How many lines are recorded, over all files.
    pub fn count(&self) -> (n: usize)
        requires
            self.total() <= usize::MAX,
        ensures
            n == self.total(),
    {
        let mut n: usize = 0;
        let mut i: usize = 0;
        proof {
            assert(self.entries@.take(0) =~= Seq::<(String, Vec<u32>)>::empty());
        }
        while i < self.entries.len()
            invariant
                0 <= i <= self.entries@.len(),
                n == entry_total(self.entries@.take(i as int)),
                entry_total(self.entries@) <= usize::MAX,
            decreases self.entries@.len() - i,
        {
            proof {
                assert(self.entries@.take(i + 1).drop_last() =~= self.entries@.take(i as int));
                lemma_total_prefix(self.entries@, i + 1);
            }
            n = n + self.entries[i].1.len();
            i = i + 1;
        }
        proof {
            assert(self.entries@.take(i as int) =~= self.entries@);
        }
        n
    }
}

proof fn lemma_total_prefix(entries: Seq<(String, Vec<u32>)>, i: int)
    requires
        0 <= i <= entries.len(),
    ensures
        entry_total(entries.take(i)) <= entry_total(entries),
    decreases entries.len() - i,
{
    if i < entries.len() {
        assert(entries.take(i + 1).drop_last() =~= entries.take(i));
        lemma_total_prefix(entries, i + 1);
    } else {
        assert(entries.take(i) =~= entries);
    }
}


/// The breakpoints of each file, the ones the target confirmed, and what the
/// debugger reported last.
pub struct DebugPanelState {
    pub breakpoints: LineTable,
    pub verified_breakpoints: LineTable,
    pub view: DebugView,
}

/// `"Breakpoints: "` followed by the decimal count.
pub open spec fn breakpoint_status(count: nat) -> Seq<char> {
    "Breakpoints: "@ + decimal(count)
}

/// `name:line` with the line counted from one, or just the name without a
/// location.
pub open spec fn frame_label_spec(frame: DebugFrameView) -> Seq<char> {
    match frame.location {
        Some((_, line)) => frame.name@ + ":"@ + decimal((line + 1) as nat),
        None => frame.name@,
    }
}

/// `name = value`.
pub open spec fn variable_line_spec(variable: DebugVariableView) -> Seq<char> {
    variable.name@ + " = "@ + variable.value@
}

/// How a frame appears in the list of frames.
pub fn frame_label(frame: &DebugFrameView) -> (r: String)
    requires
        frame.location matches Some((_, l)) ==> l < u32::MAX,
    ensures
        r@ == frame_label_spec(*frame),
{
    let mut s = string_of(frame.name.as_str());
    match &frame.location {
        Some((_, line)) => {
            push_str(&mut s, ":");
            let next = *line + 1;
            push_decimal(&mut s, next as usize);
            proof {
                reveal_strlit(":");
            }
        },
        None => {},
    }
    s
}

/// How a variable appears in the list of variables.
pub fn variable_line(variable: &DebugVariableView) -> (r: String)
    ensures
        r@ == variable_line_spec(*variable),
{
    let mut s = string_of(variable.name.as_str());
    push_str(&mut s, " = ");
    push_str(&mut s, variable.value.as_str());
    s
}

/// What the application is told after a change the panel made.
#[derive(Debug, PartialEq, Eq)]
pub enum DebugCommand {
    /// The breakpoints of this file changed: the target must learn them again.
    BreakpointsChanged(String),
}

/// What toggling a breakpoint gives back: the status line and the command
/// for the application.
#[derive(Debug, PartialEq, Eq)]
pub struct BreakpointToggle {
    pub status: String,
    pub command: DebugCommand,
}

impl DebugPanelState {
    pub fn new() -> (s: Self)
        ensures
            forall|p: Seq<char>| s.breakpoints.lines(p) == Set::<u32>::empty(),
            forall|p: Seq<char>| s.verified_breakpoints.lines(p) == Set::<u32>::empty(),
            s.breakpoints.total() == 0,
            s.verified_breakpoints.total() == 0,
            !s.view.attached,
            s.view.status@.len() == 0,
            s.view.stopped_at is None,
            s.view.frames@.len() == 0,
            s.view.selected_frame == 0,
            s.view.variables@.len() == 0,
    {
        let view = DebugView {
            attached: false,
            status: String::new(),
            stopped_at: None,
            frames: Vec::new(),
            selected_frame: 0,
            variables: Vec::new(),
        };
        DebugPanelState { breakpoints: LineTable::new(), verified_breakpoints: LineTable::new(), view }
    }

    /// The breakpoint lines of `path`, in increasing order.
    pub fn breakpoints_for(&self, path: &str) -> (r: Vec<u32>)
        ensures
            sorted_strict(r@),
            forall|v: u32| r@.contains(v) == self.breakpoints.lines(path@).contains(v),
    {
        self.breakpoints.lines_for(path)
    }

    pub fn attached(&self) -> (r: bool)
        ensures
            r == self.view.attached,
    {
        self.view.attached
    }

    /// How many breakpoints there are, over all files.
    pub fn breakpoint_count(&self) -> (n: usize)
        requires
            self.breakpoints.total() <= usize::MAX,
        ensures
            n == self.breakpoints.total(),
    {
        self.breakpoints.count()
    }

    /// Toggles the breakpoint of a line and returns the status message that
    /// reports the new count.
    pub fn toggle_breakpoint(&mut self, path: &str, line: u32) -> (r: BreakpointToggle)
        requires
            old(self).breakpoints.total() < usize::MAX,
        ensures
            toggled(old(self).breakpoints, final(self).breakpoints, path@, line),
            final(self).verified_breakpoints == old(self).verified_breakpoints,
            final(self).view == old(self).view,
            r.status@ == breakpoint_status(final(self).breakpoints.total()),
            r.command matches DebugCommand::BreakpointsChanged(p) && p@ == path@,
    {
        self.breakpoints.toggle(path, line);
        let count = self.breakpoints.count();
        let mut status = string_of("Breakpoints: ");
        push_decimal(&mut status, count);
        BreakpointToggle { status, command: DebugCommand::BreakpointsChanged(string_of(path)) }
    }

    /// Toggles the breakpoint on the line of byte `cursor` of `text`.
    pub fn toggle_breakpoint_at_cursor(&mut self, path: &str, text: &str, cursor: usize) -> (r:
        BreakpointToggle)
        requires
            old(self).breakpoints.total() < usize::MAX,
            is_boundary(text@, min_nat(cursor as int, byte_len(text@) as int)),
            count_char(text@, '\n') <= u32::MAX,
        ensures
            forall|k: int|
                0 <= k <= text@.len() && #[trigger] pos(text@, k) == min_nat(
                    cursor as int,
                    byte_len(text@) as int,
                ) ==> {
                    let line = count_char(text@.take(k), '\n');
                    toggled(old(self).breakpoints, final(self).breakpoints, path@, line as u32)
                },
            final(self).verified_breakpoints == old(self).verified_breakpoints,
            final(self).view == old(self).view,
            r.status@ == breakpoint_status(final(self).breakpoints.total()),
            r.command matches DebugCommand::BreakpointsChanged(p) && p@ == path@,
    {
        let (line, _) = line_column(text, cursor);
        proof {
            let k = choose|k: int|
                0 <= k <= text@.len() && #[trigger] pos(text@, k) == min_nat(
                    cursor as int,
                    byte_len(text@) as int,
                );
            crate::text::lemma_count_prefix(text@, k, '\n');
        }
        self.toggle_breakpoint(path, line as u32)
    }

    /// Records which lines of `path` the target confirmed; none removes them.
    pub fn set_verified_breakpoints(&mut self, path: &str, lines: &[u32])
        ensures
            forall|p: Seq<char>|
                p != path@ ==> final(self).verified_breakpoints.lines(p) == old(
                    self,
                ).verified_breakpoints.lines(p),
            final(self).verified_breakpoints.lines(path@) == lines@.to_set(),
            final(self).breakpoints == old(self).breakpoints,
    {
        self.verified_breakpoints.replace(path, lines);
    }

    /// Whether the target confirmed the breakpoint of `line` in `path`.
    pub fn breakpoint_is_verified(&self, path: &str, line: u32) -> (r: bool)
        ensures
            r == self.verified_breakpoints.lines(path@).contains(line),
    {
        self.verified_breakpoints.contains(path, line)
    }

    /// Replaces what the debugger reported; returns the location to open
    /// when the target stopped somewhere other than before.
    pub fn set_debug_view(&mut self, view: DebugView) -> (open: Option<(String, u32)>)
        ensures
            final(self).view == view,
            final(self).breakpoints == old(self).breakpoints,
            final(self).verified_breakpoints == old(self).verified_breakpoints,
            open == match view.stopped_at {
                Some((p, l)) => if old(self).view.stopped_at matches Some((q, m)) && q@ == p@
                    && m == l {
                    None
                } else {
                    Some((p, l))
                },
                None => None,
            },
    {
        let mut open: Option<(String, u32)> = None;
        match &view.stopped_at {
            Some((path, line)) => {
                let same = match &self.view.stopped_at {
                    Some((q, m)) => str_eq(q.as_str(), path.as_str()) && *m == *line,
                    None => false,
                };
                if !same {
                    open = Some((path.clone(), *line));
                }
            },
            None => {},
        }
        self.view = view;
        open
    }
}

} // verus!
