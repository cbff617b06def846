//! The rename window: the new name, and the files the change reaches. It
//! decides what to rename and answers gestures; writing to the editor and
//! talking to the application stay with whoever receives the outcome.
use vstd::prelude::*;
use crate::explorer::to_ascii_lowercase;
use crate::fmt::{decimal, push_decimal, push_str, str_eq, string_of};
use crate::inspection::{trim, trimmed};
use crate::paths::{
    extension, extension_of, file_name, file_name_of, file_stem, file_stem_of, parent, parent_of,
    path_less, path_lt, with_file_name, with_file_name_of,
};

verus! {

/// A place in a text: line and column, both from zero.
#[derive(Clone, Copy, Debug, Eq, PartialEq, Structural)]
pub struct TextPosition {
    pub line: u32,
    pub column: u32,
}

/// A stretch of a text.
#[derive(Clone, Copy, Debug, Eq, PartialEq, Structural)]
pub struct TextRange {
    pub start: TextPosition,
    pub end: TextPosition,
}

/// Where a name occurs: the file, and the stretch in it.
#[derive(Clone, Debug)]
pub struct Location {
    pub path: String,
    pub range: TextRange,
}

// ----------------------------------------------------------------------------
// Ordering the occurrences of a file
/// `a` starts after `b`: it comes first when occurrences go from the end of
/// the text to its start.
pub open spec fn starts_after(a: TextRange, b: TextRange) -> bool {
    a.start.line > b.start.line || (a.start.line == b.start.line && a.start.column > b.start.column)
}

/// Where `x` goes among `s`, from `j` on: before the first that it starts
/// after; at the end when there is none.
pub open spec fn slot(s: Seq<TextRange>, x: TextRange, j: int) -> int
    decreases s.len() - j,
{
    if j < 0 || j >= s.len() {
        s.len() as int
    } else if starts_after(x, s[j]) {
        j
    } else {
        slot(s, x, j + 1)
    }
}

/// `s` ordered from the last start to the first; ranges that start at the
/// same place keep their order.
pub open spec fn from_the_end(s: Seq<TextRange>) -> Seq<TextRange>
    decreases s.len(),
{
    if s.len() == 0 {
        s
    } else {
        let t = from_the_end(s.drop_last());
        t.insert(slot(t, s.last(), 0), s.last())
    }
}

/// `s` with each run of equal ranges kept once.
pub open spec fn dedup(s: Seq<TextRange>) -> Seq<TextRange>
    decreases s.len(),
{
    if s.len() == 0 {
        s
    } else {
        let t = dedup(s.drop_last());
        if t.len() > 0 && t.last() == s.last() {
            t
        } else {
            t.push(s.last())
        }
    }
}

proof fn lemma_slot(s: Seq<TextRange>, x: TextRange, j: int)
    requires
        0 <= j <= s.len(),
    ensures
        j <= slot(s, x, j) <= s.len(),
    decreases s.len() - j,
{
    if j < s.len() {
        lemma_slot(s, x, j + 1);
    }
}

proof fn lemma_from_the_end_len(s: Seq<TextRange>)
    ensures
        from_the_end(s).len() == s.len(),
    decreases s.len(),
{
    if s.len() > 0 {
        lemma_from_the_end_len(s.drop_last());
        lemma_slot(from_the_end(s.drop_last()), s.last(), 0);
    }
}

/// No range of `s` starts after one that comes before it.
pub open spec fn runs_from_the_end(s: Seq<TextRange>) -> bool {
    forall|i: int, j: int| 0 <= i < j < s.len() ==> !starts_after(#[trigger] s[j], #[trigger] s[i])
}

proof fn lemma_slot_bounds(s: Seq<TextRange>, x: TextRange, j: int)
    requires
        0 <= j <= s.len(),
    ensures
        forall|k: int| j <= k < slot(s, x, j) ==> !starts_after(x, #[trigger] s[k]),
        slot(s, x, j) < s.len() ==> starts_after(x, s[slot(s, x, j)]),
    decreases s.len() - j,
{
    if j < s.len() {
        lemma_slot_bounds(s, x, j + 1);
    }
}

proof fn lemma_from_the_end_runs(s: Seq<TextRange>)
    ensures
        runs_from_the_end(from_the_end(s)),
        forall|y: TextRange| from_the_end(s).contains(y) <==> s.contains(y),
    decreases s.len(),
{
    if s.len() > 0 {
        let t = from_the_end(s.drop_last());
        let x = s.last();
        lemma_from_the_end_runs(s.drop_last());
        lemma_slot(t, x, 0);
        lemma_slot_bounds(t, x, 0);
        let p = slot(t, x, 0);
        let u = t.insert(p, x);
        assert(u == from_the_end(s));
        assert forall|i: int, j: int| 0 <= i < j < u.len() implies !starts_after(#[trigger] u[j], #[trigger] u[i]) by {
            if j < p {
                assert(u[i] == t[i] && u[j] == t[j]);
            } else if j == p {
                assert(u[i] == t[i]);
            } else if i < p {
                assert(u[i] == t[i] && u[j] == t[j - 1]);
            } else if i == p {
                assert(u[j] == t[j - 1]);
                assert(!starts_after(t[j - 1], t[p]) || j - 1 == p);
            } else {
                assert(u[i] == t[i - 1] && u[j] == t[j - 1]);
            }
        }
        assert forall|y: TextRange| u.contains(y) <==> s.contains(y) by {
            if u.contains(y) {
                let i = choose|i: int| 0 <= i < u.len() && u[i] == y;
                if i < p {
                    assert(t[i] == y);
                    assert(s.drop_last().contains(y));
                    let q = choose|q: int| 0 <= q < s.drop_last().len() && s.drop_last()[q] == y;
                    assert(s[q] == y);
                } else if i == p {
                    assert(s[s.len() - 1] == y);
                } else {
                    assert(t[i - 1] == y);
                    assert(s.drop_last().contains(y));
                    let q = choose|q: int| 0 <= q < s.drop_last().len() && s.drop_last()[q] == y;
                    assert(s[q] == y);
                }
            }
            if s.contains(y) {
                let q = choose|q: int| 0 <= q < s.len() && s[q] == y;
                if q == s.len() - 1 {
                    assert(u[p] == y);
                } else {
                    assert(s.drop_last()[q] == y);
                    assert(s.drop_last().contains(y));
                    assert(t.contains(y));
                    let i = choose|i: int| 0 <= i < t.len() && t[i] == y;
                    if i < p {
                        assert(u[i] == y);
                    } else {
                        assert(u[i + 1] == y);
                    }
                }
            }
        }
    }
}

proof fn lemma_dedup_keeps(s: Seq<TextRange>)
    requires
        runs_from_the_end(s),
    ensures
        runs_from_the_end(dedup(s)),
        forall|i: int| 0 <= i < dedup(s).len() - 1 ==> dedup(s)[i] != #[trigger] dedup(s)[i + 1],
        forall|y: TextRange| dedup(s).contains(y) <==> s.contains(y),
    decreases s.len(),
{
    if s.len() > 0 {
        let t = dedup(s.drop_last());
        let x = s.last();
        assert(runs_from_the_end(s.drop_last())) by {
            assert forall|i: int, j: int| 0 <= i < j < s.drop_last().len() implies !starts_after(
                #[trigger] s.drop_last()[j],
                #[trigger] s.drop_last()[i],
            ) by {
                assert(s.drop_last()[i] == s[i] && s.drop_last()[j] == s[j]);
            }
        }
        lemma_dedup_keeps(s.drop_last());
        if t.len() > 0 && t.last() == x {
            assert(dedup(s) == t);
            assert forall|y: TextRange| t.contains(y) <==> s.contains(y) by {
                if s.contains(y) {
                    let q = choose|q: int| 0 <= q < s.len() && s[q] == y;
                    if q == s.len() - 1 {
                        assert(t[t.len() - 1] == y);
                    } else {
                        assert(s.drop_last()[q] == y);
                        assert(s.drop_last().contains(y));
                    }
                }
                if t.contains(y) {
                    assert(s.drop_last().contains(y));
                    let q = choose|q: int| 0 <= q < s.drop_last().len() && s.drop_last()[q] == y;
                    assert(s[q] == y);
                }
            }
        } else {
            let u = t.push(x);
            assert(dedup(s) == u);
            assert forall|i: int, j: int| 0 <= i < j < u.len() implies !starts_after(#[trigger] u[j], #[trigger] u[i]) by {
                if j < t.len() {
                    assert(u[i] == t[i] && u[j] == t[j]);
                } else {
                    assert(u[i] == t[i]);
                    assert(t.contains(t[i]));
                    assert(s.drop_last().contains(t[i]));
                    let q = choose|q: int| 0 <= q < s.drop_last().len() && s.drop_last()[q] == t[i];
                    assert(s[q] == t[i]);
                    assert(!starts_after(s[s.len() - 1], s[q]));
                }
            }
            assert forall|i: int| 0 <= i < u.len() - 1 implies u[i] != #[trigger] u[i + 1] by {
                if i + 1 < t.len() {
                    assert(u[i] == t[i] && u[i + 1] == t[i + 1]);
                }
            }
            assert forall|y: TextRange| u.contains(y) <==> s.contains(y) by {
                if s.contains(y) {
                    let q = choose|q: int| 0 <= q < s.len() && s[q] == y;
                    if q == s.len() - 1 {
                        assert(u[u.len() - 1] == y);
                    } else {
                        assert(s.drop_last()[q] == y);
                        assert(s.drop_last().contains(y));
                        assert(t.contains(y));
                        let i = choose|i: int| 0 <= i < t.len() && t[i] == y;
                        assert(u[i] == y);
                    }
                }
                if u.contains(y) {
                    let i = choose|i: int| 0 <= i < u.len() && u[i] == y;
                    if i == u.len() - 1 {
                        assert(s[s.len() - 1] == y);
                    } else {
                        assert(t[i] == y);
                        assert(s.drop_last().contains(y));
                        let q = choose|q: int| 0 <= q < s.drop_last().len() && s.drop_last()[q] == y;
                        assert(s[q] == y);
                    }
                }
            }
        }
    }
}

/// The occurrences of a file, in the order the change applies them, run
/// from the end of the text to its start: none starts after one applied
/// before it, so writing one never moves those still to come. Every
/// occurrence is there, and none twice in a row.
pub proof fn law_occurrences_run_from_the_end(ranges: Seq<TextRange>)
    ensures
        runs_from_the_end(dedup(from_the_end(ranges))),
        forall|i: int|
            0 <= i < dedup(from_the_end(ranges)).len() - 1 ==> dedup(from_the_end(ranges))[i]
                != #[trigger] dedup(from_the_end(ranges))[i + 1],
        forall|y: TextRange| dedup(from_the_end(ranges)).contains(y) <==> ranges.contains(y),
{
    lemma_from_the_end_runs(ranges);
    lemma_dedup_keeps(from_the_end(ranges));
}

fn slot_of(s: &Vec<TextRange>, x: TextRange) -> (r: usize)
    ensures
        r == slot(s@, x, 0),
{
    let mut j: usize = 0;
    while j < s.len()
        invariant
            0 <= j <= s@.len(),
            slot(s@, x, 0) == slot(s@, x, j as int),
        decreases s@.len() - j,
    {
        let e = s[j];
        if x.start.line > e.start.line || (x.start.line == e.start.line && x.start.column > e.start.column) {
            return j;
        }
        j = j + 1;
    }
    j
}

/// The occurrences of one file as the change applies them: from the end of
/// the text to its start, each once.
pub fn order_occurrences(ranges: &Vec<TextRange>) -> (r: Vec<TextRange>)
    ensures
        r@ == dedup(from_the_end(ranges@)),
{
    let mut sorted: Vec<TextRange> = Vec::new();
    let mut i: usize = 0;
    while i < ranges.len()
        invariant
            0 <= i <= ranges@.len(),
            sorted@ == from_the_end(ranges@.take(i as int)),
        decreases ranges@.len() - i,
    {
        let x = ranges[i];
        let j = slot_of(&sorted, x);
        proof {
            lemma_slot(sorted@, x, 0);
            assert(ranges@.take(i + 1).drop_last() =~= ranges@.take(i as int));
        }
        sorted.insert(j, x);
        i = i + 1;
    }
    proof {
        assert(ranges@.take(ranges@.len() as int) =~= ranges@);
    }
    let mut out: Vec<TextRange> = Vec::new();
    let mut k: usize = 0;
    while k < sorted.len()
        invariant
            0 <= k <= sorted@.len(),
            sorted@ == from_the_end(ranges@),
            out@ == dedup(sorted@.take(k as int)),
        decreases sorted@.len() - k,
    {
        let x = sorted[k];
        proof {
            assert(sorted@.take(k + 1).drop_last() =~= sorted@.take(k as int));
        }
        if out.len() > 0 && out[out.len() - 1] == x {
        } else {
            out.push(x);
        }
        k = k + 1;
    }
    proof {
        assert(sorted@.take(sorted@.len() as int) =~= sorted@);
    }
    out
}

// ----------------------------------------------------------------------------
// Grouping the occurrences by file
/// The files and their ranges, as texts.
pub open spec fn groups_view(g: Seq<(String, Vec<TextRange>)>) -> Seq<(Seq<char>, Seq<TextRange>)> {
    g.map_values(|e: (String, Vec<TextRange>)| (e.0@, e.1@))
}

/// Where the file `k` goes among the files of `g`, from `j` on: at the first
/// that does not order before it, or at the end.
pub open spec fn file_slot(g: Seq<(Seq<char>, Seq<TextRange>)>, k: Seq<char>, j: int) -> int
    decreases g.len() - j,
{
    if j < 0 || j >= g.len() {
        g.len() as int
    } else if !path_less(g[j].0, k) {
        j
    } else {
        file_slot(g, k, j + 1)
    }
}

/// One more occurrence: it joins the file that orders neither before nor
/// after its own, or starts a new file in order.
pub open spec fn add_occurrence(g: Seq<(Seq<char>, Seq<TextRange>)>, k: Seq<char>, r: TextRange) -> Seq<
    (Seq<char>, Seq<TextRange>),
> {
    let i = file_slot(g, k, 0);
    if i < g.len() && !path_less(k, g[i].0) {
        g.update(i, (g[i].0, g[i].1.push(r)))
    } else {
        g.insert(i, (k, seq![r]))
    }
}

/// The occurrences of `locs` by file, the files in path order, each file's
/// ranges in the order they came.
pub open spec fn grouped(locs: Seq<Location>) -> Seq<(Seq<char>, Seq<TextRange>)>
    decreases locs.len(),
{
    if locs.len() == 0 {
        Seq::empty()
    } else {
        add_occurrence(grouped(locs.drop_last()), locs.last().path@, locs.last().range)
    }
}

/// What a rename reaches: each file, with its occurrences from the end of
/// the text to the start.
pub open spec fn occurrences_spec(locs: Seq<Location>) -> Seq<(Seq<char>, Seq<TextRange>)> {
    grouped(locs).map_values(|e: (Seq<char>, Seq<TextRange>)| (e.0, dedup(from_the_end(e.1))))
}

proof fn lemma_file_slot(g: Seq<(Seq<char>, Seq<TextRange>)>, k: Seq<char>, j: int)
    requires
        0 <= j <= g.len(),
    ensures
        j <= file_slot(g, k, j) <= g.len(),
    decreases g.len() - j,
{
    if j < g.len() {
        lemma_file_slot(g, k, j + 1);
    }
}

fn file_slot_of(g: &Vec<(String, Vec<TextRange>)>, k: &str) -> (r: usize)
    ensures
        r == file_slot(groups_view(g@), k@, 0),
{
    let ghost gv = groups_view(g@);
    let mut j: usize = 0;
    while j < g.len()
        invariant
            gv == groups_view(g@),
            0 <= j <= g@.len(),
            file_slot(gv, k@, 0) == file_slot(gv, k@, j as int),
        decreases g@.len() - j,
    {
        if !path_lt(g[j].0.as_str(), k) {
            return j;
        }
        j = j + 1;
    }
    j
}

/// Groups the occurrences by file, in path order, each file's ranges from
/// the end of the text to its start and each once.
pub fn group_occurrences(references: Vec<Location>) -> (r: Vec<(String, Vec<TextRange>)>)
    ensures
        groups_view(r@) == occurrences_spec(references@),
{
    let ghost all = references@;
    let total = references.len();
    let mut refs = references;
    let mut g: Vec<(String, Vec<TextRange>)> = Vec::new();
    let mut done: usize = 0;
    while refs.len() > 0
        invariant
            done + refs@.len() == all.len(),
            all.len() == total,
            refs@ == all.skip(done as int),
            groups_view(g@) == grouped(all.take(done as int)),
        decreases refs@.len(),
    {
        let loc = refs.remove(0);
        proof {
            assert(refs@ =~= all.skip(done + 1));
            assert(loc == all[done as int]);
            assert(all.take(done + 1).drop_last() =~= all.take(done as int));
        }
        let ghost before = groups_view(g@);
        let i = file_slot_of(&g, loc.path.as_str());
        proof {
            lemma_file_slot(before, loc.path@, 0);
        }
        if i < g.len() && !path_lt(loc.path.as_str(), g[i].0.as_str()) {
            let (key, mut ranges) = g.remove(i);
            ranges.push(loc.range);
            g.insert(i, (key, ranges));
            proof {
                assert(groups_view(g@) =~= before.update(i as int, (before[i as int].0, before[i as int].1.push(loc.range))));
            }
        } else {
            let mut one: Vec<TextRange> = Vec::new();
            one.push(loc.range);
            g.insert(i, (loc.path, one));
            proof {
                assert(groups_view(g@) =~= before.insert(i as int, (loc.path@, seq![loc.range])));
            }
        }
        done = done + 1;
    }
    proof {
        assert(all.take(all.len() as int) =~= all);
    }
    let ghost gs = groups_view(g@);
    let mut out: Vec<(String, Vec<TextRange>)> = Vec::new();
    let mut rest = g;
    while rest.len() > 0
        invariant
            out@.len() + rest@.len() == gs.len(),
            groups_view(rest@) == gs.skip(out@.len() as int),
            groups_view(out@) == gs.take(out@.len() as int).map_values(
                |e: (Seq<char>, Seq<TextRange>)| (e.0, dedup(from_the_end(e.1))),
            ),
        decreases rest@.len(),
    {
        let ghost k = out@.len() as int;
        let ghost prev_rest = rest@;
        let (key, ranges) = rest.remove(0);
        proof {
            assert(groups_view(prev_rest)[0] == gs[k]);
            assert(groups_view(rest@) =~= gs.skip(k + 1)) by {
                assert(groups_view(rest@) =~= groups_view(prev_rest).drop_first());
            }
        }
        let ordered = order_occurrences(&ranges);
        let ghost prev = out@;
        out.push((key, ordered));
        proof {
            assert(groups_view(out@) =~= gs.take(k + 1).map_values(
                |e: (Seq<char>, Seq<TextRange>)| (e.0, dedup(from_the_end(e.1))),
            )) by {
                assert(groups_view(out@) =~= groups_view(prev).push((key@, ordered@)));
            }
        }
    }
    proof {
        assert(gs.take(gs.len() as int) =~= gs);
    }
    out
}

// ----------------------------------------------------------------------------
// The list and the decision
/// How an affected file reads in the list: its name, its folder when it has
/// one (two packages may hold files of the same name), and how many
/// occurrences change there.
pub open spec fn reference_label_spec(path: Seq<char>, n: nat) -> Seq<char> {
    let nome = match file_name_of(path) {
        Some(x) => x,
        None => Seq::empty(),
    };
    match parent_of(path) {
        Some(pasta) => if pasta.len() > 0 {
            nome + "  ("@ + pasta + ")  —  "@ + decimal(n)
        } else {
            nome + "  —  "@ + decimal(n)
        },
        None => nome + "  —  "@ + decimal(n),
    }
}

/// How an affected file reads in the list.
pub fn reference_label(path: &str, ocorrencias: usize) -> (r: String)
    ensures
        r@ == reference_label_spec(path@, ocorrencias as nat),
{
    let mut s = match file_name(path) {
        Some(n) => n,
        None => String::new(),
    };
    match parent(path) {
        Some(pasta) if !pasta.as_str().is_empty() => {
            push_str(&mut s, "  (");
            push_str(&mut s, pasta.as_str());
            push_str(&mut s, ")  —  ");
        },
        _ => {
            push_str(&mut s, "  —  ");
        },
    }
    push_decimal(&mut s, ocorrencias);
    s
}

/// What the window concludes, for the caller to carry out.
#[derive(Debug)]
pub enum RenameOutcome {
    /// The gesture concluded nothing.
    Idle,
    /// Nothing to do, with what to say on the status bar.
    Message(String),
    /// Rename, with everything that changes along.
    Apply(RenameDecision),
}

/// A rename to carry out: the file, where it goes, the names, and where the
/// old name occurs, per file, from the end of the text to the start.
#[derive(Debug)]
pub struct RenameDecision {
    pub from: String,
    pub to: String,
    pub old_name: String,
    pub new_name: String,
    pub occurrences: Vec<(String, Vec<TextRange>)>,
}

/// A rename under way: the file, its name, what it reaches, and the name in
/// the field.
#[derive(Debug)]
pub struct RenameState {
    pub path: String,
    pub old_name: String,
    pub occurrences: Vec<(String, Vec<TextRange>)>,
    pub name: String,
}

/// The window: whether it shows, the rename under way, and the file whose
/// rename was asked and not answered yet.
#[derive(Debug)]
pub struct RenameSurface {
    pub open: bool,
    pub state: Option<RenameState>,
    pub pending: Option<String>,
}

/// The stem of a file name, or nothing.
pub open spec fn stem_spec(path: Seq<char>) -> Seq<char> {
    match file_stem_of(path) {
        Some(s) => s,
        None => Seq::empty(),
    }
}

/// The extension of the file with its dot, or nothing.
pub open spec fn dotted_extension(path: Seq<char>) -> Seq<char> {
    match extension_of(path) {
        Some(e) => "."@ + e,
        None => Seq::empty(),
    }
}

/// Confirming: nothing without a rename under way; otherwise the window
/// closes, and an empty or unchanged name is reported, any other applied.
pub open spec fn confirm_spec(before: RenameSurface, after: RenameSurface, r: RenameOutcome) -> bool {
    &&& after.pending == before.pending
    &&& match before.state {
        None => after.state is None && after.open == before.open && r is Idle,
        Some(st) => {
            let novo = trim(st.name@);
            &&& after.state is None
            &&& !after.open
            &&& if novo.len() == 0 || novo == st.old_name@ {
                r matches RenameOutcome::Message(m) && m@ == "Nome inalterado"@
            } else {
                r matches RenameOutcome::Apply(d) && {
                    &&& d.from == st.path
                    &&& d.to@ == with_file_name_of(st.path@, novo + dotted_extension(st.path@))
                    &&& d.old_name == st.old_name
                    &&& d.new_name@ == novo
                    &&& d.occurrences == st.occurrences
                }
            }
        },
    }
}

impl RenameSurface {
    /// A closed window, with nothing asked.
    pub fn new() -> (r: Self)
        ensures
            !r.open,
            r.state is None,
            r.pending is None,
    {
        RenameSurface { open: false, state: None, pending: None }
    }

    /// Asks to rename `path`; the answer comes later.
    pub fn request(&mut self, path: String)
        ensures
            final(self).pending == Some(path),
            final(self).open == old(self).open,
            final(self).state == old(self).state,
    {
        self.pending = Some(path);
    }

    /// The file whose rename was asked, taken: it is answered once.
    pub fn take_request(&mut self) -> (r: Option<String>)
        ensures
            r == old(self).pending,
            final(self).pending is None,
            final(self).open == old(self).open,
            final(self).state == old(self).state,
    {
        self.pending.take()
    }

    /// Whether the window shows.
    pub fn is_open(&self) -> (r: bool)
        ensures
            r == self.open,
    {
        self.open
    }

    /// Opens on the file and what is rewritten along with it.
    pub fn show(&mut self, path: String, references: Vec<Location>)
        ensures
            final(self).open,
            final(self).pending == old(self).pending,
            final(self).state matches Some(st) && {
                &&& st.path == path
                &&& st.old_name@ == stem_spec(path@)
                &&& st.name@ == stem_spec(path@)
                &&& groups_view(st.occurrences@) == occurrences_spec(references@)
            },
    {
        let old_name = match file_stem(path.as_str()) {
            Some(s) => s,
            None => String::new(),
        };
        let occurrences = group_occurrences(references);
        let name = old_name.clone();
        self.state = Some(RenameState { path, old_name, occurrences, name });
        self.open = true;
    }

    /// The name in the field, which is what confirming applies.
    pub fn name(&self) -> (r: String)
        ensures
            match self.state {
                Some(st) => r@ == st.name@,
                None => r@.len() == 0,
            },
    {
        match &self.state {
            Some(st) => st.name.clone(),
            None => String::new(),
        }
    }

    /// Replaces the name in the field.
    pub fn set_name(&mut self, name: &str)
        ensures
            final(self).open == old(self).open,
            final(self).pending == old(self).pending,
            match old(self).state {
                Some(st) => final(self).state matches Some(n) && n.name@ == name@ && n.path == st.path
                    && n.old_name == st.old_name && n.occurrences == st.occurrences,
                None => final(self).state is None,
            },
    {
        let taken = self.state.take();
        match taken {
            Some(mut st) => {
                st.name = string_of(name);
                self.state = Some(st);
            },
            None => {},
        }
    }

    /// The affected files, as the list shows them.
    pub fn references(&self) -> (r: Vec<String>)
        ensures
            match self.state {
                Some(st) => r@.len() == st.occurrences@.len() && forall|i: int|
                    0 <= i < r@.len() ==> (#[trigger] r@[i])@ == reference_label_spec(
                        st.occurrences@[i].0@,
                        st.occurrences@[i].1@.len(),
                    ),
                None => r@.len() == 0,
            },
    {
        let mut r: Vec<String> = Vec::new();
        match &self.state {
            Some(st) => {
                let mut i: usize = 0;
                while i < st.occurrences.len()
                    invariant
                        0 <= i <= st.occurrences@.len(),
                        r@.len() == i,
                        forall|j: int|
                            0 <= j < i ==> (#[trigger] r@[j])@ == reference_label_spec(
                                st.occurrences@[j].0@,
                                st.occurrences@[j].1@.len(),
                            ),
                    decreases st.occurrences@.len() - i,
                {
                    let label = reference_label(st.occurrences[i].0.as_str(), st.occurrences[i].1.len());
                    r.push(label);
                    i = i + 1;
                }
            },
            None => {},
        }
        r
    }

    /// Gives up: the window closes and the rename is forgotten.
    pub fn cancel(&mut self)
        ensures
            !final(self).open,
            final(self).state is None,
            final(self).pending == old(self).pending,
    {
        self.open = false;
        self.state = None;
    }

    /// Confirms, and hands back the decision to carry out.
    pub fn confirm(&mut self) -> (r: RenameOutcome)
        ensures
            confirm_spec(*old(self), *final(self), r),
    {
        let taken = self.state.take();
        let st = match taken {
            Some(s) => s,
            None => return RenameOutcome::Idle,
        };
        self.open = false;
        let novo = trimmed(st.name.as_str());
        if novo.as_str().is_empty() || novo == st.old_name {
            return RenameOutcome::Message(string_of("Nome inalterado"));
        }
        let mut nome = string_of(novo.as_str());
        match extension(st.path.as_str()) {
            Some(e) => {
                push_str(&mut nome, ".");
                push_str(&mut nome, e.as_str());
                proof {
                    assert(nome@ =~= novo@ + dotted_extension(st.path@));
                }
            },
            None => {
                proof {
                    assert(nome@ =~= novo@ + dotted_extension(st.path@));
                }
            },
        }
        let destino = with_file_name(st.path.as_str(), nome.as_str());
        RenameOutcome::Apply(
            RenameDecision {
                from: st.path,
                to: destino,
                old_name: st.old_name,
                new_name: novo,
                occurrences: st.occurrences,
            },
        )
    }

    /// Keys: Enter confirms, Escape gives up; the others belong to the field
    /// and conclude nothing here.
    pub fn key(&mut self, key: &str) -> (r: RenameOutcome)
        ensures
            ({
                let k = key@.map_values(|c: char| crate::explorer::ascii_lower(c));
                if k == "enter"@ {
                    confirm_spec(*old(self), *final(self), r)
                } else if k == "escape"@ {
                    !final(self).open && final(self).state is None && final(self).pending == old(self).pending
                        && r is Idle
                } else {
                    *final(self) == *old(self) && r is Idle
                }
            }),
    {
        let k = to_ascii_lowercase(key);
        if str_eq(k.as_str(), "enter") {
            self.confirm()
        } else if str_eq(k.as_str(), "escape") {
            self.cancel();
            RenameOutcome::Idle
        } else {
            RenameOutcome::Idle
        }
    }
}

} // verus!
