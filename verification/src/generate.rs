//! The `Generate` window: fields with a check box, **All** and **OK**.
//!
//! It serves the four choices of the menu (constructor, getter, setter and
//! both), because what changes between them is what the language writes, not
//! the window. It decides and whoever owns the document writes: the border is
//! the [`GenerateOutcome`].
use vstd::prelude::*;
use crate::fmt::{decimal, push_decimal, push_str, string_of};
use crate::rename::TextPosition;

verus! {

/// What the language is asked to write.
#[derive(Clone, Copy, Debug, Eq, PartialEq, Structural)]
pub enum AccessorKind {
    Getter,
    Setter,
    Both,
    Constructor,
}

/// A field the language offers: its name, and the code of the accessor when
/// there is one to write (none when the field already has it).
#[derive(Debug)]
pub struct AccessorCandidate {
    pub field: String,
    pub source: Option<String>,
}

/// What the language proposes: the fields, and where the code goes.
#[derive(Debug)]
pub struct AccessorPlan {
    pub candidates: Vec<AccessorCandidate>,
    pub insert_at: TextPosition,
}

/// What the window concludes, for whoever owns the document.
#[derive(Debug)]
pub enum GenerateOutcome {
    /// The gesture concluded nothing.
    Idle,
    /// Nothing to write, and what to say in the status bar.
    Message(String),
    /// Code ready to go at the start of `line`.
    Insert { text: String, line: u32, message: String },
}

/// What the open window shows and what was checked.
#[derive(Debug)]
pub struct GenerateState {
    pub kind: AccessorKind,
    pub candidates: Vec<AccessorCandidate>,
    pub insert_at: TextPosition,
    /// One per candidate.
    pub checked: Vec<bool>,
}

/// The window, the request waiting for the language, and the constructor
/// waiting to be written.
#[derive(Debug)]
pub struct GenerateSurface {
    pub open: bool,
    pub state: Option<GenerateState>,
    pub pending_kind: Option<AccessorKind>,
    pub pending_constructor: Option<(Vec<String>, TextPosition)>,
}

/// The candidates with code to write, in order.
pub open spec fn with_source(s: Seq<AccessorCandidate>) -> Seq<AccessorCandidate>
    decreases s.len(),
{
    if s.len() == 0 {
        s
    } else if s.last().source is Some {
        with_source(s.drop_last()).push(s.last())
    } else {
        with_source(s.drop_last())
    }
}

/// What the window lists: every field for a constructor, whose choice is
/// which fields it takes; for an accessor only the fields still without it.
pub open spec fn offered(kind: AccessorKind, s: Seq<AccessorCandidate>) -> Seq<AccessorCandidate> {
    if kind == AccessorKind::Constructor {
        s
    } else {
        with_source(s)
    }
}

/// The window title for each kind.
pub open spec fn title_spec(kind: AccessorKind) -> Seq<char> {
    match kind {
        AccessorKind::Getter => "Generate — Getter"@,
        AccessorKind::Setter => "Generate — Setter"@,
        AccessorKind::Both => "Generate — Getter and Setter"@,
        AccessorKind::Constructor => "Generate — Constructor"@,
    }
}

/// The title of the window for `kind`.
pub fn title(kind: AccessorKind) -> (r: &'static str)
    ensures
        r@ == title_spec(kind),
{
    match kind {
        AccessorKind::Getter => "Generate — Getter",
        AccessorKind::Setter => "Generate — Setter",
        AccessorKind::Both => "Generate — Getter and Setter",
        AccessorKind::Constructor => "Generate — Constructor",
    }
}

/// Whether row `i` goes in: all of them with **All**, else the checked ones.
pub open spec fn chosen(checked: Seq<bool>, all: bool, i: int) -> bool {
    all || (0 <= i < checked.len() && checked[i])
}

/// The fields of the rows chosen among the first `n`, in order.
pub open spec fn chosen_fields(c: Seq<AccessorCandidate>, checked: Seq<bool>, all: bool, n: int) -> Seq<
    Seq<char>,
>
    decreases n,
{
    if n <= 0 || n > c.len() {
        Seq::empty()
    } else if chosen(checked, all, n - 1) {
        chosen_fields(c, checked, all, n - 1).push(c[n - 1].field@)
    } else {
        chosen_fields(c, checked, all, n - 1)
    }
}

/// The code of the rows chosen among the first `n`, one after the other,
/// and how many of them had code.
pub open spec fn chosen_code(c: Seq<AccessorCandidate>, checked: Seq<bool>, all: bool, n: int) -> (
    Seq<char>,
    nat,
)
    decreases n,
{
    if n <= 0 || n > c.len() {
        (Seq::empty(), 0)
    } else {
        let (t, k) = chosen_code(c, checked, all, n - 1);
        match c[n - 1].source {
            Some(s) => if chosen(checked, all, n - 1) {
                (t + s@, k + 1)
            } else {
                (t, k)
            },
            None => (t, k),
        }
    }
}

/// The word for what was written, in the status message.
pub open spec fn kind_word(kind: AccessorKind) -> Seq<char> {
    match kind {
        AccessorKind::Getter => "getter"@,
        AccessorKind::Setter => "setter"@,
        _ => "acessor"@,
    }
}

/// How many of `s` are true.
pub open spec fn count_true(s: Seq<bool>) -> nat
    decreases s.len(),
{
    if s.len() == 0 {
        0
    } else {
        count_true(s.drop_last()) + if s.last() {
            1nat
        } else {
            0
        }
    }
}

/// The names of a list of candidates.
pub open spec fn field_names(c: Seq<AccessorCandidate>) -> Seq<Seq<char>> {
    c.map_values(|x: AccessorCandidate| x.field@)
}

/// What confirming does, from `before` to `after`, concluding `r`.
pub open spec fn confirm_spec(before: GenerateSurface, after: GenerateSurface, all: bool, r: GenerateOutcome) -> bool {
    &&& after.pending_kind == before.pending_kind
    &&& match before.state {
        None => r is Idle && after.open == before.open && after.state is None && after.pending_constructor
            == before.pending_constructor,
        Some(st) => {
            let c = st.candidates@;
            let checked = st.checked@;
            &&& !after.open
            &&& after.state is None
            &&& if st.kind == AccessorKind::Constructor {
                &&& r is Idle
                &&& after.pending_constructor matches Some((fields, at)) && at == st.insert_at
                    && fields@.map_values(|f: String| f@) == chosen_fields(c, checked, all, c.len() as int)
            } else {
                let (text, count) = chosen_code(c, checked, all, c.len() as int);
                &&& after.pending_constructor == before.pending_constructor
                &&& if text.len() == 0 {
                    r matches GenerateOutcome::Message(m) && m@ == "Nenhum campo marcado"@
                } else {
                    r matches GenerateOutcome::Insert { text: t, line, message } && t@ == text && line
                        == st.insert_at.line && message@ == decimal(count) + " "@ + kind_word(st.kind)
                        + "(s) gerado(s)"@
                }
            }
        },
    }
}

fn copy_candidate(c: &AccessorCandidate) -> (r: AccessorCandidate)
    ensures
        r == *c,
{
    let source = match &c.source {
        Some(s) => Some(s.clone()),
        None => None,
    };
    AccessorCandidate { field: c.field.clone(), source }
}

impl GenerateSurface {
    /// A closed window with nothing asked.
    pub fn new() -> (r: Self)
        ensures
            !r.open,
            r.state is None,
            r.pending_kind is None,
            r.pending_constructor is None,
    {
        GenerateSurface { open: false, state: None, pending_kind: None, pending_constructor: None }
    }

    /// Asks the language what `kind` would write.
    pub fn request(&mut self, kind: AccessorKind)
        ensures
            final(self).pending_kind == Some(kind),
            final(self).open == old(self).open,
            final(self).state == old(self).state,
            final(self).pending_constructor == old(self).pending_constructor,
    {
        self.pending_kind = Some(kind);
    }

    /// The request waiting for an answer, taken out: it is asked once.
    pub fn take_request(&mut self) -> (r: Option<AccessorKind>)
        ensures
            r == old(self).pending_kind,
            final(self).pending_kind is None,
            final(self).open == old(self).open,
            final(self).state == old(self).state,
            final(self).pending_constructor == old(self).pending_constructor,
    {
        self.pending_kind.take()
    }

    /// The constructor chosen and where it goes, taken out.
    pub fn take_constructor_request(&mut self) -> (r: Option<(Vec<String>, TextPosition)>)
        ensures
            r == old(self).pending_constructor,
            final(self).pending_constructor is None,
            final(self).open == old(self).open,
            final(self).state == old(self).state,
            final(self).pending_kind == old(self).pending_kind,
    {
        self.pending_constructor.take()
    }

    /// Whether the window shows.
    pub fn is_open(&self) -> (r: bool)
        ensures
            r == self.open,
    {
        self.open
    }

    /// Opens with what the language proposed. An accessor lists only the
    /// fields still without it; when none is left, the window stays as it
    /// was and the answer says why.
    pub fn show(&mut self, kind: AccessorKind, plan: AccessorPlan) -> (r: Option<String>)
        ensures
            final(self).pending_kind == old(self).pending_kind,
            final(self).pending_constructor == old(self).pending_constructor,
            if offered(kind, plan.candidates@).len() == 0 && kind != AccessorKind::Constructor {
                &&& r matches Some(m) && m@ == "Todos os campos já têm esse acessor"@
                &&& final(self).open == old(self).open
                &&& final(self).state == old(self).state
            } else {
                &&& r is None
                &&& final(self).open
                &&& final(self).state matches Some(st) && st.kind == kind && st.candidates@ == offered(
                    kind,
                    plan.candidates@,
                ) && st.insert_at == plan.insert_at && st.checked@.len() == st.candidates@.len()
                    && forall|i: int| 0 <= i < st.checked@.len() ==> !#[trigger] st.checked@[i]
            },
    {
        let mut candidates: Vec<AccessorCandidate> = Vec::new();
        let mut i: usize = 0;
        while i < plan.candidates.len()
            invariant
                0 <= i <= plan.candidates@.len(),
                candidates@ == if kind == AccessorKind::Constructor {
                    plan.candidates@.take(i as int)
                } else {
                    with_source(plan.candidates@.take(i as int))
                },
            decreases plan.candidates@.len() - i,
        {
            let c = &plan.candidates[i];
            proof {
                assert(plan.candidates@.take(i + 1).drop_last() =~= plan.candidates@.take(i as int));
                assert(plan.candidates@.take(i + 1).last() == plan.candidates@[i as int]);
            }
            if kind == AccessorKind::Constructor || c.source.is_some() {
                candidates.push(copy_candidate(c));
            }
            i = i + 1;
        }
        proof {
            assert(plan.candidates@.take(plan.candidates@.len() as int) =~= plan.candidates@);
        }
        if candidates.len() == 0 && kind != AccessorKind::Constructor {
            return Some(string_of("Todos os campos já têm esse acessor"));
        }
        let mut checked: Vec<bool> = Vec::new();
        let mut k: usize = 0;
        while k < candidates.len()
            invariant
                0 <= k <= candidates@.len(),
                checked@.len() == k,
                forall|j: int| 0 <= j < k ==> !#[trigger] checked@[j],
            decreases candidates@.len() - k,
        {
            checked.push(false);
            k = k + 1;
        }
        self.state = Some(GenerateState { kind, candidates, insert_at: plan.insert_at, checked });
        self.open = true;
        None
    }

    /// The fields listed, in the order they show.
    pub fn fields(&self) -> (r: Vec<String>)
        ensures
            r@.map_values(|f: String| f@) == match self.state {
                Some(st) => field_names(st.candidates@),
                None => Seq::empty(),
            },
    {
        let mut out: Vec<String> = Vec::new();
        match &self.state {
            Some(st) => {
                let mut i: usize = 0;
                while i < st.candidates.len()
                    invariant
                        0 <= i <= st.candidates@.len(),
                        out@.map_values(|f: String| f@) == field_names(st.candidates@.take(i as int)),
                    decreases st.candidates@.len() - i,
                {
                    let ghost before = out@;
                    out.push(st.candidates[i].field.clone());
                    proof {
                        assert(out@ =~= before.push(st.candidates@[i as int].field));
                        assert(field_names(st.candidates@.take(i + 1)) =~= field_names(
                            st.candidates@.take(i as int),
                        ).push(st.candidates@[i as int].field@));
                        assert(out@.map_values(|f: String| f@) =~= before.map_values(|f: String| f@).push(
                            st.candidates@[i as int].field@,
                        ));
                    }
                    i = i + 1;
                }
                proof {
                    assert(st.candidates@.take(st.candidates@.len() as int) =~= st.candidates@);
                }
            },
            None => {
                proof {
                    assert(out@.map_values(|f: String| f@) =~= Seq::<Seq<char>>::empty());
                }
            },
        }
        out
    }

    /// How many rows are checked.
    pub fn checked_count(&self) -> (r: usize)
        ensures
            r == match self.state {
                Some(st) => count_true(st.checked@),
                None => 0,
            },
    {
        match &self.state {
            Some(st) => {
                let mut n: usize = 0;
                let mut i: usize = 0;
                while i < st.checked.len()
                    invariant
                        0 <= i <= st.checked@.len(),
                        n == count_true(st.checked@.take(i as int)),
                        n <= i,
                    decreases st.checked@.len() - i,
                {
                    proof {
                        let t = st.checked@.take(i + 1);
                        assert(t.drop_last() =~= st.checked@.take(i as int));
                        assert(t.last() == st.checked@[i as int]);
                    }
                    if st.checked[i] {
                        n = n + 1;
                    }
                    i = i + 1;
                }
                proof {
                    assert(st.checked@.take(st.checked@.len() as int) =~= st.checked@);
                }
                n
            },
            None => 0,
        }
    }

    /// Checks row `row`, or unchecks it when it was checked; a row that is
    /// not there changes nothing.
    pub fn toggle_row(&mut self, row: usize)
        ensures
            final(self).open == old(self).open,
            final(self).pending_kind == old(self).pending_kind,
            final(self).pending_constructor == old(self).pending_constructor,
            match old(self).state {
                Some(st) => final(self).state matches Some(f) && f.kind == st.kind && f.candidates
                    == st.candidates && f.insert_at == st.insert_at && f.checked@ == if row
                    < st.checked@.len() {
                    st.checked@.update(row as int, !st.checked@[row as int])
                } else {
                    st.checked@
                },
                None => final(self).state is None,
            },
    {
        match &mut self.state {
            Some(st) => {
                if row < st.checked.len() {
                    let now = !st.checked[row];
                    st.checked.set(row, now);
                }
            },
            None => {},
        }
    }

    /// Closes the window and forgets what it showed.
    pub fn close(&mut self)
        ensures
            !final(self).open,
            final(self).state is None,
            final(self).pending_kind == old(self).pending_kind,
            final(self).pending_constructor == old(self).pending_constructor,
    {
        self.open = false;
        self.state = None;
    }

    /// Confirms: with `all`, every row goes in, whatever is checked. A
    /// constructor waits for the language to write it; an accessor is code
    /// ready to insert, or a message when no row with code was chosen.
    pub fn confirm(&mut self, all: bool) -> (r: GenerateOutcome)
        ensures
            confirm_spec(*old(self), *final(self), all, r),
    {
        let state = match self.state.take() {
            Some(s) => s,
            None => return GenerateOutcome::Idle,
        };
        self.open = false;
        let c = &state.candidates;
        let checked = &state.checked;
        if state.kind == AccessorKind::Constructor {
            let mut fields: Vec<String> = Vec::new();
            let mut i: usize = 0;
            while i < c.len()
                invariant
                    0 <= i <= c@.len(),
                    fields@.map_values(|f: String| f@) == chosen_fields(c@, checked@, all, i as int),
                decreases c@.len() - i,
            {
                let pick = all || (i < checked.len() && checked[i]);
                if pick {
                    let ghost before = fields@;
                    fields.push(c[i].field.clone());
                    proof {
                        assert(fields@.map_values(|f: String| f@) =~= before.map_values(|f: String| f@).push(
                            c@[i as int].field@,
                        ));
                    }
                }
                i = i + 1;
            }
            self.pending_constructor = Some((fields, state.insert_at));
            return GenerateOutcome::Idle;
        }
        let mut text = String::new();
        let mut count: usize = 0;
        let mut i: usize = 0;
        proof {
            assert(text@ =~= Seq::<char>::empty());
        }
        while i < c.len()
            invariant
                0 <= i <= c@.len(),
                (text@, count as nat) == chosen_code(c@, checked@, all, i as int),
                count <= i,
            decreases c@.len() - i,
        {
            let pick = all || (i < checked.len() && checked[i]);
            match &c[i].source {
                Some(s) => {
                    if pick {
                        push_str(&mut text, s.as_str());
                        count = count + 1;
                    }
                },
                None => {},
            }
            i = i + 1;
        }
        if text.as_str().is_empty() {
            proof {
                reveal_strlit("");
            }
            return GenerateOutcome::Message(string_of("Nenhum campo marcado"));
        }
        let word = match state.kind {
            AccessorKind::Getter => "getter",
            AccessorKind::Setter => "setter",
            _ => "acessor",
        };
        let mut message = String::new();
        push_decimal(&mut message, count);
        push_str(&mut message, " ");
        push_str(&mut message, word);
        push_str(&mut message, "(s) gerado(s)");
        proof {
            reveal_strlit("");
            assert(message@ =~= decimal(count as nat) + " "@ + kind_word(state.kind) + "(s) gerado(s)"@);
        }
        GenerateOutcome::Insert { text, line: state.insert_at.line, message }
    }
}

impl Default for GenerateSurface {
    fn default() -> (r: Self)
        ensures
            !r.open,
            r.state is None,
            r.pending_kind is None,
            r.pending_constructor is None,
    {
        GenerateSurface::new()
    }
}

} // verus!
