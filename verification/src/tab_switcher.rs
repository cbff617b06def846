//! Switching tabs with `Ctrl+Tab`.
//!
//! While `Ctrl` is held the window stays open and each `Tab` goes one item
//! down; releasing `Ctrl` activates the highlighted tab and closes. It is the
//! one gesture where releasing a modifier concludes something.
use vstd::prelude::*;
use crate::fmt::{push_str, string_of};
use crate::paths::{file_name, file_name_of, parent, parent_of, strip_prefix, stripped_of};

verus! {

/// How many rows fit in the panel; the rest scrolls with the highlight.
pub const VISIBLE_ROWS: usize = 10;

/// An open tab, as the window needs to know it.
#[derive(Debug)]
pub struct AbaAberta {
    /// The identity of the document, which is what activates the tab.
    pub documento: u64,
    pub caminho: String,
}

/// The window: the tabs it lists, the highlighted row (counted over the
/// whole list), the first visible row, and the project root that shortens
/// each path.
#[derive(Debug)]
pub struct TabSwitcherSurface {
    pub open: bool,
    pub abas: Vec<AbaAberta>,
    pub selected: usize,
    pub first_visible: usize,
    pub raiz: String,
}

/// The first visible row after bringing `selected` into view from `first`,
/// over `len` rows.
pub open spec fn revealed(selected: int, first: int, len: int) -> int {
    let f = if selected < first {
        selected
    } else if selected >= first + VISIBLE_ROWS {
        selected + 1 - VISIBLE_ROWS
    } else {
        first
    };
    let top = if len >= VISIBLE_ROWS {
        len - VISIBLE_ROWS
    } else {
        0
    };
    if f <= top {
        f
    } else {
        top
    }
}

/// The label of a tab: its file name and, when there is one, its folder,
/// below the project root when the root begins it.
pub open spec fn tab_label(caminho: Seq<char>, raiz: Seq<char>) -> Seq<char> {
    let nome = match file_name_of(caminho) {
        Some(n) => n,
        None => "?"@,
    };
    let pasta = match parent_of(caminho) {
        Some(p) => match stripped_of(p, raiz) {
            Some(r) => r,
            None => p,
        },
        None => Seq::empty(),
    };
    if pasta.len() == 0 {
        nome
    } else {
        nome + "  —  "@ + pasta
    }
}

impl TabSwitcherSurface {
    /// Open with at least two tabs and the highlight on one of them, always
    /// in view; closed with nothing listed.
    pub open spec fn wf(&self) -> bool {
        if self.open {
            &&& self.abas@.len() >= 2
            &&& self.selected < self.abas@.len()
            &&& self.first_visible <= self.selected < self.first_visible + VISIBLE_ROWS
            &&& self.first_visible + VISIBLE_ROWS <= self.abas@.len() || self.first_visible == 0
        } else {
            &&& self.abas@.len() == 0
            &&& self.selected == 0
            &&& self.first_visible == 0
        }
    }

    /// A closed window.
    pub fn new() -> (r: Self)
        ensures
            r.wf(),
            !r.open,
    {
        TabSwitcherSurface { open: false, abas: Vec::new(), selected: 0, first_visible: 0, raiz: String::new() }
    }

    pub fn is_open(&self) -> (r: bool)
        ensures
            r == self.open,
    {
        self.open
    }

    fn reveal_selection(&mut self)
        requires
            old(self).selected < old(self).abas@.len(),
            old(self).first_visible <= old(self).abas@.len(),
        ensures
            final(self).first_visible == revealed(
                old(self).selected as int,
                old(self).first_visible as int,
                old(self).abas@.len() as int,
            ),
            final(self).selected == old(self).selected,
            final(self).abas == old(self).abas,
            final(self).open == old(self).open,
            final(self).raiz == old(self).raiz,
    {
        if self.selected < self.first_visible {
            self.first_visible = self.selected;
        } else if self.selected - self.first_visible >= VISIBLE_ROWS {
            self.first_visible = self.selected - (VISIBLE_ROWS - 1);
        }
        let top = if self.abas.len() >= VISIBLE_ROWS {
            self.abas.len() - VISIBLE_ROWS
        } else {
            0
        };
        if self.first_visible > top {
            self.first_visible = top;
        }
    }

    /// Opens with the tab after the active one highlighted, so that the
    /// shortest gesture, one `Ctrl+Tab`, goes somewhere. With fewer than two
    /// tabs there is nowhere to go, and the window stays as it was.
    pub fn open(&mut self, abas: Vec<AbaAberta>, ativa: Option<usize>, raiz: &str)
        requires
            old(self).wf(),
            ativa matches Some(i) ==> i < usize::MAX,
        ensures
            final(self).wf(),
            abas@.len() < 2 ==> *final(self) == *old(self),
            abas@.len() >= 2 ==> {
                &&& final(self).open
                &&& final(self).abas@ == abas@
                &&& final(self).raiz@ == raiz@
                &&& final(self).selected == match ativa {
                    Some(i) => (i + 1) % (abas@.len() as int),
                    None => 0,
                }
                &&& final(self).first_visible == revealed(final(self).selected as int, 0, abas@.len() as int)
            },
    {
        if abas.len() < 2 {
            return;
        }
        self.selected = match ativa {
            Some(i) => (i + 1) % abas.len(),
            None => 0,
        };
        self.abas = abas;
        self.raiz = string_of(raiz);
        self.first_visible = 0;
        self.reveal_selection();
        self.open = true;
    }

    /// One more `Tab` with `Ctrl` held: one row down, and from the last back
    /// to the top.
    pub fn advance(&mut self)
        requires
            old(self).wf(),
        ensures
            final(self).wf(),
            final(self).open == old(self).open,
            final(self).abas == old(self).abas,
            old(self).open ==> final(self).selected == (old(self).selected + 1) % (old(self).abas@.len() as int)
                && final(self).first_visible == revealed(
                final(self).selected as int,
                old(self).first_visible as int,
                old(self).abas@.len() as int,
            ),
            !old(self).open ==> *final(self) == *old(self),
    {
        if self.abas.len() == 0 {
            return;
        }
        self.selected = (self.selected + 1) % self.abas.len();
        self.reveal_selection();
    }

    /// Closes and forgets the tabs.
    pub fn close(&mut self)
        ensures
            final(self).wf(),
            !final(self).open,
            final(self).raiz == old(self).raiz,
    {
        self.open = false;
        self.abas.clear();
        self.selected = 0;
        self.first_visible = 0;
    }

    /// `Ctrl` was released: the highlighted tab is the one chosen, and the
    /// window goes. Nothing is chosen when it was not open, so whoever calls
    /// may always ask.
    pub fn commit(&mut self) -> (r: Option<u64>)
        requires
            old(self).wf(),
        ensures
            final(self).wf(),
            !final(self).open,
            old(self).open ==> r == Some(old(self).abas@[old(self).selected as int].documento),
            !old(self).open ==> r is None && *final(self) == *old(self),
    {
        if !self.open {
            return None;
        }
        let escolhida = self.abas[self.selected].documento;
        self.close();
        Some(escolhida)
    }

    /// A click on row `row` of the list, counted from the first visible:
    /// it chooses that tab and concludes, as releasing `Ctrl` would; a row
    /// past the list chooses nothing.
    pub fn choose_row(&mut self, row: usize) -> (r: Option<u64>)
        requires
            old(self).wf(),
        ensures
            final(self).wf(),
            ({
                let line = old(self).first_visible + row;
                if old(self).open && line < old(self).abas@.len() {
                    r == Some(old(self).abas@[line].documento) && !final(self).open
                } else {
                    r is None && *final(self) == *old(self)
                }
            }),
    {
        if !self.open || row >= self.abas.len() || self.first_visible >= self.abas.len() - row {
            return None;
        }
        let escolhida = self.abas[self.first_visible + row].documento;
        self.close();
        Some(escolhida)
    }

    /// The visible rows: the name of each file and where it is.
    pub fn labels(&self) -> (r: Vec<String>)
        requires
            self.wf(),
        ensures
            ({
                let n = self.abas@.len() as int;
                let end = if self.first_visible + VISIBLE_ROWS < n {
                    self.first_visible + VISIBLE_ROWS
                } else {
                    n
                };
                &&& r@.len() == end - self.first_visible
                &&& forall|i: int|
                    0 <= i < r@.len() ==> (#[trigger] r@[i])@ == tab_label(
                        self.abas@[self.first_visible + i].caminho@,
                        self.raiz@,
                    )
            }),
    {
        let mut r: Vec<String> = Vec::new();
        let n = self.abas.len();
        let fv = self.first_visible;
        let end = if VISIBLE_ROWS < n - fv {
            fv + VISIBLE_ROWS
        } else {
            n
        };
        let mut i: usize = fv;
        while i < end
            invariant
                fv == self.first_visible,
                fv <= i <= end <= n,
                n == self.abas@.len(),
                end == (if fv + VISIBLE_ROWS < n {
                    fv + VISIBLE_ROWS
                } else {
                    n as int
                }),
                r@.len() == i - fv,
                forall|k: int|
                    0 <= k < r@.len() ==> (#[trigger] r@[k])@ == tab_label(
                        self.abas@[fv + k].caminho@,
                        self.raiz@,
                    ),
            decreases end - i,
        {
            let caminho = self.abas[i].caminho.as_str();
            let nome = match file_name(caminho) {
                Some(n) => n,
                None => string_of("?"),
            };
            let pasta = match parent(caminho) {
                Some(p) => match strip_prefix(p.as_str(), self.raiz.as_str()) {
                    Some(rest) => rest,
                    None => p,
                },
                None => String::new(),
            };
            proof {
                reveal_strlit("?");
                reveal_strlit("");
            }
            let label = if pasta.as_str().is_empty() {
                nome
            } else {
                let mut s = nome;
                push_str(&mut s, "  —  ");
                push_str(&mut s, pasta.as_str());
                s
            };
            proof {
                assert(label@ == tab_label(self.abas@[i as int].caminho@, self.raiz@));
            }
            r.push(label);
            i = i + 1;
        }
        r
    }

    /// The highlighted row and the first visible one.
    pub fn scroll_state(&self) -> (r: (usize, usize))
        ensures
            r == (self.selected, self.first_visible),
    {
        (self.selected, self.first_visible)
    }
}

impl Default for TabSwitcherSurface {
    fn default() -> (r: Self)
        ensures
            r.wf(),
            !r.open,
    {
        TabSwitcherSurface::new()
    }
}

/// The highlight after `k` more `Tab`s from row `s` among `n`.
pub open spec fn advanced(s: int, n: int, k: nat) -> int
    decreases k,
{
    if k == 0 {
        s
    } else {
        (advanced(s, n, (k - 1) as nat) + 1) % n
    }
}

proof fn lemma_advanced(s: int, n: int, k: nat)
    requires
        0 <= s < n,
    ensures
        advanced(s, n, k) == (s + k) % n,
    decreases k,
{
    if k > 0 {
        lemma_advanced(s, n, (k - 1) as nat);
        vstd::arithmetic::div_mod::lemma_add_mod_noop_right(1, s + k - 1, n);
    } else {
        vstd::arithmetic::div_mod::lemma_small_mod(s as nat, n as nat);
    }
}

/// As many `Tab`s as there are tabs bring the highlight back where it was:
/// the list goes round.
pub proof fn law_the_list_goes_round(s: int, n: int)
    requires
        0 <= s < n,
    ensures
        advanced(s, n, n as nat) == s,
{
    lemma_advanced(s, n, n as nat);
    vstd::arithmetic::div_mod::lemma_mod_add_multiples_vanish(s, n);
    vstd::arithmetic::div_mod::lemma_small_mod(s as nat, n as nat);
}

} // verus!
