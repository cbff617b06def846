//! The editor split in two, side by side.
//!
//! The IDE says which documents each side shows and which side has the
//! keyboard. The pane in `pane` is always the one of the side with the
//! keyboard, and the split keeps the other: moving the keyboard swaps them,
//! so whoever writes "the pane" writes to the right one.
use vstd::prelude::*;
use crate::editor::{EditorCapabilities, EditorPane};

verus! {

/// The open documents, by identity, and the one in front.
#[derive(Debug)]
pub struct SessionTabs {
    pub documents: Vec<u64>,
    pub active: Option<u64>,
}

impl SessionTabs {
    /// Whether the document is open.
    pub fn has(&self, id: u64) -> (r: bool)
        ensures
            r == self.documents@.contains(id),
    {
        let mut i: usize = 0;
        while i < self.documents.len()
            invariant
                0 <= i <= self.documents@.len(),
                forall|k: int| 0 <= k < i ==> self.documents@[k] != id,
            decreases self.documents@.len() - i,
        {
            if self.documents[i] == id {
                return true;
            }
            i = i + 1;
        }
        false
    }

    /// Brings an open document to the front; false when it is not open.
    pub fn activate(&mut self, id: u64) -> (r: bool)
        ensures
            r == old(self).documents@.contains(id),
            final(self).documents == old(self).documents,
            final(self).active == if r {
                Some(id)
            } else {
                old(self).active
            },
    {
        if self.has(id) {
            self.active = Some(id);
            true
        } else {
            false
        }
    }
}

/// The right side: its tabs, the one it shows, the one the left showed,
/// the pane of the side without the keyboard, whether the right has the
/// keyboard, and on which side the last click inside the split was.
#[derive(Debug)]
pub struct Divisao {
    pub abas: Vec<u64>,
    pub ativa: u64,
    pub ativa_da_esquerda: u64,
    pub pane: EditorPane,
    pub focado: bool,
    pub clicado: bool,
}

/// The editor area: the pane with the keyboard, the split when there is
/// one, the open documents, and whether the keyboard is the editor's.
#[derive(Debug)]
pub struct EditorSplit {
    pub pane: EditorPane,
    pub divisao: Option<Divisao>,
    pub session: SessionTabs,
    pub editor_focused: bool,
}

/// A pane just made, with every capability.
pub open spec fn fresh_pane(p: EditorPane) -> bool {
    &&& p.capabilities.navigation && p.capabilities.breakpoint_gutter && p.capabilities.save
        && p.capabilities.context_menu
    &&& p.source is None
    &&& p.cursor == 0
    &&& p.selection is None
    &&& p.history@.len() == 0
    &&& p.multi is None
}

/// The session after `activate(id)`.
pub open spec fn activated(s: SessionTabs, id: u64) -> Option<u64> {
    if s.documents@.contains(id) {
        Some(id)
    } else {
        s.active
    }
}

/// `v` with `x` at the end when it was not there.
pub open spec fn with_tab(v: Seq<u64>, x: u64) -> Seq<u64> {
    if v.contains(x) {
        v
    } else {
        v.push(x)
    }
}

/// The keyboard moved to the right side, as `focar_a_direita` does it.
pub open spec fn focused_right(before: EditorSplit, after: EditorSplit) -> bool {
    match before.divisao {
        None => after == before,
        Some(d) => {
            &&& after.editor_focused
            &&& after.session.documents == before.session.documents
            &&& after.session.active == activated(before.session, d.ativa)
            &&& after.divisao matches Some(e) && {
                &&& e.abas == d.abas
                &&& e.ativa == d.ativa
                &&& e.clicado == d.clicado
                &&& e.focado
                &&& if d.focado {
                    &&& e.ativa_da_esquerda == d.ativa_da_esquerda
                    &&& e.pane == d.pane
                    &&& after.pane == before.pane
                } else {
                    &&& e.ativa_da_esquerda == match before.session.active {
                        Some(a) => a,
                        None => d.ativa_da_esquerda,
                    }
                    &&& e.pane == before.pane
                    &&& after.pane == d.pane
                }
            }
        },
    }
}

/// The keyboard moved to the left side, as `focar_a_esquerda` does it.
pub open spec fn focused_left(before: EditorSplit, after: EditorSplit) -> bool {
    match before.divisao {
        Some(d) if d.focado => {
            &&& after.editor_focused
            &&& after.session.documents == before.session.documents
            &&& after.session.active == activated(before.session, d.ativa_da_esquerda)
            &&& after.pane == d.pane
            &&& after.divisao matches Some(e) && {
                &&& e.abas == d.abas
                &&& e.ativa == match before.session.active {
                    Some(a) => a,
                    None => d.ativa,
                }
                &&& e.ativa_da_esquerda == d.ativa_da_esquerda
                &&& e.clicado == d.clicado
                &&& !e.focado
                &&& e.pane == before.pane
            }
        },
        _ => after == before,
    }
}

/// The split undone, as `desfazer_a_divisao` does it: the document the
/// left showed is in front again.
pub open spec fn undone_split(before: EditorSplit, after: EditorSplit) -> bool {
    match before.divisao {
        None => after == before,
        Some(d) => {
            &&& after.divisao is None
            &&& after.pane == before.pane
            &&& after.editor_focused == before.editor_focused
            &&& after.session.documents == before.session.documents
            &&& after.session.active == activated(before.session, d.ativa_da_esquerda)
        },
    }
}

/// `v` without `x`.
pub open spec fn without_tab(v: Seq<u64>, x: u64) -> Seq<u64>
    decreases v.len(),
{
    if v.len() == 0 {
        v
    } else if v.last() == x {
        without_tab(v.drop_last(), x)
    } else {
        without_tab(v.drop_last(), x).push(v.last())
    }
}

fn remove_tab(v: &mut Vec<u64>, x: u64)
    ensures
        final(v)@ == without_tab(old(v)@, x),
{
    let mut out: Vec<u64> = Vec::new();
    let mut i: usize = 0;
    while i < v.len()
        invariant
            0 <= i <= v@.len(),
            out@ == without_tab(v@.take(i as int), x),
        decreases v@.len() - i,
    {
        proof {
            assert(v@.take(i + 1).drop_last() =~= v@.take(i as int));
        }
        if v[i] != x {
            out.push(v[i]);
        }
        i = i + 1;
    }
    proof {
        assert(v@.take(v@.len() as int) =~= v@);
    }
    *v = out;
}


impl EditorSplit {
    /// Whether the area is split in two.
    pub fn is_split(&self) -> (r: bool)
        ensures
            r == self.divisao is Some,
    {
        self.divisao.is_some()
    }

    /// Whether the right side has the keyboard.
    pub fn split_focado(&self) -> (r: bool)
        ensures
            r == (self.divisao matches Some(d) && d.focado),
    {
        match &self.divisao {
            Some(d) => d.focado,
            None => false,
        }
    }

    /// Moves the keyboard to the right side, whose document comes to the
    /// front.
    pub fn focar_a_direita(&mut self)
        ensures
            focused_right(*old(self), *final(self)),
    {
        let ativo = self.session.active;
        let focado = match &self.divisao {
            Some(d) => d.focado,
            None => return,
        };
        let ativa = match &mut self.divisao {
            Some(d) => {
                if !focado {
                    d.ativa_da_esquerda = match ativo {
                        Some(a) => a,
                        None => d.ativa_da_esquerda,
                    };
                    std::mem::swap(&mut self.pane, &mut d.pane);
                    d.focado = true;
                }
                d.ativa
            },
            None => return,
        };
        let _ = self.session.activate(ativa);
        self.editor_focused = true;
    }

    /// Moves the keyboard to the left side, whose document comes to the
    /// front again.
    pub fn focar_a_esquerda(&mut self)
        ensures
            focused_left(*old(self), *final(self)),
    {
        let ativo = self.session.active;
        let esquerda = match &mut self.divisao {
            Some(d) => {
                if !d.focado {
                    return;
                }
                d.ativa = match ativo {
                    Some(a) => a,
                    None => d.ativa,
                };
                std::mem::swap(&mut self.pane, &mut d.pane);
                d.focado = false;
                d.ativa_da_esquerda
            },
            None => return,
        };
        let _ = self.session.activate(esquerda);
        self.editor_focused = true;
    }

    /// Undoes the split, giving the whole area back to the left.
    pub fn desfazer_a_divisao(&mut self)
        ensures
            undone_split(*old(self), *final(self)),
    {
        let d = match self.divisao.take() {
            Some(d) => d,
            None => return,
        };
        let _ = self.session.activate(d.ativa_da_esquerda);
    }

    /// Splits the area, the right side showing `documento`; the document
    /// stays on the left too (the two sides look at the same text). Split
    /// already, the tab joins the right side instead of a third column.
    pub fn dividir_a_direita(&mut self, documento: u64)
        ensures
            !old(self).session.documents@.contains(documento) ==> *final(self) == *old(self),
            old(self).session.documents@.contains(documento) ==> (final(self).divisao matches Some(e) && {
                &&& e.focado
                &&& e.ativa == documento
                &&& final(self).session.active == Some(documento)
                &&& final(self).editor_focused
                &&& match old(self).divisao {
                    Some(d) => e.abas@ == with_tab(d.abas@, documento) && e.clicado == d.clicado,
                    None => {
                        &&& e.abas@ == seq![documento]
                        &&& e.clicado
                        &&& e.ativa_da_esquerda == match old(self).session.active {
                            Some(a) => a,
                            None => documento,
                        }
                        &&& fresh_pane(final(self).pane)
                        &&& e.pane == old(self).pane
                    },
                }
            }),
    {
        if !self.session.has(documento) {
            return;
        }
        let esquerda = match self.session.active {
            Some(a) => a,
            None => documento,
        };
        let ghost before = *self;
        match &mut self.divisao {
            Some(d) => {
                let mut i: usize = 0;
                let mut found = false;
                while i < d.abas.len()
                    invariant
                        0 <= i <= d.abas@.len(),
                        found == (exists|k: int| 0 <= k < i && d.abas@[k] == documento),
                    decreases d.abas@.len() - i,
                {
                    if d.abas[i] == documento {
                        found = true;
                    }
                    i = i + 1;
                }
                if !found {
                    d.abas.push(documento);
                }
                d.ativa = documento;
            },
            None => {
                self.divisao = Some(
                    Divisao {
                        abas: vec![documento],
                        ativa: documento,
                        ativa_da_esquerda: esquerda,
                        pane: EditorPane::new(EditorCapabilities::full()),
                        focado: false,
                        clicado: true,
                    },
                );
            },
        }
        self.focar_a_direita();
    }

    /// Opens `documento` on the side where one is working, by the last click
    /// inside the split (the pointer crossing the left on its way to the
    /// Explorer does not mean leaving the right). On the right, it joins the
    /// right's tabs and gets the keyboard, and the answer is true; on the
    /// left, the keyboard goes left with it, the right keeps showing what it
    /// showed, and the answer is false, as it is without a split.
    pub fn abrir_no_split(&mut self, documento: u64) -> (r: bool)
        ensures
            match old(self).divisao {
                None => !r && *final(self) == *old(self),
                Some(d) => if !d.clicado {
                    &&& !r
                    &&& final(self).editor_focused == (d.focado || old(self).editor_focused)
                    &&& final(self).session.documents == old(self).session.documents
                    &&& final(self).session.active == activated(
                        SessionTabs {
                            documents: old(self).session.documents,
                            active: if d.focado {
                                activated(old(self).session, d.ativa_da_esquerda)
                            } else {
                                old(self).session.active
                            },
                        },
                        documento,
                    )
                    &&& final(self).pane == if d.focado {
                        d.pane
                    } else {
                        old(self).pane
                    }
                    &&& final(self).divisao matches Some(e) && e.abas == d.abas && e.ativa == d.ativa
                        && e.ativa_da_esquerda == documento && !e.focado && e.clicado == d.clicado
                        && e.pane == if d.focado {
                        old(self).pane
                    } else {
                        d.pane
                    }
                } else {
                    &&& r
                    &&& final(self).editor_focused
                    &&& final(self).session.documents == old(self).session.documents
                    &&& final(self).session.active == activated(old(self).session, documento)
                    &&& final(self).divisao matches Some(e) && e.abas@ == with_tab(d.abas@, documento)
                        && e.ativa == documento && e.ativa_da_esquerda == d.ativa_da_esquerda && e.focado
                        && e.clicado
                    &&& (final(self).divisao matches Some(e) && if d.focado {
                        e.pane.cursor == 0 && e.pane.selection is None && final(self).pane == old(self).pane
                    } else {
                        e.pane.cursor == 0 && e.pane.selection is None && final(self).pane == d.pane
                    })
                },
            },
    {
        let (clicado, direita, esquerda) = match &self.divisao {
            Some(d) => (d.clicado, d.ativa, d.ativa_da_esquerda),
            None => return false,
        };
        if !clicado {
            self.focar_a_esquerda();
            match &mut self.divisao {
                Some(d) => {
                    d.ativa = direita;
                    d.ativa_da_esquerda = documento;
                },
                None => {},
            }
            let _ = self.session.activate(documento);
            return false;
        }
        match &mut self.divisao {
            Some(d) => {
                let mut i: usize = 0;
                let mut found = false;
                while i < d.abas.len()
                    invariant
                        0 <= i <= d.abas@.len(),
                        found == (exists|k: int| 0 <= k < i && d.abas@[k] == documento),
                    decreases d.abas@.len() - i,
                {
                    if d.abas[i] == documento {
                        found = true;
                    }
                    i = i + 1;
                }
                if !found {
                    d.abas.push(documento);
                }
                d.ativa = documento;
            },
            None => {},
        }
        self.focar_a_direita();
        match &mut self.divisao {
            Some(d) => {
                d.ativa_da_esquerda = esquerda;
                d.pane.set_cursor(0);
            },
            None => {},
        }
        true
    }

    /// A tab of the right side was chosen: the right shows it, from the
    /// top, and gets the keyboard.
    pub fn split_tab_selected(&mut self, tab: u64)
        ensures
            match old(self).divisao {
                None => *final(self) == *old(self),
                Some(d) => {
                    &&& final(self).editor_focused
                    &&& final(self).session.active == activated(
                        SessionTabs { documents: old(self).session.documents, active: old(self).session.active },
                        tab,
                    )
                    &&& final(self).divisao matches Some(e) && e.ativa == tab && e.abas == d.abas && e.focado
                },
            },
    {
        match &mut self.divisao {
            Some(d) => {
                d.ativa = tab;
                d.pane.set_cursor(0);
            },
            None => return,
        }
        self.focar_a_direita();
    }

    /// A tab of the right side was closed: the first left takes its place
    /// and gets the keyboard; with none left there is no right side, and
    /// the split is undone instead of leaving half of it empty.
    pub fn split_tab_closed(&mut self, tab: u64)
        ensures
            match old(self).divisao {
                None => *final(self) == *old(self),
                Some(d) => {
                    let rest = without_tab(d.abas@, tab);
                    if rest.len() == 0 {
                        &&& final(self).divisao is None
                        &&& final(self).session.active == activated(old(self).session, d.ativa_da_esquerda)
                    } else {
                        &&& final(self).editor_focused
                        &&& final(self).session.active == activated(old(self).session, rest[0])
                        &&& final(self).divisao matches Some(e) && e.ativa == rest[0] && e.abas@ == rest
                            && e.focado
                    }
                },
            },
    {
        let first = match &mut self.divisao {
            Some(d) => {
                remove_tab(&mut d.abas, tab);
                if d.abas.len() > 0 {
                    d.ativa = d.abas[0];
                    true
                } else {
                    false
                }
            },
            None => return,
        };
        if first {
            self.focar_a_direita();
        } else {
            self.desfazer_a_divisao();
        }
    }

    /// Forgets on both sides a document that was closed: the right loses
    /// the tab (and, showing it, shows its first tab, or the split is
    /// undone when none is left); the left, when it showed it, shows what
    /// is in front now.
    pub fn split_forget(&mut self, documento: u64)
        ensures
            final(self).pane == old(self).pane,
            final(self).editor_focused == old(self).editor_focused,
            match old(self).divisao {
                None => *final(self) == *old(self),
                Some(d) => {
                    let rest = without_tab(d.abas@, documento);
                    if d.ativa == documento && rest.len() == 0 {
                        &&& final(self).divisao is None
                        &&& final(self).session.active == activated(old(self).session, d.ativa_da_esquerda)
                    } else {
                        &&& final(self).session == old(self).session
                        &&& final(self).divisao matches Some(e) && {
                            &&& e.abas@ == rest
                            &&& e.ativa == if d.ativa == documento {
                                rest[0]
                            } else {
                                d.ativa
                            }
                            &&& e.ativa_da_esquerda == if d.ativa_da_esquerda == documento
                                && old(self).session.active is Some {
                                old(self).session.active->0
                            } else {
                                d.ativa_da_esquerda
                            }
                            &&& e.pane == d.pane
                            &&& e.focado == d.focado
                            &&& e.clicado == d.clicado
                        }
                    }
                },
            },
    {
        let sobrou = self.session.active;
        let undo = match &mut self.divisao {
            Some(d) => {
                remove_tab(&mut d.abas, documento);
                if d.ativa == documento {
                    if d.abas.len() > 0 {
                        d.ativa = d.abas[0];
                        false
                    } else {
                        true
                    }
                } else {
                    false
                }
            },
            None => return,
        };
        if undo {
            self.desfazer_a_divisao();
            return;
        }
        match &mut self.divisao {
            Some(d) => {
                if d.ativa_da_esquerda == documento {
                    if let Some(id) = sobrou {
                        d.ativa_da_esquerda = id;
                    }
                }
            },
            None => {},
        }
    }

    /// Records on which side the last click inside the split was.
    pub fn marcar_clique(&mut self, na_direita: bool)
        ensures
            final(self).pane == old(self).pane,
            final(self).session == old(self).session,
            final(self).editor_focused == old(self).editor_focused,
            match old(self).divisao {
                Some(d) => final(self).divisao matches Some(e) && e.clicado == na_direita && e.abas == d.abas
                    && e.ativa == d.ativa && e.ativa_da_esquerda == d.ativa_da_esquerda && e.pane == d.pane
                    && e.focado == d.focado,
                None => final(self).divisao is None,
            },
    {
        match &mut self.divisao {
            Some(d) => {
                d.clicado = na_direita;
            },
            None => {},
        }
    }

    /// The document the left side shows: the one it keeps while the right
    /// has the keyboard, else the one in front.
    pub fn left_active_document(&self) -> (r: Option<u64>)
        ensures
            r == match self.divisao {
                Some(d) => if d.focado {
                    Some(d.ativa_da_esquerda)
                } else {
                    self.session.active
                },
                None => self.session.active,
            },
    {
        match &self.divisao {
            Some(d) => {
                if d.focado {
                    Some(d.ativa_da_esquerda)
                } else {
                    self.session.active
                }
            },
            None => self.session.active,
        }
    }

    /// The document of the side without the keyboard.
    pub fn other_document(&self) -> (r: Option<u64>)
        ensures
            r == match self.divisao {
                Some(d) => Some(
                    if d.focado {
                        d.ativa_da_esquerda
                    } else {
                        d.ativa
                    },
                ),
                None => None,
            },
    {
        match &self.divisao {
            Some(d) => Some(
                if d.focado {
                    d.ativa_da_esquerda
                } else {
                    d.ativa
                },
            ),
            None => None,
        }
    }
}

/// Moving the keyboard to the right and back gives each side its own pane
/// again: the swap that keeps the pane with the keyboard in `pane` never
/// mixes the two sides up.
pub proof fn law_right_and_back_keeps_each_pane(a: EditorSplit, b: EditorSplit, c: EditorSplit)
    requires
        a.divisao matches Some(d) && !d.focado,
        focused_right(a, b),
        focused_left(b, c),
    ensures
        c.pane == a.pane,
        c.divisao matches Some(e) && e.pane == a.divisao->0.pane && !e.focado && e.abas == a.divisao->0.abas,
{
}

} // verus!
