//! What the Git window knows of the repository, and what it decides with it.
//!
//! The window does not talk to Git: it receives a `GitView` ready and shows
//! it. The decisions here are the ones over that snapshot and over what the
//! user types into the window's three boxes.
use vstd::prelude::*;
use crate::chars::{chars_of, is_control, is_control_char, push_char};
use crate::fmt::{decimal, push_decimal, push_str, str_eq, string_of};
use crate::inspection::{trim, trimmed};

verus! {

/// In which panel a file appears.
#[derive(Clone, Copy, Debug, Eq, PartialEq, Structural)]
pub enum GitFileState {
    Staged,
    Modified,
    Untracked,
    Conflicted,
}

/// A changed file, as its row shows it.
#[derive(Clone, Debug, Eq, PartialEq)]
pub struct GitEntry {
    /// The whole path, which is what the action carries.
    pub path: String,
    /// The path relative to the root, which is what the row reads.
    pub label: String,
    pub state: GitFileState,
}

/// A commit, as the history table shows it.
#[derive(Clone, Debug, Default, Eq, PartialEq)]
pub struct CommitRow {
    pub hash: String,
    pub summary: String,
    pub author: String,
    pub date: String,
    pub lane: usize,
    pub lanes: usize,
    pub passing: Vec<usize>,
    pub parents: Vec<usize>,
}

/// What the editor margin shows on a line.
#[derive(Clone, Copy, Debug, Eq, PartialEq)]
pub enum GitLineChange {
    Added,
    Modified,
    Removed,
}

/// A branch, as the window shows it.
#[derive(Clone, Debug, Default, Eq, PartialEq)]
pub struct BranchItem {
    pub name: String,
    /// Whether `HEAD` points to it.
    pub current: bool,
    /// Commits ahead of and behind the upstream, as last fetched.
    pub ahead: usize,
    pub behind: usize,
}

/// What the window knows of the repository.
#[derive(Clone, Debug, Default, Eq, PartialEq)]
pub struct GitView {
    pub head: Option<String>,
    pub changed: usize,
    pub staged: usize,
    pub modified: usize,
    pub untracked: usize,
    pub branches: Vec<BranchItem>,
    pub entries: Vec<GitEntry>,
    pub commits: Vec<CommitRow>,
    pub tags: Vec<String>,
    pub stashes: Vec<String>,
    pub remotes: Vec<String>,
    pub pending: Option<String>,
    pub message: Option<String>,
}

/// The status bar segment: the head label, followed by ` ~` and the count of
/// changed files when there are some.
pub open spec fn status_segment_spec(view: GitView) -> Option<Seq<char>> {
    match view.head {
        None => None,
        Some(head) => Some(
            if view.changed == 0 {
                head@
            } else {
                head@ + " ~"@ + decimal(view.changed as nat)
            },
        ),
    }
}

impl GitView {
    /// Whether there is a repository to show.
    pub fn has_repository(&self) -> (r: bool)
        ensures
            r == self.head is Some,
    {
        self.head.is_some()
    }

    /// What the status bar shows, when there is something to show.
    pub fn status_segment(&self) -> (r: Option<String>)
        ensures
            match status_segment_spec(*self) {
                None => r is None,
                Some(s) => r matches Some(t) && t@ == s,
            },
    {
        let head = match &self.head {
            Some(h) => h,
            None => return None,
        };
        let mut s = string_of(head.as_str());
        if self.changed != 0 {
            push_str(&mut s, " ~");
            push_decimal(&mut s, self.changed);
        }
        Some(s)
    }
}

/// What a row of a panel offers to do.
#[derive(Clone, Copy, Debug, Eq, PartialEq, Structural)]
pub enum Acao {
    Preparar,
    Despreparar,
    Descartar,
}

impl Acao {
    /// The button's label.
    pub fn rotulo(self) -> (r: &'static str)
        ensures
            r@ == match self {
                Acao::Preparar => "Preparar"@,
                Acao::Despreparar => "Despreparar"@,
                Acao::Descartar => "Descartar"@,
            },
    {
        match self {
            Acao::Preparar => "Preparar",
            Acao::Despreparar => "Despreparar",
            Acao::Descartar => "Descartar",
        }
    }

    /// The command the button sends.
    pub fn comando(self) -> (r: &'static str)
        ensures
            r@ == match self {
                Acao::Preparar => "git.stage"@,
                Acao::Despreparar => "git.unstage"@,
                Acao::Descartar => "git.discard"@,
            },
    {
        match self {
            Acao::Preparar => "git.stage",
            Acao::Despreparar => "git.unstage",
            Acao::Descartar => "git.discard",
        }
    }
}

/// What each panel offers. An untracked file is never discarded: that would
/// delete it from disk with nowhere to bring it back from.
pub open spec fn acoes_spec(estado: GitFileState) -> Seq<Acao> {
    match estado {
        GitFileState::Staged => seq![Acao::Despreparar],
        GitFileState::Modified => seq![Acao::Preparar, Acao::Descartar],
        GitFileState::Conflicted => seq![Acao::Preparar, Acao::Descartar],
        GitFileState::Untracked => seq![Acao::Preparar],
    }
}

/// What each panel offers to do with its rows.
pub fn acoes_de(estado: GitFileState) -> (r: Vec<Acao>)
    ensures
        r@ == acoes_spec(estado),
{
    match estado {
        GitFileState::Staged => {
            let mut v = Vec::new();
            v.push(Acao::Despreparar);
            v
        },
        GitFileState::Modified | GitFileState::Conflicted => {
            let mut v = Vec::new();
            v.push(Acao::Preparar);
            v.push(Acao::Descartar);
            v
        },
        GitFileState::Untracked => {
            let mut v = Vec::new();
            v.push(Acao::Preparar);
            v
        },
    }
}

/// The title of a panel.
pub fn nome_do_estado(estado: GitFileState) -> (r: &'static str)
    ensures
        r@ == match estado {
            GitFileState::Staged => "Preparados"@,
            GitFileState::Modified => "Alterados"@,
            GitFileState::Untracked => "Não rastreados"@,
            GitFileState::Conflicted => "Em conflito"@,
        },
{
    match estado {
        GitFileState::Staged => "Preparados",
        GitFileState::Modified => "Alterados",
        GitFileState::Untracked => "Não rastreados",
        GitFileState::Conflicted => "Em conflito",
    }
}

/// The lower-case form that std gives a string (`str::to_lowercase`), a
/// function of its characters; the Unicode mapping itself is not stated.
pub uninterp spec fn lowercase(s: Seq<char>) -> Seq<char>;

/// Calls `str::to_lowercase`.
///
/// Claims only that the result is a function of the characters, named
/// `lowercase`; the case mapping is std's Unicode table and is not restated.
#[verifier::external_body]
pub(crate) fn to_lowercase(s: &str) -> (r: String)
    ensures
        r@ == lowercase(s@),
{
    s.to_lowercase()
}

/// `needle` occurs in `hay` as a contiguous piece (always, when empty).
pub open spec fn occurs_in(hay: Seq<char>, needle: Seq<char>) -> bool {
    exists|i: int| 0 <= i <= hay.len() - needle.len() && #[trigger] hay.subrange(i, i + needle.len())
        == needle
}

/// `str::contains` with a string pattern.
pub fn contains_text(hay: &str, needle: &str) -> (r: bool)
    ensures
        r == occurs_in(hay@, needle@),
{
    let h = chars_of(hay);
    let n = chars_of(needle);
    if n.len() > h.len() {
        return false;
    }
    let hl = h.len();
    let mut i: usize = 0;
    while i <= hl - n.len()
        invariant
            hl == h@.len(),
            h@ == hay@,
            n@ == needle@,
            n@.len() <= h@.len(),
            0 <= i <= h@.len() - n@.len() + 1,
            forall|k: int| 0 <= k < i ==> #[trigger] h@.subrange(k, k + n@.len()) != n@,
        decreases h@.len() - n@.len() + 1 - i,
    {
        let mut j: usize = 0;
        while j < n.len() && h[i + j] == n[j]
            invariant
                hl == h@.len(),
                h@ == hay@,
                n@ == needle@,
                n@.len() <= h@.len(),
                0 <= i <= h@.len() - n@.len(),
                0 <= j <= n@.len(),
                forall|x: int| 0 <= x < j ==> h@[i + x] == n@[x],
            decreases n@.len() - j,
        {
            j = j + 1;
        }
        if j == n.len() {
            proof {
                assert(h@.subrange(i as int, i + n@.len()) =~= n@);
            }
            return true;
        }
        proof {
            assert(h@.subrange(i as int, i + n@.len())[j as int] != n@[j as int]);
        }
        i = i + 1;
    }
    proof {
        assert forall|k: int| 0 <= k <= hay@.len() - needle@.len() implies #[trigger] hay@.subrange(
            k,
            k + needle@.len(),
        ) != needle@ by {
            assert(k < i);
        }
    }
    false
}

/// A branch passes the search when the search is empty or its lower-case name
/// holds the lower-case search.
pub open spec fn matches_search(name: Seq<char>, search: Seq<char>) -> bool {
    lowercase(search).len() == 0 || occurs_in(lowercase(name), lowercase(search))
}

/// The side of the window in front.
#[derive(Clone, Copy, Debug, Eq, PartialEq, Structural)]
pub enum Aba {
    Status,
    History,
}

/// The Git window: the snapshot it shows and the three boxes it takes text in.
pub struct GitSurface {
    pub open: bool,
    pub view: GitView,
    /// The commit message being written.
    pub mensagem: String,
    /// The name being written for a new branch.
    pub nome_novo: String,
    /// Whether the cursor is in the new branch box.
    pub nomeando: bool,
    /// Whether the cursor is in the commit message box.
    pub escrevendo: bool,
    pub aba: Aba,
    /// The branch search.
    pub busca: String,
}

impl GitSurface {
    pub fn new() -> (s: Self)
        ensures
            !s.open,
            s.mensagem@.len() == 0,
            s.nome_novo@.len() == 0,
            s.busca@.len() == 0,
            !s.nomeando,
            !s.escrevendo,
            s.aba == Aba::Status,
            s.view.head is None,
    {
        GitSurface {
            open: false,
            view: GitView {
                head: None,
                changed: 0,
                staged: 0,
                modified: 0,
                untracked: 0,
                branches: Vec::new(),
                entries: Vec::new(),
                commits: Vec::new(),
                tags: Vec::new(),
                stashes: Vec::new(),
                remotes: Vec::new(),
                pending: None,
                message: None,
            },
            mensagem: String::new(),
            nome_novo: String::new(),
            nomeando: false,
            escrevendo: false,
            aba: Aba::Status,
            busca: String::new(),
        }
    }

    pub fn is_open(&self) -> (r: bool)
        ensures
            r == self.open,
    {
        self.open
    }

    /// Opens the window, or closes it when it was open; opening clears the
    /// search.
    pub fn toggle(&mut self)
        ensures
            final(self).open == !old(self).open,
            old(self).open ==> final(self).busca == old(self).busca,
            !old(self).open ==> final(self).busca@.len() == 0,
            final(self).view == old(self).view,
            final(self).mensagem == old(self).mensagem,
            final(self).nome_novo == old(self).nome_novo,
    {
        if self.open {
            self.close();
            return ;
        }
        self.busca = String::new();
        self.open = true;
    }

    pub fn close(&mut self)
        ensures
            !final(self).open,
            final(self).busca == old(self).busca,
            final(self).view == old(self).view,
            final(self).mensagem == old(self).mensagem,
            final(self).nome_novo == old(self).nome_novo,
    {
        self.open = false;
    }

    /// Receives the snapshot of the repository.
    pub fn set_view(&mut self, view: GitView)
        ensures
            final(self).view == view,
            final(self).open == old(self).open,
            final(self).busca == old(self).busca,
            final(self).mensagem == old(self).mensagem,
    {
        self.view = view;
    }

    pub fn mensagem(&self) -> (r: &str)
        ensures
            r@ == self.mensagem@,
    {
        self.mensagem.as_str()
    }

    pub fn limpar_mensagem(&mut self)
        ensures
            final(self).mensagem@.len() == 0,
            final(self).busca == old(self).busca,
            final(self).nome_novo == old(self).nome_novo,
            final(self).view == old(self).view,
    {
        self.mensagem = String::new();
    }

    pub fn view(&self) -> (r: &GitView)
        ensures
            *r == self.view,
    {
        &self.view
    }

    pub fn query(&self) -> (r: &str)
        ensures
            r@ == self.busca@,
    {
        self.busca.as_str()
    }

    pub fn nome_novo(&self) -> (r: &str)
        ensures
            r@ == self.nome_novo@,
    {
        self.nome_novo.as_str()
    }

    /// Typing in the window: the box that has the cursor takes the text; text
    /// with a control character is ignored.
    pub fn text_input(&mut self, texto: &str)
        ensures
            (exists|i: int| 0 <= i < texto@.len() && is_control_char(#[trigger] texto@[i])) ==> (
            final(self).mensagem == old(self).mensagem && final(self).nome_novo == old(self).nome_novo && final(self).busca == old(self).busca),
            !(exists|i: int| 0 <= i < texto@.len() && is_control_char(#[trigger] texto@[i])) ==> {
                if old(self).escrevendo {
                    final(self).mensagem@ == old(self).mensagem@ + texto@ && final(self).nome_novo
                        == old(self).nome_novo && final(self).busca == old(self).busca
                } else if old(self).nomeando {
                    final(self).nome_novo@ == old(self).nome_novo@ + texto@ && final(self).mensagem == old(self).mensagem && final(self).busca == old(self).busca
                } else {
                    final(self).busca@ == old(self).busca@ + texto@ && final(self).mensagem == old(self).mensagem && final(self).nome_novo == old(self).nome_novo
                }
            },
            final(self).escrevendo == old(self).escrevendo,
            final(self).nomeando == old(self).nomeando,
            final(self).view == old(self).view,
            final(self).open == old(self).open,
    {
        let cs = chars_of(texto);
        let mut i: usize = 0;
        while i < cs.len()
            invariant
                cs@ == texto@,
                0 <= i <= cs@.len(),
                forall|k: int| 0 <= k < i ==> !is_control_char(#[trigger] cs@[k]),
            decreases cs@.len() - i,
        {
            if is_control(cs[i]) {
                return ;
            }
            i = i + 1;
        }
        if self.escrevendo {
            push_str(&mut self.mensagem, texto);
            return ;
        }
        if self.nomeando {
            push_str(&mut self.nome_novo, texto);
            return ;
        }
        push_str(&mut self.busca, texto);
    }

    /// A key in the window; `true` when it belonged here.
    pub fn key(&mut self, key: &str) -> (r: bool)
        ensures
            final(self).view == old(self).view,
            final(self).escrevendo == old(self).escrevendo,
            final(self).nomeando == old(self).nomeando,
            old(self).escrevendo ==> {
                &&& key@ == "Backspace"@ ==> r && final(self).mensagem@ == drop_last_char(
                    old(self).mensagem@,
                )
                &&& key@ == "Enter"@ ==> r && final(self).mensagem@ == old(self).mensagem@.push(
                    '\n',
                )
                &&& key@ != "Backspace"@ && key@ != "Enter"@ ==> !r && final(self).mensagem == old(self).mensagem
                &&& final(self).busca == old(self).busca && final(self).nome_novo == old(self).nome_novo
            },
            !old(self).escrevendo && old(self).nomeando ==> {
                &&& r == (key@ == "Backspace"@)
                &&& final(self).nome_novo@ == if r {
                    drop_last_char(old(self).nome_novo@)
                } else {
                    old(self).nome_novo@
                }
                &&& final(self).busca == old(self).busca && final(self).mensagem == old(self).mensagem
            },
            !old(self).escrevendo && !old(self).nomeando ==> {
                &&& r == (key@ == "Backspace"@)
                &&& final(self).busca@ == if r {
                    drop_last_char(old(self).busca@)
                } else {
                    old(self).busca@
                }
                &&& final(self).nome_novo == old(self).nome_novo && final(self).mensagem == old(self).mensagem
            },
    {
        let backspace = str_eq(key, "Backspace");
        let enter = str_eq(key, "Enter");
        proof {
            reveal_strlit("Backspace");
            reveal_strlit("Enter");
            assert("Backspace"@.len() == 9);
            assert("Enter"@.len() == 5);
        }
        if self.escrevendo {
            if backspace {
                pop_char(&mut self.mensagem);
                return true;
            }
            if enter {
                push_char(&mut self.mensagem, '\n');
                return true;
            }
            return false;
        }
        if self.nomeando {
            if !backspace {
                return false;
            }
            pop_char(&mut self.nome_novo);
            return true;
        }
        if !backspace {
            return false;
        }
        pop_char(&mut self.busca);
        true
    }

    /// The panel's files, in the order the panel shows them.
    pub fn entradas(&self, estado: GitFileState) -> (r: Vec<usize>)
        ensures
            r@ == indices_in_state(self.view.entries@, estado, self.view.entries@.len() as int),
    {
        let mut r: Vec<usize> = Vec::new();
        let mut i: usize = 0;
        while i < self.view.entries.len()
            invariant
                0 <= i <= self.view.entries@.len(),
                r@ == indices_in_state(self.view.entries@, estado, i as int),
            decreases self.view.entries@.len() - i,
        {
            if self.view.entries[i].state == estado {
                r.push(i);
            }
            i = i + 1;
        }
        r
    }

    /// The branches the search lets through, by index, in the tree's order.
    pub fn branches_filtradas(&self) -> (r: Vec<usize>)
        ensures
            r@ == branches_passing(self.view.branches@, self.busca@, self.view.branches@.len() as int),
    {
        let filtro = to_lowercase(self.busca.as_str());
        let vazio = filtro.as_str().is_empty();
        let mut r: Vec<usize> = Vec::new();
        let mut i: usize = 0;
        while i < self.view.branches.len()
            invariant
                0 <= i <= self.view.branches@.len(),
                filtro@ == lowercase(self.busca@),
                vazio == (filtro@.len() == 0),
                r@ == branches_passing(self.view.branches@, self.busca@, i as int),
            decreases self.view.branches@.len() - i,
        {
            let passa = if vazio {
                true
            } else {
                let nome = to_lowercase(self.view.branches[i].name.as_str());
                contains_text(nome.as_str(), filtro.as_str())
            };
            if passa {
                r.push(i);
            }
            i = i + 1;
        }
        r
    }

    /// What the right side says when there are no panels to show.
    pub fn linhas_do_lado_direito(&self) -> (r: Vec<String>)
        ensures
            r@.len() == 1,
            r@[0]@ == right_side_line(self.view, self.aba),
    {
        let mut r: Vec<String> = Vec::new();
        if let Some(mensagem) = &self.view.message {
            r.push(string_of(mensagem.as_str()));
            return r;
        }
        if !self.view.has_repository() {
            r.push(string_of("Esta pasta não está num repositório Git"));
            return r;
        }
        match self.aba {
            Aba::Status => {
                if self.view.changed == 0 {
                    r.push(string_of("Nada mudou desde o último commit"));
                } else {
                    let mut s = String::new();
                    push_decimal(&mut s, self.view.changed);
                    push_str(&mut s, " arquivo(s) alterado(s)");
                    r.push(s);
                }
            },
            Aba::History => {
                r.push(string_of("Sem commits ainda"));
            },
        }
        r
    }

    /// The labels of the roots of the branch tree: the branches node unless
    /// the search emptied it, and the three other nodes only without search.
    pub fn tree_roots(&self) -> (r: Vec<String>)
        ensures
            r@.map_values(|s: String| s@) == tree_roots_spec(self.view, self.busca@),
    {
        let filtradas = self.branches_filtradas();
        let filtro = to_lowercase(self.busca.as_str());
        let vazio = filtro.as_str().is_empty();
        let mut r: Vec<String> = Vec::new();
        if filtradas.len() != 0 || vazio {
            r.push(counted_label("Branches (", filtradas.len()));
        }
        if vazio {
            r.push(counted_label("Tags (", self.view.tags.len()));
            r.push(counted_label("Remotes (", self.view.remotes.len()));
            r.push(counted_label("Stashes (", self.view.stashes.len()));
        }
        proof {
            let target = tree_roots_spec(self.view, self.busca@);
            assert(r@.map_values(|s: String| s@) =~= target);
        }
        r
    }
}

/// `prefix`, the decimal count, and `)`.
pub open spec fn counted(prefix: Seq<char>, n: nat) -> Seq<char> {
    prefix + decimal(n) + ")"@
}

fn counted_label(prefix: &str, n: usize) -> (s: String)
    ensures
        s@ == counted(prefix@, n as nat),
{
    let mut s = string_of(prefix);
    push_decimal(&mut s, n);
    push_str(&mut s, ")");
    s
}

/// The root labels of the branch tree for a snapshot and a search.
pub open spec fn tree_roots_spec(view: GitView, search: Seq<char>) -> Seq<Seq<char>> {
    let passing = branches_passing(view.branches@, search, view.branches@.len() as int);
    let empty = lowercase(search).len() == 0;
    let branches = if passing.len() != 0 || empty {
        seq![counted("Branches ("@, passing.len())]
    } else {
        Seq::empty()
    };
    if empty {
        branches + seq![
            counted("Tags ("@, view.tags@.len()),
            counted("Remotes ("@, view.remotes@.len()),
            counted("Stashes ("@, view.stashes@.len()),
        ]
    } else {
        branches
    }
}

/// The line the right side shows when there are no panels.
pub open spec fn right_side_line(view: GitView, aba: Aba) -> Seq<char> {
    match view.message {
        Some(m) => m@,
        None => if view.head is None {
            "Esta pasta não está num repositório Git"@
        } else {
            match aba {
                Aba::Status => if view.changed == 0 {
                    "Nada mudou desde o último commit"@
                } else {
                    decimal(view.changed as nat) + " arquivo(s) alterado(s)"@
                },
                Aba::History => "Sem commits ainda"@,
            }
        },
    }
}

/// Indices, below `n`, of the entries in state `estado`, in order.
pub open spec fn indices_in_state(entries: Seq<GitEntry>, estado: GitFileState, n: int) -> Seq<
    usize,
>
    decreases n,
{
    if n <= 0 {
        Seq::empty()
    } else if entries[n - 1].state == estado {
        indices_in_state(entries, estado, n - 1).push((n - 1) as usize)
    } else {
        indices_in_state(entries, estado, n - 1)
    }
}

/// Indices, below `n`, of the branches that pass the search, in order.
pub open spec fn branches_passing(branches: Seq<BranchItem>, search: Seq<char>, n: int) -> Seq<
    usize,
>
    decreases n,
{
    if n <= 0 {
        Seq::empty()
    } else if matches_search(branches[n - 1].name@, search) {
        branches_passing(branches, search, n - 1).push((n - 1) as usize)
    } else {
        branches_passing(branches, search, n - 1)
    }
}

/// The text without its last character (unchanged when empty).
pub open spec fn drop_last_char(s: Seq<char>) -> Seq<char> {
    if s.len() > 0 {
        s.drop_last()
    } else {
        s
    }
}

/// Calls `String::pop`: the last character leaves, when there is one.
#[verifier::external_body]
pub(crate) fn pop_char(s: &mut String)
    ensures
        final(s)@ == drop_last_char(old(s)@),
{
    s.pop();
}

/// What the row of a branch shows: the mark of the current one, the name,
/// the count ahead and behind when there is one, and the two actions with
/// their commands.
#[derive(Debug)]
pub struct BranchRow {
    pub marca: String,
    pub nome: String,
    pub contagem: Option<String>,
    pub acoes: Vec<(String, String)>,
}

/// The count a branch shows: `↑n` ahead and `↓m` behind, each only when
/// not zero, none at all when both are.
pub open spec fn count_text(ahead: nat, behind: nat) -> Option<Seq<char>> {
    if ahead == 0 && behind == 0 {
        None
    } else if behind == 0 {
        Some("↑"@ + decimal(ahead))
    } else if ahead == 0 {
        Some("↓"@ + decimal(behind))
    } else {
        Some("↑"@ + decimal(ahead) + " "@ + "↓"@ + decimal(behind))
    }
}

/// The actions a branch offers: the current one pulls and pushes (switching
/// to it does nothing, and merging it into itself is refused); any other is
/// switched to or merged.
pub open spec fn branch_actions(current: bool) -> Seq<(Seq<char>, Seq<char>)> {
    if current {
        seq![("Pull"@, "git.pull"@), ("Push"@, "git.push"@)]
    } else {
        seq![("Trocar"@, "git.switch"@), ("Fundir"@, "git.merge"@)]
    }
}

fn pair(a: &str, b: &str) -> (r: (String, String))
    ensures
        r.0@ == a@,
        r.1@ == b@,
{
    (string_of(a), string_of(b))
}

/// What the row of `branch` shows.
pub fn linha_da_branch(branch: &BranchItem) -> (r: BranchRow)
    ensures
        r.marca@ == if branch.current {
            "●"@
        } else {
            ""@
        },
        r.nome@ == branch.name@,
        match count_text(branch.ahead as nat, branch.behind as nat) {
            Some(t) => r.contagem matches Some(c) && c@ == t,
            None => r.contagem is None,
        },
        r.acoes@.map_values(|a: (String, String)| (a.0@, a.1@)) == branch_actions(branch.current),
{
    let marca = if branch.current {
        string_of("●")
    } else {
        string_of("")
    };
    let contagem = if branch.ahead > 0 || branch.behind > 0 {
        let mut texto = String::new();
        if branch.ahead > 0 {
            push_str(&mut texto, "↑");
            push_decimal(&mut texto, branch.ahead);
            if branch.behind > 0 {
                push_str(&mut texto, " ");
            }
        }
        if branch.behind > 0 {
            push_str(&mut texto, "↓");
            push_decimal(&mut texto, branch.behind);
        }
        proof {
            reveal_strlit("");
            assert(Seq::<char>::empty() + "↑"@ =~= "↑"@);
            assert(Seq::<char>::empty() + "↓"@ =~= "↓"@);
        }
        Some(texto)
    } else {
        None
    };
    let mut acoes: Vec<(String, String)> = Vec::new();
    if branch.current {
        acoes.push(pair("Pull", "git.pull"));
        acoes.push(pair("Push", "git.push"));
    } else {
        acoes.push(pair("Trocar", "git.switch"));
        acoes.push(pair("Fundir", "git.merge"));
    }
    proof {
        assert(acoes@.map_values(|a: (String, String)| (a.0@, a.1@)) =~= branch_actions(branch.current));
    }
    BranchRow { marca, nome: string_of(branch.name.as_str()), contagem, acoes }
}

/// The hash as the history shows it: its first seven characters.
pub fn hash_curto(hash: &str) -> (r: String)
    ensures
        r@ == if hash@.len() <= 7 {
            hash@
        } else {
            hash@.take(7)
        },
{
    let cs = chars_of(hash);
    let mut r = String::new();
    let mut i: usize = 0;
    while i < cs.len() && i < 7
        invariant
            cs@ == hash@,
            0 <= i <= cs@.len(),
            i <= 7,
            r@ == hash@.take(i as int),
        decreases cs@.len() - i,
    {
        push_char(&mut r, cs[i]);
        proof {
            assert(hash@.take(i + 1) =~= hash@.take(i as int).push(hash@[i as int]));
        }
        i = i + 1;
    }
    proof {
        if hash@.len() <= 7 {
            assert(hash@.take(hash@.len() as int) =~= hash@);
        }
    }
    r
}

/// What the window asks of the repository.
#[derive(Debug, PartialEq, Eq)]
pub enum GitRequest {
    Push,
    Pull,
    Fetch,
    Merge(String),
    SwitchBranch(String),
    StashPop(usize),
    Stage(String),
    Unstage(String),
    Discard(String),
    ShowDiff { path: String, staged: bool },
    /// A new snapshot of the repository.
    Refresh,
    /// The next page of history, after the commits already there.
    LoadHistory { ja_carregados: usize },
    CreateBranch(String),
    Commit { message: String, amend: bool },
    /// Gives up the merge or rebase under way.
    AbortOperation,
    /// Goes on with the merge or rebase under way.
    ContinueOperation,
}

/// The request an action makes about `path`.
pub open spec fn action_request(a: Acao, path: Seq<char>, r: GitRequest) -> bool {
    match a {
        Acao::Preparar => r matches GitRequest::Stage(p) && p@ == path,
        Acao::Despreparar => r matches GitRequest::Unstage(p) && p@ == path,
        Acao::Descartar => r matches GitRequest::Discard(p) && p@ == path,
    }
}

impl GitSurface {
    /// A click on the branch tree: the row `escolhido` (by its identity in
    /// the tree) and the action stripe hit, counted from the right. A
    /// branch's row (the branches the search lets through, in order) offers
    /// push and pull when current, merge and switch otherwise; the remotes'
    /// root fetches; a stash goes back to the working tree.
    pub fn pedido_da_arvore(&self, escolhido: u64, faixa: Option<usize>) -> (r: Option<GitRequest>)
        ensures
            ({
                let passing = branches_passing(self.view.branches@, self.busca@, self.view.branches@.len() as int);
                if 100 <= escolhido < 1000 {
                    let k = escolhido - 100;
                    if k < passing.len() {
                        let b = self.view.branches@[passing[k] as int];
                        if b.current {
                            r == if faixa == Some(0usize) {
                                Some(GitRequest::Push)
                            } else if faixa == Some(1usize) {
                                Some(GitRequest::Pull)
                            } else {
                                None
                            }
                        } else if faixa == Some(0usize) {
                            r matches Some(GitRequest::Merge(n)) && n@ == b.name@
                        } else if faixa == Some(1usize) {
                            r matches Some(GitRequest::SwitchBranch(n)) && n@ == b.name@
                        } else {
                            r is None
                        }
                    } else {
                        r is None
                    }
                } else if escolhido == 3 && faixa == Some(0usize) {
                    r == Some(GitRequest::Fetch)
                } else if 3000 <= escolhido < 4000 {
                    r == Some(GitRequest::StashPop((escolhido - 3000) as usize))
                } else {
                    r is None
                }
            }),
    {
        if 100 <= escolhido && escolhido < 1000 {
            let indice = (escolhido - 100) as usize;
            let filtradas = self.branches_filtradas();
            if indice >= filtradas.len() {
                return None;
            }
            let _nb = self.view.branches.len();
            proof {
                lemma_branches_passing_bound(self.view.branches@, self.busca@, self.view.branches@.len() as int);
            }
            let branch = &self.view.branches[filtradas[indice]];
            if branch.current {
                return if faixa == Some(0) {
                    Some(GitRequest::Push)
                } else if faixa == Some(1) {
                    Some(GitRequest::Pull)
                } else {
                    None
                };
            }
            return if faixa == Some(0) {
                Some(GitRequest::Merge(string_of(branch.name.as_str())))
            } else if faixa == Some(1) {
                Some(GitRequest::SwitchBranch(string_of(branch.name.as_str())))
            } else {
                None
            };
        }
        if escolhido == 3 && faixa == Some(0) {
            return Some(GitRequest::Fetch);
        }
        if 3000 <= escolhido && escolhido < 4000 {
            return Some(GitRequest::StashPop((escolhido - 3000) as usize));
        }
        None
    }

    /// A click on row `escolhida` of a panel: the action whose stripe was
    /// hit (counted from the right, the last action rightmost), or else the
    /// file's difference, staged or not as the panel says.
    pub fn pedido_do_painel(&self, estado: GitFileState, escolhida: usize, faixa: Option<usize>) -> (r: Option<
        GitRequest,
    >)
        ensures
            ({
                let rows = indices_in_state(self.view.entries@, estado, self.view.entries@.len() as int);
                let acoes = acoes_spec(estado);
                if escolhida < rows.len() {
                    let path = self.view.entries@[rows[escolhida as int] as int].path@;
                    match faixa {
                        Some(f) if f < acoes.len() => r matches Some(q) && action_request(
                            acoes[acoes.len() - 1 - f],
                            path,
                            q,
                        ),
                        _ => r matches Some(GitRequest::ShowDiff { path: p, staged }) && p@ == path && staged
                            == (estado == GitFileState::Staged),
                    }
                } else {
                    r is None
                }
            }),
    {
        let linhas = self.entradas(estado);
        if escolhida >= linhas.len() {
            return None;
        }
        let _ne = self.view.entries.len();
        proof {
            lemma_indices_in_state_bound(self.view.entries@, estado, self.view.entries@.len() as int);
        }
        let caminho = string_of(self.view.entries[linhas[escolhida]].path.as_str());
        let acoes = acoes_de(estado);
        match faixa {
            Some(f) => {
                if f < acoes.len() {
                    let acao = acoes[acoes.len() - 1 - f];
                    return Some(
                        match acao {
                            Acao::Preparar => GitRequest::Stage(caminho),
                            Acao::Despreparar => GitRequest::Unstage(caminho),
                            Acao::Descartar => GitRequest::Discard(caminho),
                        },
                    );
                }
            },
            None => {},
        }
        Some(GitRequest::ShowDiff { path: caminho, staged: estado == GitFileState::Staged })
    }
}

proof fn lemma_branches_passing_bound(branches: Seq<BranchItem>, search: Seq<char>, n: int)
    requires
        n <= branches.len(),
        n <= usize::MAX,
    ensures
        forall|i: int|
            0 <= i < branches_passing(branches, search, n).len() ==> (#[trigger] branches_passing(
                branches,
                search,
                n,
            )[i]) < n,
    decreases n,
{
    if n > 0 {
        lemma_branches_passing_bound(branches, search, n - 1);
        let t = branches_passing(branches, search, n - 1);
        assert forall|i: int| 0 <= i < branches_passing(branches, search, n).len() implies (#[trigger] branches_passing(branches, search, n)[i]) < n by {
            if i < t.len() {
                assert(branches_passing(branches, search, n)[i] == t[i]);
            }
        }
    }
}

proof fn lemma_indices_in_state_bound(entries: Seq<GitEntry>, estado: GitFileState, n: int)
    requires
        n <= entries.len(),
        n <= usize::MAX,
    ensures
        forall|i: int|
            0 <= i < indices_in_state(entries, estado, n).len() ==> (#[trigger] indices_in_state(
                entries,
                estado,
                n,
            )[i]) < n,
    decreases n,
{
    if n > 0 {
        lemma_indices_in_state_bound(entries, estado, n - 1);
        let t = indices_in_state(entries, estado, n - 1);
        assert forall|i: int| 0 <= i < indices_in_state(entries, estado, n).len() implies (#[trigger] indices_in_state(entries, estado, n)[i]) < n by {
            if i < t.len() {
                assert(indices_in_state(entries, estado, n)[i] == t[i]);
            }
        }
    }
}

/// The width, in lanes, of the history graph: the widest commit, at least one.
pub fn largura_do_grafo(commits: &Vec<CommitRow>) -> (r: usize)
    ensures
        r >= 1,
        forall|i: int| 0 <= i < commits@.len() ==> commits@[i].lanes <= r,
        r == 1 || exists|i: int| 0 <= i < commits@.len() && commits@[i].lanes == r,
{
    let mut r: usize = 1;
    let mut i: usize = 0;
    while i < commits.len()
        invariant
            0 <= i <= commits@.len(),
            r >= 1,
            forall|k: int| 0 <= k < i ==> commits@[k].lanes <= r,
            r == 1 || exists|k: int| 0 <= k < commits@.len() && commits@[k].lanes == r,
        decreases commits@.len() - i,
    {
        if commits[i].lanes > r {
            r = commits[i].lanes;
        }
        i = i + 1;
    }
    r
}

/// The button of the commit stripe that a click fell on.
#[derive(Clone, Copy, Debug, Eq, PartialEq, Structural)]
pub enum CommitButton {
    Commit,
    Amend,
}

/// The button of the conflict stripe that a click fell on.
#[derive(Clone, Copy, Debug, Eq, PartialEq, Structural)]
pub enum ConflictButton {
    Abort,
    Continue,
}

/// Whether a request changes the history on the screen: the top line may be
/// another one after it.
pub open spec fn moves_history(r: GitRequest) -> bool {
    match r {
        GitRequest::SwitchBranch(_) | GitRequest::CreateBranch(_) | GitRequest::Merge(_)
        | GitRequest::ContinueOperation | GitRequest::AbortOperation | GitRequest::Pull => true,
        _ => false,
    }
}

/// Everything but a diff and a page of history changes what the snapshot
/// shows.
pub open spec fn needs_snapshot(r: GitRequest) -> bool {
    !(r is ShowDiff || r is LoadHistory)
}

/// What goes to the repository for a request of the window, in order: the
/// request, a new snapshot where it changes one, and the history from the
/// start where a commit or a move of the branches rewrote it.
pub open spec fn requests_for(r: GitRequest) -> Seq<GitRequest> {
    let first = seq![r];
    let with_snapshot = if needs_snapshot(r) {
        first.push(GitRequest::Refresh)
    } else {
        first
    };
    if r is Commit || moves_history(r) {
        with_snapshot.push(GitRequest::LoadHistory { ja_carregados: 0 })
    } else {
        with_snapshot
    }
}

impl GitSurface {
    /// Opens the window or closes it; opening asks for the snapshot again,
    /// since the repository may have changed behind the window's back.
    pub fn toggle_git(&mut self) -> (r: Option<GitRequest>)
        ensures
            final(self).open == !old(self).open,
            r == if final(self).open {
                Some(GitRequest::Refresh)
            } else {
                None
            },
            old(self).open ==> final(self).busca == old(self).busca,
            !old(self).open ==> final(self).busca@.len() == 0,
            final(self).view == old(self).view,
            final(self).mensagem == old(self).mensagem,
            final(self).nome_novo == old(self).nome_novo,
    {
        self.toggle();
        if self.open {
            Some(GitRequest::Refresh)
        } else {
            None
        }
    }

    /// What a request of the window sends to the repository (see
    /// `requests_for`). A commit empties the message box at once: the text
    /// was used, and leaving it there invites the same commit twice.
    pub fn pedir_ao_git(&mut self, pedido: GitRequest) -> (r: Vec<GitRequest>)
        ensures
            r@ == requests_for(pedido),
            final(self).mensagem@ == if pedido is Commit {
                Seq::<char>::empty()
            } else {
                old(self).mensagem@
            },
            final(self).view == old(self).view,
            final(self).open == old(self).open,
            final(self).busca == old(self).busca,
            final(self).nome_novo == old(self).nome_novo,
            final(self).aba == old(self).aba,
            final(self).nomeando == old(self).nomeando,
            final(self).escrevendo == old(self).escrevendo,
    {
        let ghost p = pedido;
        let precisa_de_retrato = match &pedido {
            GitRequest::ShowDiff { .. } | GitRequest::LoadHistory { .. } => false,
            _ => true,
        };
        let mexeu_no_historico = match &pedido {
            GitRequest::SwitchBranch(_) | GitRequest::CreateBranch(_) | GitRequest::Merge(_)
            | GitRequest::ContinueOperation | GitRequest::AbortOperation | GitRequest::Pull => true,
            _ => false,
        };
        let commitou = match &pedido {
            GitRequest::Commit { .. } => true,
            _ => false,
        };
        if commitou {
            self.mensagem = String::new();
        }
        let mut r: Vec<GitRequest> = Vec::new();
        r.push(pedido);
        if precisa_de_retrato {
            r.push(GitRequest::Refresh);
        }
        if commitou || mexeu_no_historico {
            r.push(GitRequest::LoadHistory { ja_carregados: 0 });
        }
        proof {
            assert(r@ =~= requests_for(p));
        }
        r
    }

    /// A click on the tabs; `second` says it fell on the right half, the
    /// history. The history is dear and only asked for when someone is going
    /// to look at it.
    pub fn choose_tab(&mut self, second: bool) -> (r: Option<GitRequest>)
        ensures
            final(self).aba == if second {
                Aba::History
            } else {
                Aba::Status
            },
            r == if second && old(self).view.commits@.len() == 0 {
                Some(GitRequest::LoadHistory { ja_carregados: 0 })
            } else {
                None
            },
            final(self).view == old(self).view,
            final(self).open == old(self).open,
            final(self).busca == old(self).busca,
            final(self).mensagem == old(self).mensagem,
            final(self).nome_novo == old(self).nome_novo,
            final(self).nomeando == old(self).nomeando,
            final(self).escrevendo == old(self).escrevendo,
    {
        self.aba = if second {
            Aba::History
        } else {
            Aba::Status
        };
        if second && self.view.commits.len() == 0 {
            return Some(GitRequest::LoadHistory { ja_carregados: 0 });
        }
        None
    }

    /// A click on the new branch stripe: on its button (`on_button`) it asks
    /// for the branch with the name written, trimmed, and leaves the box;
    /// with no name it asks for nothing and the name stays. Elsewhere the
    /// stripe is the box, which takes the cursor from the message box.
    pub fn click_new_branch(&mut self, on_button: bool) -> (r: Option<GitRequest>)
        ensures
            on_button ==> {
                &&& !final(self).nomeando
                &&& final(self).escrevendo == old(self).escrevendo
                &&& if trim(old(self).nome_novo@).len() == 0 {
                    r is None && final(self).nome_novo == old(self).nome_novo
                } else {
                    r matches Some(GitRequest::CreateBranch(n)) && n@ == trim(old(self).nome_novo@)
                        && final(self).nome_novo@.len() == 0
                }
            },
            !on_button ==> r is None && final(self).nomeando && !final(self).escrevendo && final(self).nome_novo
                == old(self).nome_novo,
            final(self).view == old(self).view,
            final(self).open == old(self).open,
            final(self).busca == old(self).busca,
            final(self).mensagem == old(self).mensagem,
            final(self).aba == old(self).aba,
    {
        if on_button {
            let nome = trimmed(self.nome_novo.as_str());
            self.nomeando = false;
            if nome.as_str().is_empty() {
                return None;
            }
            self.nome_novo = String::new();
            return Some(GitRequest::CreateBranch(nome));
        }
        self.nomeando = true;
        self.escrevendo = false;
        None
    }

    /// A click on the commit stripe: on a button it commits the message as it
    /// stands (amending with the second button) and leaves the box, except
    /// that an empty message makes no commit, since `git` would refuse it;
    /// elsewhere the stripe is the message box, which takes the cursor.
    pub fn click_commit(&mut self, button: Option<CommitButton>) -> (r: Option<GitRequest>)
        ensures
            match button {
                Some(b) => if trim(old(self).mensagem@).len() == 0 && b == CommitButton::Commit {
                    r is None && final(self).escrevendo == old(self).escrevendo
                } else {
                    &&& r matches Some(GitRequest::Commit { message, amend }) && message@ == old(
                        self,
                    ).mensagem@ && amend == (b == CommitButton::Amend)
                    &&& !final(self).escrevendo
                },
                None => r is None && final(self).escrevendo,
            },
            final(self).mensagem == old(self).mensagem,
            final(self).nomeando == old(self).nomeando,
            final(self).view == old(self).view,
            final(self).open == old(self).open,
            final(self).busca == old(self).busca,
            final(self).nome_novo == old(self).nome_novo,
            final(self).aba == old(self).aba,
    {
        match button {
            Some(b) => {
                let vazia = trimmed(self.mensagem.as_str()).as_str().is_empty();
                if vazia && b == CommitButton::Commit {
                    return None;
                }
                self.escrevendo = false;
                Some(GitRequest::Commit { message: self.mensagem.clone(), amend: b == CommitButton::Amend })
            },
            None => {
                self.escrevendo = true;
                None
            },
        }
    }
}

/// A click on a button of the conflict stripe.
pub fn conflict_request(button: ConflictButton) -> (r: GitRequest)
    ensures
        r == match button {
            ConflictButton::Abort => GitRequest::AbortOperation,
            ConflictButton::Continue => GitRequest::ContinueOperation,
        },
{
    match button {
        ConflictButton::Abort => GitRequest::AbortOperation,
        ConflictButton::Continue => GitRequest::ContinueOperation,
    }
}

} // verus!
