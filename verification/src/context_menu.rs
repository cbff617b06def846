//! The context menu: one surface, one target. Closing the menu forgets the
//! target, whatever it was.
use vstd::prelude::*;
use crate::chars::{chars_of, string_from_chars};
use crate::fmt::{push_str, str_eq, string_of};
use crate::generate::AccessorKind;
use crate::inspection::{starts_with, starts_with_spec};
use crate::paths::{parent, parent_of};

verus! {

/// The identity of an open document.
#[derive(Clone, Copy, Debug, Eq, PartialEq, Structural, Hash)]
pub struct DocumentId(pub u64);

/// What the open menu is about.
#[derive(Clone, Debug)]
pub enum AlvoDoMenu {
    /// An item of the project tree: the folder where things are created (for
    /// a file, its folder) and the file, when a file was clicked.
    Explorer { pasta: String, arquivo: Option<String> },
    /// A tab of the editor.
    Aba(DocumentId),
    /// The text of the editor: its actions speak of the cursor and the
    /// selection, and carry no target.
    Editor,
}

/// The folder where the Explorer's menu creates things: the folder clicked,
/// or the folder of the file clicked (the path itself when it has none).
pub open spec fn target_folder(path: Seq<char>, is_directory: bool) -> Seq<char> {
    if is_directory {
        path
    } else {
        match parent_of(path) {
            Some(q) => q,
            None => path,
        }
    }
}

/// What the Explorer's menu speaks of after a secondary click on the item
/// at `path`: creating happens in the folder, and renaming speaks of the
/// file, when a file was clicked.
pub fn explorer_target(path: &str, is_directory: bool) -> (r: AlvoDoMenu)
    ensures
        r matches AlvoDoMenu::Explorer { pasta, arquivo } && pasta@ == target_folder(path@, is_directory) && (
        if is_directory {
            arquivo is None
        } else {
            arquivo matches Some(a) && a@ == path@
        }),
{
    if is_directory {
        return AlvoDoMenu::Explorer { pasta: string_of(path), arquivo: None };
    }
    let pasta = match parent(path) {
        Some(q) => q,
        None => string_of(path),
    };
    AlvoDoMenu::Explorer { pasta, arquivo: Some(string_of(path)) }
}

/// The context menu and the target it speaks of.
pub struct ContextMenuSurface {
    pub open: bool,
    pub alvo: Option<AlvoDoMenu>,
}

impl ContextMenuSurface {
    /// A closed menu about nothing.
    pub fn new() -> (r: Self)
        ensures
            !r.open,
            r.alvo is None,
    {
        ContextMenuSurface { open: false, alvo: None }
    }

    /// Whether the menu is showing.
    pub fn is_open(&self) -> (r: bool)
        ensures
            r == self.open,
    {
        self.open
    }

    /// Opens the menu about `alvo`.
    pub fn abrir(&mut self, alvo: AlvoDoMenu)
        ensures
            final(self).open,
            final(self).alvo == Some(alvo),
    {
        self.open = true;
        self.alvo = Some(alvo);
    }

    /// Closes the menu and forgets its target, both always together.
    pub fn close(&mut self)
        ensures
            !final(self).open,
            final(self).alvo is None,
    {
        self.open = false;
        self.alvo = None;
    }

    /// The folder to create in, when the open menu is the Explorer's.
    pub fn pasta(&self) -> (r: Option<&String>)
        ensures
            match self.alvo {
                Some(AlvoDoMenu::Explorer { pasta, .. }) => r == Some(&pasta),
                _ => r is None,
            },
    {
        match &self.alvo {
            Some(AlvoDoMenu::Explorer { pasta, .. }) => Some(pasta),
            _ => None,
        }
    }

    /// The file that was clicked, when it was a file.
    pub fn arquivo(&self) -> (r: Option<&String>)
        ensures
            match self.alvo {
                Some(AlvoDoMenu::Explorer { arquivo: Some(a), .. }) => r == Some(&a),
                _ => r is None,
            },
    {
        match &self.alvo {
            Some(AlvoDoMenu::Explorer { arquivo, .. }) => arquivo.as_ref(),
            _ => None,
        }
    }

    /// The tab that was clicked, taken out of the target: whoever uses it
    /// acts once. Any other target stays.
    pub fn take_aba(&mut self) -> (r: Option<DocumentId>)
        ensures
            tab_taken(*old(self), *final(self), r),
    {
        match self.alvo.take() {
            Some(AlvoDoMenu::Aba(documento)) => Some(documento),
            outro => {
                self.alvo = outro;
                None
            },
        }
    }
}

/// Taking the tab, as `take_aba` does it: the tab that was the target comes
/// out and the target is gone; any other target stays, and nothing comes out.
pub open spec fn tab_taken(before: ContextMenuSurface, after: ContextMenuSurface, r: Option<DocumentId>) -> bool {
    &&& after.open == before.open
    &&& match before.alvo {
        Some(AlvoDoMenu::Aba(d)) => r == Some(d) && after.alvo is None,
        _ => r is None && after.alvo == before.alvo,
    }
}

/// Whoever takes the tab acts once: taking it again gives nothing.
pub proof fn law_the_tab_is_taken_once(
    a: ContextMenuSurface,
    b: ContextMenuSurface,
    c: ContextMenuSurface,
    first: Option<DocumentId>,
    second: Option<DocumentId>,
)
    requires
        tab_taken(a, b, first),
        tab_taken(b, c, second),
    ensures
        second is None,
        c.alvo == b.alvo,
        a.alvo matches Some(AlvoDoMenu::Aba(d)) ==> first == Some(d),
{
}

/// What a command of the context menu asks for.
#[derive(Debug)]
pub enum ContextCommand {
    /// Show the tab that was clicked on the right side.
    SplitRight(DocumentId),
    /// Ask the language what to generate.
    Generate(AccessorKind),
    Copy,
    Paste,
    /// Inspect the selected expression.
    Inspect,
    /// Rename the file that was clicked.
    Rename(String),
    /// Say something in the status bar.
    Message(String),
    /// Open the window that creates an item from template number `template`,
    /// in the folder `target`.
    NewItem { template: usize, target: String },
    /// Nothing to do.
    Nothing,
}

/// The commands of the editor that carry no target, and what they ask for.
pub open spec fn editor_command(command: Seq<char>) -> Option<ContextCommand> {
    if command == "editor.generate.getter"@ {
        Some(ContextCommand::Generate(AccessorKind::Getter))
    } else if command == "editor.generate.setter"@ {
        Some(ContextCommand::Generate(AccessorKind::Setter))
    } else if command == "editor.generate.accessors"@ {
        Some(ContextCommand::Generate(AccessorKind::Both))
    } else if command == "editor.generate.constructor"@ {
        Some(ContextCommand::Generate(AccessorKind::Constructor))
    } else if command == "editor.copy"@ {
        Some(ContextCommand::Copy)
    } else if command == "editor.paste"@ {
        Some(ContextCommand::Paste)
    } else if command == "debug.inspect"@ {
        Some(ContextCommand::Inspect)
    } else {
        None
    }
}

/// The first template whose identity is `id`.
pub open spec fn template_index(ids: Seq<Seq<char>>, id: Seq<char>) -> Option<usize> {
    if exists|i: int| 0 <= i < ids.len() && ids[i] == id {
        let i = choose|i: int|
            0 <= i < ids.len() && ids[i] == id && forall|j: int| 0 <= j < i ==> ids[j] != id;
        Some(i as usize)
    } else {
        None
    }
}

/// What a command of the Explorer's menu asks for, about the folder
/// `pasta` and, when a file was clicked, the file `arquivo`.
pub open spec fn explorer_command(
    command: Seq<char>,
    pasta: Seq<char>,
    arquivo: Option<Seq<char>>,
    ids: Seq<Seq<char>>,
) -> Option<(int, Seq<char>)> {
    if command == "explorer.rename"@ {
        match arquivo {
            Some(a) => Some((-1, a)),
            None => None,
        }
    } else if command == "explorer.new.folder"@ {
        Some((-2, "Nova pasta em "@ + pasta))
    } else if starts_with_spec(command, "explorer.new."@) {
        match template_index(ids, command.skip(13)) {
            Some(i) => Some((i as int, pasta)),
            None => None,
        }
    } else {
        None
    }
}

proof fn lemma_template_index(ids: Seq<Seq<char>>, id: Seq<char>, i: int)
    requires
        0 <= i < ids.len(),
        ids[i] == id,
        forall|j: int| 0 <= j < i ==> ids[j] != id,
    ensures
        template_index(ids, id) == Some(i as usize),
{
    let k = choose|k: int|
        0 <= k < ids.len() && ids[k] == id && forall|j: int| 0 <= j < k ==> ids[j] != id;
    if k < i {
        assert(ids[k] != id);
    } else if i < k {
        assert(ids[i] != id);
    }
}

/// The characters of `text` from index `start` on.
fn text_after(text: &str, start: usize) -> (r: String)
    requires
        start <= text@.len(),
    ensures
        r@ == text@.skip(start as int),
{
    let cs = chars_of(text);
    let mut rest: Vec<char> = Vec::new();
    let mut i: usize = start;
    while i < cs.len()
        invariant
            cs@ == text@,
            start <= i <= cs@.len(),
            rest@ == cs@.subrange(start as int, i as int),
        decreases cs@.len() - i,
    {
        rest.push(cs[i]);
        proof {
            assert(cs@.subrange(start as int, i + 1) =~= cs@.subrange(start as int, i as int).push(cs@[i as int]));
        }
        i = i + 1;
    }
    let r = string_from_chars(&rest);
    proof {
        assert(r@ =~= text@.skip(start as int));
    }
    r
}

/// The first of `ids` that is `id`.
fn find_template(ids: &[String], id: &str) -> (r: Option<usize>)
    ensures
        r == template_index(ids@.map_values(|t: String| t@), id@),
{
    let ghost v = ids@.map_values(|t: String| t@);
    let mut k: usize = 0;
    while k < ids.len()
        invariant
            0 <= k <= ids@.len(),
            v == ids@.map_values(|t: String| t@),
            forall|j: int| 0 <= j < k ==> v[j] != id@,
        decreases ids@.len() - k,
    {
        if str_eq(ids[k].as_str(), id) {
            proof {
                lemma_template_index(v, id@, k as int);
            }
            return Some(k);
        }
        k = k + 1;
    }
    proof {
        assert(!(exists|i: int| 0 <= i < v.len() && v[i] == id@));
    }
    None
}


/// Runs a command chosen in the context menu: the tab that was clicked is
/// taken out of the target to be split; the editor's commands carry no
/// target; the Explorer's act on the folder (and the file) that were
/// clicked, new items by the identity of their template among `template_ids`.
pub fn run_context_command(menu: &mut ContextMenuSurface, command: &str, template_ids: &[String]) -> (r:
    ContextCommand)
    ensures
        final(menu).open == old(menu).open,
        if command@ == "editor.split.right"@ {
            match old(menu).alvo {
                Some(AlvoDoMenu::Aba(d)) => r == ContextCommand::SplitRight(d) && final(menu).alvo is None,
                _ => r is Nothing && final(menu).alvo == old(menu).alvo,
            }
        } else {
            &&& final(menu).alvo == old(menu).alvo
            &&& match editor_command(command@) {
                Some(c) => r == c,
                None => match old(menu).alvo {
                    Some(AlvoDoMenu::Explorer { pasta, arquivo }) => match explorer_command(
                        command@,
                        pasta@,
                        match arquivo {
                            Some(a) => Some(a@),
                            None => None,
                        },
                        template_ids@.map_values(|t: String| t@),
                    ) {
                        Some((k, text)) => if k == -1 {
                            r matches ContextCommand::Rename(a) && a@ == text
                        } else if k == -2 {
                            r matches ContextCommand::Message(m) && m@ == text
                        } else {
                            r matches ContextCommand::NewItem { template, target } && template == k
                                && target@ == text
                        },
                        None => r is Nothing,
                    },
                    _ => r is Nothing,
                },
            }
        },
{
    proof {
        reveal_strlit("editor.split.right");
        reveal_strlit("editor.generate.getter");
        reveal_strlit("editor.generate.setter");
        reveal_strlit("editor.generate.accessors");
        reveal_strlit("editor.generate.constructor");
        reveal_strlit("editor.copy");
        reveal_strlit("editor.paste");
        reveal_strlit("debug.inspect");
        reveal_strlit("explorer.rename");
        reveal_strlit("explorer.new.folder");
        reveal_strlit("explorer.new.");
    }
    if str_eq(command, "editor.split.right") {
        return match menu.take_aba() {
            Some(documento) => ContextCommand::SplitRight(documento),
            None => ContextCommand::Nothing,
        };
    }
    if str_eq(command, "editor.generate.getter") {
        return ContextCommand::Generate(AccessorKind::Getter);
    }
    if str_eq(command, "editor.generate.setter") {
        return ContextCommand::Generate(AccessorKind::Setter);
    }
    if str_eq(command, "editor.generate.accessors") {
        return ContextCommand::Generate(AccessorKind::Both);
    }
    if str_eq(command, "editor.generate.constructor") {
        return ContextCommand::Generate(AccessorKind::Constructor);
    }
    if str_eq(command, "editor.copy") {
        return ContextCommand::Copy;
    }
    if str_eq(command, "editor.paste") {
        return ContextCommand::Paste;
    }
    if str_eq(command, "debug.inspect") {
        return ContextCommand::Inspect;
    }
    let (pasta, arquivo) = match &menu.alvo {
        Some(AlvoDoMenu::Explorer { pasta, arquivo }) => (pasta, arquivo),
        _ => return ContextCommand::Nothing,
    };
    if str_eq(command, "explorer.rename") {
        return match arquivo {
            Some(a) => ContextCommand::Rename(a.clone()),
            None => ContextCommand::Nothing,
        };
    }
    if str_eq(command, "explorer.new.folder") {
        let mut m = string_of("Nova pasta em ");
        push_str(&mut m, pasta.as_str());
        return ContextCommand::Message(m);
    }
    if !starts_with(command, "explorer.new.") {
        return ContextCommand::Nothing;
    }
    let id = text_after(command, 13);
    match find_template(template_ids, id.as_str()) {
        Some(k) => ContextCommand::NewItem { template: k, target: pasta.clone() },
        None => ContextCommand::Nothing,
    }
}


impl Default for ContextMenuSurface {
    fn default() -> (r: Self)
        ensures
            !r.open,
            r.alvo is None,
    {
        ContextMenuSurface::new()
    }
}

} // verus!
