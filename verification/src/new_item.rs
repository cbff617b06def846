//! The window that creates an item: the package, the name and two buttons.
//!
//! One window serves the three actions of the menu (package, class,
//! interface), changing only the title and whether the name may stay empty;
//! all of it comes in the template the language contributes. It decides and
//! whoever owns the project acts: what comes out is a request, not a command.
//! The two fields belong to the screen; what they hold is handed in.
use vstd::prelude::*;
use crate::explorer::{
    ancestor, is_source_root, lemma_ancestor_none, names_view, root_ancestor,
};
use crate::fmt::{push_str, string_of};
use crate::inspection::{trim, trimmed};
use crate::paths::{components, components_of, parent, strip_prefix, stripped_of};

verus! {

/// What the language offers to create.
#[derive(Debug)]
pub struct NewItemTemplate {
    pub id: String,
    pub title: String,
    /// Whether the name may stay empty (creating only the package).
    pub allows_empty_name: bool,
}

/// What to create, with what was filled in.
#[derive(Debug)]
pub struct NewItemRequest {
    pub template_id: String,
    pub package: String,
    pub name: String,
    pub source_root: String,
}

/// What the window concludes.
#[derive(Debug)]
pub enum NewItemOutcome {
    /// The gesture concluded nothing; what it changed is in the window.
    Idle,
    /// Create the item.
    Create(NewItemRequest),
}

/// What opening fills in: the package field, and which field gets the
/// keyboard (the package when the name may stay empty, else the name).
#[derive(Debug)]
pub struct NewItemFields {
    pub package: String,
    pub focus_package: bool,
}

/// What a key did in the window.
#[derive(Debug)]
pub enum NewItemKey {
    /// No window is open: the key is not for it.
    Ignored,
    /// `Enter`: what submitting concluded.
    Submitted(NewItemOutcome),
    /// `Escape` closed the window.
    Closed,
    /// `Tab`: the next field of the window gets the keyboard.
    NextField,
    /// Any other key belongs to the field that has the keyboard.
    ToField,
}

/// The template chosen and where it will be created.
#[derive(Debug)]
pub struct NewItemDialog {
    pub template: NewItemTemplate,
    pub source_root: String,
    pub message: Option<String>,
}

/// The window: whether it shows, and what it was opened with.
#[derive(Debug)]
pub struct NewItemSurface {
    pub open: bool,
    pub dialog: Option<NewItemDialog>,
}

/// The nearest source root among the path and its ancestors.
pub open spec fn root_of(p: Seq<char>, names: Seq<Seq<char>>) -> Option<Seq<char>> {
    if exists|k: nat| #[trigger] root_ancestor(p, k, names) {
        let k = choose|k: nat|
            #[trigger] root_ancestor(p, k, names) && forall|j: nat| j < k ==> !root_ancestor(p, j, names);
        ancestor(p, k)
    } else {
        None
    }
}

/// The parts joined by dots.
pub open spec fn dotted(parts: Seq<Seq<char>>) -> Seq<char>
    decreases parts.len(),
{
    if parts.len() == 0 {
        Seq::empty()
    } else if parts.len() == 1 {
        parts[0]
    } else {
        dotted(parts.drop_last()) + "."@ + parts.last()
    }
}

/// The package of `p` below the source root `root`, in dotted notation;
/// empty when the root does not begin the path.
pub open spec fn package_of(p: Seq<char>, root: Seq<char>) -> Seq<char> {
    match stripped_of(p, root) {
        Some(rest) => dotted(components_of(rest)),
        None => Seq::empty(),
    }
}

proof fn lemma_root_of(p: Seq<char>, names: Seq<Seq<char>>, k: nat)
    requires
        root_ancestor(p, k, names),
        forall|j: nat| j < k ==> !#[trigger] root_ancestor(p, j, names),
    ensures
        root_of(p, names) == ancestor(p, k),
{
    let m = choose|m: nat|
        #[trigger] root_ancestor(p, m, names) && forall|j: nat| j < m ==> !root_ancestor(p, j, names);
    if m < k {
        assert(!root_ancestor(p, m, names));
    } else if k < m {
        assert(!root_ancestor(p, k, names));
    }
}

/// The nearest source root among `target` and its ancestors.
fn nearest_root(target: &str, source_root_names: &[String]) -> (r: Option<String>)
    ensures
        match root_of(target@, names_view(source_root_names@)) {
            Some(root) => r matches Some(x) && x@ == root,
            None => r is None,
        },
{
    let ghost names = names_view(source_root_names@);
    let mut current = Some(string_of(target));
    let ghost mut k: nat = 0;
    proof {
        assert(ancestor(target@, 0) == Some(target@));
    }
    loop
        invariant
            ancestor(target@, k) == match current {
                Some(c) => Some(c@),
                None => None::<Seq<char>>,
            },
            names == names_view(source_root_names@),
            forall|j: nat| j < k ==> !#[trigger] root_ancestor(target@, j, names),
        decreases match current {
            Some(c) => c@.len() + 1,
            None => 0,
        },
    {
        match current {
            None => {
                proof {
                    assert forall|j: nat| !#[trigger] root_ancestor(target@, j, names) by {
                        if j >= k {
                            lemma_ancestor_none(target@, k, j);
                        }
                    }
                }
                return None;
            },
            Some(c) => {
                if is_source_root(c.as_str(), source_root_names) {
                    proof {
                        assert(root_ancestor(target@, k, names));
                        lemma_root_of(target@, names, k);
                    }
                    return Some(c);
                }
                let next = parent(c.as_str());
                current = next;
                proof {
                    k = k + 1;
                }
            },
        }
    }
}


fn dotted_of(parts: &Vec<String>) -> (r: String)
    ensures
        r@ == dotted(parts@.map_values(|c: String| c@)),
{
    let ghost v = parts@.map_values(|c: String| c@);
    let mut r = String::new();
    let mut i: usize = 0;
    while i < parts.len()
        invariant
            0 <= i <= parts@.len(),
            v == parts@.map_values(|c: String| c@),
            r@ == dotted(v.take(i as int)),
        decreases parts@.len() - i,
    {
        proof {
            assert(v.take(i + 1).drop_last() =~= v.take(i as int));
            assert(v.take(i + 1).last() == parts@[i as int]@);
            if i == 0 {
                assert(v.take(1) =~= seq![parts@[0]@]);
            }
        }
        if i > 0 {
            push_str(&mut r, ".");
        }
        push_str(&mut r, parts[i].as_str());
        proof {
            reveal_strlit(".");
            if i == 0 {
                assert(r@ =~= parts@[0]@);
            }
        }
        i = i + 1;
    }
    proof {
        assert(v.take(v.len() as int) =~= v);
    }
    r
}

/// `e` is `d` with the message `m`.
pub open spec fn with_message(d: NewItemDialog, e: NewItemDialog, m: Seq<char>) -> bool {
    &&& e.template == d.template
    &&& e.source_root == d.source_root
    &&& e.message matches Some(x) && x@ == m
}

/// The outcome of submitting what the fields hold, and the window after it.
pub open spec fn submitted(
    before: NewItemSurface,
    after: NewItemSurface,
    package: Seq<char>,
    name: Seq<char>,
    r: NewItemOutcome,
) -> bool {
    &&& after.open == before.open
    &&& match before.dialog {
        None => r is Idle && after.dialog is None,
        Some(d) => if trim(package).len() == 0 {
            &&& r is Idle
            &&& after.dialog matches Some(e) && with_message(d, e, "Informe o pacote."@)
        } else if trim(name).len() == 0 && !d.template.allows_empty_name {
            &&& r is Idle
            &&& after.dialog matches Some(e) && with_message(d, e, "Informe o nome."@)
        } else {
            &&& after.dialog == before.dialog
            &&& r matches NewItemOutcome::Create(q) && q.template_id@ == d.template.id@ && q.package@
                == trim(package) && q.name@ == trim(name) && q.source_root@ == d.source_root@
        },
    }
}

impl NewItemSurface {
    /// A closed window.
    pub fn new() -> (r: Self)
        ensures
            !r.open,
            r.dialog is None,
    {
        NewItemSurface { open: false, dialog: None }
    }

    /// Whether the window shows.
    pub fn is_open(&self) -> (r: bool)
        ensures
            r == self.open,
    {
        self.open
    }

    /// Opens the window to create from `template` in the folder `target`.
    ///
    /// The package comes from the path, in dotted notation below the nearest
    /// source root among the target and its ancestors: it is what the
    /// Explorer shows and what the user edits to go deeper. Without a source
    /// root there is no package, the window stays as it was, and the answer
    /// is the reason.
    pub fn open(&mut self, template: NewItemTemplate, target: &str, source_root_names: &[String]) -> (r:
        Result<NewItemFields, String>)
        ensures
            match root_of(target@, names_view(source_root_names@)) {
                None => {
                    &&& r matches Err(m) && m@ == "Fora de uma raiz de fontes registrada"@
                    &&& final(self).open == old(self).open
                    &&& final(self).dialog == old(self).dialog
                },
                Some(root) => {
                    &&& final(self).open
                    &&& final(self).dialog matches Some(d) && d.template == template && d.source_root@ == root
                        && d.message is None
                    &&& r matches Ok(f) && f.package@ == package_of(target@, root) && f.focus_package
                        == template.allows_empty_name
                },
            },
    {
        let root = match nearest_root(target, source_root_names) {
            Some(r) => r,
            None => return Err(string_of("Fora de uma raiz de fontes registrada")),
        };
        let package = match strip_prefix(target, root.as_str()) {
            Some(rest) => dotted_of(&components(rest.as_str())),
            None => String::new(),
        };
        proof {
            reveal_strlit("");
        }
        let focus_package = template.allows_empty_name;
        self.open = true;
        self.dialog = Some(NewItemDialog { template, source_root: root, message: None });
        Ok(NewItemFields { package, focus_package })
    }

    /// Reports what kept the item from being created; the window stays.
    pub fn set_message(&mut self, message: String)
        ensures
            final(self).open == old(self).open,
            match old(self).dialog {
                Some(d) => final(self).dialog matches Some(e) && e.template == d.template && e.source_root
                    == d.source_root && e.message == Some(message),
                None => final(self).dialog is None,
            },
    {
        match self.dialog.take() {
            Some(d) => {
                self.dialog = Some(
                    NewItemDialog { template: d.template, source_root: d.source_root, message: Some(message) },
                );
            },
            None => {},
        }
    }

    /// Typing in a field: the message of the last error leaves.
    pub fn text_input(&mut self)
        ensures
            final(self).open == old(self).open,
            match old(self).dialog {
                Some(d) => final(self).dialog matches Some(e) && e.template == d.template && e.source_root
                    == d.source_root && e.message is None,
                None => final(self).dialog is None,
            },
    {
        match self.dialog.take() {
            Some(d) => {
                self.dialog = Some(
                    NewItemDialog { template: d.template, source_root: d.source_root, message: None },
                );
            },
            None => {},
        }
    }

    /// Closes the window and forgets what it was opened with.
    pub fn close(&mut self)
        ensures
            !final(self).open,
            final(self).dialog is None,
    {
        self.open = false;
        self.dialog = None;
    }

    /// Builds the request from what the fields hold. The package is needed:
    /// without it there is nowhere to create. The name is needed unless the
    /// template lets it stay empty, which creates the package alone.
    pub fn submit(&mut self, package: &str, name: &str) -> (r: NewItemOutcome)
        ensures
            submitted(*old(self), *final(self), package@, name@, r),
    {
        let (template_id, source_root, allows_empty_name) = match &self.dialog {
            Some(d) => (d.template.id.clone(), d.source_root.clone(), d.template.allows_empty_name),
            None => return NewItemOutcome::Idle,
        };
        let package = trimmed(package);
        let name = trimmed(name);
        if package.as_str().is_empty() {
            self.set_message(string_of("Informe o pacote."));
            return NewItemOutcome::Idle;
        }
        if name.as_str().is_empty() && !allows_empty_name {
            self.set_message(string_of("Informe o nome."));
            return NewItemOutcome::Idle;
        }
        NewItemOutcome::Create(NewItemRequest { template_id, package, name, source_root })
    }

    /// A button of the window, by its command: create, or cancel.
    pub fn command(&mut self, command: &str, package: &str, name: &str) -> (r: NewItemOutcome)
        ensures
            command@ == "new.create"@ ==> submitted(*old(self), *final(self), package@, name@, r),
            command@ == "new.cancel"@ ==> r is Idle && !final(self).open && final(self).dialog is None,
            command@ != "new.create"@ && command@ != "new.cancel"@ ==> r is Idle && final(self).open
                == old(self).open && final(self).dialog == old(self).dialog,
    {
        proof {
            reveal_strlit("new.create");
            reveal_strlit("new.cancel");
            assert("new.create"@[5] != "new.cancel"@[5]);
        }
        if crate::fmt::str_eq(command, "new.create") {
            return self.submit(package, name);
        }
        if crate::fmt::str_eq(command, "new.cancel") {
            self.close();
        }
        NewItemOutcome::Idle
    }

    /// A key in the window. `Enter` submits, `Escape` closes, `Tab` moves to
    /// the next field, and any other key belongs to the field; none of them
    /// is for the window when it has nothing open. Keys are compared without
    /// regard to ASCII case.
    pub fn key(&mut self, key: &str, package: &str, name: &str) -> (r: NewItemKey)
        ensures
            old(self).dialog is None ==> r is Ignored && final(self).open == old(self).open
                && final(self).dialog is None,
            old(self).dialog is Some ==> {
                let k = crate::explorer::lower_text(key@);
                if k == "enter"@ {
                    r matches NewItemKey::Submitted(o) && submitted(*old(self), *final(self), package@, name@, o)
                } else if k == "escape"@ {
                    r is Closed && !final(self).open && final(self).dialog is None
                } else {
                    &&& final(self).open == old(self).open
                    &&& final(self).dialog == old(self).dialog
                    &&& if k == "tab"@ {
                        r is NextField
                    } else {
                        r is ToField
                    }
                }
            },
    {
        if self.dialog.is_none() {
            return NewItemKey::Ignored;
        }
        let k = crate::explorer::to_ascii_lowercase(key);
        proof {
            reveal_strlit("enter");
            reveal_strlit("escape");
            reveal_strlit("tab");
        }
        if crate::fmt::str_eq(k.as_str(), "enter") {
            return NewItemKey::Submitted(self.submit(package, name));
        }
        if crate::fmt::str_eq(k.as_str(), "escape") {
            self.close();
            return NewItemKey::Closed;
        }
        if crate::fmt::str_eq(k.as_str(), "tab") {
            return NewItemKey::NextField;
        }
        NewItemKey::ToField
    }

    /// The title of the template open, if any.
    pub fn title(&self) -> (r: Option<&str>)
        ensures
            match self.dialog {
                Some(d) => r matches Some(t) && t@ == d.template.title@,
                None => r is None,
            },
    {
        match &self.dialog {
            Some(d) => Some(d.template.title.as_str()),
            None => None,
        }
    }

    /// What kept the item from being created, if anything.
    pub fn message(&self) -> (r: Option<&str>)
        ensures
            match self.dialog {
                Some(d) => match d.message {
                    Some(m) => r matches Some(t) && t@ == m@,
                    None => r is None,
                },
                None => r is None,
            },
    {
        match &self.dialog {
            Some(d) => match &d.message {
                Some(m) => Some(m.as_str()),
                None => None,
            },
            None => None,
        }
    }
}

impl Default for NewItemSurface {
    fn default() -> (r: Self)
        ensures
            !r.open,
            r.dialog is None,
    {
        NewItemSurface::new()
    }
}

} // verus!
