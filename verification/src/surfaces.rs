//! Which window is in front, and what `Escape` gives up first.
use vstd::prelude::*;

verus! {

/// The windows that open over the IDE.
#[derive(Clone, Copy, Debug, Eq, PartialEq, Structural)]
pub enum SurfaceKind {
    Rename,
    Git,
    Generate,
    TypeSearch,
    Inspection,
    NewItem,
    Settings,
    TabSwitcher,
}

/// The windows in the order they are asked whether they are open.
pub open spec fn surface_order() -> Seq<SurfaceKind> {
    seq![
        SurfaceKind::Rename,
        SurfaceKind::Git,
        SurfaceKind::Generate,
        SurfaceKind::TypeSearch,
        SurfaceKind::Inspection,
        SurfaceKind::NewItem,
        SurfaceKind::Settings,
        SurfaceKind::TabSwitcher,
    ]
}

/// The first window of that order that is open, by `open[i]` for window
/// `i` of the order.
pub open spec fn first_open(open: Seq<bool>) -> Option<SurfaceKind> {
    if exists|i: int| 0 <= i < 8 && i < open.len() && open[i] {
        let i = choose|i: int|
            0 <= i < 8 && i < open.len() && open[i] && forall|j: int| 0 <= j < i ==> !open[j];
        Some(surface_order()[i])
    } else {
        None
    }
}

/// The window that has the keys: the first open one, in the order
/// rename, Git, generate, type search, inspection, new item, settings, tab
/// switcher; `open` says, in that order, which are open.
pub fn open_surface(open: &[bool; 8]) -> (r: Option<SurfaceKind>)
    ensures
        r == first_open(open@),
{
    let order: [SurfaceKind; 8] = [
        SurfaceKind::Rename,
        SurfaceKind::Git,
        SurfaceKind::Generate,
        SurfaceKind::TypeSearch,
        SurfaceKind::Inspection,
        SurfaceKind::NewItem,
        SurfaceKind::Settings,
        SurfaceKind::TabSwitcher,
    ];
    proof {
        assert(order@ =~= surface_order());
    }
    let mut i: usize = 0;
    while i < 8
        invariant
            0 <= i <= 8,
            open@.len() == 8,
            order@ == surface_order(),
            forall|j: int| 0 <= j < i ==> !open@[j],
        decreases 8 - i,
    {
        if open[i] {
            proof {
                let k = choose|k: int|
                    0 <= k < 8 && k < open@.len() && open@[k] && forall|j: int| 0 <= j < k ==> !open@[j];
                if k < i {
                    assert(!open@[k]);
                } else if i < k {
                    assert(!open@[i as int]);
                }
            }
            return Some(order[i]);
        }
        i = i + 1;
    }
    None
}

/// What `Escape` gives up.
#[derive(Clone, Copy, Debug, Eq, PartialEq, Structural)]
pub enum EscapeStep {
    /// The context menu took it.
    Menu,
    /// The window in front.
    Surface(SurfaceKind),
    /// The completion list.
    Completion,
    /// The edit at several occurrences, the text going back to before it.
    Marks,
    /// The search of the terminal, which has the keyboard.
    TerminalSearch,
    /// The search of the editor.
    Search,
    Nothing,
}

/// The order `Escape` follows: the context menu is over everything; then
/// the window in front; then the completion list; then the marks, which are
/// in front of the user, before the search; then the search that has the
/// keyboard, not both.
pub open spec fn escape_spec(
    menu_took_it: bool,
    surface: Option<SurfaceKind>,
    completion_open: bool,
    marking: bool,
    terminal_search_focused: bool,
    search_open: bool,
) -> EscapeStep {
    if menu_took_it {
        EscapeStep::Menu
    } else if surface is Some {
        EscapeStep::Surface(surface->0)
    } else if completion_open {
        EscapeStep::Completion
    } else if marking {
        EscapeStep::Marks
    } else if terminal_search_focused {
        EscapeStep::TerminalSearch
    } else if search_open {
        EscapeStep::Search
    } else {
        EscapeStep::Nothing
    }
}

/// What `Escape` gives up, given what is showing.
pub fn escape_step(
    menu_took_it: bool,
    surface: Option<SurfaceKind>,
    completion_open: bool,
    marking: bool,
    terminal_search_focused: bool,
    search_open: bool,
) -> (r: EscapeStep)
    ensures
        r == escape_spec(menu_took_it, surface, completion_open, marking, terminal_search_focused, search_open),
{
    if menu_took_it {
        return EscapeStep::Menu;
    }
    if let Some(kind) = surface {
        return EscapeStep::Surface(kind);
    }
    if completion_open {
        return EscapeStep::Completion;
    }
    if marking {
        return EscapeStep::Marks;
    }
    if terminal_search_focused {
        return EscapeStep::TerminalSearch;
    }
    if search_open {
        return EscapeStep::Search;
    }
    EscapeStep::Nothing
}

/// Who a press of the pointer belongs to.
#[derive(Clone, Copy, Debug, Eq, PartialEq, Structural)]
pub enum PointerStep {
    /// The open context menu took it.
    Menu,
    /// It fell on the completion list.
    Completion,
    /// The window in front takes every press.
    Surface(SurfaceKind),
    /// It fell on the terminal's search box, which takes the keyboard.
    TerminalSearch,
    /// It fell on the editor's search box, which takes the keyboard.
    Search,
    /// The open menu of the menu bar took it.
    MenuBar,
    /// The point alone decides: the part of the window under it.
    Target,
}

/// The order a press follows: the context menu has the first word; then the
/// completion list, over the windows it covers; then the window in front;
/// then the search boxes that lie over the code (the terminal's, then the
/// editor's, each only while open); then an open menu of the menu bar; and
/// only then the part of the window under the point.
pub open spec fn pointer_spec(
    menu_took_it: bool,
    on_completion: bool,
    surface: Option<SurfaceKind>,
    terminal_search_open: bool,
    on_terminal_search: bool,
    search_open: bool,
    on_search: bool,
    menu_bar_took_it: bool,
) -> PointerStep {
    if menu_took_it {
        PointerStep::Menu
    } else if on_completion {
        PointerStep::Completion
    } else if surface is Some {
        PointerStep::Surface(surface->0)
    } else if terminal_search_open && on_terminal_search {
        PointerStep::TerminalSearch
    } else if search_open && on_search {
        PointerStep::Search
    } else if menu_bar_took_it {
        PointerStep::MenuBar
    } else {
        PointerStep::Target
    }
}

/// Who a press belongs to, given what is showing and what the layers under
/// the point answered: whether the open context menu took it, whether the
/// point is on the completion list, which window is in front, whether the
/// point is on either search box, and whether an open menu of the menu bar
/// took it.
pub fn pointer_step(
    menu_took_it: bool,
    on_completion: bool,
    surface: Option<SurfaceKind>,
    terminal_search_open: bool,
    on_terminal_search: bool,
    search_open: bool,
    on_search: bool,
    menu_bar_took_it: bool,
) -> (r: PointerStep)
    ensures
        r == pointer_spec(
            menu_took_it,
            on_completion,
            surface,
            terminal_search_open,
            on_terminal_search,
            search_open,
            on_search,
            menu_bar_took_it,
        ),
{
    if menu_took_it {
        return PointerStep::Menu;
    }
    if on_completion {
        return PointerStep::Completion;
    }
    if let Some(kind) = surface {
        return PointerStep::Surface(kind);
    }
    if terminal_search_open && on_terminal_search {
        return PointerStep::TerminalSearch;
    }
    if search_open && on_search {
        return PointerStep::Search;
    }
    if menu_bar_took_it {
        return PointerStep::MenuBar;
    }
    PointerStep::Target
}

} // verus!
