//! Where a key goes: the shortcuts the window takes before anyone else,
//! the keys the terminal's shell understands, and what the part with the
//! focus does with a key that nobody in front took.
use vstd::prelude::*;
use crate::explorer::{ascii_lower, eq_ascii_case, eq_ignore_ascii_case, lower_text, to_ascii_lowercase};
use crate::fmt::str_eq;

verus! {

/// A key the terminal's shell receives; everything else is text.
#[derive(Clone, Copy, Debug, Eq, PartialEq, Structural)]
pub enum TerminalKey {
    Enter,
    Tab,
    Backspace,
    Escape,
    Up,
    Down,
    Left,
    Right,
    Home,
    End,
    PageUp,
    PageDown,
    Delete,
}

/// The terminal key a key name stands for, ignoring ASCII case.
pub open spec fn terminal_key_spec(name: Seq<char>) -> Option<TerminalKey> {
    let k = lower_text(name);
    if k == "enter"@ {
        Some(TerminalKey::Enter)
    } else if k == "tab"@ {
        Some(TerminalKey::Tab)
    } else if k == "backspace"@ {
        Some(TerminalKey::Backspace)
    } else if k == "escape"@ {
        Some(TerminalKey::Escape)
    } else if k == "arrowup"@ {
        Some(TerminalKey::Up)
    } else if k == "arrowdown"@ {
        Some(TerminalKey::Down)
    } else if k == "arrowleft"@ {
        Some(TerminalKey::Left)
    } else if k == "arrowright"@ {
        Some(TerminalKey::Right)
    } else if k == "home"@ {
        Some(TerminalKey::Home)
    } else if k == "end"@ {
        Some(TerminalKey::End)
    } else if k == "pageup"@ {
        Some(TerminalKey::PageUp)
    } else if k == "pagedown"@ {
        Some(TerminalKey::PageDown)
    } else if k == "delete"@ {
        Some(TerminalKey::Delete)
    } else {
        None
    }
}

/// The key, as the window names it, as the shell understands it; none for
/// what is text, which arrives as typed text.
pub fn tecla_do_terminal(key: &str) -> (r: Option<TerminalKey>)
    ensures
        r == terminal_key_spec(key@),
{
    let k = to_ascii_lowercase(key);
    let k = k.as_str();
    if str_eq(k, "enter") {
        Some(TerminalKey::Enter)
    } else if str_eq(k, "tab") {
        Some(TerminalKey::Tab)
    } else if str_eq(k, "backspace") {
        Some(TerminalKey::Backspace)
    } else if str_eq(k, "escape") {
        Some(TerminalKey::Escape)
    } else if str_eq(k, "arrowup") {
        Some(TerminalKey::Up)
    } else if str_eq(k, "arrowdown") {
        Some(TerminalKey::Down)
    } else if str_eq(k, "arrowleft") {
        Some(TerminalKey::Left)
    } else if str_eq(k, "arrowright") {
        Some(TerminalKey::Right)
    } else if str_eq(k, "home") {
        Some(TerminalKey::Home)
    } else if str_eq(k, "end") {
        Some(TerminalKey::End)
    } else if str_eq(k, "pageup") {
        Some(TerminalKey::PageUp)
    } else if str_eq(k, "pagedown") {
        Some(TerminalKey::PageDown)
    } else if str_eq(k, "delete") {
        Some(TerminalKey::Delete)
    } else {
        None
    }
}

/// The part of the window that the keyboard speaks to.
#[derive(Clone, Copy, Debug, Eq, PartialEq, Structural)]
pub enum ShellFocus {
    Nowhere,
    Editor,
    Explorer,
    /// The search box of the editor.
    Search,
    /// The search box of the terminal.
    SearchTerminal,
    Terminal,
}

/// A gesture the window takes before the open windows and the editor see
/// the key.
#[derive(Clone, Copy, Debug, Eq, PartialEq, Structural)]
pub enum Shortcut {
    /// `Ctrl+Tab`: the next tab, whatever is open.
    CycleTab,
    /// `Ctrl+Alt+Left`: one step back on the way of `Ctrl+Click`.
    NavigateBack,
    /// `Ctrl+Alt+Right`: one step forward again.
    NavigateForward,
}

pub open spec fn shortcut_spec(key: Seq<char>, control: bool, alt: bool) -> Option<Shortcut> {
    if control && eq_ascii_case(key, "tab"@) {
        Some(Shortcut::CycleTab)
    } else if control && alt && eq_ascii_case(key, "arrowleft"@) {
        Some(Shortcut::NavigateBack)
    } else if control && alt && eq_ascii_case(key, "arrowright"@) {
        Some(Shortcut::NavigateForward)
    } else {
        None
    }
}

/// The shortcut the key makes, if any. With `Ctrl`, `Tab` changes tabs
/// rather than indenting, and with `Ctrl+Alt` the side arrows walk the
/// navigation history rather than the text.
pub fn shortcut(key: &str, control: bool, alt: bool) -> (r: Option<Shortcut>)
    ensures
        r == shortcut_spec(key@, control, alt),
{
    if control && eq_ignore_ascii_case(key, "tab") {
        return Some(Shortcut::CycleTab);
    }
    if control && alt {
        if eq_ignore_ascii_case(key, "arrowleft") {
            return Some(Shortcut::NavigateBack);
        }
        if eq_ignore_ascii_case(key, "arrowright") {
            return Some(Shortcut::NavigateForward);
        }
    }
    None
}

/// What the part with the focus does with a key that the menu, the open
/// window and the completion list left.
#[derive(Clone, Copy, Debug, Eq, PartialEq, Structural)]
pub enum FocusedKey {
    /// The editor erases, the way its backspace does.
    EditorBackspace,
    /// The search box loses its last character and marks again.
    SearchBackspace,
    /// The key goes to the terminal's shell.
    Terminal(TerminalKey),
    /// The cursor goes to the next occurrence of the search, going round.
    NextSearchHit,
    /// The cursor goes to the previous occurrence.
    PreviousSearchHit,
    /// The terminal's search steps forward (`true`) or back.
    StepTerminalSearch(bool),
    /// The editor takes the key; `opens_block` says whether a plain `Enter`
    /// first tries to open a block after an opener.
    Editor { opens_block: bool },
    /// Nobody does anything.
    Ignored,
}

pub open spec fn focused_key_spec(key: Seq<char>, shift: bool, control: bool, focus: ShellFocus) -> FocusedKey {
    if eq_ascii_case(key, "backspace"@) {
        match focus {
            ShellFocus::Editor => FocusedKey::EditorBackspace,
            ShellFocus::Search => FocusedKey::SearchBackspace,
            ShellFocus::Terminal => FocusedKey::Terminal(TerminalKey::Backspace),
            _ => FocusedKey::Ignored,
        }
    } else {
        match focus {
            ShellFocus::Search => if eq_ascii_case(key, "enter"@) {
                if shift {
                    FocusedKey::PreviousSearchHit
                } else {
                    FocusedKey::NextSearchHit
                }
            } else {
                FocusedKey::Ignored
            },
            ShellFocus::SearchTerminal => if eq_ascii_case(key, "enter"@) {
                FocusedKey::StepTerminalSearch(!shift)
            } else {
                FocusedKey::Ignored
            },
            ShellFocus::Terminal => match terminal_key_spec(key) {
                Some(k) => FocusedKey::Terminal(k),
                None => FocusedKey::Ignored,
            },
            ShellFocus::Editor => FocusedKey::Editor {
                opens_block: eq_ascii_case(key, "enter"@) && !shift && !control,
            },
            _ => FocusedKey::Ignored,
        }
    }
}

/// Where a key goes once nothing in front took it: `Backspace` erases in the
/// editor and in the editor's search box, and goes to the terminal's shell
/// when the terminal has the focus (elsewhere it does nothing); in a search
/// box `Enter` walks the occurrences (`Shift` walks back) and the rest
/// arrives as typed text; the terminal gets the keys its shell knows; the
/// editor gets everything.
pub fn focused_key(key: &str, shift: bool, control: bool, focus: ShellFocus) -> (r: FocusedKey)
    ensures
        r == focused_key_spec(key@, shift, control, focus),
{
    if eq_ignore_ascii_case(key, "backspace") {
        return match focus {
            ShellFocus::Editor => FocusedKey::EditorBackspace,
            ShellFocus::Search => FocusedKey::SearchBackspace,
            ShellFocus::Terminal => FocusedKey::Terminal(TerminalKey::Backspace),
            _ => FocusedKey::Ignored,
        };
    }
    match focus {
        ShellFocus::Search => {
            if eq_ignore_ascii_case(key, "enter") {
                if shift {
                    FocusedKey::PreviousSearchHit
                } else {
                    FocusedKey::NextSearchHit
                }
            } else {
                FocusedKey::Ignored
            }
        },
        ShellFocus::SearchTerminal => {
            if eq_ignore_ascii_case(key, "enter") {
                FocusedKey::StepTerminalSearch(!shift)
            } else {
                FocusedKey::Ignored
            }
        },
        ShellFocus::Terminal => match tecla_do_terminal(key) {
            Some(k) => FocusedKey::Terminal(k),
            None => FocusedKey::Ignored,
        },
        ShellFocus::Editor => {
            let enter = eq_ignore_ascii_case(key, "enter");
            FocusedKey::Editor { opens_block: enter && !shift && !control }
        },
        _ => FocusedKey::Ignored,
    }
}

/// The name the window gives each terminal key, in lower case.
pub open spec fn key_name(k: TerminalKey) -> Seq<char> {
    match k {
        TerminalKey::Enter => "enter"@,
        TerminalKey::Tab => "tab"@,
        TerminalKey::Backspace => "backspace"@,
        TerminalKey::Escape => "escape"@,
        TerminalKey::Up => "arrowup"@,
        TerminalKey::Down => "arrowdown"@,
        TerminalKey::Left => "arrowleft"@,
        TerminalKey::Right => "arrowright"@,
        TerminalKey::Home => "home"@,
        TerminalKey::End => "end"@,
        TerminalKey::PageUp => "pageup"@,
        TerminalKey::PageDown => "pagedown"@,
        TerminalKey::Delete => "delete"@,
    }
}

pub(crate) proof fn lemma_same_case_match(a: Seq<char>, b: Seq<char>)
    requires
        forall|i: int| 0 <= i < b.len() ==> ascii_lower(#[trigger] b[i]) == b[i],
    ensures
        eq_ascii_case(a, b) <==> lower_text(a) == b,
{
    if eq_ascii_case(a, b) {
        assert(lower_text(a) =~= b);
    }
    if lower_text(a) == b {
        assert forall|i: int| 0 <= i < a.len() implies ascii_lower(a[i]) == ascii_lower(b[i]) by {
            assert(lower_text(a)[i] == ascii_lower(a[i]));
        }
    }
}

/// Each key name, in any ASCII case, gives the terminal key of that name and
/// no other: the key named "home" is `Home`, and two different names never
/// give the same key. With the terminal focused, the key goes to the shell
/// exactly as that key.
pub proof fn law_each_name_gives_the_key_of_that_name(name: Seq<char>, key: TerminalKey, shift: bool, control: bool)
    ensures
        terminal_key_spec(name) == Some(key) <==> lower_text(name) == key_name(key),
        focused_key_spec(name, shift, control, ShellFocus::Terminal) == FocusedKey::Terminal(key) <==> lower_text(name)
            == key_name(key),
{
    reveal_strlit("enter");
    reveal_strlit("tab");
    reveal_strlit("backspace");
    reveal_strlit("escape");
    reveal_strlit("arrowup");
    reveal_strlit("arrowdown");
    reveal_strlit("arrowleft");
    reveal_strlit("arrowright");
    reveal_strlit("home");
    reveal_strlit("end");
    reveal_strlit("pageup");
    reveal_strlit("pagedown");
    reveal_strlit("delete");
    let b = "backspace"@;
    assert forall|i: int| 0 <= i < b.len() implies ascii_lower(#[trigger] b[i]) == b[i] by {}
    lemma_same_case_match(name, b);
    assert("enter"@.len() != "tab"@.len());
    assert("enter"@.len() != "backspace"@.len());
    assert("enter"@.len() != "escape"@.len());
    assert("enter"@.len() != "arrowup"@.len());
    assert("enter"@.len() != "arrowdown"@.len());
    assert("enter"@.len() != "arrowleft"@.len());
    assert("enter"@.len() != "arrowright"@.len());
    assert("enter"@.len() != "home"@.len());
    assert("enter"@.len() != "end"@.len());
    assert("enter"@.len() != "pageup"@.len());
    assert("enter"@.len() != "pagedown"@.len());
    assert("enter"@.len() != "delete"@.len());
    assert("tab"@.len() != "backspace"@.len());
    assert("tab"@.len() != "escape"@.len());
    assert("tab"@.len() != "arrowup"@.len());
    assert("tab"@.len() != "arrowdown"@.len());
    assert("tab"@.len() != "arrowleft"@.len());
    assert("tab"@.len() != "arrowright"@.len());
    assert("tab"@.len() != "home"@.len());
    assert("tab"@[0] != "end"@[0]);
    assert("tab"@.len() != "pageup"@.len());
    assert("tab"@.len() != "pagedown"@.len());
    assert("tab"@.len() != "delete"@.len());
    assert("backspace"@.len() != "escape"@.len());
    assert("backspace"@.len() != "arrowup"@.len());
    assert("backspace"@[0] != "arrowdown"@[0]);
    assert("backspace"@[0] != "arrowleft"@[0]);
    assert("backspace"@.len() != "arrowright"@.len());
    assert("backspace"@.len() != "home"@.len());
    assert("backspace"@.len() != "end"@.len());
    assert("backspace"@.len() != "pageup"@.len());
    assert("backspace"@.len() != "pagedown"@.len());
    assert("backspace"@.len() != "delete"@.len());
    assert("escape"@.len() != "arrowup"@.len());
    assert("escape"@.len() != "arrowdown"@.len());
    assert("escape"@.len() != "arrowleft"@.len());
    assert("escape"@.len() != "arrowright"@.len());
    assert("escape"@.len() != "home"@.len());
    assert("escape"@.len() != "end"@.len());
    assert("escape"@[0] != "pageup"@[0]);
    assert("escape"@.len() != "pagedown"@.len());
    assert("escape"@[0] != "delete"@[0]);
    assert("arrowup"@.len() != "arrowdown"@.len());
    assert("arrowup"@.len() != "arrowleft"@.len());
    assert("arrowup"@.len() != "arrowright"@.len());
    assert("arrowup"@.len() != "home"@.len());
    assert("arrowup"@.len() != "end"@.len());
    assert("arrowup"@.len() != "pageup"@.len());
    assert("arrowup"@.len() != "pagedown"@.len());
    assert("arrowup"@.len() != "delete"@.len());
    assert("arrowdown"@[5] != "arrowleft"@[5]);
    assert("arrowdown"@.len() != "arrowright"@.len());
    assert("arrowdown"@.len() != "home"@.len());
    assert("arrowdown"@.len() != "end"@.len());
    assert("arrowdown"@.len() != "pageup"@.len());
    assert("arrowdown"@.len() != "pagedown"@.len());
    assert("arrowdown"@.len() != "delete"@.len());
    assert("arrowleft"@.len() != "arrowright"@.len());
    assert("arrowleft"@.len() != "home"@.len());
    assert("arrowleft"@.len() != "end"@.len());
    assert("arrowleft"@.len() != "pageup"@.len());
    assert("arrowleft"@.len() != "pagedown"@.len());
    assert("arrowleft"@.len() != "delete"@.len());
    assert("arrowright"@.len() != "home"@.len());
    assert("arrowright"@.len() != "end"@.len());
    assert("arrowright"@.len() != "pageup"@.len());
    assert("arrowright"@.len() != "pagedown"@.len());
    assert("arrowright"@.len() != "delete"@.len());
    assert("home"@.len() != "end"@.len());
    assert("home"@.len() != "pageup"@.len());
    assert("home"@.len() != "pagedown"@.len());
    assert("home"@.len() != "delete"@.len());
    assert("end"@.len() != "pageup"@.len());
    assert("end"@.len() != "pagedown"@.len());
    assert("end"@.len() != "delete"@.len());
    assert("pageup"@.len() != "pagedown"@.len());
    assert("pageup"@[0] != "delete"@[0]);
    assert("pagedown"@.len() != "delete"@.len());
}

} // verus!
