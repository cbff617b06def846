use ide_ui::keys::{focused_key, shortcut, tecla_do_terminal, FocusedKey, ShellFocus, Shortcut, TerminalKey};
use ide_ui::surfaces::{escape_step, open_surface, pointer_step, EscapeStep, PointerStep, SurfaceKind};

#[test]
fn the_terminal_gets_its_keys_by_name_in_any_case() {
    assert_eq!(tecla_do_terminal("Enter"), Some(TerminalKey::Enter));
    assert_eq!(tecla_do_terminal("ARROWUP"), Some(TerminalKey::Up));
    assert_eq!(tecla_do_terminal("PageDown"), Some(TerminalKey::PageDown));
    assert_eq!(tecla_do_terminal("Delete"), Some(TerminalKey::Delete));
    assert_eq!(tecla_do_terminal("a"), None, "text arrives as typed text");
    assert_eq!(tecla_do_terminal("F5"), None);
}

#[test]
fn the_first_open_window_has_the_keys() {
    let mut open = [false; 8];
    assert_eq!(open_surface(&open), None);
    open[7] = true;
    assert_eq!(open_surface(&open), Some(SurfaceKind::TabSwitcher));
    open[1] = true;
    assert_eq!(open_surface(&open), Some(SurfaceKind::Git));
    open[0] = true;
    assert_eq!(open_surface(&open), Some(SurfaceKind::Rename));
}

#[test]
fn escape_gives_up_what_is_in_front_first() {
    assert_eq!(escape_step(true, Some(SurfaceKind::Git), true, true, true, true), EscapeStep::Menu);
    assert_eq!(
        escape_step(false, Some(SurfaceKind::Settings), true, true, true, true),
        EscapeStep::Surface(SurfaceKind::Settings)
    );
    assert_eq!(escape_step(false, None, true, true, true, true), EscapeStep::Completion);
    assert_eq!(escape_step(false, None, false, true, true, true), EscapeStep::Marks, "the marks before the search");
    assert_eq!(escape_step(false, None, false, false, true, true), EscapeStep::TerminalSearch, "only the search with the keyboard");
    assert_eq!(escape_step(false, None, false, false, false, true), EscapeStep::Search);
    assert_eq!(escape_step(false, None, false, false, false, false), EscapeStep::Nothing);
}

#[test]
fn control_tab_and_the_history_arrows_come_before_everything() {
    assert_eq!(shortcut("Tab", true, false), Some(Shortcut::CycleTab));
    assert_eq!(shortcut("TAB", true, true), Some(Shortcut::CycleTab));
    assert_eq!(shortcut("Tab", false, false), None, "sem Ctrl, Tab indenta");
    assert_eq!(shortcut("ArrowLeft", true, true), Some(Shortcut::NavigateBack));
    assert_eq!(shortcut("arrowright", true, true), Some(Shortcut::NavigateForward));
    assert_eq!(shortcut("ArrowLeft", true, false), None, "Ctrl sozinho salta palavras");
    assert_eq!(shortcut("ArrowUp", true, true), None);
}

#[test]
fn the_key_goes_where_the_focus_is() {
    assert_eq!(focused_key("Backspace", false, false, ShellFocus::Editor), FocusedKey::EditorBackspace);
    assert_eq!(focused_key("backspace", false, false, ShellFocus::Search), FocusedKey::SearchBackspace);
    assert_eq!(focused_key("Backspace", false, false, ShellFocus::Terminal), FocusedKey::Terminal(TerminalKey::Backspace));
    assert_eq!(focused_key("Backspace", false, false, ShellFocus::SearchTerminal), FocusedKey::Ignored);
    assert_eq!(focused_key("Backspace", false, false, ShellFocus::Explorer), FocusedKey::Ignored);
    assert_eq!(focused_key("Enter", false, false, ShellFocus::Search), FocusedKey::NextSearchHit);
    assert_eq!(focused_key("Enter", true, false, ShellFocus::Search), FocusedKey::PreviousSearchHit);
    assert_eq!(focused_key("ArrowDown", false, false, ShellFocus::Search), FocusedKey::Ignored);
    assert_eq!(focused_key("Enter", false, false, ShellFocus::SearchTerminal), FocusedKey::StepTerminalSearch(true));
    assert_eq!(focused_key("Enter", true, false, ShellFocus::SearchTerminal), FocusedKey::StepTerminalSearch(false));
    assert_eq!(focused_key("ArrowUp", false, false, ShellFocus::Terminal), FocusedKey::Terminal(TerminalKey::Up));
    assert_eq!(focused_key("x", false, false, ShellFocus::Terminal), FocusedKey::Ignored);
    assert_eq!(focused_key("Enter", false, false, ShellFocus::Editor), FocusedKey::Editor { opens_block: true });
    assert_eq!(focused_key("Enter", true, false, ShellFocus::Editor), FocusedKey::Editor { opens_block: false });
    assert_eq!(focused_key("a", false, false, ShellFocus::Editor), FocusedKey::Editor { opens_block: false });
    assert_eq!(focused_key("Enter", false, false, ShellFocus::Nowhere), FocusedKey::Ignored);
}

#[test]
fn a_press_goes_to_the_topmost_layer_that_takes_it() {
    assert_eq!(pointer_step(true, true, Some(SurfaceKind::Git), true, true, true, true, true), PointerStep::Menu);
    assert_eq!(pointer_step(false, true, Some(SurfaceKind::Git), true, true, true, true, true), PointerStep::Completion);
    assert_eq!(
        pointer_step(false, false, Some(SurfaceKind::Git), true, true, true, true, true),
        PointerStep::Surface(SurfaceKind::Git)
    );
    assert_eq!(pointer_step(false, false, None, true, true, true, true, true), PointerStep::TerminalSearch);
    assert_eq!(pointer_step(false, false, None, false, true, true, true, true), PointerStep::Search, "a closed box takes nothing");
    assert_eq!(pointer_step(false, false, None, true, false, true, false, true), PointerStep::MenuBar);
    assert_eq!(pointer_step(false, false, None, true, false, true, false, false), PointerStep::Target);
}
