use ide_ui::context_menu::{explorer_target, AlvoDoMenu, ContextMenuSurface, DocumentId};
use ide_ui::debugging::{
    frame_label, variable_line, DebugCommand, DebugFrameView, DebugPanelState, DebugVariableView, DebugView,
};
use ide_ui::editor::EditorCapabilities;

#[test]
fn closing_the_menu_forgets_its_target() {
    let mut menu = ContextMenuSurface::new();
    assert!(!menu.is_open());
    menu.abrir(AlvoDoMenu::Explorer { pasta: "/w/src".to_owned(), arquivo: Some("/w/src/A.java".to_owned()) });
    assert!(menu.is_open());
    assert_eq!(menu.pasta().map(String::as_str), Some("/w/src"));
    assert_eq!(menu.arquivo().map(String::as_str), Some("/w/src/A.java"));
    menu.close();
    assert!(!menu.is_open());
    assert!(menu.alvo.is_none());
    assert!(menu.pasta().is_none());
}

#[test]
fn the_tab_is_taken_once_and_other_targets_stay() {
    let mut menu = ContextMenuSurface::default();
    menu.abrir(AlvoDoMenu::Aba(DocumentId(7)));
    assert!(menu.pasta().is_none());
    assert_eq!(menu.take_aba(), Some(DocumentId(7)));
    assert_eq!(menu.take_aba(), None, "quem consome age uma vez só");
    menu.abrir(AlvoDoMenu::Editor);
    assert_eq!(menu.take_aba(), None);
    assert!(matches!(menu.alvo, Some(AlvoDoMenu::Editor)), "outro alvo fica");
    menu.abrir(AlvoDoMenu::Explorer { pasta: "/p".to_owned(), arquivo: None });
    assert_eq!(menu.arquivo(), None, "clicar numa pasta não traz arquivo");
}

#[test]
fn capabilities_are_all_on_or_all_off() {
    let full = EditorCapabilities::full();
    assert!(full.navigation && full.breakpoint_gutter && full.save && full.context_menu);
    let plain = EditorCapabilities::plain();
    assert!(!plain.navigation && !plain.breakpoint_gutter && !plain.save && !plain.context_menu);
    assert_eq!(EditorCapabilities::default(), full);
}

#[test]
fn breakpoints_toggle_and_report_the_count() {
    let mut d = DebugPanelState::new();
    assert_eq!(d.toggle_breakpoint("A.java", 4).status, "Breakpoints: 1");
    assert_eq!(d.toggle_breakpoint("A.java", 2).status, "Breakpoints: 2");
    assert_eq!(d.toggle_breakpoint("B.java", 4).status, "Breakpoints: 3");
    assert_eq!(d.breakpoints_for("A.java"), vec![2, 4]);
    assert_eq!(d.toggle_breakpoint("A.java", 4).status, "Breakpoints: 2");
    assert_eq!(d.breakpoints_for("A.java"), vec![2]);
    assert_eq!(d.breakpoints_for("B.java"), vec![4]);
    assert_eq!(d.breakpoint_count(), 2);
    assert_eq!(
        d.toggle_breakpoint("B.java", 4).command,
        DebugCommand::BreakpointsChanged("B.java".to_owned()),
        "the target must learn the file's breakpoints again"
    );
    assert_eq!(d.breakpoint_count(), 1);
}

#[test]
fn the_breakpoint_at_the_cursor_is_on_its_line() {
    let mut d = DebugPanelState::new();
    let text = "int a;\nint b;\nint c;";
    assert_eq!(d.toggle_breakpoint_at_cursor("C.java", text, 9).status, "Breakpoints: 1");
    assert_eq!(d.breakpoints_for("C.java"), vec![1]);
    d.toggle_breakpoint_at_cursor("C.java", text, 100);
    assert_eq!(d.breakpoints_for("C.java"), vec![1, 2], "além do fim é a última linha");
}

#[test]
fn the_target_confirms_breakpoints_per_file() {
    let mut d = DebugPanelState::new();
    d.set_verified_breakpoints("A.java", &[3, 5]);
    assert!(d.breakpoint_is_verified("A.java", 5));
    assert!(!d.breakpoint_is_verified("A.java", 4));
    assert!(!d.breakpoint_is_verified("B.java", 5));
    d.set_verified_breakpoints("A.java", &[]);
    assert!(!d.breakpoint_is_verified("A.java", 5));
}

#[test]
fn a_new_stop_asks_to_open_its_place_once() {
    let mut d = DebugPanelState::new();
    let parado = DebugView {
        attached: true,
        status: "parado".to_owned(),
        stopped_at: Some(("A.java".to_owned(), 10)),
        frames: Vec::new(),
        selected_frame: 0,
        variables: Vec::new(),
    };
    assert_eq!(d.set_debug_view(parado.clone()), Some(("A.java".to_owned(), 10)));
    assert!(d.attached());
    assert!(d.view.is_stopped());
    assert_eq!(d.set_debug_view(parado), None, "o mesmo lugar não é reaberto");
}

#[test]
fn frames_and_variables_read_as_lines() {
    let frame = DebugFrameView { name: "main".to_owned(), location: Some(("A.java".to_owned(), 9)) };
    assert_eq!(frame_label(&frame), "main:10");
    let solto = DebugFrameView { name: "run".to_owned(), location: None };
    assert_eq!(frame_label(&solto), "run");
    let v = DebugVariableView { name: "x".to_owned(), value: "3".to_owned(), type_label: None, expandable: false };
    assert_eq!(variable_line(&v), "x = 3");
}

#[test]
fn the_explorer_menu_creates_in_the_folder_and_renames_the_file() {
    match explorer_target("src/app/A.java", false) {
        AlvoDoMenu::Explorer { pasta, arquivo } => {
            assert_eq!(pasta, "src/app");
            assert_eq!(arquivo.as_deref(), Some("src/app/A.java"));
        }
        outro => panic!("{outro:?}"),
    }
    match explorer_target("src/app", true) {
        AlvoDoMenu::Explorer { pasta, arquivo } => {
            assert_eq!(pasta, "src/app");
            assert_eq!(arquivo, None);
        }
        outro => panic!("{outro:?}"),
    }
}
