use ide_ui::context_menu::{run_context_command, AlvoDoMenu, ContextCommand, ContextMenuSurface, DocumentId};
use ide_ui::editor::{EditorCapabilities, EditorPane};
use ide_ui::edits::{aplicar_trocas, TextEdit};
use ide_ui::generate::AccessorKind;
use ide_ui::new_item::{NewItemKey, NewItemOutcome, NewItemSurface, NewItemTemplate};
use ide_ui::rename::{TextPosition, TextRange};

fn edit(a: (u32, u32), b: (u32, u32), text: &str) -> TextEdit {
    TextEdit {
        range: TextRange {
            start: TextPosition { line: a.0, column: a.1 },
            end: TextPosition { line: b.0, column: b.1 },
        },
        text: text.to_owned(),
    }
}

#[test]
fn changes_apply_from_the_last_and_the_cursor_follows_what_came_before_it() {
    let mut pane = EditorPane::new(EditorCapabilities::full());
    let mut buffer = "package p;\nclass A {}\n".to_owned();
    pane.set_cursor(11);
    let trocas = vec![edit((1, 6), (1, 7), "Conta"), edit((1, 0), (1, 0), "import java.util.List;\n")];
    aplicar_trocas(&mut pane, &mut buffer, &trocas);
    assert_eq!(buffer, "package p;\nimport java.util.List;\nclass Conta {}\n");
    assert_eq!(pane.cursor(), 34, "the import went in above the cursor");
}

#[test]
fn a_change_out_of_order_is_left_out() {
    let mut pane = EditorPane::new(EditorCapabilities::full());
    let mut buffer = "abc\n".to_owned();
    pane.set_cursor(3);
    let trocas = vec![edit((0, 2), (0, 1), "x"), edit((0, 0), (0, 1), "")];
    aplicar_trocas(&mut pane, &mut buffer, &trocas);
    assert_eq!(buffer, "bc\n");
    assert_eq!(pane.cursor(), 3, "the shift never goes below zero");
}

#[test]
fn the_menu_hands_out_the_clicked_tab_once() {
    let mut menu = ContextMenuSurface::new();
    menu.abrir(AlvoDoMenu::Aba(DocumentId(3)));
    assert!(matches!(run_context_command(&mut menu, "editor.split.right", &[]), ContextCommand::SplitRight(DocumentId(3))));
    assert!(matches!(run_context_command(&mut menu, "editor.split.right", &[]), ContextCommand::Nothing));
}

#[test]
fn the_editor_commands_need_no_target() {
    let mut menu = ContextMenuSurface::new();
    assert!(matches!(
        run_context_command(&mut menu, "editor.generate.accessors", &[]),
        ContextCommand::Generate(AccessorKind::Both)
    ));
    assert!(matches!(
        run_context_command(&mut menu, "editor.generate.constructor", &[]),
        ContextCommand::Generate(AccessorKind::Constructor)
    ));
    assert!(matches!(run_context_command(&mut menu, "editor.copy", &[]), ContextCommand::Copy));
    assert!(matches!(run_context_command(&mut menu, "editor.paste", &[]), ContextCommand::Paste));
    assert!(matches!(run_context_command(&mut menu, "debug.inspect", &[]), ContextCommand::Inspect));
    assert!(matches!(run_context_command(&mut menu, "explorer.rename", &[]), ContextCommand::Nothing));
}

#[test]
fn the_explorer_commands_act_on_what_was_clicked() {
    let mut menu = ContextMenuSurface::new();
    menu.abrir(AlvoDoMenu::Explorer { pasta: "/w/src/br".to_owned(), arquivo: Some("/w/src/br/A.java".to_owned()) });
    let templates = vec!["java.class".to_owned(), "java.interface".to_owned()];
    match run_context_command(&mut menu, "explorer.rename", &templates) {
        ContextCommand::Rename(a) => assert_eq!(a, "/w/src/br/A.java"),
        other => panic!("esperava Rename, veio {other:?}"),
    }
    match run_context_command(&mut menu, "explorer.new.folder", &templates) {
        ContextCommand::Message(m) => assert_eq!(m, "Nova pasta em /w/src/br"),
        other => panic!("esperava Message, veio {other:?}"),
    }
    match run_context_command(&mut menu, "explorer.new.java.interface", &templates) {
        ContextCommand::NewItem { template, target } => {
            assert_eq!(template, 1);
            assert_eq!(target, "/w/src/br");
        }
        other => panic!("esperava NewItem, veio {other:?}"),
    }
    assert!(matches!(run_context_command(&mut menu, "explorer.new.java.enum", &templates), ContextCommand::Nothing));
    assert!(matches!(run_context_command(&mut menu, "explorer.delete", &templates), ContextCommand::Nothing));
    assert!(menu.is_open(), "running a command leaves closing to whoever ran it");
}

fn template(allows_empty_name: bool) -> NewItemTemplate {
    NewItemTemplate { id: "java.class".to_owned(), title: "New Class".to_owned(), allows_empty_name }
}

#[test]
fn opening_fills_the_package_from_the_nearest_source_root() {
    let roots = vec!["src".to_owned()];
    let mut w = NewItemSurface::new();
    let fields = w.open(template(false), "/w/proj/src/br/com", &roots).expect("under a source root");
    assert_eq!(fields.package, "br.com");
    assert!(!fields.focus_package, "the name is what is left to type");
    assert!(w.is_open());
    assert_eq!(w.title(), Some("New Class"));
    let mut w2 = NewItemSurface::default();
    let root = w2.open(template(true), "/w/proj/src", &roots).expect("the root itself");
    assert_eq!(root.package, "");
    assert!(root.focus_package);
    let mut fora = NewItemSurface::new();
    assert_eq!(fora.open(template(false), "/w/proj/lib", &roots).err().as_deref(), Some("Fora de uma raiz de fontes registrada"));
    assert!(!fora.is_open());
}

#[test]
fn submitting_needs_a_package_and_usually_a_name() {
    let roots = vec!["src".to_owned()];
    let mut w = NewItemSurface::new();
    w.open(template(false), "/w/src/br", &roots).expect("under a source root");
    assert!(matches!(w.submit("  ", "Conta"), NewItemOutcome::Idle));
    assert_eq!(w.message(), Some("Informe o pacote."));
    w.text_input();
    assert_eq!(w.message(), None, "typing clears the message");
    assert!(matches!(w.submit("br", " "), NewItemOutcome::Idle));
    assert_eq!(w.message(), Some("Informe o nome."));
    match w.submit(" br.com ", " Conta ") {
        NewItemOutcome::Create(q) => {
            assert_eq!(q.template_id, "java.class");
            assert_eq!(q.package, "br.com");
            assert_eq!(q.name, "Conta");
            assert_eq!(q.source_root, "/w/src");
        }
        other => panic!("esperava Create, veio {other:?}"),
    }
    let mut pacote = NewItemSurface::new();
    pacote.open(template(true), "/w/src", &roots).expect("the root");
    assert!(matches!(pacote.submit("br.novo", ""), NewItemOutcome::Create(_)), "a package may come without a name");
}

#[test]
fn the_keys_and_buttons_of_the_window() {
    let roots = vec!["src".to_owned()];
    let mut w = NewItemSurface::new();
    assert!(matches!(w.key("Enter", "br", "A"), NewItemKey::Ignored));
    w.open(template(false), "/w/src/br", &roots).expect("under a source root");
    assert!(matches!(w.key("Tab", "br", ""), NewItemKey::NextField));
    assert!(matches!(w.key("a", "br", ""), NewItemKey::ToField));
    assert!(matches!(w.key("ENTER", "br", "A"), NewItemKey::Submitted(NewItemOutcome::Create(_))));
    assert!(matches!(w.command("new.other", "br", "A"), NewItemOutcome::Idle));
    assert!(w.is_open());
    assert!(matches!(w.key("Escape", "br", "A"), NewItemKey::Closed));
    assert!(!w.is_open());
    w.open(template(false), "/w/src/br", &roots).expect("under a source root");
    assert!(matches!(w.command("new.create", "br", "B"), NewItemOutcome::Create(_)));
    assert!(matches!(w.command("new.cancel", "br", "B"), NewItemOutcome::Idle));
    assert!(!w.is_open());
    assert_eq!(w.title(), None);
}
