use ide_ui::debugging::DebugVariableView;
use ide_ui::editor::{EditorCapabilities, EditorPane};
use ide_ui::inspection::{
    id, inspect_selection, path_of, statements, trimmed, variable_label, InspectionFocus, InspectionNode,
    InspectionRequest, InspectionSurface,
};

fn var(name: &str, value: &str, type_label: Option<&str>, expandable: bool) -> DebugVariableView {
    DebugVariableView {
        name: name.to_owned(),
        value: value.to_owned(),
        type_label: type_label.map(str::to_owned),
        expandable,
    }
}

fn texts(r: &[InspectionRequest]) -> Vec<String> {
    r.iter()
        .map(|x| match x {
            InspectionRequest::Status(s) => format!("status:{s}"),
            InspectionRequest::Evaluate(s) => format!("evaluate:{s}"),
            InspectionRequest::Expand(s) => format!("expand:{s}"),
        })
        .collect()
}

#[test]
fn statements_end_at_semicolons_and_line_breaks() {
    assert_eq!(statements("a; b\nc"), vec!["a", "b", "c"]);
    assert_eq!(statements("x = 1;\r\ny = 2;"), vec!["x = 1", "y = 2"]);
}

#[test]
fn a_semicolon_inside_quotes_does_not_split() {
    assert_eq!(statements("setNome(\"a; b\")"), vec!["setNome(\"a; b\")"]);
    assert_eq!(
        statements("f(\"a\\\"; b\"); g()"),
        vec!["f(\"a\\\"; b\")", "g()"]
    );
}

#[test]
fn blank_statements_are_left_out_and_the_rest_trimmed() {
    assert_eq!(statements("  ;  \r\n  x  "), vec!["x"]);
    assert!(statements("").is_empty());
    assert!(statements(" ;\n; ").is_empty());
    assert_eq!(statements("\u{3000}y\u{a0}"), vec!["y"]);
}

#[test]
fn trimming_takes_unicode_white_space_from_both_ends() {
    assert_eq!(trimmed("  a b \t"), "a b");
    assert_eq!(trimmed("\u{2003}ação\u{2028}"), "ação");
    assert_eq!(trimmed("   "), "");
}

#[test]
fn a_variable_reads_with_its_type_when_known() {
    assert_eq!(variable_label(&var("n", "4", Some("int"), false)), "n = (int) 4");
    assert_eq!(variable_label(&var("n", "4", None, false)), "n = 4");
}

fn tree() -> InspectionNode {
    let mut root = InspectionNode::new("m".to_owned(), var("m", "M@1", Some("M"), true));
    let mut a = InspectionNode::new("m.a".to_owned(), var("a", "A@2", Some("A"), true));
    a.children.push(InspectionNode::new("m.a.x".to_owned(), var("x", "1", Some("int"), false)));
    root.children.push(a);
    root.children.push(InspectionNode::new("m.b".to_owned(), var("b", "2", None, false)));
    root
}

#[test]
fn nodes_are_found_by_path() {
    let root = tree();
    assert_eq!(root.find("m").map(|n| n.variable.value.as_str()), Some("M@1"));
    assert_eq!(root.find("m.a.x").map(|n| n.variable.value.as_str()), Some("1"));
    assert_eq!(root.find("m.b").map(|n| n.variable.value.as_str()), Some("2"));
    assert!(root.find("m.c").is_none());
    assert!(root.find("outro").is_none());
}

#[test]
fn a_node_found_to_change_changes_in_place() {
    let mut root = tree();
    let node = root.find_mut("m.a.x").expect("m.a.x");
    node.loaded = true;
    assert!(root.find("m.a.x").unwrap().loaded);
    assert!(!root.find("m.a").unwrap().loaded);
    assert!(root.find_mut("m.z").is_none());
}

#[test]
fn the_path_of_an_identity_is_found_depth_first() {
    let root = tree();
    assert_eq!(path_of(&root, id("m.a.x")).as_deref(), Some("m.a.x"));
    assert_eq!(path_of(&root, id("m")).as_deref(), Some("m"));
    assert_eq!(path_of(&root, id("nada")), None);
    assert_ne!(id("m.a"), id("m.b"));
    assert_eq!(id("m.a"), id("m.a"));
}

#[test]
fn showing_opens_the_root_with_its_fields() {
    let mut s = InspectionSurface::new();
    s.show("m".to_owned(), var("m", "M@1", Some("M"), true), vec![var("a", "1", Some("int"), false), var("b", "x", None, true)]);
    assert!(s.is_open());
    assert_eq!(s.expression(), Some("m"));
    let v = s.view.as_ref().unwrap();
    assert_eq!(v.root.children.len(), 2);
    assert_eq!(v.root.children[1].path, "m.b");
    assert_eq!(v.expanded, vec!["m".to_owned()]);
    assert_eq!(v.selected, "m");
    assert_eq!(s.selected_variable().map(|x| x.value.as_str()), Some("M@1"));
    assert_eq!(s.type_of("m").as_deref(), Some("M"));
    assert_eq!(s.type_of("a").as_deref(), Some("int"));
    assert_eq!(s.type_of("b"), None);
    assert_eq!(s.type_of("zz"), None);

    let mut vazio = InspectionSurface::new();
    vazio.show("n".to_owned(), var("n", "3", Some("int"), false), Vec::new());
    assert!(vazio.view.as_ref().unwrap().expanded.is_empty(), "sem campos não há o que abrir");
}

#[test]
fn the_same_root_again_only_refreshes_the_values() {
    let mut s = InspectionSurface::new();
    s.show("m".to_owned(), var("m", "M@1", None, true), vec![var("a", "1", None, true)]);
    let pedidos = s.select_id(id("m.a"));
    assert_eq!(texts(&pedidos), vec!["expand:m.a"]);
    assert_eq!(s.view.as_ref().unwrap().selected, "m.a");
    s.add_fields("m.a", vec![var("k", "9", None, false)]);
    let r = s.result("m".to_owned(), var("m", "M@2", None, true), vec![var("a", "2", None, true)]);
    assert_eq!(texts(&r), vec!["expand:m.a"], "o que estava aberto é relido");
    let v = s.view.as_ref().unwrap();
    assert_eq!(v.root.variable.value, "M@2");
    assert_eq!(v.selected, "m.a", "o destacado continua");
    assert_eq!(v.expanded, vec!["m".to_owned(), "m.a".to_owned()]);
}

#[test]
fn fields_that_never_came_leave_the_node_closed() {
    let mut s = InspectionSurface::new();
    s.show("m".to_owned(), var("m", "M", None, true), vec![var("a", "1", None, true)]);
    s.select_id(id("m.a"));
    assert!(s.view.as_ref().unwrap().expanded.contains(&"m.a".to_owned()));
    s.add_fields("m.a", Vec::new());
    let v = s.view.as_ref().unwrap();
    assert!(!v.expanded.contains(&"m.a".to_owned()));
    assert!(v.root.find("m.a").unwrap().loaded);
    let again = s.select_id(id("m.a"));
    assert!(again.is_empty(), "lido, não se pede de novo");
    let closing = s.select_id(id("m.a"));
    assert!(closing.is_empty());
}

#[test]
fn running_sends_one_statement_at_a_time_and_reports() {
    let mut s = InspectionSurface::new();
    s.show("m".to_owned(), var("m", "M", None, true), Vec::new());
    s.set_source("m.setId(4L); m.getId()");
    let r = s.run_source(true);
    assert_eq!(texts(&r), vec!["status:Executando m.setId(4L) (1 de 2)", "evaluate:m.setId(4L)"]);
    let r = s.result("m.setId(4L)".to_owned(), var("", "void", None, false), Vec::new());
    assert_eq!(texts(&r), vec!["status:Executando m.getId() (2 de 2)", "evaluate:m.getId()"]);
    let r = s.result("m.getId()".to_owned(), var("", "4", None, false), Vec::new());
    assert_eq!(texts(&r), vec!["evaluate:m"], "a árvore é relida");
    assert_eq!(s.message(), Some("2 instruções executadas — m.getId() → 4"));
    assert!(s.run.is_none());
    assert_eq!(s.expression(), Some("m"), "a árvore não é trocada pelo retorno");
}

#[test]
fn a_single_statement_reports_its_answer() {
    let mut s = InspectionSurface::new();
    s.show("m".to_owned(), var("m", "M", None, true), Vec::new());
    s.set_source("m.getId()");
    let r = s.run_source(true);
    assert_eq!(texts(&r), vec!["status:Executando m.getId()", "evaluate:m.getId()"]);
    s.result("m.getId()".to_owned(), var("", "7", None, false), Vec::new());
    assert_eq!(s.message(), Some("m.getId() → 7"));
}

#[test]
fn a_failure_stops_the_run_and_says_where() {
    let mut s = InspectionSurface::new();
    s.show("m".to_owned(), var("m", "M", None, true), Vec::new());
    s.set_source("a(); b(); c()");
    s.run_source(true);
    s.result("a()".to_owned(), var("", "1", None, false), Vec::new());
    let r = s.set_message("erro".to_owned());
    assert_eq!(s.message(), Some("parou na instrução 2 de 3: erro"));
    assert_eq!(texts(&r), vec!["evaluate:m"], "o que rodou antes teve efeito");
    assert!(s.run.is_none());

    let mut t = InspectionSurface::new();
    t.show("m".to_owned(), var("m", "M", None, true), Vec::new());
    t.set_source("a(); b()");
    t.run_source(true);
    let r = t.set_message("erro".to_owned());
    assert_eq!(t.message(), Some("parou na instrução 1 de 2: erro"));
    assert!(r.is_empty(), "nada rodou, nada a reler");
}

#[test]
fn running_needs_a_session_and_something_to_run() {
    let mut s = InspectionSurface::new();
    s.show("m".to_owned(), var("m", "M", None, true), Vec::new());
    assert!(s.run_source(false).is_empty());
    assert_eq!(s.message(), Some("A sessão de depuração terminou; reconecte para executar"));
    s.set_source("  ;  ");
    let r = s.run_source(true);
    assert_eq!(texts(&r), vec!["status:Escreva a expressão a executar"]);
}

#[test]
fn closing_forgets_the_object() {
    let mut s = InspectionSurface::new();
    s.show("m".to_owned(), var("m", "M", None, true), Vec::new());
    s.focus_source();
    assert!(s.is_source_focused());
    s.close();
    assert!(!s.is_open());
    assert_eq!(s.expression(), None);
    assert_eq!(s.message(), None);
    assert_eq!(s.focus, InspectionFocus::Source);
    let mut closed = InspectionSurface::new();
    assert!(closed.set_message("x".to_owned()).is_empty());
    assert_eq!(closed.message(), None, "fechada, a janela não relata");
}

#[test]
fn the_selection_is_evaluated_trimmed_and_never_blank() {
    let mut pane = EditorPane::new(EditorCapabilities::full());
    let buffer = "let x =  conta.saldo ;";
    assert_eq!(inspect_selection(&pane, buffer), None, "nothing selected");
    pane.set_selection(Some((7, 20)));
    assert_eq!(inspect_selection(&pane, buffer), Some(InspectionRequest::Evaluate("conta.saldo".to_owned())));
    pane.set_selection(Some((20, 7)));
    assert_eq!(inspect_selection(&pane, buffer), Some(InspectionRequest::Evaluate("conta.saldo".to_owned())), "either way round");
    pane.set_selection(Some((7, 9)));
    assert_eq!(inspect_selection(&pane, buffer), None, "only blanks");
    let accented = "é x";
    pane.set_selection(Some((1, 4)));
    assert_eq!(inspect_selection(&pane, accented), None, "not between characters");
}
