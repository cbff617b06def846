use ide_ui::generate::{
    title, AccessorCandidate, AccessorKind, AccessorPlan, GenerateOutcome, GenerateSurface,
};
use ide_ui::rename::TextPosition;

fn candidate(field: &str, source: Option<&str>) -> AccessorCandidate {
    AccessorCandidate { field: field.to_owned(), source: source.map(str::to_owned) }
}

fn plan() -> AccessorPlan {
    AccessorPlan {
        candidates: vec![
            candidate("nome", Some("  String getNome() { return nome; }\n")),
            candidate("idade", None),
            candidate("email", Some("  String getEmail() { return email; }\n")),
        ],
        insert_at: TextPosition { line: 9, column: 0 },
    }
}

#[test]
fn an_accessor_lists_only_the_fields_still_without_it() {
    let mut g = GenerateSurface::new();
    assert_eq!(g.show(AccessorKind::Getter, plan()), None);
    assert!(g.is_open());
    assert_eq!(g.fields(), vec!["nome".to_owned(), "email".to_owned()]);
    assert_eq!(g.checked_count(), 0);
}

#[test]
fn a_constructor_lists_every_field() {
    let mut g = GenerateSurface::new();
    assert_eq!(g.show(AccessorKind::Constructor, plan()), None);
    assert_eq!(g.fields(), vec!["nome".to_owned(), "idade".to_owned(), "email".to_owned()]);
}

#[test]
fn nothing_left_to_write_keeps_the_window_closed_and_says_why() {
    let mut g = GenerateSurface::default();
    let nada = AccessorPlan {
        candidates: vec![candidate("x", None)],
        insert_at: TextPosition { line: 1, column: 0 },
    };
    assert_eq!(
        g.show(AccessorKind::Setter, nada).as_deref(),
        Some("Todos os campos já têm esse acessor")
    );
    assert!(!g.is_open());
    assert!(g.fields().is_empty());
}

#[test]
fn ok_writes_the_checked_rows_at_the_line_given() {
    let mut g = GenerateSurface::new();
    g.show(AccessorKind::Getter, plan());
    g.toggle_row(1);
    assert_eq!(g.checked_count(), 1);
    g.toggle_row(7);
    assert_eq!(g.checked_count(), 1, "a row that is not there changes nothing");
    match g.confirm(false) {
        GenerateOutcome::Insert { text, line, message } => {
            assert_eq!(text, "  String getEmail() { return email; }\n");
            assert_eq!(line, 9);
            assert_eq!(message, "1 getter(s) gerado(s)");
        }
        other => panic!("esperava Insert, veio {other:?}"),
    }
    assert!(!g.is_open());
    assert!(matches!(g.confirm(false), GenerateOutcome::Idle), "confirmed once");
}

#[test]
fn all_ignores_the_marks() {
    let mut g = GenerateSurface::new();
    g.show(AccessorKind::Both, plan());
    match g.confirm(true) {
        GenerateOutcome::Insert { text, message, .. } => {
            assert_eq!(
                text,
                "  String getNome() { return nome; }\n  String getEmail() { return email; }\n"
            );
            assert_eq!(message, "2 acessor(s) gerado(s)");
        }
        other => panic!("esperava Insert, veio {other:?}"),
    }
}

#[test]
fn ok_with_nothing_checked_only_says_so() {
    let mut g = GenerateSurface::new();
    g.show(AccessorKind::Setter, plan());
    g.toggle_row(0);
    g.toggle_row(0);
    match g.confirm(false) {
        GenerateOutcome::Message(m) => assert_eq!(m, "Nenhum campo marcado"),
        other => panic!("esperava Message, veio {other:?}"),
    }
}

#[test]
fn the_constructor_waits_for_the_language() {
    let mut g = GenerateSurface::new();
    g.show(AccessorKind::Constructor, plan());
    g.toggle_row(0);
    g.toggle_row(2);
    assert!(matches!(g.confirm(false), GenerateOutcome::Idle));
    let (fields, at) = g.take_constructor_request().expect("the constructor is asked");
    assert_eq!(fields, vec!["nome".to_owned(), "email".to_owned()]);
    assert_eq!(at, TextPosition { line: 9, column: 0 });
    assert!(g.take_constructor_request().is_none());
}

#[test]
fn a_request_is_answered_once() {
    let mut g = GenerateSurface::new();
    g.request(AccessorKind::Setter);
    assert_eq!(g.take_request(), Some(AccessorKind::Setter));
    assert_eq!(g.take_request(), None);
}

#[test]
fn closing_forgets_the_fields() {
    let mut g = GenerateSurface::new();
    g.show(AccessorKind::Getter, plan());
    g.close();
    assert!(!g.is_open());
    assert!(g.fields().is_empty());
    assert_eq!(title(AccessorKind::Both), "Generate — Getter and Setter");
    assert_eq!(title(AccessorKind::Constructor), "Generate — Constructor");
}
