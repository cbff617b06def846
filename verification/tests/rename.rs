use ide_ui::rename::{
    group_occurrences, order_occurrences, reference_label, Location, RenameOutcome, RenameSurface,
    TextPosition, TextRange,
};

fn at(line: u32, column: u32, len: u32) -> TextRange {
    TextRange {
        start: TextPosition { line, column },
        end: TextPosition { line, column: column + len },
    }
}

fn loc(path: &str, line: u32, column: u32) -> Location {
    Location { path: path.to_owned(), range: at(line, column, 3) }
}

#[test]
fn an_affected_file_reads_with_its_folder_and_count() {
    assert_eq!(reference_label("src/a/B.java", 3), "B.java  (src/a)  —  3");
    assert_eq!(reference_label("B.java", 1), "B.java  —  1", "sem pasta, só o nome");
    assert_eq!(reference_label("/x/y/Z.ts", 12), "Z.ts  (/x/y)  —  12");
}

#[test]
fn occurrences_go_from_the_end_of_the_text_to_its_start_each_once() {
    let ranges = vec![at(1, 4, 3), at(7, 0, 3), at(1, 9, 3), at(7, 0, 3), at(3, 2, 3)];
    assert_eq!(
        order_occurrences(&ranges),
        vec![at(7, 0, 3), at(3, 2, 3), at(1, 9, 3), at(1, 4, 3)]
    );
    assert!(order_occurrences(&Vec::new()).is_empty());
}

#[test]
fn occurrences_are_grouped_by_file_in_path_order() {
    let refs = vec![loc("src/b/Y.java", 2, 0), loc("src/a/X.java", 5, 1), loc("src/b/Y.java", 9, 4), loc("src/a/X.java", 1, 0)];
    let grupos = group_occurrences(refs);
    assert_eq!(grupos.len(), 2);
    assert_eq!(grupos[0].0, "src/a/X.java");
    assert_eq!(grupos[0].1, vec![at(5, 1, 3), at(1, 0, 3)]);
    assert_eq!(grupos[1].0, "src/b/Y.java");
    assert_eq!(grupos[1].1, vec![at(9, 4, 3), at(2, 0, 3)]);
}

#[test]
fn paths_are_ordered_by_component_not_by_text() {
    let grupos = group_occurrences(vec![loc("a-b/F.java", 0, 0), loc("a/b/G.java", 0, 0)]);
    assert_eq!(grupos[0].0, "a/b/G.java", "`a` vem antes de `a-b`");
    assert_eq!(grupos[1].0, "a-b/F.java");
}

#[test]
fn confirming_a_new_name_hands_out_the_rename() {
    let mut w = RenameSurface::new();
    w.request("src/Foo.java".to_owned());
    assert_eq!(w.take_request().as_deref(), Some("src/Foo.java"));
    assert_eq!(w.take_request(), None, "respondido uma vez só");
    w.show("src/Foo.java".to_owned(), vec![loc("src/Foo.java", 0, 6), loc("src/Uso.java", 3, 2)]);
    assert!(w.is_open());
    assert_eq!(w.name(), "Foo");
    assert_eq!(w.references(), vec!["Foo.java  (src)  —  1", "Uso.java  (src)  —  1"]);
    w.set_name("  Bar ");
    match w.confirm() {
        RenameOutcome::Apply(d) => {
            assert_eq!(d.from, "src/Foo.java");
            assert_eq!(d.to, "src/Bar.java");
            assert_eq!(d.old_name, "Foo");
            assert_eq!(d.new_name, "Bar");
            assert_eq!(d.occurrences.len(), 2);
        }
        outro => panic!("esperava renomear: {outro:?}"),
    }
    assert!(!w.is_open());
}

#[test]
fn an_unchanged_or_empty_name_is_reported() {
    let mut w = RenameSurface::new();
    w.show("Foo.java".to_owned(), Vec::new());
    match w.confirm() {
        RenameOutcome::Message(m) => assert_eq!(m, "Nome inalterado"),
        outro => panic!("{outro:?}"),
    }
    w.show("Foo.java".to_owned(), Vec::new());
    w.set_name("   ");
    assert!(matches!(w.confirm(), RenameOutcome::Message(_)));
    assert!(matches!(w.confirm(), RenameOutcome::Idle), "sem janela, nada a concluir");
}

#[test]
fn enter_confirms_and_escape_gives_up() {
    let mut w = RenameSurface::new();
    w.show("a/Doc.md".to_owned(), Vec::new());
    assert!(matches!(w.key("ArrowLeft"), RenameOutcome::Idle));
    assert!(w.is_open());
    assert!(matches!(w.key("Escape"), RenameOutcome::Idle));
    assert!(!w.is_open());
    assert!(w.state.is_none());
    w.show("a/Doc.md".to_owned(), Vec::new());
    w.set_name("Novo");
    match w.key("ENTER") {
        RenameOutcome::Apply(d) => assert_eq!(d.to, "a/Novo.md"),
        outro => panic!("{outro:?}"),
    }
}
