use ide_ui::editor::{EditorCapabilities, EditorPane};
use ide_ui::split::{EditorSplit, SessionTabs};

fn area(docs: &[u64], active: u64) -> EditorSplit {
    let mut pane = EditorPane::new(EditorCapabilities::full());
    pane.set_cursor(7);
    EditorSplit {
        pane,
        divisao: None,
        session: SessionTabs { documents: docs.to_vec(), active: Some(active) },
        editor_focused: false,
    }
}

#[test]
fn splitting_shows_the_tab_on_the_right_and_keeps_the_left() {
    let mut a = area(&[1, 2, 3], 1);
    a.dividir_a_direita(9);
    assert!(!a.is_split(), "a document that is not open is not split");
    a.dividir_a_direita(2);
    assert!(a.is_split());
    assert!(a.split_focado());
    assert_eq!(a.session.active, Some(2));
    assert_eq!(a.left_active_document(), Some(1), "the document stays on the left");
    assert_eq!(a.other_document(), Some(1));
    assert_eq!(a.pane.cursor(), 0, "the right has a pane of its own");
    a.dividir_a_direita(3);
    assert_eq!(a.divisao.as_ref().map(|d| d.abas.clone()), Some(vec![2, 3]), "no third column");
    a.dividir_a_direita(2);
    assert_eq!(a.divisao.as_ref().map(|d| d.abas.clone()), Some(vec![2, 3]));
}

#[test]
fn the_keyboard_goes_left_and_back_with_each_pane() {
    let mut a = area(&[1, 2], 1);
    a.dividir_a_direita(2);
    a.focar_a_esquerda();
    assert!(!a.split_focado());
    assert_eq!(a.pane.cursor(), 7, "the left's pane is back in front");
    assert_eq!(a.session.active, Some(1));
    assert_eq!(a.other_document(), Some(2));
    a.focar_a_direita();
    assert_eq!(a.pane.cursor(), 0);
    assert_eq!(a.session.active, Some(2));
}

#[test]
fn opening_goes_to_the_side_last_clicked() {
    let mut a = area(&[1, 2, 3], 1);
    a.dividir_a_direita(2);
    assert!(a.abrir_no_split(3), "the right was clicked last");
    assert_eq!(a.divisao.as_ref().map(|d| (d.abas.clone(), d.ativa)), Some((vec![2, 3], 3)));
    a.marcar_clique(false);
    assert!(!a.abrir_no_split(2));
    assert!(!a.split_focado());
    assert_eq!(a.session.active, Some(2));
    assert_eq!(a.left_active_document(), Some(2));
    assert_eq!(a.other_document(), Some(3), "the right keeps what it showed");
}

#[test]
fn closing_the_last_tab_of_the_right_undoes_the_split() {
    let mut a = area(&[1, 2, 3], 1);
    a.dividir_a_direita(2);
    a.dividir_a_direita(3);
    a.split_tab_selected(2);
    assert_eq!(a.session.active, Some(2));
    a.split_tab_closed(2);
    assert_eq!(a.divisao.as_ref().map(|d| d.ativa), Some(3));
    a.split_tab_closed(3);
    assert!(!a.is_split());
    assert_eq!(a.session.active, Some(1), "the left's document is in front again");
}

#[test]
fn a_closed_document_leaves_both_sides() {
    let mut a = area(&[1, 2, 3], 1);
    a.dividir_a_direita(2);
    a.dividir_a_direita(3);
    a.split_forget(3);
    assert_eq!(a.divisao.as_ref().map(|d| (d.abas.clone(), d.ativa)), Some((vec![2], 2)));
    a.split_forget(2);
    assert!(!a.is_split());
    a.desfazer_a_divisao();
    assert!(!a.is_split());
}
