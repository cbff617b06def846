use ide_ui::tab_switcher::{AbaAberta, TabSwitcherSurface, VISIBLE_ROWS};

fn abas(n: u64) -> Vec<AbaAberta> {
    (0..n).map(|i| AbaAberta { documento: 100 + i, caminho: format!("/w/proj/src/A{i}.java") }).collect()
}

#[test]
fn opening_highlights_the_tab_after_the_active_one() {
    let mut t = TabSwitcherSurface::new();
    t.open(abas(3), Some(1), "/w/proj");
    assert!(t.is_open());
    assert_eq!(t.scroll_state(), (2, 0));
    assert_eq!(t.commit(), Some(102));
    assert!(!t.is_open());
    assert_eq!(t.commit(), None, "nothing to choose once closed");
}

#[test]
fn one_tab_is_nowhere_to_go() {
    let mut t = TabSwitcherSurface::default();
    t.open(abas(1), Some(0), "/w/proj");
    assert!(!t.is_open());
    assert_eq!(t.commit(), None);
}

#[test]
fn tab_goes_down_and_wraps_to_the_top() {
    let mut t = TabSwitcherSurface::new();
    t.open(abas(3), Some(2), "/w/proj");
    assert_eq!(t.scroll_state().0, 0, "from the last, the first");
    t.advance();
    t.advance();
    assert_eq!(t.scroll_state().0, 2);
    t.advance();
    assert_eq!(t.scroll_state().0, 0);
}

#[test]
fn the_list_scrolls_with_the_highlight() {
    let mut t = TabSwitcherSurface::new();
    t.open(abas(25), Some(12), "/w/proj");
    assert_eq!(t.scroll_state(), (13, 13 + 1 - VISIBLE_ROWS));
    for _ in 0..11 {
        t.advance();
    }
    assert_eq!(t.scroll_state(), (24, 15), "the last row shows at the foot");
    t.advance();
    assert_eq!(t.scroll_state(), (0, 0), "back at the top, the list follows");
    let labels = t.labels();
    assert_eq!(labels.len(), VISIBLE_ROWS);
    assert_eq!(labels[0], "A0.java  —  src");
}

#[test]
fn a_click_chooses_a_visible_row() {
    let mut t = TabSwitcherSurface::new();
    t.open(abas(4), None, "/other");
    assert_eq!(t.labels()[1], "A1.java  —  /w/proj/src", "outside the root the folder shows whole");
    assert_eq!(t.choose_row(9), None);
    assert!(t.is_open());
    assert_eq!(t.choose_row(3), Some(103));
    assert!(!t.is_open());
}
