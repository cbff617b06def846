use ide_ui::editor::{EditorAction, EditorCapabilities, EditorPane, KeyEffect, ViewPositions};

/// The next occurrence of `needle` from character `from` on, going round to
/// the start of the text; in characters.
fn next_occurrence(text: &str, needle: &str, from: usize) -> Option<(usize, usize)> {
    let cs: Vec<char> = text.chars().collect();
    let ns: Vec<char> = needle.chars().collect();
    if ns.is_empty() || ns.len() > cs.len() {
        return None;
    }
    let fits = |i: usize| i + ns.len() <= cs.len() && cs[i..i + ns.len()] == ns[..];
    (from..cs.len())
        .chain(0..from.min(cs.len()))
        .find(|&i| fits(i))
        .map(|i| (i, i + ns.len()))
}

/// `Ctrl+D` as the screen runs it: the pane says what to search, the search
/// answers, the pane adds the mark.
fn select_next_occurrence(pane: &mut EditorPane, text: &str) -> bool {
    match pane.occurrence_search(text) {
        Some((needle, from)) => {
            let found = next_occurrence(text, &needle, from);
            pane.add_occurrence(text, found)
        }
        None => false,
    }
}

/// The leading spaces and tabs of the line that holds byte `at`.
fn line_indentation(text: &str, at: usize) -> String {
    let start = text[..at].rfind('\n').map_or(0, |i| i + 1);
    text[start..]
        .chars()
        .take_while(|c| *c == ' ' || *c == '\t')
        .collect()
}

/// A key as the screen runs it, finishing what the pane asks for.
fn press(pane: &mut EditorPane, buffer: &mut String, key: &str, shift: bool, control: bool) -> EditorAction {
    match pane.key(buffer, key, shift, control) {
        KeyEffect::Done(action) => action,
        KeyEffect::NeedsIndentation(at) => {
            let indentation = line_indentation(buffer, at);
            pane.line_break(buffer, &indentation);
            EditorAction::Idle
        }
        KeyEffect::NeedsShiftedLines(inwards) => {
            let range = pane.selection_range().expect("Tab with a selection");
            let start = buffer[..range.start].rfind('\n').map_or(0, |i| i + 1);
            let mut out = String::new();
            out.push_str(&buffer[..start]);
            for (i, line) in buffer[start..range.end].split('\n').enumerate() {
                if i > 0 {
                    out.push('\n');
                }
                if inwards {
                    out.push_str("    ");
                    out.push_str(line);
                } else {
                    out.push_str(line.strip_prefix("    ").unwrap_or(line));
                }
            }
            out.push_str(&buffer[range.end..]);
            let chars = out.chars().count();
            let updated = out.clone();
            pane.set_shifted(buffer, &updated, Some((0, chars)));
            EditorAction::Idle
        }
        KeyEffect::NeedsWordBoundary(forward) => {
            let cs: Vec<char> = buffer.chars().collect();
            let word = |c: char| c.is_alphanumeric() || c == '_';
            let mut i = buffer[..pane.cursor()].chars().count();
            if forward {
                while i < cs.len() && !word(cs[i]) {
                    i += 1;
                }
                while i < cs.len() && word(cs[i]) {
                    i += 1;
                }
            } else {
                while i > 0 && !word(cs[i - 1]) {
                    i -= 1;
                }
                while i > 0 && word(cs[i - 1]) {
                    i -= 1;
                }
            }
            let target = buffer.char_indices().nth(i).map_or(buffer.len(), |(b, _)| b);
            pane.move_cursor(target, shift);
            EditorAction::Idle
        }
        KeyEffect::NeedsNextOccurrence => {
            let text = buffer.clone();
            select_next_occurrence(pane, &text);
            EditorAction::Idle
        }
    }
}

fn pane(capabilities: EditorCapabilities) -> (EditorPane, String) {
    (EditorPane::new(capabilities), String::from("um\ndois\ntres"))
}

#[test]
fn the_cursor_never_stops_between_the_carriage_return_and_the_break() {
    let (mut pane, _) = pane(EditorCapabilities::plain());
    let mut buffer = String::from("int x = 1; \r\nint y = 2;\r\n");
    pane.set_cursor(11);
    press(&mut pane, &mut buffer, "ArrowRight", false, false);
    assert_eq!(pane.cursor(), 13, "a seta pula o fim de linha inteiro, e não para dentro dele");
    press(&mut pane, &mut buffer, "ArrowLeft", false, false);
    assert_eq!(pane.cursor(), 11, "e volta para o fim do que se vê");
    pane.insert(&mut buffer, "z");
    assert_eq!(buffer, "int x = 1; z\r\nint y = 2;\r\n");
    for linha in buffer.split('\n') {
        assert!(!linha.trim_end_matches('\r').contains('\r'), "nenhum retorno no meio de uma linha: {linha:?}");
    }
    pane.set_cursor(12);
    press(&mut pane, &mut buffer, "ArrowDown", false, false);
    press(&mut pane, &mut buffer, "ArrowUp", false, false);
    assert!(pane.cursor() <= 12);
}

#[test]
fn shift_with_the_four_arrows_selects_from_the_cursor() {
    let (mut pane, _) = pane(EditorCapabilities::plain());
    let mut buffer = String::from("um\ndois\ntres");
    pane.set_cursor(0);
    press(&mut pane, &mut buffer, "ArrowRight", true, false);
    press(&mut pane, &mut buffer, "ArrowRight", true, false);
    assert_eq!(pane.selected_text(&buffer).as_deref(), Some("um"));
    press(&mut pane, &mut buffer, "ArrowDown", true, false);
    assert_eq!(pane.selected_text(&buffer).as_deref(), Some("um\ndo"));
    press(&mut pane, &mut buffer, "ArrowUp", true, false);
    assert_eq!(pane.selected_text(&buffer).as_deref(), Some("um"));
    press(&mut pane, &mut buffer, "ArrowLeft", true, false);
    assert_eq!(pane.selected_text(&buffer).as_deref(), Some("u"));
    press(&mut pane, &mut buffer, "ArrowRight", false, false);
    assert_eq!(pane.selection_range(), None);
}

#[test]
fn saving_only_answers_when_the_capability_is_on() {
    let (mut plain, mut buffer) = pane(EditorCapabilities::plain());
    assert_eq!(plain.key(&mut buffer, "s", false, true), KeyEffect::Done(EditorAction::Idle));
    let (mut full, mut buffer) = pane(EditorCapabilities::full());
    assert_eq!(full.key(&mut buffer, "s", false, true), KeyEffect::Done(EditorAction::Save));
}

#[test]
fn undo_walks_back_one_action_at_a_time_up_to_ten() {
    let (mut pane, _) = pane(EditorCapabilities::plain());
    let mut buffer = String::new();
    for letra in ["a", "b", "c"] {
        pane.insert(&mut buffer, letra);
    }
    assert_eq!(buffer, "abc");
    press(&mut pane, &mut buffer, "z", false, true);
    assert_eq!(buffer, "ab");
    press(&mut pane, &mut buffer, "z", false, true);
    assert_eq!(buffer, "a");
    assert_eq!(pane.cursor(), 1, "o cursor volta junto com o texto");
    press(&mut pane, &mut buffer, "z", false, true);
    press(&mut pane, &mut buffer, "z", false, true);
    assert_eq!(buffer, "");
    let mut longo = String::new();
    let mut outro = EditorPane::new(EditorCapabilities::plain());
    for _ in 0..15 {
        outro.insert(&mut longo, "x");
    }
    assert_eq!(outro.undo_depth(), 10);
}

#[test]
fn control_d_adds_the_next_occurrence_of_the_selection() {
    let (mut pane, _) = pane(EditorCapabilities::plain());
    let buffer = String::from("nome = nome + nome");
    pane.set_selection(Some((0, 4)));
    assert!(select_next_occurrence(&mut pane, &buffer));
    assert_eq!(pane.occurrences(), vec![(0, 4), (7, 11)]);
    assert!(select_next_occurrence(&mut pane, &buffer));
    assert_eq!(pane.occurrences(), vec![(0, 4), (7, 11), (14, 18)]);
    assert!(!select_next_occurrence(&mut pane, &buffer));
    assert_eq!(pane.occurrences().len(), 3);
    let mut solto = EditorPane::new(EditorCapabilities::plain());
    assert!(!select_next_occurrence(&mut solto, &buffer));
}

#[test]
fn the_history_does_not_cross_from_one_document_to_another() {
    let (mut pane, _) = pane(EditorCapabilities::plain());
    let mut primeiro = String::from("primeiro");
    pane.set_source(1);
    pane.insert(&mut primeiro, "!");
    assert_eq!(pane.undo_depth(), 1);
    pane.set_source(2);
    assert_eq!(pane.undo_depth(), 0, "o histórico do outro arquivo não vale");
    let mut segundo = String::from("segundo");
    assert!(!pane.undo(&mut segundo));
    assert_eq!(segundo, "segundo", "nada do outro arquivo vazou");
}

#[test]
fn typing_replays_the_change_at_every_marked_occurrence() {
    let (mut pane, _) = pane(EditorCapabilities::plain());
    let mut buffer = String::from("nome = nome + nome");
    pane.set_cursor(4);
    pane.set_selection(Some((0, 4)));
    select_next_occurrence(&mut pane, &buffer);
    select_next_occurrence(&mut pane, &buffer);
    pane.insert(&mut buffer, "s");
    assert_eq!(buffer, "nomes = nomes + nomes", "o que estava lá fica");
    assert_eq!(pane.occurrences(), vec![(0, 5), (8, 13), (16, 21)]);
    pane.insert(&mut buffer, "!");
    assert_eq!(buffer, "nomes! = nomes! + nomes!");
    assert_eq!(pane.occurrences().len(), 3);
    press(&mut pane, &mut buffer, "Backspace", false, false);
    assert_eq!(buffer, "nomes = nomes + nomes");
    press(&mut pane, &mut buffer, "Backspace", false, false);
    assert_eq!(buffer, "nome = nome + nome");
}

#[test]
fn the_change_happens_where_the_cursor_is_inside_each_mark() {
    let (mut pane, _) = pane(EditorCapabilities::plain());
    let mut buffer = String::from("nome = nome");
    pane.set_cursor(2);
    pane.set_selection(Some((0, 4)));
    select_next_occurrence(&mut pane, &buffer);
    pane.insert(&mut buffer, "X");
    assert_eq!(buffer, "noXme = noXme", "a letra entra onde o cursor estava, não no fim");
    press(&mut pane, &mut buffer, "ArrowRight", false, false);
    pane.insert(&mut buffer, "Y");
    assert_eq!(buffer, "noXmYe = noXmYe");
    press(&mut pane, &mut buffer, "ArrowLeft", false, false);
    press(&mut pane, &mut buffer, "Backspace", false, false);
    assert_eq!(buffer, "noXYe = noXYe", "apagar segue o mesmo ponto");
    for _ in 0..10 {
        press(&mut pane, &mut buffer, "ArrowLeft", false, false);
    }
    pane.insert(&mut buffer, "Z");
    assert_eq!(buffer, "ZnoXYe = ZnoXYe");
}

#[test]
fn control_with_the_side_arrows_jumps_between_words() {
    let (mut pane, _) = pane(EditorCapabilities::plain());
    let mut buffer = String::from("int número = valor;");
    pane.set_cursor(0);
    press(&mut pane, &mut buffer, "ArrowRight", false, true);
    assert_eq!(pane.cursor(), 3, "fim de `int`");
    press(&mut pane, &mut buffer, "ArrowRight", false, true);
    assert_eq!(pane.cursor(), 11, "`número` tem sete bytes, e não seis");
    press(&mut pane, &mut buffer, "ArrowLeft", false, true);
    assert_eq!(pane.cursor(), 4, "começo de `número`");
    press(&mut pane, &mut buffer, "ArrowRight", true, true);
    assert_eq!(pane.selection_range(), Some(4..11));
    pane.set_cursor(0);
    press(&mut pane, &mut buffer, "ArrowRight", false, false);
    assert_eq!(pane.cursor(), 1);
}

#[test]
fn the_marks_are_not_a_selection() {
    let (mut pane, _) = pane(EditorCapabilities::plain());
    let mut buffer = String::from("nome = nome");
    pane.set_cursor(4);
    pane.set_selection(Some((0, 4)));
    select_next_occurrence(&mut pane, &buffer);
    assert_eq!(pane.occurrences(), vec![(0, 4), (7, 11)]);
    assert_eq!(pane.selection_range(), None, "marcar não deixa seleção para trás");
    assert_eq!(pane.selected_text(&buffer), None);
    pane.insert(&mut buffer, "i");
    assert_eq!(buffer, "nomei = nomei");
    assert_eq!(pane.selection_range(), None);
}

#[test]
fn backspace_removes_a_whole_character_from_each_occurrence() {
    let (mut pane, _) = pane(EditorCapabilities::plain());
    let mut buffer = String::from("x = x");
    pane.set_cursor(1);
    pane.set_selection(Some((0, 1)));
    select_next_occurrence(&mut pane, &buffer);
    pane.insert(&mut buffer, "ç");
    pane.insert(&mut buffer, "ã");
    assert_eq!(buffer, "xçã = xçã");
    press(&mut pane, &mut buffer, "Backspace", false, false);
    assert_eq!(buffer, "xç = xç", "sai um caractere, não um byte");
}

#[test]
fn enter_confirms_the_multi_edit_and_escape_undoes_it() {
    let (mut pane, _) = pane(EditorCapabilities::plain());
    let mut buffer = String::from("nome = nome");
    pane.set_cursor(4);
    pane.set_selection(Some((0, 4)));
    select_next_occurrence(&mut pane, &buffer);
    pane.insert(&mut buffer, "id");
    press(&mut pane, &mut buffer, "Enter", false, false);
    assert_eq!(buffer, "nomeid = nomeid");
    assert!(pane.occurrences().is_empty(), "confirmar solta as marcas");
    press(&mut pane, &mut buffer, "Enter", false, false);
    assert!(buffer.contains('\n'));

    let mut outro = EditorPane::new(EditorCapabilities::plain());
    let mut voltando = String::from("nome = nome");
    outro.set_cursor(4);
    outro.set_selection(Some((0, 4)));
    select_next_occurrence(&mut outro, &voltando);
    outro.insert(&mut voltando, "id");
    assert_eq!(voltando, "nomeid = nomeid");
    press(&mut outro, &mut voltando, "Escape", false, false);
    assert_eq!(voltando, "nome = nome", "desistir devolve o texto ao que era antes das marcas");
    assert!(outro.occurrences().is_empty());
}

#[test]
fn enter_keeps_the_indentation_of_the_previous_line() {
    let (mut pane, _) = pane(EditorCapabilities::plain());
    let mut buffer = String::from("class A {\n    int total;");
    pane.set_cursor(buffer.len());
    press(&mut pane, &mut buffer, "Enter", false, false);
    assert_eq!(buffer, "class A {\n    int total;\n    ");
    assert_eq!(pane.cursor(), buffer.len());
    pane.insert(&mut buffer, "x");
    assert_eq!(buffer, "class A {\n    int total;\n    x");
    let mut raso = String::from("abc");
    pane.set_cursor(3);
    press(&mut pane, &mut raso, "Enter", false, false);
    assert_eq!(raso, "abc\n");
}

#[test]
fn the_indentation_survives_multibyte_text() {
    let (mut pane, _) = pane(EditorCapabilities::plain());
    let mut buffer = String::from("    ação;");
    pane.set_cursor(buffer.len());
    press(&mut pane, &mut buffer, "Enter", false, false);
    assert_eq!(buffer, "    ação;\n    ");
}

#[test]
fn editing_works_with_every_capability_off() {
    let (mut pane, mut buffer) = pane(EditorCapabilities::plain());
    pane.set_cursor(2);
    pane.insert(&mut buffer, "!");
    assert_eq!(buffer, "um!\ndois\ntres");
    press(&mut pane, &mut buffer, "ArrowDown", false, false);
    assert_eq!(pane.cursor(), "um!\ndoi".len());
    pane.set_selection(Some((0, 3)));
    press(&mut pane, &mut buffer, "Tab", false, false);
    assert_eq!(buffer, "    um!\ndois\ntres");
}

#[test]
fn tab_without_a_selection_reaches_the_next_stop() {
    let mut pane = EditorPane::new(EditorCapabilities::plain());
    let mut buffer = String::from("ab");
    pane.set_cursor(2);
    press(&mut pane, &mut buffer, "Tab", false, false);
    assert_eq!(buffer, "ab  ");
    assert_eq!(pane.cursor(), 4);
    press(&mut pane, &mut buffer, "Tab", false, false);
    assert_eq!(buffer, "ab      ");
}

#[test]
fn shift_tab_takes_the_spaces_that_start_the_line() {
    let mut pane = EditorPane::new(EditorCapabilities::plain());
    let mut buffer = String::from("x\n      valor");
    pane.set_cursor(buffer.len());
    press(&mut pane, &mut buffer, "Tab", true, false);
    assert_eq!(buffer, "x\n  valor");
    assert_eq!(pane.cursor(), buffer.len());
    press(&mut pane, &mut buffer, "Tab", true, false);
    assert_eq!(buffer, "x\nvalor");
    press(&mut pane, &mut buffer, "Tab", true, false);
    assert_eq!(buffer, "x\nvalor", "sem espaços, nada muda");
}

#[test]
fn backspace_takes_a_whole_character_or_the_selection() {
    let mut pane = EditorPane::new(EditorCapabilities::plain());
    let mut buffer = String::from("ação");
    pane.set_cursor(buffer.len());
    press(&mut pane, &mut buffer, "Backspace", false, false);
    assert_eq!(buffer, "açã");
    assert_eq!(pane.cursor(), 5);
    press(&mut pane, &mut buffer, "Backspace", false, false);
    assert_eq!(buffer, "aç", "sai um caractere de dois bytes inteiro");
    assert_eq!(pane.cursor(), 3);
    pane.set_selection(Some((3, 0)));
    press(&mut pane, &mut buffer, "Backspace", false, false);
    assert_eq!(buffer, "");
    assert_eq!(pane.cursor(), 0);
    press(&mut pane, &mut buffer, "Backspace", false, false);
    assert_eq!(buffer, "", "no começo não há o que apagar");
}

#[test]
fn typing_replaces_the_selection() {
    let mut pane = EditorPane::new(EditorCapabilities::plain());
    let mut buffer = String::from("um dois");
    pane.set_selection(Some((3, 7)));
    pane.insert(&mut buffer, "três");
    assert_eq!(buffer, "um três");
    assert_eq!(pane.cursor(), "um três".len());
    assert_eq!(pane.selection_range(), None);
}

#[test]
fn the_pane_asks_the_drawing_library_for_what_is_its() {
    let mut pane = EditorPane::new(EditorCapabilities::full());
    let mut buffer = String::from("um\n  dois");
    pane.set_cursor(5);
    assert_eq!(pane.key(&mut buffer, "Enter", false, false), KeyEffect::NeedsIndentation(5));
    assert_eq!(pane.key(&mut buffer, "ArrowLeft", false, true), KeyEffect::NeedsWordBoundary(false));
    assert_eq!(pane.key(&mut buffer, "ArrowRight", false, true), KeyEffect::NeedsWordBoundary(true));
    assert_eq!(pane.key(&mut buffer, "d", false, true), KeyEffect::NeedsNextOccurrence);
    pane.set_selection(Some((0, 2)));
    assert_eq!(pane.key(&mut buffer, "Tab", true, false), KeyEffect::NeedsShiftedLines(false));
    assert_eq!(buffer, "um\n  dois", "nada muda antes da resposta");
}

#[test]
fn arrows_up_and_down_keep_the_column_or_stay() {
    let mut pane = EditorPane::new(EditorCapabilities::plain());
    let mut buffer = String::from("abcdef\nab\nabcd");
    pane.set_cursor(5);
    press(&mut pane, &mut buffer, "ArrowDown", false, false);
    assert_eq!(pane.cursor(), 9, "a linha de baixo é mais curta: vai ao fim dela");
    press(&mut pane, &mut buffer, "ArrowDown", false, false);
    assert_eq!(pane.cursor(), 12);
    press(&mut pane, &mut buffer, "ArrowDown", false, false);
    assert_eq!(pane.cursor(), 12, "não há linha abaixo da última");
    pane.set_cursor(1);
    press(&mut pane, &mut buffer, "ArrowUp", false, false);
    assert_eq!(pane.cursor(), 1, "nem acima da primeira");
}

#[test]
fn shift_click_extends_from_the_cursor_to_the_clicked_point() {
    let (mut pane, buffer) = pane(EditorCapabilities::plain());
    // Cursor no começo, e `Shift+clique` na coluna 2 da primeira linha.
    pane.set_cursor(0);
    pane.pointer_down(true, None, 2, false, true);
    assert_eq!(pane.selection_range(), Some(0..2));
    assert_eq!(pane.selected_text(&buffer), Some(String::from("um")));

    // Outro `Shift+clique` alarga a partir da mesma âncora.
    pane.pointer_down(true, None, 1, false, true);
    assert_eq!(pane.selection_range(), Some(0..1));

    // Sem `Shift`, o clique recomeça.
    pane.pointer_down(true, None, 1, false, false);
    assert_eq!(pane.selection_range(), None);
    assert_eq!(pane.cursor(), 1);
}

#[test]
fn the_pane_selects_by_dragging_inside_its_own_bounds() {
    let (mut pane, buffer) = pane(EditorCapabilities::plain());
    // Segunda linha: a coluna 0 é o byte 3, a coluna 4 o byte 7.
    pane.pointer_down(true, None, 3, false, false);
    pane.pointer_move(7);
    pane.pointer_up();
    assert_eq!(pane.selection_range(), Some(3..7));
    assert_eq!(pane.selected_text(&buffer), Some(String::from("dois")));
}

#[test]
fn navigation_only_answers_when_the_capability_is_on() {
    let (mut plain, _) = pane(EditorCapabilities::plain());
    assert_eq!(plain.pointer_down(true, None, 0, true, false), EditorAction::Idle);

    let (mut full, _) = pane(EditorCapabilities::full());
    assert!(matches!(full.pointer_down(true, None, 0, true, false), EditorAction::Navigate(_)));
}

#[test]
fn the_gutter_only_answers_when_the_capability_is_on() {
    let (mut plain, _) = pane(EditorCapabilities::plain());
    assert_eq!(plain.pointer_down(true, Some(1), 0, false, false), EditorAction::Idle);

    let (mut full, _) = pane(EditorCapabilities::full());
    assert_eq!(full.pointer_down(true, Some(1), 0, false, false), EditorAction::ToggleBreakpoint(1));
}

#[test]
fn the_context_menu_only_answers_when_the_capability_is_on() {
    let (plain, _) = pane(EditorCapabilities::plain());
    assert_eq!(plain.secondary_pointer_down(true), EditorAction::Idle);

    let (full, _) = pane(EditorCapabilities::full());
    assert_eq!(full.secondary_pointer_down(true), EditorAction::ContextMenu);
    assert_eq!(full.secondary_pointer_down(false), EditorAction::Idle, "fora do painel, nada");
}

#[test]
fn the_clock_keeps_the_anchor_and_stretches_the_selection() {
    let (mut pane, _) = pane(EditorCapabilities::plain());
    pane.pointer_down(true, None, 1, false, false);
    assert!(pane.pointer_move(5));
    assert_eq!(pane.selection_range(), Some(1..5));
    assert!(pane.drag_autoscroll(true, 9), "a vista rolou: a seleção acompanha");
    assert_eq!(pane.selection_range(), Some(1..9));
    assert!(!pane.drag_autoscroll(false, 12), "sem rolagem, nada muda");
    assert_eq!(pane.selection_range(), Some(1..9));
    pane.pointer_up();
    assert!(!pane.drag_autoscroll(true, 12), "soltar encerra o arrasto");
    assert!(!pane.pointer_move(12));
    assert_eq!(pane.selection_range(), Some(1..9));
}

#[test]
fn a_click_in_place_is_not_a_selection_and_a_double_click_takes_the_word() {
    let (mut pane, buffer) = pane(EditorCapabilities::plain());
    pane.pointer_down(true, None, 4, false, false);
    pane.pointer_up();
    assert_eq!(pane.selection_range(), None);
    assert_eq!(pane.cursor(), 4);
    pane.select_word(3, 7);
    assert_eq!(pane.selected_text(&buffer), Some(String::from("dois")));
    assert_eq!(pane.cursor(), 7);
    assert!(!pane.pointer_move(9), "o duplo clique não começa arrasto");
    assert_eq!(pane.pointer_down(false, None, 0, false, false), EditorAction::Idle);
    assert_eq!(pane.selection_range(), Some(3..7), "fora do painel, nada muda");
}

#[test]
fn holding_the_pointer_outside_keeps_scrolling_and_selecting() {
    // The view's scrolling is measured by the screen; the pane is told whether
    // it scrolled and which byte is now under the pointer.
    let mut pane = EditorPane::new(EditorCapabilities::plain());
    let _buffer: String = (0..200).map(|linha| format!("linha {linha} {}", "x".repeat(200))).collect::<Vec<_>>().join("\n");
    pane.pointer_down(true, None, 6, false, false);
    assert!(pane.pointer_move(3000));
    // Um único movimento e, daí em diante, só o relógio.
    assert!(pane.drag_autoscroll(true, 3200));
    let Some(inicial) = pane.selection_range() else {
        panic!("o arrasto marcou um trecho");
    };
    assert!(pane.drag_autoscroll(true, 3400), "o tique seguinte também rola");
    let Some(agora) = pane.selection_range() else {
        panic!("a seleção acompanha o tique");
    };
    assert_eq!(agora.start, inicial.start, "a âncora fica onde o gesto começou");
    assert!(agora.end > inicial.end, "e o trecho marcado cresce");
    // Soltar encerra: o relógio segue batendo, mas não mexe mais na seleção.
    pane.pointer_up();
    assert!(!pane.drag_autoscroll(true, 3600));
    assert_eq!(pane.selection_range(), Some(agora));
}

#[test]
fn typing_off_a_character_boundary_writes_nothing() {
    let mut pane = EditorPane::new(EditorCapabilities::plain());
    let mut buffer = String::from("é");
    pane.set_cursor(1);
    assert!(!pane.insert(&mut buffer, "x"), "o meio de um caractere não recebe texto");
    assert_eq!(buffer, "é");
    assert_eq!(pane.cursor(), 1);
    pane.set_cursor(2);
    assert!(pane.insert(&mut buffer, "x"));
    assert_eq!(buffer, "éx");
}


#[test]
fn every_marked_occurrence_reaches_the_view() {
    let (mut pane, _) = pane(EditorCapabilities::plain());
    let buffer = String::from("nome = nome + nome");
    pane.set_selection(Some((0, 4)));
    select_next_occurrence(&mut pane, &buffer);
    select_next_occurrence(&mut pane, &buffer);
    let ViewPositions { marks, .. } = pane.view_positions(&buffer);
    assert_eq!(marks, vec![(0, 4), (7, 11), (14, 18)], "as três ocorrências precisam ser desenhadas");
}

#[test]
fn the_view_counts_characters_not_bytes() {
    let mut pane = EditorPane::new(EditorCapabilities::plain());
    let text = "ação = 1";
    pane.set_cursor(6);
    pane.set_selection(Some((6, 0)));
    let v = pane.view_positions(text);
    assert_eq!(v.cursor, 4);
    assert_eq!(v.selection, Some((0, 4)));
    assert!(v.marks.is_empty());
}
