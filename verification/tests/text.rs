use ide_ui::text::{
    byte_at_char, byte_at_column, char_after, char_before, chars_before, cursor_stop, line_column,
    locate, next_boundary, offset_for_line_column, previous_boundary,
};

#[test]
fn bytes_and_characters_convert_both_ways() {
    let t = "ação x";
    assert_eq!(chars_before(t, 3), 2);
    assert_eq!(chars_before(t, 100), 6);
    assert_eq!(chars_before(t, 2), 6, "no meio de um caractere conta o texto inteiro");
    assert_eq!(byte_at_char(t, 2), 3);
    assert_eq!(byte_at_char(t, 40), t.len());
    assert_eq!(byte_at_column("çx", 1), 2);
    assert_eq!(locate(t, 5), (3, true));
    assert_eq!(locate(t, 4).1, false);
}

#[test]
fn lines_and_columns_count_characters() {
    let t = "um\ndoís\ntrês";
    assert_eq!(line_column(t, 0), (0, 0));
    assert_eq!(line_column(t, 7), (1, 3));
    assert_eq!(line_column(t, 100), (2, 4));
    assert_eq!(offset_for_line_column(t, 1, 3), 7);
    assert_eq!(offset_for_line_column(t, 1, 50), 8, "a coluna para no fim da linha");
    assert_eq!(offset_for_line_column(t, 9, 0), t.len());
}

#[test]
fn boundaries_step_over_whole_characters() {
    let t = "aé€😀";
    assert_eq!(next_boundary(t, 0), 1);
    assert_eq!(next_boundary(t, 1), 3);
    assert_eq!(next_boundary(t, 3), 6);
    assert_eq!(next_boundary(t, 6), 10);
    assert_eq!(next_boundary(t, 10), 10);
    assert_eq!(previous_boundary(t, 10), 6);
    assert_eq!(previous_boundary(t, 1), 0);
    assert_eq!(previous_boundary(t, 0), 0);
    assert_eq!(char_before(t, 3), Some('é'));
    assert_eq!(char_after(t, 3), Some('€'));
    assert_eq!(char_after(t, 2), None);
}

#[test]
fn the_cursor_does_not_stop_inside_a_line_ending() {
    let t = "a\r\nb";
    assert_eq!(cursor_stop(t, 2, true), 3);
    assert_eq!(cursor_stop(t, 2, false), 1);
    assert_eq!(cursor_stop(t, 1, true), 1);
    assert_eq!(cursor_stop(t, 3, false), 3);
    assert_eq!(cursor_stop("a\nb", 1, true), 1);
}
