use ide_ui::view_sync::{SyncPlan, SyntaxStep, ViewSync};

#[test]
fn the_view_is_rebuilt_only_for_a_new_document_or_revision() {
    let mut v = ViewSync::new();
    let first = v.sync(Some(1), 7, None, 0);
    assert_eq!(first, SyncPlan { rebuild: true, syntax: SyntaxStep::Keep, reveal_line: None, reveal_cursor: true });
    let again = v.sync(Some(1), 7, None, 0);
    assert_eq!(again, SyncPlan { rebuild: false, syntax: SyntaxStep::Keep, reveal_line: None, reveal_cursor: false });
    assert!(v.sync(Some(1), 8, None, 0).rebuild, "a new revision");
    assert!(v.sync(Some(2), 8, None, 0).rebuild, "another document");
    assert!(!v.sync(Some(2), 8, None, 0).rebuild);
}

#[test]
fn the_highlighting_is_taken_once_per_version_and_dropped_when_gone() {
    let mut v = ViewSync::new();
    assert_eq!(v.sync(Some(1), 1, Some(3), 0).syntax, SyntaxStep::Take);
    assert_eq!(v.sync(Some(1), 1, Some(3), 0).syntax, SyntaxStep::Keep);
    assert_eq!(v.sync(Some(1), 1, Some(4), 0).syntax, SyntaxStep::Take);
    assert_eq!(v.sync(Some(1), 1, None, 0).syntax, SyntaxStep::Clear);
    assert_eq!(v.sync(Some(1), 1, None, 0).syntax, SyntaxStep::Keep);
    v.sync(Some(1), 1, Some(5), 0);
    assert_eq!(v.sync(Some(1), 2, Some(5), 0).syntax, SyntaxStep::Take, "the rebuilt view lost its highlighting");
    v.forget_view();
    assert!(v.sync(Some(1), 2, Some(5), 0).rebuild);
}

#[test]
fn the_view_follows_the_cursor_only_when_it_moved() {
    let mut v = ViewSync::new();
    assert!(v.sync(None, 0, None, 4).reveal_cursor);
    assert!(!v.sync(None, 0, None, 4).reveal_cursor, "scrolling by hand is not undone");
    assert!(v.sync(None, 0, None, 5).reveal_cursor);
    v.reveal_line(12);
    assert_eq!(v.sync(None, 0, None, 5).reveal_line, Some(12));
    assert_eq!(v.sync(None, 0, None, 5).reveal_line, None, "shown once");
}

#[test]
fn opening_another_document_replaces_what_is_drawn() {
    // Both documents are at revision zero: the revision alone would reuse the
    // first one's view.
    let mut v = ViewSync::new();
    assert!(v.sync(Some(1), 0, None, 0).rebuild);
    assert!(!v.sync(Some(1), 0, None, 0).rebuild);
    assert!(v.sync(Some(2), 0, None, 0).rebuild, "o segundo arquivo tem a sua própria cópia");
}
