use ide_ui::completion::{completion_opens_now, CompletionItem, CompletionKey, CompletionList};
use ide_ui::editor::{EditorCapabilities, EditorPane};

fn items(labels: &[&str]) -> Vec<CompletionItem> {
    labels.iter().map(|l| CompletionItem { label: (*l).to_owned() }).collect()
}

#[test]
fn the_arrows_move_inside_the_list_and_never_out() {
    let mut c = CompletionList::new();
    assert_eq!(c.completion_key("ArrowDown"), CompletionKey::Ignored, "closed, the keys are not its");
    c.set_completions(items(&["println", "print", "printf"]));
    assert!(c.completion_open());
    assert_eq!(c.completion_key("ArrowUp"), CompletionKey::Moved);
    assert_eq!(c.selected, 0);
    c.completion_key("ArrowDown");
    c.completion_key("ARROWDOWN");
    c.completion_key("ArrowDown");
    assert_eq!(c.selected, 2, "stops at the last");
    assert_eq!(c.completion_key("Tab"), CompletionKey::Accept);
    assert_eq!(c.completion_key("x"), CompletionKey::Ignored);
    assert_eq!(c.completion_key("Escape"), CompletionKey::Closed);
    assert!(!c.completion_open());
}

#[test]
fn accepting_replaces_the_name_being_written() {
    let mut c = CompletionList::new();
    c.set_completions(items(&["println", "print"]));
    let mut pane = EditorPane::new(EditorCapabilities::full());
    let mut buffer = "    pri;".to_owned();
    pane.set_cursor(7);
    let message = c.accept_completion(&mut pane, &mut buffer, 3);
    assert_eq!(buffer, "    println;");
    assert_eq!(pane.cursor(), 11);
    assert_eq!(message.as_deref(), Some("Completed println"));
    assert!(!c.completion_open());
    assert_eq!(c.completacao_aceita().as_deref(), Some("println"));
    assert_eq!(c.completacao_aceita(), None, "asked once");
}

#[test]
fn typing_a_name_keeps_the_list_and_anything_else_closes_it() {
    let mut c = CompletionList::new();
    assert!(!c.completion_follow_up("a", true), "a closed list does not open");
    c.set_completions(items(&["alpha"]));
    assert!(c.completion_follow_up("l", true));
    assert!(c.completion_open());
    assert!(!c.completion_follow_up("(", false));
    assert!(!c.completion_open());
    assert!(!completion_opens_now(1));
    assert!(completion_opens_now(2));
    assert!(!completion_opens_now(3), "it opens once, when the name gets there");
}
