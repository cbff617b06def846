use ide_ui::explorer::FileNode;
use ide_ui::explorer_tree::{find_node, scroll_to_show, ExplorerTree};

fn dir(path: &str, children: Vec<FileNode>) -> FileNode {
    FileNode { path: path.to_owned(), is_directory: true, children }
}

fn file(path: &str) -> FileNode {
    FileNode { path: path.to_owned(), is_directory: false, children: Vec::new() }
}

fn project() -> FileNode {
    dir(
        "/w",
        vec![
            dir("/w/src", vec![dir("/w/src/br", vec![dir("/w/src/br/com", vec![file("/w/src/br/com/A.java")])])]),
            dir("/w/vazia", Vec::new()),
            file("/w/README.md"),
        ],
    )
}

fn rows(t: &ExplorerTree) -> Vec<(usize, String)> {
    t.visible_entries().into_iter().map(|(d, n)| (d, n.path.clone())).collect()
}

#[test]
fn a_new_tree_has_its_root_open() {
    let t = ExplorerTree::from_tree(project());
    assert_eq!(t.workspace_name, "w");
    assert!(t.is_expanded("/w"));
    assert!(!t.is_expanded("/w/src"));
    assert_eq!(
        rows(&t),
        vec![(0, "/w/src".to_owned()), (0, "/w/vazia".to_owned()), (0, "/w/README.md".to_owned())]
    );
}

#[test]
fn open_folders_show_their_children_below_them() {
    let mut t = ExplorerTree::from_tree(project());
    t.expanded.push("/w/src".to_owned());
    t.expanded.push("/w/src/br/com".to_owned());
    assert_eq!(
        rows(&t),
        vec![
            (0, "/w/src".to_owned()),
            (1, "/w/src/br".to_owned()),
            (0, "/w/vazia".to_owned()),
            (0, "/w/README.md".to_owned()),
        ],
        "a folder inside a closed one is not drawn"
    );
}

#[test]
fn an_empty_or_missing_folder_needs_reading_until_asked() {
    let mut t = ExplorerTree::from_tree(project());
    assert!(!t.directory_needs_children("/w/src"));
    assert!(t.directory_needs_children("/w/vazia"));
    assert!(t.directory_needs_children("/w/ausente"));
    t.expanded.push("/w/vazia".to_owned());
    t.expanded.push("/w/x/y".to_owned());
    t.expanded.push("/w/x".to_owned());
    assert_eq!(
        t.request_expanded_directories(),
        vec!["/w/vazia".to_owned(), "/w/x".to_owned(), "/w/x/y".to_owned()],
        "the shallow first, so the parent is there when the answer comes"
    );
    assert!(!t.directory_needs_children("/w/vazia"));
    assert!(t.request_expanded_directories().is_empty(), "each folder is asked for once");
}

#[test]
fn a_parent_read_again_keeps_what_its_folders_had() {
    let mut t = ExplorerTree::from_tree(project());
    let changed = t.insert_children_at("/w/src", vec![dir("/w/src/br", Vec::new()), dir("/w/src/novo", Vec::new())]);
    assert!(changed);
    let br = find_node(&t.workspace, "/w/src/br").expect("still there");
    assert_eq!(br.children.len(), 1, "the subtree read before stays");
    assert!(find_node(&t.workspace, "/w/src/br/com/A.java").is_some());
    assert!(find_node(&t.workspace, "/w/src/novo").is_some());
    let again = t.insert_children_at("/w/src", vec![dir("/w/src/br", Vec::new()), dir("/w/src/novo", Vec::new())]);
    assert!(!again, "the same content is no change");
    assert!(!t.insert_children_at("/w/nada", vec![file("/w/nada/x")]), "no such folder, nothing changes");
}

#[test]
fn opening_a_folder_opens_its_single_folder_chain() {
    let mut t = ExplorerTree::from_tree(project());
    t.expanded.push("/w/src".to_owned());
    t.expand_single_child_chains();
    assert!(t.is_expanded("/w/src/br"));
    assert!(t.is_expanded("/w/src/br/com"));
    assert!(!t.is_expanded("/w/vazia"));
    let before = t.expanded.len();
    t.expand_single_child_chains();
    assert_eq!(t.expanded.len(), before, "each open folder is listed once");
}

#[test]
fn the_levels_of_a_path_are_stored_and_marked_read() {
    let mut t = ExplorerTree::from_tree(dir("/w", Vec::new()));
    t.expanded.push("/w/src".to_owned());
    let changed = t.insert_path_children(vec![
        ("/w".to_owned(), vec![dir("/w/src", Vec::new())]),
        ("/w/src".to_owned(), vec![dir("/w/src/br", Vec::new())]),
    ]);
    assert!(changed);
    assert!(find_node(&t.workspace, "/w/src/br").is_some());
    assert_eq!(t.requested, vec!["/w".to_owned(), "/w/src".to_owned()]);
    assert!(t.is_expanded("/w/src/br"), "the chain below an open folder opens");
    assert!(!t.insert_path_children(vec![("/w".to_owned(), vec![dir("/w/src", Vec::new())])]), "nothing new");
}

#[test]
fn another_project_keeps_only_the_folders_inside_it() {
    let mut t = ExplorerTree::from_tree(project());
    t.expanded.push("/w/src".to_owned());
    t.expanded.push("/outro/lib".to_owned());
    t.requested.push("/w/src".to_owned());
    t.replace_workspace(dir("/outro", Vec::new()));
    assert_eq!(t.workspace_name, "outro");
    assert_eq!(t.expanded, vec!["/outro/lib".to_owned(), "/outro".to_owned()]);
    assert!(t.requested.is_empty());
}

#[test]
fn the_source_files_are_found_by_extension_in_any_case() {
    let t = ExplorerTree::from_tree(project());
    assert_eq!(t.source_files("java"), vec!["/w/src/br/com/A.java".to_owned()]);
    assert_eq!(t.source_files("JAVA"), vec!["/w/src/br/com/A.java".to_owned()]);
    assert!(t.source_files("ts").is_empty());
}

#[test]
fn revealing_opens_the_path_and_its_ancestors_inside_the_project() {
    let mut t = ExplorerTree::from_tree(project());
    let asked = t.reveal_path("/w/src/br/novo");
    assert!(t.is_expanded("/w/src/br/novo"));
    assert!(t.is_expanded("/w/src/br"));
    assert!(t.is_expanded("/w/src"));
    assert!(!t.is_expanded("/"), "outside the project nothing opens");
    assert_eq!(asked, vec!["/w/src/br/novo".to_owned()], "only the folder not read is asked for");
}

#[test]
fn following_the_active_document() {
    let mut t = ExplorerTree::from_tree(project());
    let (found, asked) = t.sync_to_active("/w/src/br/com/A.java");
    assert!(found);
    assert!(asked.is_empty());
    assert!(t.is_expanded("/w/src/br/com"));
    assert!(t.is_expanded("/w/src"));
    assert!(!t.is_expanded("/w/src/br/com/A.java"), "the file itself is not opened");
    let mut shallow = ExplorerTree::from_tree(dir("/w", vec![dir("/w/src", Vec::new())]));
    let (found, asked) = shallow.sync_to_active("/w/src/pkg/B.java");
    assert!(!found, "not read yet");
    assert!(shallow.is_expanded("/w/src/pkg"));
    assert_eq!(asked, vec!["/w/src".to_owned(), "/w/src/pkg".to_owned()]);
}

#[test]
fn a_node_is_found_by_its_identity() {
    let t = ExplorerTree::from_tree(project());
    let found = t.path_for(ide_ui::explorer::id("/w/vazia"));
    assert_eq!(found, Some(("/w/vazia".to_owned(), true)));
    assert_eq!(t.path_for(ide_ui::explorer::id("/w/nada")), None);
}

#[test]
fn the_tree_scrolls_only_when_the_row_is_out_of_view() {
    assert_eq!(scroll_to_show(5, 3, 10), 3, "already in view");
    assert_eq!(scroll_to_show(20, 3, 10), 18, "two rows of context above");
    assert_eq!(scroll_to_show(1, 3, 10), 0);
    assert_eq!(scroll_to_show(13, 3, 10), 11, "the last row that fits is the one before");
}
