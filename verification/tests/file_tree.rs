use aether_win32::file_tree::{
    cancel_file_tree_input, check_new_name, execute_explorer_context_action,
    execute_file_node_context_action, file_tree_new_target_dir, start_file_tree_input,
    start_file_tree_input_in, sync_file_tree_selection, ExplorerMenuItem, FileKind, FileNode,
    FileNodeMenuItem, FileTree, FileTreeInputKind, FileTreeState, MenuFollowUp, NameCheck,
    NO_NODE,
};

fn node(kind: FileKind, name: &str, parent: u32, child: u32, next: u32, open: bool) -> FileNode {
    FileNode {
        kind,
        name: name.to_string(),
        parent_idx: parent,
        first_child: child,
        next_sibling: next,
        is_expanded: open,
    }
}

// proj/
//   src/
//     main.rs
//   README.md
fn sample() -> FileTree {
    FileTree {
        nodes: vec![
            node(FileKind::Directory, "proj", NO_NODE, 1, NO_NODE, true),
            node(FileKind::Directory, "src", 0, 3, 2, true),
            node(FileKind::File, "README.md", 0, NO_NODE, NO_NODE, false),
            node(FileKind::File, "main.rs", 1, NO_NODE, NO_NODE, false),
        ],
        first_root: 0,
    }
}

fn strings(v: &[&str]) -> Vec<String> {
    v.iter().map(|s| s.to_string()).collect()
}

#[test]
fn rows_follow_the_expanded_directories() {
    let mut t = sample();
    assert_eq!(t.visible_rows(), vec![0, 1, 3, 2]);
    t.nodes[1].is_expanded = false;
    assert_eq!(t.visible_rows(), vec![0, 1, 2]);
    t.nodes[0].is_expanded = false;
    assert_eq!(t.visible_rows(), vec![0]);
    let empty = FileTree { nodes: Vec::new(), first_root: NO_NODE };
    assert_eq!(empty.visible_rows(), Vec::<u32>::new());
}

#[test]
fn a_node_path_runs_from_the_top() {
    let t = sample();
    assert_eq!(t.node_path_parts(3), Some(strings(&["proj", "src", "main.rs"])));
    assert_eq!(t.node_path_parts(0), Some(strings(&["proj"])));
    assert_eq!(t.node_path_parts(9), None);
}

#[test]
fn a_path_is_found_by_its_components() {
    let t = sample();
    assert_eq!(t.find_node_by_path(&strings(&["proj", "src", "main.rs"])), Some(3));
    assert_eq!(t.find_node_by_path(&strings(&["proj", "README.md"])), Some(2));
    assert_eq!(t.find_node_by_path(&strings(&["proj"])), Some(0));
    assert_eq!(t.find_node_by_path(&strings(&["src", "main.rs"])), None);
    assert_eq!(t.find_node_by_path(&strings(&["proj", "src", "lib.rs"])), None);
    assert_eq!(t.find_node_by_path(&Vec::new()), None);
    for n in 0..4u32 {
        let parts = t.node_path_parts(n).unwrap();
        assert_eq!(t.find_node_by_path(&parts), Some(n));
    }
}

#[test]
fn new_items_go_into_the_selected_directory() {
    let t = Some(sample());
    assert_eq!(file_tree_new_target_dir(&t, Some(3)), Some(1));
    assert_eq!(file_tree_new_target_dir(&t, Some(1)), Some(1));
    assert_eq!(file_tree_new_target_dir(&t, None), None);
    assert_eq!(file_tree_new_target_dir(&t, Some(7)), None);
    assert_eq!(file_tree_new_target_dir(&None, Some(1)), None);
    let top = Some(FileTree {
        nodes: vec![node(FileKind::File, "a.txt", NO_NODE, NO_NODE, NO_NODE, false)],
        first_root: 0,
    });
    assert_eq!(file_tree_new_target_dir(&top, Some(0)), None);
}

#[test]
fn the_open_file_is_selected_in_the_tree() {
    let t = Some(sample());
    let mut selected = None;
    sync_file_tree_selection(&mut selected, &t, &Some(strings(&["proj", "README.md"])));
    assert_eq!(selected, Some(2));
    sync_file_tree_selection(&mut selected, &t, &Some(strings(&["proj", "other.txt"])));
    assert_eq!(selected, Some(2));
    sync_file_tree_selection(&mut selected, &t, &None);
    assert_eq!(selected, Some(2));
}

#[test]
fn typed_names_are_checked() {
    assert_eq!(check_new_name("  a.txt "), NameCheck::Accept("a.txt".to_string()));
    assert_eq!(check_new_name("   "), NameCheck::Cancel);
    assert_eq!(
        check_new_name("a:b?.txt"),
        NameCheck::Invalid("文件名不能包含: :?".to_string())
    );
}

fn side_bar(selected: Option<u32>) -> FileTreeState {
    let mut t = sample();
    t.nodes[1].is_expanded = false;
    FileTreeState {
        tree: Some(t),
        selected,
        root_expanded: false,
        rows_dirty: false,
        input: None,
    }
}

#[test]
fn a_new_file_row_opens_in_the_target_directory() {
    let mut s = side_bar(Some(3));
    assert!(start_file_tree_input(&mut s, true, FileTreeInputKind::NewFile));
    let input = s.input.as_ref().unwrap();
    assert_eq!(input.kind, FileTreeInputKind::NewFile);
    assert_eq!(input.value, "");
    assert_eq!(input.target_node, Some(1));
    assert!(input.caret_visible);
    assert!(s.root_expanded && s.rows_dirty);
    assert!(s.tree.as_ref().unwrap().nodes[1].is_expanded);
    assert!(cancel_file_tree_input(&mut s));
    assert!(s.input.is_none());
    assert!(!cancel_file_tree_input(&mut s));
}

#[test]
fn a_rename_row_starts_with_the_name() {
    let mut s = side_bar(Some(2));
    assert!(start_file_tree_input_in(&mut s, true, FileTreeInputKind::Rename, None));
    let input = s.input.as_ref().unwrap();
    assert_eq!(input.value, "README.md");
    assert_eq!(input.target_node, Some(2));
    assert!(!s.root_expanded && !s.rows_dirty);
}

#[test]
fn no_input_row_without_a_folder() {
    let mut s = side_bar(Some(2));
    assert!(!start_file_tree_input_in(&mut s, false, FileTreeInputKind::NewFolder, Some(1)));
    assert!(s.input.is_none());
    assert!(!s.root_expanded);
}

#[test]
fn only_trees_stored_in_scan_order_pass_the_check() {
    assert!(sample().check_wf());
    let mut t = sample();
    t.nodes[2].next_sibling = 1;
    assert!(!t.check_wf());
    let mut t = sample();
    t.nodes[1].parent_idx = 3;
    assert!(!t.check_wf());
    let mut t = sample();
    t.nodes[2].parent_idx = 1;
    assert!(!t.check_wf());
}

#[test]
fn every_visible_row_is_a_node() {
    let mut t = sample();
    t.nodes.push(node(FileKind::File, "late.rs", 1, NO_NODE, NO_NODE, false));
    t.nodes[3].next_sibling = 4;
    let rows = t.visible_rows();
    assert_eq!(rows, vec![0, 1, 3, 4, 2]);
    assert!(rows.iter().all(|&r| (r as usize) < t.nodes.len()));
}

#[test]
fn node_menu_items_open_rows_or_go_to_the_window() {
    let mut s = side_bar(None);
    assert_eq!(
        execute_file_node_context_action(&mut s, true, FileNodeMenuItem::NewFolderInside, 1),
        MenuFollowUp::Done
    );
    assert_eq!(s.selected, Some(1));
    let input = s.input.as_ref().unwrap();
    assert_eq!(input.kind, FileTreeInputKind::NewFolder);
    assert_eq!(input.target_node, Some(1));
    assert!(s.tree.as_ref().unwrap().nodes[1].is_expanded);

    let mut s = side_bar(None);
    assert_eq!(
        execute_file_node_context_action(&mut s, true, FileNodeMenuItem::Rename, 3),
        MenuFollowUp::Done
    );
    assert_eq!(s.input.as_ref().unwrap().value, "main.rs");

    let mut s = side_bar(None);
    assert_eq!(
        execute_file_node_context_action(&mut s, false, FileNodeMenuItem::NewFileInside, 1),
        MenuFollowUp::NeedFolder
    );
    assert_eq!(s.selected, Some(1));
    assert!(s.input.is_none());
    assert_eq!(
        execute_file_node_context_action(&mut s, true, FileNodeMenuItem::Delete, 2),
        MenuFollowUp::DeleteNode(2)
    );
    assert_eq!(
        execute_file_node_context_action(&mut s, true, FileNodeMenuItem::CopyRelativePath, 3),
        MenuFollowUp::CopyNodeRelativePath(3)
    );
}

#[test]
fn explorer_menu_items_open_rows_or_go_to_the_window() {
    let mut s = side_bar(Some(3));
    assert_eq!(
        execute_explorer_context_action(&mut s, true, ExplorerMenuItem::NewFile),
        MenuFollowUp::Done
    );
    assert_eq!(s.input.as_ref().unwrap().target_node, Some(1));
    let mut s = side_bar(None);
    assert_eq!(
        execute_explorer_context_action(&mut s, true, ExplorerMenuItem::Refresh),
        MenuFollowUp::RefreshTree
    );
    assert!(s.input.is_none());
    assert_eq!(
        execute_explorer_context_action(&mut s, false, ExplorerMenuItem::NewFolder),
        MenuFollowUp::NeedFolder
    );
    assert_eq!(
        execute_explorer_context_action(&mut s, true, ExplorerMenuItem::CopyPath),
        MenuFollowUp::CopyFolderPath
    );
}

#[test]
fn a_file_directly_under_the_workspace_is_selected() {
    // Top level: a.txt, then lib/ with b.txt inside.
    let t = Some(FileTree {
        nodes: vec![
            node(FileKind::File, "a.txt", NO_NODE, NO_NODE, 1, false),
            node(FileKind::Directory, "lib", NO_NODE, 2, NO_NODE, false),
            node(FileKind::File, "b.txt", 1, NO_NODE, NO_NODE, false),
        ],
        first_root: 0,
    });
    assert!(t.as_ref().unwrap().check_wf());
    let mut selected = None;
    sync_file_tree_selection(&mut selected, &t, &Some(strings(&["a.txt"])));
    assert_eq!(selected, Some(0));
    sync_file_tree_selection(&mut selected, &t, &Some(strings(&["lib", "b.txt"])));
    assert_eq!(selected, Some(2));
}

#[test]
fn expanded_directories_are_listed_by_path() {
    let t = sample();
    assert_eq!(
        t.expanded_dir_parts(),
        vec![strings(&["proj"]), strings(&["proj", "src"])]
    );
    let mut t = sample();
    t.nodes[1].is_expanded = false;
    assert_eq!(t.expanded_dir_parts(), vec![strings(&["proj"])]);
}
