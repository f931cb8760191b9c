use del::tui::{add_node, classify, entry_name, node_size, Browser, FileType, Key, Node, TuiAction};

#[test]
fn file_types() {
    let link_to_dir = FileType::Symlink(Box::new(FileType::Dir));
    assert!(link_to_dir.is_dir());
    assert!(FileType::Dir.is_dir());
    assert!(!FileType::File(3).is_dir());
    assert_eq!(FileType::Symlink(Box::new(FileType::File(9))).get_size(), Some(9));
    assert_eq!(FileType::Dir.get_size(), None);
    assert_eq!(FileType::Dir.marker(), "/");
    assert_eq!(link_to_dir.marker(), "&");
    assert_eq!(FileType::File(1).marker(), "");
    assert_eq!(FileType::Others.marker(), "");
}

#[test]
fn classify_and_sizes() {
    assert!(matches!(classify(false, true, false, 5), FileType::File(5)));
    assert!(matches!(classify(false, false, true, 0), FileType::Dir));
    assert!(matches!(classify(false, false, false, 0), FileType::Others));
    match classify(true, false, true, 0) {
        FileType::Symlink(inner) => assert!(matches!(*inner, FileType::Dir)),
        other => panic!("{other:?}"),
    }
    assert_eq!(node_size(&FileType::File(7), None), 7);
    assert_eq!(node_size(&FileType::Dir, Some(&vec![1, 2, 3])), 6);
    assert_eq!(node_size(&FileType::Dir, None), 0);
    assert_eq!(node_size(&FileType::Others, None), 0);
}

#[test]
fn names() {
    assert_eq!(entry_name("/home/alice/notes.txt"), "notes.txt");
    assert_eq!(entry_name("/"), "/");
    assert_eq!(entry_name(".."), "..");
    assert_eq!(entry_name("a/b/"), "b");
}

/// root (4) lists a.txt (0), sub (2) and b.txt (3); sub lists c.txt (1).
fn sample() -> Browser {
    let mut nodes: Vec<Node> = Vec::new();
    let a = add_node(&mut nodes, false, None);
    let c = add_node(&mut nodes, false, None);
    let sub = add_node(&mut nodes, true, Some(vec![c]));
    let b = add_node(&mut nodes, false, None);
    let root = add_node(&mut nodes, true, Some(vec![a, sub, b]));
    assert_eq!((a, c, sub, b, root), (0, 1, 2, 3, 4));
    assert_eq!(nodes[c].parent, Some(sub));
    assert_eq!(nodes[sub].parent, Some(root));
    assert_eq!(nodes[root].parent, None);
    Browser { nodes, current: root, selected: Some(0) }
}

#[test]
fn moving_through_the_tree() {
    let mut b = sample();
    assert!(b.ready());
    assert_eq!(b.step(Key::Open), TuiAction::Nothing);
    assert_eq!(b.current, 4);
    b.selected = Some(1);
    assert_eq!(b.step(Key::Open), TuiAction::Enter(2));
    assert_eq!((b.current, b.selected), (2, Some(0)));
    assert_eq!(b.step(Key::Back), TuiAction::Leave);
    assert_eq!((b.current, b.selected), (4, Some(0)));
    assert_eq!(b.step(Key::Back), TuiAction::Nothing);
    assert_eq!(b.current, 4);
    assert_eq!(b.step(Key::Up), TuiAction::SelectPrevious);
    assert_eq!(b.step(Key::Down), TuiAction::SelectNext);
    assert_eq!(b.step(Key::Other), TuiAction::Nothing);
    assert_eq!(b.step(Key::Quit), TuiAction::Quit);
}

#[test]
fn deleting_and_saving_entries() {
    let mut b = sample();
    b.selected = Some(2);
    assert_eq!(b.step(Key::Save), TuiAction::SaveEntry(3));
    assert_eq!(b.nodes[4].children, Some(vec![0, 2, 3]));
    assert_eq!(b.step(Key::Delete), TuiAction::DeleteEntry(3));
    assert_eq!(b.nodes[4].children, Some(vec![0, 2]));
    assert_eq!((b.current, b.selected), (4, Some(2)));
    assert_eq!(b.step(Key::Delete), TuiAction::NoSelection);
    assert_eq!(b.step(Key::Save), TuiAction::NoSelection);
    b.selected = None;
    assert_eq!(b.step(Key::Open), TuiAction::NoSelection);
    b.selected = Some(0);
    assert_eq!(b.step(Key::Delete), TuiAction::DeleteEntry(0));
    assert_eq!(b.nodes[4].children, Some(vec![2]));
}

#[test]
fn readiness() {
    let mut b = sample();
    b.current = 0;
    assert!(!b.ready());
    b.current = 9;
    assert!(!b.ready());
}
