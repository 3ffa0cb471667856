use uvwa::ops::create_folder;
use uvwa::store::FolderDao;
use uvwa::tree::{build_folder_tree, get_folder_tree, FolderResp};

const T: u64 = 1;
const W: u64 = 2;
const TY: i32 = 0;

fn leaf(id: u64, parent_id: u64, name: &str, seq: i32) -> FolderResp {
    FolderResp {
        id,
        parent_id,
        name: name.to_string(),
        description: None,
        seq,
        children: Vec::new(),
    }
}

#[test]
fn tree_shape_scenario() {
    // Three folders with parents 0, 1, 1 (ids 1, 2, 3) produce one root
    // with two children.
    let input = vec![leaf(1, 0, "r", 1), leaf(2, 1, "a", 1), leaf(3, 1, "b", 2)];
    let tree = build_folder_tree(input);
    assert_eq!(tree.len(), 1);
    assert_eq!(tree[0].id, 1);
    assert_eq!(tree[0].children.len(), 2);
    assert_eq!(tree[0].children[0].id, 2);
    assert_eq!(tree[0].children[1].id, 3);
    assert!(tree[0].children[0].children.is_empty());
}

#[test]
fn siblings_sort_by_seq_then_name() {
    let input = vec![
        leaf(1, 0, "delta", 2),
        leaf(2, 0, "alpha", 2),
        leaf(3, 0, "zeta", 1),
        leaf(4, 0, "beta", 2),
    ];
    let tree = build_folder_tree(input);
    let names: Vec<&str> = tree.iter().map(|n| n.name.as_str()).collect();
    assert_eq!(names, vec!["zeta", "alpha", "beta", "delta"]);
}

#[test]
fn unreachable_nodes_are_dropped() {
    // A node whose parent never appears is silently left out.
    let input = vec![leaf(1, 0, "r", 1), leaf(2, 99, "lost", 1)];
    let tree = build_folder_tree(input);
    assert_eq!(tree.len(), 1);
    assert_eq!(tree[0].id, 1);
    assert!(tree[0].children.is_empty());
}

#[test]
fn created_folder_shows_up_in_tree() {
    // Round trip: create "N", fetch the tree, see exactly one "N" at the
    // next position.
    let mut dao = FolderDao::new();
    create_folder(&mut dao, T, W, TY, 0, "first".to_string(), None, 1).unwrap();
    create_folder(&mut dao, T, W, TY, 0, "N".to_string(), None, 2).unwrap();
    let tree = get_folder_tree(&mut dao, T, W, TY, 999);
    let hits: Vec<&FolderResp> = tree.iter().filter(|n| n.name == "N").collect();
    assert_eq!(hits.len(), 1);
    assert_eq!(hits[0].seq, 2);
    // The empty scope was not empty, so no default folder was created.
    assert!(dao.get_by_id(T, W, 999).is_none());
}

#[test]
fn first_visit_creates_default_folder() {
    let mut dao = FolderDao::new();
    let tree = get_folder_tree(&mut dao, T, W, TY, 555);
    assert_eq!(tree.len(), 1);
    assert_eq!(tree[0].id, 555);
    assert_eq!(tree[0].seq, 1);
    assert_eq!(tree[0].name, "默认目录");
    let row = dao.get_by_id(T, W, 555).unwrap();
    assert_eq!(row.parent_id, 0);
    assert_eq!(row.seq, 1);
}

#[test]
fn nested_children_are_sorted() {
    let input = vec![
        leaf(1, 0, "r", 1),
        leaf(2, 1, "b", 2),
        leaf(3, 1, "a", 1),
        leaf(4, 2, "leaf", 1),
    ];
    let tree = build_folder_tree(input);
    assert_eq!(tree[0].children[0].id, 3);
    assert_eq!(tree[0].children[1].id, 2);
    assert_eq!(tree[0].children[1].children[0].id, 4);
}

#[test]
fn cyclic_parents_are_dropped() {
    // Two nodes pointing at each other can never reach the root; assembly
    // leaves them out rather than looping.
    let input = vec![leaf(1, 2, "a", 1), leaf(2, 1, "b", 1), leaf(3, 0, "r", 1)];
    let tree = build_folder_tree(input);
    assert_eq!(tree.len(), 1);
    assert_eq!(tree[0].id, 3);
    assert!(tree[0].children.is_empty());
}
