use uvwa::ops::{create_folder, delete_folder, move_folder, update_folder, FolderError};
use uvwa::store::FolderDao;

const T: u64 = 7;
const W: u64 = 9;
const TY: i32 = 1;

fn seq_of(dao: &FolderDao, id: u64) -> i32 {
    dao.get_by_id(T, W, id).expect("folder must exist").seq
}

fn parent_of(dao: &FolderDao, id: u64) -> u64 {
    dao.get_by_id(T, W, id).expect("folder must exist").parent_id
}

#[test]
fn create_assigns_dense_positions() {
    let mut dao = FolderDao::new();
    create_folder(&mut dao, T, W, TY, 0, "a".to_string(), None, 1).unwrap();
    create_folder(&mut dao, T, W, TY, 0, "b".to_string(), None, 2).unwrap();
    create_folder(&mut dao, T, W, TY, 0, "c".to_string(), None, 3).unwrap();
    assert_eq!(seq_of(&dao, 1), 1);
    assert_eq!(seq_of(&dao, 2), 2);
    assert_eq!(seq_of(&dao, 3), 3);
}

#[test]
fn basic_reorder_scenario() {
    // Create A, B, C under the root; delete B; expect A=1, C=2; a new D
    // lands at 3.
    let mut dao = FolderDao::new();
    create_folder(&mut dao, T, W, TY, 0, "A".to_string(), None, 1).unwrap();
    create_folder(&mut dao, T, W, TY, 0, "B".to_string(), None, 2).unwrap();
    create_folder(&mut dao, T, W, TY, 0, "C".to_string(), None, 3).unwrap();
    delete_folder(&mut dao, T, W, 2).unwrap();
    assert_eq!(seq_of(&dao, 1), 1);
    assert_eq!(seq_of(&dao, 3), 2);
    create_folder(&mut dao, T, W, TY, 0, "D".to_string(), None, 4).unwrap();
    assert_eq!(seq_of(&dao, 4), 3);
}

#[test]
fn move_across_parents_scenario() {
    // Root holds A (with children X, Y) and B; moving X under B at
    // position 1 leaves Y alone under A at position 1, X under B at 1.
    let mut dao = FolderDao::new();
    create_folder(&mut dao, T, W, TY, 0, "A".to_string(), None, 10).unwrap();
    create_folder(&mut dao, T, W, TY, 0, "B".to_string(), None, 20).unwrap();
    create_folder(&mut dao, T, W, TY, 10, "X".to_string(), None, 11).unwrap();
    create_folder(&mut dao, T, W, TY, 10, "Y".to_string(), None, 12).unwrap();
    assert_eq!(seq_of(&dao, 11), 1);
    assert_eq!(seq_of(&dao, 12), 2);

    move_folder(&mut dao, T, W, 11, 20, 1).unwrap();
    assert_eq!(parent_of(&dao, 11), 20);
    assert_eq!(seq_of(&dao, 11), 1);
    assert_eq!(parent_of(&dao, 12), 10);
    assert_eq!(seq_of(&dao, 12), 1);
}

#[test]
fn reorder_within_scope() {
    let mut dao = FolderDao::new();
    create_folder(&mut dao, T, W, TY, 0, "A".to_string(), None, 1).unwrap();
    create_folder(&mut dao, T, W, TY, 0, "B".to_string(), None, 2).unwrap();
    create_folder(&mut dao, T, W, TY, 0, "C".to_string(), None, 3).unwrap();
    // Move C to the front.
    move_folder(&mut dao, T, W, 3, 0, 1).unwrap();
    assert_eq!(seq_of(&dao, 3), 1);
    assert_eq!(seq_of(&dao, 1), 2);
    assert_eq!(seq_of(&dao, 2), 3);
    // And A to the back.
    move_folder(&mut dao, T, W, 1, 0, 3).unwrap();
    assert_eq!(seq_of(&dao, 3), 1);
    assert_eq!(seq_of(&dao, 2), 2);
    assert_eq!(seq_of(&dao, 1), 3);
}

#[test]
fn create_rejects_empty_name_and_missing_parent() {
    let mut dao = FolderDao::new();
    assert_eq!(
        create_folder(&mut dao, T, W, TY, 0, "".to_string(), None, 1),
        Err(FolderError::Validation)
    );
    assert_eq!(
        create_folder(&mut dao, T, W, TY, 42, "a".to_string(), None, 1),
        Err(FolderError::ParentNotFound)
    );
}

#[test]
fn rename_is_idempotent() {
    let mut dao = FolderDao::new();
    create_folder(&mut dao, T, W, TY, 0, "old".to_string(), None, 1).unwrap();
    update_folder(&mut dao, T, W, 1, "new".to_string(), Some("d".to_string())).unwrap();
    let once = dao.get_by_id(T, W, 1).unwrap();
    update_folder(&mut dao, T, W, 1, "new".to_string(), Some("d".to_string())).unwrap();
    let twice = dao.get_by_id(T, W, 1).unwrap();
    assert_eq!(once.name, twice.name);
    assert_eq!(once.description, twice.description);
    assert_eq!(once.seq, twice.seq);
    assert_eq!(once.parent_id, twice.parent_id);
}

#[test]
fn rename_errors() {
    let mut dao = FolderDao::new();
    assert_eq!(
        update_folder(&mut dao, T, W, 1, "".to_string(), None),
        Err(FolderError::Validation)
    );
    assert_eq!(
        update_folder(&mut dao, T, W, 1, "x".to_string(), None),
        Err(FolderError::NotFound)
    );
}

#[test]
fn delete_blocked_by_children() {
    // Parent P with one child C: deleting P fails with NotEmpty; after
    // deleting C, deleting P succeeds.
    let mut dao = FolderDao::new();
    create_folder(&mut dao, T, W, TY, 0, "P".to_string(), None, 1).unwrap();
    create_folder(&mut dao, T, W, TY, 1, "C".to_string(), None, 2).unwrap();
    assert_eq!(delete_folder(&mut dao, T, W, 1), Err(FolderError::NotEmpty));
    assert!(dao.get_by_id(T, W, 1).is_some());
    delete_folder(&mut dao, T, W, 2).unwrap();
    delete_folder(&mut dao, T, W, 1).unwrap();
    assert!(dao.get_by_id(T, W, 1).is_none());
}

#[test]
fn delete_missing_folder() {
    let mut dao = FolderDao::new();
    assert_eq!(delete_folder(&mut dao, T, W, 5), Err(FolderError::NotFound));
}

#[test]
fn move_to_self_is_rejected_without_change() {
    let mut dao = FolderDao::new();
    create_folder(&mut dao, T, W, TY, 0, "A".to_string(), None, 1).unwrap();
    create_folder(&mut dao, T, W, TY, 0, "B".to_string(), None, 2).unwrap();
    assert_eq!(move_folder(&mut dao, T, W, 1, 1, 1), Err(FolderError::SelfMove));
    assert_eq!(seq_of(&dao, 1), 1);
    assert_eq!(seq_of(&dao, 2), 2);
    assert_eq!(parent_of(&dao, 1), 0);
}

#[test]
fn move_errors() {
    let mut dao = FolderDao::new();
    create_folder(&mut dao, T, W, TY, 0, "A".to_string(), None, 1).unwrap();
    assert_eq!(move_folder(&mut dao, T, W, 9, 0, 1), Err(FolderError::NotFound));
    assert_eq!(move_folder(&mut dao, T, W, 1, 77, 1), Err(FolderError::ParentNotFound));
    // A position outside 1..=n would break density and is rejected.
    assert_eq!(move_folder(&mut dao, T, W, 1, 0, 0), Err(FolderError::Validation));
    assert_eq!(move_folder(&mut dao, T, W, 1, 0, 2), Err(FolderError::Validation));
    assert_eq!(move_folder(&mut dao, T, W, 1, 0, 1), Ok(()));
}

#[test]
fn tenants_are_isolated() {
    let mut dao = FolderDao::new();
    create_folder(&mut dao, T, W, TY, 0, "A".to_string(), None, 1).unwrap();
    create_folder(&mut dao, 8, W, TY, 0, "A".to_string(), None, 2).unwrap();
    assert_eq!(seq_of(&dao, 1), 1);
    assert_eq!(dao.get_by_id(8, W, 2).unwrap().seq, 1);
    assert!(dao.get_by_id(8, W, 1).is_none());
}

/// Checks the density guarantee on the listing: within every parent
/// group the positions are exactly 1..=n.
fn assert_dense(dao: &FolderDao, ty: i32) {
    let rows = dao.list(T, W, ty);
    let mut parents: Vec<u64> = rows.iter().map(|f| f.parent_id).collect();
    parents.sort();
    parents.dedup();
    for p in parents {
        let mut seqs: Vec<i32> = rows.iter().filter(|f| f.parent_id == p).map(|f| f.seq).collect();
        seqs.sort();
        let expected: Vec<i32> = (1..=seqs.len() as i32).collect();
        assert_eq!(seqs, expected, "scope under parent {} lost density", p);
    }
}

#[test]
fn density_survives_mixed_operations() {
    let mut dao = FolderDao::new();
    for (id, parent) in [(1, 0), (2, 0), (3, 1), (4, 1), (5, 1), (6, 2), (7, 0)] {
        create_folder(&mut dao, T, W, TY, parent, format!("f{}", id), None, id).unwrap();
    }
    assert_dense(&dao, TY);
    move_folder(&mut dao, T, W, 4, 2, 1).unwrap();
    assert_dense(&dao, TY);
    move_folder(&mut dao, T, W, 5, 1, 1).unwrap();
    assert_dense(&dao, TY);
    delete_folder(&mut dao, T, W, 3).unwrap();
    assert_dense(&dao, TY);
    move_folder(&mut dao, T, W, 7, 0, 1).unwrap();
    assert_dense(&dao, TY);
    delete_folder(&mut dao, T, W, 6).unwrap();
    delete_folder(&mut dao, T, W, 4).unwrap();
    assert_dense(&dao, TY);
    create_folder(&mut dao, T, W, TY, 2, "late".to_string(), None, 8).unwrap();
    assert_dense(&dao, TY);
}

#[test]
fn store_queries() {
    let mut dao = FolderDao::new();
    assert_eq!(dao.row_count(), 0);
    assert_eq!(dao.get_max_seq(T, W, TY, 0), None);
    create_folder(&mut dao, T, W, TY, 0, "a".to_string(), None, 1).unwrap();
    create_folder(&mut dao, T, W, TY, 0, "b".to_string(), None, 2).unwrap();
    create_folder(&mut dao, T, W, TY, 1, "c".to_string(), None, 3).unwrap();
    assert_eq!(dao.row_count(), 3);
    assert_eq!(dao.get_max_seq(T, W, TY, 0), Some(2));
    assert_eq!(dao.get_max_seq(T, W, TY, 1), Some(1));
    assert_eq!(dao.count_children(T, W, 1), 1);
    assert_eq!(dao.count_children(T, W, 2), 0);
    assert!(dao.id_in_use(3));
    assert!(!dao.id_in_use(4));
    let listed = dao.list(T, W, TY);
    assert_eq!(listed.len(), 3);
    assert_eq!(listed[0].name, "a");
}
