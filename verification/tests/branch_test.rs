use calix::{BranchStore, CalixError};

#[test]
fn new_store_has_main_only() {
    let store = BranchStore::new_at("sub", 42);
    assert_eq!(store.current_branch, "main");
    let branches = store.list_branches();
    assert_eq!(branches.len(), 1);
    assert_eq!(branches[0].name, "main");
    assert_eq!(branches[0].submodule_id, "sub");
    assert_eq!(branches[0].head_commit_id, None);
    assert_eq!(branches[0].fork_commit_id, None);
    assert_eq!(branches[0].created_at, 42);
    let store = BranchStore::new("sub2");
    assert_eq!(store.get_branch_head("main").unwrap(), None);
}

#[test]
fn create_branch_forks_at_commit() {
    let mut store = BranchStore::new_at("sub", 1);
    store.create_branch_at("feature", "sub", "c1", 7).unwrap();
    let b = store.branches.get("feature").unwrap();
    assert_eq!(b.name, "feature");
    assert_eq!(b.head_commit_id.as_deref(), Some("c1"));
    assert_eq!(b.fork_commit_id.as_deref(), Some("c1"));
    assert_eq!(b.created_at, 7);
    assert_eq!(store.current_branch, "main");
    store.create_branch("other", "sub", "c2").unwrap();
    assert_eq!(store.get_branch_head("other").unwrap().as_deref(), Some("c2"));
    assert_eq!(store.list_branches().len(), 3);
}

#[test]
fn create_duplicate_branch_fails() {
    let mut store = BranchStore::new_at("sub", 1);
    store.create_branch_at("feature", "sub", "c1", 2).unwrap();
    match store.create_branch_at("feature", "sub", "c9", 3) {
        Err(CalixError::BranchAlreadyExists { name }) => assert_eq!(name, "feature"),
        other => panic!("unexpected {:?}", other),
    }
    assert_eq!(store.get_branch_head("feature").unwrap().as_deref(), Some("c1"));
    assert!(matches!(
        store.create_branch("main", "sub", "c1"),
        Err(CalixError::BranchAlreadyExists { .. })
    ));
}

#[test]
fn checkout_switches_and_rejects_unknown() {
    let mut store = BranchStore::new_at("sub", 1);
    store.create_branch_at("feature", "sub", "c1", 2).unwrap();
    store.checkout("feature").unwrap();
    assert_eq!(store.current_branch, "feature");
    match store.checkout("nonexistent") {
        Err(CalixError::BranchNotFound { name }) => assert_eq!(name, "nonexistent"),
        other => panic!("unexpected {:?}", other),
    }
    assert_eq!(store.current_branch, "feature");
}

#[test]
fn delete_branch_rules() {
    let mut store = BranchStore::new_at("sub", 1);
    store.create_branch_at("feature", "sub", "c1", 2).unwrap();
    store.create_branch_at("temp", "sub", "c1", 2).unwrap();
    assert!(matches!(store.delete_branch("main"), Err(CalixError::CannotDeleteMainBranch)));
    store.checkout("feature").unwrap();
    match store.delete_branch("feature") {
        Err(CalixError::CannotDeleteCurrentBranch { name }) => assert_eq!(name, "feature"),
        other => panic!("unexpected {:?}", other),
    }
    match store.delete_branch("ghost") {
        Err(CalixError::BranchNotFound { name }) => assert_eq!(name, "ghost"),
        other => panic!("unexpected {:?}", other),
    }
    store.delete_branch("temp").unwrap();
    assert!(store.branches.get("temp").is_none());
    assert_eq!(store.list_branches().len(), 2);
    store.create_branch_at("temp", "sub", "c5", 3).unwrap();
    assert_eq!(store.get_branch_head("temp").unwrap().as_deref(), Some("c5"));
}

#[test]
fn main_cannot_be_deleted_even_when_not_current() {
    let mut store = BranchStore::new_at("sub", 1);
    store.create_branch_at("feature", "sub", "c1", 2).unwrap();
    store.checkout("feature").unwrap();
    assert!(matches!(store.delete_branch("main"), Err(CalixError::CannotDeleteMainBranch)));
}

#[test]
fn advance_and_set_head() {
    let mut store = BranchStore::new_at("sub", 1);
    store.create_branch_at("feature", "sub", "c1", 2).unwrap();
    store.advance_branch("c2").unwrap();
    assert_eq!(store.get_branch_head("main").unwrap().as_deref(), Some("c2"));
    assert_eq!(store.get_branch_head("feature").unwrap().as_deref(), Some("c1"));
    store.set_branch_head("feature", "c3").unwrap();
    assert_eq!(store.get_branch_head("feature").unwrap().as_deref(), Some("c3"));
    let b = store.branches.get("feature").unwrap();
    assert_eq!(b.fork_commit_id.as_deref(), Some("c1"));
    match store.set_branch_head("ghost", "c4") {
        Err(CalixError::BranchNotFound { name }) => assert_eq!(name, "ghost"),
        other => panic!("unexpected {:?}", other),
    }
    match store.get_branch_head("ghost") {
        Err(CalixError::BranchNotFound { name }) => assert_eq!(name, "ghost"),
        other => panic!("unexpected {:?}", other),
    }
}

#[test]
fn advance_fails_when_current_branch_is_missing() {
    let mut store = BranchStore::new_at("sub", 1);
    store.current_branch = "lost".to_string();
    match store.advance_branch("c1") {
        Err(CalixError::BranchNotFound { name }) => assert_eq!(name, "lost"),
        other => panic!("unexpected {:?}", other),
    }
}
