use ldtk_levels::level_set::LevelSet;

fn s(x: &str) -> String {
    x.to_string()
}

#[test]
fn insert_is_idempotent() {
    let mut set = LevelSet::new();
    assert!(set.insert(s("L1")));
    let snapshot = set.clone();
    assert!(!set.insert(s("L1")));
    assert_eq!(set, snapshot);
    assert_eq!(set.len(), 1);
}

#[test]
fn remove_is_idempotent() {
    let mut set = LevelSet::from_iids(vec![s("L1"), s("L2")]);
    assert!(set.remove(&s("L1")));
    let snapshot = set.clone();
    assert!(!set.remove(&s("L1")));
    assert_eq!(set, snapshot);
    assert!(set.contains(&s("L2")));
    assert!(!set.contains(&s("L1")));
}

#[test]
fn from_iids_collapses_duplicates() {
    let set = LevelSet::from_iids(vec![s("A"), s("B"), s("A"), s("B"), s("A")]);
    assert_eq!(set.len(), 2);
    assert!(set.contains(&s("A")));
    assert!(set.contains(&s("B")));
}

#[test]
fn insertion_order_is_irrelevant() {
    let forward = LevelSet::from_iids(vec![s("A"), s("B"), s("C")]);
    let backward = LevelSet::from_iids(vec![s("C"), s("B"), s("A")]);
    for id in ["A", "B", "C", "D"] {
        assert_eq!(forward.contains(&s(id)), backward.contains(&s(id)));
    }
    assert_eq!(forward.len(), backward.len());
}

#[test]
fn empty_set_contains_nothing() {
    let set = LevelSet::new();
    assert_eq!(set.len(), 0);
    assert!(!set.contains(&s("L1")));
}
