use ldtk_levels::level_set::LevelSet;
use ldtk_levels::reconcile::reconcile;

fn s(x: &str) -> String {
    x.to_string()
}

fn set(ids: &[&str]) -> LevelSet {
    LevelSet::from_iids(ids.iter().map(|i| i.to_string()).collect())
}

fn sorted(v: &[String]) -> Vec<String> {
    let mut v: Vec<String> = v.to_vec();
    v.sort();
    v
}

#[test]
fn plain_diff_partitions_the_work() {
    let diff = reconcile(
        &set(&["A", "B", "C"]),
        &set(&["B", "C", "D"]),
        &set(&[]),
        &set(&["A", "B", "C", "D"]),
    );
    assert_eq!(sorted(&diff.to_spawn), vec![s("A")]);
    assert_eq!(sorted(&diff.to_despawn), vec![s("D")]);
    assert_eq!(sorted(&diff.unchanged), vec![s("B"), s("C")]);
    assert!(diff.missing.is_empty());
}

#[test]
fn reconcile_is_idempotent() {
    let desired = set(&["A", "B"]);
    let available = set(&["A", "B"]);
    let first = reconcile(&desired, &set(&[]), &set(&[]), &available);
    assert_eq!(sorted(&first.to_spawn), vec![s("A"), s("B")]);
    // Act on the diff, then reconcile the same desired set again: no work.
    let realized = LevelSet::from_iids(first.to_spawn.clone());
    let second = reconcile(&desired, &realized, &set(&[]), &available);
    assert!(second.to_spawn.is_empty());
    assert!(second.to_despawn.is_empty());
    assert_eq!(sorted(&second.unchanged), vec![s("A"), s("B")]);
}

#[test]
fn respawn_marker_forces_despawn_then_spawn() {
    let diff = reconcile(&set(&["A"]), &set(&["A"]), &set(&["A"]), &set(&["A"]));
    assert_eq!(diff.to_spawn, vec![s("A")]);
    assert_eq!(diff.to_despawn, vec![s("A")]);
    assert!(diff.unchanged.is_empty());
}

#[test]
fn missing_levels_are_reported_not_spawned() {
    let diff = reconcile(&set(&["A", "X"]), &set(&[]), &set(&[]), &set(&["A"]));
    assert_eq!(diff.to_spawn, vec![s("A")]);
    assert_eq!(diff.missing, vec![s("X")]);
}

#[test]
fn decision_ignores_insertion_order() {
    let realized = set(&["B", "C"]);
    let respawn = set(&[]);
    let available = set(&["A", "B", "C"]);
    let d1 = reconcile(&set(&["A", "B"]), &realized, &respawn, &available);
    let d2 = reconcile(
        &LevelSet::from_iids(vec![s("B"), s("A"), s("B")]),
        &realized,
        &respawn,
        &available,
    );
    assert_eq!(sorted(&d1.to_spawn), sorted(&d2.to_spawn));
    assert_eq!(sorted(&d1.to_despawn), sorted(&d2.to_despawn));
    assert_eq!(sorted(&d1.unchanged), sorted(&d2.unchanged));
    assert_eq!(sorted(&d1.missing), sorted(&d2.missing));
}
