use clarion::storage::schema::pending_migrations;

#[test]
fn fresh_database_needs_every_migration_in_order() {
    assert_eq!(pending_migrations(&vec![], &vec![1, 2, 3]), vec![1, 2, 3]);
}

#[test]
fn migrations_already_recorded_are_skipped() {
    assert_eq!(pending_migrations(&vec![1], &vec![1]), Vec::<u32>::new());
    assert_eq!(pending_migrations(&vec![2], &vec![1, 2, 3]), vec![1, 3]);
    // Versions recorded but unknown to this build are ignored.
    assert_eq!(pending_migrations(&vec![7, 1], &vec![1, 2]), vec![2]);
}

#[test]
fn second_run_applies_nothing() {
    let known = vec![1, 2, 3];
    let mut applied = vec![2];
    let first = pending_migrations(&applied, &known);
    applied.extend(first.iter().copied());
    assert_eq!(pending_migrations(&applied, &known), Vec::<u32>::new());
}
