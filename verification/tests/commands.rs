use backend_core::error::{Error, FieldValue};
use backend_core::repository::Repository;
use backend_core::store::Store;
use backend_core::user::{
    Command, CommandCreate, CommandDelete, CommandUpdate, Model, Role, User,
};

fn user(id: u128, name: &str, role: Role) -> Model {
    Model { id, name: name.to_string(), role }
}

fn store_with(rows: Vec<Model>) -> Store {
    let mut store = Store::new();
    let _ = Repository::save(&mut store, rows);
    store
}

#[test]
fn create_then_collide_then_role_gate() {
    let mut store = Store::new();

    // An absent operator may create a plain user.
    let alice = Model::create(
        &mut store,
        None,
        CommandCreate { name: "Alice".to_string(), role: Role::User },
    )
    .expect("first create succeeds");
    assert_eq!(alice.name, "Alice");
    assert_eq!(alice.role, Role::User);
    assert_eq!(store.rows.len(), 1);

    // The same name again collides, normalized to lowercase.
    let err = Model::create(
        &mut store,
        None,
        CommandCreate { name: "Alice".to_string(), role: Role::User },
    )
    .expect_err("duplicate name is rejected");
    assert_eq!(
        err,
        Error::AlreadyExists {
            typ: "User".to_string(),
            field: "name".to_string(),
            value: "alice".to_string(),
        }
    );
    assert_eq!(store.rows.len(), 1);

    // An absent operator may not grant the administrative role.
    let err = Model::create(
        &mut store,
        None,
        CommandCreate { name: "Bobby".to_string(), role: Role::Admin },
    )
    .expect_err("absent operator may not grant admin");
    assert_eq!(
        err,
        Error::NoWritePermission {
            operator_id: None,
            typ: "User".to_string(),
            field_values: vec![("role".to_string(), FieldValue::Role(Role::Admin))],
        }
    );

    // An admin operator may.
    let admin = user(999, "Root Admin", Role::Admin);
    let carol = Model::create(
        &mut store,
        Some(&admin),
        CommandCreate { name: "Carol".to_string(), role: Role::Admin },
    )
    .expect("admin grants admin");
    assert_eq!(carol.role, Role::Admin);
}

#[test]
fn create_normalizes_case_and_whitespace() {
    let mut store = store_with(vec![user(1, "alice", Role::User)]);
    // Different casing and surrounding whitespace still collide.
    let err = Model::create(
        &mut store,
        None,
        CommandCreate { name: "  ALICE  ".to_string(), role: Role::User },
    )
    .expect_err("normalized collision");
    match err {
        Error::AlreadyExists { typ, field, value } => {
            assert_eq!(typ, "User");
            assert_eq!(field, "name");
            assert_eq!(value, "alice");
        }
        other => panic!("expected AlreadyExists, got {:?}", other),
    }
    assert_eq!(store.rows.len(), 1);
}

#[test]
fn create_stores_trimmed_name() {
    let mut store = Store::new();
    let m = Model::create(
        &mut store,
        None,
        CommandCreate { name: "  Dora Explorer  ".to_string(), role: Role::User },
    )
    .expect("create succeeds");
    assert_eq!(m.name, "Dora Explorer");
}

#[test]
fn create_rejects_out_of_range_names() {
    let mut store = Store::new();
    let err = Model::create(
        &mut store,
        None,
        CommandCreate { name: "abc".to_string(), role: Role::User },
    )
    .expect_err("too short");
    assert_eq!(
        err,
        Error::NotInRange { field: "name.length".to_string(), begin: 4, end: 128 }
    );

    let long = "x".repeat(129);
    let err = Model::create(
        &mut store,
        None,
        CommandCreate { name: long, role: Role::User },
    )
    .expect_err("too long");
    assert_eq!(
        err,
        Error::NotInRange { field: "name.length".to_string(), begin: 4, end: 128 }
    );
    assert!(store.rows.is_empty());
}

#[test]
fn update_missing_target_is_not_found() {
    let mut store = Store::new();
    let err = Model::update(
        &mut store,
        None,
        CommandUpdate { id: 42, name: None, role: None },
    )
    .expect_err("nothing to update");
    assert_eq!(err, Error::NotFound { typ: "User".to_string(), id: 42 });
}

#[test]
fn empty_update_bypasses_the_write_gate() {
    let mut store = store_with(vec![user(1, "alice", Role::User)]);
    // This operator has no write permission on row 1, yet the empty
    // changeset returns the row unchanged and touches nothing.
    let outsider = user(2, "mallory", Role::User);
    let m = Model::update(
        &mut store,
        Some(&outsider),
        CommandUpdate { id: 1, name: None, role: None },
    )
    .expect("empty update succeeds without a permission check");
    assert_eq!(m, user(1, "alice", Role::User));
    assert_eq!(store.rows, vec![user(1, "alice", Role::User)]);

    // A non-empty changeset from this operator is rejected.
    let err = Model::update(
        &mut store,
        Some(&outsider),
        CommandUpdate { id: 1, name: Some("alicia".to_string()), role: None },
    )
    .expect_err("non-empty update is gated");
    assert_eq!(
        err,
        Error::NoWritePermission {
            operator_id: Some(2),
            typ: "User".to_string(),
            field_values: vec![("id".to_string(), FieldValue::Id(1))],
        }
    );
}

#[test]
fn update_applies_changes_and_persists() {
    let mut store = store_with(vec![user(1, "alice", Role::User)]);
    let admin = user(9, "root admin", Role::Admin);
    let m = Model::update(
        &mut store,
        Some(&admin),
        CommandUpdate { id: 1, name: Some("  Alicia  ".to_string()), role: Some(Role::Admin) },
    )
    .expect("admin updates");
    assert_eq!(m, user(1, "Alicia", Role::Admin));
    assert_eq!(store.rows, vec![user(1, "Alicia", Role::Admin)]);
}

#[test]
fn update_checks_name_uniqueness_against_the_whole_table() {
    let mut store = store_with(vec![user(1, "alice", Role::User), user(2, "bobby", Role::User)]);
    let admin = user(9, "root admin", Role::Admin);
    let err = Model::update(
        &mut store,
        Some(&admin),
        CommandUpdate { id: 2, name: Some("ALICE".to_string()), role: None },
    )
    .expect_err("renaming onto an existing name collides");
    match err {
        Error::AlreadyExists { value, .. } => assert_eq!(value, "alice"),
        other => panic!("expected AlreadyExists, got {:?}", other),
    }
}

#[test]
fn delete_of_nothing_is_a_no_op() {
    let mut store = store_with(vec![user(1, "alice", Role::User)]);
    Model::delete(&mut store, None, CommandDelete { id: vec![] }).expect("empty set is fine");
    assert_eq!(store.rows.len(), 1);
}

#[test]
fn delete_ignores_unresolved_ids() {
    let mut store = store_with(vec![user(1, "alice", Role::User)]);
    let admin = user(9, "root admin", Role::Admin);
    Model::delete(&mut store, Some(&admin), CommandDelete { id: vec![1, 777] })
        .expect("missing ids are silently ignored");
    assert!(store.rows.is_empty());
}

#[test]
fn delete_mixed_batch_fails_whole_and_names_offenders() {
    let rows = vec![
        user(1, "alice", Role::User),
        user(2, "bobby", Role::User),
        user(3, "carol", Role::User),
    ];
    let mut store = store_with(rows.clone());
    // Operator 2 owns row 2 only; rows 1 and 3 are not writable.
    let op = user(2, "bobby", Role::User);
    let err = Model::delete(&mut store, Some(&op), CommandDelete { id: vec![1, 2, 3] })
        .expect_err("one offender fails the batch");
    assert_eq!(
        err,
        Error::NoWritePermission {
            operator_id: Some(2),
            typ: "User".to_string(),
            field_values: vec![
                ("id".to_string(), FieldValue::Id(1)),
                ("id".to_string(), FieldValue::Id(3)),
            ],
        }
    );
    // Nothing at all was removed, the permitted row included.
    assert_eq!(store.rows, rows);
}

#[test]
fn handle_dispatches_commands() {
    let mut store = Store::new();
    let created = User::handle(
        &mut store,
        None,
        Command::Create(CommandCreate { name: "Alice".to_string(), role: Role::User }),
    )
    .expect("create through handle");
    assert_eq!(created.len(), 1);
    let id = created[0].id;

    let updated = User::handle(
        &mut store,
        Some(&created[0].clone()),
        Command::Update(CommandUpdate { id, name: Some("Alicia".to_string()), role: None }),
    )
    .expect("update own record through handle");
    assert_eq!(updated.len(), 1);
    assert_eq!(updated[0].name, "Alicia");

    let removed = User::handle(
        &mut store,
        Some(&updated[0].clone()),
        Command::Delete(CommandDelete { id: vec![id] }),
    )
    .expect("delete own record through handle");
    assert!(removed.is_empty());
    assert!(store.rows.is_empty());
}

#[test]
fn new_draws_an_identifier_and_keeps_fields() {
    let a = Model::new("Alice".to_string(), Role::User);
    let b = Model::new("Alice".to_string(), Role::User);
    assert_eq!(a.name, "Alice");
    assert_eq!(a.role, Role::User);
    // Two draws of the random identifier virtually never coincide.
    assert_ne!(a.id, b.id);
}

#[test]
fn from_models_returns_rows_unchanged() {
    let rows = vec![user(1, "alice", Role::User)];
    assert_eq!(Model::from_models(rows.clone()).unwrap(), rows);
}

#[test]
fn typ_and_id() {
    assert_eq!(Model::typ(), "User");
    assert_eq!(user(7, "alice", Role::User).id(), 7);
}
