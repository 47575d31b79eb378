use backend_core::access::{get_permission, Permission};
use backend_core::error::Error;
use backend_core::pagination::Order;
use backend_core::presentation::Presentation;
use backend_core::repository::Repository;
use backend_core::store::Store;
use backend_core::text::Cmp;
use backend_core::user::{Model, Query, Role};

fn user(id: u128, name: &str, role: Role) -> Model {
    Model { id, name: name.to_string(), role }
}

fn empty_query() -> Query {
    Query { id: vec![], name: (String::new(), false), role: None }
}

fn five_users() -> Store {
    let mut store = Store::new();
    let _ = Repository::save(
        &mut store,
        vec![
            user(3, "carol", Role::User),
            user(1, "alice", Role::Admin),
            user(5, "erin!", Role::User),
            user(2, "bobby", Role::User),
            user(4, "dave!", Role::Admin),
        ],
    );
    store
}

fn by_name() -> Vec<(String, Order)> {
    vec![("name".to_string(), Order::Asc)]
}

#[test]
fn first_page_of_five_sorted_entities() {
    let store = five_users();
    let page = Repository::find_page(&store, None, &empty_query(), &by_name(), 2, None, None)
        .expect("first page");
    let names: Vec<&str> = page.items.iter().map(|m| m.name.as_str()).collect();
    assert_eq!(names, vec!["alice", "bobby"]);
    assert!(page.has_next);
    assert!(!page.has_previous);
}

#[test]
fn forward_then_backward_returns_the_original_window() {
    let store = five_users();
    let q = empty_query();
    let sort = by_name();
    let p1 = Repository::find_page(&store, None, &q, &sort, 2, None, None).expect("page 1");
    let p2 = Repository::find_page(
        &store,
        None,
        &q,
        &sort,
        2,
        Some(p1.items.last().unwrap().id),
        None,
    )
    .expect("page 2");
    let names2: Vec<&str> = p2.items.iter().map(|m| m.name.as_str()).collect();
    assert_eq!(names2, vec!["carol", "dave!"]);
    assert!(p2.has_previous);
    assert!(p2.has_next);

    let back = Repository::find_page(
        &store,
        None,
        &q,
        &sort,
        2,
        None,
        Some(p2.items.first().unwrap().id),
    )
    .expect("back to page 1");
    assert_eq!(back.items, p1.items);
    assert!(back.has_next);
    assert!(!back.has_previous);
}

#[test]
fn consecutive_forward_pages_share_no_rows() {
    let store = five_users();
    let q = empty_query();
    let sort = by_name();
    let mut seen: Vec<u128> = vec![];
    let mut cursor: Option<u128> = None;
    loop {
        let page =
            Repository::find_page(&store, None, &q, &sort, 2, cursor, None).expect("a page");
        for m in &page.items {
            assert!(!seen.contains(&m.id), "row {} repeated across pages", m.id);
            seen.push(m.id);
        }
        if !page.has_next {
            break;
        }
        cursor = Some(page.items.last().unwrap().id);
    }
    assert_eq!(seen.len(), 5);
}

#[test]
fn last_page_is_short_and_final() {
    let store = five_users();
    let page = Repository::find_page(&store, None, &empty_query(), &by_name(), 2, Some(4), None)
        .expect("page after dave");
    let names: Vec<&str> = page.items.iter().map(|m| m.name.as_str()).collect();
    assert_eq!(names, vec!["erin!"]);
    assert!(!page.has_next);
    assert!(page.has_previous);
}

#[test]
fn zero_size_pages_keep_correct_indicators() {
    let store = five_users();
    let page = Repository::find_page(&store, None, &empty_query(), &by_name(), 0, None, None)
        .expect("empty window");
    assert!(page.items.is_empty());
    assert!(page.has_next);
    assert!(!page.has_previous);
}

#[test]
fn cursor_need_not_match_the_query() {
    let store = five_users();
    // Filter to plain users only; the cursor row is an admin and is
    // filtered out, yet still serves as a key comparison value.
    let q = Query { id: vec![], name: (String::new(), false), role: Some(Role::User) };
    let page = Repository::find_page(&store, None, &q, &by_name(), 10, Some(1), None)
        .expect("cursor outside the match set");
    let names: Vec<&str> = page.items.iter().map(|m| m.name.as_str()).collect();
    assert_eq!(names, vec!["bobby", "carol", "erin!"]);
}

#[test]
fn backward_window_near_the_start_is_short() {
    let store = five_users();
    // Only one row stands before bobby; the backward window is short
    // and still reported in forward order.
    let page = Repository::find_page(&store, None, &empty_query(), &by_name(), 2, None, Some(2))
        .expect("short backward window");
    let names: Vec<&str> = page.items.iter().map(|m| m.name.as_str()).collect();
    assert_eq!(names, vec!["alice"]);
    assert!(!page.has_previous);
    assert!(page.has_next);
}

#[test]
fn unknown_cursor_is_reported() {
    let store = five_users();
    let err = Repository::find_page(&store, None, &empty_query(), &by_name(), 2, Some(77), None)
        .expect_err("missing cursor row");
    assert_eq!(err, Error::NotFound { typ: "User".to_string(), id: 77 });
}

#[test]
fn both_cursors_are_rejected() {
    let store = five_users();
    let err = Repository::find_page(&store, None, &empty_query(), &by_name(), 2, Some(1), Some(2))
        .expect_err("after and before together");
    assert_eq!(err, Error::Validation { field: "cursor".to_string() });
}

#[test]
fn unknown_sort_field_is_rejected() {
    let store = five_users();
    let sort = vec![("name".to_string(), Order::Asc), ("height".to_string(), Order::Desc)];
    let err = Repository::find_page(&store, None, &empty_query(), &sort, 2, None, None)
        .expect_err("unsupported sort field");
    assert_eq!(err, Error::Validation { field: "height".to_string() });
    let err = Repository::find_all(&store, &empty_query(), &sort).expect_err("same in find_all");
    assert_eq!(err, Error::Validation { field: "height".to_string() });
}

#[test]
fn find_all_orders_with_identifier_tie_break() {
    let mut store = Store::new();
    let _ = Repository::save(
        &mut store,
        vec![
            user(2, "same name", Role::User),
            user(1, "same name", Role::Admin),
            user(3, "other one", Role::User),
        ],
    );
    let rows = Repository::find_all(&store, &empty_query(), &by_name()).expect("sorted");
    let ids: Vec<u128> = rows.iter().map(|m| m.id).collect();
    // Equal names fall back to ascending identifiers.
    assert_eq!(ids, vec![3, 1, 2]);
}

#[test]
fn find_all_honors_descending_order_and_filters() {
    let store = five_users();
    let sort = vec![("name".to_string(), Order::Desc)];
    let rows = Repository::find_all(&store, &empty_query(), &sort).expect("sorted desc");
    let names: Vec<&str> = rows.iter().map(|m| m.name.as_str()).collect();
    assert_eq!(names, vec!["erin!", "dave!", "carol", "bobby", "alice"]);

    let q = Query { id: vec![2, 4], name: (String::new(), false), role: None };
    let rows = Repository::find_all(&store, &q, &by_name()).expect("id filter");
    let ids: Vec<u128> = rows.iter().map(|m| m.id).collect();
    assert_eq!(ids, vec![2, 4]);

    let q = Query { id: vec![], name: (" CAROL ".to_string(), false), role: None };
    let rows = Repository::find_all(&store, &q, &by_name()).expect("normalized name filter");
    assert_eq!(rows.len(), 1);
    assert_eq!(rows[0].id, 3);

    let q = Query { id: vec![], name: ("carol".to_string(), true), role: None };
    let rows = Repository::find_all(&store, &q, &by_name()).expect("exact name filter");
    assert_eq!(rows.len(), 1);

    let q = Query { id: vec![], name: ("CAROL".to_string(), true), role: None };
    let rows = Repository::find_all(&store, &q, &by_name()).expect("exact is case-sensitive");
    assert!(rows.is_empty());

    let q = Query { id: vec![], name: (String::new(), false), role: Some(Role::Admin) };
    let rows = Repository::find_all(&store, &q, &by_name()).expect("role filter");
    let ids: Vec<u128> = rows.iter().map(|m| m.id).collect();
    assert_eq!(ids, vec![1, 4]);
}

#[test]
fn lookups_by_id() {
    let store = five_users();
    assert_eq!(Repository::find_by_id(&store, 3).unwrap().name, "carol");
    assert!(Repository::find_by_id(&store, 99).is_none());
    let found = Repository::find_by_ids(&store, &vec![5, 99, 1]);
    let ids: Vec<u128> = found.iter().map(|m| m.id).collect();
    // Storage order, misses absent.
    assert_eq!(ids, vec![1, 5]);
}

#[test]
fn save_upserts_by_identifier() {
    let mut store = Store::new();
    let _ = Repository::save(&mut store, vec![user(1, "alice", Role::User)]);
    let _ = Repository::save(&mut store, vec![user(1, "alicia", Role::Admin)]);
    assert_eq!(store.rows, vec![user(1, "alicia", Role::Admin)]);
}

#[test]
fn permissions_mix_within_one_batch() {
    let batch = vec![
        user(1, "alice", Role::User),
        user(2, "bobby", Role::User),
    ];
    // A plain user writes their own record only.
    let op = user(1, "alice", Role::User);
    let perms = get_permission(Some(&op), &batch);
    assert_eq!(perms, vec![(1, Permission::ReadWrite), (2, Permission::ReadOnly)]);
    // An admin writes everything; an absent operator nothing.
    let admin = user(9, "root admin", Role::Admin);
    let perms = get_permission(Some(&admin), &batch);
    assert_eq!(perms, vec![(1, Permission::ReadWrite), (2, Permission::ReadWrite)]);
    let perms = get_permission(None, &batch);
    assert_eq!(perms, vec![(1, Permission::ReadOnly), (2, Permission::ReadOnly)]);
}

#[test]
fn presentation_preserves_count_and_order() {
    let batch = vec![user(2, "bobby", Role::User), user(1, "alice", Role::Admin)];
    let shaped = Presentation::from(None, &batch);
    assert_eq!(shaped.len(), 2);
    assert_eq!(shaped[0].id, 2);
    assert_eq!(shaped[0].name, "bobby");
    assert_eq!(shaped[1].id, 1);
    assert_eq!(shaped[1].role, Role::Admin);
}

#[test]
fn compare_by_field_recognizes_known_fields_only() {
    let a = user(1, "alice", Role::User);
    let b = user(2, "bobby", Role::Admin);
    assert_eq!(a.compare_by_field(&b, &"id".to_string()), Some(Cmp::Less));
    assert_eq!(a.compare_by_field(&b, &"name".to_string()), Some(Cmp::Less));
    assert_eq!(b.compare_by_field(&a, &"name".to_string()), Some(Cmp::Greater));
    assert_eq!(a.compare_by_field(&b, &"role".to_string()), Some(Cmp::Less));
    assert_eq!(a.compare_by_field(&a, &"role".to_string()), Some(Cmp::Equal));
    assert_eq!(a.compare_by_field(&b, &"height".to_string()), None);
}
