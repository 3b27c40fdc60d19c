use gartic_on_demand::engine::Engine;

const NOW: i64 = 1000;

#[test]
fn user_succeed_create_then_update() {
    let mut e = Engine::new();

    e.create_or_update_user(0, String::from("a"), NOW);
    e.create_or_update_user(0, String::from("a"), NOW);

    assert_eq!(e.users.len(), 1);
}

#[test]
fn user_get_existing_user() {
    let mut e = Engine::new();

    e.create_or_update_user(0, String::from("a"), NOW);
    e.get_user(0).unwrap();
}

#[test]
fn user_fail_get_non_existing_user() {
    let e = Engine::new();

    e.get_user(0).unwrap_err();
}

#[test]
fn user_upsert_refreshes_name() {
    let mut e = Engine::new();

    let j = e.create_or_update_user(0, String::from("a"), NOW);
    let k = e.create_or_update_user(0, String::from("b"), NOW + 5);

    assert_eq!(j, k);
    assert_eq!(e.users[k].name, "b");
    assert_eq!(e.users[k].created_at, NOW);
}

#[test]
fn update_user_notify_once() {
    let mut e = Engine::new();
    let j = e.create_or_update_user(0, String::from("a"), NOW);

    let r1 = e.update_notify_once(0, true).unwrap();
    assert!(e.users[r1].notify_once);
    let r2 = e.update_notify_once(0, false).unwrap();
    assert!(!e.users[r2].notify_once);
    assert_eq!(j, r1);
}

#[test]
fn take_users_with_notify_once() {
    let mut e = Engine::new();
    e.create_or_update_user(0, String::from("a"), NOW);
    e.create_or_update_user(1, String::from("a"), NOW);
    e.update_notify_once(0, true).unwrap();

    let r1 = e.take_users_to_notify_once();
    let r2 = e.take_users_to_notify_once();

    assert_eq!(r1.len(), 1);
    assert_eq!(r1[0], 0);
    assert_eq!(r2.len(), 0);
}
