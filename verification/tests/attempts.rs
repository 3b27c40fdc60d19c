use gartic_on_demand::engine::Engine;
use gartic_on_demand::game::Mode;
use gartic_on_demand::state::AttemptState;

const NOW: i64 = 1000;

fn setup() -> Engine {
    Engine::new()
}

#[test]
fn attempt_extend_attempt_to_avoid_expiration() {
    let mut e = setup();
    e.create_or_update_user(0, String::from(""), NOW);
    e.attempt_new_round(0, Mode::Ross, false, 1, -3600, NOW);

    e.extend_active_attempt(0, 3600, NOW).unwrap();

    let expired = e.expire_active_attempts(NOW);
    assert!(expired.is_empty());
}

#[test]
fn attempt_expire_one_out_of_two() {
    let mut e = setup();
    e.create_or_update_user(0, String::from(""), NOW);
    e.attempt_new_round(0, Mode::Ross, false, 1, -3600, NOW);
    e.attempt_new_round(0, Mode::Ross, false, 1, 3600, NOW);

    let expired = e.expire_active_attempts(NOW);

    assert_eq!(expired.len(), 1);
}

#[test]
fn attempt_cancel_attempt() {
    let mut e = setup();
    e.create_or_update_user(0, String::from(""), NOW);
    e.attempt_new_round(0, Mode::Ross, false, 1, -3600, NOW);

    e.cancel_active_attempt(0, NOW).unwrap();
}

#[test]
fn attempt_accept_unmoderated_attempt() {
    let mut e = setup();
    e.create_or_update_user(0, String::from(""), NOW);
    e.attempt_new_round(0, Mode::Ross, false, 1, -3600, NOW);

    e.upload_active_attempt(0, NOW).unwrap();
    e.approve_uploaded_attempt(0, 0, 0, NOW).unwrap();
}

#[test]
fn get_pending_attempt() {
    let mut e = setup();
    e.create_or_update_user(0, String::from(""), NOW);
    e.attempt_new_round(0, Mode::Ross, false, 1, -3600, NOW);

    e.upload_active_attempt(0, NOW).unwrap();
    e.moderate_uploaded_attempt(0, 0, NOW).unwrap();
    e.get_pending_attempt(0).unwrap();
}

#[test]
fn attempt_accept_moderated_attempt() {
    let mut e = setup();
    e.create_or_update_user(0, String::from(""), NOW);
    e.attempt_new_round(0, Mode::Ross, false, 1, -3600, NOW);

    e.upload_active_attempt(0, NOW).unwrap();
    e.moderate_uploaded_attempt(0, 0, NOW).unwrap();
    e.approve_pending_attempt(0, 0, 0, NOW).unwrap();
}

#[test]
fn attempt_reject_moderated_attempt() {
    let mut e = setup();
    e.create_or_update_user(0, String::from(""), NOW);
    e.attempt_new_round(0, Mode::Ross, false, 1, -3600, NOW);

    e.upload_active_attempt(0, NOW).unwrap();
    e.moderate_uploaded_attempt(0, 0, NOW).unwrap();
    e.reject_pending_attempt(0, 0, 0, NOW).unwrap();
}

#[test]
fn few_active_games_between() {
    let mut e = setup();
    e.create_or_update_user(0, String::from(""), NOW);
    e.attempt_new_round(0, Mode::Ross, false, 1, -3600, NOW);
    e.attempt_new_round(0, Mode::Ross, false, 1, -60, NOW);
    e.attempt_new_round(0, Mode::Ross, false, 1, 0, NOW);

    let attempts = e.get_active_between(NOW - 120, NOW + 60);

    assert_eq!(attempts.len(), 2);
}

#[test]
fn expired_attempt_state_is_recorded() {
    let mut e = setup();
    e.create_or_update_user(0, String::from(""), NOW);
    let al = e.attempt_new_round(0, Mode::Ross, false, 1, -1, NOW);

    let expired = e.expire_active_attempts(NOW);

    assert_eq!(expired, vec![al.attempt]);
    assert_eq!(e.attempts[al.attempt].state, AttemptState::Expired { when: NOW });
}

#[test]
fn cancel_without_active_attempt_is_not_found() {
    let mut e = setup();
    e.create_or_update_user(0, String::from(""), NOW);

    let r = e.cancel_active_attempt(0, NOW);

    assert_eq!(r, Err(gartic_on_demand::state::EngineError::NotFound));
}

#[test]
fn locked_upload_cannot_be_cancelled_or_extended() {
    let mut e = setup();
    e.create_or_update_user(0, String::from(""), NOW);
    e.attempt_new_round(0, Mode::Ross, false, 1, 3600, NOW);
    e.upload_active_attempt(0, NOW).unwrap();

    assert!(e.cancel_active_attempt(0, NOW).is_err());
    assert!(e.extend_active_attempt(0, 3600, NOW).is_err());
}
