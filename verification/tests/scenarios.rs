use gartic_on_demand::engine::Engine;
use gartic_on_demand::game::Mode;
use gartic_on_demand::state::AttemptState;

const NOW: i64 = 1000;

fn occupants(e: &Engine, round: usize) -> usize {
    e.attempts
        .iter()
        .filter(|a| {
            a.round == round
                && matches!(
                    a.state,
                    AttemptState::Active { .. }
                        | AttemptState::Uploading { .. }
                        | AttemptState::Pending { .. }
                )
        })
        .count()
}

#[test]
fn two_players_never_share_a_single_slot_round() {
    let mut e = Engine::new();
    e.create_or_update_user(0, String::from("a"), NOW);
    e.create_or_update_user(1, String::from("b"), NOW);

    let first = e.allocate(0, Mode::Ross, false, 0, NOW, 1).unwrap();
    let second = e.allocate(1, Mode::Ross, false, 0, NOW, 2).unwrap();

    // Round zero always creates fresh: the second caller lands in a new
    // round, and no round ever holds two occupants at capacity one.
    assert_ne!(first.round, second.round);
    assert_eq!(e.rounds.len(), 2);
    for r in 0..e.rounds.len() {
        assert!(occupants(&e, r) <= e.rounds[r].multiplex as usize);
        assert_eq!(occupants(&e, r), 1);
    }
}

#[test]
fn swept_slot_can_be_taken_again() {
    let mut e = Engine::new();
    e.create_or_update_user(0, String::from("a"), NOW);
    let al = e.attempt_new_round(0, Mode::Ross, false, 1, -1, NOW);

    let expired = e.expire_active_attempts(NOW);

    assert_eq!(expired, vec![al.attempt]);
    assert_eq!(e.attempts[al.attempt].state, AttemptState::Expired { when: NOW });

    // The slot no longer counts, so the same user may take it again as
    // if the prior attempt never occupied it.
    let again = e
        .attempt_existing_round(0, Mode::Ross, false, 0, 3600, NOW, 5)
        .unwrap();
    assert_eq!(again.round, al.round);
    assert_eq!(occupants(&e, al.round), 1);
}

#[test]
fn sweeping_twice_with_no_elapsed_time_changes_nothing() {
    let mut e = Engine::new();
    e.create_or_update_user(0, String::from("a"), NOW);
    e.attempt_new_round(0, Mode::Ross, false, 1, -100, NOW);
    e.attempt_new_round(0, Mode::Ross, false, 1, 100, NOW);

    let first = e.expire_active_attempts(NOW);
    let second = e.expire_active_attempts(NOW);

    assert_eq!(first.len(), 1);
    assert_eq!(second.len(), 0);
}

#[test]
fn moderator_verdict_records_rehosted_image_and_author() {
    let mut e = Engine::new();
    e.create_or_update_user(0, String::from("artist"), NOW);
    e.create_or_update_user(9, String::from("curator"), NOW);
    let al = e.attempt_new_round(0, Mode::Ross, false, 1, 3600, NOW);

    e.upload_active_attempt(0, NOW).unwrap();
    e.moderate_uploaded_attempt(0, 7, NOW).unwrap();
    assert_eq!(
        e.attempts[al.attempt].state,
        AttemptState::Pending { since: NOW, what: 7 }
    );

    e.approve_pending_attempt(0, 9, 8, NOW + 1).unwrap();
    assert_eq!(
        e.attempts[al.attempt].state,
        AttemptState::Approved { when: NOW + 1, who: 9, what: 8 }
    );
}

#[test]
fn allocate_rejects_round_numbers_past_the_final_round() {
    let mut e = Engine::new();
    e.create_or_update_user(0, String::from("a"), NOW);

    let r = e.allocate(0, Mode::Ross, false, 5, NOW, 0);

    assert!(r.is_err());
    assert!(e.rounds.is_empty());
}

#[test]
fn allocate_past_round_zero_never_creates() {
    let mut e = Engine::new();
    e.create_or_update_user(0, String::from("a"), NOW);

    let r = e.allocate(0, Mode::Ross, false, 1, NOW, 0);

    assert!(r.is_err());
    assert!(e.rounds.is_empty());
}

#[test]
fn allocate_joins_forwarded_round() {
    let mut e = Engine::new();
    e.create_or_update_user(0, String::from("a"), NOW);
    e.create_or_update_user(1, String::from("b"), NOW);
    e.allocate(0, Mode::Ross, false, 0, NOW, 0).unwrap();
    e.upload_active_attempt(0, NOW).unwrap();
    let approved = e.approve_uploaded_attempt(0, 0, 42, NOW).unwrap();
    let next = e.forward_complete_round(approved, NOW).unwrap();

    let al = e.allocate(1, Mode::Ross, false, 1, NOW, 0).unwrap();

    assert_eq!(al.round, next);
    assert_eq!(e.rounds[next].round_no, 1);
}

#[test]
fn sweep_now_retires_by_the_wall_clock() {
    let mut e = Engine::new();
    e.create_or_update_user(0, String::from("a"), NOW);
    // One attempt expired since the dawn of time, one that never will be.
    e.attempt_new_round(0, Mode::Ross, false, 1, i64::MIN + 1, 0);
    e.attempt_new_round(0, Mode::Ross, false, 1, i64::MAX - 1, 0);

    let (when, retired) = e.sweep_now();

    assert_eq!(retired, 1);
    assert!(matches!(e.attempts[0].state, AttemptState::Expired { .. }));
    assert_eq!(e.attempts[1].state, AttemptState::Active { until: i64::MAX - 1 });
    if let AttemptState::Expired { when: stamped } = e.attempts[0].state {
        assert_eq!(stamped, when);
    }
}
