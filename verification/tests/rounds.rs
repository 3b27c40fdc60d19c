use gartic_on_demand::engine::Engine;
use gartic_on_demand::game::Mode;
use gartic_on_demand::state::EngineError;

const NOW: i64 = 1000;
const SEED: u64 = 17;

fn setup() -> Engine {
    Engine::new()
}

#[test]
fn round_create_then_find_round() {
    let mut e = setup();
    e.create_or_update_user(0, String::from(""), NOW);

    e.attempt_new_round(0, Mode::Ross, false, 1, 0, NOW);
    e.get_active_round(0).unwrap();
}

#[test]
fn round_create_then_cancel_and_attempt_same_round() {
    let mut e = setup();
    e.create_or_update_user(0, String::from(""), NOW);

    e.attempt_new_round(0, Mode::Ross, false, 1, 0, NOW);
    e.cancel_active_attempt(0, NOW).unwrap();
    e.attempt_existing_round(0, Mode::Ross, false, 0, 0, NOW, SEED).unwrap();
}

#[test]
fn round_create_then_fail_attempting_same_round() {
    let mut e = setup();
    e.create_or_update_user(0, String::from(""), NOW);

    e.attempt_new_round(0, Mode::Ross, false, 1, 0, NOW);
    e.attempt_existing_round(0, Mode::Ross, false, 0, 0, NOW, SEED).unwrap_err();
}

#[test]
fn round_fail_attempting_allocated_round() {
    let mut e = setup();
    e.create_or_update_user(0, String::from(""), NOW);
    e.create_or_update_user(1, String::from(""), NOW);

    e.attempt_new_round(0, Mode::Ross, false, 1, 0, NOW);
    e.attempt_existing_round(1, Mode::Ross, false, 0, 0, NOW, SEED).unwrap_err();
}

#[test]
fn round_succeed_attempting_not_fully_allocated_round() {
    let mut e = setup();
    e.create_or_update_user(0, String::from(""), NOW);
    e.create_or_update_user(1, String::from(""), NOW);

    e.attempt_new_round(0, Mode::Ross, false, 2, 0, NOW);
    e.attempt_existing_round(1, Mode::Ross, false, 0, 0, NOW, SEED).unwrap();
}

#[test]
fn round_complete_round() {
    let mut e = setup();
    e.create_or_update_user(0, String::from(""), NOW);
    e.attempt_new_round(0, Mode::Ross, false, 2, 0, NOW);
    e.upload_active_attempt(0, NOW).unwrap();
    let approved = e.approve_uploaded_attempt(0, 0, 0, NOW).unwrap();

    e.forward_complete_round(approved, NOW).unwrap();
}

#[test]
fn second_round() {
    let mut e = setup();
    e.create_or_update_user(0, String::from(""), NOW);
    e.attempt_new_round(0, Mode::Ross, false, 2, 0, NOW);
    e.upload_active_attempt(0, NOW).unwrap();
    let approved = e.approve_uploaded_attempt(0, 0, 0, NOW).unwrap();
    e.forward_complete_round(approved, NOW).unwrap();

    let al = e.attempt_existing_round(0, Mode::Ross, false, 1, 0, NOW, SEED).unwrap();

    let ancestors = e.lineage.iter().filter(|edge| edge.round == al.round).count();
    assert_eq!(ancestors, 1);
}

#[test]
fn forwarding_twice_is_a_state_conflict() {
    let mut e = setup();
    e.create_or_update_user(0, String::from(""), NOW);
    e.attempt_new_round(0, Mode::Ross, false, 2, 0, NOW);
    e.upload_active_attempt(0, NOW).unwrap();
    let approved = e.approve_uploaded_attempt(0, 0, 0, NOW).unwrap();

    e.forward_complete_round(approved, NOW).unwrap();
    let second = e.forward_complete_round(approved, NOW);

    assert_eq!(second, Err(EngineError::StateConflict));
    assert_eq!(e.rounds.len(), 2);
}

#[test]
fn forwarded_round_carries_whole_ancestor_chain() {
    let mut e = setup();
    e.create_or_update_user(0, String::from(""), NOW);
    e.create_or_update_user(1, String::from(""), NOW);

    e.attempt_new_round(0, Mode::Ross, false, 1, 0, NOW);
    e.upload_active_attempt(0, NOW).unwrap();
    let first = e.approve_uploaded_attempt(0, 0, 10, NOW).unwrap();
    let second_round = e.forward_complete_round(first, NOW).unwrap();

    let al = e.attempt_existing_round(1, Mode::Ross, false, 1, 0, NOW, SEED).unwrap();
    assert_eq!(al.round, second_round);
    e.upload_active_attempt(1, NOW).unwrap();
    let second = e.approve_uploaded_attempt(1, 1, 11, NOW).unwrap();
    let third_round = e.forward_complete_round(second, NOW).unwrap();

    let mut ancestors: Vec<usize> = e
        .lineage
        .iter()
        .filter(|edge| edge.round == third_round)
        .map(|edge| edge.attempt)
        .collect();
    ancestors.sort();
    assert_eq!(ancestors, vec![first, second]);
    assert_eq!(e.rounds[third_round].round_no, 2);
}

#[test]
fn allocate_prefers_branch_with_fewest_prior_appearances() {
    let mut e = setup();
    e.create_or_update_user(0, String::from(""), NOW);
    e.create_or_update_user(1, String::from(""), NOW);

    // User 0 finishes one opening round; user 1 finishes another.
    e.attempt_new_round(0, Mode::Ross, false, 1, 0, NOW);
    e.upload_active_attempt(0, NOW).unwrap();
    let by_user0 = e.approve_uploaded_attempt(0, 0, 10, NOW).unwrap();
    let branch0 = e.forward_complete_round(by_user0, NOW).unwrap();

    e.attempt_new_round(1, Mode::Ross, false, 1, 0, NOW);
    e.upload_active_attempt(1, NOW).unwrap();
    let by_user1 = e.approve_uploaded_attempt(1, 1, 11, NOW).unwrap();
    let branch1 = e.forward_complete_round(by_user1, NOW).unwrap();

    // User 0 appears once among branch0's ancestors and never among
    // branch1's, so whatever the seed, user 0 lands on branch1.
    for seed in 0..8u64 {
        let al = e.attempt_existing_round(0, Mode::Ross, false, 1, 0, NOW, seed).unwrap();
        assert_eq!(al.round, branch1);
        assert_ne!(al.round, branch0);
        e.cancel_active_attempt(0, NOW).unwrap();
    }
}
