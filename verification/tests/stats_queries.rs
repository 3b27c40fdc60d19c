use gartic_on_demand::engine::Engine;
use gartic_on_demand::game::Mode;
use gartic_on_demand::stats::{
    filter_joinable_rounds, IncompleteGames, PlayableFilter, UnallocatedRound,
};

const NOW: i64 = 1000;

#[test]
fn list_active_users() {
    let mut e = Engine::new();
    for id in 0..5u64 {
        e.create_or_update_user(id, String::from(""), NOW);
    }
    e.attempt_new_round(0, Mode::Ross, false, 1, 0, NOW);
    e.attempt_new_round(1, Mode::Ross, false, 1, 0, NOW);
    e.attempt_new_round(2, Mode::Ross, false, 1, 0, NOW);
    e.attempt_new_round(3, Mode::Ross, false, 1, 0, NOW);
    e.upload_active_attempt(0, NOW).unwrap();
    e.upload_active_attempt(1, NOW).unwrap();
    e.moderate_uploaded_attempt(1, 1, NOW).unwrap();
    e.upload_active_attempt(2, NOW).unwrap();
    e.approve_uploaded_attempt(2, 2, 2, NOW).unwrap();

    let active_users = e.get_active_users();

    assert_eq!(active_users.len(), 3);
}

#[test]
fn list_unallocated_rounds() {
    let mut e = Engine::new();
    e.create_or_update_user(0, String::from(""), NOW);
    e.attempt_new_round(0, Mode::Ross, true, 4, 0, NOW);
    e.cancel_active_attempt(0, NOW).unwrap();
    e.attempt_new_round(0, Mode::Ross, false, 2, 0, NOW);
    e.upload_active_attempt(0, NOW).unwrap();
    let approved = e.approve_uploaded_attempt(0, 0, 0, NOW).unwrap();
    e.forward_complete_round(approved, NOW).unwrap();

    let unallocated = e.get_unallocated_rounds();

    // Sorted by maturity flag, then mode, then round number.
    let values: Vec<u64> = unallocated.iter().map(|u| u.unallocated).collect();
    assert_eq!(values, vec![2, 1, 4]);
    assert_eq!(unallocated[0].round_no, 0);
    assert!(!unallocated[0].nsfw);
    assert_eq!(unallocated[1].round_no, 1);
    assert!(unallocated[2].nsfw);
}

#[test]
fn unallocated_rounds_merge_groups() {
    let mut e = Engine::new();
    e.create_or_update_user(0, String::from(""), NOW);
    e.create_or_update_user(1, String::from(""), NOW);
    e.attempt_new_round(0, Mode::Ross, false, 3, 0, NOW);
    e.attempt_new_round(1, Mode::Ross, false, 2, 0, NOW);

    let unallocated = e.get_unallocated_rounds();

    // Two round-zero slots share one group: (3 - 1) + (2 - 1).
    assert_eq!(unallocated.len(), 1);
    assert_eq!(unallocated[0].unallocated, 3);
}

#[test]
fn playable_filter_drops_opening_and_overflow_rounds() {
    let games = vec![
        IncompleteGames { mode: Mode::Ross, count: 1, round: 0, nsfw: false },
        IncompleteGames { mode: Mode::Ross, count: 2, round: 1, nsfw: false },
        IncompleteGames { mode: Mode::Ross, count: 3, round: 4, nsfw: true },
        IncompleteGames { mode: Mode::Ross, count: 4, round: 5, nsfw: false },
        IncompleteGames { mode: Mode::Evolution, count: 5, round: 2, nsfw: false },
        IncompleteGames { mode: Mode::Evolution, count: 6, round: 3, nsfw: false },
    ];

    let kept = games.filter();

    let counts: Vec<u64> = kept.iter().map(|g| g.count).collect();
    assert_eq!(counts, vec![2, 3, 5]);
}

#[test]
fn joinable_filter_drops_opening_and_overflow_rounds() {
    let rounds = vec![
        UnallocatedRound { mode: Mode::Ross, nsfw: false, round_no: 0, unallocated: 1 },
        UnallocatedRound { mode: Mode::Ross, nsfw: false, round_no: 2, unallocated: 2 },
        UnallocatedRound { mode: Mode::Evolution, nsfw: false, round_no: 3, unallocated: 3 },
    ];

    let kept = filter_joinable_rounds(rounds);

    assert_eq!(kept.len(), 1);
    assert_eq!(kept[0].unallocated, 2);
}

#[test]
fn no_attributes_available() {
    let e = Engine::new();

    let attributes = e.get_random_ross_attributes(3);
    assert_eq!(attributes.len(), 0);
}

#[test]
fn enough_attributes_available() {
    let mut e = Engine::new();
    e.create_or_update_user(0, String::from(""), NOW);

    for i in 0..4u64 {
        e.attempt_new_round(0, Mode::Ross, false, 1, 0, NOW);
        e.upload_active_attempt(0, NOW).unwrap();
        let approved = e.approve_uploaded_attempt(0, 0, i, NOW).unwrap();
        e.forward_complete_round(approved, NOW).unwrap();
    }

    let attributes = e.get_random_ross_attributes(3);
    assert_eq!(attributes.len(), 4);
}

#[test]
fn attributes_are_distinct_and_approved() {
    let mut e = Engine::new();
    e.create_or_update_user(0, String::from(""), NOW);
    for i in 0..6u64 {
        e.attempt_new_round(0, Mode::Ross, false, 1, 0, NOW);
        e.upload_active_attempt(0, NOW).unwrap();
        e.approve_uploaded_attempt(0, 0, i, NOW).unwrap();
    }

    for seed in 0..5u64 {
        let attributes = e.get_random_ross_attributes(seed);
        assert_eq!(attributes.len(), 4);
        for (i, a) in attributes.iter().enumerate() {
            assert!(matches!(
                e.attempts[*a].state,
                gartic_on_demand::state::AttemptState::Approved { .. }
            ));
            for b in attributes.iter().skip(i + 1) {
                assert_ne!(a, b);
            }
        }
    }
}
