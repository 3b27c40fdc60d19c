use gartic_on_demand::args::{
    map_game, map_gamemode, notification_plan, AssetKindArg, GameArg, GamemodeArg,
    NotificationArg, Reactions,
};
use gartic_on_demand::assets::{AssetKind, ImageKind};
use gartic_on_demand::game::{Evolution, GameLogic, GameSession, Mode, Ross};
use gartic_on_demand::state::{transition, AttemptEvent, AttemptState, EngineError};

#[test]
fn ross_policy_values() {
    assert_eq!(Ross.last_round(), 4);
    assert_eq!(Ross.time_limit(0), 900);
    assert_eq!(Ross.time_limit(3), 900);
    assert_eq!(Ross.time_limit(4), 5200);
    assert_eq!(Ross.multiplex(0), 1);
    assert_eq!(Ross.multiplex(4), 1);
    assert_eq!(Ross.multiplex(5), 0);
    assert_eq!(Ross.prompt(0), "Draw an attribute.");
    assert_eq!(Ross.prompt(4), "Draw a character using the attributes.");
}

#[test]
fn evolution_policy_values() {
    assert_eq!(Evolution.last_round(), 2);
    assert_eq!(Evolution.time_limit(0), 1800);
    assert_eq!(Evolution.time_limit(1), 2700);
    assert_eq!(Evolution.time_limit(2), 3600);
    assert_eq!(Evolution.multiplex(7), 1);
    assert_eq!(Evolution.prompt(0), "Draw the first, base evolution");
    assert_eq!(Evolution.prompt(1), "Draw the second evolution.");
    assert_eq!(Evolution.prompt(2), "Draw the third, final evolution.");
}

#[test]
fn mode_delegates_to_its_game() {
    assert_eq!(Mode::Ross.last_round(), 4);
    assert_eq!(Mode::Evolution.last_round(), 2);
    assert_eq!(Mode::Ross.time_limit(4), 5200);
    assert_eq!(Mode::Evolution.multiplex(0), 1);
    assert_eq!(Mode::Ross.prompt(1), "Draw an attribute.");
}

#[test]
fn game_session_counts_rounds() {
    let mut s = GameSession::new(Mode::Ross);
    assert_eq!(s.round(), 0);
    s.images.push(10);
    s.images.push(11);
    assert_eq!(s.round(), 2);
}

#[test]
fn terminal_states_refuse_every_trigger() {
    let now = 50;
    let terminals = [
        AttemptState::Cancelled { when: 1 },
        AttemptState::Expired { when: 1 },
        AttemptState::Approved { when: 1, who: 2, what: 3 },
        AttemptState::Rejected { when: 1, who: 2, what: 3 },
    ];
    let events = [
        AttemptEvent::Extend { until: 99 },
        AttemptEvent::Cancel,
        AttemptEvent::Expire,
        AttemptEvent::BeginUpload,
        AttemptEvent::SubmitTrusted { who: 1, what: 2 },
        AttemptEvent::SubmitUntrusted { what: 2 },
        AttemptEvent::Approve { who: 1, what: 2 },
        AttemptEvent::Reject { who: 1, what: 2 },
    ];
    for s in terminals.iter() {
        for ev in events.iter() {
            assert_eq!(transition(s, ev, now), Err(EngineError::StateConflict));
        }
    }
}

#[test]
fn replaying_approve_is_a_state_conflict() {
    let now = 50;
    let pending = AttemptState::Pending { since: 1, what: 7 };
    let approved = transition(&pending, &AttemptEvent::Approve { who: 2, what: 8 }, now).unwrap();
    assert_eq!(approved, AttemptState::Approved { when: now, who: 2, what: 8 });

    let replay = transition(&approved, &AttemptEvent::Approve { who: 2, what: 8 }, now);
    assert_eq!(replay, Err(EngineError::StateConflict));
}

#[test]
fn expire_needs_a_passed_deadline() {
    let active = AttemptState::Active { until: 100 };
    assert_eq!(
        transition(&active, &AttemptEvent::Expire, 100),
        Err(EngineError::StateConflict)
    );
    assert_eq!(
        transition(&active, &AttemptEvent::Expire, 101),
        Ok(AttemptState::Expired { when: 101 })
    );
}

#[test]
fn upload_locks_then_routes_by_trust() {
    let now = 10;
    let active = AttemptState::Active { until: 100 };
    let uploading = transition(&active, &AttemptEvent::BeginUpload, now).unwrap();
    assert_eq!(uploading, AttemptState::Uploading { since: now });

    let trusted = transition(&uploading, &AttemptEvent::SubmitTrusted { who: 5, what: 6 }, now);
    assert_eq!(trusted, Ok(AttemptState::Approved { when: now, who: 5, what: 6 }));

    let untrusted = transition(&uploading, &AttemptEvent::SubmitUntrusted { what: 6 }, now);
    assert_eq!(untrusted, Ok(AttemptState::Pending { since: now, what: 6 }));
}

#[test]
fn command_arguments_map_to_engine_values() {
    assert_eq!(map_game(GameArg::Ross), Mode::Ross);
    assert_eq!(map_gamemode(GamemodeArg::Ross), Mode::Ross);
    assert_eq!(AssetKind::from(AssetKindArg::DrawThis), AssetKind::DrawThis);
    assert_eq!(
        AssetKind::from(AssetKindArg::InConstruction),
        AssetKind::InConstruction
    );
    assert_eq!(ImageKind::from(AssetKind::DrawThis), ImageKind::Asset(AssetKind::DrawThis));
}

#[test]
fn notification_choices_set_flag_and_role() {
    let disable = notification_plan(NotificationArg::Disable);
    assert!(!disable.notify_once && !disable.always_role);
    let once = notification_plan(NotificationArg::Once);
    assert!(once.notify_once && !once.always_role);
    let always = notification_plan(NotificationArg::Always);
    assert!(!always.notify_once && always.always_role);
}

#[test]
fn reaction_verdicts() {
    let reactions = Reactions { accept: 'y', reject: 'n', reroll: 'r', delete: 'd' };
    assert_eq!(reactions.verdict('y'), Some(true));
    assert_eq!(reactions.verdict('n'), Some(false));
    assert_eq!(reactions.verdict('r'), None);
    assert_eq!(reactions.verdict('x'), None);
}
