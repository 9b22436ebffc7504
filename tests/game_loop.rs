use speedhockey_backend::game::{
    BodyPosition, EngineAction, EngineInputMessage, Game, GameState, Player,
};
use speedhockey_backend::geometry::{rink_center, Vector2, ARENA_HEIGHT, ARENA_WIDTH};
use speedhockey_backend::registry::{BodyHandle, Team, PUCK_ID};

fn handle(index: u32) -> BodyHandle {
    BodyHandle { index, generation: 0 }
}

fn puck() -> BodyHandle {
    handle(0)
}

/// Applies `AddPlayer(id)` and, when a paddle is asked for, registers `body`.
fn join(game: &mut Game, id: u64, body: BodyHandle) {
    match game.apply(EngineInputMessage::AddPlayer(id)) {
        EngineAction::CreatePaddle(who) => {
            assert_eq!(who, id);
            assert!(!game.handle_in_use(body));
            assert_eq!(game.add_player(id, body), Some(()));
        }
        other => panic!("unexpected action {:?}", other),
    }
}

fn at(x: i32, y: i32) -> Vector2 {
    Vector2 { x, y }
}

#[test]
fn new_game_holds_only_the_puck() {
    let game = Game::new(puck());
    assert_eq!(game.participant_count(), 0);
    assert_eq!(game.body_of(PUCK_ID), Some(puck()));
    assert_eq!(game.team_of(PUCK_ID), None);
    assert_eq!(game.red_score(), 0);
    assert_eq!(game.blue_score(), 0);
    assert_eq!(game.puck_handle(), puck());
}

#[test]
fn initial_state_is_empty_and_centred() {
    let s = GameState::new();
    assert!(s.players.is_empty());
    assert_eq!(s.puck_pos, at(8_000_000, 4_500_000));
    assert_eq!(s.red_score, 0);
    assert_eq!(s.blue_score, 0);
}

#[test]
fn add_player_registers_a_spectator() {
    let mut game = Game::new(puck());
    join(&mut game, 7, handle(1));
    assert_eq!(game.participant_count(), 1);
    assert_eq!(game.body_of(7), Some(handle(1)));
    assert_eq!(game.team_of(7), Some(Team::Spectator));
    assert!(game.handle_in_use(handle(1)));
    assert!(game.handle_in_use(puck()));
    assert!(!game.handle_in_use(handle(2)));
}

#[test]
fn puck_id_cannot_be_added() {
    let mut game = Game::new(puck());
    assert_eq!(game.apply(EngineInputMessage::AddPlayer(PUCK_ID)), EngineAction::Nothing);
    assert_eq!(game.add_player(PUCK_ID, handle(5)), None);
    assert_eq!(game.participant_count(), 0);
    assert_eq!(game.body_of(PUCK_ID), Some(puck()));
}

#[test]
fn puck_cannot_be_removed() {
    let mut game = Game::new(puck());
    join(&mut game, 3, handle(1));
    assert_eq!(game.apply(EngineInputMessage::RemovePlayer(PUCK_ID)), EngineAction::Nothing);
    assert_eq!(game.remove_player(PUCK_ID), None);
    assert_eq!(game.body_of(PUCK_ID), Some(puck()));
    assert_eq!(game.participant_count(), 1);
}

#[test]
fn remove_player_hands_back_its_body() {
    let mut game = Game::new(puck());
    join(&mut game, 3, handle(1));
    join(&mut game, 4, handle(2));
    assert_eq!(game.apply(EngineInputMessage::RemovePlayer(3)), EngineAction::RemoveBody(handle(1)));
    assert_eq!(game.participant_count(), 1);
    assert_eq!(game.body_of(3), None);
    assert_eq!(game.body_of(4), Some(handle(2)));
    // A second removal is a silent no-op.
    assert_eq!(game.apply(EngineInputMessage::RemovePlayer(3)), EngineAction::Nothing);
}

#[test]
fn set_team_enables_players_and_disables_spectators() {
    let mut game = Game::new(puck());
    join(&mut game, 9, handle(4));
    assert_eq!(
        game.apply(EngineInputMessage::SetTeam(9, Team::Blue)),
        EngineAction::SetEnabled(handle(4), true)
    );
    assert_eq!(game.team_of(9), Some(Team::Blue));
    assert_eq!(
        game.apply(EngineInputMessage::SetTeam(9, Team::Spectator)),
        EngineAction::SetEnabled(handle(4), false)
    );
    assert_eq!(game.team_of(9), Some(Team::Spectator));
}

#[test]
fn set_team_of_unknown_or_puck_is_ignored() {
    let mut game = Game::new(puck());
    assert_eq!(game.apply(EngineInputMessage::SetTeam(42, Team::Red)), EngineAction::Nothing);
    assert_eq!(game.apply(EngineInputMessage::SetTeam(PUCK_ID, Team::Red)), EngineAction::Nothing);
    assert_eq!(game.team_of(PUCK_ID), None);
    assert_eq!(game.participant_count(), 0);
}

#[test]
fn move_player_aims_at_clamped_target() {
    let mut game = Game::new(puck());
    join(&mut game, 2, handle(3));
    assert_eq!(
        game.apply(EngineInputMessage::MovePlayer(2, at(-4_000_000, 3_000_000))),
        EngineAction::MoveTowards(handle(3), at(0, 3_000_000))
    );
    assert_eq!(
        game.apply(EngineInputMessage::MovePlayer(2, at(1_000_000, 2_000_000))),
        EngineAction::MoveTowards(handle(3), at(1_000_000, 2_000_000))
    );
    assert_eq!(
        game.move_player(2, at(20_000_000, 10_000_000)),
        Some((handle(3), at(ARENA_WIDTH, ARENA_HEIGHT)))
    );
    assert_eq!(game.apply(EngineInputMessage::MovePlayer(77, at(1, 1))), EngineAction::Nothing);
}

#[test]
fn goal_on_the_left_scores_red() {
    let mut game = Game::new(puck());
    assert_eq!(game.check_goal(at(-500_001, 4_000_000)), Some(Team::Red));
    assert_eq!(game.red_score(), 1);
    assert_eq!(game.blue_score(), 0);
}

#[test]
fn goal_on_the_right_scores_blue() {
    let mut game = Game::new(puck());
    assert_eq!(game.check_goal(at(16_500_001, 4_000_000)), Some(Team::Blue));
    assert_eq!(game.red_score(), 0);
    assert_eq!(game.blue_score(), 1);
}

#[test]
fn puck_on_the_line_is_no_goal() {
    let mut game = Game::new(puck());
    assert_eq!(game.check_goal(at(-500_000, 0)), None);
    assert_eq!(game.check_goal(at(16_500_000, 0)), None);
    assert_eq!(game.check_goal(at(8_000_000, 4_500_000)), None);
    assert_eq!((game.red_score(), game.blue_score()), (0, 0));
}

#[test]
fn scores_never_decrease_over_ticks() {
    let mut game = Game::new(puck());
    let xs = [-600_000, 8_000_000, 17_000_000, -2_000_000, -2_000_000, 3_000_000];
    let (mut red, mut blue) = (0u32, 0u32);
    for x in xs {
        let (scored, state) = game.end_tick(at(x, 1_000_000), &Vec::new());
        assert!(state.red_score >= red && state.red_score <= red + 1);
        assert!(state.blue_score >= blue && state.blue_score <= blue + 1);
        assert!(state.red_score + state.blue_score <= red + blue + 1);
        assert_eq!(scored.is_some(), state.red_score + state.blue_score == red + blue + 1);
        red = state.red_score;
        blue = state.blue_score;
    }
    assert_eq!((red, blue), (3, 1));
}

#[test]
fn snapshot_leaves_out_spectators_and_unplaced_bodies() {
    let mut game = Game::new(puck());
    join(&mut game, 1, handle(1));
    join(&mut game, 2, handle(2));
    join(&mut game, 3, handle(3));
    game.apply(EngineInputMessage::SetTeam(1, Team::Red));
    game.apply(EngineInputMessage::SetTeam(3, Team::Blue));
    let table = vec![
        BodyPosition { body: puck(), position: at(8_000_000, 4_500_000) },
        BodyPosition { body: handle(1), position: at(1_000_000, 1_000_000) },
        BodyPosition { body: handle(2), position: at(2_000_000, 2_000_000) },
    ];
    let state = game.snapshot(at(5, 6), &table);
    assert_eq!(
        state.players,
        vec![Player { id: 1, position: at(1_000_000, 1_000_000), team: Team::Red }]
    );
    assert_eq!(state.puck_pos, at(5, 6));
}

#[test]
fn end_tick_puts_the_puck_back_after_a_goal() {
    let mut game = Game::new(puck());
    let (scored, state) = game.end_tick(at(-1_000_000, 3_000_000), &Vec::new());
    assert_eq!(scored, Some(Team::Red));
    assert_eq!(state.puck_pos, rink_center());
    let (scored, state) = game.end_tick(at(4_000_000, 3_000_000), &Vec::new());
    assert_eq!(scored, None);
    assert_eq!(state.puck_pos, at(4_000_000, 3_000_000));
    assert_eq!(state.red_score, 1);
}

#[test]
fn join_score_leave() {
    let mut game = Game::new(puck());
    // Participant 7 connects and is added as a spectator.
    join(&mut game, 7, handle(1));
    assert_eq!(game.team_of(7), Some(Team::Spectator));
    // It picks red, and its paddle takes part again.
    assert_eq!(
        game.apply(EngineInputMessage::SetTeam(7, Team::Red)),
        EngineAction::SetEnabled(handle(1), true)
    );
    // It keeps moving towards the left mouth; the puck is pushed along.
    let mut puck_x = 8_000_000;
    let mut scored = None;
    let mut state = GameState::new();
    while scored.is_none() {
        assert_eq!(
            game.apply(EngineInputMessage::MovePlayer(7, at(0, 4_500_000))),
            EngineAction::MoveTowards(handle(1), at(0, 4_500_000))
        );
        puck_x -= 1_000_000;
        let table = vec![
            BodyPosition { body: puck(), position: at(puck_x, 4_500_000) },
            BodyPosition { body: handle(1), position: at(puck_x + 1_000_000, 4_500_000) },
        ];
        let (s, st) = game.end_tick(at(puck_x, 4_500_000), &table);
        scored = s;
        state = st;
    }
    assert!(puck_x < -500_000);
    assert_eq!(scored, Some(Team::Red));
    assert_eq!(state.red_score, 1);
    assert_eq!(state.blue_score, 0);
    assert_eq!(state.puck_pos, at(8_000_000, 4_500_000));
    assert!(state.players.iter().any(|p| p.id == 7));
    // Participant 7 disconnects.
    assert_eq!(game.apply(EngineInputMessage::RemovePlayer(7)), EngineAction::RemoveBody(handle(1)));
    let table = vec![BodyPosition { body: puck(), position: at(8_000_000, 4_500_000) }];
    for _ in 0..3 {
        let (_, st) = game.end_tick(at(8_000_000, 4_500_000), &table);
        assert!(st.players.iter().all(|p| p.id != 7));
        assert_eq!(st.red_score, 1);
    }
}

#[test]
fn concurrent_adds() {
    let mut game = Game::new(puck());
    let mut queue = Vec::new();
    for id in 1..=100u64 {
        queue.push(EngineInputMessage::AddPlayer(id));
    }
    let mut next_index = 1u32;
    for msg in queue {
        match game.apply(msg) {
            EngineAction::CreatePaddle(id) => {
                let body = handle(next_index);
                next_index += 1;
                assert!(!game.handle_in_use(body));
                assert_eq!(game.add_player(id, body), Some(()));
            }
            other => panic!("unexpected action {:?}", other),
        }
    }
    assert_eq!(game.participant_count(), 100);
    let mut bodies = vec![game.body_of(PUCK_ID).unwrap()];
    for id in 1..=100u64 {
        assert_eq!(game.team_of(id), Some(Team::Spectator));
        bodies.push(game.body_of(id).unwrap());
    }
    assert_eq!(bodies.len(), 101);
    for a in 0..bodies.len() {
        for b in (a + 1)..bodies.len() {
            assert_ne!(bodies[a], bodies[b]);
        }
    }
}
