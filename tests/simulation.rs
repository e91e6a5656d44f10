use game::components::{ENTITY_RADIUS, GRID_X, GRID_Y, MELEE_COOLDOWN, TICK_MS};
use game::lunge::{isqrt, lunge_velocity, slowed_velocity};
use game::{screen_client_input, Game, GameError, Input, Melee, Position, Score, Snapshot, Team, Velocity};

fn create(id: &str, team: Team) -> Input {
    Input::CreatePlayer { id: id.to_string(), team }
}

fn steer(id: &str, dx: i32, dy: i32) -> Input {
    Input::PlayerMove { player_id: id.to_string(), velocity: Velocity { dx, dy } }
}

fn melee(id: &str) -> Input {
    Input::PlayerMelee { player_id: id.to_string() }
}

fn run(game: &mut Game, commands: Vec<Input>, ticks: usize) {
    game.tick(commands, TICK_MS);
    for _ in 1..ticks {
        game.tick(Vec::new(), TICK_MS);
    }
}

fn player<'a>(s: &'a Snapshot, id: &str) -> &'a game::Player {
    s.players.iter().find(|p| p.metadata.id == id).expect("player in snapshot")
}

fn melee_of(game: &Game, id: &str) -> Melee {
    let e = game.get_player(id.to_string()).unwrap();
    *game.world.get::<&Melee>(e).unwrap()
}

#[test]
fn new_game_has_two_flags_at_home() {
    let game = Game::new();
    let s = game.make_snapshot();
    assert!(s.players.is_empty());
    assert_eq!(s.flags.len(), 2);
    assert_eq!(s.flags[0].team, Team::Red);
    assert_eq!(s.flags[0].position, Position { x: 10_000, y: 50_000 });
    assert!(s.flags[0].item.held_by.is_none());
    assert_eq!(s.flags[1].team, Team::Blue);
    assert_eq!(s.flags[1].position, Position { x: 190_000, y: 50_000 });
    assert!(s.flags[1].item.held_by.is_none());
    assert_eq!(s.score, Score { red: 0, blue: 0 });
}

#[test]
fn new_player_starts_at_team_spawn() {
    let mut game = Game::new();
    game.add_player("r".to_string(), Team::Red);
    game.add_player("b".to_string(), Team::Blue);
    let s = game.make_snapshot();
    assert_eq!(player(&s, "r").position, Position { x: 5_000, y: 5_000 });
    assert_eq!(player(&s, "b").position, Position { x: 195_000, y: 95_000 });
    assert_eq!(player(&s, "r").velocity, Velocity { dx: 0, dy: 0 });
    assert!(!player(&s, "r").melee_active);
    let m = melee_of(&game, "r");
    assert_eq!(m, Melee { active: false, cooldown: 0, max_cooldown: MELEE_COOLDOWN });
}

#[test]
fn adding_a_duplicate_identifier_replaces_the_entity() {
    let mut game = Game::new();
    let first = game.add_player("p".to_string(), Team::Red);
    let second = game.add_player("p".to_string(), Team::Blue);
    assert_ne!(first, second);
    assert!(!game.world.contains(first));
    assert!(game.world.contains(second));
    assert_eq!(game.get_player("p".to_string()), Ok(second));
    let s = game.make_snapshot();
    assert_eq!(s.players.len(), 1);
    assert_eq!(s.players[0].team, Team::Blue);
    assert_eq!(s.players[0].position, Position { x: 195_000, y: 95_000 });
}

#[test]
fn remove_player_unregisters_and_tolerates_unknown_ids() {
    let mut game = Game::new();
    let e = game.add_player("p".to_string(), Team::Red);
    game.remove_player("nobody");
    assert_eq!(game.make_snapshot().players.len(), 1);
    game.remove_player("p");
    assert!(!game.world.contains(e));
    assert_eq!(game.get_player("p".to_string()), Err(GameError::UnknownPlayer));
    assert!(game.make_snapshot().players.is_empty());
}

#[test]
fn commands_for_unknown_players_are_refused() {
    let mut game = Game::new();
    assert_eq!(game.apply_input(steer("ghost", 10, 10)), Err(GameError::UnknownPlayer));
    assert_eq!(game.apply_input(melee("ghost")), Err(GameError::UnknownPlayer));
    assert_eq!(game.apply_input(Input::RemovePlayer { id: "ghost".to_string() }), Ok(()));
    assert!(game.make_snapshot().players.is_empty());
}

#[test]
fn clients_may_not_create_players() {
    let refused = screen_client_input(create("p", Team::Red));
    assert!(matches!(refused, Err(GameError::ProtocolViolation)));
    let passed = screen_client_input(melee("p"));
    assert!(matches!(passed, Ok(Input::PlayerMelee { ref player_id }) if player_id == "p"));
}

#[test]
fn queued_commands_apply_in_order_before_the_step() {
    let mut game = Game::new();
    let results = game.tick(vec![create("a", Team::Red), steer("a", 1_000, 0), steer("b", 5, 5)], TICK_MS);
    assert_eq!(results, vec![Ok(()), Ok(()), Err(GameError::UnknownPlayer)]);
    let s = game.make_snapshot();
    // the move landed before the movement system ran: 1 unit/s for 20 ms
    assert_eq!(player(&s, "a").position, Position { x: 5_020, y: 5_000 });

    let mut other = Game::new();
    let results = other.tick(vec![steer("a", 1_000, 0), create("a", Team::Red)], TICK_MS);
    assert_eq!(results, vec![Err(GameError::UnknownPlayer), Ok(())]);
    assert_eq!(player(&other.make_snapshot(), "a").position, Position { x: 5_000, y: 5_000 });
}

#[test]
fn movement_is_clamped_to_the_arena() {
    let mut game = Game::new();
    run(&mut game, vec![create("a", Team::Red), steer("a", i32::MAX, i32::MIN)], 3);
    let s = game.make_snapshot();
    assert_eq!(player(&s, "a").position, Position { x: GRID_X, y: 0 });
    run(&mut game, vec![steer("a", -7, i32::MAX)], 1);
    assert_eq!(player(&game.make_snapshot(), "a").position, Position { x: GRID_X, y: GRID_Y });
    for p in game.make_snapshot().players.iter() {
        assert!(0 <= p.position.x && p.position.x <= GRID_X);
        assert!(0 <= p.position.y && p.position.y <= GRID_Y);
    }
}

#[test]
fn movement_scales_velocity_by_tick_length() {
    let mut game = Game::new();
    run(&mut game, vec![create("a", Team::Red), steer("a", 3_000, -2_500)], 1);
    // 3 units/s and -2.5 units/s for 20 ms
    assert_eq!(player(&game.make_snapshot(), "a").position, Position { x: 5_060, y: 4_950 });
}

#[test]
fn melee_while_stationary_never_starts_a_lunge() {
    let mut game = Game::new();
    run(&mut game, vec![create("a", Team::Red), melee("a")], 1);
    let m = melee_of(&game, "a");
    assert!(!m.active);
    assert_eq!(m.cooldown, 0);
    let s = game.make_snapshot();
    assert_eq!(player(&s, "a").velocity, Velocity { dx: 0, dy: 0 });
    assert!(!player(&s, "a").melee_active);
}

#[test]
fn melee_while_moving_lunges_then_stops() {
    let mut game = Game::new();
    game.tick(vec![create("a", Team::Red), steer("a", 1_000, 0)], TICK_MS);
    game.apply_input(melee("a")).unwrap();
    let m = melee_of(&game, "a");
    assert_eq!(m, Melee { active: true, cooldown: MELEE_COOLDOWN, max_cooldown: MELEE_COOLDOWN });
    assert_eq!(player(&game.make_snapshot(), "a").velocity, Velocity { dx: 60_000, dy: 0 });
    // 200 ms of 20 ms ticks: still lunging after ten, over after the eleventh
    for _ in 0..10 {
        game.step(TICK_MS);
    }
    assert!(melee_of(&game, "a").active);
    assert_eq!(player(&game.make_snapshot(), "a").velocity, Velocity { dx: 60_000, dy: 0 });
    game.step(TICK_MS);
    let m = melee_of(&game, "a");
    assert!(!m.active);
    assert_eq!(m.cooldown, MELEE_COOLDOWN - 11 * TICK_MS);
    assert_eq!(player(&game.make_snapshot(), "a").velocity, Velocity { dx: 0, dy: 0 });
}

#[test]
fn moves_are_ignored_while_lunging_and_slowed_while_cooling() {
    let mut game = Game::new();
    game.tick(vec![create("a", Team::Red), steer("a", 0, 1_000)], TICK_MS);
    game.apply_input(melee("a")).unwrap();
    game.apply_input(steer("a", 5_000, 5_000)).unwrap();
    assert_eq!(player(&game.make_snapshot(), "a").velocity, Velocity { dx: 0, dy: 60_000 });
    for _ in 0..11 {
        game.step(TICK_MS);
    }
    game.apply_input(steer("a", 1_001, -1_001)).unwrap();
    assert_eq!(player(&game.make_snapshot(), "a").velocity, Velocity { dx: 500, dy: -500 });
    // a second melee during the cooldown does nothing
    game.apply_input(melee("a")).unwrap();
    assert!(!melee_of(&game, "a").active);
}

#[test]
fn capture_round_trip_scores_once_for_blue() {
    let mut game = Game::new();
    // blue spawn (195, 95) to red flag home (10, 50) in exactly one second
    run(&mut game, vec![create("b", Team::Blue), steer("b", -185_000, -45_000)], 50);
    let s = game.make_snapshot();
    assert_eq!(player(&s, "b").position, Position { x: 10_000, y: 50_000 });
    assert_eq!(s.flags[0].item.held_by.as_deref(), Some("b"));
    assert_eq!(s.flags[0].position, Position { x: 10_000, y: 50_000 });
    // from there to the blue flag home (190, 50)
    run(&mut game, vec![steer("b", 180_000, 0)], 50);
    let s = game.make_snapshot();
    assert_eq!(player(&s, "b").position, Position { x: 190_000, y: 50_000 });
    assert_eq!(s.score, Score { red: 0, blue: 1 });
    assert!(s.flags[0].item.held_by.is_none());
    assert_eq!(s.flags[0].position, Game::new().make_snapshot().flags[0].position);
    assert_eq!(s.flags[0].position, Position { x: 10_000, y: 50_000 });
    assert!(s.flags[1].item.held_by.is_none());
}

#[test]
fn struck_carrier_respawns_and_drops_the_flag() {
    let mut game = Game::new();
    game.tick(vec![create("r", Team::Red), create("b", Team::Blue)], TICK_MS);
    // red spawn (5, 5) to the blue flag (190, 50): picks it up on the way
    run(&mut game, vec![steer("r", 185_000, 45_000)], 50);
    let s = game.make_snapshot();
    assert_eq!(player(&s, "r").position, Position { x: 190_000, y: 50_000 });
    assert_eq!(s.flags[1].item.held_by.as_deref(), Some("r"));
    // blue walks up to (195, 55) and the carrier stops
    run(&mut game, vec![steer("r", 0, 0), steer("b", 0, -40_000)], 50);
    assert_eq!(player(&game.make_snapshot(), "b").position, Position { x: 195_000, y: 55_000 });
    // blue lunges into the carrier
    game.tick(vec![steer("b", -1_000, -1_000), melee("b")], TICK_MS);
    let s = game.make_snapshot();
    let r = player(&s, "r");
    assert_eq!(r.position, Position { x: 5_000, y: 5_000 });
    assert_eq!(r.velocity, Velocity { dx: 0, dy: 0 });
    assert!(!r.melee_active);
    let m = melee_of(&game, "r");
    assert!(!m.active);
    assert_eq!(m.cooldown, 0);
    assert!(s.flags[1].item.held_by.is_none());
    assert_eq!(s.flags[1].position, Position { x: 190_000, y: 50_000 });
    assert!(player(&s, "b").melee_active);
}

#[test]
fn same_team_lunges_do_not_respawn() {
    let mut game = Game::new();
    game.tick(vec![create("r1", Team::Red), create("r2", Team::Red)], TICK_MS);
    game.tick(vec![steer("r1", 1_000, 0), melee("r1")], TICK_MS);
    let s = game.make_snapshot();
    assert!(player(&s, "r1").melee_active);
    assert_eq!(player(&s, "r2").position, Position { x: 5_000, y: 5_000 });
    assert_eq!(player(&s, "r1").position, Position { x: 6_200, y: 5_000 });
}

#[test]
fn leaving_while_carrying_drops_the_flag() {
    let mut game = Game::new();
    run(&mut game, vec![create("b", Team::Blue), steer("b", -185_000, -45_000)], 50);
    assert_eq!(game.make_snapshot().flags[0].item.held_by.as_deref(), Some("b"));
    game.tick(vec![steer("b", 0, 10_000)], TICK_MS);
    game.apply_input(Input::RemovePlayer { id: "b".to_string() }).unwrap();
    let s = game.make_snapshot();
    assert!(s.players.is_empty());
    assert!(s.flags[0].item.held_by.is_none());
    assert_eq!(s.flags[0].position, Position { x: 10_000, y: 50_200 });
}

#[test]
fn integer_square_root() {
    assert_eq!(isqrt(0), 0);
    assert_eq!(isqrt(1), 1);
    assert_eq!(isqrt(15), 3);
    assert_eq!(isqrt(16), 4);
    assert_eq!(isqrt(1 << 82), 1 << 41);
}

#[test]
fn lunge_keeps_direction_at_lunge_speed() {
    assert_eq!(lunge_velocity(Velocity { dx: 3_000, dy: 4_000 }), Velocity { dx: 36_000, dy: 48_000 });
    assert_eq!(lunge_velocity(Velocity { dx: -7, dy: 0 }), Velocity { dx: -60_000, dy: 0 });
    assert_eq!(lunge_velocity(Velocity { dx: 0, dy: 1 }), Velocity { dx: 0, dy: 60_000 });
    let d = lunge_velocity(Velocity { dx: 1, dy: 1 });
    assert_eq!(d, Velocity { dx: 42_430, dy: 42_430 });
    let big = lunge_velocity(Velocity { dx: i32::MIN, dy: i32::MAX });
    assert!(big.dx < 0 && big.dy > 0);
    assert!(big.dx >= -60_000 && big.dy <= 60_000);
}

#[test]
fn cooldown_penalty_halves_and_rounds_toward_zero() {
    assert_eq!(slowed_velocity(Velocity { dx: 1_001, dy: -1_001 }), Velocity { dx: 500, dy: -500 });
    assert_eq!(slowed_velocity(Velocity { dx: -1, dy: 1 }), Velocity { dx: 0, dy: 0 });
    assert_eq!(slowed_velocity(Velocity { dx: i32::MIN, dy: i32::MAX }), Velocity { dx: -1_073_741_824, dy: 1_073_741_823 });
}

#[test]
fn flag_radius_matches_players() {
    let game = Game::new();
    let r = *game.world.get::<&game::Radius>(game.red_flag).unwrap();
    assert_eq!(r.value, ENTITY_RADIUS);
}
