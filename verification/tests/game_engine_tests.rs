use mahjong_engine::game::game_engine::GameEngine;
use mahjong_engine::game::win_checker::can_win_by_ron;
use mahjong_engine::models::game_state::{GamePhase, GameState, Player};
use mahjong_engine::models::tile::Tile;

/// The tiles a seat holds: its hand and the tile it has drawn.
fn held(state: &GameState, seat: usize) -> usize {
    state.hands[seat].len() + state.drawn_tile[seat].iter().count()
}

/// A wall that deals the given hands, then the first draw, then `draws` in
/// turn; the other tiles of the full set lie below.
fn stacked_wall(hands: [&[u8]; 4], first_draw: u8, draws: &[u8]) -> Vec<Tile> {
    let mut left = [4i32; 34];
    let mut top: Vec<u8> = Vec::new();
    for hand in hands {
        assert_eq!(hand.len(), 13);
        top.extend_from_slice(hand);
    }
    top.push(first_draw);
    top.extend_from_slice(draws);
    for id in &top {
        left[*id as usize] -= 1;
        assert!(left[*id as usize] >= 0);
    }
    let mut order: Vec<u8> = Vec::new();
    for id in 0..34u8 {
        for _ in 0..left[id as usize] {
            order.push(id);
        }
    }
    top.reverse();
    order.extend(top);
    order.iter().map(|id| Tile::new(*id).unwrap()).collect()
}

/// Hands that no single tile completes.
fn quiet_wall() -> Vec<Tile> {
    stacked_wall(
        [
            &[0, 0, 2, 2, 4, 4, 6, 6, 8, 8, 27, 27, 28],
            &[9, 9, 11, 11, 13, 13, 15, 15, 17, 17, 29, 29, 28],
            &[18, 18, 20, 20, 22, 22, 24, 24, 26, 26, 30, 30, 28],
            &[1, 1, 3, 3, 5, 5, 7, 7, 10, 10, 12, 12, 31],
        ],
        33,
        &[],
    )
}

/// No seat's hand is one tile from complete.
fn nobody_waits(state: &GameState) -> bool {
    (0..4).all(|seat| {
        (0..34u8).all(|id| !can_win_by_ron(&state.hands[seat], Tile::new(id).unwrap()))
    })
}

/// A round in which the human seat has discarded the first tile of its hand
/// and no seat is one tile from complete.
fn round_after_first_discard() -> GameEngine {
    let mut engine = GameEngine::new();
    engine.new_game();
    // Ensure player has a tile to discard
    let tile_id = engine.get_state().hands[0][0].id();
    let state = engine.player_discard(tile_id).unwrap(); // Player discards, turn goes to Cpu1
    if nobody_waits(&state) && state.phase == GamePhase::Draw {
        return engine;
    }
    engine.deal(quiet_wall()).unwrap();
    let tile_id = engine.get_state().hands[0][0].id();
    engine.player_discard(tile_id).unwrap();
    engine
}

#[test]
fn test_new_game_deals_tiles() {
    let mut engine = GameEngine::new();
    let state = engine.new_game();

    // Player has 14 tiles (13 dealt + 1 initial draw), others have 13
    assert_eq!(held(&state, 0), 14);
    assert_eq!(state.hands[1].len(), 13);
    assert_eq!(state.hands[2].len(), 13);
    assert_eq!(state.hands[3].len(), 13);
    // Wall count should be 136 - 52 - 1 = 83
    assert_eq!(state.wall_count, 83);
    // Phase and current player set
    assert_eq!(state.phase, GamePhase::Discard);
    assert_eq!(state.current_player, Player::Player);
    // The initial draw is held apart from the thirteen dealt tiles
    assert_eq!(state.hands[0].len(), 13);
    assert!(state.drawn_tile[0].is_some());
    assert_eq!(held(&state, 1), 13);
    assert_eq!(held(&state, 2), 13);
    assert_eq!(held(&state, 3), 13);
}

#[test]
fn test_get_state_returns_clone() {
    let mut engine = GameEngine::new();
    engine.new_game();
    let state = engine.get_state();
    assert_eq!(state.hands.len(), 4);
}

#[test]
fn test_player_discard() {
    let mut engine = GameEngine::new();
    engine.new_game();

    // Ensure player has tile 0 after new_game, and that no other seat waits for it
    let state = engine.get_state();
    let tile0 = Tile::new(0).unwrap();
    let had_tile0 =
        state.hands[0].iter().any(|t| t.id() == 0) || state.drawn_tile[0] == Some(tile0);
    let claimed = (1..4).any(|seat| can_win_by_ron(&state.hands[seat], tile0));
    if !had_tile0 || claimed {
        engine.deal(quiet_wall()).unwrap();
    }
    let before_len = held(&engine.get_state(), 0);
    let res = engine.player_discard(0);
    assert!(res.is_ok());

    let state = res.unwrap();
    assert_eq!(held(&state, 0), before_len - 1);
    assert!(state.discards[0].iter().any(|t| t.id() == 0));
    assert_eq!(state.current_player, Player::Cpu1);
    assert_eq!(state.phase, GamePhase::Draw);
}

#[test]
fn test_cpu_step_draw() {
    let mut engine = round_after_first_discard();

    let before_wall = engine.get_state().wall_count;
    let before_hand_len = held(&engine.get_state(), 1);
    let res = engine.cpu_step();
    assert!(res.is_ok());

    let state = res.unwrap();
    // Cpu1 should have drawn a tile
    assert_eq!(held(&state, 1), before_hand_len + 1);
    assert_eq!(state.wall_count, before_wall - 1);
    assert_eq!(state.phase, GamePhase::Discard);
    assert_eq!(state.current_player, Player::Cpu1);
}

#[test]
fn test_cpu_step_discard() {
    let mut engine = round_after_first_discard();
    engine.cpu_step().unwrap(); // Cpu1 draws

    let before_hand_len = held(&engine.get_state(), 1);
    let before_discard_len = engine.get_state().discards[1].len();
    let res = engine.cpu_step();
    assert!(res.is_ok());

    let state = res.unwrap();
    // Cpu1 should have discarded a tile
    assert_eq!(held(&state, 1), before_hand_len - 1);
    assert_eq!(state.discards[1].len(), before_discard_len + 1);
    // Turn should advance to Cpu2
    assert_eq!(state.current_player, Player::Cpu2);
    assert_eq!(state.phase, GamePhase::Draw);
}
