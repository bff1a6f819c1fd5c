use crate::models::tile::Tile;
use vstd::prelude::*;

verus! {

/// Game phase
#[derive(Debug, Clone, Copy, PartialEq, Eq, Structural)]
pub enum GamePhase {
    /// The current seat draws a tile.
    Draw,
    /// The current seat discards a tile.
    Discard,
    /// The current seat may claim the last discard, or pass.
    Ron,
    /// Game over
    End,
}

/// Player seat
#[derive(Debug, Clone, Copy, PartialEq, Eq, Structural)]
pub enum Player {
    /// Human player
    Player,
    Cpu1,
    Cpu2,
    Cpu3,
}

impl Player {
    /// The seat whose turn follows this one.
    pub open spec fn spec_next(&self) -> Player {
        match self {
            Player::Player => Player::Cpu1,
            Player::Cpu1 => Player::Cpu2,
            Player::Cpu2 => Player::Cpu3,
            Player::Cpu3 => Player::Player,
        }
    }

    /// Next player (counter-clockwise)
    #[verifier::when_used_as_spec(spec_next)]
    pub fn next(&self) -> (seat: Player)
        ensures
            seat == self.spec_next(),
    {
        match self {
            Player::Player => Player::Cpu1,
            Player::Cpu1 => Player::Cpu2,
            Player::Cpu2 => Player::Cpu3,
            Player::Cpu3 => Player::Player,
        }
    }

    /// The place of this seat in the per-seat arrays.
    pub open spec fn spec_index(&self) -> int {
        match self {
            Player::Player => 0,
            Player::Cpu1 => 1,
            Player::Cpu2 => 2,
            Player::Cpu3 => 3,
        }
    }

    /// The place of this seat in the per-seat arrays.
    pub fn index(&self) -> (i: usize)
        ensures
            i == self.spec_index(),
            i < 4,
    {
        match self {
            Player::Player => 0,
            Player::Cpu1 => 1,
            Player::Cpu2 => 2,
            Player::Cpu3 => 3,
        }
    }
}

/// Game state snapshot
#[derive(Debug, Clone, PartialEq, Eq)]
pub struct GameState {
    /// Each seat's concealed tiles, in display order.
    pub hands: [Vec<Tile>; 4],
    /// The tile a seat has just drawn and not yet merged into its hand.
    pub drawn_tile: [Option<Tile>; 4],
    /// Each seat's discards, oldest first.
    pub discards: [Vec<Tile>; 4],
    /// The number of tiles left in the wall.
    pub wall_count: usize,
    /// The seat that acts next.
    pub current_player: Player,
    pub phase: GamePhase,
    /// Whether a seat can win on the tile it has drawn.
    pub can_tsumo: [bool; 4],
    /// Whether a seat can win on the last discard.
    pub can_ron: [bool; 4],
    /// The seat that made the last discard.
    pub last_discarder: Option<Player>,
}

/// What a `GameState` holds, seat by seat.
pub struct GameStateView {
    pub hands: Seq<Seq<Tile>>,
    pub drawn_tile: Seq<Option<Tile>>,
    pub discards: Seq<Seq<Tile>>,
    pub wall_count: nat,
    pub current_player: Player,
    pub phase: GamePhase,
    pub can_tsumo: Seq<bool>,
    pub can_ron: Seq<bool>,
    pub last_discarder: Option<Player>,
}

impl View for GameState {
    type V = GameStateView;

    open spec fn view(&self) -> GameStateView {
        GameStateView {
            hands: Seq::new(4, |i: int| self.hands[i]@),
            drawn_tile: self.drawn_tile@,
            discards: Seq::new(4, |i: int| self.discards[i]@),
            wall_count: self.wall_count as nat,
            current_player: self.current_player,
            phase: self.phase,
            can_tsumo: self.can_tsumo@,
            can_ron: self.can_ron@,
            last_discarder: self.last_discarder,
        }
    }
}

impl GameStateView {
    /// The state before any tile is dealt: all 136 tiles in the wall, and
    /// the human seat to draw.
    pub open spec fn initial() -> GameStateView {
        GameStateView {
            hands: Seq::new(4, |i: int| Seq::<Tile>::empty()),
            drawn_tile: Seq::new(4, |i: int| None::<Tile>),
            discards: Seq::new(4, |i: int| Seq::<Tile>::empty()),
            wall_count: 136,
            current_player: Player::Player,
            phase: GamePhase::Draw,
            can_tsumo: Seq::new(4, |i: int| false),
            can_ron: Seq::new(4, |i: int| false),
            last_discarder: None,
        }
    }
}

impl GameState {
    /// Create initial game state
    pub fn new() -> (state: GameState)
        ensures
            state@ == GameStateView::initial(),
    {
        let state = GameState {
            hands: [Vec::new(), Vec::new(), Vec::new(), Vec::new()],
            drawn_tile: [None, None, None, None],
            discards: [Vec::new(), Vec::new(), Vec::new(), Vec::new()],
            wall_count: 136,
            current_player: Player::Player,
            phase: GamePhase::Draw,
            can_tsumo: [false, false, false, false],
            can_ron: [false, false, false, false],
            last_discarder: None,
        };
        proof {
            assert(state@.hands =~= GameStateView::initial().hands);
            assert(state@.discards =~= GameStateView::initial().discards);
            assert(state@.drawn_tile =~= GameStateView::initial().drawn_tile);
            assert(state@.can_tsumo =~= GameStateView::initial().can_tsumo);
            assert(state@.can_ron =~= GameStateView::initial().can_ron);
        }
        state
    }

    /// A copy of this state.
    pub fn snapshot(&self) -> (copy: GameState)
        ensures
            copy@ == self@,
    {
        let copy = GameState {
            hands: [
                self.hands[0].clone(),
                self.hands[1].clone(),
                self.hands[2].clone(),
                self.hands[3].clone(),
            ],
            drawn_tile: self.drawn_tile,
            discards: [
                self.discards[0].clone(),
                self.discards[1].clone(),
                self.discards[2].clone(),
                self.discards[3].clone(),
            ],
            wall_count: self.wall_count,
            current_player: self.current_player,
            phase: self.phase,
            can_tsumo: self.can_tsumo,
            can_ron: self.can_ron,
            last_discarder: self.last_discarder,
        };
        proof {
            assert forall|i: int| 0 <= i < 4 implies copy.hands[i]@ =~= self.hands[i]@ by {}
            assert forall|i: int| 0 <= i < 4 implies copy.discards[i]@ =~= self.discards[i]@ by {}
            assert(copy@.hands =~= self@.hands);
            assert(copy@.discards =~= self@.discards);
        }
        copy
    }
}

} // verus!
