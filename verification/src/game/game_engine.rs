use crate::game::rules::{
    after_claim, after_discard, after_draw, after_exhaustion, after_pass, chosen_tile,
    claims_standing, dealt, deal_share, discard_refusal, drawn_count, flags_current,
    hand_after_discard, hands_orderly, holds_kind, last_discard, legal, no_claims,
    lemma_claim_legal, lemma_dealt_legal, lemma_discard_legal, lemma_draw_legal,
    lemma_exhaustion_legal, lemma_initial_legal, lemma_pass_legal, refusal, ron_eligible,
    tile_moved, tiles_in_play, tsumo_eligible, with_fresh_flags, EngineError,
};
use crate::game::win_checker::can_win_by_ron;
use crate::models::game_state::{GamePhase, GameState, GameStateView, Player};
use crate::models::tile::{
    create_wall, full_wall, insert_sorted, is_sorted, lemma_remove_keeps_sorted, shuffle_wall,
    sort_hand, Tile,
};
use rand::Rng;
use vstd::prelude::*;

verus! {

/// The turn engine: the wall and the state of the round that is played.
pub struct GameEngine {
    wall: Vec<Tile>,
    state: GameState,
}

/// What an engine holds: the wall, drawn from its end, and the state.
pub struct EngineView {
    pub wall: Seq<Tile>,
    pub state: GameStateView,
}

impl View for GameEngine {
    type V = EngineView;

    closed spec fn view(&self) -> EngineView {
        EngineView { wall: self.wall@, state: self.state@ }
    }
}

/// The engine once the current seat has come to draw: it takes the last
/// tile of the wall, or ends the round if the wall is empty.
pub open spec fn engine_after_draw(e: EngineView) -> EngineView {
    if e.wall.len() == 0 {
        EngineView { wall: e.wall, state: after_exhaustion(e.state) }
    } else {
        EngineView { wall: e.wall.drop_last(), state: after_draw(e.state, e.wall.last()) }
    }
}

/// `after` is the state that a discard of a tile of kind `id` by the
/// current seat makes of `before`.
pub open spec fn discarded(before: GameStateView, id: u8, after: GameStateView) -> bool {
    let seat = before.current_player.spec_index();
    &&& hand_after_discard(before.hands[seat], before.drawn_tile[seat], id, after.hands[seat])
    &&& after == after_discard(before, id, after.hands[seat])
}

/// The number of tiles in the hand of the current seat.
pub open spec fn hand_size(s: GameStateView) -> nat {
    s.hands[s.current_player.spec_index()].len()
}

/// Why an automated step is turned down, if it is.
pub open spec fn cpu_step_refusal(s: GameStateView) -> Option<EngineError> {
    if s.current_player == Player::Player {
        Some(EngineError::TurnViolation)
    } else if s.phase == GamePhase::End {
        Some(EngineError::RoundEnded)
    } else {
        None
    }
}

/// `after` is what an automated step makes of `before` when its discard,
/// if it makes one, is picked by `choice`: the seat draws, or discards the
/// chosen tile, or claims the last discard, as the phase asks.
pub open spec fn cpu_step_result(before: EngineView, choice: int, after: EngineView) -> bool {
    match before.state.phase {
        GamePhase::Draw => after == engine_after_draw(before),
        GamePhase::Discard => after.wall == before.wall && discarded(
            before.state,
            chosen_tile(before.state, choice)@,
            after.state,
        ),
        GamePhase::Ron => after.wall == before.wall && after.state == after_claim(before.state),
        GamePhase::End => false,
    }
}

/// A number below `bound`, drawn by `rand`'s `Rng::gen_range` from the
/// generator that `rand::thread_rng` hands out. `gen_range` panics on an
/// empty range, so the bound must not be zero. Which number comes is left
/// open; what is taken on trust is that it lies in the range, as
/// `gen_range` promises. `thread_rng` panics if the system gives it no
/// seed, whatever the bound is.
#[verifier::external_body]
fn random_index(bound: usize) -> (i: usize)
    requires
        bound > 0,
    ensures
        i < bound,
{
    let mut rng = rand::thread_rng();
    rng.gen_range(0..bound)
}

/// The place of the first tile of kind `id` in the hand.
fn position_of(hand: &Vec<Tile>, id: u8) -> (found: Option<usize>)
    ensures
        match found {
            Some(p) => p < hand@.len() && hand@[p as int]@ == id && forall|j: int|
                0 <= j < p ==> hand@[j]@ != id,
            None => forall|j: int| 0 <= j < hand@.len() ==> hand@[j]@ != id,
        },
{
    let mut p: usize = 0;
    while p < hand.len()
        invariant
            p <= hand@.len(),
            forall|j: int| 0 <= j < p ==> hand@[j]@ != id,
        decreases hand@.len() - p,
    {
        if hand[p].id() == id {
            return Some(p);
        }
        p += 1;
    }
    None
}

/// Whether the hand is in display order.
fn in_display_order(hand: &Vec<Tile>) -> (ok: bool)
    ensures
        ok == is_sorted(hand@),
{
    let mut i: usize = 1;
    while i < hand.len()
        invariant
            1 <= i,
            forall|a: int, b: int| 0 <= a <= b < i && b < hand@.len() ==> hand@[a]@ <= hand@[b]@,
        decreases hand@.len() - i,
    {
        if hand[i - 1].id() > hand[i].id() {
            return false;
        }
        proof {
            assert forall|a: int, b: int| 0 <= a <= b < i + 1 && b < hand@.len() implies hand@[a]@
                <= hand@[b]@ by {
                if b == i && a < i {
                    assert(hand@[a]@ <= hand@[i - 1]@);
                }
            }
        }
        i += 1;
    }
    true
}

/// Takes thirteen tiles from the end of the wall and sorts them into a hand.
fn deal_hand(wall: &mut Vec<Tile>) -> (hand: Vec<Tile>)
    requires
        old(wall)@.len() >= 13,
    ensures
        final(wall)@ == old(wall)@.take(old(wall)@.len() - 13),
        is_sorted(hand@),
        hand@.len() == 13,
        hand@.to_multiset() == old(wall)@.subrange(
            old(wall)@.len() - 13,
            old(wall)@.len() as int,
        ).to_multiset(),
{
    let ghost full = wall@;
    let ghost top = full.len() as int;
    let mut hand: Vec<Tile> = Vec::new();
    let mut k: usize = 0;
    proof {
        assert(full.take(top) =~= full);
        assert(full.subrange(top, top) =~= hand@);
    }
    while k < 13
        invariant
            k <= 13,
            top == full.len(),
            top >= 13,
            wall@ == full.take(top - k),
            hand@.len() == k,
            hand@.to_multiset() == full.subrange(top - k, top).to_multiset(),
        decreases 13 - k,
    {
        match wall.pop() {
            Some(tile) => {
                proof {
                    let lo = top - k;
                    assert(tile == full[lo - 1]);
                    assert(wall@ =~= full.take(lo - 1));
                    assert(full.subrange(lo - 1, top) =~= full.subrange(lo, top).insert(0, tile));
                    vstd::seq_lib::to_multiset_insert(full.subrange(lo, top), 0, tile);
                    vstd::seq_lib::to_multiset_build(hand@, tile);
                }
                hand.push(tile);
            },
            None => {},
        }
        k += 1;
    }
    sort_hand(&mut hand);
    hand
}

impl GameEngine {
    /// What holds of an engine at all times: the state is legal and counts
    /// the tiles of the wall.
    pub open spec fn wf(&self) -> bool {
        self@.wall.len() == self@.state.wall_count && legal(self@.state)
    }

    /// At all times the tiles in the hands, among the discards, just drawn
    /// and in the wall are 136, and the state counts the wall rightly.
    pub proof fn lemma_tiles_conserved(&self)
        requires
            self.wf(),
        ensures
            tiles_in_play(self@.state) == 136,
            self@.state.wall_count == self@.wall.len(),
    {
    }

    /// A seat that comes to draw from an empty wall ends the round: no tile
    /// is drawn, and nothing but the phase changes.
    pub proof fn lemma_draw_on_empty_wall(e: EngineView)
        requires
            legal(e.state),
            e.state.phase == GamePhase::Draw,
            e.wall.len() == 0,
        ensures
            engine_after_draw(e).state.phase == GamePhase::End,
            engine_after_draw(e).state == (GameStateView { phase: GamePhase::End, ..e.state }),
            engine_after_draw(e).wall == e.wall,
            forall|i: int| 0 <= i < 4 ==> (#[trigger] engine_after_draw(e).state.drawn_tile[i])
                is None,
    {
    }

    /// An engine with the full wall, unshuffled, and no tile dealt.
    pub fn new() -> (engine: GameEngine)
        ensures
            engine.wf(),
            engine@.wall == full_wall(),
            engine@.state == GameStateView::initial(),
    {
        proof {
            lemma_initial_legal();
        }
        GameEngine { wall: create_wall(), state: GameState::new() }
    }

    /// The state of the round, by value.
    pub fn get_state(&self) -> (snapshot: GameState)
        ensures
            snapshot@ == self@.state,
    {
        self.state.snapshot()
    }

    /// The tile discarded last, if any.
    fn last_discarded(&self) -> (tile: Option<Tile>)
        ensures
            tile == last_discard(self@.state),
    {
        match self.state.last_discarder {
            Some(d) => {
                let seat = d.index();
                let n = self.state.discards[seat].len();
                if n > 0 {
                    Some(self.state.discards[seat][n - 1])
                } else {
                    None
                }
            },
            None => None,
        }
    }

    /// Whether the seat is to discard and the tile it drew completes its
    /// hand.
    fn tsumo_flag(&self, seat: usize) -> (flag: bool)
        requires
            seat < 4,
        ensures
            flag == tsumo_eligible(self@.state, seat as int),
    {
        proof {
            assert(self@.state.hands[seat as int] == self.state.hands[seat as int]@);
        }
        match self.state.phase {
            GamePhase::Discard => seat == self.state.current_player.index()
                && match self.state.drawn_tile[seat] {
                Some(tile) => can_win_by_ron(self.state.hands[seat].as_slice(), tile),
                None => false,
            },
            _ => false,
        }
    }

    /// Whether the last discard came from another seat and completes the
    /// seat's hand.
    fn ron_flag(&self, seat: usize) -> (flag: bool)
        requires
            seat < 4,
        ensures
            flag == ron_eligible(self@.state, seat as int),
    {
        proof {
            assert(self@.state.hands[seat as int] == self.state.hands[seat as int]@);
        }
        match self.state.last_discarder {
            Some(d) => match self.last_discarded() {
                Some(tile) => d.index() != seat && can_win_by_ron(
                    self.state.hands[seat].as_slice(),
                    tile,
                ),
                None => false,
            },
            None => false,
        }
    }

    /// Update win flags (can_tsumo and can_ron) for all players
    fn update_win_flags(&mut self)
        ensures
            final(self)@.wall == old(self)@.wall,
            final(self)@.state == with_fresh_flags(old(self)@.state),
    {
        let mut tsumo: [bool; 4] = [false; 4];
        let mut ron: [bool; 4] = [false; 4];
        let ghost s = self.state@;
        let mut i: usize = 0;
        while i < 4
            invariant
                i <= 4,
                s == self@.state,
                forall|j: int| 0 <= j < i ==> #[trigger] tsumo@[j] == tsumo_eligible(s, j),
                forall|j: int|
                    0 <= j < i ==> #[trigger] ron@[j] == (s.phase == GamePhase::Ron
                        && ron_eligible(s, j)),
            decreases 4 - i,
        {
            let can_tsumo = self.tsumo_flag(i);
            let can_ron = match self.state.phase {
                GamePhase::Ron => self.ron_flag(i),
                _ => false,
            };
            tsumo[i] = can_tsumo;
            ron[i] = can_ron;
            i += 1;
        }
        self.state.can_tsumo = tsumo;
        self.state.can_ron = ron;
        proof {
            let fresh = with_fresh_flags(s);
            assert(self.state@.can_tsumo =~= fresh.can_tsumo);
            assert(self.state@.can_ron =~= fresh.can_ron);
            assert(self.state@.hands =~= fresh.hands);
            assert(self.state@.discards =~= fresh.discards);
        }
    }

    /// Whether no seat's claim flag is set.
    fn has_no_claims(&self) -> (ok: bool)
        ensures
            ok == no_claims(self@.state),
    {
        let flags = self.state.can_ron;
        let ok = !flags[0] && !flags[1] && !flags[2] && !flags[3];
        proof {
            let s = self@.state;
            if ok {
                assert forall|i: int| 0 <= i < 4 implies !#[trigger] s.can_ron[i] by {}
            } else {
                assert(s.can_ron[0] || s.can_ron[1] || s.can_ron[2] || s.can_ron[3]);
            }
        }
        ok
    }

    /// Whether the current seat has the first of the open claims and the
    /// flags from it on say which hands the last discard completes.
    fn has_standing_claims(&self) -> (ok: bool)
        ensures
            ok == claims_standing(self@.state),
    {
        let current = self.state.current_player.index();
        if !self.state.can_ron[current] {
            return false;
        }
        let ghost s = self@.state;
        let mut i: usize = 0;
        while i < 4
            invariant
                i <= 4,
                s == self@.state,
                current == s.current_player.spec_index(),
                s.can_ron[current as int],
                forall|j: int|
                    0 <= j < i ==> #[trigger] s.can_ron[j] == (j >= current && ron_eligible(s, j)),
            decreases 4 - i,
        {
            let expected = i >= current && self.ron_flag(i);
            if self.state.can_ron[i] != expected {
                proof {
                    assert(s.can_ron[i as int] != (i >= current && ron_eligible(s, i as int)));
                }
                return false;
            }
            i += 1;
        }
        true
    }

    /// Whether the flags say what the rest of the state gives.
    fn has_current_flags(&self) -> (ok: bool)
        ensures
            ok == flags_current(self@.state),
    {
        let ghost s = self@.state;
        let mut i: usize = 0;
        while i < 4
            invariant
                i <= 4,
                s == self@.state,
                forall|j: int| 0 <= j < i ==> #[trigger] s.can_tsumo[j] == tsumo_eligible(s, j),
            decreases 4 - i,
        {
            if self.state.can_tsumo[i] != self.tsumo_flag(i) {
                proof {
                    assert(s.can_tsumo[i as int] != tsumo_eligible(s, i as int));
                }
                return false;
            }
            i += 1;
        }
        match self.state.phase {
            GamePhase::Draw => self.has_no_claims(),
            GamePhase::Discard => self.has_no_claims(),
            GamePhase::Ron => self.has_standing_claims(),
            GamePhase::End => self.has_no_claims() || self.has_standing_claims(),
        }
    }

    /// Whether the hands are in display order with at most thirteen tiles
    /// each, and a drawn tile is held by the seat that is to discard and by
    /// no other.
    fn has_orderly_hands(&self) -> (ok: bool)
        ensures
            ok == hands_orderly(self@.state),
    {
        let ghost s = self@.state;
        let current = self.state.current_player.index();
        let discarding = match self.state.phase {
            GamePhase::Discard => true,
            _ => false,
        };
        let mut i: usize = 0;
        while i < 4
            invariant
                i <= 4,
                s == self@.state,
                current == s.current_player.spec_index(),
                discarding == (s.phase == GamePhase::Discard),
                forall|j: int|
                    0 <= j < i ==> is_sorted(#[trigger] s.hands[j]) && s.hands[j].len() <= 13,
                forall|j: int|
                    0 <= j < i ==> ((#[trigger] s.drawn_tile[j]) is Some <==> s.phase
                        == GamePhase::Discard && s.current_player.spec_index() == j),
            decreases 4 - i,
        {
            proof {
                assert(s.hands[i as int] == self.state.hands[i as int]@);
            }
            let orderly = self.state.hands[i].len() <= 13 && in_display_order(&self.state.hands[i]);
            let holds = self.state.drawn_tile[i].is_some();
            if !orderly || holds != (discarding && current == i) {
                proof {
                    assert(!(is_sorted(s.hands[i as int]) && s.hands[i as int].len() <= 13) || !(
                    s.drawn_tile[i as int] is Some <==> s.phase == GamePhase::Discard
                        && s.current_player.spec_index() == i));
                }
                return false;
            }
            i += 1;
        }
        true
    }

    /// Whether the tiles in play are 136.
    fn has_all_tiles(&self) -> (ok: bool)
        requires
            forall|i: int| 0 <= i < 4 ==> (#[trigger] self@.state.hands[i]).len() <= 13,
        ensures
            ok == (tiles_in_play(self@.state) == 136),
    {
        let ghost s = self@.state;
        proof {
            assert(s.hands[0] == self.state.hands[0]@ && s.hands[1] == self.state.hands[1]@
                && s.hands[2] == self.state.hands[2]@ && s.hands[3] == self.state.hands[3]@);
            assert(s.discards[0] == self.state.discards[0]@ && s.discards[1]
                == self.state.discards[1]@ && s.discards[2] == self.state.discards[2]@
                && s.discards[3] == self.state.discards[3]@);
            assert(s.hands[0].len() <= 13 && s.hands[1].len() <= 13 && s.hands[2].len() <= 13
                && s.hands[3].len() <= 13);
        }
        let d0 = self.state.discards[0].len();
        let d1 = self.state.discards[1].len();
        let d2 = self.state.discards[2].len();
        let d3 = self.state.discards[3].len();
        let w = self.state.wall_count;
        if d0 > 136 || d1 > 136 || d2 > 136 || d3 > 136 || w > 136 {
            return false;
        }
        let mut held: usize = self.state.hands[0].len() + self.state.hands[1].len()
            + self.state.hands[2].len() + self.state.hands[3].len();
        let mut i: usize = 0;
        while i < 4
            invariant
                i <= 4,
                s == self@.state,
                held == s.hands[0].len() + s.hands[1].len() + s.hands[2].len() + s.hands[3].len()
                    + (if i > 0 {
                    drawn_count(s, 0)
                } else {
                    0
                }) + (if i > 1 {
                    drawn_count(s, 1)
                } else {
                    0
                }) + (if i > 2 {
                    drawn_count(s, 2)
                } else {
                    0
                }) + (if i > 3 {
                    drawn_count(s, 3)
                } else {
                    0
                }),
                held <= 52 + i,
            decreases 4 - i,
        {
            if self.state.drawn_tile[i].is_some() {
                held += 1;
            }
            i += 1;
        }
        held + d0 + d1 + d2 + d3 + w == 136
    }

    /// Whether the engine is as `wf` asks. Every engine that `new` made and
    /// that only its own actions changed is.
    pub fn is_well_formed(&self) -> (ok: bool)
        ensures
            ok == self.wf(),
    {
        if self.wall.len() != self.state.wall_count {
            return false;
        }
        if !self.has_orderly_hands() {
            return false;
        }
        if !self.has_all_tiles() {
            return false;
        }
        let discarded = match self.state.last_discarder {
            Some(d) => self.state.discards[d.index()].len() > 0,
            None => true,
        };
        proof {
            let s = self@.state;
            if s.last_discarder is Some {
                let d = s.last_discarder->0.spec_index();
                assert(s.discards[d] == self.state.discards[d]@);
            }
        }
        discarded && self.has_current_flags()
    }

    /// Gives the turn to the first seat that can claim the last discard,
    /// or else to the seat that draws next.
    fn resolve_ron(&mut self)
        ensures
            final(self)@.wall == old(self)@.wall,
            final(self)@.state == crate::game::rules::resolve_ron(old(self)@.state),
    {
        let ghost s = self.state@;
        if self.state.can_ron[0] {
            self.state.current_player = Player::Player;
            self.state.phase = GamePhase::Ron;
        } else if self.state.can_ron[1] {
            self.state.current_player = Player::Cpu1;
            self.state.phase = GamePhase::Ron;
        } else if self.state.can_ron[2] {
            self.state.current_player = Player::Cpu2;
            self.state.phase = GamePhase::Ron;
        } else if self.state.can_ron[3] {
            self.state.current_player = Player::Cpu3;
            self.state.phase = GamePhase::Ron;
        } else {
            match self.state.last_discarder {
                Some(d) => {
                    self.state.current_player = d.next();
                },
                None => {},
            }
            self.state.phase = GamePhase::Draw;
        }
        proof {
            let r = crate::game::rules::resolve_ron(s);
            assert(self.state@.hands =~= r.hands);
            assert(self.state@.discards =~= r.discards);
        }
    }

    /// Why `actor` may not do now what phase `needed` waits for, if
    /// anything stands against it.
    fn refuse(&self, actor: Player, needed: GamePhase) -> (e: Option<EngineError>)
        ensures
            e == refusal(self@.state, actor, needed),
    {
        if self.state.current_player != actor {
            Some(EngineError::TurnViolation)
        } else if self.state.phase == GamePhase::End {
            Some(EngineError::RoundEnded)
        } else if self.state.phase != needed {
            Some(EngineError::PhaseViolation)
        } else {
            None
        }
    }

    /// Deals a round from the given wall, which is taken as it is: thirteen
    /// tiles to each seat from the wall's end, the human seat first, then
    /// one more tile to the human seat, who is to discard. A wall that does
    /// not have 136 tiles is turned down and the engine stays as it was.
    pub fn deal(&mut self, wall: Vec<Tile>) -> (dealt_state: Option<GameState>)
        ensures
            old(self).wf() ==> final(self).wf(),
            match dealt_state {
                Some(snapshot) => {
                    &&& wall@.len() == 136
                    &&& final(self).wf()
                    &&& final(self)@.wall == wall@.take(83)
                    &&& dealt(wall@, final(self)@.state)
                    &&& snapshot@ == final(self)@.state
                },
                None => wall@.len() != 136 && *final(self) == *old(self),
            },
    {
        if wall.len() != 136 {
            return None;
        }
        let ghost full = wall@;
        let mut wall = wall;
        let hand0 = deal_hand(&mut wall);
        let hand1 = deal_hand(&mut wall);
        let hand2 = deal_hand(&mut wall);
        let hand3 = deal_hand(&mut wall);
        let first_draw = wall.pop();
        proof {
            assert(full.subrange(123, 136) =~= deal_share(full, 0));
            assert(full.take(123).subrange(110, 123) =~= deal_share(full, 1));
            assert(full.take(123).take(110).subrange(97, 110) =~= deal_share(full, 2));
            assert(full.take(123).take(110).take(97).subrange(84, 97) =~= deal_share(full, 3));
            assert(wall@ =~= full.take(83));
            assert(first_draw == Some(full[83]));
        }
        self.state = GameState {
            hands: [hand0, hand1, hand2, hand3],
            drawn_tile: [first_draw, None, None, None],
            discards: [Vec::new(), Vec::new(), Vec::new(), Vec::new()],
            wall_count: wall.len(),
            current_player: Player::Player,
            phase: GamePhase::Discard,
            can_tsumo: [false, false, false, false],
            can_ron: [false, false, false, false],
            last_discarder: None,
        };
        self.wall = wall;
        let ghost plain = self.state@;
        self.update_win_flags();
        proof {
            let s = self@.state;
            assert forall|i: int| 0 <= i < 4 implies tsumo_eligible(s, i) == tsumo_eligible(
                plain,
                i,
            ) by {}
            assert(dealt(full, s));
            lemma_dealt_legal(full, s);
        }
        Some(self.state.snapshot())
    }

    /// Start a new game: build wall, shuffle, deal 13 tiles to each player,
    /// set phase/player. Whatever order the shuffle gives, the round is the
    /// deal of a wall that holds the tiles of the full wall.
    pub fn new_game(&mut self) -> (snapshot: GameState)
        ensures
            final(self).wf(),
            snapshot@ == final(self)@.state,
            exists|shuffled: Seq<Tile>|
                {
                    &&& shuffled.to_multiset() == full_wall().to_multiset()
                    &&& #[trigger] dealt(shuffled, final(self)@.state)
                    &&& final(self)@.wall == shuffled.take(83)
                },
    {
        let mut wall = create_wall();
        shuffle_wall(&mut wall);
        let ghost shuffled = wall@;
        match self.deal(wall) {
            Some(snapshot) => {
                proof {
                    assert(dealt(shuffled, self@.state));
                }
                snapshot
            },
            None => self.state.snapshot(),
        }
    }

    /// The seat draws a tile; validates turn and phase. On an empty wall the
    /// round ends instead and no tile is drawn.
    pub fn draw(&mut self, actor: Player) -> (r: Result<GameState, EngineError>)
        requires
            old(self).wf(),
        ensures
            final(self).wf(),
            match r {
                Ok(snapshot) => {
                    &&& refusal(old(self)@.state, actor, GamePhase::Draw) is None
                    &&& final(self)@ == engine_after_draw(old(self)@)
                    &&& snapshot@ == final(self)@.state
                },
                Err(e) => {
                    &&& refusal(old(self)@.state, actor, GamePhase::Draw) == Some(e)
                    &&& *final(self) == *old(self)
                },
            },
    {
        match self.refuse(actor, GamePhase::Draw) {
            Some(e) => {
                return Err(e);
            },
            None => {},
        }
        let ghost before = self@;
        let seat = actor.index();
        match self.wall.pop() {
            Some(tile) => {
                self.state.drawn_tile[seat] = Some(tile);
                self.state.wall_count = self.wall.len();
                self.state.phase = GamePhase::Discard;
                proof {
                    let plain = GameStateView {
                        drawn_tile: before.state.drawn_tile.update(seat as int, Some(tile)),
                        wall_count: (before.state.wall_count - 1) as nat,
                        phase: GamePhase::Discard,
                        ..before.state
                    };
                    assert(self.state@.hands =~= plain.hands);
                    assert(self.state@.discards =~= plain.discards);
                    assert(self.state@.drawn_tile =~= plain.drawn_tile);
                    assert(self.state@ == plain);
                }
                self.update_win_flags();
                proof {
                    assert(self@.wall =~= before.wall.drop_last());
                    lemma_draw_legal(before.state, tile);
                }
            },
            None => {
                self.state.phase = GamePhase::End;
                proof {
                    let ended = after_exhaustion(before.state);
                    assert(self.state@.hands =~= ended.hands);
                    assert(self.state@.discards =~= ended.discards);
                    lemma_exhaustion_legal(before.state);
                }
            },
        }
        Ok(self.state.snapshot())
    }

    /// The seat discards a tile of kind `tile_id`; validates turn, phase,
    /// and tile existence. The tile it drew goes if it is of that kind;
    /// otherwise the drawn tile is merged into the hand and the first tile
    /// of that kind leaves the hand.
    pub fn discard(&mut self, actor: Player, tile_id: u8) -> (r: Result<GameState, EngineError>)
        requires
            old(self).wf(),
        ensures
            final(self).wf(),
            match r {
                Ok(snapshot) => {
                    &&& discard_refusal(old(self)@.state, actor, tile_id) is None
                    &&& final(self)@.wall == old(self)@.wall
                    &&& discarded(old(self)@.state, tile_id, final(self)@.state)
                    &&& snapshot@ == final(self)@.state
                },
                Err(e) => {
                    &&& discard_refusal(old(self)@.state, actor, tile_id) == Some(e)
                    &&& *final(self) == *old(self)
                },
            },
    {
        match self.refuse(actor, GamePhase::Discard) {
            Some(e) => {
                return Err(e);
            },
            None => {},
        }
        let ghost before = self@.state;
        let seat = actor.index();
        let drawn = self.state.drawn_tile[seat];
        let tile = match drawn {
            Some(drawn_tile) if drawn_tile.id() == tile_id => drawn_tile,
            _ => match position_of(&self.state.hands[seat], tile_id) {
                Some(p) => match drawn {
                    Some(merged) => {
                        let q = insert_sorted(&mut self.state.hands[seat], merged);
                        let at = if p < q {
                            p
                        } else {
                            p + 1
                        };
                        proof {
                            let hand = before.hands[seat as int];
                            let joined = hand.insert(q as int, merged);
                            assert(joined[at as int] == hand[p as int]);
                            lemma_remove_keeps_sorted(joined, at as int);
                            vstd::seq_lib::to_multiset_remove(joined, at as int);
                            Tile::lemma_of_kind(tile_id);
                            Tile::lemma_kind_is_identity(hand[p as int], Tile::of_kind(tile_id));
                        }
                        self.state.hands[seat].remove(at)
                    },
                    None => self.state.hands[seat].remove(p),
                },
                None => {
                    return Err(EngineError::TileNotFound);
                },
            },
        };
        proof {
            Tile::lemma_of_kind(tile_id);
            Tile::lemma_kind_is_identity(tile, Tile::of_kind(tile_id));
        }
        let ghost hand_after = self.state.hands[seat as int]@;
        self.state.drawn_tile[seat] = None;
        self.state.discards[seat].push(tile);
        self.state.last_discarder = Some(actor);
        self.state.phase = GamePhase::Ron;
        proof {
            let moved = tile_moved(before, tile_id, hand_after);
            assert(self.state@.hands =~= moved.hands);
            assert(self.state@.discards =~= moved.discards);
            assert(self.state@.drawn_tile =~= moved.drawn_tile);
            assert(self.state@ == moved);
        }
        self.update_win_flags();
        self.resolve_ron();
        proof {
            assert(hand_after_discard(
                before.hands[seat as int],
                before.drawn_tile[seat as int],
                tile_id,
                hand_after,
            ));
            assert(self@.state == after_discard(before, tile_id, hand_after));
            assert(self@.state.hands[seat as int] == hand_after);
            lemma_discard_legal(before, tile_id, hand_after);
        }
        Ok(self.state.snapshot())
    }

    /// The seat claims the last discard and wins; validates turn and phase.
    pub fn claim_win(&mut self, actor: Player) -> (r: Result<GameState, EngineError>)
        requires
            old(self).wf(),
        ensures
            final(self).wf(),
            match r {
                Ok(snapshot) => {
                    &&& refusal(old(self)@.state, actor, GamePhase::Ron) is None
                    &&& old(self)@.state.can_ron[actor.spec_index()]
                    &&& final(self)@.wall == old(self)@.wall
                    &&& final(self)@.state == after_claim(old(self)@.state)
                    &&& snapshot@ == final(self)@.state
                },
                Err(e) => {
                    &&& refusal(old(self)@.state, actor, GamePhase::Ron) == Some(e)
                    &&& *final(self) == *old(self)
                },
            },
    {
        match self.refuse(actor, GamePhase::Ron) {
            Some(e) => {
                return Err(e);
            },
            None => {},
        }
        let ghost before = self@.state;
        self.state.phase = GamePhase::End;
        proof {
            let ended = after_claim(before);
            assert(self.state@.hands =~= ended.hands);
            assert(self.state@.discards =~= ended.discards);
            lemma_claim_legal(before);
        }
        Ok(self.state.snapshot())
    }

    /// The seat lets the last discard go; validates turn and phase. The
    /// next seat that can claim it is asked, or else the next seat draws.
    pub fn pass(&mut self, actor: Player) -> (r: Result<GameState, EngineError>)
        requires
            old(self).wf(),
        ensures
            final(self).wf(),
            match r {
                Ok(snapshot) => {
                    &&& refusal(old(self)@.state, actor, GamePhase::Ron) is None
                    &&& final(self)@.wall == old(self)@.wall
                    &&& final(self)@.state == after_pass(old(self)@.state)
                    &&& snapshot@ == final(self)@.state
                },
                Err(e) => {
                    &&& refusal(old(self)@.state, actor, GamePhase::Ron) == Some(e)
                    &&& *final(self) == *old(self)
                },
            },
    {
        match self.refuse(actor, GamePhase::Ron) {
            Some(e) => {
                return Err(e);
            },
            None => {},
        }
        let ghost before = self@.state;
        let seat = actor.index();
        self.state.can_ron[seat] = false;
        proof {
            let cleared = GameStateView {
                can_ron: before.can_ron.update(seat as int, false),
                ..before
            };
            assert(self.state@.hands =~= cleared.hands);
            assert(self.state@.discards =~= cleared.discards);
            assert(self.state@.can_ron =~= cleared.can_ron);
            assert(self.state@ == cleared);
        }
        self.resolve_ron();
        proof {
            lemma_pass_legal(before);
        }
        Ok(self.state.snapshot())
    }

    /// The human seat draws a tile.
    pub fn player_draw(&mut self) -> (r: Result<GameState, EngineError>)
        requires
            old(self).wf(),
        ensures
            final(self).wf(),
            match r {
                Ok(snapshot) => {
                    &&& refusal(old(self)@.state, Player::Player, GamePhase::Draw) is None
                    &&& final(self)@ == engine_after_draw(old(self)@)
                    &&& snapshot@ == final(self)@.state
                },
                Err(e) => {
                    &&& refusal(old(self)@.state, Player::Player, GamePhase::Draw) == Some(e)
                    &&& *final(self) == *old(self)
                },
            },
    {
        self.draw(Player::Player)
    }

    /// Player discards a tile; validates turn, phase, and tile existence.
    pub fn player_discard(&mut self, tile_id: u8) -> (r: Result<GameState, EngineError>)
        requires
            old(self).wf(),
        ensures
            final(self).wf(),
            match r {
                Ok(snapshot) => {
                    &&& discard_refusal(old(self)@.state, Player::Player, tile_id) is None
                    &&& final(self)@.wall == old(self)@.wall
                    &&& discarded(old(self)@.state, tile_id, final(self)@.state)
                    &&& snapshot@ == final(self)@.state
                },
                Err(e) => {
                    &&& discard_refusal(old(self)@.state, Player::Player, tile_id) == Some(e)
                    &&& *final(self) == *old(self)
                },
            },
    {
        self.discard(Player::Player, tile_id)
    }

    /// The human seat claims the last discard and wins.
    pub fn player_ron(&mut self) -> (r: Result<GameState, EngineError>)
        requires
            old(self).wf(),
        ensures
            final(self).wf(),
            match r {
                Ok(snapshot) => {
                    &&& refusal(old(self)@.state, Player::Player, GamePhase::Ron) is None
                    &&& final(self)@.wall == old(self)@.wall
                    &&& final(self)@.state == after_claim(old(self)@.state)
                    &&& snapshot@ == final(self)@.state
                },
                Err(e) => {
                    &&& refusal(old(self)@.state, Player::Player, GamePhase::Ron) == Some(e)
                    &&& *final(self) == *old(self)
                },
            },
    {
        self.claim_win(Player::Player)
    }

    /// The human seat lets the last discard go.
    pub fn player_pass(&mut self) -> (r: Result<GameState, EngineError>)
        requires
            old(self).wf(),
        ensures
            final(self).wf(),
            match r {
                Ok(snapshot) => {
                    &&& refusal(old(self)@.state, Player::Player, GamePhase::Ron) is None
                    &&& final(self)@.wall == old(self)@.wall
                    &&& final(self)@.state == after_pass(old(self)@.state)
                    &&& snapshot@ == final(self)@.state
                },
                Err(e) => {
                    &&& refusal(old(self)@.state, Player::Player, GamePhase::Ron) == Some(e)
                    &&& *final(self) == *old(self)
                },
            },
    {
        self.pass(Player::Player)
    }

    /// One step of an automated seat with its choice made for it: the seat
    /// draws in the draw phase, claims the last discard when it is asked,
    /// and in the discard phase discards the tile at place `choice` of its
    /// hand, or the tile it drew if `choice` is past the hand's end.
    pub fn cpu_step_with(&mut self, choice: usize) -> (r: Result<GameState, EngineError>)
        requires
            old(self).wf(),
        ensures
            final(self).wf(),
            match r {
                Ok(snapshot) => {
                    &&& cpu_step_refusal(old(self)@.state) is None
                    &&& cpu_step_result(old(self)@, choice as int, final(self)@)
                    &&& snapshot@ == final(self)@.state
                },
                Err(e) => {
                    &&& cpu_step_refusal(old(self)@.state) == Some(e)
                    &&& *final(self) == *old(self)
                },
            },
    {
        let actor = self.state.current_player;
        match actor {
            Player::Player => {
                return Err(EngineError::TurnViolation);
            },
            _ => {},
        }
        match self.state.phase {
            GamePhase::Draw => self.draw(actor),
            GamePhase::Discard => {
                let seat = actor.index();
                let ghost before = self@.state;
                let tile_id = if choice < self.state.hands[seat].len() {
                    self.state.hands[seat][choice].id()
                } else {
                    match self.state.drawn_tile[seat] {
                        Some(tile) => tile.id(),
                        None => 0,
                    }
                };
                proof {
                    assert(before.drawn_tile[seat as int] is Some);
                    assert(tile_id == chosen_tile(before, choice as int)@);
                    assert(holds_kind(before, seat as int, tile_id));
                }
                self.discard(actor, tile_id)
            },
            GamePhase::Ron => self.claim_win(actor),
            GamePhase::End => Err(EngineError::RoundEnded),
        }
    }

    /// CPU step: draw if in Draw phase, discard randomly if in Discard
    /// phase, claim the last discard if asked. The discard is picked with
    /// equal chance among the hand's tiles and the tile drawn; whichever
    /// it is, the step is `cpu_step_with` on that choice.
    pub fn cpu_step(&mut self) -> (r: Result<GameState, EngineError>)
        requires
            old(self).wf(),
        ensures
            final(self).wf(),
            match r {
                Ok(snapshot) => {
                    &&& cpu_step_refusal(old(self)@.state) is None
                    &&& snapshot@ == final(self)@.state
                    &&& exists|choice: int|
                        {
                            &&& 0 <= choice <= hand_size(old(self)@.state)
                            &&& #[trigger] cpu_step_result(old(self)@, choice, final(self)@)
                        }
                },
                Err(e) => {
                    &&& cpu_step_refusal(old(self)@.state) == Some(e)
                    &&& *final(self) == *old(self)
                },
            },
    {
        let seat = self.state.current_player.index();
        let choice = match (self.state.current_player, self.state.phase) {
            (Player::Player, _) => 0,
            (_, GamePhase::Discard) => random_index(self.state.hands[seat].len() + 1),
            _ => 0,
        };
        let ghost before = self@;
        let r = self.cpu_step_with(choice);
        proof {
            if r is Ok {
                assert(cpu_step_result(before, choice as int, self@));
            }
        }
        r
    }
}

} // verus!
