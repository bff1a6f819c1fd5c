use crate::game::win_checker::can_complete_with;
use crate::models::game_state::{GamePhase, GameStateView, Player};
use crate::models::tile::{is_sorted, Tile};
use vstd::multiset::Multiset;
use vstd::prelude::*;

verus! {

/// Why an action was turned down. The round is left as it was.
#[derive(Debug, Clone, Copy, PartialEq, Eq, Structural)]
pub enum EngineError {
    /// The seat that acted is not the one whose turn it is.
    TurnViolation,
    /// The action is not the one the current phase waits for.
    PhaseViolation,
    /// The seat holds no tile of the kind it named.
    TileNotFound,
    /// The round is over.
    RoundEnded,
}

/// Every per-seat table has its four entries.
pub open spec fn has_four_seats(s: GameStateView) -> bool {
    &&& s.hands.len() == 4
    &&& s.drawn_tile.len() == 4
    &&& s.discards.len() == 4
    &&& s.can_tsumo.len() == 4
    &&& s.can_ron.len() == 4
}

/// One if the seat holds a drawn tile, else zero.
pub open spec fn drawn_count(s: GameStateView, seat: int) -> int {
    if s.drawn_tile[seat] is Some {
        1
    } else {
        0
    }
}

/// All the tiles of the round: in the hands, among the discards, just drawn,
/// and still in the wall.
pub open spec fn tiles_in_play(s: GameStateView) -> int {
    s.hands[0].len() + s.hands[1].len() + s.hands[2].len() + s.hands[3].len() + s.discards[0].len()
        + s.discards[1].len() + s.discards[2].len() + s.discards[3].len() + drawn_count(s, 0)
        + drawn_count(s, 1) + drawn_count(s, 2) + drawn_count(s, 3) + s.wall_count
}

/// The seat is about to discard and the tile it drew completes its hand.
pub open spec fn tsumo_eligible(s: GameStateView, seat: int) -> bool {
    &&& s.phase == GamePhase::Discard
    &&& s.current_player.spec_index() == seat
    &&& s.drawn_tile[seat] matches Some(tile)
    &&& can_complete_with(s.hands[seat], tile)
}

/// The tile discarded last, if any.
pub open spec fn last_discard(s: GameStateView) -> Option<Tile> {
    match s.last_discarder {
        Some(d) => if s.discards[d.spec_index()].len() > 0 {
            Some(s.discards[d.spec_index()].last())
        } else {
            None
        },
        None => None,
    }
}

/// The last discard came from another seat and completes this seat's hand.
pub open spec fn ron_eligible(s: GameStateView, seat: int) -> bool {
    &&& s.last_discarder matches Some(d)
    &&& d.spec_index() != seat
    &&& last_discard(s) matches Some(tile)
    &&& can_complete_with(s.hands[seat], tile)
}

/// The state with both tables of flags worked out anew: a seat can win on
/// its draw while it is about to discard, and on the last discard while
/// claims are open.
pub open spec fn with_fresh_flags(s: GameStateView) -> GameStateView {
    GameStateView {
        can_tsumo: Seq::new(4, |i: int| tsumo_eligible(s, i)),
        can_ron: Seq::new(4, |i: int| s.phase == GamePhase::Ron && ron_eligible(s, i)),
        ..s
    }
}

/// The first seat, in the fixed order Player, Cpu1, Cpu2, Cpu3, whose flag
/// is set.
pub open spec fn first_claimant(can_ron: Seq<bool>) -> Option<Player> {
    if can_ron[0] {
        Some(Player::Player)
    } else if can_ron[1] {
        Some(Player::Cpu1)
    } else if can_ron[2] {
        Some(Player::Cpu2)
    } else if can_ron[3] {
        Some(Player::Cpu3)
    } else {
        None
    }
}

/// The seat that draws once nobody claims the last discard: the one after
/// the seat that discarded.
pub open spec fn next_to_draw(s: GameStateView) -> Player {
    match s.last_discarder {
        Some(d) => d.spec_next(),
        None => s.current_player,
    }
}

/// Who acts after a discard or a pass: the first seat that can claim, or
/// else the seat that draws next.
pub open spec fn resolve_ron(s: GameStateView) -> GameStateView {
    match first_claimant(s.can_ron) {
        Some(seat) => GameStateView { current_player: seat, phase: GamePhase::Ron, ..s },
        None => GameStateView { current_player: next_to_draw(s), phase: GamePhase::Draw, ..s },
    }
}

/// No seat's claim flag is set.
pub open spec fn no_claims(s: GameStateView) -> bool {
    forall|i: int| 0 <= i < 4 ==> !#[trigger] s.can_ron[i]
}

/// Claims are open and the current seat has the first of them: the seats
/// before it have no claim (left), and from it on a flag is set exactly
/// where the last discard completes the hand.
pub open spec fn claims_standing(s: GameStateView) -> bool {
    let cur = s.current_player.spec_index();
    &&& s.can_ron[cur]
    &&& forall|i: int| 0 <= i < 4 ==> #[trigger] s.can_ron[i] == (i >= cur && ron_eligible(s, i))
}

/// The flags say what the rest of the state gives, and no more.
pub open spec fn flags_current(s: GameStateView) -> bool {
    &&& forall|i: int| 0 <= i < 4 ==> #[trigger] s.can_tsumo[i] == tsumo_eligible(s, i)
    &&& match s.phase {
        GamePhase::Draw => no_claims(s),
        GamePhase::Discard => no_claims(s),
        GamePhase::Ron => claims_standing(s),
        GamePhase::End => no_claims(s) || claims_standing(s),
    }
}

/// Every hand is in display order and has at most thirteen tiles, and a
/// drawn tile is held by the seat that is to discard and by no other.
pub open spec fn hands_orderly(s: GameStateView) -> bool {
    &&& forall|i: int| 0 <= i < 4 ==> is_sorted(#[trigger] s.hands[i]) && s.hands[i].len() <= 13
    &&& forall|i: int|
        0 <= i < 4 ==> ((#[trigger] s.drawn_tile[i]) is Some <==> s.phase == GamePhase::Discard
            && s.current_player.spec_index() == i)
}

/// What holds of the state of a round at all times: 136 tiles are in play,
/// the hands are orderly, the seat named as the last to discard has
/// discarded, and the flags are current.
pub open spec fn legal(s: GameStateView) -> bool {
    &&& has_four_seats(s)
    &&& tiles_in_play(s) == 136
    &&& hands_orderly(s)
    &&& (s.last_discarder matches Some(d) ==> s.discards[d.spec_index()].len() > 0)
    &&& flags_current(s)
}

/// Why `actor` may not do now what phase `needed` waits for, if anything
/// stands against it.
pub open spec fn refusal(s: GameStateView, actor: Player, needed: GamePhase) -> Option<
    EngineError,
> {
    if s.current_player != actor {
        Some(EngineError::TurnViolation)
    } else if s.phase == GamePhase::End {
        Some(EngineError::RoundEnded)
    } else if s.phase != needed {
        Some(EngineError::PhaseViolation)
    } else {
        None
    }
}

/// The seat has a tile of kind `id`, drawn or in its hand.
pub open spec fn holds_kind(s: GameStateView, seat: int, id: u8) -> bool {
    ||| (s.drawn_tile[seat] matches Some(tile) && tile@ == id)
    ||| exists|j: int| 0 <= j < s.hands[seat].len() && (#[trigger] s.hands[seat][j])@ == id
}

/// Why `actor` may not discard a tile of kind `id` now, if anything stands
/// against it.
pub open spec fn discard_refusal(s: GameStateView, actor: Player, id: u8) -> Option<EngineError> {
    match refusal(s, actor, GamePhase::Discard) {
        Some(e) => Some(e),
        None => if holds_kind(s, actor.spec_index(), id) {
            None
        } else {
            Some(EngineError::TileNotFound)
        },
    }
}

/// The state once the current seat has drawn `tile` from the wall.
pub open spec fn after_draw(s: GameStateView, tile: Tile) -> GameStateView {
    with_fresh_flags(
        GameStateView {
            drawn_tile: s.drawn_tile.update(s.current_player.spec_index(), Some(tile)),
            wall_count: (s.wall_count - 1) as nat,
            phase: GamePhase::Discard,
            ..s
        },
    )
}

/// The state once a seat came to draw and found the wall empty.
pub open spec fn after_exhaustion(s: GameStateView) -> GameStateView {
    GameStateView { phase: GamePhase::End, ..s }
}

/// `after` is the hand that is left of `hand` and the tile `drawn` once a
/// tile of kind `id` is discarded. If the drawn tile is of that kind it goes
/// and the hand is untouched. Otherwise the drawn tile joins the hand, one
/// tile of kind `id` leaves it, and the hand is in display order again.
pub open spec fn hand_after_discard(
    hand: Seq<Tile>,
    drawn: Option<Tile>,
    id: u8,
    after: Seq<Tile>,
) -> bool {
    match drawn {
        Some(tile) => if tile@ == id {
            after == hand
        } else {
            is_sorted(after) && after.to_multiset() == hand.to_multiset().insert(tile).remove(
                Tile::of_kind(id),
            )
        },
        None => is_sorted(after) && after.to_multiset() == hand.to_multiset().remove(
            Tile::of_kind(id),
        ),
    }
}

/// The state once the current seat has discarded a tile of kind `id` and
/// is left with the hand `hand_after`: the tile lies last among the seat's
/// discards, the flags are worked out against it, and the first seat that
/// can claim it is asked, or else the next seat draws.
pub open spec fn after_discard(s: GameStateView, id: u8, hand_after: Seq<Tile>) -> GameStateView {
    resolve_ron(with_fresh_flags(tile_moved(s, id, hand_after)))
}

/// The state with a tile of kind `id` moved from the current seat to its
/// discards and claims on it opened, before anyone is asked.
pub open spec fn tile_moved(s: GameStateView, id: u8, hand_after: Seq<Tile>) -> GameStateView {
    let seat = s.current_player.spec_index();
    GameStateView {
        hands: s.hands.update(seat, hand_after),
        drawn_tile: s.drawn_tile.update(seat, None),
        discards: s.discards.update(seat, s.discards[seat].push(Tile::of_kind(id))),
        last_discarder: Some(s.current_player),
        phase: GamePhase::Ron,
        ..s
    }
}

/// The state once the current seat has claimed the last discard.
pub open spec fn after_claim(s: GameStateView) -> GameStateView {
    GameStateView { phase: GamePhase::End, ..s }
}

/// The state once the current seat has let the last discard go: its flag is
/// cleared and the next seat that can claim is asked, or else the next seat
/// draws.
pub open spec fn after_pass(s: GameStateView) -> GameStateView {
    resolve_ron(
        GameStateView { can_ron: s.can_ron.update(s.current_player.spec_index(), false), ..s },
    )
}

/// The thirteen tiles of a 136-tile wall that go to `seat` in the deal. The
/// wall is dealt from its end: the first seat gets the last thirteen.
pub open spec fn deal_share(wall: Seq<Tile>, seat: int) -> Seq<Tile> {
    wall.subrange(136 - 13 * (seat + 1), 136 - 13 * seat)
}

/// `s` is the state that the deal makes of a 136-tile wall: each seat has
/// its share in display order, the human seat has drawn the next tile and
/// is to discard, and nothing has been discarded.
pub open spec fn dealt(wall: Seq<Tile>, s: GameStateView) -> bool {
    &&& has_four_seats(s)
    &&& forall|i: int|
        0 <= i < 4 ==> is_sorted(#[trigger] s.hands[i]) && s.hands[i].to_multiset() == deal_share(
            wall,
            i,
        ).to_multiset()
    &&& s.drawn_tile[0] == Some(wall[83])
    &&& forall|i: int| 1 <= i < 4 ==> (#[trigger] s.drawn_tile[i]) is None
    &&& forall|i: int| 0 <= i < 4 ==> (#[trigger] s.discards[i]).len() == 0
    &&& s.wall_count == 83
    &&& s.current_player == Player::Player
    &&& s.phase == GamePhase::Discard
    &&& s.last_discarder is None
    &&& forall|i: int| 0 <= i < 4 ==> #[trigger] s.can_tsumo[i] == tsumo_eligible(s, i)
    &&& no_claims(s)
}

/// The tile that choice `choice` picks for the current seat to discard: the
/// tile at that place of its hand, or past the hand's end the tile it drew.
pub open spec fn chosen_tile(s: GameStateView, choice: int) -> Tile {
    let seat = s.current_player.spec_index();
    if 0 <= choice < s.hands[seat].len() {
        s.hands[seat][choice]
    } else {
        s.drawn_tile[seat]->0
    }
}

/// Taking out a tile that is there makes a multiset one smaller.
proof fn lemma_remove_present_len(m: Multiset<Tile>, tile: Tile)
    requires
        m.count(tile) > 0,
    ensures
        m.remove(tile).len() == m.len() - 1,
{
    broadcast use vstd::multiset::group_multiset_axioms;

    assert(Multiset::singleton(tile).subset_of(m));
}

/// A discard leaves the hand as large as it was.
pub proof fn lemma_discard_keeps_hand_size(
    hand: Seq<Tile>,
    drawn: Tile,
    id: u8,
    after: Seq<Tile>,
)
    requires
        drawn@ == id || exists|j: int| 0 <= j < hand.len() && (#[trigger] hand[j])@ == id,
        hand_after_discard(hand, Some(drawn), id, after),
    ensures
        after.len() == hand.len(),
{
    broadcast use vstd::multiset::group_multiset_axioms;

    if drawn@ != id {
        let j = choose|j: int| 0 <= j < hand.len() && (#[trigger] hand[j])@ == id;
        let gone = Tile::of_kind(id);
        Tile::lemma_of_kind(id);
        Tile::lemma_kind_is_identity(hand[j], gone);
        assert(hand.contains(gone));
        vstd::seq_lib::to_multiset_contains(hand, gone);
        vstd::seq_lib::to_multiset_len(hand);
        vstd::seq_lib::to_multiset_len(after);
        lemma_remove_present_len(hand.to_multiset().insert(drawn), gone);
    }
}

/// The state before the deal is legal.
pub proof fn lemma_initial_legal()
    ensures
        legal(GameStateView::initial()),
{
}

/// Drawing from a wall that has tiles keeps the state legal.
pub proof fn lemma_draw_legal(s: GameStateView, tile: Tile)
    requires
        legal(s),
        s.phase == GamePhase::Draw,
        s.wall_count > 0,
    ensures
        legal(after_draw(s, tile)),
{
}

/// Ending the round on an empty wall keeps the state legal.
pub proof fn lemma_exhaustion_legal(s: GameStateView)
    requires
        legal(s),
        s.phase == GamePhase::Draw,
    ensures
        legal(after_exhaustion(s)),
{
    let t = after_exhaustion(s);
    assert forall|i: int| 0 <= i < 4 implies !#[trigger] t.can_ron[i] by {
        assert(!s.can_ron[i]);
    }
}

/// Resolving the claims on fresh flags gives flags that are current.
proof fn lemma_resolved_flags(m: GameStateView)
    requires
        has_four_seats(m),
        m.phase == GamePhase::Ron,
        m == with_fresh_flags(m),
    ensures
        flags_current(resolve_ron(m)),
{
    let r = resolve_ron(m);
    assert forall|i: int| 0 <= i < 4 implies ron_eligible(r, i) == ron_eligible(m, i) by {}
    assert forall|i: int| 0 <= i < 4 implies #[trigger] r.can_ron[i] == ron_eligible(m, i) by {}
}

/// A discard keeps the state legal.
pub proof fn lemma_discard_legal(s: GameStateView, id: u8, hand_after: Seq<Tile>)
    requires
        legal(s),
        s.phase == GamePhase::Discard,
        holds_kind(s, s.current_player.spec_index(), id),
        hand_after_discard(
            s.hands[s.current_player.spec_index()],
            s.drawn_tile[s.current_player.spec_index()],
            id,
            hand_after,
        ),
    ensures
        legal(after_discard(s, id, hand_after)),
        hand_after.len() == s.hands[s.current_player.spec_index()].len(),
{
    let seat = s.current_player.spec_index();
    let drawn = s.drawn_tile[seat]->0;
    assert(s.drawn_tile[seat] is Some);
    lemma_discard_keeps_hand_size(s.hands[seat], drawn, id, hand_after);
    let moved = tile_moved(s, id, hand_after);
    let fresh = with_fresh_flags(moved);
    assert(fresh == with_fresh_flags(fresh)) by {
        assert forall|i: int| 0 <= i < 4 implies tsumo_eligible(fresh, i) == tsumo_eligible(
            moved,
            i,
        ) by {}
        assert forall|i: int| 0 <= i < 4 implies ron_eligible(fresh, i) == ron_eligible(
            moved,
            i,
        ) by {}
        assert(fresh.can_tsumo =~= with_fresh_flags(fresh).can_tsumo);
        assert(fresh.can_ron =~= with_fresh_flags(fresh).can_ron);
    }
    lemma_resolved_flags(fresh);
    let r = after_discard(s, id, hand_after);
    assert(r == resolve_ron(fresh));
    assert forall|i: int| 0 <= i < 4 implies is_sorted(#[trigger] r.hands[i]) && r.hands[i].len()
        <= 13 by {
        assert(is_sorted(s.hands[i]));
    }
    assert forall|i: int| 0 <= i < 4 implies (#[trigger] r.drawn_tile[i]) is None by {
        assert(s.drawn_tile[i] is Some <==> i == seat);
    }
}

/// Claiming the last discard keeps the state legal.
pub proof fn lemma_claim_legal(s: GameStateView)
    requires
        legal(s),
        s.phase == GamePhase::Ron,
    ensures
        legal(after_claim(s)),
{
    let r = after_claim(s);
    assert forall|i: int| 0 <= i < 4 implies ron_eligible(r, i) == ron_eligible(s, i) by {}
    assert(claims_standing(r));
}

/// Passing on the last discard keeps the state legal.
pub proof fn lemma_pass_legal(s: GameStateView)
    requires
        legal(s),
        s.phase == GamePhase::Ron,
    ensures
        legal(after_pass(s)),
{
    let r = after_pass(s);
    assert forall|i: int| 0 <= i < 4 implies ron_eligible(r, i) == ron_eligible(s, i) by {}
    assert forall|i: int| 0 <= i < 4 implies #[trigger] r.can_ron[i] == (i
        > s.current_player.spec_index() && ron_eligible(s, i)) by {
        assert(s.can_ron[i] == (i >= s.current_player.spec_index() && ron_eligible(s, i)));
    }
    assert forall|i: int| 0 <= i < 4 implies !#[trigger] r.can_tsumo[i] by {
        assert(s.can_tsumo[i] == tsumo_eligible(s, i));
    }
}

/// The deal of a wall of 136 tiles gives a legal state.
pub proof fn lemma_dealt_legal(wall: Seq<Tile>, s: GameStateView)
    requires
        wall.len() == 136,
        dealt(wall, s),
    ensures
        legal(s),
        forall|i: int| 0 <= i < 4 ==> (#[trigger] s.hands[i]).len() == 13,
{
    assert forall|i: int| 0 <= i < 4 implies (#[trigger] s.hands[i]).len() == 13 by {
        vstd::seq_lib::to_multiset_len(s.hands[i]);
        vstd::seq_lib::to_multiset_len(deal_share(wall, i));
    }
    assert(s.hands[0].len() == 13 && s.hands[1].len() == 13 && s.hands[2].len() == 13
        && s.hands[3].len() == 13);
    assert(s.discards[0].len() == 0 && s.discards[1].len() == 0 && s.discards[2].len() == 0
        && s.discards[3].len() == 0);
    assert(s.drawn_tile[1] is None && s.drawn_tile[2] is None && s.drawn_tile[3] is None);
}

/// In a legal state 136 tiles are in play, and no seat holds more than
/// fourteen of them.
pub proof fn lemma_tiles_conserved(s: GameStateView)
    requires
        legal(s),
    ensures
        tiles_in_play(s) == 136,
        forall|i: int| 0 <= i < 4 ==> (#[trigger] s.hands[i]).len() + drawn_count(s, i) <= 14,
{
}

/// Whichever tile is discarded, the seat's hand is as large after the
/// discard as before and its drawn tile is gone. Discarding the drawn tile
/// leaves the hand itself untouched.
pub proof fn lemma_discard_hand_and_draw(s: GameStateView, id: u8, hand_after: Seq<Tile>)
    requires
        legal(s),
        s.phase == GamePhase::Discard,
        holds_kind(s, s.current_player.spec_index(), id),
        hand_after_discard(
            s.hands[s.current_player.spec_index()],
            s.drawn_tile[s.current_player.spec_index()],
            id,
            hand_after,
        ),
    ensures
        after_discard(s, id, hand_after).hands[s.current_player.spec_index()] == hand_after,
        hand_after.len() == s.hands[s.current_player.spec_index()].len(),
        after_discard(s, id, hand_after).drawn_tile[s.current_player.spec_index()] is None,
        s.drawn_tile[s.current_player.spec_index()]->0@ == id ==> hand_after
            == s.hands[s.current_player.spec_index()],
        after_discard(s, id, hand_after).discards[s.current_player.spec_index()].last()@ == id,
{
    lemma_discard_legal(s, id, hand_after);
    Tile::lemma_of_kind(id);
}

/// After a discard that no seat can claim, the seat after the one that
/// discarded is to draw.
pub proof fn lemma_unclaimed_discard_passes_turn(s: GameStateView, id: u8, hand_after: Seq<Tile>)
    requires
        legal(s),
        s.phase == GamePhase::Discard,
        forall|i: int| 0 <= i < 4 ==> !ron_eligible(after_discard(s, id, hand_after), i),
    ensures
        after_discard(s, id, hand_after).current_player == s.current_player.spec_next(),
        after_discard(s, id, hand_after).phase == GamePhase::Draw,
        after_discard(s, id, hand_after).last_discarder == Some(s.current_player),
{
    let fresh = with_fresh_flags(tile_moved(s, id, hand_after));
    let r = resolve_ron(fresh);
    assert forall|i: int| 0 <= i < 4 implies !#[trigger] fresh.can_ron[i] by {
        assert(ron_eligible(r, i) == ron_eligible(fresh, i));
    }
}

/// After a discard the first seat, in the fixed order, that the discard
/// completes is asked to claim it, whoever discarded.
pub proof fn lemma_claimed_discard_asks_first(
    s: GameStateView,
    id: u8,
    hand_after: Seq<Tile>,
    claimant: Player,
)
    requires
        legal(s),
        s.phase == GamePhase::Discard,
        ron_eligible(after_discard(s, id, hand_after), claimant.spec_index()),
        forall|i: int|
            0 <= i < claimant.spec_index() ==> !ron_eligible(after_discard(s, id, hand_after), i),
    ensures
        after_discard(s, id, hand_after).current_player == claimant,
        after_discard(s, id, hand_after).phase == GamePhase::Ron,
        after_discard(s, id, hand_after).can_ron[claimant.spec_index()],
{
    let fresh = with_fresh_flags(tile_moved(s, id, hand_after));
    let r = resolve_ron(fresh);
    assert forall|i: int| 0 <= i < 4 implies #[trigger] fresh.can_ron[i] == ron_eligible(
        r,
        i,
    ) by {
        assert(ron_eligible(r, i) == ron_eligible(fresh, i));
    }
    assert(fresh.can_ron[claimant.spec_index()]);
    assert forall|i: int| 0 <= i < claimant.spec_index() implies !#[trigger] fresh.can_ron[i] by {
        assert(!ron_eligible(r, i));
    }
}

/// After a pass the next seat in the fixed order that the last discard
/// completes is asked.
pub proof fn lemma_pass_asks_next(s: GameStateView, claimant: Player)
    requires
        legal(s),
        s.phase == GamePhase::Ron,
        s.current_player.spec_index() < claimant.spec_index(),
        ron_eligible(s, claimant.spec_index()),
        forall|i: int|
            s.current_player.spec_index() < i < claimant.spec_index() ==> !ron_eligible(s, i),
    ensures
        after_pass(s).current_player == claimant,
        after_pass(s).phase == GamePhase::Ron,
{
    let r = after_pass(s);
    let cur = s.current_player.spec_index();
    assert forall|i: int| 0 <= i < 4 implies #[trigger] r.can_ron[i] == (i > cur && ron_eligible(
        s,
        i,
    )) by {
        assert(s.can_ron[i] == (i >= cur && ron_eligible(s, i)));
    }
    assert(r.can_ron[claimant.spec_index()]);
    assert forall|i: int| 0 <= i < claimant.spec_index() implies !#[trigger] r.can_ron[i] by {
        assert(r.can_ron[i] == (i > cur && ron_eligible(s, i)));
    }
}

/// After a pass with no later seat that the last discard completes, the
/// seat after the one that discarded is to draw.
pub proof fn lemma_last_pass_passes_turn(s: GameStateView)
    requires
        legal(s),
        s.phase == GamePhase::Ron,
        forall|i: int| s.current_player.spec_index() < i < 4 ==> !ron_eligible(s, i),
    ensures
        s.last_discarder is Some,
        after_pass(s).current_player == s.last_discarder->0.spec_next(),
        after_pass(s).phase == GamePhase::Draw,
        no_claims(after_pass(s)),
{
    let r = after_pass(s);
    let cur = s.current_player.spec_index();
    assert(s.can_ron[cur]);
    assert(ron_eligible(s, cur));
    assert forall|i: int| 0 <= i < 4 implies !#[trigger] r.can_ron[i] by {
        assert(s.can_ron[i] == (i >= cur && ron_eligible(s, i)));
    }
}

/// Every seat but the current one holds no drawn tile, and the current one
/// holds one only while it is to discard.
pub proof fn lemma_drawn_tile_only_in_discard(s: GameStateView, seat: int)
    requires
        legal(s),
        0 <= seat < 4,
        s.phase != GamePhase::Discard || s.current_player.spec_index() != seat,
    ensures
        s.drawn_tile[seat] is None,
{
}

} // verus!
