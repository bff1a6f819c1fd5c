use crate::models::tile::Tile;
use vstd::prelude::*;
use vstd::slice::slice_to_vec;

verus! {

/// A group of three tiles: three of one kind, or three consecutive ranks of
/// one suit, named by the kind of the lowest.
pub enum Meld {
    Triplet { kind: int },
    Sequence { start: int },
}

impl Meld {
    /// A triplet may be of any kind. A sequence starts at rank 1 to 7 of a
    /// suit; honors form no sequence.
    pub open spec fn well_formed(self) -> bool {
        match self {
            Meld::Triplet { kind } => 0 <= kind < 34,
            Meld::Sequence { start } => 0 <= start < 27 && start % 9 <= 6,
        }
    }

    /// How many tiles of `kind` the meld takes.
    pub open spec fn uses(self, kind: int) -> int {
        match self {
            Meld::Triplet { kind: k } => if kind == k {
                3
            } else {
                0
            },
            Meld::Sequence { start } => if start <= kind <= start + 2 {
                1
            } else {
                0
            },
        }
    }
}

/// How many tiles of `kind` the melds take together.
pub open spec fn melds_use(melds: Seq<Meld>, kind: int) -> int
    decreases melds.len(),
{
    if melds.len() == 0 {
        0
    } else {
        melds[0].uses(kind) + melds_use(melds.drop_first(), kind)
    }
}

/// The melds use up `counts` exactly: every meld is well formed, and of each
/// kind they take as many tiles as `counts` holds.
pub open spec fn is_meld_split(melds: Seq<Meld>, counts: Seq<int>) -> bool {
    &&& counts.len() == 34
    &&& forall|i: int| 0 <= i < melds.len() ==> (#[trigger] melds[i]).well_formed()
    &&& forall|k: int| 0 <= k < 34 ==> #[trigger] counts[k] == melds_use(melds, k)
}

/// The tiles counted by `counts` can be grouped into exactly `n` melds.
pub open spec fn decomposes_into_melds(counts: Seq<int>, n: nat) -> bool {
    exists|melds: Seq<Meld>| melds.len() == n && #[trigger] is_meld_split(melds, counts)
}

/// `counts` with the tiles of one meld taken out.
pub open spec fn take_meld(counts: Seq<int>, meld: Meld) -> Seq<int> {
    Seq::new(34, |k: int| counts[k] - meld.uses(k))
}

/// How many tiles of `kind` the hand holds.
pub open spec fn kind_count(hand: Seq<Tile>, kind: int) -> int
    decreases hand.len(),
{
    if hand.len() == 0 {
        0
    } else {
        kind_count(hand.drop_last(), kind) + if hand.last()@ == kind {
            1int
        } else {
            0int
        }
    }
}

/// The multiplicity table of a hand: one counter for each of the 34 kinds.
pub open spec fn kind_counts(hand: Seq<Tile>) -> Seq<int> {
    Seq::new(34, |k: int| kind_count(hand, k))
}

/// `counts` holds a pair of `pair`, and what is left once that pair is set
/// aside groups into four melds.
pub open spec fn has_head(counts: Seq<int>, pair: int) -> bool {
    counts[pair] >= 2 && decomposes_into_melds(counts.update(pair, counts[pair] - 2), 4)
}

/// A complete hand: fourteen tiles that make four melds and one pair.
pub open spec fn is_complete(hand: Seq<Tile>) -> bool {
    hand.len() == 14 && exists|pair: int| 0 <= pair < 34 && #[trigger] has_head(
        kind_counts(hand),
        pair,
    )
}

/// Thirteen tiles that `extra` completes.
pub open spec fn can_complete_with(hand: Seq<Tile>, extra: Tile) -> bool {
    hand.len() == 13 && is_complete(hand.push(extra))
}

/// The counters of the executable table as mathematical integers.
pub open spec fn widen(counts: Seq<u8>) -> Seq<int> {
    Seq::new(counts.len(), |k: int| counts[k] as int)
}

spec fn triplet_below(meld: Meld, bound: int) -> bool {
    match meld {
        Meld::Triplet { kind } => kind < bound,
        Meld::Sequence { .. } => false,
    }
}

spec fn sequence_below(meld: Meld, bound: int) -> bool {
    match meld {
        Meld::Triplet { .. } => false,
        Meld::Sequence { start } => start < bound,
    }
}

proof fn lemma_melds_use_nonnegative(melds: Seq<Meld>, kind: int)
    ensures
        melds_use(melds, kind) >= 0,
    decreases melds.len(),
{
    if melds.len() > 0 {
        lemma_melds_use_nonnegative(melds.drop_first(), kind);
    }
}

/// Setting the first meld of a split aside leaves a split of the rest.
proof fn lemma_split_first(melds: Seq<Meld>, counts: Seq<int>)
    requires
        melds.len() > 0,
        is_meld_split(melds, counts),
    ensures
        melds[0].well_formed(),
        is_meld_split(melds.drop_first(), take_meld(counts, melds[0])),
{
    let rest = melds.drop_first();
    let left = take_meld(counts, melds[0]);
    assert forall|i: int| 0 <= i < rest.len() implies (#[trigger] rest[i]).well_formed() by {
        assert(rest[i] == melds[i + 1]);
    }
    assert forall|k: int| 0 <= k < 34 implies #[trigger] left[k] == melds_use(rest, k) by {
        assert(counts[k] == melds_use(melds, k));
    }
}

/// A meld put in front of a split of what it leaves gives a split of the whole.
proof fn lemma_split_extend(meld: Meld, rest: Seq<Meld>, counts: Seq<int>)
    requires
        meld.well_formed(),
        counts.len() == 34,
        is_meld_split(rest, take_meld(counts, meld)),
    ensures
        is_meld_split(seq![meld] + rest, counts),
        (seq![meld] + rest).len() == rest.len() + 1,
{
    let all = seq![meld] + rest;
    let left = take_meld(counts, meld);
    assert(all.drop_first() =~= rest);
    assert forall|i: int| 0 <= i < all.len() implies (#[trigger] all[i]).well_formed() by {
        if i > 0 {
            assert(all[i] == rest[i - 1]);
        }
    }
    assert forall|k: int| 0 <= k < 34 implies #[trigger] counts[k] == melds_use(all, k) by {
        assert(left[k] == melds_use(rest, k));
    }
}

/// Adding a tile to a hand raises the count of its kind by one.
proof fn lemma_kind_count_push(hand: Seq<Tile>, tile: Tile, kind: int)
    ensures
        kind_count(hand.push(tile), kind) == kind_count(hand, kind) + if tile@ == kind {
            1int
        } else {
            0int
        },
{
    assert(hand.push(tile).drop_last() =~= hand);
}

/// The count of a kind in a hand is the number of times the tile of that
/// kind occurs in it.
pub proof fn lemma_kind_count_in_multiset(hand: Seq<Tile>, kind: u8)
    ensures
        kind_count(hand, kind as int) == hand.to_multiset().count(Tile::of_kind(kind)),
    decreases hand.len(),
{
    broadcast use vstd::multiset::group_multiset_axioms;

    if hand.len() == 0 {
        vstd::seq_lib::to_multiset_len(hand);
        vstd::multiset::lemma_multiset_empty_len(hand.to_multiset());
    } else {
        let front = hand.drop_last();
        let last = hand.last();
        lemma_kind_count_in_multiset(front, kind);
        assert(hand =~= front.push(last));
        vstd::seq_lib::to_multiset_build(front, last);
        Tile::lemma_of_kind(kind);
        Tile::lemma_kind_is_identity(last, Tile::of_kind(kind));
    }
}

/// Completeness does not depend on the order of the tiles: two hands that
/// hold the same tiles, each as often, are both complete or both not.
pub proof fn lemma_is_complete_permutation(a: Seq<Tile>, b: Seq<Tile>)
    requires
        a.to_multiset() == b.to_multiset(),
    ensures
        is_complete(a) == is_complete(b),
{
    vstd::seq_lib::to_multiset_len(a);
    vstd::seq_lib::to_multiset_len(b);
    assert forall|k: int| 0 <= k < 34 implies kind_count(a, k) == kind_count(b, k) by {
        lemma_kind_count_in_multiset(a, k as u8);
        lemma_kind_count_in_multiset(b, k as u8);
    }
    assert(kind_counts(a) =~= kind_counts(b));
}

/// A hand that does not have fourteen tiles is not complete, and a hand that
/// does not have thirteen is completed by no tile.
pub proof fn lemma_wrong_size_is_incomplete(hand: Seq<Tile>, extra: Tile)
    ensures
        hand.len() != 14 ==> !is_complete(hand),
        hand.len() != 13 ==> !can_complete_with(hand, extra),
{
}

/// The hand holds the kinds `start`, `start + 1` and `start + 2`.
pub open spec fn holds_run(hand: Seq<Tile>, start: int) -> bool {
    kind_count(hand, start) > 0 && kind_count(hand, start + 1) > 0 && kind_count(hand, start + 2)
        > 0
}

/// A hand with no kind held three times and no three consecutive ranks of
/// a suit is not complete: such are seven pairs that lie apart.
pub proof fn lemma_pairs_apart_incomplete(hand: Seq<Tile>)
    requires
        forall|k: int| 0 <= k < 34 ==> #[trigger] kind_count(hand, k) <= 2,
        forall|k: int| 0 <= k < 25 && k % 9 <= 6 ==> !#[trigger] holds_run(hand, k),
    ensures
        !is_complete(hand),
{
    let table = kind_counts(hand);
    assert forall|pair: int| 0 <= pair < 34 implies !#[trigger] has_head(table, pair) by {
        let left = table.update(pair, table[pair] - 2);
        assert forall|melds: Seq<Meld>| melds.len() == 4 implies !#[trigger] is_meld_split(
            melds,
            left,
        ) by {
            if is_meld_split(melds, left) {
                let rest = melds.drop_first();
                assert(melds[0].well_formed());
                match melds[0] {
                    Meld::Triplet { kind } => {
                        lemma_melds_use_nonnegative(rest, kind);
                        assert(left[kind] == melds_use(melds, kind));
                    },
                    Meld::Sequence { start } => {
                        assert(!holds_run(hand, start));
                        lemma_melds_use_nonnegative(rest, start);
                        lemma_melds_use_nonnegative(rest, start + 1);
                        lemma_melds_use_nonnegative(rest, start + 2);
                        assert(left[start] == melds_use(melds, start));
                        assert(left[start + 1] == melds_use(melds, start + 1));
                        assert(left[start + 2] == melds_use(melds, start + 2));
                    },
                }
            }
        }
    }
}

/// Check if tiles can form the specified number of melds: first every
/// triplet is tried, then every sequence, each with the rest searched in
/// turn.
pub fn can_form_melds(counts: &[u8; 34], meld_count: usize) -> (found: bool)
    ensures
        found == decomposes_into_melds(widen(counts@), meld_count as nat),
    decreases meld_count,
{
    let ghost table = widen(counts@);
    if meld_count == 0 {
        let mut k: usize = 0;
        while k < 34
            invariant
                k <= 34,
                meld_count == 0,
                table == widen(counts@),
                forall|j: int| 0 <= j < k ==> counts@[j] == 0,
            decreases 34 - k,
        {
            if counts[k] != 0 {
                proof {
                    assert forall|melds: Seq<Meld>|
                        melds.len() == 0 implies !#[trigger] is_meld_split(melds, table) by {
                        if is_meld_split(melds, table) {
                            assert(table[k as int] == melds_use(melds, k as int));
                        }
                    }
                }
                return false;
            }
            k += 1;
        }
        proof {
            let none = Seq::<Meld>::empty();
            assert(is_meld_split(none, table));
        }
        return true;
    }
    let mut id: usize = 0;
    while id < 34
        invariant
            id <= 34,
            meld_count > 0,
            table == widen(counts@),
            forall|melds: Seq<Meld>|
                melds.len() == meld_count && #[trigger] is_meld_split(melds, table)
                    ==> !triplet_below(melds[0], id as int),
        decreases 34 - id,
    {
        let ghost meld = Meld::Triplet { kind: id as int };
        if counts[id] >= 3 {
            let mut temp_counts = *counts;
            temp_counts[id] = temp_counts[id] - 3;
            proof {
                assert(widen(temp_counts@) =~= take_meld(table, meld));
            }
            if can_form_melds(&temp_counts, meld_count - 1) {
                proof {
                    let rest = choose|rest: Seq<Meld>|
                        rest.len() == meld_count - 1 && #[trigger] is_meld_split(
                            rest,
                            take_meld(table, meld),
                        );
                    lemma_split_extend(meld, rest, table);
                }
                return true;
            }
            proof {
                assert forall|melds: Seq<Meld>|
                    melds.len() == meld_count && #[trigger] is_meld_split(
                        melds,
                        table,
                    ) implies !triplet_below(melds[0], id + 1) by {
                    if melds[0] == meld {
                        lemma_split_first(melds, table);
                        assert(melds.drop_first().len() == meld_count - 1);
                    }
                }
            }
        } else {
            proof {
                assert forall|melds: Seq<Meld>|
                    melds.len() == meld_count && #[trigger] is_meld_split(
                        melds,
                        table,
                    ) implies !triplet_below(melds[0], id + 1) by {
                    if melds[0] == meld {
                        lemma_melds_use_nonnegative(melds.drop_first(), id as int);
                        assert(table[id as int] == melds_use(melds, id as int));
                    }
                }
            }
        }
        id += 1;
    }
    let mut start: usize = 0;
    while start < 25
        invariant
            start <= 25,
            meld_count > 0,
            table == widen(counts@),
            forall|melds: Seq<Meld>|
                melds.len() == meld_count && #[trigger] is_meld_split(melds, table)
                    ==> !triplet_below(melds[0], 34),
            forall|melds: Seq<Meld>|
                melds.len() == meld_count && #[trigger] is_meld_split(melds, table)
                    ==> !sequence_below(melds[0], start as int),
        decreases 25 - start,
    {
        let ghost meld = Meld::Sequence { start: start as int };
        if start % 9 <= 6 && counts[start] > 0 && counts[start + 1] > 0 && counts[start + 2] > 0 {
            let mut temp_counts = *counts;
            temp_counts[start] = temp_counts[start] - 1;
            temp_counts[start + 1] = temp_counts[start + 1] - 1;
            temp_counts[start + 2] = temp_counts[start + 2] - 1;
            proof {
                assert(widen(temp_counts@) =~= take_meld(table, meld));
            }
            if can_form_melds(&temp_counts, meld_count - 1) {
                proof {
                    let rest = choose|rest: Seq<Meld>|
                        rest.len() == meld_count - 1 && #[trigger] is_meld_split(
                            rest,
                            take_meld(table, meld),
                        );
                    lemma_split_extend(meld, rest, table);
                }
                return true;
            }
            proof {
                assert forall|melds: Seq<Meld>|
                    melds.len() == meld_count && #[trigger] is_meld_split(
                        melds,
                        table,
                    ) implies !sequence_below(melds[0], start + 1) by {
                    if melds[0] == meld {
                        lemma_split_first(melds, table);
                        assert(melds.drop_first().len() == meld_count - 1);
                    }
                }
            }
        } else {
            proof {
                assert forall|melds: Seq<Meld>|
                    melds.len() == meld_count && #[trigger] is_meld_split(
                        melds,
                        table,
                    ) implies !sequence_below(melds[0], start + 1) by {
                    if melds[0] == meld {
                        let rest = melds.drop_first();
                        lemma_melds_use_nonnegative(rest, start as int);
                        lemma_melds_use_nonnegative(rest, start + 1);
                        lemma_melds_use_nonnegative(rest, start + 2);
                        assert(melds[0].well_formed());
                        assert(table[start as int] == melds_use(melds, start as int));
                        assert(table[start + 1] == melds_use(melds, start + 1));
                        assert(table[start + 2] == melds_use(melds, start + 2));
                    }
                }
            }
        }
        start += 1;
    }
    proof {
        assert forall|melds: Seq<Meld>| melds.len() == meld_count implies !#[trigger] is_meld_split(
            melds,
            table,
        ) by {
            if is_meld_split(melds, table) {
                assert(melds[0].well_formed());
            }
        }
    }
    false
}

/// Check if a hand can win (4 melds + 1 pair).
/// A hand of any other size than 14 cannot.
pub fn can_win(hand: &[Tile]) -> (complete: bool)
    ensures
        complete == is_complete(hand@),
        hand@.len() != 14 ==> !complete,
{
    if hand.len() != 14 {
        return false;
    }
    let mut counts: [u8; 34] = [0u8; 34];
    let mut i: usize = 0;
    proof {
        assert(hand@.take(0) =~= Seq::<Tile>::empty());
    }
    while i < hand.len()
        invariant
            i <= hand@.len(),
            hand@.len() == 14,
            forall|k: int| 0 <= k < 34 ==> 0 <= #[trigger] counts@[k] <= i,
            forall|k: int| 0 <= k < 34 ==> #[trigger] counts@[k] == kind_count(hand@.take(i as int), k),
        decreases hand@.len() - i,
    {
        let id = hand[i].id();
        proof {
            assert(hand@.take(i + 1) =~= hand@.take(i as int).push(hand@[i as int]));
            assert forall|k: int| 0 <= k < 34 implies kind_count(hand@.take(i + 1), k)
                == kind_count(hand@.take(i as int), k) + if hand@[i as int]@ == k {
                1int
            } else {
                0int
            } by {
                lemma_kind_count_push(hand@.take(i as int), hand@[i as int], k);
            }
        }
        counts[id as usize] = counts[id as usize] + 1;
        i += 1;
    }
    proof {
        assert(hand@.take(14) =~= hand@);
        assert(widen(counts@) =~= kind_counts(hand@));
    }
    let ghost table = kind_counts(hand@);
    let mut pair_id: usize = 0;
    while pair_id < 34
        invariant
            pair_id <= 34,
            hand@.len() == 14,
            table == kind_counts(hand@),
            table == widen(counts@),
            forall|p: int| 0 <= p < pair_id ==> !#[trigger] has_head(table, p),
        decreases 34 - pair_id,
    {
        if counts[pair_id] >= 2 {
            let mut temp_counts = counts;
            temp_counts[pair_id] = temp_counts[pair_id] - 2;
            proof {
                assert(widen(temp_counts@) =~= table.update(
                    pair_id as int,
                    table[pair_id as int] - 2,
                ));
            }
            if can_form_melds(&temp_counts, 4) {
                proof {
                    assert(has_head(table, pair_id as int));
                }
                return true;
            }
        }
        pair_id += 1;
    }
    false
}

/// Check if player can win by claiming a specific discarded tile (ron).
/// A hand of any other size than 13 cannot.
pub fn can_win_by_ron(hand: &[Tile], discarded_tile: Tile) -> (complete: bool)
    ensures
        complete == can_complete_with(hand@, discarded_tile),
        hand@.len() != 13 ==> !complete,
{
    if hand.len() != 13 {
        return false;
    }
    let mut test_hand = slice_to_vec(hand);
    test_hand.push(discarded_tile);
    can_win(test_hand.as_slice())
}

} // verus!
