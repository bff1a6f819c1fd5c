use rand::seq::SliceRandom;
use vstd::prelude::*;

verus! {

/// The number of tile kinds.
pub const TILE_KINDS: u8 = 34;

/// The number of copies of each kind in a wall.
pub const COPIES_PER_KIND: usize = 4;

/// The number of tiles in a full wall.
pub const WALL_SIZE: usize = 136;

/// A tile, known by its kind alone. The kind is a number from 0 to 33:
/// 0-8 are Manzu 1-9, 9-17 Pinzu 1-9, 18-26 Souzu 1-9, and 27-33 the honors
/// East, South, West, North, White, Green, Red.
///
/// The view of a tile is its kind.
#[derive(Debug, Clone, Copy, PartialEq, Eq, Structural, PartialOrd, Ord, Hash)]
pub struct Tile {
    id: u8,
}

impl View for Tile {
    type V = u8;

    closed spec fn view(&self) -> u8 {
        self.id
    }
}

/// The kind that `Tile::new` turned down.
#[derive(Debug, Clone, Copy, PartialEq, Eq, Structural)]
pub struct InvalidTileId {
    pub id: u8,
}

/// Tile suit
#[derive(Debug, Clone, Copy, PartialEq, Eq, Structural)]
pub enum TileSuit {
    Manzu,
    Pinzu,
    Souzu,
    Jihai,
}

/// Honor tile kind
#[derive(Debug, Clone, Copy, PartialEq, Eq, Structural)]
pub enum HonorTile {
    Ton,
    Nan,
    Sha,
    Pei,
    Haku,
    Hatsu,
    Chun,
}

/// The suit of kind `id`.
pub open spec fn suit_of(id: u8) -> TileSuit {
    if id <= 8 {
        TileSuit::Manzu
    } else if id <= 17 {
        TileSuit::Pinzu
    } else if id <= 26 {
        TileSuit::Souzu
    } else {
        TileSuit::Jihai
    }
}

/// The rank, 1 to 9, of a suited kind; honors have none.
pub open spec fn number_of(id: u8) -> Option<u8> {
    if id <= 26 {
        Some((id % 9 + 1) as u8)
    } else {
        None
    }
}

/// Which honor kind `id` is; suited kinds are none.
pub open spec fn honor_of(id: u8) -> Option<HonorTile> {
    if id == 27 {
        Some(HonorTile::Ton)
    } else if id == 28 {
        Some(HonorTile::Nan)
    } else if id == 29 {
        Some(HonorTile::Sha)
    } else if id == 30 {
        Some(HonorTile::Pei)
    } else if id == 31 {
        Some(HonorTile::Haku)
    } else if id == 32 {
        Some(HonorTile::Hatsu)
    } else if id == 33 {
        Some(HonorTile::Chun)
    } else {
        None
    }
}

/// A hand in display order: kinds never decrease from left to right.
pub open spec fn is_sorted(hand: Seq<Tile>) -> bool {
    forall|i: int, j: int| 0 <= i <= j < hand.len() ==> hand[i]@ <= hand[j]@
}

impl Tile {
    #[verifier::type_invariant]
    spec fn in_range(self) -> bool {
        self.id < TILE_KINDS
    }

    /// Create a tile; fails if the kind is out of range.
    pub fn new(id: u8) -> (r: Result<Tile, InvalidTileId>)
        ensures
            id < TILE_KINDS ==> r is Ok && r->Ok_0@ == id,
            id >= TILE_KINDS ==> r == Err::<Tile, InvalidTileId>(InvalidTileId { id }),
    {
        if id > 33 {
            return Err(InvalidTileId { id });
        }
        Ok(Tile { id })
    }

    /// The kind of this tile, always below 34.
    pub fn id(&self) -> (id: u8)
        ensures
            id == self@,
            id < TILE_KINDS,
    {
        proof {
            use_type_invariant(self);
        }
        self.id
    }

    /// Get tile suit
    pub fn suit(&self) -> (suit: TileSuit)
        ensures
            suit == suit_of(self@),
    {
        let id = self.id;
        if id <= 8 {
            TileSuit::Manzu
        } else if id <= 17 {
            TileSuit::Pinzu
        } else if id <= 26 {
            TileSuit::Souzu
        } else {
            TileSuit::Jihai
        }
    }

    /// Get number (1-9) for suited tiles; None for honors
    pub fn number(&self) -> (number: Option<u8>)
        ensures
            number == number_of(self@),
    {
        let id = self.id;
        if id <= 8 {
            Some(id + 1)
        } else if id <= 17 {
            Some(id - 8)
        } else if id <= 26 {
            Some(id - 17)
        } else {
            None
        }
    }

    /// Get honor type if this is an honor tile
    pub fn honor(&self) -> (honor: Option<HonorTile>)
        ensures
            honor == honor_of(self@),
    {
        match self.id {
            27 => Some(HonorTile::Ton),
            28 => Some(HonorTile::Nan),
            29 => Some(HonorTile::Sha),
            30 => Some(HonorTile::Pei),
            31 => Some(HonorTile::Haku),
            32 => Some(HonorTile::Hatsu),
            33 => Some(HonorTile::Chun),
            _ => None,
        }
    }

    /// Sort key (Manzu -> Pinzu -> Souzu -> Honors)
    pub fn sort_order(&self) -> (key: u8)
        ensures
            key == self@,
    {
        self.id
    }

    /// The tile of kind `id`.
    pub closed spec fn of_kind(id: u8) -> Tile {
        Tile { id }
    }

    /// `of_kind(id)` has kind `id`.
    pub proof fn lemma_of_kind(id: u8)
        ensures
            Tile::of_kind(id)@ == id,
    {
    }

    /// A tile is known by its kind: two tiles of one kind are the same tile.
    pub proof fn lemma_kind_is_identity(a: Tile, b: Tile)
        ensures
            a@ == b@ <==> a == b,
    {
    }
}

/// The full wall before it is shuffled: 136 tiles, four of each kind, kind
/// by kind in rising order.
pub open spec fn full_wall() -> Seq<Tile> {
    Seq::new(136, |i: int| Tile::of_kind((i / 4) as u8))
}

/// Create full wall (136 tiles, 4 copies each)
pub fn create_wall() -> (wall: Vec<Tile>)
    ensures
        wall@ == full_wall(),
{
    let mut wall: Vec<Tile> = Vec::with_capacity(WALL_SIZE);
    let mut id: u8 = 0;
    while id < TILE_KINDS
        invariant
            id <= TILE_KINDS,
            wall@.len() == 4 * id,
            forall|i: int| 0 <= i < wall@.len() ==> (#[trigger] wall@[i])@ == i / 4,
        decreases TILE_KINDS - id,
    {
        let mut copy: usize = 0;
        while copy < COPIES_PER_KIND
            invariant
                id < TILE_KINDS,
                copy <= COPIES_PER_KIND,
                wall@.len() == 4 * id + copy,
                forall|i: int| 0 <= i < wall@.len() ==> (#[trigger] wall@[i])@ == i / 4,
            decreases COPIES_PER_KIND - copy,
        {
            wall.push(Tile { id });
            copy += 1;
        }
        id += 1;
    }
    proof {
        assert(wall@ =~= full_wall());
    }
    wall
}

/// Shuffle wall in place, with `rand`'s `SliceRandom::shuffle` driven by the
/// generator that `rand::thread_rng` hands out. The order that comes out is
/// left open. What is taken on trust is that the shuffle only swaps elements
/// of the slice, so the wall holds the same tiles afterwards, each as often
/// as before. `thread_rng` panics if the system gives it no seed, whatever
/// the wall is.
#[verifier::external_body]
pub fn shuffle_wall(wall: &mut Vec<Tile>)
    ensures
        final(wall)@.len() == old(wall)@.len(),
        final(wall)@.to_multiset() == old(wall)@.to_multiset(),
{
    let mut rng = rand::thread_rng();
    wall.shuffle(&mut rng);
}

/// The display order settles a hand: two sorted hands that hold the same
/// tiles, each as often, are the same sequence.
pub proof fn lemma_display_order_unique(a: Seq<Tile>, b: Seq<Tile>)
    requires
        is_sorted(a),
        is_sorted(b),
        a.to_multiset() == b.to_multiset(),
    ensures
        a == b,
{
    let by_kind = |x: Tile, y: Tile| x@ <= y@;
    assert(vstd::relations::sorted_by(a, by_kind));
    assert(vstd::relations::sorted_by(b, by_kind));
    assert(vstd::relations::total_ordering(by_kind)) by {
        assert(vstd::relations::reflexive(by_kind));
        assert(vstd::relations::antisymmetric(by_kind));
        assert(vstd::relations::transitive(by_kind));
        assert(vstd::relations::strongly_connected(by_kind));
    }
    vstd::seq_lib::lemma_sorted_unique(a, b, by_kind);
}

/// Taking a tile out of a sorted hand leaves it sorted.
pub proof fn lemma_remove_keeps_sorted(hand: Seq<Tile>, i: int)
    requires
        is_sorted(hand),
        0 <= i < hand.len(),
    ensures
        is_sorted(hand.remove(i)),
{
    let rest = hand.remove(i);
    assert forall|x: int, y: int| 0 <= x <= y < rest.len() implies rest[x]@ <= rest[y]@ by {
        let from_x = if x < i {
            x
        } else {
            x + 1
        };
        let from_y = if y < i {
            y
        } else {
            y + 1
        };
        assert(rest[x] == hand[from_x] && rest[y] == hand[from_y]);
    }
}

/// Puts `tile` into a sorted hand, behind the tiles of its own kind, and
/// returns the place it took.
pub fn insert_sorted(hand: &mut Vec<Tile>, tile: Tile) -> (pos: usize)
    requires
        is_sorted(old(hand)@),
    ensures
        pos <= old(hand)@.len(),
        final(hand)@ == old(hand)@.insert(pos as int, tile),
        is_sorted(final(hand)@),
        final(hand)@.len() == old(hand)@.len() + 1,
        final(hand)@.to_multiset() == old(hand)@.to_multiset().insert(tile),
{
    let mut pos: usize = 0;
    while pos < hand.len() && hand[pos].id <= tile.id
        invariant
            pos <= hand@.len(),
            forall|i: int| 0 <= i < pos ==> hand@[i]@ <= tile@,
        decreases hand@.len() - pos,
    {
        pos += 1;
    }
    let ghost before = hand@;
    hand.insert(pos, tile);
    proof {
        broadcast use vstd::seq_lib::to_multiset_insert;

        assert forall|i: int, j: int| 0 <= i <= j < hand@.len() implies hand@[i]@ <= hand@[j]@ by {
            if j < pos {
                assert(hand@[i] == before[i] && hand@[j] == before[j]);
            } else if i > pos {
                assert(hand@[i] == before[i - 1] && hand@[j] == before[j - 1]);
            } else if i == pos {
                if j > pos {
                    assert(hand@[j] == before[j - 1]);
                    assert(before[pos as int]@ <= before[j - 1]@);
                }
            } else {
                if j > pos {
                    assert(hand@[i] == before[i] && hand@[j] == before[j - 1]);
                }
            }
        }
    }
    pos
}

/// Sort a hand (Manzu -> Pinzu -> Souzu -> Honors)
pub fn sort_hand(hand: &mut Vec<Tile>)
    ensures
        is_sorted(final(hand)@),
        final(hand)@.len() == old(hand)@.len(),
        final(hand)@.to_multiset() == old(hand)@.to_multiset(),
{
    let mut sorted: Vec<Tile> = Vec::new();
    let mut i: usize = 0;
    proof {
        assert(hand@.take(0) =~= sorted@);
    }
    while i < hand.len()
        invariant
            i <= hand@.len(),
            is_sorted(sorted@),
            sorted@.len() == i,
            sorted@.to_multiset() == hand@.take(i as int).to_multiset(),
        decreases hand@.len() - i,
    {
        proof {
            broadcast use vstd::seq_lib::to_multiset_build;

            assert(hand@.take(i + 1) =~= hand@.take(i as int).push(hand@[i as int]));
        }
        insert_sorted(&mut sorted, hand[i]);
        i += 1;
    }
    proof {
        assert(hand@.take(hand@.len() as int) =~= hand@);
    }
    *hand = sorted;
}

} // verus!
