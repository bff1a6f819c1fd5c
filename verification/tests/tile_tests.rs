use mahjong_engine::models::tile::{
    create_wall, insert_sorted, shuffle_wall, sort_hand, HonorTile, InvalidTileId, Tile, TileSuit,
};

fn tiles(ids: &[u8]) -> Vec<Tile> {
    ids.iter().map(|id| Tile::new(*id).unwrap()).collect()
}

fn ids(hand: &[Tile]) -> Vec<u8> {
    hand.iter().map(|t| t.id()).collect()
}

#[test]
fn test_tile_creation() {
    let tile = Tile::new(0).unwrap();
    assert_eq!(tile.id(), 0);

    let tile = Tile::new(33).unwrap();
    assert_eq!(tile.id(), 33);

    assert!(Tile::new(34).is_err());
}

#[test]
fn test_tile_suit() {
    assert_eq!(Tile::new(0).unwrap().suit(), TileSuit::Manzu);
    assert_eq!(Tile::new(9).unwrap().suit(), TileSuit::Pinzu);
    assert_eq!(Tile::new(18).unwrap().suit(), TileSuit::Souzu);
    assert_eq!(Tile::new(27).unwrap().suit(), TileSuit::Jihai);
}

#[test]
fn test_tile_number() {
    assert_eq!(Tile::new(0).unwrap().number(), Some(1));
    assert_eq!(Tile::new(8).unwrap().number(), Some(9));
    assert_eq!(Tile::new(9).unwrap().number(), Some(1));
    assert_eq!(Tile::new(17).unwrap().number(), Some(9));
    assert_eq!(Tile::new(27).unwrap().number(), None);
}

#[test]
fn test_honor_tile() {
    assert_eq!(Tile::new(27).unwrap().honor(), Some(HonorTile::Ton));
    assert_eq!(Tile::new(33).unwrap().honor(), Some(HonorTile::Chun));
    assert_eq!(Tile::new(0).unwrap().honor(), None);
}

#[test]
fn test_create_wall() {
    let wall = create_wall();
    assert_eq!(wall.len(), 136);

    // Ensure each tile id appears exactly 4 times
    let mut counts = [0u8; 34];
    for tile in &wall {
        counts[tile.id() as usize] += 1;
    }
    for count in counts.iter() {
        assert_eq!(*count, 4);
    }
}

#[test]
fn test_sort_hand() {
    let mut hand = vec![
        Tile::new(27).unwrap(), // East
        Tile::new(0).unwrap(),  // 1 Man
        Tile::new(18).unwrap(), // 1 Sou
        Tile::new(9).unwrap(),  // 1 Pin
    ];

    sort_hand(&mut hand);

    assert_eq!(hand[0].id(), 0); // 1 Man
    assert_eq!(hand[1].id(), 9); // 1 Pin
    assert_eq!(hand[2].id(), 18); // 1 Sou
    assert_eq!(hand[3].id(), 27); // East
}

#[test]
fn tile_new_rejects_every_id_from_34_up() {
    for id in 0..=255u8 {
        match Tile::new(id) {
            Ok(tile) => {
                assert!(id <= 33);
                assert_eq!(tile.id(), id);
                assert_eq!(tile.sort_order(), id);
            }
            Err(e) => {
                assert!(id >= 34);
                assert_eq!(e, InvalidTileId { id });
            }
        }
    }
}

#[test]
fn suit_number_and_honor_of_every_kind() {
    for id in 0..34u8 {
        let tile = Tile::new(id).unwrap();
        let suit = match id / 9 {
            0 => TileSuit::Manzu,
            1 => TileSuit::Pinzu,
            2 => TileSuit::Souzu,
            _ => TileSuit::Jihai,
        };
        assert_eq!(tile.suit(), suit);
        if id < 27 {
            assert_eq!(tile.number(), Some(id % 9 + 1));
            assert_eq!(tile.honor(), None);
        } else {
            assert_eq!(tile.number(), None);
            assert!(tile.honor().is_some());
        }
    }
    assert_eq!(Tile::new(26).unwrap().number(), Some(9));
    assert_eq!(Tile::new(26).unwrap().suit(), TileSuit::Souzu);
    assert_eq!(Tile::new(28).unwrap().honor(), Some(HonorTile::Nan));
    assert_eq!(Tile::new(29).unwrap().honor(), Some(HonorTile::Sha));
    assert_eq!(Tile::new(30).unwrap().honor(), Some(HonorTile::Pei));
    assert_eq!(Tile::new(31).unwrap().honor(), Some(HonorTile::Haku));
    assert_eq!(Tile::new(32).unwrap().honor(), Some(HonorTile::Hatsu));
}

#[test]
fn create_wall_is_in_rising_order() {
    let wall = create_wall();
    for (i, tile) in wall.iter().enumerate() {
        assert_eq!(tile.id() as usize, i / 4);
    }
}

#[test]
fn shuffle_wall_keeps_the_tiles_and_changes_the_order() {
    let mut wall = create_wall();
    shuffle_wall(&mut wall);
    assert_eq!(wall.len(), 136);
    let mut counts = [0u8; 34];
    for tile in &wall {
        counts[tile.id() as usize] += 1;
    }
    assert_eq!(counts, [4u8; 34]);
    assert_ne!(ids(&wall), ids(&create_wall()));
}

#[test]
fn sort_hand_orders_and_keeps_every_tile() {
    let mut hand = tiles(&[33, 5, 5, 0, 27, 9, 26, 5, 18, 1, 0, 33, 17, 8]);
    sort_hand(&mut hand);
    assert_eq!(ids(&hand), vec![0, 0, 1, 5, 5, 5, 8, 9, 17, 18, 26, 27, 33, 33]);

    let mut empty: Vec<Tile> = Vec::new();
    sort_hand(&mut empty);
    assert!(empty.is_empty());
}

#[test]
fn insert_sorted_goes_behind_its_own_kind() {
    let mut hand = tiles(&[1, 3, 3, 7]);
    assert_eq!(insert_sorted(&mut hand, Tile::new(3).unwrap()), 3);
    assert_eq!(ids(&hand), vec![1, 3, 3, 3, 7]);
    assert_eq!(insert_sorted(&mut hand, Tile::new(0).unwrap()), 0);
    assert_eq!(insert_sorted(&mut hand, Tile::new(33).unwrap()), 6);
    assert_eq!(ids(&hand), vec![0, 1, 3, 3, 3, 7, 33]);
}
