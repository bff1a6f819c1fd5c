use mahjong_engine::game::win_checker::{can_form_melds, can_win, can_win_by_ron};
use mahjong_engine::models::tile::Tile;

fn tiles(ids: &[u8]) -> Vec<Tile> {
    ids.iter().map(|id| Tile::new(*id).unwrap()).collect()
}

fn table(ids: &[u8]) -> [u8; 34] {
    let mut counts = [0u8; 34];
    for id in ids {
        counts[*id as usize] += 1;
    }
    counts
}

#[test]
fn test_can_win_with_four_melds_and_pair() {
    // Example: 4 sequences + 1 pair
    let hand = vec![
        Tile::new(0).unwrap(),  // 1 Man
        Tile::new(1).unwrap(),  // 2 Man
        Tile::new(2).unwrap(),  // 3 Man
        Tile::new(3).unwrap(),  // 4 Man
        Tile::new(4).unwrap(),  // 5 Man
        Tile::new(5).unwrap(),  // 6 Man
        Tile::new(9).unwrap(),  // 1 Pin
        Tile::new(10).unwrap(), // 2 Pin
        Tile::new(11).unwrap(), // 3 Pin
        Tile::new(18).unwrap(), // 1 Sou
        Tile::new(19).unwrap(), // 2 Sou
        Tile::new(20).unwrap(), // 3 Sou
        Tile::new(27).unwrap(), // East
        Tile::new(27).unwrap(), // East
    ];
    assert!(can_win(&hand));
}

#[test]
fn test_can_win_with_triplets() {
    // Example: 4 triplets + 1 pair
    let hand = vec![
        Tile::new(0).unwrap(),  // 1 Man
        Tile::new(0).unwrap(),  // 1 Man
        Tile::new(0).unwrap(),  // 1 Man
        Tile::new(9).unwrap(),  // 1 Pin
        Tile::new(9).unwrap(),  // 1 Pin
        Tile::new(9).unwrap(),  // 1 Pin
        Tile::new(18).unwrap(), // 1 Sou
        Tile::new(18).unwrap(), // 1 Sou
        Tile::new(18).unwrap(), // 1 Sou
        Tile::new(27).unwrap(), // East
        Tile::new(27).unwrap(), // East
        Tile::new(27).unwrap(), // East
        Tile::new(28).unwrap(), // South
        Tile::new(28).unwrap(), // South
    ];
    assert!(can_win(&hand));
}

#[test]
fn test_cannot_win() {
    // 14 tiles but cannot form 4 melds + 1 pair
    let hand = vec![
        Tile::new(0).unwrap(), // 1 Man
        Tile::new(0).unwrap(), // 1 Man
        Tile::new(1).unwrap(), // 2 Man
        Tile::new(1).unwrap(), // 2 Man
        Tile::new(2).unwrap(), // 3 Man
        Tile::new(2).unwrap(), // 3 Man
        Tile::new(3).unwrap(), // 4 Man
        Tile::new(3).unwrap(), // 4 Man
        Tile::new(4).unwrap(), // 5 Man
        Tile::new(4).unwrap(), // 5 Man
        Tile::new(5).unwrap(), // 6 Man
        Tile::new(5).unwrap(), // 6 Man
        Tile::new(6).unwrap(), // 7 Man
        Tile::new(7).unwrap(), // 8 Man (cannot form meld)
    ];
    assert!(!can_win(&hand));
}

#[test]
fn test_can_win_by_ron() {
    // 13 tiles that can win with discarded tile
    let hand = vec![
        Tile::new(0).unwrap(),  // 1 Man
        Tile::new(1).unwrap(),  // 2 Man
        Tile::new(2).unwrap(),  // 3 Man
        Tile::new(3).unwrap(),  // 4 Man
        Tile::new(4).unwrap(),  // 5 Man
        Tile::new(5).unwrap(),  // 6 Man
        Tile::new(9).unwrap(),  // 1 Pin
        Tile::new(10).unwrap(), // 2 Pin
        Tile::new(11).unwrap(), // 3 Pin
        Tile::new(18).unwrap(), // 1 Sou
        Tile::new(19).unwrap(), // 2 Sou
        Tile::new(20).unwrap(), // 3 Sou
        Tile::new(27).unwrap(), // East
    ];
    let discarded = Tile::new(27).unwrap(); // East
    assert!(can_win_by_ron(&hand, discarded));
}

#[test]
fn test_can_win_with_multiple_pair_options() {
    // Can form pairs with 1m, 2m, 3m, 4m, 5m, 6m, or 7m
    let hand = vec![
        Tile::new(0).unwrap(), // 1 Man
        Tile::new(0).unwrap(), // 1 Man
        Tile::new(1).unwrap(), // 2 Man
        Tile::new(1).unwrap(), // 2 Man
        Tile::new(2).unwrap(), // 3 Man
        Tile::new(2).unwrap(), // 3 Man
        Tile::new(3).unwrap(), // 4 Man
        Tile::new(3).unwrap(), // 4 Man
        Tile::new(4).unwrap(), // 5 Man
        Tile::new(4).unwrap(), // 5 Man
        Tile::new(5).unwrap(), // 6 Man
        Tile::new(5).unwrap(), // 6 Man
        Tile::new(6).unwrap(), // 7 Man
        Tile::new(6).unwrap(), // 7 Man
    ];
    assert!(can_win(&hand));
}

#[test]
fn test_can_win_with_mixed_sequences_and_triplets() {
    // Example: 2 sequences + 2 triplets + 1 pair
    let hand = vec![
        Tile::new(0).unwrap(),  // 1 Man
        Tile::new(1).unwrap(),  // 2 Man
        Tile::new(2).unwrap(),  // 3 Man (sequence)
        Tile::new(9).unwrap(),  // 1 Pin
        Tile::new(9).unwrap(),  // 1 Pin
        Tile::new(9).unwrap(),  // 1 Pin (triplet)
        Tile::new(18).unwrap(), // 1 Sou
        Tile::new(19).unwrap(), // 2 Sou
        Tile::new(20).unwrap(), // 3 Sou (sequence)
        Tile::new(27).unwrap(), // East
        Tile::new(27).unwrap(), // East
        Tile::new(27).unwrap(), // East (triplet)
        Tile::new(28).unwrap(), // South
        Tile::new(28).unwrap(), // South (pair)
    ];
    assert!(can_win(&hand));
}

#[test]
fn complete_hand_stays_complete_in_any_order() {
    let sorted = [0u8, 1, 2, 3, 4, 5, 9, 10, 11, 18, 19, 20, 27, 27];
    let mut order = sorted.to_vec();
    for round in 0..14 {
        order.rotate_left(round % 5 + 1);
        order.swap(0, 13 - round);
        assert!(can_win(&tiles(&order)));
    }
    order.reverse();
    assert!(can_win(&tiles(&order)));
}

#[test]
fn incomplete_hand_stays_incomplete_in_any_order() {
    let mut order = vec![0u8, 0, 1, 1, 2, 2, 3, 3, 4, 4, 5, 5, 6, 7];
    for round in 0..14 {
        order.rotate_left(round % 3 + 1);
        order.swap(1, 13 - round);
        assert!(!can_win(&tiles(&order)));
    }
}

#[test]
fn hands_of_another_size_are_not_complete() {
    assert!(!can_win(&tiles(&[])));
    assert!(!can_win(&tiles(&[27, 27])));
    // thirteen tiles of a complete hand
    assert!(!can_win(&tiles(&[0, 1, 2, 3, 4, 5, 9, 10, 11, 18, 19, 20, 27])));
    // a complete hand and one more meld
    assert!(!can_win(&tiles(&[0, 1, 2, 3, 4, 5, 9, 10, 11, 18, 19, 20, 27, 27, 28, 28, 28])));
    assert!(!can_win(&tiles(&[0, 1, 2, 3, 4, 5, 9, 10, 11, 18, 19, 20, 27, 27, 28])));
}

#[test]
fn ron_needs_thirteen_tiles() {
    let east = Tile::new(27).unwrap();
    assert!(!can_win_by_ron(&tiles(&[0, 1, 2, 3, 4, 5, 9, 10, 11, 18, 19, 20]), east));
    assert!(!can_win_by_ron(&tiles(&[0, 1, 2, 3, 4, 5, 9, 10, 11, 18, 19, 20, 27, 27]), east));
    assert!(!can_win_by_ron(&tiles(&[]), east));
}

#[test]
fn ron_only_on_the_tile_that_completes() {
    let hand = tiles(&[0, 1, 2, 3, 4, 5, 9, 10, 11, 18, 19, 20, 27]);
    for id in 0..34u8 {
        assert_eq!(can_win_by_ron(&hand, Tile::new(id).unwrap()), id == 27);
    }
    // two-sided wait on 3 or 6 of a run 4-5
    let hand = tiles(&[3, 4, 9, 9, 9, 18, 19, 20, 27, 27, 27, 33, 33]);
    for id in 0..34u8 {
        assert_eq!(can_win_by_ron(&hand, Tile::new(id).unwrap()), id == 2 || id == 5);
    }
}

#[test]
fn seven_pairs_that_lie_apart_are_not_complete() {
    assert!(!can_win(&tiles(&[0, 0, 2, 2, 4, 4, 6, 6, 8, 8, 27, 27, 28, 28])));
    assert!(!can_win(&tiles(&[27, 27, 28, 28, 29, 29, 30, 30, 31, 31, 32, 32, 33, 33])));
    assert!(!can_win(&tiles(&[0, 0, 1, 1, 9, 9, 10, 10, 18, 18, 19, 19, 27, 27])));
}

#[test]
fn honors_form_no_sequence() {
    assert!(!can_win(&tiles(&[27, 28, 29, 30, 31, 32, 0, 1, 2, 3, 4, 5, 9, 9])));
    // ranks 8, 9 of one suit and rank 1 of the next are no sequence either
    assert!(!can_win(&tiles(&[7, 8, 9, 0, 1, 2, 3, 4, 5, 18, 19, 20, 27, 27])));
    assert!(!can_win(&tiles(&[16, 17, 18, 0, 1, 2, 3, 4, 5, 21, 22, 23, 27, 27])));
    assert!(can_win(&tiles(&[6, 7, 8, 0, 1, 2, 3, 4, 5, 24, 25, 26, 33, 33])));
}

#[test]
fn triplet_taken_first_must_not_hide_the_sequences() {
    // 1-1-1-2-3 with the pair 1-1 and the run 1-2-3
    assert!(can_win(&tiles(&[0, 0, 0, 1, 2, 9, 10, 11, 18, 19, 20, 27, 27, 27])));
    // four of rank 2: a triplet of them and the run 1-2-3
    assert!(can_win(&tiles(&[0, 1, 1, 1, 1, 2, 9, 10, 11, 18, 19, 20, 27, 27])));
    assert!(can_win(&tiles(&[0, 1, 2, 1, 1, 4, 5, 6, 18, 19, 20, 27, 27, 27])));
}

#[test]
fn can_form_melds_on_tables() {
    assert!(can_form_melds(&table(&[]), 0));
    assert!(!can_form_melds(&table(&[5]), 0));
    assert!(!can_form_melds(&table(&[]), 1));
    assert!(can_form_melds(&table(&[5, 5, 5]), 1));
    assert!(can_form_melds(&table(&[4, 5, 6]), 1));
    assert!(!can_form_melds(&table(&[4, 5, 6]), 2));
    assert!(!can_form_melds(&table(&[4, 5, 7]), 1));
    assert!(!can_form_melds(&table(&[27, 28, 29]), 1));
    assert!(!can_form_melds(&table(&[8, 9, 10]), 1));
    assert!(can_form_melds(&table(&[0, 0, 0, 1, 1, 1, 2, 2, 2]), 3));
    assert!(can_form_melds(&table(&[0, 1, 2, 0, 1, 2, 0, 1, 2, 33, 33, 33]), 4));
    assert!(!can_form_melds(&table(&[0, 1, 2, 0, 1, 2, 0, 1, 2, 33, 33, 32]), 4));
}
