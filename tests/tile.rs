use lagom::tile::{Tile, TilePlacement, SYMBOL};

fn at(x: i32, y: i32, rotation: i32) -> TilePlacement {
    TilePlacement { x, y, rotation, tile: Tile::empty() }
}

#[test]
fn placement_covers_own_cell() {
    for (x, y) in [(0, 0), (3, 4), (-5, 2), (7, -7), (-1, -1)] {
        assert!(at(x, y, 0).covered_positions().contains(&(x, y)));
    }
}

#[test]
fn flip_parity_follows_coordinate_sum() {
    assert!(!at(0, 0, 0).tile_is_flipped());
    assert!(at(1, 0, 0).tile_is_flipped());
    assert!(at(-1, 0, 0).tile_is_flipped());
    assert!(at(-3, 0, 0).tile_is_flipped());
    assert!(!at(-4, 2, 0).tile_is_flipped());
    for (x, y) in [(0, 0), (3, 4), (-5, 2), (7, -8), (-1, -1)] {
        assert_eq!(at(x, y, 0).tile_is_flipped(), at(x + 2, y, 0).tile_is_flipped());
        assert_ne!(at(x, y, 0).tile_is_flipped(), at(x + 1, y, 0).tile_is_flipped());
    }
}

#[test]
fn flip_parity_at_extremes() {
    assert!(!at(i32::MAX, i32::MAX, 0).tile_is_flipped());
    assert!(at(i32::MIN, i32::MAX, 0).tile_is_flipped());
    assert!(!at(i32::MIN, i32::MIN, 0).tile_is_flipped());
}

#[test]
fn covered_positions_of_upright_and_flipped() {
    assert_eq!(at(0, 0, 0).covered_positions(), [(0, 0), (0, -1), (1, 0), (-1, 0)]);
    assert_eq!(at(2, 3, 1).covered_positions(), [(2, 3), (2, 4), (3, 3), (1, 3)]);
}

#[test]
fn tile_slots() {
    let mut t = Tile::empty();
    assert_eq!(t.slot_len(0), 0);
    t.push_symbol(0, SYMBOL::COIN);
    t.push_symbol(2, SYMBOL::FRIEND);
    t.push_symbol(2, SYMBOL::PURPOSE(3));
    assert_eq!(t.center, vec![SYMBOL::COIN]);
    assert_eq!(t.bottom_right, vec![SYMBOL::FRIEND, SYMBOL::PURPOSE(3)]);
    assert!(t.top.is_empty() && t.bottom_left.is_empty());
    assert_eq!(t.slot_len(2), 2);
    assert_eq!(t.slot_len(1), 0);
    assert_ne!(t, Tile::default());
}
