use lagom::tile::{Tile, TilePlacement, SYMBOL};
use lagom::world_state::{
    on_deck, open_slots, parent_tile, place_rolled, random_tile, symbol_of_roll, FrameInput, HeldTile, WorldState,
};

fn quiet() -> FrameInput {
    FrameInput {
        discard: false,
        primary: None,
        rotate_cw: false,
        rotate_ccw: false,
        move_forward: false,
        move_backward: false,
    }
}

fn coin_tile() -> Tile {
    Tile {
        top: vec![SYMBOL::COIN],
        bottom_left: vec![],
        bottom_right: vec![],
        center: vec![],
    }
}

fn friend_tile() -> Tile {
    Tile {
        top: vec![],
        bottom_left: vec![],
        bottom_right: vec![],
        center: vec![SYMBOL::FRIEND],
    }
}

fn placement(x: i32, y: i32, rotation: i32, tile: Tile) -> TilePlacement {
    TilePlacement { x, y, rotation, tile }
}

fn symbol_count(t: &Tile) -> usize {
    t.top.len() + t.bottom_left.len() + t.bottom_right.len() + t.center.len()
}

#[test]
fn starting_world_has_two_parent_tiles() {
    let w = WorldState::new();
    assert!(w.held_tile.is_none());
    assert_eq!(w.tiles.len(), 2);
    assert_eq!(w.tiles[0], placement(-1, -7, 0, parent_tile()));
    assert_eq!(w.tiles[1], placement(1, -7, 0, parent_tile()));
    let p = parent_tile();
    assert_eq!(p.center, vec![SYMBOL::PARENT]);
    assert_eq!(p.top, vec![SYMBOL::COIN]);
    assert_eq!(p.bottom_left, vec![SYMBOL::COIN]);
    assert_eq!(p.bottom_right, vec![SYMBOL::COIN]);
}

#[test]
fn deck_draw_then_drop_appends_third_tile() {
    let mut w = WorldState::new();
    w.press_primary((0, 0));
    let held = w.held_tile.as_ref().expect("a tile is drawn from the deck");
    assert_eq!(held.insertion, 2);
    assert_eq!(held.rotation, 0);
    assert_eq!(symbol_count(&held.tile), 5);
    let drawn = held.tile.clone();
    w.press_primary((5, 5));
    assert!(w.held_tile.is_none());
    assert_eq!(w.tiles.len(), 3);
    assert_eq!(w.tiles[2], placement(5, 5, 0, drawn));
}

#[test]
fn every_deck_cell_draws() {
    for c in [(0, 0), (1, 0), (-1, 0), (0, -1)] {
        let mut w = WorldState::new();
        w.press_primary(c);
        assert!(w.held_tile.is_some());
        assert_eq!(w.tiles.len(), 2);
    }
}

#[test]
fn click_on_empty_cell_does_nothing() {
    let mut w = WorldState::new();
    w.press_primary((10, 10));
    assert!(w.held_tile.is_none());
    assert_eq!(w.tiles.len(), 2);
    assert!(!on_deck((10, 10)));
    assert!(!on_deck((0, 1)));
    assert!(on_deck((0, -1)));
}

#[test]
fn rotate_cw_twice_then_ccw_once() {
    let mut h = HeldTile { insertion: 0, tile: coin_tile(), rotation: 0 };
    h.rotate_cw();
    assert_eq!(h.rotation, 1);
    h.rotate_cw();
    assert_eq!(h.rotation, 2);
    h.rotate_ccw();
    assert_eq!(h.rotation, 1);
}

#[test]
fn rotate_keys_through_frames() {
    let mut w = WorldState::new();
    w.press_primary((0, 0));
    let mut cw = quiet();
    cw.rotate_cw = true;
    let mut ccw = quiet();
    ccw.rotate_ccw = true;
    w.update_held_tile(&cw);
    w.update_held_tile(&cw);
    w.update_held_tile(&ccw);
    assert_eq!(w.held_tile.as_ref().unwrap().rotation, 1);
}

#[test]
fn rotation_cycles() {
    for r in 0..3 {
        let mut h = HeldTile { insertion: 0, tile: coin_tile(), rotation: r };
        h.rotate_cw();
        h.rotate_cw();
        h.rotate_cw();
        assert_eq!(h.rotation, r);
        h.rotate_cw();
        h.rotate_ccw();
        assert_eq!(h.rotation, r);
        h.rotate_ccw();
        h.rotate_cw();
        assert_eq!(h.rotation, r);
    }
}

#[test]
fn overlapping_click_picks_later_tile() {
    let mut w = WorldState::new();
    w.tiles = vec![placement(4, 4, 0, coin_tile()), placement(5, 4, 2, friend_tile())];
    // (4, 4) is covered by both: by the first as its own cell, by the second
    // as its left neighbour.
    w.press_primary((4, 4));
    let held = w.held_tile.as_ref().unwrap();
    assert_eq!(held.insertion, 1);
    assert_eq!(held.rotation, 2);
    assert_eq!(held.tile, friend_tile());
    assert_eq!(w.tiles, vec![placement(4, 4, 0, coin_tile())]);
}

#[test]
fn pick_up_then_drop_restores_board() {
    let mut w = WorldState::new();
    w.tiles = vec![
        placement(4, 4, 0, coin_tile()),
        placement(8, 2, 1, friend_tile()),
        placement(-3, 6, 2, parent_tile()),
    ];
    let before = w.tiles.clone();
    // (9, 2) is the right neighbour of the second placement.
    w.press_primary((9, 2));
    assert_eq!(w.held_tile.as_ref().unwrap().insertion, 1);
    assert_eq!(w.tiles.len(), 2);
    w.press_primary((8, 2));
    assert!(w.held_tile.is_none());
    assert_eq!(w.tiles, before);
}

#[test]
fn discard_loses_the_tile() {
    let mut w = WorldState::new();
    w.press_primary((-1, -7));
    assert!(w.held_tile.is_some());
    assert_eq!(w.tiles.len(), 1);
    let mut input = quiet();
    input.discard = true;
    w.update_held_tile(&input);
    assert!(w.held_tile.is_none());
    assert_eq!(w.tiles.len(), 1);
}

#[test]
fn insertion_stays_in_range() {
    let mut w = WorldState::new();
    w.press_primary((0, 0));
    let mut up = quiet();
    up.move_forward = true;
    let mut down = quiet();
    down.move_backward = true;
    for _ in 0..5 {
        w.update_held_tile(&up);
        assert!(w.held_tile.as_ref().unwrap().insertion <= w.tiles.len());
    }
    assert_eq!(w.held_tile.as_ref().unwrap().insertion, 2);
    for _ in 0..5 {
        w.update_held_tile(&down);
    }
    assert_eq!(w.held_tile.as_ref().unwrap().insertion, 0);
    w.update_held_tile(&up);
    assert_eq!(w.held_tile.as_ref().unwrap().insertion, 1);
    let mut click = quiet();
    click.primary = Some((7, 7));
    w.update_held_tile(&click);
    assert_eq!(w.tiles.len(), 3);
    assert_eq!(w.tiles[1].x, 7);
    assert_eq!(w.tiles[1].y, 7);
}

#[test]
fn held_tile_moves_clamp_at_ends() {
    let mut h = HeldTile { insertion: 0, tile: coin_tile(), rotation: 0 };
    h.move_backward();
    assert_eq!(h.insertion, 0);
    h.move_forward(1);
    assert_eq!(h.insertion, 1);
    h.move_forward(1);
    assert_eq!(h.insertion, 1);
}

#[test]
fn pick_up_and_rotate_in_one_frame() {
    let mut w = WorldState::new();
    let mut input = quiet();
    input.primary = Some((1, -7));
    input.rotate_ccw = true;
    w.update_held_tile(&input);
    let held = w.held_tile.as_ref().unwrap();
    assert_eq!(held.insertion, 1);
    assert_eq!(held.rotation, 2);
    assert_eq!(w.tiles.len(), 1);
}

#[test]
fn random_tiles_have_five_dealt_symbols() {
    for _ in 0..500 {
        let t = random_tile();
        assert_eq!(symbol_count(&t), 5);
        for slot in [&t.top, &t.bottom_left, &t.bottom_right, &t.center] {
            assert!(slot.len() <= 2);
            for s in slot.iter() {
                assert!(matches!(
                    s,
                    SYMBOL::FRIEND | SYMBOL::COIN | SYMBOL::PURPOSE(0) | SYMBOL::ACHIEVEMENT
                ));
            }
        }
    }
}

#[test]
fn random_tiles_use_every_kind_and_slot() {
    let mut kinds = [false; 4];
    let mut slots = [false; 4];
    for _ in 0..500 {
        let t = random_tile();
        for (i, slot) in [&t.center, &t.top, &t.bottom_right, &t.bottom_left].iter().enumerate() {
            if !slot.is_empty() {
                slots[i] = true;
            }
            for s in slot.iter() {
                let k = match s {
                    SYMBOL::FRIEND => 0,
                    SYMBOL::COIN => 1,
                    SYMBOL::PURPOSE(_) => 2,
                    _ => 3,
                };
                kinds[k] = true;
            }
        }
    }
    assert_eq!(kinds, [true; 4]);
    assert_eq!(slots, [true; 4]);
}

#[test]
fn rolls_map_to_symbols() {
    assert_eq!(symbol_of_roll(0), SYMBOL::FRIEND);
    assert_eq!(symbol_of_roll(1), SYMBOL::COIN);
    assert_eq!(symbol_of_roll(2), SYMBOL::PURPOSE(0));
    assert_eq!(symbol_of_roll(3), SYMBOL::ACHIEVEMENT);
}

#[test]
fn rolled_symbol_goes_to_nth_open_slot() {
    let mut t = Tile::empty();
    assert_eq!(open_slots(&t), 4);
    // Slot order: center, top, bottom right, bottom left.
    place_rolled(&mut t, 1, 2);
    assert_eq!(t.bottom_right, vec![SYMBOL::COIN]);
    place_rolled(&mut t, 0, 2);
    assert_eq!(t.bottom_right, vec![SYMBOL::COIN, SYMBOL::FRIEND]);
    assert_eq!(open_slots(&t), 3);
    // With bottom right full, the third open slot is bottom left.
    place_rolled(&mut t, 2, 2);
    assert_eq!(t.bottom_left, vec![SYMBOL::PURPOSE(0)]);
    place_rolled(&mut t, 3, 0);
    assert_eq!(t.center, vec![SYMBOL::ACHIEVEMENT]);
    place_rolled(&mut t, 3, 0);
    assert_eq!(t.center, vec![SYMBOL::ACHIEVEMENT, SYMBOL::ACHIEVEMENT]);
    // Center full too: open slots are top and bottom left.
    assert_eq!(open_slots(&t), 2);
    place_rolled(&mut t, 1, 0);
    assert_eq!(t.top, vec![SYMBOL::COIN]);
    assert_eq!(symbol_count(&t), 6);
}
