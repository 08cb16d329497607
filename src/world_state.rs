use vstd::prelude::*;
use crate::tile::{cell_in_bounds, covered_cells, Tile, TilePlacement, SYMBOL};

verus! {

/// The tile currently in hand, with the list index it will be dropped at.
pub struct HeldTile {
    pub insertion: usize,
    pub tile: Tile,
    pub rotation: i32,
}

/// The board: placements in draw order (later ones on top) and the tile in
/// hand, if any.
pub struct WorldState {
    pub tiles: Vec<TilePlacement>,
    pub held_tile: Option<HeldTile>,
}

/// The discrete input edges of one frame. `primary` is the cell the pointer
/// resolved to when the primary button was pressed.
pub struct FrameInput {
    pub discard: bool,
    pub primary: Option<(i32, i32)>,
    pub rotate_cw: bool,
    pub rotate_ccw: bool,
    pub move_forward: bool,
    pub move_backward: bool,
}

/// One of the three 120-degree orientations.
pub open spec fn valid_rotation(r: i32) -> bool {
    0 <= r < 3
}

/// One clockwise step: 0 to 1 to 2 to 0.
pub open spec fn rotate_cw_spec(r: i32) -> i32 {
    if r == 0 {
        1
    } else if r == 1 {
        2
    } else {
        0
    }
}

/// One counter-clockwise step: 0 to 2 to 1 to 0.
pub open spec fn rotate_ccw_spec(r: i32) -> i32 {
    if r == 0 {
        2
    } else if r == 1 {
        0
    } else {
        1
    }
}

/// Whether placement `p` covers cell `c`.
pub open spec fn covers(p: TilePlacement, c: (i32, i32)) -> bool {
    covered_cells(p.x as int, p.y as int).contains((c.0 as int, c.1 as int))
}

/// Index of the last placement in `tiles` that covers `c`.
pub open spec fn last_cover(tiles: Seq<TilePlacement>, c: (i32, i32)) -> Option<int>
    decreases tiles.len(),
{
    if tiles.len() == 0 {
        None
    } else if covers(tiles.last(), c) {
        Some(tiles.len() - 1)
    } else {
        last_cover(tiles.drop_last(), c)
    }
}

/// The four cells of the deck, the footprint of a tile at the origin.
pub open spec fn is_deck_cell(c: (i32, i32)) -> bool {
    c == (0i32, 0i32) || c == (1i32, 0i32) || c == (-1i32, 0i32) || c == (0i32, -1i32)
}

/// Whether `c` is one of the deck's cells.
pub fn on_deck(c: (i32, i32)) -> (r: bool)
    ensures
        r == is_deck_cell(c),
{
    let (x, y) = c;
    (x == 0 && y == 0) || (x == 1 && y == 0) || (x == -1 && y == 0) || (x == 0 && y == -1)
}

/// The placement a held tile becomes when dropped at cell `c`.
pub open spec fn dropped_at(h: HeldTile, c: (i32, i32)) -> TilePlacement {
    TilePlacement { x: c.0, y: c.1, rotation: h.rotation, tile: h.tile }
}

/// Whether a primary press at `c` draws a fresh tile from the deck: the hand
/// is empty, no placement covers `c`, and `c` is a deck cell.
pub open spec fn draws_from_deck(
    tiles: Seq<TilePlacement>,
    held: Option<HeldTile>,
    c: (i32, i32),
) -> bool {
    held is None && last_cover(tiles, c) is None && is_deck_cell(c)
}

/// Board and hand after a primary press at `c`, except for a deck draw
/// (see `draws_from_deck`), where the drawn tile is random.
pub open spec fn press_result(
    tiles: Seq<TilePlacement>,
    held: Option<HeldTile>,
    c: (i32, i32),
) -> (Seq<TilePlacement>, Option<HeldTile>) {
    match held {
        Some(h) => (tiles.insert(h.insertion as int, dropped_at(h, c)), None),
        None => match last_cover(tiles, c) {
            Some(i) => (
                tiles.remove(i),
                Some(HeldTile { insertion: i as usize, tile: tiles[i].tile, rotation: tiles[i].rotation }),
            ),
            None => (tiles, None),
        },
    }
}

/// A symbol kind the deck deals; `PARENT` is kept for the seed tiles.
pub open spec fn is_dealt_symbol(s: SYMBOL) -> bool {
    s == SYMBOL::FRIEND || s == SYMBOL::COIN || s == SYMBOL::PURPOSE(0) || s == SYMBOL::ACHIEVEMENT
}

/// Every symbol on `t` is one the deck deals.
pub open spec fn only_dealt_symbols(t: Tile) -> bool {
    forall|i: int, j: int|
        0 <= i < 4 && 0 <= j < t.slot(i).len() ==> is_dealt_symbol(#[trigger] t.slot(i)[j])
}

/// A tile as the deck deals them: five symbols, at most two per slot, and
/// none of them `PARENT`.
pub open spec fn is_dealt_tile(t: Tile) -> bool {
    t.symbol_count() == 5 && t.within_cap() && only_dealt_symbols(t)
}

/// The held tile after this frame's rotate and move keys, in that order:
/// clockwise, counter-clockwise, forward, backward.
pub open spec fn apply_keys(h: HeldTile, len: nat, input: FrameInput) -> HeldTile {
    let r1 = if input.rotate_cw { rotate_cw_spec(h.rotation) } else { h.rotation };
    let r2 = if input.rotate_ccw { rotate_ccw_spec(r1) } else { r1 };
    let i1: int = if input.move_forward && h.insertion < len { h.insertion + 1 } else { h.insertion as int };
    let i2: int = if input.move_backward && i1 > 0 { i1 - 1 } else { i1 };
    HeldTile { insertion: i2 as usize, tile: h.tile, rotation: r2 }
}

/// The hand after this frame's keys, if a tile is in it.
pub open spec fn keys_result(held: Option<HeldTile>, len: nat, input: FrameInput) -> Option<HeldTile> {
    match held {
        Some(h) => Some(apply_keys(h, len, input)),
        None => None,
    }
}

/// The seed tile: a parent in the center and a coin in each corner.
pub open spec fn is_parent_tile(t: Tile) -> bool {
    &&& t.center@ == seq![SYMBOL::PARENT]
    &&& t.top@ == seq![SYMBOL::COIN]
    &&& t.bottom_left@ == seq![SYMBOL::COIN]
    &&& t.bottom_right@ == seq![SYMBOL::COIN]
}

/// Builds the seed tile.
pub fn parent_tile() -> (t: Tile)
    ensures
        is_parent_tile(t),
{
    let t = Tile {
        top: vec![SYMBOL::COIN],
        bottom_left: vec![SYMBOL::COIN],
        bottom_right: vec![SYMBOL::COIN],
        center: vec![SYMBOL::PARENT],
    };
    assert(t.center@ =~= seq![SYMBOL::PARENT]);
    assert(t.top@ =~= seq![SYMBOL::COIN]);
    assert(t.bottom_left@ =~= seq![SYMBOL::COIN]);
    assert(t.bottom_right@ =~= seq![SYMBOL::COIN]);
    t
}

impl HeldTile {
    /// A valid rotation, and a drop index within a list of `len` placements.
    pub open spec fn wf(self, len: nat) -> bool {
        self.insertion <= len && valid_rotation(self.rotation)
    }

    /// Turns the held tile one step clockwise.
    pub fn rotate_cw(&mut self)
        requires
            valid_rotation(old(self).rotation),
        ensures
            final(self).rotation == rotate_cw_spec(old(self).rotation),
            final(self).insertion == old(self).insertion,
            final(self).tile == old(self).tile,
    {
        self.rotation = if self.rotation == 0 {
            1
        } else if self.rotation == 1 {
            2
        } else {
            0
        };
    }

    /// Turns the held tile one step counter-clockwise.
    pub fn rotate_ccw(&mut self)
        requires
            valid_rotation(old(self).rotation),
        ensures
            final(self).rotation == rotate_ccw_spec(old(self).rotation),
            final(self).insertion == old(self).insertion,
            final(self).tile == old(self).tile,
    {
        self.rotation = if self.rotation == 0 {
            2
        } else if self.rotation == 1 {
            0
        } else {
            1
        };
    }

    /// Raises the drop index by one, unless it is already at `len`.
    pub fn move_forward(&mut self, len: usize)
        ensures
            final(self).insertion == if old(self).insertion < len {
                old(self).insertion + 1
            } else {
                old(self).insertion as int
            },
            final(self).rotation == old(self).rotation,
            final(self).tile == old(self).tile,
    {
        if self.insertion < len {
            self.insertion = self.insertion + 1;
        }
    }

    /// Lowers the drop index by one, unless it is already zero.
    pub fn move_backward(&mut self)
        ensures
            final(self).insertion == if old(self).insertion > 0 {
                old(self).insertion - 1
            } else {
                0int
            },
            final(self).rotation == old(self).rotation,
            final(self).tile == old(self).tile,
    {
        if self.insertion > 0 {
            self.insertion = self.insertion - 1;
        }
    }
}

/// Relies on rand::random_range: a value drawn from the thread-local
/// generator, within `0..n`; it panics on an empty range, hence `n > 0`.
#[verifier::external_body]
fn random_below(n: u32) -> (r: u32)
    requires
        n > 0,
    ensures
        r < n,
{
    rand::random_range(0..n)
}

/// The symbol a roll in `0..4` stands for.
pub open spec fn symbol_of_roll_spec(roll: u32) -> SYMBOL {
    if roll == 0 {
        SYMBOL::FRIEND
    } else if roll == 1 {
        SYMBOL::COIN
    } else if roll == 2 {
        SYMBOL::PURPOSE(0)
    } else {
        SYMBOL::ACHIEVEMENT
    }
}

/// The symbol a roll in `0..4` stands for; every one of them can be dealt.
pub fn symbol_of_roll(roll: u32) -> (s: SYMBOL)
    requires
        roll < 4,
    ensures
        s == symbol_of_roll_spec(roll),
        is_dealt_symbol(s),
{
    if roll == 0 {
        SYMBOL::FRIEND
    } else if roll == 1 {
        SYMBOL::COIN
    } else if roll == 2 {
        SYMBOL::PURPOSE(0)
    } else {
        SYMBOL::ACHIEVEMENT
    }
}

/// Number of slots of `t` with room for another symbol.
pub open spec fn open_slot_count(t: Tile) -> nat {
    (if t.slot(0).len() < 2 { 1nat } else { 0 }) + (if t.slot(1).len() < 2 { 1nat } else { 0 }) + (
    if t.slot(2).len() < 2 { 1nat } else { 0 }) + (if t.slot(3).len() < 2 { 1nat } else { 0 })
}

/// Slot `i` of `t` can take another symbol.
pub open spec fn has_room(t: Tile, i: int) -> bool {
    t.slot(i).len() < 2
}

/// Index of the `k`-th slot (counting from zero, in slot order) with room
/// for another symbol.
pub open spec fn open_slot_index(t: Tile, k: int) -> int {
    let p1: int = if has_room(t, 0) { 1 } else { 0 };
    let p2: int = p1 + if has_room(t, 1) { 1int } else { 0 };
    let p3: int = p2 + if has_room(t, 2) { 1int } else { 0 };
    if has_room(t, 0) && k == 0 {
        0
    } else if has_room(t, 1) && k == p1 {
        1
    } else if has_room(t, 2) && k == p2 {
        2
    } else {
        3
    }
}

/// Number of slots of `t` with room for another symbol.
pub fn open_slots(t: &Tile) -> (n: u32)
    requires
        t.within_cap(),
    ensures
        n == open_slot_count(*t),
{
    let c0: u32 = if t.slot_len(0) < 2 { 1 } else { 0 };
    let c1: u32 = if t.slot_len(1) < 2 { 1 } else { 0 };
    let c2: u32 = if t.slot_len(2) < 2 { 1 } else { 0 };
    let c3: u32 = if t.slot_len(3) < 2 { 1 } else { 0 };
    c0 + c1 + c2 + c3
}

/// Adds one dealt symbol to `tile`: the kind that `symbol_roll` stands for,
/// in the `slot_roll`-th slot (in slot order) that has room.
pub fn place_rolled(tile: &mut Tile, symbol_roll: u32, slot_roll: u32)
    requires
        symbol_roll < 4,
        slot_roll < open_slot_count(*old(tile)),
    ensures
        ({
            let s = open_slot_index(*old(tile), slot_roll as int);
            &&& 0 <= s < 4
            &&& has_room(*old(tile), s)
            &&& forall|i: int|
                0 <= i < 4 ==> #[trigger] final(tile).slot(i) == if i == s {
                    old(tile).slot(i).push(symbol_of_roll_spec(symbol_roll))
                } else {
                    old(tile).slot(i)
                }
        }),
{
    let symbol = symbol_of_roll(symbol_roll);
    let r0 = tile.slot_len(0) < 2;
    let r1 = tile.slot_len(1) < 2;
    let r2 = tile.slot_len(2) < 2;
    let p1: u32 = if r0 { 1 } else { 0 };
    let p2: u32 = p1 + if r1 { 1 } else { 0 };
    let slot: u8 = if r0 && slot_roll == 0 {
        0
    } else if r1 && slot_roll == p1 {
        1
    } else if r2 && slot_roll == p2 {
        2
    } else {
        3
    };
    tile.push_symbol(slot, symbol);
}

/// Deals a random tile: five symbols, each of a kind drawn uniformly from
/// `FRIEND`, `COIN`, `PURPOSE(0)` and `ACHIEVEMENT`, each put into a slot
/// drawn uniformly from those with room. Drawing a slot and drawing again
/// while it is full gives the same distribution; this form always ends.
pub fn random_tile() -> (t: Tile)
    ensures
        is_dealt_tile(t),
{
    let mut tile = Tile::empty();
    let mut n: usize = 0;
    while n < 5
        invariant
            n <= 5,
            tile.symbol_count() == n,
            tile.within_cap(),
            only_dealt_symbols(tile),
        decreases 5 - n,
    {
        let symbol_roll = random_below(4);
        assert(tile.slot(0).len() <= 2 && tile.slot(1).len() <= 2 && tile.slot(2).len() <= 2
            && tile.slot(3).len() <= 2);
        let open = open_slots(&tile);
        let slot_roll = random_below(open);
        let ghost before = tile;
        place_rolled(&mut tile, symbol_roll, slot_roll);
        n = n + 1;
        let ghost s = open_slot_index(before, slot_roll as int);
        assert(tile.slot(0) == before.slot(0) || tile.slot(0) == before.slot(0).push(symbol_of_roll_spec(symbol_roll)));
        assert(tile.slot(1) == before.slot(1) || tile.slot(1) == before.slot(1).push(symbol_of_roll_spec(symbol_roll)));
        assert(tile.slot(2) == before.slot(2) || tile.slot(2) == before.slot(2).push(symbol_of_roll_spec(symbol_roll)));
        assert(tile.slot(3) == before.slot(3) || tile.slot(3) == before.slot(3).push(symbol_of_roll_spec(symbol_roll)));
        assert forall|i: int, j: int|
            0 <= i < 4 && 0 <= j < tile.slot(i).len() implies is_dealt_symbol(
                #[trigger] tile.slot(i)[j],
            ) by {
            if j < before.slot(i).len() {
                assert(tile.slot(i)[j] == before.slot(i)[j]);
            }
        }
    }
    tile
}

/// Whether placement `p` covers cell `c`.
fn covers_cell(p: &TilePlacement, c: (i32, i32)) -> (r: bool)
    requires
        cell_in_bounds(p.x as int, p.y as int),
    ensures
        r == covers(*p, c),
{
    let cells = p.covered_positions();
    let ghost want = (c.0 as int, c.1 as int);
    let ghost cc = covered_cells(p.x as int, p.y as int);
    let mut k: usize = 0;
    while k < 4
        invariant
            k <= 4,
            cc == covered_cells(p.x as int, p.y as int),
            want == (c.0 as int, c.1 as int),
            forall|m: int| 0 <= m < k ==> cc[m] != want,
            forall|m: int|
                0 <= m < 4 ==> (#[trigger] cells@[m].0 as int, cells@[m].1 as int) == cc[m],
        decreases 4 - k,
    {
        let here = cells[k];
        assert(here == cells@[k as int]);
        if here.0 == c.0 && here.1 == c.1 {
            assert((cells@[k as int].0 as int, cells@[k as int].1 as int) == cc[k as int]);
            assert(cc[k as int] == want);
            return true;
        }
        k = k + 1;
    }
    assert(!cc.contains(want)) by {
        if cc.contains(want) {
            let m = choose|m: int| 0 <= m < cc.len() && cc[m] == want;
        }
    }
    false
}

/// The index `last_cover` gives is in range, and that placement covers `c`.
pub proof fn lemma_last_cover_is_cover(tiles: Seq<TilePlacement>, c: (i32, i32))
    ensures
        last_cover(tiles, c) matches Some(i) ==> 0 <= i < tiles.len() && covers(tiles[i], c),
        last_cover(tiles, c) is None ==> forall|j: int| 0 <= j < tiles.len() ==> !covers(#[trigger] tiles[j], c),
    decreases tiles.len(),
{
    if tiles.len() > 0 && !covers(tiles.last(), c) {
        lemma_last_cover_is_cover(tiles.drop_last(), c);
        assert forall|j: int| 0 <= j < tiles.len() - 1 implies tiles[j] == #[trigger] tiles.drop_last()[j] by {}
        if last_cover(tiles, c) is None {
            assert forall|j: int| 0 <= j < tiles.len() implies !covers(#[trigger] tiles[j], c) by {
                if j < tiles.len() - 1 {
                    assert(tiles[j] == tiles.drop_last()[j]);
                }
            }
        }
    }
}

impl WorldState {
    /// Rotations are valid, every placement sits where its neighbours have
    /// `i32` coordinates, and the held tile's drop index is within the list.
    pub open spec fn wf(self) -> bool {
        &&& forall|i: int|
            0 <= i < self.tiles@.len() ==> valid_rotation(#[trigger] self.tiles@[i].rotation)
                && cell_in_bounds(self.tiles@[i].x as int, self.tiles@[i].y as int)
        &&& match self.held_tile {
            Some(h) => h.wf(self.tiles@.len()),
            None => true,
        }
    }

    /// Index of the last placement covering `c`: the one on top.
    pub fn top_placement_at(&self, c: (i32, i32)) -> (r: Option<usize>)
        requires
            self.wf(),
        ensures
            match r {
                Some(i) => last_cover(self.tiles@, c) == Some(i as int),
                None => last_cover(self.tiles@, c) is None,
            },
    {
        let mut found: Option<usize> = None;
        let mut i: usize = 0;
        while i < self.tiles.len()
            invariant
                self.wf(),
                i <= self.tiles@.len(),
                match found {
                    Some(k) => last_cover(self.tiles@.take(i as int), c) == Some(k as int),
                    None => last_cover(self.tiles@.take(i as int), c) is None,
                },
            decreases self.tiles@.len() - i,
        {
            assert(valid_rotation(self.tiles@[i as int].rotation));
            let hit = covers_cell(&self.tiles[i], c);
            assert(self.tiles@.take(i + 1).drop_last() =~= self.tiles@.take(i as int));
            assert(self.tiles@.take(i + 1).last() == self.tiles@[i as int]);
            if hit {
                found = Some(i);
            }
            i = i + 1;
        }
        assert(self.tiles@.take(i as int) =~= self.tiles@);
        found
    }

    /// Puts `tile` in hand, freshly drawn from the deck: it will be dropped on
    /// top of every placement, unrotated.
    pub fn draw_from_deck(&mut self, tile: Tile)
        requires
            old(self).wf(),
            old(self).held_tile is None,
        ensures
            final(self).wf(),
            final(self).tiles@ == old(self).tiles@,
            final(self).held_tile matches Some(h) && h.insertion == old(self).tiles@.len()
                && h.tile == tile && h.rotation == 0,
    {
        self.held_tile = Some(HeldTile { insertion: self.tiles.len(), tile, rotation: 0 });
    }

    /// A primary press at cell `cell`. Holding a tile drops it there at its
    /// drop index. Otherwise the topmost placement covering `cell` is picked
    /// up; failing that, a press on the deck deals a random tile into hand.
    pub fn press_primary(&mut self, cell: (i32, i32))
        requires
            old(self).wf(),
            old(self).held_tile is Some ==> cell_in_bounds(cell.0 as int, cell.1 as int),
        ensures
            final(self).wf(),
            draws_from_deck(old(self).tiles@, old(self).held_tile, cell) ==> {
                &&& final(self).tiles@ == old(self).tiles@
                &&& final(self).held_tile matches Some(h)
                &&& h.insertion == old(self).tiles@.len()
                &&& h.rotation == 0
                &&& is_dealt_tile(h.tile)
            },
            !draws_from_deck(old(self).tiles@, old(self).held_tile, cell) ==> (
            final(self).tiles@, final(self).held_tile) == press_result(
                old(self).tiles@,
                old(self).held_tile,
                cell,
            ),
    {
        let mut held: Option<HeldTile> = None;
        std::mem::swap(&mut held, &mut self.held_tile);
        match held {
            Some(h) => {
                let ghost before = self.tiles@;
                let ghost at = h.insertion as int;
                let placement = TilePlacement { x: cell.0, y: cell.1, rotation: h.rotation, tile: h.tile };
                self.tiles.insert(h.insertion, placement);
                assert forall|j: int| 0 <= j < self.tiles@.len() implies valid_rotation(
                    #[trigger] self.tiles@[j].rotation,
                ) && cell_in_bounds(self.tiles@[j].x as int, self.tiles@[j].y as int) by {
                    if j != at {
                        let k = if j < at { j } else { j - 1 };
                        assert(self.tiles@[j] == before[k]);
                        assert(valid_rotation(before[k].rotation));
                    }
                }
            },
            None => {
                match self.top_placement_at(cell) {
                    Some(i) => {
                        proof {
                            lemma_last_cover_is_cover(self.tiles@, cell);
                        }
                        let ghost before = self.tiles@;
                        let picked = self.tiles.remove(i);
                        self.held_tile = Some(
                            HeldTile { insertion: i, tile: picked.tile, rotation: picked.rotation },
                        );
                        assert forall|j: int| 0 <= j < self.tiles@.len() implies valid_rotation(
                            #[trigger] self.tiles@[j].rotation,
                        ) && cell_in_bounds(self.tiles@[j].x as int, self.tiles@[j].y as int) by {
                            let k = if j < i { j } else { j + 1 };
                            assert(self.tiles@[j] == before[k]);
                            assert(valid_rotation(before[k].rotation));
                        }
                    },
                    None => {
                        if on_deck(cell) {
                            self.draw_from_deck(random_tile());
                        }
                    },
                }
            },
        }
    }

    /// The starting board: two parent tiles at `(-1, -7)` and `(1, -7)`,
    /// unrotated, and an empty hand.
    pub fn new() -> (w: WorldState)
        ensures
            w.wf(),
            w.held_tile is None,
            w.tiles@.len() == 2,
            w.tiles@[0].x == -1 && w.tiles@[0].y == -7 && w.tiles@[0].rotation == 0,
            w.tiles@[1].x == 1 && w.tiles@[1].y == -7 && w.tiles@[1].rotation == 0,
            is_parent_tile(w.tiles@[0].tile),
            is_parent_tile(w.tiles@[1].tile),
    {
        let left = TilePlacement { x: -1, y: -7, rotation: 0, tile: parent_tile() };
        let right = TilePlacement { x: 1, y: -7, rotation: 0, tile: parent_tile() };
        let mut tiles: Vec<TilePlacement> = Vec::new();
        tiles.push(left);
        tiles.push(right);
        WorldState { tiles, held_tile: None }
    }

    /// Applies one frame's input edges in order: discard, primary press,
    /// then the rotate and move keys on whatever tile is in hand afterwards.
    pub fn update_held_tile(&mut self, input: &FrameInput)
        requires
            old(self).wf(),
            input.primary matches Some(c) ==> (old(self).held_tile is Some && !input.discard)
                ==> cell_in_bounds(c.0 as int, c.1 as int),
        ensures
            final(self).wf(),
            ({
                let held0 = if input.discard { None } else { old(self).held_tile };
                let len0 = old(self).tiles@.len();
                match input.primary {
                    None => final(self).tiles@ == old(self).tiles@ && final(self).held_tile
                        == keys_result(held0, len0, *input),
                    Some(c) => if draws_from_deck(old(self).tiles@, held0, c) {
                        &&& final(self).tiles@ == old(self).tiles@
                        &&& final(self).held_tile matches Some(h)
                        &&& is_dealt_tile(h.tile)
                        &&& h == apply_keys(
                            HeldTile { insertion: len0 as usize, tile: h.tile, rotation: 0 },
                            len0,
                            *input,
                        )
                    } else {
                        let (t1, h1) = press_result(old(self).tiles@, held0, c);
                        final(self).tiles@ == t1 && final(self).held_tile == keys_result(
                            h1,
                            t1.len(),
                            *input,
                        )
                    },
                }
            }),
    {
        if input.discard {
            self.discard_held();
        }
        match input.primary {
            Some(c) => self.press_primary(c),
            None => {},
        }
        let mut held: Option<HeldTile> = None;
        std::mem::swap(&mut held, &mut self.held_tile);
        match held {
            Some(h) => {
                let mut h = h;
                if input.rotate_cw {
                    h.rotate_cw();
                }
                if input.rotate_ccw {
                    h.rotate_ccw();
                }
                if input.move_forward {
                    h.move_forward(self.tiles.len());
                }
                if input.move_backward {
                    h.move_backward();
                }
                self.held_tile = Some(h);
            },
            None => {},
        }
    }

    /// Throws the held tile away; it does not go back to the deck.
    pub fn discard_held(&mut self)
        requires
            old(self).wf(),
        ensures
            final(self).wf(),
            final(self).tiles@ == old(self).tiles@,
            final(self).held_tile is None,
    {
        self.held_tile = None;
    }
}

/// Three clockwise turns bring a tile back to where it was, and a
/// counter-clockwise turn undoes a clockwise one (and the other way round).
pub proof fn lemma_rotation_cycle(r: i32)
    requires
        valid_rotation(r),
    ensures
        rotate_cw_spec(rotate_cw_spec(rotate_cw_spec(r))) == r,
        rotate_ccw_spec(rotate_cw_spec(r)) == r,
        rotate_cw_spec(rotate_ccw_spec(r)) == r,
        valid_rotation(rotate_cw_spec(r)),
        valid_rotation(rotate_ccw_spec(r)),
{
}

/// Picking up the placement on top at a cell and dropping it straight back
/// at its own cell, unrotated, restores the board exactly, at the same index.
pub proof fn lemma_pick_up_then_drop(tiles: Seq<TilePlacement>, c: (i32, i32))
    requires
        tiles.len() <= usize::MAX,
        last_cover(tiles, c) is Some,
    ensures
        ({
            let i = last_cover(tiles, c)->0;
            let (t1, h1) = press_result(tiles, None, c);
            &&& h1 matches Some(h) && h.insertion == i
            &&& press_result(t1, h1, (tiles[i].x, tiles[i].y)) == (tiles, None::<HeldTile>)
        }),
{
    lemma_last_cover_is_cover(tiles, c);
    let i = last_cover(tiles, c)->0;
    let p = tiles[i];
    let (t1, h1) = press_result(tiles, None, c);
    let h = h1->0;
    assert(dropped_at(h, (p.x, p.y)) == p);
    assert(t1.insert(i, p) =~= tiles);
}

/// Moving the drop index forward or backward by any sequence of key
/// presses (`true` forward, `false` backward) on a list of `len` placements.
pub open spec fn apply_moves(insertion: nat, len: nat, moves: Seq<bool>) -> nat
    decreases moves.len(),
{
    if moves.len() == 0 {
        insertion
    } else {
        let next: nat = if moves[0] {
            if insertion < len { insertion + 1 } else { insertion }
        } else {
            if insertion > 0 { (insertion - 1) as nat } else { 0 }
        };
        apply_moves(next, len, moves.drop_first())
    }
}

/// However the drop index is moved, it stays within `0..=len`.
pub proof fn lemma_moves_keep_insertion_in_range(insertion: nat, len: nat, moves: Seq<bool>)
    requires
        insertion <= len,
    ensures
        apply_moves(insertion, len, moves) <= len,
    decreases moves.len(),
{
    if moves.len() > 0 {
        let next: nat = if moves[0] {
            if insertion < len { insertion + 1 } else { insertion }
        } else {
            if insertion > 0 { (insertion - 1) as nat } else { 0 }
        };
        lemma_moves_keep_insertion_in_range(next, len, moves.drop_first());
    }
}

} // verus!
