use vstd::prelude::*;

verus! {

/// An icon kind that can sit in a tile slot.
#[allow(non_camel_case_types)]
#[derive(Copy, Clone, Debug, PartialEq, Eq, Hash, Structural)]
pub enum SYMBOL {
    FRIEND,
    COIN,
    PURPOSE(u8),
    ACHIEVEMENT,
    PARENT,
}

/// A tile with four icon slots; each slot holds at most two symbols by
/// construction policy.
#[derive(Clone, Debug, PartialEq, Eq, Hash, Default)]
pub struct Tile {
    pub top: Vec<SYMBOL>,
    pub bottom_left: Vec<SYMBOL>,
    pub bottom_right: Vec<SYMBOL>,
    pub center: Vec<SYMBOL>,
}

/// A tile bound to a grid cell with one of three orientations.
#[derive(Clone, Debug, PartialEq, Eq, Hash)]
pub struct TilePlacement {
    pub x: i32,
    pub y: i32,
    pub rotation: i32,
    pub tile: Tile,
}

/// Whether the triangle at cell `(x, y)` is flipped: the grid alternates
/// orientation with the parity of `x + y`.
pub open spec fn flipped_at(x: int, y: int) -> bool {
    (x + y) % 2 == 1
}

/// The four cells a tile placed at `(x, y)` covers: its own cell, the vertical
/// neighbour that shares the long edge, and the two horizontal neighbours.
pub open spec fn covered_cells(x: int, y: int) -> Seq<(int, int)> {
    seq![
        (x, y),
        (x, if flipped_at(x, y) { y + 1 } else { y - 1 }),
        (x + 1, y),
        (x - 1, y),
    ]
}

/// A cell whose neighbours all have `i32` coordinates.
pub open spec fn cell_in_bounds(x: int, y: int) -> bool {
    i32::MIN < x < i32::MAX && i32::MIN < y < i32::MAX
}

/// Slot indices: 0 center, 1 top, 2 bottom right, 3 bottom left.
impl Tile {
    pub open spec fn slot(self, i: int) -> Seq<SYMBOL> {
        if i == 0 {
            self.center@
        } else if i == 1 {
            self.top@
        } else if i == 2 {
            self.bottom_right@
        } else {
            self.bottom_left@
        }
    }

    /// Total number of symbols over the four slots.
    pub open spec fn symbol_count(self) -> nat {
        self.center@.len() + self.top@.len() + self.bottom_right@.len() + self.bottom_left@.len()
    }

    /// No slot holds more than two symbols.
    pub open spec fn within_cap(self) -> bool {
        forall|i: int| 0 <= i < 4 ==> #[trigger] self.slot(i).len() <= 2
    }

    /// The tile with every slot empty (the back of the deck).
    pub fn empty() -> (t: Tile)
        ensures
            t.center@ == Seq::<SYMBOL>::empty(),
            t.top@ == Seq::<SYMBOL>::empty(),
            t.bottom_right@ == Seq::<SYMBOL>::empty(),
            t.bottom_left@ == Seq::<SYMBOL>::empty(),
    {
        Tile { top: Vec::new(), bottom_left: Vec::new(), bottom_right: Vec::new(), center: Vec::new() }
    }

    /// Number of symbols in slot `slot`.
    pub fn slot_len(&self, slot: u8) -> (n: usize)
        requires
            slot < 4,
        ensures
            n == self.slot(slot as int).len(),
    {
        if slot == 0 {
            self.center.len()
        } else if slot == 1 {
            self.top.len()
        } else if slot == 2 {
            self.bottom_right.len()
        } else {
            self.bottom_left.len()
        }
    }

    /// Appends `symbol` to slot `slot`, leaving the other slots as they were.
    pub fn push_symbol(&mut self, slot: u8, symbol: SYMBOL)
        requires
            slot < 4,
        ensures
            forall|i: int|
                0 <= i < 4 ==> #[trigger] final(self).slot(i) == if i == slot {
                    old(self).slot(i).push(symbol)
                } else {
                    old(self).slot(i)
                },
    {
        if slot == 0 {
            self.center.push(symbol);
        } else if slot == 1 {
            self.top.push(symbol);
        } else if slot == 2 {
            self.bottom_right.push(symbol);
        } else {
            self.bottom_left.push(symbol);
        }
    }
}

impl TilePlacement {
    /// Whether this placement's triangle points the other way.
    pub fn tile_is_flipped(&self) -> (r: bool)
        ensures
            r == flipped_at(self.x as int, self.y as int),
    {
        let s: i64 = self.x as i64 + self.y as i64;
        let a: i64 = if s < 0 { -s } else { s };
        proof {
            let si = s as int;
            assert((-si) % 2 == si % 2) by (nonlinear_arith);
        }
        a % 2 == 1
    }

    /// The four cells this placement covers, in the order of `covered_cells`.
    pub fn covered_positions(&self) -> (r: [(i32, i32); 4])
        requires
            cell_in_bounds(self.x as int, self.y as int),
        ensures
            forall|k: int|
                0 <= k < 4 ==> ((#[trigger] r@[k]).0 as int, r@[k].1 as int) == covered_cells(
                    self.x as int,
                    self.y as int,
                )[k],
    {
        let x = self.x;
        let y = self.y;
        let flipped = self.tile_is_flipped();
        [(x, y), (x, if flipped { y + 1 } else { y - 1 }), (x + 1, y), (x - 1, y)]
    }
}

/// Every placement covers its own cell, whatever its rotation.
pub proof fn lemma_placement_covers_own_cell(p: TilePlacement)
    ensures
        covered_cells(p.x as int, p.y as int).contains((p.x as int, p.y as int)),
{
    assert(covered_cells(p.x as int, p.y as int)[0] == (p.x as int, p.y as int));
}

/// Flip parity depends on `x + y` modulo two only: moving two cells
/// sideways keeps it, moving one cell flips it.
pub proof fn lemma_flip_parity(x: int, y: int)
    ensures
        flipped_at(x, y) == flipped_at(x + 2, y),
        flipped_at(x, y) != flipped_at(x + 1, y),
{
    assert((x + 2 + y) % 2 == (x + y) % 2) by (nonlinear_arith);
    assert((x + 1 + y) % 2 != (x + y) % 2) by (nonlinear_arith);
}

} // verus!
