//! Triangular-grid tile sandbox: the tile model, grid geometry on integer
//! cells, and the world state machine that picks up, rotates, reorders and
//! drops tiles.

pub mod tile;
pub mod world_state;
