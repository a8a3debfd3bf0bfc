//! A single grid point of the lattice: its permanent coordinate, its
//! rendering hints, and its mutable liveness flag.

use vstd::prelude::*;

verus! {

/// A coordinate in the lattice, one component per axis.
#[derive(Clone, Copy, PartialEq, Eq, Structural, Debug)]
pub struct Pos {
    pub x: usize,
    pub y: usize,
    pub z: usize,
}

/// A color as three channels, each in `0..=255`.
#[derive(Clone, Copy, PartialEq, Eq, Structural, Debug)]
pub struct Rgb {
    pub r: u8,
    pub g: u8,
    pub b: u8,
}

/// One cell of the lattice. The position is the cell's permanent identity;
/// `size` and `color` are rendering hints fixed at creation; only `is_alive`
/// changes over the cell's lifetime.
#[derive(Clone, Copy, PartialEq, Eq, Structural, Debug)]
pub struct Block {
    pub position: Pos,
    pub size: u32,
    pub color: Rgb,
    pub is_alive: bool,
}

/// The block as it stands after `kill`: the same cell, dead.
pub open spec fn killed(b: Block) -> Block {
    Block { is_alive: false, ..b }
}

/// The block as it stands after `revive`: the same cell, alive.
pub open spec fn revived(b: Block) -> Block {
    Block { is_alive: true, ..b }
}

impl Block {
    /// Builds a cell from its fields, without validation.
    pub fn new(position: Pos, size: u32, color: Rgb, is_alive: bool) -> (r: Block)
        ensures
            r == (Block { position, size, color, is_alive }),
    {
        Block { position, size, color, is_alive }
    }

    /// Marks the cell dead; every other field is kept.
    pub fn kill(&mut self)
        ensures
            *final(self) == killed(*old(self)),
    {
        self.is_alive = false;
    }

    /// Marks the cell alive; every other field is kept.
    pub fn revive(&mut self)
        ensures
            *final(self) == revived(*old(self)),
    {
        self.is_alive = true;
    }

    /// Reports the current liveness; the cell is not changed.
    pub fn is_alive(&self) -> (r: bool)
        ensures
            r == self.is_alive,
    {
        self.is_alive
    }
}

/// Killing a dead cell and reviving a live one change nothing: the second
/// and every later call of `kill` or `revive` with the same block is a no-op.
pub proof fn lemma_liveness_toggles_idempotent(b: Block)
    ensures
        killed(killed(b)) == killed(b),
        revived(revived(b)) == revived(b),
        !b.is_alive ==> killed(b) == b,
        b.is_alive ==> revived(b) == b,
{
}

} // verus!
