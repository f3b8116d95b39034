use vstd::prelude::*;

verus! {

/// The way a character faces.
#[derive(Clone, Copy, Debug, PartialEq, Eq, Structural)]
pub enum Direction {
    Up,
    Down,
    Left,
    Right,
}

impl Default for Direction {
    fn default() -> (d: Direction)
        ensures
            d == Direction::Up,
    {
        Direction::Up
    }
}

/// A connected player, known by its client id.
#[derive(Clone, Copy, Debug, PartialEq, Eq, Structural)]
pub struct Player {
    pub id: u64,
}

/// Whether an item may be picked up.
#[derive(Clone, Copy, Debug, Default, PartialEq, Eq, Structural)]
pub struct Grabbable(pub bool);

/// Things that carry a client id.
pub trait Id {
    /// The client id, in specifications.
    spec fn spec_id(&self) -> u64;

    /// The client id.
    fn id(&self) -> (r: u64)
        ensures
            r == self.spec_id(),
    ;
}

impl Id for Player {
    open spec fn spec_id(&self) -> u64 {
        self.id
    }

    fn id(&self) -> (r: u64) {
        self.id
    }
}

} // verus!
