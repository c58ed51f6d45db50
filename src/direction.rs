use vstd::prelude::*;

verus! {

/// The order in which keys are visited, either when shown to a caller
/// (display order) or when the store is walked (scan order).
#[derive(Debug, Clone, Copy, PartialEq, Eq, Structural)]
pub enum Direction {
    Ascending,
    Descending,
}

/// The name under which the simple fetch API knows a direction.
pub type Order = Direction;

impl Direction {
    pub open spec fn flip(self) -> Direction {
        match self {
            Direction::Ascending => Direction::Descending,
            Direction::Descending => Direction::Ascending,
        }
    }

    /// The opposite direction.
    pub fn inverse(&self) -> (r: Direction)
        ensures
            r == self.flip(),
            r != *self,
            r.flip() == *self,
    {
        match self {
            Direction::Ascending => Direction::Descending,
            Direction::Descending => Direction::Ascending,
        }
    }
}

} // verus!
