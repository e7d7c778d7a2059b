use vstd::prelude::*;

verus! {

/// Representing a direction of a rotation about some not-defined-here axis.
///
/// Part of the specification of a rotation on the cube.
#[derive(Debug, Copy, Clone, PartialEq, Eq, Structural)]
pub enum Direction {
    /// A clockwise rotation relative to some not-defined-here axis.
    Clockwise,
    /// An anti-clockwise rotation relative to some not-defined-here axis.
    Anticlockwise,
}

impl Direction {
    /// The opposite direction.
    pub open spec fn reversed(self) -> Direction {
        match self {
            Direction::Clockwise => Direction::Anticlockwise,
            Direction::Anticlockwise => Direction::Clockwise,
        }
    }
}

impl core::ops::Not for Direction {
    type Output = Self;

    fn not(self) -> (res: Self)
        ensures
            res == self.reversed(),
    {
        match self {
            Direction::Clockwise => Direction::Anticlockwise,
            Direction::Anticlockwise => Direction::Clockwise,
        }
    }
}


impl vstd::std_specs::ops::NotSpecImpl for Direction {
    open spec fn obeys_not_spec() -> bool {
        true
    }

    open spec fn not_req(self) -> bool {
        true
    }

    open spec fn not_spec(self) -> Direction {
        self.reversed()
    }
}

/// Reversing a direction twice gives back the direction.
pub proof fn lemma_direction_reversed_twice(d: Direction)
    ensures
        d.reversed().reversed() == d,
        d.reversed() != d,
{
}

} // verus!
