use core::ops::Not;
use vstd::prelude::*;

verus! {

/// An enum representing the six sides of the cube.
#[derive(Debug, Copy, Clone, PartialEq, Eq, Structural)]
pub enum Face {
    /// The Up face starts as white cubies
    Up,
    /// The Down face starts as yellow cubies
    Down,
    /// The Front face starts as blue cubies
    Front,
    /// The Right face starts as orange cubies
    Right,
    /// The Back face starts as green cubies
    Back,
    /// The Left face starts as red cubies
    Left,
}

impl Face {
    /// The face on the opposite side of the cube.
    pub open spec fn opposite(self) -> Face {
        match self {
            Face::Up => Face::Down,
            Face::Down => Face::Up,
            Face::Front => Face::Back,
            Face::Right => Face::Left,
            Face::Back => Face::Front,
            Face::Left => Face::Right,
        }
    }
}

impl core::ops::Not for Face {
    type Output = Self;

    fn not(self) -> (res: Self)
        ensures
            res == self.opposite(),
    {
        match self {
            Face::Up => Face::Down,
            Face::Down => Face::Up,
            Face::Front => Face::Back,
            Face::Right => Face::Left,
            Face::Back => Face::Front,
            Face::Left => Face::Right,
        }
    }
}


impl vstd::std_specs::ops::NotSpecImpl for Face {
    open spec fn obeys_not_spec() -> bool {
        true
    }

    open spec fn not_req(self) -> bool {
        true
    }

    open spec fn not_spec(self) -> Face {
        self.opposite()
    }
}

/// The opposite of the opposite face is the face itself, and no face is its own opposite.
pub proof fn lemma_opposite_twice(f: Face)
    ensures
        f.opposite().opposite() == f,
        f.opposite() != f,
{
}

/// This enum describes an edge of a 2d side, seen as rows of cubies.
///
/// For example, given a 3x3x3 side with numbers representing `CubieFace` instances:
///```text
/// [
///     [0, 1, 2],
///     [3, 4, 5],
///     [6, 7, 8],
/// ]
///```
/// Variants of this enum would represent the following slices:
/// ```text
/// InnerFirst  = 0, 1, 2
/// InnerLast   = 6, 7, 8
/// OuterStart  = 0, 3, 6
/// OuterEnd    = 2, 5, 8
/// ```
#[derive(Debug, Copy, Clone, PartialEq, Eq, Structural)]
pub enum IndexAlignment {
    OuterStart,
    OuterEnd,
    InnerFirst,
    InnerLast,
}

/// The four faces around `face`, in clockwise order when looking at `face` from outside
/// the cube, each with the edge of its side that borders `face`.
pub open spec fn spec_adjacent(face: Face, i: int) -> (Face, IndexAlignment) {
    let table: Seq<(Face, IndexAlignment)> = match face {
        Face::Up => seq![
            (Face::Front, IndexAlignment::InnerFirst),
            (Face::Left, IndexAlignment::InnerFirst),
            (Face::Back, IndexAlignment::InnerFirst),
            (Face::Right, IndexAlignment::InnerFirst),
        ],
        Face::Down => seq![
            (Face::Front, IndexAlignment::InnerLast),
            (Face::Right, IndexAlignment::InnerLast),
            (Face::Back, IndexAlignment::InnerLast),
            (Face::Left, IndexAlignment::InnerLast),
        ],
        Face::Front => seq![
            (Face::Up, IndexAlignment::InnerLast),
            (Face::Right, IndexAlignment::OuterStart),
            (Face::Down, IndexAlignment::InnerFirst),
            (Face::Left, IndexAlignment::OuterEnd),
        ],
        Face::Right => seq![
            (Face::Up, IndexAlignment::OuterEnd),
            (Face::Back, IndexAlignment::OuterStart),
            (Face::Down, IndexAlignment::OuterEnd),
            (Face::Front, IndexAlignment::OuterEnd),
        ],
        Face::Back => seq![
            (Face::Up, IndexAlignment::InnerFirst),
            (Face::Left, IndexAlignment::OuterStart),
            (Face::Down, IndexAlignment::InnerLast),
            (Face::Right, IndexAlignment::OuterEnd),
        ],
        Face::Left => seq![
            (Face::Up, IndexAlignment::OuterStart),
            (Face::Front, IndexAlignment::OuterStart),
            (Face::Down, IndexAlignment::OuterStart),
            (Face::Back, IndexAlignment::OuterEnd),
        ],
    };
    table[i]
}

/// Which of the four adjacent places around `face` the face `other` takes, or -1 when
/// `other` is `face` itself or its opposite.
pub open spec fn adjacent_slot(face: Face, other: Face) -> int {
    if spec_adjacent(face, 0).0 == other {
        0
    } else if spec_adjacent(face, 1).0 == other {
        1
    } else if spec_adjacent(face, 2).0 == other {
        2
    } else if spec_adjacent(face, 3).0 == other {
        3
    } else {
        -1
    }
}

/// The four faces adjacent to a face are the four faces other than it and its opposite,
/// each in exactly one place.
pub proof fn lemma_adjacent_faces(face: Face)
    ensures
        forall|i: int| 0 <= i < 4 ==> adjacent_slot(face, #[trigger] spec_adjacent(face, i).0) == i,
        forall|i: int| 0 <= i < 4 ==> #[trigger] spec_adjacent(face, i).0 != face,
        forall|i: int| 0 <= i < 4 ==> #[trigger] spec_adjacent(face, i).0 != face.opposite(),
        forall|g: Face| #[trigger] adjacent_slot(face, g) == -1 <==> (g == face || g == face.opposite()),
        forall|g: Face| -1 <= #[trigger] adjacent_slot(face, g) < 4,
{
}

/// The cell, as (row, column), that holds place `k` of the line on edge `alignment` that lies
/// `layer` layers in from that edge of an `n` by `n` side, walking the line clockwise around the
/// turning face.
pub open spec fn line_cell(alignment: IndexAlignment, n: int, layer: int, k: int) -> (int, int) {
    match alignment {
        IndexAlignment::OuterStart => (k, layer),
        IndexAlignment::OuterEnd => (n - 1 - k, n - 1 - layer),
        IndexAlignment::InnerFirst => (layer, n - 1 - k),
        IndexAlignment::InnerLast => (n - 1 - layer, k),
    }
}

/// The cell at (`r`, `c`) lies on the line of `line_cell`.
pub open spec fn on_line(alignment: IndexAlignment, n: int, layer: int, r: int, c: int) -> bool {
    match alignment {
        IndexAlignment::OuterStart => c == layer,
        IndexAlignment::OuterEnd => c == n - 1 - layer,
        IndexAlignment::InnerFirst => r == layer,
        IndexAlignment::InnerLast => r == n - 1 - layer,
    }
}

/// The place along the line of `line_cell` of the cell at (`r`, `c`).
pub open spec fn line_place(alignment: IndexAlignment, n: int, layer: int, r: int, c: int) -> int {
    match alignment {
        IndexAlignment::OuterStart => r,
        IndexAlignment::OuterEnd => n - 1 - r,
        IndexAlignment::InnerFirst => n - 1 - c,
        IndexAlignment::InnerLast => c,
    }
}

impl Face {
    /// The four faces around this one, clockwise, with the edge of each that borders this face.
    pub fn adjacent_faces_clockwise(self) -> (adjacents: [(Face, IndexAlignment); 4])
        ensures
            forall|i: int| 0 <= i < 4 ==> #[trigger] adjacents@[i] == spec_adjacent(self, i),
    {
        match self {
            Face::Up => [
                (Face::Front, IndexAlignment::InnerFirst),
                (Face::Left, IndexAlignment::InnerFirst),
                (Face::Back, IndexAlignment::InnerFirst),
                (Face::Right, IndexAlignment::InnerFirst),
            ],
            Face::Down => [
                (Face::Front, IndexAlignment::InnerLast),
                (Face::Right, IndexAlignment::InnerLast),
                (Face::Back, IndexAlignment::InnerLast),
                (Face::Left, IndexAlignment::InnerLast),
            ],
            Face::Front => [
                (Face::Up, IndexAlignment::InnerLast),
                (Face::Right, IndexAlignment::OuterStart),
                (Face::Down, IndexAlignment::InnerFirst),
                (Face::Left, IndexAlignment::OuterEnd),
            ],
            Face::Right => [
                (Face::Up, IndexAlignment::OuterEnd),
                (Face::Back, IndexAlignment::OuterStart),
                (Face::Down, IndexAlignment::OuterEnd),
                (Face::Front, IndexAlignment::OuterEnd),
            ],
            Face::Back => [
                (Face::Up, IndexAlignment::InnerFirst),
                (Face::Left, IndexAlignment::OuterStart),
                (Face::Down, IndexAlignment::InnerLast),
                (Face::Right, IndexAlignment::OuterEnd),
            ],
            Face::Left => [
                (Face::Up, IndexAlignment::OuterStart),
                (Face::Front, IndexAlignment::OuterStart),
                (Face::Down, IndexAlignment::OuterStart),
                (Face::Back, IndexAlignment::OuterEnd),
            ],
        }
    }
}

} // verus!
