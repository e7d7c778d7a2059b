use core::ops::Not;
use vstd::prelude::*;

use super::{direction::Direction, face::Face};

verus! {

/// A struct representing the rotation of a 'slice' of cube.
///
/// Uses a specific face as an anchor point for the direction of the rotation, as well for which layers should be included.
#[derive(Debug, Copy, Clone, PartialEq, Eq, Structural)]
pub struct Rotation {
    /// The face from which the reference frame is anchored.
    pub relative_to: Face,
    /// Whether the rotation should be clockwise, using the reference frame of the face `relative_to`.
    pub direction: Direction,
    /// Specifies which layer(s) are included in this `Rotation`.
    pub kind: RotationKind,
}

/// Represents the layer(s) that are included in a given `Rotation`.
///
/// Layer indices are in the reference frame of `relative_to`: `0` is the face itself, `1` the
/// layer immediately behind it, and `side length - 1` the opposite face.
#[derive(Debug, Copy, Clone, PartialEq, Eq, Structural)]
pub enum RotationKind {
    /// Only the layer of the `relative_to` face will be affected.
    ///
    /// An example rotation of this kind is `R`.
    FaceOnly,
    /// All layers from the `relative_to` face to the `layer` index inclusive will be affected.
    /// This is sometimes called a wide rotation.
    ///
    /// An example rotation of this kind is `Rw` where `layer` would be `1`, or `3Rw` where `layer` would be `2`.
    Multilayer {
        /// How far 'in' to the cube the final layer to rotate is.
        layer: usize,
    },
    /// One layer will be affected, determined by the `layer` index and the `relative_to` face.
    ///
    /// An example rotation of this kind is `3R` where `layer` would be `2`.
    Setback {
        /// How far 'in' to the cube the layer to rotate is.
        layer: usize,
    },
    /// All layers from `start_layer` index to `end_layer` index inclusive will be affected.
    ///
    /// An example rotation of this kind is `2-4R` where `start_layer` would be `1` and `end_layer` would be `3`.
    MultiSetback {
        /// The inclusive lower bound of the layers to rotate.
        start_layer: usize,
        /// The inclusive upper bound of the layers to rotate.
        end_layer: usize,
    },
}

impl RotationKind {
    /// Every layer index named by this kind is below `bound`.
    pub open spec fn layers_below(self, bound: int) -> bool {
        match self {
            RotationKind::FaceOnly => true,
            RotationKind::Multilayer { layer } => layer < bound,
            RotationKind::Setback { layer } => layer < bound,
            RotationKind::MultiSetback { start_layer, end_layer } => start_layer < bound
                && end_layer < bound,
        }
    }

    /// Layer `l`, counted from the face, turns in a rotation of this kind: the face layer alone,
    /// every layer from the face to `layer`, the single layer `layer`, or every layer between the
    /// two ends of a range, whichever end comes first.
    pub open spec fn turns_layer(self, l: int) -> bool {
        match self {
            RotationKind::FaceOnly => l == 0,
            RotationKind::Multilayer { layer } => 0 <= l <= layer,
            RotationKind::Setback { layer } => l == layer,
            RotationKind::MultiSetback { start_layer, end_layer } => (start_layer <= l <= end_layer)
                || (end_layer <= l <= start_layer),
        }
    }
}

impl Rotation {
    /// Every layer index of this rotation is below `usize::MAX`, so that one more than it can be
    /// counted.
    pub open spec fn well_formed(self) -> bool {
        self.kind.layers_below(usize::MAX as int)
    }

    /// Every layer this rotation turns exists on a cube of side length `n`.
    pub open spec fn fits(self, n: int) -> bool {
        self.kind.layers_below(n)
    }

    /// The same rotation in the other direction.
    pub open spec fn inverted(self) -> Rotation {
        Rotation { direction: self.direction.reversed(), ..self }
    }

    /// The rotation of the face opposite to `relative_to` in the other direction.
    pub open spec fn spec_as_layer_0_of_opposite_face(self) -> Rotation {
        Rotation {
            relative_to: self.relative_to.opposite(),
            direction: self.direction.reversed(),
            kind: RotationKind::FaceOnly,
        }
    }

    /// What `normalise` gives on a cube of side length `n`.
    pub open spec fn spec_normalise(self, n: int) -> Rotation {
        match self.kind {
            RotationKind::MultiSetback { start_layer, end_layer } => if start_layer > end_layer {
                Rotation {
                    kind: RotationKind::MultiSetback {
                        start_layer: end_layer,
                        end_layer: start_layer,
                    },
                    ..self
                }
            } else {
                self
            },
            RotationKind::Setback { layer } => if layer == n - 1 && n > 1 {
                self.spec_as_layer_0_of_opposite_face()
            } else {
                self
            },
            _ => self,
        }
    }

    /// Construct a `Rotation` that will turn `face` 90° clockwise from the perspective of looking directly at that face from outside the cube.
    pub fn clockwise(face: Face) -> (r: Rotation)
        ensures
            r == (Rotation {
                relative_to: face,
                direction: Direction::Clockwise,
                kind: RotationKind::FaceOnly,
            }),
    {
        Rotation { relative_to: face, direction: Direction::Clockwise, kind: RotationKind::FaceOnly }
    }

    /// Construct a `Rotation` that will turn `face` 90° anticlockwise from the perspective of looking directly at that face from outside the cube.
    pub fn anticlockwise(face: Face) -> (r: Rotation)
        ensures
            r == (Rotation {
                relative_to: face,
                direction: Direction::Anticlockwise,
                kind: RotationKind::FaceOnly,
            }),
    {
        Rotation {
            relative_to: face,
            direction: Direction::Anticlockwise,
            kind: RotationKind::FaceOnly,
        }
    }

    /// Construct a `Rotation` that will turn a given layer of the cube 90° clockwise from the perspective of looking directly at `face` from outside the cube.
    pub fn clockwise_setback_from(relative_to: Face, layers_back: usize) -> (r: Rotation)
        ensures
            r == (Rotation {
                relative_to,
                direction: Direction::Clockwise,
                kind: RotationKind::Setback { layer: layers_back },
            }),
    {
        Rotation {
            relative_to,
            direction: Direction::Clockwise,
            kind: RotationKind::Setback { layer: layers_back },
        }
    }

    /// Construct a `Rotation` that will turn a given layer of the cube 90° anticlockwise from the perspective of looking directly at `face` from outside the cube.
    pub fn anticlockwise_setback_from(relative_to: Face, layers_back: usize) -> (r: Rotation)
        ensures
            r == (Rotation {
                relative_to,
                direction: Direction::Anticlockwise,
                kind: RotationKind::Setback { layer: layers_back },
            }),
    {
        Rotation {
            relative_to,
            direction: Direction::Anticlockwise,
            kind: RotationKind::Setback { layer: layers_back },
        }
    }

    /// Construct a `Rotation` that will turn multiple layers of the cube 90° clockwise, from the `face` layer as far in as `layers_back`.
    pub fn clockwise_multilayer_from(relative_to: Face, layers_back: usize) -> (r: Rotation)
        ensures
            r == (Rotation {
                relative_to,
                direction: Direction::Clockwise,
                kind: RotationKind::Multilayer { layer: layers_back },
            }),
    {
        Rotation {
            relative_to,
            direction: Direction::Clockwise,
            kind: RotationKind::Multilayer { layer: layers_back },
        }
    }

    /// Construct a `Rotation` that will turn multiple layers of the cube 90° anticlockwise, from the `face` layer as far in as `layers_back`.
    pub fn anticlockwise_multilayer_from(relative_to: Face, layers_back: usize) -> (r: Rotation)
        ensures
            r == (Rotation {
                relative_to,
                direction: Direction::Anticlockwise,
                kind: RotationKind::Multilayer { layer: layers_back },
            }),
    {
        Rotation {
            relative_to,
            direction: Direction::Anticlockwise,
            kind: RotationKind::Multilayer { layer: layers_back },
        }
    }

    /// Construct a `Rotation` that will turn the layers `start_layer` to `end_layer` of the cube 90° clockwise.
    pub fn clockwise_multisetback_from(relative_to: Face, start_layer: usize, end_layer: usize) -> (r:
        Rotation)
        ensures
            r == (Rotation {
                relative_to,
                direction: Direction::Clockwise,
                kind: RotationKind::MultiSetback { start_layer, end_layer },
            }),
    {
        Rotation {
            relative_to,
            direction: Direction::Clockwise,
            kind: RotationKind::MultiSetback { start_layer, end_layer },
        }
    }

    /// Construct a `Rotation` that will turn the layers `start_layer` to `end_layer` of the cube 90° anticlockwise.
    pub fn anticlockwise_multisetback_from(
        relative_to: Face,
        start_layer: usize,
        end_layer: usize,
    ) -> (r: Rotation)
        ensures
            r == (Rotation {
                relative_to,
                direction: Direction::Anticlockwise,
                kind: RotationKind::MultiSetback { start_layer, end_layer },
            }),
    {
        Rotation {
            relative_to,
            direction: Direction::Anticlockwise,
            kind: RotationKind::MultiSetback { start_layer, end_layer },
        }
    }

    /// Ensure that this `Rotation` does not have a `layer` that corresponds to the `Face` opposite to the one this `Rotation` is `relative_to`, and that any range of layers is correctly ordered.
    ///
    /// That is, if this `Rotation` is a `Setback` `relative_to` the `Front` face, with a `layer` that means it actually turns the `Back` face, return a `Rotation` that is `relative_to` the `Back` face with a `layer` of 0.
    /// The `direction` is also flipped such that the semantics of the rotation are maintained.
    ///
    /// If this `Rotation` is a `MultiSetback`, ensure `start_layer` <= `end_layer`.
    pub fn normalise(self, side_length: usize) -> (r: Rotation)
        requires
            side_length >= 1,
        ensures
            r == self.spec_normalise(side_length as int),
    {
        let furthest_layer = side_length - 1;
        match self.kind {
            RotationKind::MultiSetback { start_layer, end_layer } if start_layer > end_layer => {
                Rotation {
                    kind: RotationKind::MultiSetback {
                        start_layer: end_layer,
                        end_layer: start_layer,
                    },
                    ..self
                }
            },
            RotationKind::Setback { layer } if layer == furthest_layer && side_length > 1 => {
                self.as_layer_0_of_opposite_face()
            },
            _ => self,
        }
    }

    /// The rotation of the face opposite to `relative_to`, in the opposite direction, which
    /// turns the same layer of the cube as `Setback` on the furthest layer does.
    pub fn as_layer_0_of_opposite_face(self) -> (r: Rotation)
        ensures
            r == self.spec_as_layer_0_of_opposite_face(),
    {
        Rotation {
            relative_to: self.relative_to.not(),
            direction: self.direction.not(),
            kind: RotationKind::FaceOnly,
        }
    }
}

impl core::ops::Not for Rotation {
    type Output = Self;

    fn not(self) -> (r: Self)
        ensures
            r == self.inverted(),
    {
        Rotation { direction: self.direction.not(), ..self }
    }
}

impl vstd::std_specs::ops::NotSpecImpl for Rotation {
    open spec fn obeys_not_spec() -> bool {
        true
    }

    open spec fn not_req(self) -> bool {
        true
    }

    open spec fn not_spec(self) -> Rotation {
        self.inverted()
    }
}

/// Normalising twice gives the same rotation as normalising once, and normalising keeps the
/// layers of a rotation within the cube.
pub proof fn lemma_normalise_idempotent(r: Rotation, n: int)
    requires
        n >= 1,
    ensures
        r.spec_normalise(n).spec_normalise(n) == r.spec_normalise(n),
        r.fits(n) ==> r.spec_normalise(n).fits(n),
        r.well_formed() ==> r.spec_normalise(n).well_formed(),
{
}

/// Inverting a rotation twice gives back the rotation, and inverting changes only the direction.
pub proof fn lemma_inverted_twice(r: Rotation)
    ensures
        r.inverted().inverted() == r,
        r.inverted().relative_to == r.relative_to,
        r.inverted().kind == r.kind,
        r.inverted().direction != r.direction,
{
}

/// Normalising commutes with inverting.
pub proof fn lemma_normalise_inverted(r: Rotation, n: int)
    requires
        n >= 1,
    ensures
        r.inverted().spec_normalise(n) == r.spec_normalise(n).inverted(),
{
}

/// A random whole number below `bound`.
///
/// Calls `rand::random_range(0..bound)`, which draws from the thread-local generator; the
/// contract claims only that the number lies in the range, which the crate documents.
#[verifier::external_body]
fn random_below(bound: usize) -> (n: usize)
    requires
        bound > 0,
    ensures
        n < bound,
{
    rand::random_range(0..bound)
}

/// A random `bool` that is `true` with chance `numerator / denominator`.
///
/// Calls `rand::random_ratio`, which the crate documents as always `true` when the two numbers
/// are equal and always `false` when `numerator` is 0; nothing more is claimed of a draw.
#[verifier::external_body]
fn random_chance(numerator: u32, denominator: u32) -> (b: bool)
    requires
        0 < denominator,
        numerator <= denominator,
    ensures
        numerator == 0 ==> !b,
        numerator == denominator ==> b,
{
    rand::random_ratio(numerator, denominator)
}

/// The face numbered `index`, counting Up, Down, Front, Right, Back, Left from 0; any larger
/// number gives Left.
pub fn face_from_index(index: usize) -> (face: Face)
    ensures
        face == match index {
            0 => Face::Up,
            1 => Face::Down,
            2 => Face::Front,
            3 => Face::Right,
            4 => Face::Back,
            _ => Face::Left,
        },
{
    match index {
        0 => Face::Up,
        1 => Face::Down,
        2 => Face::Front,
        3 => Face::Right,
        4 => Face::Back,
        _ => Face::Left,
    }
}

/// The rotation made from the draws of `Rotation::random`: the face numbered `face_index`, the
/// drawn `layer` (the face alone when it is 0), the direction, and whether the rotation turns
/// several layers (`multilayer`), a layer set back from the face (`setback`), or, with both, the
/// range between `layer` and `other_layer`.
pub open spec fn spec_rotation_from_draws(
    face_index: usize,
    layer: usize,
    clockwise: bool,
    multilayer: bool,
    setback: bool,
    other_layer: usize,
) -> Rotation {
    let kind = if layer == 0 {
        RotationKind::FaceOnly
    } else if multilayer && setback {
        if layer <= other_layer {
            RotationKind::MultiSetback { start_layer: layer, end_layer: other_layer }
        } else {
            RotationKind::MultiSetback { start_layer: other_layer, end_layer: layer }
        }
    } else if multilayer {
        RotationKind::Multilayer { layer }
    } else {
        RotationKind::Setback { layer }
    };
    Rotation {
        relative_to: match face_index {
            0 => Face::Up,
            1 => Face::Down,
            2 => Face::Front,
            3 => Face::Right,
            4 => Face::Back,
            _ => Face::Left,
        },
        direction: if clockwise {
            Direction::Clockwise
        } else {
            Direction::Anticlockwise
        },
        kind,
    }
}

/// `r` is one that `Rotation::random` can draw for a side length of `n`: the rotation made from
/// draws of a face numbered below 6 and layers below `n`.
pub open spec fn drawable(r: Rotation, n: int) -> bool {
    exists|face_index: usize, layer: usize, clockwise: bool, multilayer: bool, setback: bool, other_layer: usize|
        {
            &&& face_index < 6
            &&& layer < n
            &&& other_layer < n
            &&& r == #[trigger] spec_rotation_from_draws(face_index, layer, clockwise, multilayer, setback, other_layer)
        }
}

/// The rotation made from the draws of `Rotation::random` turns the face drawn, in the direction
/// drawn, and turns the layer drawn: the face layer alone when that is layer 0; otherwise, with
/// both `multilayer` and `setback`, every layer between the two layers drawn; with `multilayer`
/// alone, every layer from the face to the one drawn; and without `multilayer`, the layer drawn
/// alone. A range always runs from its nearer end to its further one.
pub proof fn lemma_draws_turn_drawn_layers(
    face_index: usize,
    layer: usize,
    clockwise: bool,
    multilayer: bool,
    setback: bool,
    other_layer: usize,
)
    ensures
        ({
            let r = spec_rotation_from_draws(face_index, layer, clockwise, multilayer, setback, other_layer);
            &&& face_index == 0 ==> r.relative_to == Face::Up
            &&& face_index == 1 ==> r.relative_to == Face::Down
            &&& face_index == 2 ==> r.relative_to == Face::Front
            &&& face_index == 3 ==> r.relative_to == Face::Right
            &&& face_index == 4 ==> r.relative_to == Face::Back
            &&& face_index >= 5 ==> r.relative_to == Face::Left
            &&& (r.direction == Direction::Clockwise <==> clockwise)
            &&& r.kind.turns_layer(layer as int)
            &&& forall|l: int| #[trigger] r.kind.turns_layer(l) <==> if layer == 0 {
                l == 0
            } else if multilayer && setback {
                (layer <= l <= other_layer) || (other_layer <= l <= layer)
            } else if multilayer {
                0 <= l <= layer
            } else {
                l == layer
            }
            &&& r.kind matches RotationKind::MultiSetback { start_layer, end_layer } ==> start_layer
                <= end_layer
        }),
{
}

/// Build the rotation that the draws of `Rotation::random` name.
pub fn rotation_from_draws(
    face_index: usize,
    layer: usize,
    clockwise: bool,
    multilayer: bool,
    setback: bool,
    other_layer: usize,
) -> (r: Rotation)
    ensures
        r == spec_rotation_from_draws(face_index, layer, clockwise, multilayer, setback, other_layer),
        r.kind.turns_layer(layer as int),
        layer > 0 && multilayer && setback ==> r.kind.turns_layer(other_layer as int),
        (r.direction == Direction::Clockwise) == clockwise,
{
    proof {
        lemma_draws_turn_drawn_layers(face_index, layer, clockwise, multilayer, setback, other_layer);
    }
    let relative_to = face_from_index(face_index);
    let direction = if clockwise {
        Direction::Clockwise
    } else {
        Direction::Anticlockwise
    };
    let kind = if layer == 0 {
        RotationKind::FaceOnly
    } else if multilayer && setback {
        let (start_layer, end_layer) = if layer <= other_layer {
            (layer, other_layer)
        } else {
            (other_layer, layer)
        };
        RotationKind::MultiSetback { start_layer, end_layer }
    } else if multilayer {
        RotationKind::Multilayer { layer }
    } else {
        RotationKind::Setback { layer }
    };
    Rotation { relative_to, direction, kind }
}

impl Rotation {
    /// Construct a randomly generated `Rotation`. The `Rotation` will be valid for a `Cube` of at least `side_length` cubies wide.
    /// This `Rotation` is expected to be used via `rotate` on a `Cube`, meaning it makes no attempt to avoid unusual edge cases such as picking the furthest layer away from `relative_to`.
    pub fn random(side_length: usize) -> (r: Rotation)
        requires
            side_length > 0,
        ensures
            drawable(r, side_length as int),
            r.fits(side_length as int),
            r.well_formed(),
            r.kind matches RotationKind::MultiSetback { start_layer, end_layer } ==> start_layer
                <= end_layer,
    {
        let face_index = random_below(6);
        let layer = random_below(side_length);
        let clockwise = random_chance(1, 2);
        let multilayer = random_chance(333, 1000);
        let setback = random_chance(333, 1000);
        let other_layer = if layer != 0 && multilayer && setback {
            random_below(side_length)
        } else {
            0
        };
        let r = rotation_from_draws(face_index, layer, clockwise, multilayer, setback, other_layer);
        assert(r == spec_rotation_from_draws(face_index, layer, clockwise, multilayer, setback, other_layer));
        r
    }
}

} // verus!
