use vstd::prelude::*;

use super::direction::Direction;
use super::face::{spec_adjacent, Face};
use super::flat_side::LayerError;
use super::helpers::missing_line_error;
use super::rotation::{Rotation, RotationKind};
use super::{
    lemma_turn_by_lines, lines_moved, rotate_outcome, single_outcome, turn_by_lines, CubeState,
    Cube, Outcome, layer_step,
};

verus! {

/// A struct representing the rotation of a 'slice' of cube.
/// That is, a rotation of a set of cubies where none of the cubies lie on the edges of the cube.
#[derive(Debug, Copy, Clone, PartialEq, Eq, Structural)]
pub struct CubeSliceTwist {
    /// The face from which the reference frame is anchored.
    /// `layer` will determine how many layers 'behind' this face the desired slice to rotate is.
    pub relative_to: Face,
    /// How far 'in' to the cube the layer to rotate is.
    /// A value of 0 would be the face itself, which would not technically be a slice twist, but a
    /// whole face twist: the cubies of the face itself are then left where they are, and only the
    /// lines of the four faces around it move.
    /// A value of 1 would be the layer immediately behind the face layer.
    pub layer: usize,
    /// Whether the rotation should be clockwise, using the reference frame of the face `relative_to`.
    pub clockwise: bool,
}

/// One clockwise quarter turn of the ring of cubies at `layer` around `face`, without turning
/// any face: it happens when the cube has that layer, and otherwise the cube stays as it is and
/// the missing layer is reported.
pub open spec fn ring_step(s: CubeState, face: Face, layer: usize) -> Outcome {
    if layer < s.n {
        (lines_moved(s, face, layer as int), Ok(()))
    } else {
        (s, Err(missing_line_error(spec_adjacent(face, 0).1, layer)))
    }
}

/// What a slice twist does: one quarter turn of its ring clockwise, or three for an
/// anticlockwise twist, stopping at the first that fails.
pub open spec fn slice_twist_outcome(s: CubeState, twist: CubeSliceTwist) -> Outcome {
    let o1 = ring_step(s, twist.relative_to, twist.layer);
    if twist.clockwise || o1.1 is Err {
        o1
    } else {
        let o2 = ring_step(o1.0, twist.relative_to, twist.layer);
        if o2.1 is Err {
            o2
        } else {
            ring_step(o2.0, twist.relative_to, twist.layer)
        }
    }
}

impl Cube {
    /// Turn the ring of cubies `twist.layer` layers behind `twist.relative_to` a quarter in the
    /// direction of the twist, without turning any face.
    ///
    /// # Errors
    /// Err is returned, after the turns that were made, when the cube does not have the layer.
    pub fn rotate_inner_slice(&mut self, twist: CubeSliceTwist) -> (res: Result<(), LayerError>)
        requires
            old(self).spec_valid(),
            twist.layer < usize::MAX,
        ensures
            final(self).spec_valid(),
            (final(self).spec_state(), res) == slice_twist_outcome(old(self).spec_state(), twist),
    {
        let CubeSliceTwist { relative_to, layer, clockwise } = twist;
        self.rotate_adjacents_90_deg_setback_clockwise(relative_to, layer)?;
        if !clockwise {
            self.rotate_adjacents_90_deg_setback_clockwise(relative_to, layer)?;
            self.rotate_adjacents_90_deg_setback_clockwise(relative_to, layer)?;
        }
        Ok(())
    }
}

/// Behind the face, a ring turn is the quarter turn of that layer.
proof fn lemma_ring_step_behind_face(s: CubeState, face: Face, layer: usize)
    requires
        s.wf(),
        layer >= 1,
    ensures
        ring_step(s, face, layer) == layer_step(s, face, layer),
        ring_step(s, face, layer).0.wf(),
        ring_step(s, face, layer).0.n == s.n,
{
    if layer < s.n {
        lemma_turn_by_lines(s, face, layer as int);
        assert(turn_by_lines(s, face, layer as int) == lines_moved(s, face, layer as int));
    }
}

/// Twisting a slice behind a face, other than the last layer, is the same as rotating that single
/// layer in the same direction: the cube comes out the same, and the same error is reported.
pub proof fn lemma_slice_twist_is_setback_rotation(s: CubeState, twist: CubeSliceTwist)
    requires
        s.wf(),
        twist.layer >= 1,
        twist.layer + 1 != s.n,
    ensures
        slice_twist_outcome(s, twist) == rotate_outcome(
            s,
            Rotation {
                relative_to: twist.relative_to,
                direction: if twist.clockwise {
                    Direction::Clockwise
                } else {
                    Direction::Anticlockwise
                },
                kind: RotationKind::Setback { layer: twist.layer },
            },
        ),
{
    let face = twist.relative_to;
    let layer = twist.layer;
    lemma_ring_step_behind_face(s, face, layer);
    let o1 = ring_step(s, face, layer);
    if o1.1 is Ok {
        lemma_ring_step_behind_face(o1.0, face, layer);
        let o2 = ring_step(o1.0, face, layer);
        if o2.1 is Ok {
            lemma_ring_step_behind_face(o2.0, face, layer);
        }
    }
    let c = Rotation {
        relative_to: face,
        direction: Direction::Clockwise,
        kind: RotationKind::Setback { layer },
    };
    assert(single_outcome(s, c) == layer_step(s, face, layer));
}

} // verus!
