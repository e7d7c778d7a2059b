use vstd::prelude::*;

use core::ops::Not;
use crate::cube::direction::Direction;
use crate::cube::face::{adjacent_slot, lemma_adjacent_faces, spec_adjacent, Face, IndexAlignment};
use crate::cube::laws::{lemma_turn_source_support, moved_by, opposite_edge, source_cell};
use crate::cube::rotation::{Rotation, RotationKind};
use crate::cube::{kind_layer, lemma_turn_layer_cells, rotate_outcome, turn_layer, CubeState, PuzzleCube};

verus! {

/// A move that a user has decided on by dragging across the cube.
#[derive(Debug, Copy, Clone, PartialEq, Eq, Structural)]
pub enum DecidedMove {
    /// Turn a whole face.
    WholeFace {
        /// The face to turn.
        face: Face,
        /// The direction to turn it in.
        direction: Direction,
    },
    /// Move an inner row of `face` sideways.
    InnerRow {
        /// The face that was dragged.
        face: Face,
        /// The row that was dragged.
        row: usize,
        /// Whether the drag went toward the positive end of the row.
        toward_positive: bool,
    },
    /// Move an inner column of `face` up or down.
    InnerCol {
        /// The face that was dragged.
        face: Face,
        /// The column that was dragged.
        col: usize,
        /// Whether the drag went toward the positive end of the column.
        toward_positive: bool,
    },
}

/// The face whose layers hold the rows of `face`, turning clockwise toward the positive end.
pub open spec fn row_axis_face(face: Face) -> Face {
    match face {
        Face::Up => Face::Front,
        Face::Down => Face::Back,
        _ => Face::Down,
    }
}

/// The face whose layers hold the columns of `face`, turning anticlockwise toward the positive
/// end.
pub open spec fn col_axis_face(face: Face) -> Face {
    match face {
        Face::Up | Face::Down | Face::Front => Face::Left,
        Face::Right => Face::Front,
        Face::Back => Face::Right,
        Face::Left => Face::Back,
    }
}

/// The direction that is clockwise exactly when `clockwise`.
pub open spec fn direction_when(clockwise: bool) -> Direction {
    if clockwise {
        Direction::Clockwise
    } else {
        Direction::Anticlockwise
    }
}

impl DecidedMove {
    /// The rotation that makes this move.
    pub open spec fn spec_as_rotation(self) -> Rotation {
        match self {
            DecidedMove::WholeFace { face, direction } => Rotation {
                relative_to: face,
                direction,
                kind: RotationKind::FaceOnly,
            },
            DecidedMove::InnerRow { face, row, toward_positive } => Rotation {
                relative_to: row_axis_face(face),
                direction: direction_when(toward_positive),
                kind: RotationKind::Setback { layer: row },
            },
            DecidedMove::InnerCol { face, col, toward_positive } => Rotation {
                relative_to: col_axis_face(face),
                direction: direction_when(!toward_positive),
                kind: RotationKind::Setback { layer: col },
            },
        }
    }

    /// Make this move on `cube`, giving back the rotation made, or nothing when the cube could
    /// not make it.
    pub fn apply<C: PuzzleCube>(self, cube: &mut C) -> (res: Option<Rotation>)
        requires
            old(cube).valid(),
            self.spec_as_rotation().well_formed(),
        ensures
            final(cube).valid(),
            final(cube).state() == rotate_outcome(old(cube).state(), self.spec_as_rotation()).0,
            res == if rotate_outcome(old(cube).state(), self.spec_as_rotation()).1 is Ok {
                Some(self.spec_as_rotation())
            } else {
                None::<Rotation>
            },
    {
        let rotation = self.as_rotation();
        let rotate_result = cube.rotate(rotation);
        if rotate_result.is_err() {
            None
        } else {
            Some(rotation)
        }
    }

    /// The rotation that makes this move.
    pub fn as_rotation(&self) -> (rotation: Rotation)
        ensures
            rotation == self.spec_as_rotation(),
    {
        match *self {
            DecidedMove::WholeFace { face, direction } => match direction {
                Direction::Clockwise => Rotation::clockwise(face),
                Direction::Anticlockwise => Rotation::anticlockwise(face),
            },
            DecidedMove::InnerRow { face, row, toward_positive: clockwise } => {
                let face_where_toward_positive_eq_clockwise = match face {
                    Face::Up => Face::Front,
                    Face::Down => Face::Back,
                    Face::Front | Face::Right | Face::Back | Face::Left => Face::Down,
                };
                if clockwise {
                    Rotation::clockwise_setback_from(face_where_toward_positive_eq_clockwise, row)
                } else {
                    Rotation::anticlockwise_setback_from(face_where_toward_positive_eq_clockwise, row)
                }
            },
            DecidedMove::InnerCol { face, col, toward_positive: anticlockwise } => {
                let face_where_toward_positive_eq_anticlockwise = match face {
                    Face::Up | Face::Down | Face::Front => Face::Left,
                    Face::Right => Face::Front,
                    Face::Back => Face::Right,
                    Face::Left => Face::Back,
                };
                if anticlockwise {
                    Rotation::anticlockwise_setback_from(face_where_toward_positive_eq_anticlockwise, col)
                } else {
                    Rotation::clockwise_setback_from(face_where_toward_positive_eq_anticlockwise, col)
                }
            },
        }
    }
}

/// The whole-face turn that a drag along the outer column or row of a face makes.
#[derive(Debug, Copy, Clone, PartialEq, Eq, Structural)]
pub struct TranslatedDragForWholeFace {
    /// The face to turn.
    pub face: Face,
    /// The direction to turn it in.
    pub direction: Direction,
}

/// The face turned by dragging the first column (`col_0`) or the last of `dragged_face` up or
/// down.
pub open spec fn vertical_drag_face(dragged_face: Face, col_0: bool) -> Face {
    match dragged_face {
        Face::Up | Face::Down | Face::Front => if col_0 { Face::Left } else { Face::Right },
        Face::Back => if col_0 { Face::Right } else { Face::Left },
        Face::Right => if col_0 { Face::Front } else { Face::Back },
        Face::Left => if col_0 { Face::Back } else { Face::Front },
    }
}

/// The face turned by dragging the first row (`row_0`) or the last of `dragged_face` sideways.
pub open spec fn horizontal_drag_face(dragged_face: Face, row_0: bool) -> Face {
    match dragged_face {
        Face::Up => if row_0 { Face::Front } else { Face::Back },
        Face::Down => if row_0 { Face::Back } else { Face::Front },
        _ => if row_0 { Face::Down } else { Face::Up },
    }
}

/// Translate a drag of the outer column `col` of `dragged_face` into the turn of the face that
/// the column lies on: dragging the first column toward the positive end turns it anticlockwise,
/// and the last column clockwise.
pub fn translate_vertical_drag_for_whole_face(col: usize, dragged_face: Face, toward_positive: bool) -> (t: TranslatedDragForWholeFace)
    ensures
        t.face == vertical_drag_face(dragged_face, col == 0),
        t.direction == direction_when((col == 0) != toward_positive),
        adjacent_slot(t.face, dragged_face) >= 0,
        edge_bordering(dragged_face, t.face) == if col == 0 {
            IndexAlignment::OuterStart
        } else {
            IndexAlignment::OuterEnd
        },
{
    let col_0 = col == 0;
    let face = match dragged_face {
        Face::Up | Face::Down | Face::Front => if col_0 { Face::Left } else { Face::Right },
        Face::Back => if col_0 { Face::Right } else { Face::Left },
        Face::Right => if col_0 { Face::Front } else { Face::Back },
        Face::Left => if col_0 { Face::Back } else { Face::Front },
    };
    let clockwise = if col_0 { !toward_positive } else { toward_positive };
    let direction = if clockwise {
        Direction::Clockwise
    } else {
        Direction::Anticlockwise
    };
    TranslatedDragForWholeFace { face, direction }
}

/// Translate a drag of the outer row `row` of `dragged_face` into the turn of the face that the
/// row lies on: dragging the first row toward the positive end turns it clockwise, and the last
/// row anticlockwise.
pub fn translate_horizontal_drag_for_whole_face(row: usize, dragged_face: Face, toward_positive: bool) -> (t: TranslatedDragForWholeFace)
    ensures
        t.face == horizontal_drag_face(dragged_face, row == 0),
        t.direction == direction_when((row == 0) == toward_positive),
        adjacent_slot(t.face, dragged_face) >= 0,
        edge_bordering(dragged_face, t.face) == if row == 0 {
            IndexAlignment::InnerLast
        } else {
            IndexAlignment::InnerFirst
        },
{
    let row_0 = row == 0;
    let face = match dragged_face {
        Face::Up => if row_0 { Face::Front } else { Face::Back },
        Face::Down => if row_0 { Face::Back } else { Face::Front },
        Face::Front | Face::Right | Face::Back | Face::Left => if row_0 { Face::Down } else { Face::Up },
    };
    let clockwise = if row_0 { toward_positive } else { !toward_positive };
    let direction = if clockwise {
        Direction::Clockwise
    } else {
        Direction::Anticlockwise
    };
    TranslatedDragForWholeFace { face, direction }
}

/// The cubie at column `x`, row `y` of `face` takes part in a quarter turn of the layer of
/// `rotation`: it is on the turning face, on the line of the layer on a face around it, or, on a
/// cube of a single cubie, on the opposite face.
pub open spec fn takes_part(face: Face, n: int, x: int, y: int, rotation: Rotation) -> bool {
    ||| moved_by(n, rotation.relative_to, kind_layer(rotation.kind) as int, (face, y, x))
    ||| n == 1 && face == rotation.relative_to.opposite()
}

/// Whether the cubie at column `x`, row `y` of `face` moves in the animation of `rotation`, a
/// turn of a single layer, on a cube of side length `side_length`.
pub fn should_apply_anim(face: Face, side_length: usize, x: usize, y: usize, rotation: Rotation) -> (b: bool)
    requires
        rotation.kind is FaceOnly || rotation.kind is Setback,
        kind_layer(rotation.kind) < side_length,
    ensures
        b == takes_part(face, side_length as int, x as int, y as int, rotation),
{
    let layer = match rotation.kind {
        RotationKind::Setback { layer } => layer,
        _ => 0,
    };
    if face == rotation.relative_to && layer == 0 {
        return true;
    }
    proof {
        lemma_adjacent_faces(rotation.relative_to);
    }
    let adjacents = rotation.relative_to.adjacent_faces_clockwise();
    let mut i: usize = 0;
    while i < 4
        invariant
            i <= 4,
            layer == kind_layer(rotation.kind),
            layer < side_length,
            !(face == rotation.relative_to && layer == 0),
            forall|k: int| 0 <= k < 4 ==> #[trigger] adjacents@[k] == spec_adjacent(rotation.relative_to, k),
            forall|k: int| 0 <= k < 4 ==> adjacent_slot(rotation.relative_to, #[trigger] spec_adjacent(rotation.relative_to, k).0) == k,
            forall|k: int| 0 <= k < i ==> adjacents@[k].0 != face,
        decreases 4 - i,
    {
        let (f, index_alignment) = adjacents[i];
        if f == face {
            proof {
                assert(adjacent_slot(rotation.relative_to, face) == i);
            }
            return match index_alignment {
                IndexAlignment::OuterStart => x == layer,
                IndexAlignment::OuterEnd => x == side_length - 1 - layer,
                IndexAlignment::InnerFirst => y == layer,
                IndexAlignment::InnerLast => y == side_length - 1 - layer,
            };
        }
        i = i + 1;
    }
    proof {
        assert(adjacents@[0].0 != face && adjacents@[1].0 != face);
        assert(adjacents@[2].0 != face && adjacents@[3].0 != face);
        assert(adjacent_slot(rotation.relative_to, face) == -1);
    }
    side_length == 1 && face == rotation.relative_to.not()
}

/// A cubie that the animation of a quarter turn leaves still is where the turn leaves it.
pub proof fn lemma_still_cubies_stay(s: CubeState, face: Face, x: int, y: int, rotation: Rotation)
    requires
        s.wf(),
        rotation.kind is FaceOnly || rotation.kind is Setback,
        kind_layer(rotation.kind) < s.n,
        0 <= x < s.n,
        0 <= y < s.n,
        !takes_part(face, s.n as int, x, y, rotation),
    ensures
        turn_layer(s, rotation.relative_to, kind_layer(rotation.kind) as int).get(face, y, x) == s.get(face, y, x),
{
    let layer = kind_layer(rotation.kind) as int;
    lemma_turn_layer_cells(s, rotation.relative_to, layer);
    lemma_turn_source_support(s.n as int, rotation.relative_to, layer, (face, y, x));
}

/// The move that a straight drag across `dragged_face` decides on: along the x axis it moves the
/// row `index`, otherwise the column `index`; an inner row or column moves on its own, and the
/// first or last turns the whole face it lies on.
pub open spec fn spec_straight_drag_to_move(
    side_length: int,
    dragged_face: Face,
    move_along_x: bool,
    toward_positive: bool,
    index: usize,
) -> DecidedMove {
    let outer = index == 0 || index == side_length - 1;
    if move_along_x {
        if outer {
            DecidedMove::WholeFace {
                face: horizontal_drag_face(dragged_face, index == 0),
                direction: direction_when((index == 0) == toward_positive),
            }
        } else {
            DecidedMove::InnerRow { face: dragged_face, row: index, toward_positive }
        }
    } else {
        if outer {
            DecidedMove::WholeFace {
                face: vertical_drag_face(dragged_face, index == 0),
                direction: direction_when((index == 0) != toward_positive),
            }
        } else {
            DecidedMove::InnerCol { face: dragged_face, col: index, toward_positive }
        }
    }
}

/// Decide on the move that a straight drag across `dragged_face` of a cube of side length
/// `side_length` makes, given the row (when the drag went along the x axis) or column it started
/// on, and whether it went toward the positive end.
pub fn straight_drag_to_move(
    side_length: usize,
    dragged_face: Face,
    move_along_x: bool,
    toward_positive: bool,
    index: usize,
) -> (decided: DecidedMove)
    requires
        side_length >= 1,
    ensures
        decided == spec_straight_drag_to_move(
            side_length as int,
            dragged_face,
            move_along_x,
            toward_positive,
            index,
        ),
        index < side_length ==> turn_follows_drag(
            side_length as int,
            dragged_face,
            move_along_x,
            toward_positive,
            index as int,
            decided.spec_as_rotation(),
        ),
{
    proof {
        if index < side_length {
            lemma_straight_drag_follows(side_length as int, dragged_face, move_along_x, toward_positive, index);
        }
    }
    let TranslatedDragForWholeFace { face, direction } = if move_along_x {
        let row = index;
        if row != 0 && row != side_length - 1 {
            return DecidedMove::InnerRow { face: dragged_face, row, toward_positive };
        }
        translate_horizontal_drag_for_whole_face(row, dragged_face, toward_positive)
    } else {
        let col = index;
        if col != 0 && col != side_length - 1 {
            return DecidedMove::InnerCol { face: dragged_face, col, toward_positive };
        }
        translate_vertical_drag_for_whole_face(col, dragged_face, toward_positive)
    };
    DecidedMove::WholeFace { face, direction }
}

/// The cell at row `r`, column `c` of a side lies on the line that a straight drag moves: along
/// the x axis the row `index` counted from the bottom of the side, else the column `index`.
pub open spec fn on_dragged_line(n: int, along_x: bool, index: int, r: int, c: int) -> bool {
    if along_x {
        r == n - 1 - index
    } else {
        c == index
    }
}

/// The edge of a side that a straight drag heads for: the last column toward positive x, the
/// first toward negative x, the top row toward positive y, the bottom row toward negative y.
pub open spec fn leading_edge(along_x: bool, toward_positive: bool) -> IndexAlignment {
    if along_x {
        if toward_positive {
            IndexAlignment::OuterEnd
        } else {
            IndexAlignment::OuterStart
        }
    } else {
        if toward_positive {
            IndexAlignment::InnerFirst
        } else {
            IndexAlignment::InnerLast
        }
    }
}

/// The edge of the side of `g` along which it borders the face `h`.
pub open spec fn edge_bordering(g: Face, h: Face) -> IndexAlignment {
    spec_adjacent(h, adjacent_slot(h, g)).1
}

/// A quarter turn of the layer of `rotation` moves the line of `g` that a straight drag moves,
/// and only that line of `g`, the way the drag goes: turned clockwise, each cell of the line
/// takes its cubie from the face behind the drag; turned anticlockwise, which undoes that, each
/// cell gives its cubie to the face ahead of the drag.
pub open spec fn turn_follows_drag(
    n: int,
    g: Face,
    along_x: bool,
    toward_positive: bool,
    index: int,
    rotation: Rotation,
) -> bool {
    let f = rotation.relative_to;
    let l = kind_layer(rotation.kind) as int;
    let lead = leading_edge(along_x, toward_positive);
    &&& rotation.kind is FaceOnly || rotation.kind is Setback
    &&& forall|r: int, c: int|
        0 <= r < n && 0 <= c < n ==> (#[trigger] moved_by(n, f, l, (g, r, c)) <==> on_dragged_line(
            n,
            along_x,
            index,
            r,
            c,
        ))
    &&& forall|r: int, c: int|
        0 <= r < n && 0 <= c < n && on_dragged_line(n, along_x, index, r, c) ==> {
            let src = #[trigger] source_cell(n, f, l, (g, r, c)).0;
            &&& adjacent_slot(src, g) >= 0
            &&& edge_bordering(g, src) == if rotation.direction == Direction::Clockwise {
                opposite_edge(lead)
            } else {
                lead
            }
        }
}

/// Moving an inner row or column of a side turns the layer of the cube that holds that row or
/// column, the way the drag goes.
pub proof fn lemma_inner_move_follows_drag(n: int, m: DecidedMove)
    requires
        m is InnerRow ==> 0 < m->InnerRow_row < n - 1,
        m is InnerCol ==> 0 < m->InnerCol_col < n - 1,
        !(m is WholeFace),
    ensures
        match m {
            DecidedMove::InnerRow { face, row, toward_positive } => turn_follows_drag(
                n,
                face,
                true,
                toward_positive,
                row as int,
                m.spec_as_rotation(),
            ),
            DecidedMove::InnerCol { face, col, toward_positive } => turn_follows_drag(
                n,
                face,
                false,
                toward_positive,
                col as int,
                m.spec_as_rotation(),
            ),
            DecidedMove::WholeFace { .. } => true,
        },
{
    let rot = m.spec_as_rotation();
    lemma_adjacent_faces(rot.relative_to);
}

/// A straight drag across a side decides on a move that turns the layer of the cube holding the
/// dragged row or column, the way the drag goes: an outer row or column turns the whole face
/// that it lies on, an inner one the layer behind a face.
pub proof fn lemma_straight_drag_follows(
    n: int,
    g: Face,
    along_x: bool,
    toward_positive: bool,
    index: usize,
)
    requires
        1 <= n,
        index < n,
    ensures
        turn_follows_drag(
            n,
            g,
            along_x,
            toward_positive,
            index as int,
            spec_straight_drag_to_move(n, g, along_x, toward_positive, index).spec_as_rotation(),
        ),
{
    let m = spec_straight_drag_to_move(n, g, along_x, toward_positive, index);
    let rot = m.spec_as_rotation();
    lemma_adjacent_faces(rot.relative_to);
}

} // verus!
