use core::ops::Not;
use vstd::prelude::*;

use self::cubie_face::CubieFace;
use self::direction::Direction;
use self::face::{
    Face, IndexAlignment as IA, adjacent_slot, lemma_adjacent_faces, line_cell, line_place, on_line,
    spec_adjacent,
};
use self::flat_side::{FlatSide, LayerError, is_square, rotated_clockwise};
use self::helpers::{
    create_side, create_side_with_unique_characters, get_clockwise_slice_of_side_setback, line_of,
    missing_line_error, reversed_copy, unique_char,
};
use self::rotation::{drawable, Rotation, RotationKind};
use self::side_lengths::{SideLength, UniqueCharsSideLength};

/// An enum representing clockwise and anti-clockwise directions for a rotation.
pub mod direction;

/// An enum representing the faces of a cube, and the adjacency of faces used to rotate them.
pub mod face;

/// An enum representing an individual cubie within one side of the cube, hence it only represents one face of the cubie.
pub mod cubie_face;

/// A side of the cube stored as a single row-major `Vec`.
pub mod flat_side;

/// Structs that ensure cubes are constructed with only valid values for side length, depending on the type of cube.
pub mod side_lengths;

/// Module defining the Rotation type that represents a single 90° rotation of some part of a cube.
pub mod rotation;

/// Helpers that create sides and read the lines of a side that a rotation moves.
pub mod helpers;

/// Laws that the cube's rotations obey.
pub mod laws;

/// Twists of a single inner ring of cubies, without turning any face.
pub mod cube_slice;

/// The net of the cube, laid out as it is printed.
pub mod layout;

/// Rotations only move cubies: none is ever made or lost.
pub mod conservation;

/// Every rotation changes a solved cube.
pub mod change;

/// Which faces of a cube a rotation reaches.
pub mod faces_reached;

/// Rotations of several layers, made one layer at a time.
pub mod by_layers;

verus! {

/// The facelets of a cube of side length `n`: the grid of cubies on each of its six sides.
#[verifier::ext_equal]
pub struct CubeState {
    pub n: nat,
    pub up: Seq<Seq<CubieFace>>,
    pub down: Seq<Seq<CubieFace>>,
    pub front: Seq<Seq<CubieFace>>,
    pub right: Seq<Seq<CubieFace>>,
    pub back: Seq<Seq<CubieFace>>,
    pub left: Seq<Seq<CubieFace>>,
}

impl CubeState {
    /// The grid of cubies on `face`.
    pub open spec fn side(self, face: Face) -> Seq<Seq<CubieFace>> {
        match face {
            Face::Up => self.up,
            Face::Down => self.down,
            Face::Front => self.front,
            Face::Right => self.right,
            Face::Back => self.back,
            Face::Left => self.left,
        }
    }

    /// The cubie at row `r`, column `c` of `face`.
    pub open spec fn get(self, face: Face, r: int, c: int) -> CubieFace {
        self.side(face)[r][c]
    }

    /// The cube has at least one cubie along each edge and every side is `n` by `n`.
    pub open spec fn wf(self) -> bool {
        &&& self.n >= 1
        &&& is_square(self.up, self.n)
        &&& is_square(self.down, self.n)
        &&& is_square(self.front, self.n)
        &&& is_square(self.right, self.n)
        &&& is_square(self.back, self.n)
        &&& is_square(self.left, self.n)
    }

    /// The same cube with the grid on `face` replaced by `grid`.
    pub open spec fn with_side(self, face: Face, grid: Seq<Seq<CubieFace>>) -> CubeState {
        match face {
            Face::Up => CubeState { up: grid, ..self },
            Face::Down => CubeState { down: grid, ..self },
            Face::Front => CubeState { front: grid, ..self },
            Face::Right => CubeState { right: grid, ..self },
            Face::Back => CubeState { back: grid, ..self },
            Face::Left => CubeState { left: grid, ..self },
        }
    }

    /// The cube whose cubie at row `r`, column `c` of face `f` is `cell(f, r, c)`.
    pub open spec fn from_cells(n: nat, cell: spec_fn(Face, int, int) -> CubieFace) -> CubeState {
        CubeState {
            n,
            up: Seq::new(n, |r: int| Seq::new(n, |c: int| cell(Face::Up, r, c))),
            down: Seq::new(n, |r: int| Seq::new(n, |c: int| cell(Face::Down, r, c))),
            front: Seq::new(n, |r: int| Seq::new(n, |c: int| cell(Face::Front, r, c))),
            right: Seq::new(n, |r: int| Seq::new(n, |c: int| cell(Face::Right, r, c))),
            back: Seq::new(n, |r: int| Seq::new(n, |c: int| cell(Face::Back, r, c))),
            left: Seq::new(n, |r: int| Seq::new(n, |c: int| cell(Face::Left, r, c))),
        }
    }
}

/// Two well-formed cubes of the same size with the same cubie at every place are the same cube.
pub proof fn lemma_state_ext(a: CubeState, b: CubeState)
    requires
        a.wf(),
        b.wf(),
        a.n == b.n,
        forall|f: Face, r: int, c: int|
            0 <= r < a.n && 0 <= c < a.n ==> #[trigger] a.get(f, r, c) == b.get(f, r, c),
    ensures
        a == b,
{
    assert forall|f: Face| #[trigger] a.side(f) =~~= b.side(f) by {
        assert forall|r: int| 0 <= r < a.n implies #[trigger] a.side(f)[r] =~= b.side(f)[r] by {
            assert forall|c: int| 0 <= c < a.n implies a.side(f)[r][c] == b.side(f)[r][c] by {
                assert(a.get(f, r, c) == b.get(f, r, c));
            }
        }
    }
    assert(a.up =~~= b.up) by { assert(a.side(Face::Up) =~~= b.side(Face::Up)); }
    assert(a.down =~~= b.down) by { assert(a.side(Face::Down) =~~= b.side(Face::Down)); }
    assert(a.front =~~= b.front) by { assert(a.side(Face::Front) =~~= b.side(Face::Front)); }
    assert(a.right =~~= b.right) by { assert(a.side(Face::Right) =~~= b.side(Face::Right)); }
    assert(a.back =~~= b.back) by { assert(a.side(Face::Back) =~~= b.side(Face::Back)); }
    assert(a.left =~~= b.left) by { assert(a.side(Face::Left) =~~= b.side(Face::Left)); }
}

/// Where the cubie that a clockwise quarter turn of layer `layer` behind `face` brings to row
/// `r`, column `c` of face `g` comes from, on a cube of side length `n`.
///
/// When `layer` is 0 the face itself turns a quarter clockwise. The line of cubies at that layer
/// on each of the four faces around `face` moves onto the next of those faces, clockwise.
/// Every other cubie stays where it is.
pub open spec fn turn_source(n: int, face: Face, layer: int, g: Face, r: int, c: int) -> (Face, int, int) {
    if g == face && layer == 0 {
        (face, n - 1 - c, r)
    } else {
        let j = adjacent_slot(face, g);
        if j >= 0 && on_line(spec_adjacent(face, j).1, n, layer, r, c) {
            let k = line_place(spec_adjacent(face, j).1, n, layer, r, c);
            let prev = spec_adjacent(face, (j + 3) % 4);
            let cell = line_cell(prev.1, n, layer, k);
            (prev.0, cell.0, cell.1)
        } else {
            (g, r, c)
        }
    }
}

/// The cubie that a clockwise quarter turn of layer `layer` behind `face` brings to row `r`,
/// column `c` of face `g`.
pub open spec fn turned_cell(s: CubeState, face: Face, layer: int, g: Face, r: int, c: int) -> CubieFace {
    let src = turn_source(s.n as int, face, layer, g, r, c);
    s.get(src.0, src.1, src.2)
}

/// The cube after a clockwise quarter turn of layer `layer` behind `face`.
pub open spec fn turn_layer(s: CubeState, face: Face, layer: int) -> CubeState {
    CubeState::from_cells(s.n, |g: Face, r: int, c: int| turned_cell(s, face, layer, g, r, c))
}

/// Each cubie of the turned cube is the one `turned_cell` names, and the turned cube is well formed.
pub proof fn lemma_turn_layer_cells(s: CubeState, face: Face, layer: int)
    requires
        s.wf(),
    ensures
        turn_layer(s, face, layer).wf(),
        turn_layer(s, face, layer).n == s.n,
        forall|g: Face, r: int, c: int|
            0 <= r < s.n && 0 <= c < s.n ==> #[trigger] turn_layer(s, face, layer).get(g, r, c)
                == turned_cell(s, face, layer, g, r, c),
{
}

/// The cubies of the grid `g`, with the line on edge `alignment` at `layer` replaced by `values`.
pub open spec fn write_line(
    g: Seq<Seq<CubieFace>>,
    alignment: IA,
    n: int,
    layer: int,
    values: Seq<CubieFace>,
) -> Seq<Seq<CubieFace>> {
    Seq::new(
        n as nat,
        |r: int|
            Seq::new(
                n as nat,
                |c: int|
                    if on_line(alignment, n, layer, r, c) {
                        values[line_place(alignment, n, layer, r, c)]
                    } else {
                        g[r][c]
                    },
            ),
    )
}

/// The cell at place `k` of a line lies on that line, inside the side, and has place `k`; a
/// cell on a line is the cell at its place.
pub proof fn lemma_line_cells(alignment: IA, n: int, layer: int)
    requires
        0 <= layer < n,
    ensures
        forall|k: int|
            0 <= k < n ==> {
                let cell = #[trigger] line_cell(alignment, n, layer, k);
                &&& 0 <= cell.0 < n
                &&& 0 <= cell.1 < n
                &&& on_line(alignment, n, layer, cell.0, cell.1)
                &&& line_place(alignment, n, layer, cell.0, cell.1) == k
            },
        forall|r: int, c: int|
            0 <= r < n && 0 <= c < n && #[trigger] on_line(alignment, n, layer, r, c) ==> {
                let k = line_place(alignment, n, layer, r, c);
                &&& 0 <= k < n
                &&& line_cell(alignment, n, layer, k) == (r, c)
            },
{
}

/// The cube after the steps of a clockwise quarter turn of layer `layer` behind `face`, taken
/// one at a time: turn the face itself when `layer` is 0, read the line at `layer` on each of
/// the four faces around it, then write each line onto the next face clockwise.
pub open spec fn turn_by_lines(s: CubeState, face: Face, layer: int) -> CubeState {
    let s1 = if layer == 0 {
        s.with_side(face, rotated_clockwise(s.side(face)))
    } else {
        s
    };
    lines_moved(s1, face, layer)
}

/// The cube after the line at `layer` on each of the four faces around `face` is written onto
/// the next of those faces, clockwise.
pub open spec fn lines_moved(s1: CubeState, face: Face, layer: int) -> CubeState {
    let n = s1.n as int;
    let a0 = spec_adjacent(face, 0);
    let a1 = spec_adjacent(face, 1);
    let a2 = spec_adjacent(face, 2);
    let a3 = spec_adjacent(face, 3);
    let l0 = line_of(s1.side(a0.0), a0.1, n, layer);
    let l1 = line_of(s1.side(a1.0), a1.1, n, layer);
    let l2 = line_of(s1.side(a2.0), a2.1, n, layer);
    let l3 = line_of(s1.side(a3.0), a3.1, n, layer);
    let s2 = s1.with_side(a1.0, write_line(s1.side(a1.0), a1.1, n, layer, l0));
    let s3 = s2.with_side(a2.0, write_line(s2.side(a2.0), a2.1, n, layer, l1));
    let s4 = s3.with_side(a3.0, write_line(s3.side(a3.0), a3.1, n, layer, l2));
    s4.with_side(a0.0, write_line(s4.side(a0.0), a0.1, n, layer, l3))
}

/// The grid on face `g` after the steps of `turn_by_lines`, described face by face.
pub open spec fn lines_side(s: CubeState, face: Face, layer: int, g: Face) -> Seq<Seq<CubieFace>> {
    let n = s.n as int;
    if g == face {
        if layer == 0 {
            rotated_clockwise(s.side(face))
        } else {
            s.side(face)
        }
    } else {
        let j = adjacent_slot(face, g);
        if j >= 0 {
            let prev = spec_adjacent(face, (j + 3) % 4);
            write_line(
                s.side(g),
                spec_adjacent(face, j).1,
                n,
                layer,
                line_of(s.side(prev.0), prev.1, n, layer),
            )
        } else {
            s.side(g)
        }
    }
}

/// The steps of `turn_by_lines` leave each face as `lines_side` describes it.
#[verifier::spinoff_prover]
#[verifier::rlimit(60)]
proof fn lemma_turn_by_lines_sides(s: CubeState, face: Face, layer: int, g: Face)
    ensures
        turn_by_lines(s, face, layer).side(g) == lines_side(s, face, layer, g),
        turn_by_lines(s, face, layer).n == s.n,
{
    lemma_adjacent_faces(face);
    match face {
        Face::Up => {},
        Face::Down => {},
        Face::Front => {},
        Face::Right => {},
        Face::Back => {},
        Face::Left => {},
    }
}

/// `lines_side` holds, at each cell, the cubie that the quarter turn brings there.
#[verifier::spinoff_prover]
#[verifier::rlimit(60)]
proof fn lemma_lines_side_cells(s: CubeState, face: Face, layer: int, g: Face, r: int, c: int)
    requires
        s.wf(),
        0 <= layer < s.n,
        0 <= r < s.n,
        0 <= c < s.n,
    ensures
        lines_side(s, face, layer, g)[r][c] == turn_layer(s, face, layer).get(g, r, c),
        lines_side(s, face, layer, g).len() == s.n,
        lines_side(s, face, layer, g)[r].len() == s.n,
{
    let n = s.n as int;
    lemma_turn_layer_cells(s, face, layer);
    lemma_adjacent_faces(face);
    assert(is_square(s.side(g), s.n));
    assert(is_square(s.side(face), s.n));
    if g == face {
    } else {
        let j = adjacent_slot(face, g);
        if j >= 0 {
            let a = spec_adjacent(face, j).1;
            let prev = spec_adjacent(face, (j + 3) % 4);
            lemma_line_cells(a, n, layer);
            lemma_line_cells(prev.1, n, layer);
            assert(is_square(s.side(prev.0), s.n));
            if on_line(a, n, layer, r, c) {
                let k = line_place(a, n, layer, r, c);
                assert(0 <= k < n);
            }
        }
    }
}

/// Taking the steps of a quarter turn one at a time gives the quarter turn.
pub proof fn lemma_turn_by_lines(s: CubeState, face: Face, layer: int)
    requires
        s.wf(),
        0 <= layer < s.n,
    ensures
        turn_by_lines(s, face, layer) == turn_layer(s, face, layer),
        turn_layer(s, face, layer).wf(),
{
    let n = s.n as int;
    let t = turn_layer(s, face, layer);
    let b = turn_by_lines(s, face, layer);
    assert(t.wf());
    assert forall|g: Face| is_square(#[trigger] b.side(g), s.n) by {
        lemma_turn_by_lines_sides(s, face, layer, g);
        assert forall|r: int| 0 <= r < n implies #[trigger] b.side(g)[r].len() == n by {
            lemma_lines_side_cells(s, face, layer, g, r, 0);
        }
        lemma_lines_side_cells(s, face, layer, g, 0, 0);
    }
    assert(b.wf()) by {
        lemma_turn_by_lines_sides(s, face, layer, Face::Up);
        assert(is_square(b.side(Face::Up), s.n));
        assert(is_square(b.side(Face::Down), s.n));
        assert(is_square(b.side(Face::Front), s.n));
        assert(is_square(b.side(Face::Right), s.n));
        assert(is_square(b.side(Face::Back), s.n));
        assert(is_square(b.side(Face::Left), s.n));
    }
    assert forall|g: Face, r: int, c: int| 0 <= r < n && 0 <= c < n implies #[trigger] b.get(g, r, c)
        == t.get(g, r, c) by {
        lemma_turn_by_lines_sides(s, face, layer, g);
        lemma_lines_side_cells(s, face, layer, g, r, c);
    }
    lemma_state_ext(b, t);
}
/// What a rotation leaves: the cube after it, and whether every layer it asked for existed.
pub type Outcome = (CubeState, Result<(), LayerError>);

/// One clockwise quarter turn of layer `layer` behind `face`: it happens when the cube has that
/// layer, and otherwise the cube stays as it is and the missing layer is reported.
pub open spec fn layer_step(s: CubeState, face: Face, layer: usize) -> Outcome {
    if layer < s.n {
        (turn_layer(s, face, layer as int), Ok(()))
    } else {
        (s, Err(missing_line_error(spec_adjacent(face, 0).1, layer)))
    }
}

/// The layer that a rotation of a single layer turns.
pub open spec fn kind_layer(kind: RotationKind) -> usize {
    match kind {
        RotationKind::Setback { layer } => layer,
        _ => 0,
    }
}

/// What a normalised rotation of a single layer does: one quarter turn clockwise, or three
/// anticlockwise, stopping at the first that fails.
pub open spec fn single_outcome(s: CubeState, r: Rotation) -> Outcome {
    let layer = kind_layer(r.kind);
    let o1 = layer_step(s, r.relative_to, layer);
    if r.direction == Direction::Clockwise {
        o1
    } else if o1.1 is Err {
        o1
    } else {
        let o2 = layer_step(o1.0, r.relative_to, layer);
        if o2.1 is Err {
            o2
        } else {
            layer_step(o2.0, r.relative_to, layer)
        }
    }
}

/// The rotation of the single layer `layer` in the reference frame and direction of `r`.
pub open spec fn setback_of(r: Rotation, layer: usize) -> Rotation {
    Rotation { kind: RotationKind::Setback { layer }, ..r }
}

/// Rotating each layer from `lo` to `hi` in turn, normalised, stopping at the first that fails.
pub open spec fn setbacks_outcome(s: CubeState, r: Rotation, lo: int, hi: int) -> Outcome
    decreases hi + 1 - lo,
{
    if lo > hi || lo < 0 || lo > usize::MAX {
        (s, Ok(()))
    } else {
        let o = single_outcome(s, setback_of(r, lo as usize).spec_normalise(s.n as int));
        if o.1 is Err {
            o
        } else {
            setbacks_outcome(o.0, r, lo + 1, hi)
        }
    }
}

/// What a normalised clockwise rotation does.
pub open spec fn clockwise_outcome(s: CubeState, r: Rotation) -> Outcome {
    match r.kind {
        RotationKind::Multilayer { layer } => setbacks_outcome(s, r, 0, layer as int),
        RotationKind::MultiSetback { start_layer, end_layer } => setbacks_outcome(
            s,
            r,
            start_layer as int,
            end_layer as int,
        ),
        _ => single_outcome(s, r),
    }
}

/// What rotating the cube by `r` does: the rotation is normalised, and an anticlockwise rotation
/// is made as three clockwise ones, stopping at the first that fails.
pub open spec fn rotate_outcome(s: CubeState, r: Rotation) -> Outcome {
    let m = r.spec_normalise(s.n as int);
    if m.direction == Direction::Clockwise {
        clockwise_outcome(s, m)
    } else {
        let c = m.inverted();
        let o1 = clockwise_outcome(s, c);
        if o1.1 is Err {
            o1
        } else {
            let o2 = clockwise_outcome(o1.0, c);
            if o2.1 is Err {
                o2
            } else {
                clockwise_outcome(o2.0, c)
            }
        }
    }
}

/// A quarter turn keeps the cube well formed and of the same size, and succeeds exactly when
/// the layer exists.
pub proof fn lemma_layer_step(s: CubeState, face: Face, layer: usize)
    requires
        s.wf(),
    ensures
        layer_step(s, face, layer).0.wf(),
        layer_step(s, face, layer).0.n == s.n,
        layer_step(s, face, layer).1 is Ok <==> layer < s.n,
{
    lemma_turn_layer_cells(s, face, layer as int);
}

/// A rotation of a single layer keeps the cube well formed and of the same size, and succeeds
/// exactly when the layer exists.
pub proof fn lemma_single_outcome(s: CubeState, r: Rotation)
    requires
        s.wf(),
    ensures
        single_outcome(s, r).0.wf(),
        single_outcome(s, r).0.n == s.n,
        single_outcome(s, r).1 is Ok <==> kind_layer(r.kind) < s.n,
{
    let layer = kind_layer(r.kind);
    lemma_layer_step(s, r.relative_to, layer);
    let o1 = layer_step(s, r.relative_to, layer);
    lemma_layer_step(o1.0, r.relative_to, layer);
    let o2 = layer_step(o1.0, r.relative_to, layer);
    lemma_layer_step(o2.0, r.relative_to, layer);
}

/// Rotating the layers `lo` to `hi` one at a time keeps the cube well formed and of the same
/// size, and succeeds exactly when every one of those layers exists.
pub proof fn lemma_setbacks_outcome(s: CubeState, r: Rotation, lo: int, hi: int)
    requires
        s.wf(),
        0 <= lo,
        hi < usize::MAX,
    ensures
        setbacks_outcome(s, r, lo, hi).0.wf(),
        setbacks_outcome(s, r, lo, hi).0.n == s.n,
        setbacks_outcome(s, r, lo, hi).1 is Ok <==> (lo > hi || hi < s.n),
    decreases hi + 1 - lo,
{
    if lo <= hi {
        let sub = setback_of(r, lo as usize).spec_normalise(s.n as int);
        lemma_single_outcome(s, sub);
        let o = single_outcome(s, sub);
        assert(kind_layer(sub.kind) < s.n <==> lo < s.n);
        if o.1 is Ok {
            lemma_setbacks_outcome(o.0, r, lo + 1, hi);
        }
    }
}

/// A normalised clockwise rotation keeps the cube well formed and of the same size, and
/// succeeds exactly when every layer it turns exists.
pub proof fn lemma_clockwise_outcome(s: CubeState, r: Rotation)
    requires
        s.wf(),
        r.well_formed(),
        r == r.spec_normalise(s.n as int),
    ensures
        clockwise_outcome(s, r).0.wf(),
        clockwise_outcome(s, r).0.n == s.n,
        clockwise_outcome(s, r).1 is Ok <==> r.fits(s.n as int),
{
    match r.kind {
        RotationKind::Multilayer { layer } => {
            lemma_setbacks_outcome(s, r, 0, layer as int);
        },
        RotationKind::MultiSetback { start_layer, end_layer } => {
            lemma_setbacks_outcome(s, r, start_layer as int, end_layer as int);
        },
        _ => {
            lemma_single_outcome(s, r);
        },
    }
}

/// Rotating a cube keeps it well formed and of the same size, and succeeds exactly when every
/// layer the rotation turns exists on the cube.
pub proof fn lemma_rotate_outcome(s: CubeState, r: Rotation)
    requires
        s.wf(),
        r.well_formed(),
    ensures
        rotate_outcome(s, r).0.wf(),
        rotate_outcome(s, r).0.n == s.n,
        rotate_outcome(s, r).1 is Ok <==> r.fits(s.n as int),
{
    let n = s.n as int;
    rotation::lemma_normalise_idempotent(r, n);
    let m = r.spec_normalise(n);
    rotation::lemma_normalise_inverted(m, n);
    assert(m.fits(n) <==> r.fits(n));
    if m.direction == Direction::Clockwise {
        lemma_clockwise_outcome(s, m);
    } else {
        let c = m.inverted();
        lemma_clockwise_outcome(s, c);
        let o1 = clockwise_outcome(s, c);
        lemma_clockwise_outcome(o1.0, c);
        let o2 = clockwise_outcome(o1.0, c);
        lemma_clockwise_outcome(o2.0, c);
    }
}

/// The cubie that a newly created cube has on every place of `face`.
pub open spec fn face_colour(face: Face) -> CubieFace {
    match face {
        Face::Up => CubieFace::White(None),
        Face::Down => CubieFace::Yellow(None),
        Face::Front => CubieFace::Blue(None),
        Face::Right => CubieFace::Orange(None),
        Face::Back => CubieFace::Green(None),
        Face::Left => CubieFace::Red(None),
    }
}

/// A solved cube of side length `n`, each face of one colour.
pub open spec fn solved_state(n: nat) -> CubeState {
    CubeState::from_cells(n, |f: Face, r: int, c: int| face_colour(f))
}

/// A solved cube of side length `n` where each cubie of a face carries its own character,
/// counting up from `'0'` in row-major order.
pub open spec fn unique_chars_state(n: nat) -> CubeState {
    CubeState::from_cells(
        n,
        |f: Face, r: int, c: int| face_colour(f).with_char(Some(unique_char(r * n + c))),
    )
}

/// Rotating by each of `rotations` in order, stopping at the first that fails.
pub open spec fn sequence_outcome(s: CubeState, rotations: Seq<Rotation>) -> Outcome
    decreases rotations.len(),
{
    if rotations.len() == 0 {
        (s, Ok(()))
    } else {
        let o = rotate_outcome(s, rotations[0]);
        if o.1 is Err {
            o
        } else {
            sequence_outcome(o.0, rotations.drop_first())
        }
    }
}

/// The cube after rotating by each of `rotations` in order, carrying on past any that fail.
pub open spec fn rotations_applied(s: CubeState, rotations: Seq<Rotation>) -> CubeState
    decreases rotations.len(),
{
    if rotations.len() == 0 {
        s
    } else {
        rotate_outcome(rotations_applied(s, rotations.drop_last()), rotations.last()).0
    }
}

/// Every rotation of the sequence can be counted one layer further.
pub open spec fn all_well_formed(rotations: Seq<Rotation>) -> bool {
    forall|i: int| 0 <= i < rotations.len() ==> #[trigger] rotations[i].well_formed()
}

/// Every rotation of the sequence fits a cube of side length `n`.
pub open spec fn all_fit(rotations: Seq<Rotation>, n: int) -> bool {
    forall|i: int| 0 <= i < rotations.len() ==> #[trigger] rotations[i].fits(n)
}

/// Rotating by a sequence keeps the cube well formed and of the same size, and succeeds exactly
/// when every rotation of the sequence fits the cube.
pub proof fn lemma_sequence_outcome(s: CubeState, rotations: Seq<Rotation>)
    requires
        s.wf(),
        all_well_formed(rotations),
    ensures
        sequence_outcome(s, rotations).0.wf(),
        sequence_outcome(s, rotations).0.n == s.n,
        sequence_outcome(s, rotations).1 is Ok <==> all_fit(rotations, s.n as int),
    decreases rotations.len(),
{
    if rotations.len() > 0 {
        lemma_rotate_outcome(s, rotations[0]);
        let o = rotate_outcome(s, rotations[0]);
        let rest = rotations.drop_first();
        assert(all_well_formed(rest)) by {
            assert forall|i: int| 0 <= i < rest.len() implies #[trigger] rest[i].well_formed() by {
                assert(rest[i] == rotations[i + 1]);
            }
        }
        if o.1 is Ok {
            lemma_sequence_outcome(o.0, rest);
            if all_fit(rest, s.n as int) {
                assert forall|i: int| 0 <= i < rotations.len() implies #[trigger] rotations[i].fits(
                    s.n as int,
                ) by {
                    if i > 0 {
                        assert(rotations[i] == rest[i - 1]);
                    }
                }
            } else {
                let i = choose|i: int| 0 <= i < rest.len() && !#[trigger] rest[i].fits(s.n as int);
                assert(rest[i] == rotations[i + 1]);
            }
        }
    }
}

/// Rotating by a sequence of one rotation is rotating by it.
pub proof fn lemma_sequence_single(s: CubeState, r: Rotation)
    ensures
        sequence_outcome(s, seq![r]) == rotate_outcome(s, r),
{
    let o = rotate_outcome(s, r);
    assert(seq![r].drop_first() =~= Seq::<Rotation>::empty());
    if o.1 is Ok {
        let u: () = o.1->Ok_0;
        assert(u == ());
        assert(o.1 == Ok::<(), LayerError>(()));
        assert(sequence_outcome(o.0, Seq::<Rotation>::empty()) == (o.0, Ok::<(), LayerError>(())));
    }
}

/// Rotating by two sequences one after the other is rotating by the first, and then, when it
/// succeeded, by the second.
pub proof fn lemma_sequence_concat(s: CubeState, a: Seq<Rotation>, b: Seq<Rotation>)
    ensures
        sequence_outcome(s, a + b) == if sequence_outcome(s, a).1 is Ok {
            sequence_outcome(sequence_outcome(s, a).0, b)
        } else {
            sequence_outcome(s, a)
        },
    decreases a.len(),
{
    if a.len() == 0 {
        assert(a + b =~= b);
    } else {
        let o = rotate_outcome(s, a[0]);
        assert((a + b)[0] == a[0]);
        assert((a + b).drop_first() =~= a.drop_first() + b);
        lemma_sequence_concat(o.0, a.drop_first(), b);
    }
}

/// A representation of a cube that can be manipulated via making pre-defined rotations.
pub trait PuzzleCube: Sized {
    /// A type that holds the cubies currently on a face.
    type Side;

    /// The facelets of the cube.
    spec fn state(&self) -> CubeState;

    /// The cube is in a consistent state.
    spec fn valid(&self) -> bool;

    /// A valid cube has a well-formed state.
    proof fn lemma_valid_state(&self)
        requires
            self.valid(),
        ensures
            self.state().wf(),
    ;

    /// Returns a new cube of this type in the default state at the given size.
    fn recreate_at_size(&self, side_length: SideLength) -> (cube: Self)
        requires
            side_length.valid(),
            side_length@ * side_length@ <= usize::MAX,
        ensures
            cube.valid(),
            cube.state() == solved_state(side_length@ as nat),
    ;

    /// Returns the amount of cubies along each edge of this cube.
    fn side_length(&self) -> (n: usize)
        requires
            self.valid(),
        ensures
            n == self.state().n,
    ;

    /// Returns a given face of the cube data structure to allow fully custom rendering of the cube.
    fn side(&self, face: Face) -> &Self::Side
        requires
            self.valid(),
    ;

    /// Perform the given rotation once.
    ///
    /// # Errors
    /// Err can only be returned if the given rotation is invalid for this cube.
    fn rotate(&mut self, rotation: Rotation) -> (res: Result<(), LayerError>)
        requires
            old(self).valid(),
            rotation.well_formed(),
        ensures
            final(self).valid(),
            (final(self).state(), res) == rotate_outcome(old(self).state(), rotation),
    ;

    /// Perform `moves` random single-slice rotations on the cube.
    fn shuffle(&mut self, moves: usize)
        requires
            old(self).valid(),
        ensures
            final(self).valid(),
            final(self).state().n == old(self).state().n,
            exists|rotations: Seq<Rotation>|
                {
                    &&& rotations.len() == moves
                    &&& all_fit(rotations, old(self).state().n as int)
                    &&& all_well_formed(rotations)
                    &&& forall|j: int|
                        0 <= j < rotations.len() ==> drawable(#[trigger] rotations[j], old(self).state().n as int)
                    &&& #[trigger] rotations_applied(old(self).state(), rotations)
                        == final(self).state()
                },
    ;

    /// Iterate over `rotations` performing each rotation encountered once.
    ///
    /// # Errors
    /// Err can only be returned if any of the given rotations are invalid for this cube.
    fn rotate_seq(&mut self, rotations: Vec<Rotation>) -> (res: Result<(), LayerError>)
        requires
            old(self).valid(),
            all_well_formed(rotations@),
        ensures
            final(self).valid(),
            (final(self).state(), res) == sequence_outcome(old(self).state(), rotations@),
    ;


}

/// The `Side` type, for the provided `Cube`'s implementation of `PuzzleCube`, that holds the cubies currently on a face.
pub type DefaultSide = FlatSide;

/// An implementer of the `PuzzleCube` trait.
#[derive(Debug, PartialEq)]
pub struct Cube {
    side_length: usize,
    up: DefaultSide,
    down: DefaultSide,
    front: DefaultSide,
    right: DefaultSide,
    back: DefaultSide,
    left: DefaultSide,
}

impl Cube {
    /// The facelets of this cube.
    pub closed spec fn spec_state(&self) -> CubeState {
        CubeState {
            n: self.side_length as nat,
            up: self.up@,
            down: self.down@,
            front: self.front@,
            right: self.right@,
            back: self.back@,
            left: self.left@,
        }
    }

    /// Every side is a well-formed side of this cube's side length, which is at least 1.
    pub closed spec fn spec_valid(&self) -> bool {
        &&& self.side_length >= 1
        &&& self.up.wf() && self.up.spec_side_length() == self.side_length
        &&& self.down.wf() && self.down.spec_side_length() == self.side_length
        &&& self.front.wf() && self.front.spec_side_length() == self.side_length
        &&& self.right.wf() && self.right.spec_side_length() == self.side_length
        &&& self.back.wf() && self.back.spec_side_length() == self.side_length
        &&& self.left.wf() && self.left.spec_side_length() == self.side_length
    }

    /// The side of this cube on `face`.
    closed spec fn spec_side(&self, face: Face) -> FlatSide {
        match face {
            Face::Up => self.up,
            Face::Down => self.down,
            Face::Front => self.front,
            Face::Right => self.right,
            Face::Back => self.back,
            Face::Left => self.left,
        }
    }

    /// A valid cube has a well-formed state whose sides fit in memory.
    pub proof fn lemma_spec_valid(&self)
        requires
            self.spec_valid(),
        ensures
            self.spec_state().wf(),
            self.spec_state().n * self.spec_state().n <= usize::MAX,
    {
        self.up.lemma_square();
        self.down.lemma_square();
        self.front.lemma_square();
        self.right.lemma_square();
        self.back.lemma_square();
        self.left.lemma_square();
    }

    /// Create a new `Cube` instance with `side_length` cubies along each edge.
    pub fn create(side_length: SideLength) -> (cube: Self)
        requires
            side_length.valid(),
            side_length@ * side_length@ <= usize::MAX,
        ensures
            cube.spec_valid(),
            cube.spec_state() == solved_state(side_length@ as nat),
    {
        let cube = Self {
            side_length: side_length.into(),
            up: create_side(side_length, CubieFace::White(None)),
            down: create_side(side_length, CubieFace::Yellow(None)),
            front: create_side(side_length, CubieFace::Blue(None)),
            right: create_side(side_length, CubieFace::Orange(None)),
            back: create_side(side_length, CubieFace::Green(None)),
            left: create_side(side_length, CubieFace::Red(None)),
        };
        proof {
            side_length.lemma_valid();
            cube.lemma_spec_valid();
            let t = solved_state(side_length@ as nat);
            assert forall|f: Face, r: int, c: int|
                0 <= r < side_length@ && 0 <= c < side_length@ implies #[trigger] cube.spec_state().get(
                f,
                r,
                c,
            ) == t.get(f, r, c) by {
                assert(cube.spec_state().side(f)[r][c] == face_colour(f));
            }
            lemma_state_ext(cube.spec_state(), t);
        }
        cube
    }

    /// Create a new `Cube` instance with `side_length` cubies along each edge, where each cubie of a given colour has a unique character to represent it.
    ///
    /// This can be useful for printing out the cube to terminal to check that moves being made are exactly as expect, not just the same colours as we expect.
    pub fn create_with_unique_characters(side_length: UniqueCharsSideLength) -> (cube: Self)
        requires
            side_length.valid(),
        ensures
            cube.spec_valid(),
            cube.spec_state() == unique_chars_state(side_length@ as nat),
    {
        let cube = Self {
            side_length: side_length.into(),
            up: create_side_with_unique_characters(side_length, CubieFace::White(None)),
            down: create_side_with_unique_characters(side_length, CubieFace::Yellow(None)),
            front: create_side_with_unique_characters(side_length, CubieFace::Blue(None)),
            right: create_side_with_unique_characters(side_length, CubieFace::Orange(None)),
            back: create_side_with_unique_characters(side_length, CubieFace::Green(None)),
            left: create_side_with_unique_characters(side_length, CubieFace::Red(None)),
        };
        proof {
            side_length.lemma_valid();
            cube.lemma_spec_valid();
            let n = side_length@ as nat;
            let t = unique_chars_state(n);
            assert forall|f: Face, r: int, c: int|
                0 <= r < n && 0 <= c < n implies #[trigger] cube.spec_state().get(f, r, c) == t.get(
                f,
                r,
                c,
            ) by {
                assert(cube.spec_state().side(f)[r][c] == face_colour(f).with_char(
                    Some(unique_char(r * n + c)),
                ));
            }
            lemma_state_ext(cube.spec_state(), t);
        }
        cube
    }

    /// The side of this cube on `face`.
    fn side_ref(&self, face: Face) -> (side: &DefaultSide)
        requires
            self.spec_valid(),
        ensures
            side == self.spec_side(face),
            side.wf(),
            side.spec_side_length() == self.side_length,
            side@ == self.spec_state().side(face),
    {
        match face {
            Face::Up => &self.up,
            Face::Down => &self.down,
            Face::Front => &self.front,
            Face::Right => &self.right,
            Face::Back => &self.back,
            Face::Left => &self.left,
        }
    }

    /// Turn the cubies of `face` itself a quarter clockwise, leaving the rest of the cube alone.
    fn rotate_face_90_degrees_clockwise_without_adjacents(&mut self, face: Face)
        requires
            old(self).spec_valid(),
        ensures
            final(self).spec_valid(),
            final(self).spec_state() == old(self).spec_state().with_side(
                face,
                rotated_clockwise(old(self).spec_state().side(face)),
            ),
    {
        match face {
            Face::Up => self.up.rotate_90_degrees_clockwise(),
            Face::Down => self.down.rotate_90_degrees_clockwise(),
            Face::Front => self.front.rotate_90_degrees_clockwise(),
            Face::Right => self.right.rotate_90_degrees_clockwise(),
            Face::Back => self.back.rotate_90_degrees_clockwise(),
            Face::Left => self.left.rotate_90_degrees_clockwise(),
        }
    }

    /// Replace the first `values.len()` cubies of column `x` of `face`.
    fn write_column(&mut self, face: Face, x: usize, values: &Vec<CubieFace>)
        requires
            old(self).spec_valid(),
            x < old(self).side_length,
            values.len() == old(self).side_length,
        ensures
            final(self).spec_valid(),
            final(self).spec_state() == old(self).spec_state().with_side(
                face,
                Seq::new(
                    old(self).side_length as nat,
                    |r: int| old(self).spec_state().side(face)[r].update(x as int, values@[r]),
                ),
            ),
    {
        let ghost n = self.side_length as nat;
        let ghost before = self.spec_side(face);
        let res = match face {
            Face::Up => self.up.clone_col_from(x, values.as_slice()),
            Face::Down => self.down.clone_col_from(x, values.as_slice()),
            Face::Front => self.front.clone_col_from(x, values.as_slice()),
            Face::Right => self.right.clone_col_from(x, values.as_slice()),
            Face::Back => self.back.clone_col_from(x, values.as_slice()),
            Face::Left => self.left.clone_col_from(x, values.as_slice()),
        };
        proof {
            before.lemma_square();
            let expected = Seq::new(n, |r: int| before@[r].update(x as int, values@[r]));
            assert(self.spec_side(face)@ =~= expected);
        }
    }

    /// Replace row `y` of `face` with `values`.
    fn write_row(&mut self, face: Face, y: usize, values: &Vec<CubieFace>)
        requires
            old(self).spec_valid(),
            y < old(self).side_length,
            values.len() == old(self).side_length,
        ensures
            final(self).spec_valid(),
            final(self).spec_state() == old(self).spec_state().with_side(
                face,
                old(self).spec_state().side(face).update(y as int, values@),
            ),
    {
        let res = match face {
            Face::Up => self.up.clone_row_from(y, values.as_slice()),
            Face::Down => self.down.clone_row_from(y, values.as_slice()),
            Face::Front => self.front.clone_row_from(y, values.as_slice()),
            Face::Right => self.right.clone_row_from(y, values.as_slice()),
            Face::Back => self.back.clone_row_from(y, values.as_slice()),
            Face::Left => self.left.clone_row_from(y, values.as_slice()),
        };
    }
}

impl Cube {
    /// Write `unadjusted_values`, read clockwise, onto the line of `target` at `layers_back`.
    fn copy_setback_adjacent_over(
        &mut self,
        target: (Face, IA),
        unadjusted_values: Vec<CubieFace>,
        layers_back: usize,
    ) -> (res: Result<(), LayerError>)
        requires
            old(self).spec_valid(),
            layers_back < old(self).side_length,
            unadjusted_values.len() == old(self).side_length,
        ensures
            final(self).spec_valid(),
            res is Ok,
            final(self).spec_state() == old(self).spec_state().with_side(
                target.0,
                write_line(
                    old(self).spec_state().side(target.0),
                    target.1,
                    old(self).side_length as int,
                    layers_back as int,
                    unadjusted_values@,
                ),
            ),
    {
        let (target_face, target_alignment) = target;
        let ghost s = self.spec_state();
        let ghost n = self.side_length as int;
        let ghost expected = write_line(
            s.side(target_face),
            target_alignment,
            n,
            layers_back as int,
            unadjusted_values@,
        );
        proof {
            self.lemma_spec_valid();
        }
        let values = match target_alignment {
            IA::OuterEnd | IA::InnerFirst => reversed_copy(&unadjusted_values),
            IA::OuterStart | IA::InnerLast => unadjusted_values,
        };
        let side_length = self.side_length;
        match target_alignment {
            IA::OuterStart | IA::OuterEnd => {
                let inner_index = if target_alignment == IA::OuterStart {
                    layers_back
                } else {
                    match side_length.checked_sub(layers_back + 1) {
                        Some(i) => i,
                        None => {
                            return Err(LayerError::LayerUnderflow { layer: layers_back });
                        },
                    }
                };
                self.write_column(target_face, inner_index, &values);
                proof {
                    let got = Seq::new(
                        n as nat,
                        |r: int| s.side(target_face)[r].update(inner_index as int, values@[r]),
                    );
                    assert forall|r: int| 0 <= r < n implies #[trigger] got[r] =~= expected[r] by {}
                    assert(got =~= expected);
                }
            },
            IA::InnerFirst | IA::InnerLast => {
                let outer_index = if target_alignment == IA::InnerFirst {
                    layers_back
                } else {
                    match side_length.checked_sub(layers_back + 1) {
                        Some(i) => i,
                        None => {
                            return Err(LayerError::LayerUnderflow { layer: layers_back });
                        },
                    }
                };
                self.write_row(target_face, outer_index, &values);
                proof {
                    let got = s.side(target_face).update(outer_index as int, values@);
                    assert forall|r: int| 0 <= r < n implies #[trigger] got[r] =~= expected[r] by {}
                    assert(got =~= expected);
                }
            },
        }
        Ok(())
    }

    /// Move the line at `layers_back` on each of the four faces around `face` onto the next of
    /// those faces, clockwise.
    fn rotate_adjacents_90_deg_setback_clockwise(&mut self, face: Face, layers_back: usize) -> (res:
        Result<(), LayerError>)
        requires
            old(self).spec_valid(),
            layers_back < usize::MAX,
        ensures
            final(self).spec_valid(),
            layers_back < old(self).side_length ==> res is Ok && final(self).spec_state()
                == lines_moved(old(self).spec_state(), face, layers_back as int),
            layers_back >= old(self).side_length ==> final(self).spec_state() == old(
                self,
            ).spec_state() && res == Err::<(), LayerError>(
                missing_line_error(spec_adjacent(face, 0).1, layers_back),
            ),
    {
        let ghost s = self.spec_state();
        proof {
            lemma_adjacent_faces(face);
        }
        let adjacents = face.adjacent_faces_clockwise();
        let slice_0 = get_clockwise_slice_of_side_setback(
            self.side_ref(adjacents[0].0),
            adjacents[0].1,
            layers_back,
        )?;
        let slice_1 = get_clockwise_slice_of_side_setback(
            self.side_ref(adjacents[1].0),
            adjacents[1].1,
            layers_back,
        )?;
        let slice_2 = get_clockwise_slice_of_side_setback(
            self.side_ref(adjacents[2].0),
            adjacents[2].1,
            layers_back,
        )?;
        let slice_3 = get_clockwise_slice_of_side_setback(
            self.side_ref(adjacents[3].0),
            adjacents[3].1,
            layers_back,
        )?;
        self.copy_setback_adjacent_over(adjacents[1], slice_0, layers_back)?;
        self.copy_setback_adjacent_over(adjacents[2], slice_1, layers_back)?;
        self.copy_setback_adjacent_over(adjacents[3], slice_2, layers_back)?;
        self.copy_setback_adjacent_over(adjacents[0], slice_3, layers_back)?;
        Ok(())
    }

    /// One clockwise quarter turn of the layer `layers_back` behind `face`.
    fn rotate_layer(&mut self, face: Face, layers_back: usize) -> (res: Result<(), LayerError>)
        requires
            old(self).spec_valid(),
            layers_back < usize::MAX,
        ensures
            final(self).spec_valid(),
            final(self).side_length == old(self).side_length,
            (final(self).spec_state(), res) == layer_step(old(self).spec_state(), face, layers_back),
    {
        let ghost s = self.spec_state();
        proof {
            self.lemma_spec_valid();
        }
        if layers_back == 0 {
            self.rotate_face_90_degrees_clockwise_without_adjacents(face);
        }
        let res = match self.rotate_adjacents_90_deg_setback_clockwise(face, layers_back) {
            Ok(_) => Ok(()),
            Err(e) => Err(e),
        };
        proof {
            if layers_back < s.n {
                lemma_turn_by_lines(s, face, layers_back as int);
            }
        }
        res
    }
}

impl Cube {
    /// Turn `face`, with the lines of the faces around it, a quarter clockwise.
    pub fn rotate_face_90_degrees_clockwise(&mut self, face: Face)
        requires
            old(self).spec_valid(),
        ensures
            final(self).spec_valid(),
            final(self).spec_state() == turn_layer(old(self).spec_state(), face, 0),
    {
        let _ = self.rotate_layer(face, 0);
    }

    /// Turn `face`, with the lines of the faces around it, a quarter anticlockwise: three quarter
    /// turns clockwise.
    pub fn rotate_face_90_degrees_anticlockwise(&mut self, face: Face)
        requires
            old(self).spec_valid(),
        ensures
            final(self).spec_valid(),
            final(self).spec_state() == turn_layer(
                turn_layer(turn_layer(old(self).spec_state(), face, 0), face, 0),
                face,
                0,
            ),
    {
        let _ = self.rotate_layer(face, 0);
        let _ = self.rotate_layer(face, 0);
        let _ = self.rotate_layer(face, 0);
    }

    /// A rotation of a single layer: one clockwise quarter turn, or three for an anticlockwise one.
    fn rotate_single_layer(&mut self, rotation: Rotation) -> (res: Result<(), LayerError>)
        requires
            old(self).spec_valid(),
            rotation.well_formed(),
        ensures
            final(self).spec_valid(),
            final(self).side_length == old(self).side_length,
            (final(self).spec_state(), res) == single_outcome(old(self).spec_state(), rotation),
    {
        let layer = match rotation.kind {
            RotationKind::Setback { layer } => layer,
            _ => 0,
        };
        self.rotate_layer(rotation.relative_to, layer)?;
        if rotation.direction == Direction::Anticlockwise {
            self.rotate_layer(rotation.relative_to, layer)?;
            self.rotate_layer(rotation.relative_to, layer)?;
        }
        Ok(())
    }

    /// Rotate each layer from `start_layer` to `end_layer` in turn, in the reference frame and
    /// direction of `rotation`, stopping at the first that fails.
    fn rotate_setbacks(&mut self, rotation: Rotation, start_layer: usize, end_layer: usize) -> (res:
        Result<(), LayerError>)
        requires
            old(self).spec_valid(),
            end_layer < usize::MAX,
        ensures
            final(self).spec_valid(),
            final(self).side_length == old(self).side_length,
            (final(self).spec_state(), res) == setbacks_outcome(
                old(self).spec_state(),
                rotation,
                start_layer as int,
                end_layer as int,
            ),
    {
        let ghost s0 = self.spec_state();
        let side_length = self.side_length;
        let mut layer = start_layer;
        if start_layer > end_layer {
            return Ok(());
        }
        while layer <= end_layer
            invariant
                self.spec_valid(),
                self.side_length == side_length,
                side_length == old(self).side_length,
                s0 == old(self).spec_state(),
                start_layer <= layer <= end_layer + 1,
                end_layer < usize::MAX,
                setbacks_outcome(s0, rotation, start_layer as int, end_layer as int)
                    == setbacks_outcome(self.spec_state(), rotation, layer as int, end_layer as int),
            decreases end_layer + 1 - layer,
        {
            let sub = Rotation { kind: RotationKind::Setback { layer }, ..rotation };
            let sub = sub.normalise(side_length);
            self.rotate_single_layer(sub)?;
            layer = layer + 1;
        }
        Ok(())
    }

    /// A normalised clockwise rotation.
    fn rotate_clockwise(&mut self, rotation: Rotation) -> (res: Result<(), LayerError>)
        requires
            old(self).spec_valid(),
            rotation.well_formed(),
        ensures
            final(self).spec_valid(),
            final(self).side_length == old(self).side_length,
            (final(self).spec_state(), res) == clockwise_outcome(old(self).spec_state(), rotation),
    {
        match rotation.kind {
            RotationKind::Multilayer { layer } => self.rotate_setbacks(rotation, 0, layer),
            RotationKind::MultiSetback { start_layer, end_layer } => self.rotate_setbacks(
                rotation,
                start_layer,
                end_layer,
            ),
            _ => self.rotate_single_layer(rotation),
        }
    }
}

impl PuzzleCube for Cube {
    type Side = DefaultSide;

    open spec fn state(&self) -> CubeState {
        self.spec_state()
    }

    open spec fn valid(&self) -> bool {
        self.spec_valid()
    }

    proof fn lemma_valid_state(&self) {
        self.lemma_spec_valid();
    }

    fn recreate_at_size(&self, side_length: SideLength) -> (cube: Self) {
        Cube::create(side_length)
    }

    fn side_length(&self) -> (n: usize) {
        self.side_length
    }

    fn side(&self, face: Face) -> (side: &Self::Side)
        ensures
            side.wf(),
            side.spec_side_length() == self.state().n,
            side@ == self.state().side(face),
    {
        self.side_ref(face)
    }

    fn rotate(&mut self, rotation: Rotation) -> (res: Result<(), LayerError>) {
        proof {
            rotation::lemma_normalise_idempotent(rotation, self.side_length as int);
            rotation::lemma_normalise_inverted(rotation, self.side_length as int);
        }
        let rotation = rotation.normalise(self.side_length);
        match rotation.direction {
            Direction::Anticlockwise => {
                let reversed = rotation.not();
                self.rotate_clockwise(reversed)?;
                self.rotate_clockwise(reversed)?;
                self.rotate_clockwise(reversed)?;
                Ok(())
            },
            Direction::Clockwise => self.rotate_clockwise(rotation),
        }
    }

    fn shuffle(&mut self, moves: usize)
    {
        let ghost mut done: Seq<Rotation> = seq![];
        let ghost s0 = self.state();
        proof {
            self.lemma_valid_state();
        }
        let mut i: usize = 0;
        while i < moves
            invariant
                self.valid(),
                s0 == old(self).state(),
                self.state().n == s0.n,
                s0.wf(),
                i <= moves,
                done.len() == i,
                all_fit(done, s0.n as int),
                all_well_formed(done),
                forall|j: int| 0 <= j < done.len() ==> drawable(#[trigger] done[j], s0.n as int),
                rotations_applied(s0, done) == self.state(),
            decreases moves - i,
        {
            proof {
                self.lemma_valid_state();
            }
            let rotation = Rotation::random(self.side_length());
            let ghost before = self.state();
            let _ = self.rotate(rotation);
            proof {
                lemma_rotate_outcome(before, rotation);
                let next = done.push(rotation);
                assert(next.drop_last() =~= done);
                assert(all_fit(next, s0.n as int)) by {
                    assert forall|j: int| 0 <= j < next.len() implies #[trigger] next[j].fits(
                        s0.n as int,
                    ) by {
                        if j < done.len() {
                            assert(next[j] == done[j]);
                        }
                    }
                }
                assert(all_well_formed(next)) by {
                    assert forall|j: int| 0 <= j < next.len() implies #[trigger] next[j].well_formed() by {
                        if j < done.len() {
                            assert(next[j] == done[j]);
                        }
                    }
                }
                assert forall|j: int| 0 <= j < next.len() implies drawable(#[trigger] next[j], s0.n as int) by {
                    if j < done.len() {
                        assert(next[j] == done[j]);
                    }
                }
                done = next;
            }
            i = i + 1;
        }
    }


    fn rotate_seq(&mut self, rotations: Vec<Rotation>) -> (res: Result<(), LayerError>)
    {
        let ghost s0 = self.state();
        let mut i: usize = 0;
        assert(rotations@.skip(0) =~= rotations@);
        while i < rotations.len()
            invariant
                self.valid(),
                s0 == old(self).state(),
                i <= rotations.len(),
                all_well_formed(rotations@),
                sequence_outcome(s0, rotations@) == sequence_outcome(
                    self.state(),
                    rotations@.skip(i as int),
                ),
            decreases rotations.len() - i,
        {
            proof {
                assert(rotations@.skip(i as int)[0] == rotations@[i as int]);
                assert(rotations@.skip(i as int).drop_first() =~= rotations@.skip(i + 1));
            }
            self.rotate(rotations[i])?;
            i = i + 1;
        }
        proof {
            assert(rotations@.skip(i as int) =~= Seq::<Rotation>::empty());
        }
        Ok(())
    }
}

/// `n` squared.
pub open spec fn square(n: int) -> int {
    n * n
}

/// The largest `n` with `n * n` no greater than `len`.
pub open spec fn is_floor_sqrt(n: int, len: int) -> bool {
    &&& 0 <= n
    &&& n * n <= len
    &&& len < (n + 1) * (n + 1)
}

/// The largest whole number whose square is no greater than `len`.
fn floor_sqrt(len: usize) -> (n: usize)
    ensures
        is_floor_sqrt(n as int, len as int),
{
    let mut n: usize = 0;
    while n < len && n + 1 <= len / (n + 1)
        invariant
            n <= len,
            n * n <= len,
        decreases len - n,
    {
        assert((n + 1) * (n + 1) <= len) by (nonlinear_arith)
            requires
                n + 1 <= len as int / (n + 1) as int,
                n + 1 > 0,
        ;
        n = n + 1;
    }
    proof {
        if n >= len {
            assert(len < (n + 1) * (n + 1)) by (nonlinear_arith)
                requires
                    n >= len,
                    n >= 0,
            ;
        } else {
            assert(len < (n + 1) * (n + 1)) by (nonlinear_arith)
                requires
                    n + 1 > len as int / (n + 1) as int,
                    n + 1 > 0,
            ;
        }
    }
    n
}

impl Cube {
    /// Create a new [`Cube`] instance with pre-made sides, each given in row-major order,
    /// specifically for easily defining test cases.
    ///
    /// The sides provided must all hold the same, square number of cubies.
    pub fn create_from_sides(
        up: Vec<CubieFace>,
        down: Vec<CubieFace>,
        front: Vec<CubieFace>,
        right: Vec<CubieFace>,
        back: Vec<CubieFace>,
        left: Vec<CubieFace>,
    ) -> (cube: Self)
        requires
            exists|n: int| n >= 1 && #[trigger] square(n) == up.len(),
            down.len() == up.len(),
            front.len() == up.len(),
            right.len() == up.len(),
            back.len() == up.len(),
            left.len() == up.len(),
        ensures
            cube.spec_valid(),
            cube.spec_state().n * cube.spec_state().n == up.len(),
            cube.spec_state().up == flat_side::grid_of(cube.spec_state().n, up@),
            cube.spec_state().down == flat_side::grid_of(cube.spec_state().n, down@),
            cube.spec_state().front == flat_side::grid_of(cube.spec_state().n, front@),
            cube.spec_state().right == flat_side::grid_of(cube.spec_state().n, right@),
            cube.spec_state().back == flat_side::grid_of(cube.spec_state().n, back@),
            cube.spec_state().left == flat_side::grid_of(cube.spec_state().n, left@),
    {
        let side_length = floor_sqrt(up.len());
        proof {
            let m = choose|m: int| m >= 1 && #[trigger] square(m) == up.len();
            let n = side_length as int;
            assert(m * m == up.len());
            assert(n * n <= up.len() < (n + 1) * (n + 1));
            if n < m {
                assert((n + 1) * (n + 1) <= m * m) by (nonlinear_arith)
                    requires
                        n + 1 <= m,
                        n >= 0,
                ;
            } else if n > m {
                assert((m + 1) * (m + 1) <= n * n) by (nonlinear_arith)
                    requires
                        m + 1 <= n,
                        m >= 0,
                ;
                assert(m * m < (m + 1) * (m + 1)) by (nonlinear_arith)
                    requires
                        m >= 0,
                ;
            }
            assert(n == m);
        }
        let up = FlatSide::new(side_length, up);
        let down = FlatSide::new(side_length, down);
        let front = FlatSide::new(side_length, front);
        let right = FlatSide::new(side_length, right);
        let back = FlatSide::new(side_length, back);
        let left = FlatSide::new(side_length, left);
        Self { side_length, up, down, front, right, back, left }
    }
}

impl Default for Cube {
    fn default() -> (cube: Self)
        ensures
            cube.spec_valid(),
            cube.spec_state() == solved_state(3),
    {
        let side_length = SideLength::try_from(3usize);
        proof {
            side_lengths::lemma_side_length_try_from(3);
        }
        Self::create(side_length.unwrap())
    }
}

} // verus!
