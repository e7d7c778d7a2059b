use vstd::prelude::*;

use super::face::{Face, adjacent_slot, lemma_adjacent_faces, spec_adjacent};
use super::direction::Direction;
use super::rotation::{Rotation, RotationKind, lemma_normalise_idempotent, lemma_normalise_inverted};
use super::flat_side::{lemma_flat_index, lemma_flat_index_unique};
use super::helpers::unique_char;
use super::laws::{
    clockwise_source, in_cube, lemma_clockwise_state, moved_from, layer_moves, layer_source, lemma_layer_moves_disjoint, lemma_layer_source,
    lemma_slot_cell_source, moved_by, range_source, slot_cell, source_cell,
};
use super::{CubeState, clockwise_outcome, face_colour, rotate_outcome, kind_layer, lemma_line_cells, unique_chars_state};

verus! {

/// The layers `lo` to `hi` leave alone a cell that none of them moves.
proof fn lemma_range_fixes(n: int, face: Face, lo: int, hi: int, cell: (Face, int, int))
    requires
        0 <= lo,
        hi < n,
        in_cube(n, cell),
        forall|l: int| lo <= l <= hi ==> !#[trigger] layer_moves(n, face, l, cell),
    ensures
        range_source(n, face, lo, hi, cell) == cell,
    decreases hi + 1 - lo,
{
    if lo <= hi {
        lemma_range_fixes(n, face, lo + 1, hi, cell);
        lemma_layer_source(n, face, lo, cell);
        assert(!layer_moves(n, face, lo, cell));
    }
}

/// Of the layers `lo` to `hi`, only `m` moves a cell that it moves, so the range takes the
/// cell's cubie from where that layer does.
proof fn lemma_range_one_layer(n: int, face: Face, lo: int, m: int, hi: int, cell: (Face, int, int))
    requires
        0 <= lo <= m <= hi < n,
        in_cube(n, cell),
        layer_moves(n, face, m, cell),
    ensures
        range_source(n, face, lo, hi, cell) == layer_source(n, face, m, cell),
    decreases hi + 1 - lo,
{
    if lo == m {
        assert forall|l: int| lo + 1 <= l <= hi implies !#[trigger] layer_moves(n, face, l, cell) by {
            lemma_layer_moves_disjoint(n, face, m, l, cell);
        }
        lemma_range_fixes(n, face, lo + 1, hi, cell);
    } else {
        lemma_range_one_layer(n, face, lo + 1, m, hi, cell);
        lemma_layer_source(n, face, m, cell);
        let y = layer_source(n, face, m, cell);
        lemma_layer_moves_disjoint(n, face, m, lo, y);
        lemma_layer_source(n, face, lo, y);
    }
}

/// Two cells of a cube whose cubies each carry their own character hold the same cubie only
/// when they are the same cell.
proof fn lemma_unique_cells(n: nat, a: (Face, int, int), b: (Face, int, int))
    requires
        1 <= n <= 8,
        in_cube(n as int, a),
        in_cube(n as int, b),
        a != b,
    ensures
        unique_chars_state(n).get(a.0, a.1, a.2) != unique_chars_state(n).get(b.0, b.1, b.2),
{
    let s = unique_chars_state(n);
    let ni = n as int;
    lemma_flat_index(ni, a.1, a.2);
    lemma_flat_index(ni, b.1, b.2);
    assert(s.get(a.0, a.1, a.2) == face_colour(a.0).with_char(Some(unique_char(a.1 * ni + a.2))));
    assert(s.get(b.0, b.1, b.2) == face_colour(b.0).with_char(Some(unique_char(b.1 * ni + b.2))));
    assert(ni * ni <= 64) by (nonlinear_arith)
        requires
            1 <= ni <= 8,
    ;
    if a.0 == b.0 {
        if a.1 * ni + a.2 == b.1 * ni + b.2 {
            lemma_flat_index_unique(ni, a.1, a.2, b.1, b.2);
        }
    }
}

/// The first and last layer, behind the face it is made from, that a normalised rotation turns.
pub open spec fn layer_range(kind: RotationKind) -> (int, int) {
    match kind {
        RotationKind::Multilayer { layer } => (0, layer as int),
        RotationKind::MultiSetback { start_layer, end_layer } => (start_layer as int, end_layer as int),
        _ => (kind_layer(kind) as int, kind_layer(kind) as int),
    }
}

/// A normalised clockwise rotation takes each cubie from where the range of its layers does.
proof fn lemma_clockwise_source_is_range(n: int, c: Rotation, cell: (Face, int, int))
    requires
        n >= 1,
        c.fits(n),
        c == c.spec_normalise(n),
        in_cube(n, cell),
    ensures
        clockwise_source(n, c, cell) == range_source(n, c.relative_to, layer_range(c.kind).0, layer_range(c.kind).1, cell),
{
    match c.kind {
        RotationKind::Multilayer { .. } => {},
        RotationKind::MultiSetback { .. } => {},
        _ => {
            let l = kind_layer(c.kind) as int;
            assert(range_source(n, c.relative_to, l + 1, l, cell) == cell);
            assert(!(l == n - 1 && n > 1));
        },
    }
}

/// The cells of the turning face stay where they are when the face layer is not turned, and its
/// corner moves when it is.
proof fn lemma_turning_face_cells(n: int, face: Face, lo: int, hi: int, cell: (Face, int, int))
    requires
        n >= 2,
        0 <= lo <= hi < n,
        in_cube(n, cell),
        cell.0 == face,
    ensures
        lo >= 1 ==> range_source(n, face, lo, hi, cell) == cell,
        lo == 0 ==> range_source(n, face, lo, hi, (face, 0, 0)) != (face, 0int, 0int),
{
    lemma_adjacent_faces(face);
    lemma_adjacent_faces(face.opposite());
    if lo >= 1 {
        assert forall|l: int| lo <= l <= hi implies !#[trigger] layer_moves(n, face, l, cell) by {}
        lemma_range_fixes(n, face, lo, hi, cell);
    } else {
        let corner = (face, 0int, 0int);
        assert(layer_moves(n, face, 0, corner));
        lemma_range_one_layer(n, face, lo, 0, hi, corner);
        assert(layer_source(n, face, 0, corner) == (face, n - 1, 0int));
    }
}

/// The cells of the face opposite the turning face stay where they are when the last layer is
/// not turned, and its corner moves when it is.
proof fn lemma_opposite_face_cells(n: int, face: Face, lo: int, hi: int, cell: (Face, int, int))
    requires
        n >= 2,
        0 <= lo <= hi < n,
        in_cube(n, cell),
        cell.0 == face.opposite(),
    ensures
        hi < n - 1 ==> range_source(n, face, lo, hi, cell) == cell,
        hi == n - 1 ==> range_source(n, face, lo, hi, (face.opposite(), 0, 0)) != (face.opposite(), 0int, 0int),
{
    lemma_adjacent_faces(face);
    let opp = face.opposite();
    if hi < n - 1 {
        assert forall|l: int| lo <= l <= hi implies !#[trigger] layer_moves(n, face, l, cell) by {}
        lemma_range_fixes(n, face, lo, hi, cell);
    } else {
        let corner = (opp, 0int, 0int);
        assert(layer_moves(n, face, n - 1, corner));
        lemma_range_one_layer(n, face, lo, n - 1, hi, corner);
        let c1 = source_cell(n, opp, 0, corner);
        assert(c1 == (opp, n - 1, 0int));
        let c2 = source_cell(n, opp, 0, c1);
        assert(c2 == (opp, n - 1, n - 1));
        let c3 = source_cell(n, opp, 0, c2);
        assert(c3 == (opp, 0int, n - 1));
    }
}

/// When a layer before the last is the first one turned, the first cell of its line on each
/// face around the turning face takes its cubie from the face before.
#[verifier::spinoff_prover]
proof fn lemma_adjacent_face_moves_near(n: int, face: Face, lo: int, hi: int, j: int) -> (cell: (Face, int, int))
    requires
        n >= 2,
        0 <= lo <= hi < n,
        lo < n - 1,
        0 <= j < 4,
    ensures
        in_cube(n, cell),
        cell.0 == spec_adjacent(face, j).0,
        range_source(n, face, lo, hi, cell).0 != cell.0,
{
    lemma_adjacent_faces(face);
    let x = slot_cell(n, face, lo, j, 0);
    lemma_slot_cell_source(n, face, lo, j, 0);
    lemma_line_cells(spec_adjacent(face, j).1, n, lo);
    assert(moved_by(n, face, lo, x));
    assert(layer_moves(n, face, lo, x));
    lemma_range_one_layer(n, face, lo, lo, hi, x);
    assert(layer_source(n, face, lo, x) == slot_cell(n, face, lo, (j + 3) % 4, 0));
    assert(adjacent_slot(face, spec_adjacent(face, (j + 3) % 4).0) == (j + 3) % 4);
    x
}

/// When only the last layer is turned, it is the face opposite that turns, three times, and a
/// cell of its line on each face around it takes its cubie from another face.
#[verifier::spinoff_prover]
proof fn lemma_adjacent_face_moves_far(n: int, face: Face, j: int) -> (cell: (Face, int, int))
    requires
        n >= 2,
        0 <= j < 4,
    ensures
        in_cube(n, cell),
        cell.0 == spec_adjacent(face, j).0,
        range_source(n, face, n - 1, n - 1, cell).0 != cell.0,
{
    lemma_adjacent_faces(face);
    let g = spec_adjacent(face, j).0;
    let opp = face.opposite();
    lemma_adjacent_faces(opp);
    super::face::lemma_opposite_twice(face);
    let k = adjacent_slot(opp, g);
    assert(0 <= k < 4);
    let x = slot_cell(n, opp, 0, k, 0);
    let k1 = (k + 3) % 4;
    let k2 = (k1 + 3) % 4;
    let k3 = (k2 + 3) % 4;
    lemma_slot_cell_source(n, opp, 0, k, 0);
    lemma_slot_cell_source(n, opp, 0, k1, 0);
    lemma_slot_cell_source(n, opp, 0, k2, 0);
    lemma_line_cells(spec_adjacent(opp, k).1, n, 0);
    assert(moved_by(n, opp, 0, x));
    assert(layer_moves(n, face, n - 1, x));
    lemma_range_one_layer(n, face, n - 1, n - 1, n - 1, x);
    assert(layer_source(n, face, n - 1, x) == slot_cell(n, opp, 0, k3, 0));
    assert(adjacent_slot(opp, spec_adjacent(opp, k3).0) == k3);
    x
}

/// On each face around the turning face some cell takes its cubie from another face.
proof fn lemma_adjacent_face_moves(n: int, face: Face, lo: int, hi: int, j: int) -> (cell: (Face, int, int))
    requires
        n >= 2,
        0 <= lo <= hi < n,
        0 <= j < 4,
    ensures
        in_cube(n, cell),
        cell.0 == spec_adjacent(face, j).0,
        range_source(n, face, lo, hi, cell).0 != cell.0,
{
    if lo < n - 1 {
        lemma_adjacent_face_moves_near(n, face, lo, hi, j)
    } else {
        lemma_adjacent_face_moves_far(n, face, j)
    }
}

/// Where the cubies come from after three normalised clockwise rotations.
pub open spec fn thrice_source(n: int, c: Rotation, cell: (Face, int, int)) -> (Face, int, int) {
    clockwise_source(n, c, clockwise_source(n, c, clockwise_source(n, c, cell)))
}

/// A side of the cube whose cubies each carry their own character is kept by a move exactly when
/// no cubie of it comes from elsewhere: keeping every cell keeps the side.
proof fn lemma_side_kept(n: nat, t: CubeState, src: spec_fn((Face, int, int)) -> (Face, int, int), g: Face)
    requires
        1 <= n <= 8,
        moved_from(unique_chars_state(n), t, src),
        forall|r: int, c: int| 0 <= r < n && 0 <= c < n ==> #[trigger] src((g, r, c)) == (g, r, c),
    ensures
        t.side(g) == unique_chars_state(n).side(g),
{
    let s = unique_chars_state(n);
    assert(s.wf());
    assert forall|r: int| 0 <= r < n implies #[trigger] t.side(g)[r] =~= s.side(g)[r] by {
        assert forall|c: int| 0 <= c < n implies t.side(g)[r][c] == s.side(g)[r][c] by {
            let cell = (g, r, c);
            assert(src(cell) == cell);
            assert(t.get(cell.0, cell.1, cell.2) == s.get(src(cell).0, src(cell).1, src(cell).2));
        }
    }
    assert(t.side(g) =~= s.side(g));
}

/// A side is changed by a move that brings to one of its cells a cubie from another cell.
proof fn lemma_side_changed(n: nat, t: CubeState, src: spec_fn((Face, int, int)) -> (Face, int, int), cell: (Face, int, int))
    requires
        1 <= n <= 8,
        moved_from(unique_chars_state(n), t, src),
        in_cube(n as int, cell),
        in_cube(n as int, src(cell)),
        src(cell) != cell,
    ensures
        t.side(cell.0) != unique_chars_state(n).side(cell.0),
{
    let s = unique_chars_state(n);
    lemma_unique_cells(n, src(cell), cell);
    assert(t.get(cell.0, cell.1, cell.2) == s.get(src(cell).0, src(cell).1, src(cell).2));
}

/// How a move that takes its cubies as a normalised clockwise rotation does, or from the cells
/// it leaves alone and no others, treats the sides of a cube whose cubies each carry their own
/// character: it keeps the turning face exactly when the face layer is not turned, keeps the
/// opposite face exactly when the last layer is not turned, and changes the four faces around.
#[verifier::spinoff_prover]
proof fn lemma_frame_sides(n: nat, c: Rotation, t: CubeState, src: spec_fn((Face, int, int)) -> (Face, int, int))
    requires
        2 <= n <= 8,
        c.fits(n as int),
        c == c.spec_normalise(n as int),
        moved_from(unique_chars_state(n), t, src),
        forall|cell: (Face, int, int)|
            in_cube(n as int, cell) ==> in_cube(n as int, #[trigger] src(cell)) && (src(cell) == cell
                <==> clockwise_source(n as int, c, cell) == cell),
    ensures
        t.side(c.relative_to) == unique_chars_state(n).side(c.relative_to) <==> layer_range(c.kind).0 >= 1,
        t.side(c.relative_to.opposite()) == unique_chars_state(n).side(c.relative_to.opposite()) <==> layer_range(c.kind).1 < n - 1,
        forall|j: int| 0 <= j < 4 ==> t.side(#[trigger] spec_adjacent(c.relative_to, j).0) != unique_chars_state(n).side(spec_adjacent(c.relative_to, j).0),
{
    let ni = n as int;
    let face = c.relative_to;
    let opp = face.opposite();
    let lo = layer_range(c.kind).0;
    let hi = layer_range(c.kind).1;
    assert(0 <= lo <= hi < ni);
    assert forall|cell: (Face, int, int)| in_cube(ni, cell) implies #[trigger] clockwise_source(ni, c, cell)
        == range_source(ni, face, lo, hi, cell) by {
        lemma_clockwise_source_is_range(ni, c, cell);
    }
    if lo >= 1 {
        assert forall|r: int, col: int| 0 <= r < n && 0 <= col < n implies #[trigger] src((face, r, col)) == (face, r, col) by {
            lemma_turning_face_cells(ni, face, lo, hi, (face, r, col));
            assert(clockwise_source(ni, c, (face, r, col)) == range_source(ni, face, lo, hi, (face, r, col)));
        }
        lemma_side_kept(n, t, src, face);
    } else {
        let corner = (face, 0int, 0int);
        lemma_turning_face_cells(ni, face, lo, hi, corner);
        assert(clockwise_source(ni, c, corner) == range_source(ni, face, lo, hi, corner));
        lemma_side_changed(n, t, src, corner);
    }
    if hi < ni - 1 {
        assert forall|r: int, col: int| 0 <= r < n && 0 <= col < n implies #[trigger] src((opp, r, col)) == (opp, r, col) by {
            lemma_opposite_face_cells(ni, face, lo, hi, (opp, r, col));
            assert(clockwise_source(ni, c, (opp, r, col)) == range_source(ni, face, lo, hi, (opp, r, col)));
        }
        lemma_side_kept(n, t, src, opp);
    } else {
        let corner = (opp, 0int, 0int);
        lemma_opposite_face_cells(ni, face, lo, hi, corner);
        assert(clockwise_source(ni, c, corner) == range_source(ni, face, lo, hi, corner));
        lemma_side_changed(n, t, src, corner);
    }
    assert forall|j: int| 0 <= j < 4 implies t.side(#[trigger] spec_adjacent(face, j).0) != unique_chars_state(n).side(spec_adjacent(face, j).0) by {
        let x = lemma_adjacent_face_moves(ni, face, lo, hi, j);
        assert(clockwise_source(ni, c, x) == range_source(ni, face, lo, hi, x));
        lemma_side_changed(n, t, src, x);
    }
}

/// 1 when the move from `s` to `t` keeps side `g` as it was, else 0.
pub open spec fn side_kept(s: CubeState, t: CubeState, g: Face) -> int {
    if t.side(g) == s.side(g) {
        1
    } else {
        0
    }
}

/// How many of the six sides the move from `s` to `t` keeps as they were.
pub open spec fn kept_sides(s: CubeState, t: CubeState) -> int {
    side_kept(s, t, Face::Up) + side_kept(s, t, Face::Down) + side_kept(s, t, Face::Front)
        + side_kept(s, t, Face::Right) + side_kept(s, t, Face::Back) + side_kept(s, t, Face::Left)
}

/// How many sides a rotation on a cube of side length `n` does not reach: the face it is made
/// from unless it turns the first layer, and the opposite face unless it turns the last.
pub open spec fn unreached_sides(r: Rotation, n: int) -> int {
    let (lo, hi) = match r.kind {
        RotationKind::FaceOnly => (0int, 0int),
        RotationKind::Multilayer { layer } => (0int, layer as int),
        RotationKind::Setback { layer } => (layer as int, layer as int),
        RotationKind::MultiSetback { start_layer, end_layer } => if start_layer <= end_layer {
            (start_layer as int, end_layer as int)
        } else {
            (end_layer as int, start_layer as int)
        },
    };
    (if lo != 0 { 1int } else { 0int }) + (if hi != n - 1 { 1int } else { 0int })
}

/// The sides kept by a move that keeps the turning face exactly when `face_kept`, the opposite
/// face exactly when `opposite_kept`, and none of the four faces around.
proof fn lemma_count_kept(s: CubeState, t: CubeState, face: Face, face_kept: bool, opposite_kept: bool)
    requires
        t.side(face) == s.side(face) <==> face_kept,
        t.side(face.opposite()) == s.side(face.opposite()) <==> opposite_kept,
        forall|j: int| 0 <= j < 4 ==> t.side(#[trigger] spec_adjacent(face, j).0) != s.side(spec_adjacent(face, j).0),
    ensures
        kept_sides(s, t) == (if face_kept { 1int } else { 0int }) + (if opposite_kept { 1int } else { 0int }),
{
    lemma_adjacent_faces(face);
    assert(t.side(spec_adjacent(face, 0).0) != s.side(spec_adjacent(face, 0).0));
    assert(t.side(spec_adjacent(face, 1).0) != s.side(spec_adjacent(face, 1).0));
    assert(t.side(spec_adjacent(face, 2).0) != s.side(spec_adjacent(face, 2).0));
    assert(t.side(spec_adjacent(face, 3).0) != s.side(spec_adjacent(face, 3).0));
}

/// A rotation of a cube whose cubies each carry their own character keeps exactly the sides it
/// does not reach: the face it is made from unless it turns the first layer, the opposite face
/// unless it turns the last, and none of the four faces around.
pub proof fn lemma_rotation_keeps_unreached_sides(n: nat, r: Rotation)
    requires
        2 <= n <= 8,
        r.well_formed(),
        r.fits(n as int),
    ensures
        kept_sides(unique_chars_state(n), rotate_outcome(unique_chars_state(n), r).0) == unreached_sides(r, n as int),
{
    let u = unique_chars_state(n);
    let ni = n as int;
    assert(u.wf());
    lemma_normalise_idempotent(r, ni);
    lemma_normalise_inverted(r, ni);
    let m = r.spec_normalise(ni);
    lemma_normalise_inverted(m, ni);
    lemma_normalise_idempotent(m.inverted(), ni);
    let c = if m.direction == Direction::Clockwise { m } else { m.inverted() };
    assert(c == c.spec_normalise(ni));
    assert(c.fits(ni));
    lemma_clockwise_state(u, c);
    let t1 = clockwise_outcome(u, c).0;
    let t = rotate_outcome(u, r).0;
    if m.direction == Direction::Clockwise {
        assert(t == t1);
        let src = |cell: (Face, int, int)| clockwise_source(ni, c, cell);
        assert(moved_from(u, t, src));
        lemma_frame_sides(n, c, t, src);
    } else {
        lemma_clockwise_state(t1, c);
        let t2 = clockwise_outcome(t1, c).0;
        lemma_clockwise_state(t2, c);
        let t3 = clockwise_outcome(t2, c).0;
        assert(t == t3);
        let src = |cell: (Face, int, int)| thrice_source(ni, c, cell);
        assert forall|cell: (Face, int, int)| in_cube(ni, cell) implies {
            &&& #[trigger] t3.get(cell.0, cell.1, cell.2) == u.get(src(cell).0, src(cell).1, src(cell).2)
            &&& in_cube(ni, src(cell))
            &&& (src(cell) == cell <==> clockwise_source(ni, c, cell) == cell)
        } by {
            let p1 = clockwise_source(ni, c, cell);
            let p2 = clockwise_source(ni, c, p1);
            let p3 = clockwise_source(ni, c, p2);
            assert(t3.get(cell.0, cell.1, cell.2) == t2.get(p1.0, p1.1, p1.2));
            assert(t2.get(p1.0, p1.1, p1.2) == t1.get(p2.0, p2.1, p2.2));
            assert(t1.get(p2.0, p2.1, p2.2) == u.get(p3.0, p3.1, p3.2));
            assert(clockwise_source(ni, c, p3) == cell);
        }
        assert(moved_from(u, t, src));
        lemma_frame_sides(n, c, t, src);
    }
    lemma_count_kept(u, t, c.relative_to, layer_range(c.kind).0 >= 1, layer_range(c.kind).1 < ni - 1);
}

} // verus!
