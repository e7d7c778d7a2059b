use vstd::prelude::*;

use super::direction::Direction;
use super::face::{Face, lemma_adjacent_faces, spec_adjacent};
use super::laws::{
    clockwise_source, in_cube, layer_moves, layer_source, lemma_clockwise_state, lemma_layer_moves_disjoint,
    lemma_layer_source, lemma_slot_cell_source, moved_by, range_source, slot_cell, source_cell,
};
use super::rotation::{Rotation, RotationKind, lemma_normalise_idempotent, lemma_normalise_inverted};
use super::{clockwise_outcome, face_colour, kind_layer, lemma_line_cells, rotate_outcome, solved_state};

verus! {

/// The layers `lo` to `hi` leave a cell alone that another layer `m` before them moves.
proof fn lemma_range_source_untouched(n: int, face: Face, m: int, lo: int, hi: int, cell: (Face, int, int))
    requires
        0 <= m < lo,
        hi < n,
        in_cube(n, cell),
        layer_moves(n, face, m, cell),
    ensures
        range_source(n, face, lo, hi, cell) == cell,
    decreases hi + 1 - lo,
{
    if lo <= hi {
        lemma_range_source_untouched(n, face, m, lo + 1, hi, cell);
        lemma_layer_moves_disjoint(n, face, m, lo, cell);
        lemma_layer_source(n, face, lo, cell);
    }
}

/// The first cell of the line around `face` at `layer` on the second face around it is moved by
/// the quarter turn of that layer, and its cubie comes from another face.
proof fn lemma_slot_moved_from_other_face(n: int, face: Face, layer: int)
    requires
        0 <= layer < n,
    ensures
        in_cube(n, slot_cell(n, face, layer, 1, 0)),
        moved_by(n, face, layer, slot_cell(n, face, layer, 1, 0)),
        source_cell(n, face, layer, slot_cell(n, face, layer, 1, 0)) == slot_cell(n, face, layer, 0, 0),
        slot_cell(n, face, layer, 0, 0).0 != slot_cell(n, face, layer, 1, 0).0,
{
    lemma_adjacent_faces(face);
    lemma_slot_cell_source(n, face, layer, 1, 0);
    lemma_line_cells(spec_adjacent(face, 1).1, n, layer);
    assert(spec_adjacent(face, 0).0 != spec_adjacent(face, 1).0) by {
        assert(super::face::adjacent_slot(face, spec_adjacent(face, 0).0) == 0);
        assert(super::face::adjacent_slot(face, spec_adjacent(face, 1).0) == 1);
    }
}

/// The normalised clockwise rotation of a single layer moves some cell's cubie from another face.
proof fn lemma_layer_moves_across_faces(n: int, face: Face, l: int) -> (cell: (Face, int, int))
    requires
        0 <= l < n,
    ensures
        in_cube(n, cell),
        layer_moves(n, face, l, cell),
        layer_source(n, face, l, cell).0 != cell.0,
{
    if l == n - 1 && n > 1 {
        let opp = face.opposite();
        lemma_adjacent_faces(opp);
        let x = slot_cell(n, opp, 0, 1, 0);
        lemma_slot_moved_from_other_face(n, opp, 0);
        lemma_slot_cell_source(n, opp, 0, 0, 0);
        lemma_slot_cell_source(n, opp, 0, 3, 0);
        assert(layer_source(n, face, l, x) == slot_cell(n, opp, 0, 2, 0));
        assert(super::face::adjacent_slot(opp, spec_adjacent(opp, 2).0) == 2);
        assert(super::face::adjacent_slot(opp, spec_adjacent(opp, 1).0) == 1);
        x
    } else {
        lemma_slot_moved_from_other_face(n, face, l);
        slot_cell(n, face, l, 1, 0)
    }
}

/// A normalised clockwise rotation that fits the cube brings some cell's cubie from another face.
proof fn lemma_clockwise_moves_across_faces(n: int, c: Rotation) -> (cell: (Face, int, int))
    requires
        n >= 1,
        c.fits(n),
        c == c.spec_normalise(n),
    ensures
        in_cube(n, cell),
        clockwise_source(n, c, cell).0 != cell.0,
{
    let face = c.relative_to;
    match c.kind {
        RotationKind::Multilayer { layer } => {
            let x = lemma_layer_moves_across_faces(n, face, 0);
            lemma_range_source_untouched(n, face, 0, 1, layer as int, x);
            x
        },
        RotationKind::MultiSetback { start_layer, end_layer } => {
            let a = start_layer as int;
            let x = lemma_layer_moves_across_faces(n, face, a);
            lemma_range_source_untouched(n, face, a, a + 1, end_layer as int, x);
            x
        },
        _ => {
            let l = kind_layer(c.kind) as int;
            lemma_slot_moved_from_other_face(n, face, l);
            slot_cell(n, face, l, 1, 0)
        },
    }
}

/// Each cell of a solved cube holds the colour of its face, and faces differ in colour.
proof fn lemma_solved_cell(n: nat, a: (Face, int, int), b: (Face, int, int))
    requires
        in_cube(n as int, a),
        in_cube(n as int, b),
        a.0 != b.0,
    ensures
        solved_state(n).get(a.0, a.1, a.2) != solved_state(n).get(b.0, b.1, b.2),
{
    assert(solved_state(n).get(a.0, a.1, a.2) == face_colour(a.0));
    assert(solved_state(n).get(b.0, b.1, b.2) == face_colour(b.0));
}

/// A normalised clockwise rotation that fits changes a solved cube.
#[verifier::spinoff_prover]
proof fn lemma_clockwise_changes_solved(n: nat, c: Rotation)
    requires
        n >= 1,
        c.direction == Direction::Clockwise,
        c.well_formed(),
        c.fits(n as int),
        c == c.spec_normalise(n as int),
    ensures
        clockwise_outcome(solved_state(n), c).0 != solved_state(n),
{
    let s = solved_state(n);
    let x = lemma_clockwise_moves_across_faces(n as int, c);
    lemma_clockwise_state(s, c);
    let t1 = clockwise_outcome(s, c).0;
    let p = clockwise_source(n as int, c, x);
    assert(t1.get(x.0, x.1, x.2) == s.get(p.0, p.1, p.2));
    lemma_solved_cell(n, p, x);
}

/// Three normalised clockwise rotations that fit change a solved cube.
#[verifier::spinoff_prover]
proof fn lemma_three_clockwise_change_solved(n: nat, c: Rotation)
    requires
        n >= 1,
        c.direction == Direction::Clockwise,
        c.well_formed(),
        c.fits(n as int),
        c == c.spec_normalise(n as int),
    ensures
        clockwise_outcome(clockwise_outcome(clockwise_outcome(solved_state(n), c).0, c).0, c).0 != solved_state(n),
{
    let s = solved_state(n);
    let ni = n as int;
    let x = lemma_clockwise_moves_across_faces(ni, c);
    lemma_clockwise_state(s, c);
    let t1 = clockwise_outcome(s, c).0;
    lemma_clockwise_state(t1, c);
    let t2 = clockwise_outcome(t1, c).0;
    lemma_clockwise_state(t2, c);
    let t3 = clockwise_outcome(t2, c).0;
    let p = clockwise_source(ni, c, x);
    let p2 = clockwise_source(ni, c, p);
    let p3 = clockwise_source(ni, c, p2);
    assert(clockwise_source(ni, c, p3) == x);
    assert(t3.get(p.0, p.1, p.2) == t2.get(p2.0, p2.1, p2.2));
    assert(t2.get(p2.0, p2.1, p2.2) == t1.get(p3.0, p3.1, p3.2));
    assert(t1.get(p3.0, p3.1, p3.2) == s.get(x.0, x.1, x.2));
    lemma_solved_cell(n, x, p);
}

/// Every rotation that fits a solved cube changes it: some cubie ends up on a face of another
/// colour.
pub proof fn lemma_rotation_changes_solved_cube(n: nat, r: Rotation)
    requires
        n >= 1,
        r.well_formed(),
        r.fits(n as int),
    ensures
        rotate_outcome(solved_state(n), r).0 != solved_state(n),
{
    let ni = n as int;
    lemma_normalise_idempotent(r, ni);
    lemma_normalise_inverted(r, ni);
    let m = r.spec_normalise(ni);
    lemma_normalise_inverted(m, ni);
    lemma_normalise_idempotent(m.inverted(), ni);
    if m.direction == Direction::Clockwise {
        lemma_clockwise_changes_solved(n, m);
    } else {
        let c = m.inverted();
        assert(c == c.spec_normalise(ni));
        lemma_three_clockwise_change_solved(n, c);
        lemma_clockwise_state(solved_state(n), c);
        let t1 = clockwise_outcome(solved_state(n), c).0;
        lemma_clockwise_state(t1, c);
    }
}

} // verus!
