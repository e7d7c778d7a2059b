use vstd::prelude::*;
use vstd::set_lib::{lemma_int_range, lemma_map_size, lemma_set_subset_finite, set_int_range};

use super::cubie_face::CubieFace;
use super::direction::Direction;
use super::face::Face;
use super::laws::{in_cube, lemma_turn_source_in_cube, lemma_turn_source_order_four, source_cell};
use super::rotation::{Rotation, RotationKind, lemma_normalise_idempotent, lemma_normalise_inverted};
use super::{
    CubeState, clockwise_outcome, kind_layer, layer_step, lemma_layer_step, lemma_single_outcome, lemma_turn_layer_cells, rotate_outcome, sequence_outcome, setback_of,
    setbacks_outcome, single_outcome, turn_layer,
};

verus! {

/// A cell of a cube: a face, a row and a column.
pub type Cell = (Face, int, int);

/// `from` and `to` undo each other on the cells of the cube, and each cubie of `t` is the cubie
/// of `s` at the cell that `from` gives.
pub open spec fn moves_cubies(s: CubeState, t: CubeState, from: spec_fn(Cell) -> Cell, to: spec_fn(Cell) -> Cell) -> bool {
    &&& s.n == t.n
    &&& forall|c: Cell|
        #![trigger from(c)]
        #![trigger to(c)]
        in_cube(s.n as int, c) ==> {
            &&& in_cube(s.n as int, from(c))
            &&& in_cube(s.n as int, to(c))
            &&& to(from(c)) == c
            &&& from(to(c)) == c
            &&& t.get(c.0, c.1, c.2) == s.get(from(c).0, from(c).1, from(c).2)
        }
}

/// The cubies of `t` are those of `s`, only moved: none is made or lost.
pub open spec fn only_moved(s: CubeState, t: CubeState) -> bool {
    exists|from: spec_fn(Cell) -> Cell, to: spec_fn(Cell) -> Cell| #[trigger] moves_cubies(s, t, from, to)
}

/// A cube is its own cubies, not moved at all.
proof fn lemma_only_moved_refl(s: CubeState)
    ensures
        only_moved(s, s),
{
    let id = |c: Cell| c;
    assert(moves_cubies(s, s, id, id));
}

/// Moving cubies twice only moves them.
proof fn lemma_only_moved_trans(s: CubeState, t: CubeState, u: CubeState)
    requires
        only_moved(s, t),
        only_moved(t, u),
    ensures
        only_moved(s, u),
{
    let (f1, g1) = choose|f: spec_fn(Cell) -> Cell, g: spec_fn(Cell) -> Cell| #[trigger] moves_cubies(s, t, f, g);
    let (f2, g2) = choose|f: spec_fn(Cell) -> Cell, g: spec_fn(Cell) -> Cell| #[trigger] moves_cubies(t, u, f, g);
    let from = |c: Cell| f1(f2(c));
    let to = |c: Cell| g2(g1(c));
    let n = s.n as int;
    assert forall|c: Cell| in_cube(n, c) implies {
        &&& in_cube(n, from(c))
        &&& in_cube(n, to(c))
        &&& to(from(c)) == c
        &&& from(to(c)) == c
        &&& u.get(c.0, c.1, c.2) == s.get(from(c).0, from(c).1, from(c).2)
    } by {
        let a = f2(c);
        assert(in_cube(n, a));
        let b = f1(a);
        assert(in_cube(n, b));
        assert(g1(b) == a);
        let d = g1(c);
        assert(in_cube(n, d));
        assert(f1(d) == c);
        let e = g2(d);
        assert(in_cube(n, e));
        assert(f2(e) == d);
    }
    assert(moves_cubies(s, u, from, to));
}

/// A quarter turn of a layer only moves cubies.
proof fn lemma_turn_only_moves(s: CubeState, face: Face, layer: int)
    requires
        s.wf(),
        0 <= layer < s.n,
    ensures
        only_moved(s, turn_layer(s, face, layer)),
{
    let n = s.n as int;
    let t = turn_layer(s, face, layer);
    lemma_turn_layer_cells(s, face, layer);
    let from = |c: Cell| source_cell(n, face, layer, c);
    let to = |c: Cell| source_cell(n, face, layer, source_cell(n, face, layer, source_cell(n, face, layer, c)));
    assert forall|c: Cell| in_cube(n, c) implies {
        &&& in_cube(n, from(c))
        &&& in_cube(n, to(c))
        &&& to(from(c)) == c
        &&& from(to(c)) == c
        &&& t.get(c.0, c.1, c.2) == s.get(from(c).0, from(c).1, from(c).2)
    } by {
        let c1 = source_cell(n, face, layer, c);
        lemma_turn_source_in_cube(n, face, layer, c);
        lemma_turn_source_in_cube(n, face, layer, c1);
        let c2 = source_cell(n, face, layer, c1);
        lemma_turn_source_in_cube(n, face, layer, c2);
        let c3 = source_cell(n, face, layer, c2);
        lemma_turn_source_order_four(n, face, layer, c);
        lemma_turn_source_in_cube(n, face, layer, c3);
        lemma_turn_source_order_four(n, face, layer, c1);
        assert(t.get(c.0, c.1, c.2) == s.get(c1.0, c1.1, c1.2));
    }
    assert(moves_cubies(s, t, from, to));
}

/// A quarter turn that is made, or refused, only moves cubies.
proof fn lemma_layer_step_only_moves(s: CubeState, face: Face, layer: usize)
    requires
        s.wf(),
    ensures
        only_moved(s, layer_step(s, face, layer).0),
{
    if layer < s.n {
        lemma_turn_only_moves(s, face, layer as int);
    } else {
        lemma_only_moved_refl(s);
    }
}

/// A rotation of a single layer only moves cubies.
proof fn lemma_single_only_moves(s: CubeState, r: Rotation)
    requires
        s.wf(),
    ensures
        only_moved(s, single_outcome(s, r).0),
{
    let layer = kind_layer(r.kind);
    lemma_layer_step(s, r.relative_to, layer);
    lemma_layer_step_only_moves(s, r.relative_to, layer);
    let o1 = layer_step(s, r.relative_to, layer);
    lemma_layer_step(o1.0, r.relative_to, layer);
    lemma_layer_step_only_moves(o1.0, r.relative_to, layer);
    let o2 = layer_step(o1.0, r.relative_to, layer);
    lemma_layer_step_only_moves(o2.0, r.relative_to, layer);
    let o3 = layer_step(o2.0, r.relative_to, layer);
    lemma_only_moved_trans(s, o1.0, o2.0);
    lemma_only_moved_trans(s, o2.0, o3.0);
}

/// Rotating each of a range of layers only moves cubies.
proof fn lemma_setbacks_only_move(s: CubeState, r: Rotation, lo: int, hi: int)
    requires
        s.wf(),
        0 <= lo,
        hi < usize::MAX,
    ensures
        only_moved(s, setbacks_outcome(s, r, lo, hi).0),
    decreases hi + 1 - lo,
{
    if lo > hi {
        lemma_only_moved_refl(s);
    } else {
        let sub = setback_of(r, lo as usize).spec_normalise(s.n as int);
        lemma_single_outcome(s, sub);
        lemma_single_only_moves(s, sub);
        let o = single_outcome(s, sub);
        if o.1 is Err {
        } else {
            lemma_setbacks_only_move(o.0, r, lo + 1, hi);
            lemma_only_moved_trans(s, o.0, setbacks_outcome(o.0, r, lo + 1, hi).0);
        }
    }
}

/// A normalised clockwise rotation only moves cubies.
proof fn lemma_clockwise_only_moves(s: CubeState, r: Rotation)
    requires
        s.wf(),
        r.well_formed(),
    ensures
        only_moved(s, clockwise_outcome(s, r).0),
{
    match r.kind {
        RotationKind::Multilayer { layer } => lemma_setbacks_only_move(s, r, 0, layer as int),
        RotationKind::MultiSetback { start_layer, end_layer } => lemma_setbacks_only_move(
            s,
            r,
            start_layer as int,
            end_layer as int,
        ),
        _ => lemma_single_only_moves(s, r),
    }
}

/// Any rotation only moves cubies: none is ever made or lost.
pub proof fn lemma_rotation_only_moves(s: CubeState, r: Rotation)
    requires
        s.wf(),
        r.well_formed(),
    ensures
        only_moved(s, rotate_outcome(s, r).0),
{
    let n = s.n as int;
    lemma_normalise_idempotent(r, n);
    let m = r.spec_normalise(n);
    lemma_normalise_inverted(m, n);
    if m.direction == Direction::Clockwise {
        lemma_clockwise_only_moves(s, m);
    } else {
        let c = m.inverted();
        assert(c.well_formed());
        super::lemma_clockwise_outcome(s, c);
        lemma_clockwise_only_moves(s, c);
        let o1 = clockwise_outcome(s, c);
        super::lemma_clockwise_outcome(o1.0, c);
        lemma_clockwise_only_moves(o1.0, c);
        let o2 = clockwise_outcome(o1.0, c);
        lemma_clockwise_only_moves(o2.0, c);
        let o3 = clockwise_outcome(o2.0, c);
        lemma_only_moved_trans(s, o1.0, o2.0);
        lemma_only_moved_trans(s, o2.0, o3.0);
    }
}

/// Any sequence of rotations only moves cubies.
pub proof fn lemma_sequence_only_moves(s: CubeState, rotations: Seq<Rotation>)
    requires
        s.wf(),
        super::all_well_formed(rotations),
    ensures
        only_moved(s, sequence_outcome(s, rotations).0),
    decreases rotations.len(),
{
    if rotations.len() == 0 {
        lemma_only_moved_refl(s);
    } else {
        super::lemma_rotate_outcome(s, rotations[0]);
        lemma_rotation_only_moves(s, rotations[0]);
        let o = rotate_outcome(s, rotations[0]);
        if o.1 is Ok {
            let rest = rotations.drop_first();
            assert(super::all_well_formed(rest)) by {
                assert forall|i: int| 0 <= i < rest.len() implies #[trigger] rest[i].well_formed() by {
                    assert(rest[i] == rotations[i + 1]);
                }
            }
            lemma_sequence_only_moves(o.0, rest);
            lemma_only_moved_trans(s, o.0, sequence_outcome(o.0, rest).0);
        }
    }
}

/// The cells of a cube of side length `n`.
pub open spec fn cube_cells(n: int) -> Set<Cell> {
    Set::new(|c: Cell| in_cube(n, c))
}

/// On how many cells of the cube `s` the cubie `v` lies: its multiplicity in the multiset of
/// the cube's cubies.
pub open spec fn cubie_count(s: CubeState, v: CubieFace) -> nat {
    cube_cells(s.n as int).filter(|c: Cell| s.get(c.0, c.1, c.2) == v).len()
}

/// A cube has finitely many cells.
proof fn lemma_cube_cells_finite(n: int)
    requires
        n >= 0,
    ensures
        cube_cells(n).finite(),
{
    let range = set_int_range(0, n);
    lemma_int_range(0, n);
    let line = |g: Face, r: int| range.map(|c: int| (g, r, c));
    let side = |g: Face| range.map(|r: int| line(g, r));
    assert forall|g: Face| #[trigger] side(g).flatten().finite() by {
        range.lemma_map_finite(|r: int| line(g, r));
        assert forall|l: Set<Cell>| side(g).contains(l) implies #[trigger] l.finite() by {
            let r = choose|r: int| range.contains(r) && line(g, r) == l;
            range.lemma_map_finite(|c: int| (g, r, c));
        }
        side(g).lemma_flatten_finite();
    }
    let faces = set![Face::Up, Face::Down, Face::Front, Face::Right, Face::Back, Face::Left];
    let sides = faces.map(|g: Face| side(g).flatten());
    faces.lemma_map_finite(|g: Face| side(g).flatten());
    assert forall|x: Set<Cell>| sides.contains(x) implies #[trigger] x.finite() by {
        let g = choose|g: Face| faces.contains(g) && side(g).flatten() == x;
        assert(side(g).flatten().finite());
    }
    sides.lemma_flatten_finite();
    let whole = sides.flatten();
    assert forall|c: Cell| cube_cells(n).contains(c) implies whole.contains(c) by {
        let (g, r, col) = c;
        assert(faces.contains(g));
        assert(sides.contains(side(g).flatten()));
        assert(range.contains(r));
        assert(range.contains(col));
        assert(side(g).contains(line(g, r)));
        assert(line(g, r).contains((g, r, col)));
        assert(side(g).flatten().contains(c));
    }
    lemma_set_subset_finite(whole, cube_cells(n));
}

/// A cube whose cubies were only moved holds each cubie as often as before.
pub proof fn lemma_only_moved_keeps_counts(s: CubeState, t: CubeState, v: CubieFace)
    requires
        only_moved(s, t),
    ensures
        cubie_count(t, v) == cubie_count(s, v),
{
    let (from, to) = choose|f: spec_fn(Cell) -> Cell, g: spec_fn(Cell) -> Cell| #[trigger] moves_cubies(s, t, f, g);
    let n = s.n as int;
    lemma_cube_cells_finite(n);
    let at_t = cube_cells(n).filter(|c: Cell| t.get(c.0, c.1, c.2) == v);
    let at_s = cube_cells(n).filter(|c: Cell| s.get(c.0, c.1, c.2) == v);
    lemma_set_subset_finite(cube_cells(n), at_t);
    assert forall|d: Cell| at_s.contains(d) implies #[trigger] at_t.map(from).contains(d) by {
        let c = to(d);
        assert(from(c) == d);
        assert(at_t.contains(c));
    }
    assert forall|d: Cell| at_t.map(from).contains(d) implies #[trigger] at_s.contains(d) by {
        let c = choose|c: Cell| at_t.contains(c) && from(c) == d;
        assert(in_cube(n, c));
    }
    assert(at_t.map(from) =~= at_s);
    assert forall|a: Cell, b: Cell| at_t.contains(a) && at_t.contains(b) && #[trigger] from(a) == #[trigger] from(b) implies a == b by {
        assert(to(from(a)) == a);
        assert(to(from(b)) == b);
    }
    lemma_map_size(at_t, at_s, from);
}

/// Rotating a cube, whether it succeeds or not, keeps each cubie as often as before: the
/// multiset of the cube's cubies is unchanged.
pub proof fn lemma_rotation_keeps_cubie_counts(s: CubeState, r: Rotation, v: CubieFace)
    requires
        s.wf(),
        r.well_formed(),
    ensures
        cubie_count(rotate_outcome(s, r).0, v) == cubie_count(s, v),
{
    lemma_rotation_only_moves(s, r);
    lemma_only_moved_keeps_counts(s, rotate_outcome(s, r).0, v);
}

} // verus!
