use vstd::prelude::*;

use super::face::{
    Face, IndexAlignment as IA, adjacent_slot, lemma_adjacent_faces, line_cell, line_place, on_line,
    spec_adjacent,
};
use super::direction::Direction;
use super::flat_side::LayerError;
use super::rotation::{Rotation, RotationKind, lemma_normalise_idempotent, lemma_normalise_inverted};
use super::{
    CubeState, all_fit, all_well_formed, clockwise_outcome, kind_layer, lemma_line_cells,
    lemma_sequence_concat, lemma_sequence_outcome, lemma_sequence_single, lemma_state_ext,
    lemma_turn_layer_cells, rotate_outcome, sequence_outcome, setback_of, setbacks_outcome,
    single_outcome, turn_layer, turn_source,
};

verus! {

/// Where a quarter turn brings the cubie at (`g`, `r`, `c`) from, as a cell.
pub open spec fn source_cell(n: int, face: Face, layer: int, cell: (Face, int, int)) -> (Face, int, int) {
    turn_source(n, face, layer, cell.0, cell.1, cell.2)
}

/// The cell lies on the cube of side length `n`.
pub open spec fn in_cube(n: int, cell: (Face, int, int)) -> bool {
    0 <= cell.1 < n && 0 <= cell.2 < n
}

/// A quarter turn brings each cubie of the cube from a cell of the cube.
pub proof fn lemma_turn_source_in_cube(n: int, face: Face, layer: int, cell: (Face, int, int))
    requires
        0 <= layer < n,
        in_cube(n, cell),
    ensures
        in_cube(n, source_cell(n, face, layer, cell)),
{
    lemma_adjacent_faces(face);
    let j = adjacent_slot(face, cell.0);
    if j >= 0 {
        let a = spec_adjacent(face, j).1;
        let prev = spec_adjacent(face, (j + 3) % 4);
        lemma_line_cells(a, n, layer);
        lemma_line_cells(prev.1, n, layer);
    }
}

/// The cell at place `k` of the line at `layer` on the adjacent face in place `j` around `face`.
pub open spec fn slot_cell(n: int, face: Face, layer: int, j: int, k: int) -> (Face, int, int) {
    let adj = spec_adjacent(face, j);
    let cell = line_cell(adj.1, n, layer, k);
    (adj.0, cell.0, cell.1)
}

/// A quarter turn brings to each cell of the line on the adjacent face in place `j` the cubie
/// from the same place of the line on the adjacent face before it.
pub proof fn lemma_slot_cell_source(n: int, face: Face, layer: int, j: int, k: int)
    requires
        0 <= layer < n,
        0 <= j < 4,
        0 <= k < n,
    ensures
        source_cell(n, face, layer, slot_cell(n, face, layer, j, k)) == slot_cell(
            n,
            face,
            layer,
            (j + 3) % 4,
            k,
        ),
        in_cube(n, slot_cell(n, face, layer, j, k)),
{
    lemma_adjacent_faces(face);
    lemma_line_cells(spec_adjacent(face, j).1, n, layer);
}

/// Going four times round the lines around `face` leads back to the same cell.
proof fn lemma_slot_cycle(n: int, face: Face, layer: int, j: int, k: int)
    requires
        0 <= layer < n,
        0 <= j < 4,
        0 <= k < n,
    ensures
        source_cell(
            n,
            face,
            layer,
            source_cell(
                n,
                face,
                layer,
                source_cell(n, face, layer, source_cell(n, face, layer, slot_cell(n, face, layer, j, k))),
            ),
        ) == slot_cell(n, face, layer, j, k),
{
    let j1 = (j + 3) % 4;
    let j2 = (j1 + 3) % 4;
    let j3 = (j2 + 3) % 4;
    assert((j3 + 3) % 4 == j);
    lemma_slot_cell_source(n, face, layer, j, k);
    lemma_slot_cell_source(n, face, layer, j1, k);
    lemma_slot_cell_source(n, face, layer, j2, k);
    lemma_slot_cell_source(n, face, layer, j3, k);
}

/// Following the source of a quarter turn four times leads back to the cell it started from.
pub proof fn lemma_turn_source_order_four(n: int, face: Face, layer: int, cell: (Face, int, int))
    requires
        0 <= layer < n,
        in_cube(n, cell),
    ensures
        source_cell(
            n,
            face,
            layer,
            source_cell(n, face, layer, source_cell(n, face, layer, source_cell(n, face, layer, cell))),
        ) == cell,
{
    lemma_adjacent_faces(face);
    let j = adjacent_slot(face, cell.0);
    if cell.0 == face && layer == 0 {
    } else if j >= 0 && on_line(spec_adjacent(face, j).1, n, layer, cell.1, cell.2) {
        lemma_line_cells(spec_adjacent(face, j).1, n, layer);
        let k = line_place(spec_adjacent(face, j).1, n, layer, cell.1, cell.2);
        assert(cell == slot_cell(n, face, layer, j, k));
        lemma_slot_cycle(n, face, layer, j, k);
    } else {
        assert(source_cell(n, face, layer, cell) == cell);
    }
}

/// Turning a layer a quarter clockwise four times leaves the cube as it was.
pub proof fn lemma_quarter_turn_order_four(s: CubeState, face: Face, layer: int)
    requires
        s.wf(),
        0 <= layer < s.n,
    ensures
        turn_layer(turn_layer(turn_layer(turn_layer(s, face, layer), face, layer), face, layer), face, layer)
            == s,
{
    let n = s.n as int;
    let t1 = turn_layer(s, face, layer);
    let t2 = turn_layer(t1, face, layer);
    let t3 = turn_layer(t2, face, layer);
    let t4 = turn_layer(t3, face, layer);
    lemma_turn_layer_cells(s, face, layer);
    lemma_turn_layer_cells(t1, face, layer);
    lemma_turn_layer_cells(t2, face, layer);
    lemma_turn_layer_cells(t3, face, layer);
    assert forall|g: Face, r: int, c: int| 0 <= r < n && 0 <= c < n implies #[trigger] t4.get(g, r, c)
        == s.get(g, r, c) by {
        let p = (g, r, c);
        let p1 = source_cell(n, face, layer, p);
        lemma_turn_source_in_cube(n, face, layer, p);
        let p2 = source_cell(n, face, layer, p1);
        lemma_turn_source_in_cube(n, face, layer, p1);
        let p3 = source_cell(n, face, layer, p2);
        lemma_turn_source_in_cube(n, face, layer, p2);
        lemma_turn_source_in_cube(n, face, layer, p3);
        lemma_turn_source_order_four(n, face, layer, p);
        assert(t4.get(g, r, c) == t3.get(p1.0, p1.1, p1.2));
        assert(t3.get(p1.0, p1.1, p1.2) == t2.get(p2.0, p2.1, p2.2));
    }
    lemma_state_ext(t4, s);
}

/// The edge of a side on the opposite side of it from `alignment`.
pub open spec fn opposite_edge(alignment: IA) -> IA {
    match alignment {
        IA::OuterStart => IA::OuterEnd,
        IA::OuterEnd => IA::OuterStart,
        IA::InnerFirst => IA::InnerLast,
        IA::InnerLast => IA::InnerFirst,
    }
}

/// The faces around a face are the faces around its opposite, and each borders the opposite
/// face along its opposite edge.
pub proof fn lemma_adjacent_of_opposite(face: Face, g: Face)
    requires
        adjacent_slot(face, g) >= 0,
    ensures
        adjacent_slot(face.opposite(), g) >= 0,
        spec_adjacent(face.opposite(), adjacent_slot(face.opposite(), g)).1 == opposite_edge(
            spec_adjacent(face, adjacent_slot(face, g)).1,
        ),
{
    lemma_adjacent_faces(face);
    lemma_adjacent_faces(face.opposite());
}

/// The cell is moved by a quarter turn of layer `layer` behind `face`.
pub open spec fn moved_by(n: int, face: Face, layer: int, cell: (Face, int, int)) -> bool {
    ||| cell.0 == face && layer == 0
    ||| adjacent_slot(face, cell.0) >= 0 && on_line(
        spec_adjacent(face, adjacent_slot(face, cell.0)).1,
        n,
        layer,
        cell.1,
        cell.2,
    )
}

/// A quarter turn leaves every cell it does not move, and brings the cubie of every cell it
/// moves from another cell that it moves.
pub proof fn lemma_turn_source_support(n: int, face: Face, layer: int, cell: (Face, int, int))
    requires
        0 <= layer < n,
        in_cube(n, cell),
    ensures
        !moved_by(n, face, layer, cell) ==> source_cell(n, face, layer, cell) == cell,
        moved_by(n, face, layer, cell) ==> moved_by(n, face, layer, source_cell(n, face, layer, cell)),
{
    lemma_adjacent_faces(face);
    let j = adjacent_slot(face, cell.0);
    if cell.0 == face && layer == 0 {
    } else if j >= 0 && on_line(spec_adjacent(face, j).1, n, layer, cell.1, cell.2) {
        lemma_line_cells(spec_adjacent(face, j).1, n, layer);
        let k = line_place(spec_adjacent(face, j).1, n, layer, cell.1, cell.2);
        assert(cell == slot_cell(n, face, layer, j, k));
        lemma_slot_cell_source(n, face, layer, j, k);
        lemma_line_cells(spec_adjacent(face, (j + 3) % 4).1, n, layer);
    }
}

/// Quarter turns of two different layers behind the same face move different cells.
pub proof fn lemma_layers_disjoint(n: int, face: Face, a: int, b: int, cell: (Face, int, int))
    requires
        0 <= a < n,
        0 <= b < n,
        a != b,
        in_cube(n, cell),
    ensures
        !(moved_by(n, face, a, cell) && moved_by(n, face, b, cell)),
{
}

/// The face opposite to `face` turned at its own layer 0 moves the cells at the last layer
/// behind `face`, and none of those of any other layer behind `face`.
pub proof fn lemma_opposite_face_disjoint(n: int, face: Face, l: int, cell: (Face, int, int))
    requires
        n >= 2,
        0 <= l < n - 1,
        in_cube(n, cell),
    ensures
        !(moved_by(n, face, l, cell) && moved_by(n, face.opposite(), 0, cell)),
{
    lemma_adjacent_faces(face);
    lemma_adjacent_faces(face.opposite());
    if adjacent_slot(face, cell.0) >= 0 {
        lemma_adjacent_of_opposite(face, cell.0);
    }
}

/// Where the cubie that a clockwise rotation of the single layer `l` behind `face`, once
/// normalised, brings to `cell` comes from: the last layer is made as three quarter turns of the
/// opposite face.
pub open spec fn layer_source(n: int, face: Face, l: int, cell: (Face, int, int)) -> (Face, int, int) {
    if l == n - 1 && n > 1 {
        let opp = face.opposite();
        source_cell(n, opp, 0, source_cell(n, opp, 0, source_cell(n, opp, 0, cell)))
    } else {
        source_cell(n, face, l, cell)
    }
}

/// The cell is moved by the normalised clockwise rotation of the single layer `l` behind `face`.
pub open spec fn layer_moves(n: int, face: Face, l: int, cell: (Face, int, int)) -> bool {
    if l == n - 1 && n > 1 {
        moved_by(n, face.opposite(), 0, cell)
    } else {
        moved_by(n, face, l, cell)
    }
}

/// Where the cubie that rotating the layers `lo` to `hi` behind `face`, one at a time in
/// increasing order, brings to `cell` comes from.
pub open spec fn range_source(n: int, face: Face, lo: int, hi: int, cell: (Face, int, int)) -> (Face, int, int)
    decreases hi + 1 - lo,
{
    if lo > hi {
        cell
    } else {
        layer_source(n, face, lo, range_source(n, face, lo + 1, hi, cell))
    }
}

/// The rotation of a single layer keeps cells on the cube, leaves the cells it does not move,
/// keeps the cells it moves among themselves, and comes back to the start after four times.
pub proof fn lemma_layer_source(n: int, face: Face, l: int, cell: (Face, int, int))
    requires
        0 <= l < n,
        in_cube(n, cell),
    ensures
        in_cube(n, layer_source(n, face, l, cell)),
        !layer_moves(n, face, l, cell) ==> layer_source(n, face, l, cell) == cell,
        layer_moves(n, face, l, cell) ==> layer_moves(n, face, l, layer_source(n, face, l, cell)),
        layer_source(
            n,
            face,
            l,
            layer_source(n, face, l, layer_source(n, face, l, layer_source(n, face, l, cell))),
        ) == cell,
{
    if l == n - 1 && n > 1 {
        let opp = face.opposite();
        let c1 = source_cell(n, opp, 0, cell);
        lemma_turn_source_in_cube(n, opp, 0, cell);
        lemma_turn_source_support(n, opp, 0, cell);
        let c2 = source_cell(n, opp, 0, c1);
        lemma_turn_source_in_cube(n, opp, 0, c1);
        lemma_turn_source_support(n, opp, 0, c1);
        let c3 = source_cell(n, opp, 0, c2);
        lemma_turn_source_in_cube(n, opp, 0, c2);
        lemma_turn_source_support(n, opp, 0, c2);
        lemma_turn_source_order_four(n, opp, 0, cell);
        let c4 = source_cell(n, opp, 0, c3);
        lemma_turn_source_in_cube(n, opp, 0, c3);
        assert(c4 == cell);
        // Three quarter turns undo one, so the triple turn steps back along c3, c2, c1.
        let t1 = layer_source(n, face, l, cell);
        assert(t1 == c3);
        lemma_layer_triple_inverse(n, opp, cell);
        lemma_layer_triple_inverse(n, opp, c3);
        lemma_layer_triple_inverse(n, opp, c2);
        lemma_layer_triple_inverse(n, opp, c1);
        assert(layer_source(n, face, l, c3) == c2);
        assert(layer_source(n, face, l, c2) == c1);
        assert(layer_source(n, face, l, c1) == cell);
    } else {
        lemma_turn_source_in_cube(n, face, l, cell);
        lemma_turn_source_support(n, face, l, cell);
        lemma_turn_source_order_four(n, face, l, cell);
    }
}

/// Three quarter turns undo one.
proof fn lemma_layer_triple_inverse(n: int, f: Face, cell: (Face, int, int))
    requires
        n >= 1,
        in_cube(n, cell),
    ensures
        source_cell(n, f, 0, source_cell(n, f, 0, source_cell(n, f, 0, source_cell(n, f, 0, cell)))) == cell,
        in_cube(n, source_cell(n, f, 0, cell)),
        in_cube(n, source_cell(n, f, 0, source_cell(n, f, 0, cell))),
        in_cube(n, source_cell(n, f, 0, source_cell(n, f, 0, source_cell(n, f, 0, cell)))),
{
    lemma_turn_source_order_four(n, f, 0, cell);
    lemma_turn_source_in_cube(n, f, 0, cell);
    lemma_turn_source_in_cube(n, f, 0, source_cell(n, f, 0, cell));
    lemma_turn_source_in_cube(n, f, 0, source_cell(n, f, 0, source_cell(n, f, 0, cell)));
}

/// Rotations of two different single layers behind the same face move different cells.
pub proof fn lemma_layer_moves_disjoint(n: int, face: Face, a: int, b: int, cell: (Face, int, int))
    requires
        0 <= a < n,
        0 <= b < n,
        a != b,
        in_cube(n, cell),
    ensures
        !(layer_moves(n, face, a, cell) && layer_moves(n, face, b, cell)),
{
    if a == n - 1 && n > 1 {
        lemma_opposite_face_disjoint(n, face, b, cell);
    } else if b == n - 1 && n > 1 {
        lemma_opposite_face_disjoint(n, face, a, cell);
    } else {
        lemma_layers_disjoint(n, face, a, b, cell);
    }
}

/// Rotations of two different single layers behind the same face can be made in either order.
pub proof fn lemma_layers_commute(n: int, face: Face, a: int, b: int, cell: (Face, int, int))
    requires
        0 <= a < n,
        0 <= b < n,
        a != b,
        in_cube(n, cell),
    ensures
        layer_source(n, face, a, layer_source(n, face, b, cell)) == layer_source(
            n,
            face,
            b,
            layer_source(n, face, a, cell),
        ),
{
    lemma_layer_source(n, face, a, cell);
    lemma_layer_source(n, face, b, cell);
    lemma_layer_moves_disjoint(n, face, a, b, cell);
    let sa = layer_source(n, face, a, cell);
    let sb = layer_source(n, face, b, cell);
    lemma_layer_source(n, face, b, sa);
    lemma_layer_source(n, face, a, sb);
    lemma_layer_moves_disjoint(n, face, a, b, sa);
    lemma_layer_moves_disjoint(n, face, a, b, sb);
}

/// Rotating the layers `lo` to `hi` keeps cells on the cube.
pub proof fn lemma_range_source_in_cube(n: int, face: Face, lo: int, hi: int, cell: (Face, int, int))
    requires
        0 <= lo,
        hi < n,
        in_cube(n, cell),
    ensures
        in_cube(n, range_source(n, face, lo, hi, cell)),
    decreases hi + 1 - lo,
{
    if lo <= hi {
        lemma_range_source_in_cube(n, face, lo + 1, hi, cell);
        lemma_layer_source(n, face, lo, range_source(n, face, lo + 1, hi, cell));
    }
}

/// The rotation of a layer outside `lo` to `hi` can be made before or after those layers.
pub proof fn lemma_range_commute(n: int, face: Face, l: int, lo: int, hi: int, cell: (Face, int, int))
    requires
        0 <= l < n,
        0 <= lo,
        hi < n,
        l < lo || l > hi,
        in_cube(n, cell),
    ensures
        layer_source(n, face, l, range_source(n, face, lo, hi, cell)) == range_source(
            n,
            face,
            lo,
            hi,
            layer_source(n, face, l, cell),
        ),
    decreases hi + 1 - lo,
{
    if lo <= hi {
        let inner = range_source(n, face, lo + 1, hi, cell);
        lemma_range_source_in_cube(n, face, lo + 1, hi, cell);
        lemma_range_commute(n, face, l, lo + 1, hi, cell);
        lemma_layers_commute(n, face, l, lo, inner);
    }
}

/// Rotating the layers `lo` to `hi` four times leads every cell back to where it was.
pub proof fn lemma_range_order_four(n: int, face: Face, lo: int, hi: int, cell: (Face, int, int))
    requires
        0 <= lo,
        hi < n,
        in_cube(n, cell),
    ensures
        range_source(
            n,
            face,
            lo,
            hi,
            range_source(n, face, lo, hi, range_source(n, face, lo, hi, range_source(n, face, lo, hi, cell))),
        ) == cell,
    decreases hi + 1 - lo,
{
    if lo <= hi {
        let q = |x: (Face, int, int)| range_source(n, face, lo + 1, hi, x);
        let l = |x: (Face, int, int)| layer_source(n, face, lo, x);
        // Each application is the single layer `lo` after the rest; move the single layers out.
        let x1 = q(cell);
        lemma_range_source_in_cube(n, face, lo + 1, hi, cell);
        let y1 = l(x1);
        lemma_layer_source(n, face, lo, x1);
        let x2 = q(y1);
        lemma_range_source_in_cube(n, face, lo + 1, hi, y1);
        lemma_range_commute(n, face, lo, lo + 1, hi, x1);
        assert(x2 == l(q(x1)));
        let y2 = l(x2);
        lemma_range_source_in_cube(n, face, lo + 1, hi, x1);
        let qq = q(x1);
        lemma_layer_source(n, face, lo, qq);
        lemma_layer_source(n, face, lo, x2);
        let x3 = q(y2);
        lemma_range_source_in_cube(n, face, lo + 1, hi, y2);
        lemma_range_commute(n, face, lo, lo + 1, hi, x2);
        lemma_range_commute(n, face, lo, lo + 1, hi, qq);
        assert(x3 == l(l(q(qq))));
        let y3 = l(x3);
        let qqq = q(qq);
        lemma_range_source_in_cube(n, face, lo + 1, hi, qq);
        lemma_layer_source(n, face, lo, qqq);
        lemma_layer_source(n, face, lo, l(qqq));
        lemma_layer_source(n, face, lo, x3);
        let x4 = q(y3);
        lemma_range_source_in_cube(n, face, lo + 1, hi, y3);
        lemma_range_commute(n, face, lo, lo + 1, hi, x3);
        lemma_range_commute(n, face, lo, lo + 1, hi, l(qqq));
        lemma_range_commute(n, face, lo, lo + 1, hi, qqq);
        let qqqq = q(qqq);
        lemma_range_source_in_cube(n, face, lo + 1, hi, qqq);
        assert(x4 == l(l(l(qqqq))));
        lemma_range_order_four(n, face, lo + 1, hi, cell);
        assert(qqqq == cell);
        lemma_layer_source(n, face, lo, cell);
    }
}

/// Each cubie of `t` is the cubie of `s` at the cell `src` names.
pub open spec fn moved_from(s: CubeState, t: CubeState, src: spec_fn((Face, int, int)) -> (Face, int, int)) -> bool {
    &&& t.wf()
    &&& t.n == s.n
    &&& forall|cell: (Face, int, int)|
        in_cube(s.n as int, cell) ==> #[trigger] t.get(cell.0, cell.1, cell.2) == s.get(
            src(cell).0,
            src(cell).1,
            src(cell).2,
        )
}

/// The normalised clockwise rotation of a single layer moves the cubies as `layer_source` says.
pub proof fn lemma_layer_state(s: CubeState, r: Rotation, l: int)
    requires
        s.wf(),
        r.direction == Direction::Clockwise,
        0 <= l < s.n,
        l <= usize::MAX,
    ensures
        single_outcome(s, setback_of(r, l as usize).spec_normalise(s.n as int)).1 == Ok::<
            (),
            LayerError,
        >(()),
        moved_from(
            s,
            single_outcome(s, setback_of(r, l as usize).spec_normalise(s.n as int)).0,
            |cell: (Face, int, int)| layer_source(s.n as int, r.relative_to, l, cell),
        ),
{
    let n = s.n as int;
    let face = r.relative_to;
    if l == n - 1 && n > 1 {
        let opp = face.opposite();
        let t1 = turn_layer(s, opp, 0);
        lemma_turn_layer_cells(s, opp, 0);
        let t2 = turn_layer(t1, opp, 0);
        lemma_turn_layer_cells(t1, opp, 0);
        let t3 = turn_layer(t2, opp, 0);
        lemma_turn_layer_cells(t2, opp, 0);
        assert forall|cell: (Face, int, int)| in_cube(n, cell) implies #[trigger] t3.get(
            cell.0,
            cell.1,
            cell.2,
        ) == s.get(layer_source(n, face, l, cell).0, layer_source(n, face, l, cell).1, layer_source(n, face, l, cell).2) by {
            lemma_layer_triple_inverse(n, opp, cell);
        }
    } else {
        lemma_turn_layer_cells(s, face, l);
        let t = turn_layer(s, face, l);
        assert forall|cell: (Face, int, int)| in_cube(n, cell) implies #[trigger] t.get(
            cell.0,
            cell.1,
            cell.2,
        ) == s.get(layer_source(n, face, l, cell).0, layer_source(n, face, l, cell).1, layer_source(n, face, l, cell).2) by {}
    }
}

/// Rotating the layers `lo` to `hi` one at a time moves the cubies as `range_source` says.
pub proof fn lemma_range_state(s: CubeState, r: Rotation, lo: int, hi: int)
    requires
        s.wf(),
        r.direction == Direction::Clockwise,
        0 <= lo,
        hi < s.n,
        hi < usize::MAX,
    ensures
        setbacks_outcome(s, r, lo, hi).1 == Ok::<(), LayerError>(()),
        moved_from(
            s,
            setbacks_outcome(s, r, lo, hi).0,
            |cell: (Face, int, int)| range_source(s.n as int, r.relative_to, lo, hi, cell),
        ),
    decreases hi + 1 - lo,
{
    let n = s.n as int;
    let face = r.relative_to;
    if lo <= hi {
        lemma_layer_state(s, r, lo);
        let o = single_outcome(s, setback_of(r, lo as usize).spec_normalise(n));
        lemma_range_state(o.0, r, lo + 1, hi);
        let t = setbacks_outcome(s, r, lo, hi).0;
        assert(t == setbacks_outcome(o.0, r, lo + 1, hi).0);
        assert forall|cell: (Face, int, int)| in_cube(n, cell) implies #[trigger] t.get(
            cell.0,
            cell.1,
            cell.2,
        ) == s.get(range_source(n, face, lo, hi, cell).0, range_source(n, face, lo, hi, cell).1, range_source(n, face, lo, hi, cell).2) by {
            let inner = range_source(n, face, lo + 1, hi, cell);
            lemma_range_source_in_cube(n, face, lo + 1, hi, cell);
            assert(o.0.get(inner.0, inner.1, inner.2) == s.get(
                layer_source(n, face, lo, inner).0,
                layer_source(n, face, lo, inner).1,
                layer_source(n, face, lo, inner).2,
            ));
        }
    } else {
        assert forall|cell: (Face, int, int)| in_cube(n, cell) implies #[trigger] s.get(
            cell.0,
            cell.1,
            cell.2,
        ) == s.get(range_source(n, face, lo, hi, cell).0, range_source(n, face, lo, hi, cell).1, range_source(n, face, lo, hi, cell).2) by {}
    }
}

/// Where the cubie that the normalised clockwise rotation `c` brings to `cell` comes from.
pub open spec fn clockwise_source(n: int, c: Rotation, cell: (Face, int, int)) -> (Face, int, int) {
    match c.kind {
        RotationKind::Multilayer { layer } => range_source(n, c.relative_to, 0, layer as int, cell),
        RotationKind::MultiSetback { start_layer, end_layer } => range_source(
            n,
            c.relative_to,
            start_layer as int,
            end_layer as int,
            cell,
        ),
        _ => source_cell(n, c.relative_to, kind_layer(c.kind) as int, cell),
    }
}

/// A normalised clockwise rotation that fits the cube moves the cubies as `clockwise_source`
/// says, and leads every cell back to where it was after four times.
pub proof fn lemma_clockwise_state(s: CubeState, c: Rotation)
    requires
        s.wf(),
        c.direction == Direction::Clockwise,
        c.well_formed(),
        c.fits(s.n as int),
        c == c.spec_normalise(s.n as int),
    ensures
        clockwise_outcome(s, c).1 == Ok::<(), LayerError>(()),
        moved_from(s, clockwise_outcome(s, c).0, |cell: (Face, int, int)| clockwise_source(s.n as int, c, cell)),
        forall|cell: (Face, int, int)|
            in_cube(s.n as int, cell) ==> {
                &&& in_cube(s.n as int, #[trigger] clockwise_source(s.n as int, c, cell))
                &&& clockwise_source(
                    s.n as int,
                    c,
                    clockwise_source(
                        s.n as int,
                        c,
                        clockwise_source(s.n as int, c, clockwise_source(s.n as int, c, cell)),
                    ),
                ) == cell
            },
{
    let n = s.n as int;
    let face = c.relative_to;
    match c.kind {
        RotationKind::Multilayer { layer } => {
            lemma_range_state(s, c, 0, layer as int);
            assert forall|cell: (Face, int, int)| in_cube(n, cell) implies {
                &&& in_cube(n, #[trigger] clockwise_source(n, c, cell))
                &&& clockwise_source(n, c, clockwise_source(n, c, clockwise_source(n, c, clockwise_source(n, c, cell)))) == cell
            } by {
                lemma_range_source_in_cube(n, face, 0, layer as int, cell);
                lemma_range_order_four(n, face, 0, layer as int, cell);
            }
        },
        RotationKind::MultiSetback { start_layer, end_layer } => {
            lemma_range_state(s, c, start_layer as int, end_layer as int);
            assert forall|cell: (Face, int, int)| in_cube(n, cell) implies {
                &&& in_cube(n, #[trigger] clockwise_source(n, c, cell))
                &&& clockwise_source(n, c, clockwise_source(n, c, clockwise_source(n, c, clockwise_source(n, c, cell)))) == cell
            } by {
                lemma_range_source_in_cube(n, face, start_layer as int, end_layer as int, cell);
                lemma_range_order_four(n, face, start_layer as int, end_layer as int, cell);
            }
        },
        _ => {
            let l = kind_layer(c.kind) as int;
            lemma_turn_layer_cells(s, face, l);
            let t = turn_layer(s, face, l);
            assert forall|cell: (Face, int, int)| in_cube(n, cell) implies #[trigger] t.get(
                cell.0,
                cell.1,
                cell.2,
            ) == s.get(clockwise_source(n, c, cell).0, clockwise_source(n, c, cell).1, clockwise_source(n, c, cell).2) by {}
            assert forall|cell: (Face, int, int)| in_cube(n, cell) implies {
                &&& in_cube(n, #[trigger] clockwise_source(n, c, cell))
                &&& clockwise_source(n, c, clockwise_source(n, c, clockwise_source(n, c, clockwise_source(n, c, cell)))) == cell
            } by {
                lemma_turn_source_in_cube(n, face, l, cell);
                lemma_turn_source_order_four(n, face, l, cell);
            }
        },
    }
}

/// Rotating a cube and then rotating it by the inverse rotation leaves the cube as it was,
/// for every rotation that fits the cube.
pub proof fn lemma_rotate_then_inverse(s: CubeState, r: Rotation)
    requires
        s.wf(),
        r.well_formed(),
        r.fits(s.n as int),
    ensures
        rotate_outcome(s, r).1 == Ok::<(), LayerError>(()),
        rotate_outcome(rotate_outcome(s, r).0, r.inverted()) == (s, Ok::<(), LayerError>(())),
{
    let n = s.n as int;
    lemma_normalise_idempotent(r, n);
    lemma_normalise_inverted(r, n);
    let m = r.spec_normalise(n);
    lemma_normalise_inverted(m, n);
    lemma_normalise_idempotent(m.inverted(), n);
    assert(r.inverted().spec_normalise(n) == m.inverted());
    let c = if m.direction == Direction::Clockwise { m } else { m.inverted() };
    assert(c.direction == Direction::Clockwise);
    assert(c == c.spec_normalise(n));
    assert(c.fits(n));
    lemma_four_clockwise(s, c);
    let t1 = clockwise_outcome(s, c).0;
    lemma_four_clockwise(t1, c);
    let t2 = clockwise_outcome(t1, c).0;
    lemma_four_clockwise(t2, c);
    let t3 = clockwise_outcome(t2, c).0;
    lemma_four_clockwise(t3, c);
}

/// Four passes of a normalised clockwise rotation that fits the cube, each of which succeeds,
/// leave the cube as it was.
proof fn lemma_four_clockwise(s: CubeState, c: Rotation)
    requires
        s.wf(),
        c.direction == Direction::Clockwise,
        c.well_formed(),
        c.fits(s.n as int),
        c == c.spec_normalise(s.n as int),
    ensures
        clockwise_outcome(s, c).1 == Ok::<(), LayerError>(()),
        clockwise_outcome(s, c).0.wf(),
        clockwise_outcome(s, c).0.n == s.n,
        clockwise_outcome(
            clockwise_outcome(clockwise_outcome(clockwise_outcome(s, c).0, c).0, c).0,
            c,
        ).0 == s,
{
    let n = s.n as int;
    lemma_clockwise_state(s, c);
    let t1 = clockwise_outcome(s, c).0;
    lemma_clockwise_state(t1, c);
    let t2 = clockwise_outcome(t1, c).0;
    lemma_clockwise_state(t2, c);
    let t3 = clockwise_outcome(t2, c).0;
    lemma_clockwise_state(t3, c);
    let t4 = clockwise_outcome(t3, c).0;
    assert forall|g: Face, row: int, col: int| 0 <= row < n && 0 <= col < n implies #[trigger] t4.get(
        g,
        row,
        col,
    ) == s.get(g, row, col) by {
        let cell = (g, row, col);
        let p1 = clockwise_source(n, c, cell);
        let p2 = clockwise_source(n, c, p1);
        let p3 = clockwise_source(n, c, p2);
        let p4 = clockwise_source(n, c, p3);
        assert(t4.get(cell.0, cell.1, cell.2) == t3.get(p1.0, p1.1, p1.2));
        assert(t3.get(p1.0, p1.1, p1.2) == t2.get(p2.0, p2.1, p2.2));
        assert(t2.get(p2.0, p2.1, p2.2) == t1.get(p3.0, p3.1, p3.2));
        assert(t1.get(p3.0, p3.1, p3.2) == s.get(p4.0, p4.1, p4.2));
    }
    lemma_state_ext(t4, s);
}

/// Rotating a cube four times by the same rotation, of any kind and direction, leaves the cube
/// as it was, for every rotation that fits the cube; each of the four rotations succeeds.
pub proof fn lemma_rotate_order_four(s: CubeState, r: Rotation)
    requires
        s.wf(),
        r.well_formed(),
        r.fits(s.n as int),
    ensures
        sequence_outcome(s, seq![r, r, r, r]) == (s, Ok::<(), LayerError>(())),
{
    let n = s.n as int;
    lemma_normalise_idempotent(r, n);
    let m = r.spec_normalise(n);
    lemma_normalise_inverted(m, n);
    lemma_normalise_idempotent(m.inverted(), n);
    let c = if m.direction == Direction::Clockwise { m } else { m.inverted() };
    assert(c.direction == Direction::Clockwise);
    assert(c == c.spec_normalise(n));
    assert(c.fits(n));
    // The states after each pass of `c`.
    lemma_four_clockwise(s, c);
    let p1 = clockwise_outcome(s, c).0;
    lemma_four_clockwise(p1, c);
    let p2 = clockwise_outcome(p1, c).0;
    lemma_four_clockwise(p2, c);
    let p3 = clockwise_outcome(p2, c).0;
    lemma_four_clockwise(p3, c);
    let p4 = clockwise_outcome(p3, c).0;
    assert(p4 == s);
    let q = seq![r, r, r, r];
    assert(q.drop_first() =~= seq![r, r, r]);
    assert(seq![r, r, r].drop_first() =~= seq![r, r]);
    assert(seq![r, r].drop_first() =~= seq![r]);
    assert(seq![r].drop_first() =~= Seq::<Rotation>::empty());
    if m.direction == Direction::Clockwise {
        assert(rotate_outcome(s, r) == (p1, Ok::<(), LayerError>(())));
        assert(rotate_outcome(p1, r) == (p2, Ok::<(), LayerError>(())));
        assert(rotate_outcome(p2, r) == (p3, Ok::<(), LayerError>(())));
        assert(rotate_outcome(p3, r) == (s, Ok::<(), LayerError>(())));
        assert(sequence_outcome(s, q) == (s, Ok::<(), LayerError>(()))) by {
            reveal_with_fuel(sequence_outcome, 5);
        }
    } else {
        // Each anticlockwise rotation is three passes; twelve passes are three times four.
        assert(rotate_outcome(s, r) == (p3, Ok::<(), LayerError>(())));
        assert(rotate_outcome(p3, r) == (p2, Ok::<(), LayerError>(())));
        assert(rotate_outcome(p2, r) == (p1, Ok::<(), LayerError>(())));
        assert(rotate_outcome(p1, r) == (s, Ok::<(), LayerError>(())));
        assert(sequence_outcome(s, q) == (s, Ok::<(), LayerError>(()))) by {
            reveal_with_fuel(sequence_outcome, 5);
        }
    }
}

/// The rotations that undo `rotations`: the inverse of each, last first.
pub open spec fn undoing(rotations: Seq<Rotation>) -> Seq<Rotation>
    decreases rotations.len(),
{
    if rotations.len() == 0 {
        seq![]
    } else {
        seq![rotations.last().inverted()] + undoing(rotations.drop_last())
    }
}

/// Rotating a cube by a sequence of rotations that fit it, and then by the rotations that undo
/// them, leaves the cube as it was.
pub proof fn lemma_sequence_then_undoing(s: CubeState, rotations: Seq<Rotation>)
    requires
        s.wf(),
        all_well_formed(rotations),
        all_fit(rotations, s.n as int),
    ensures
        sequence_outcome(s, rotations).1 is Ok,
        sequence_outcome(sequence_outcome(s, rotations).0, undoing(rotations)) == (s, Ok::<(), LayerError>(())),
    decreases rotations.len(),
{
    if rotations.len() == 0 {
        assert(undoing(rotations) =~= Seq::<Rotation>::empty());
    } else {
        let init = rotations.drop_last();
        let last = rotations.last();
        assert(rotations == init + seq![last]);
        assert(all_well_formed(init)) by {
            assert forall|i: int| 0 <= i < init.len() implies #[trigger] init[i].well_formed() by {
                assert(init[i] == rotations[i]);
            }
        }
        assert(all_fit(init, s.n as int)) by {
            assert forall|i: int| 0 <= i < init.len() implies #[trigger] init[i].fits(s.n as int) by {
                assert(init[i] == rotations[i]);
            }
        }
        assert(last == rotations[rotations.len() - 1]);
        lemma_sequence_then_undoing(s, init);
        let u = sequence_outcome(s, init).0;
        lemma_sequence_outcome(s, init);
        lemma_sequence_concat(s, init, seq![last]);
        lemma_rotate_then_inverse(u, last);
        let t = rotate_outcome(u, last).0;
        lemma_sequence_single(u, last);
        lemma_sequence_concat(t, seq![last.inverted()], undoing(init));
        assert(undoing(rotations) == seq![last.inverted()] + undoing(init));
        lemma_sequence_single(t, last.inverted());
    }
}

/// Two cubes in the same state come out of the same rotation in the same state, with the same
/// result: what a rotation does depends on the cube's facelets alone.
pub proof fn lemma_rotation_deterministic(a: CubeState, b: CubeState, r: Rotation)
    requires
        a == b,
    ensures
        rotate_outcome(a, r) == rotate_outcome(b, r),
{
}

} // verus!
