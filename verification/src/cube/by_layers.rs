use vstd::prelude::*;

use super::direction::Direction;
use super::face::Face;
use super::flat_side::LayerError;
use super::laws::{
    clockwise_source, in_cube, layer_source, lemma_clockwise_state, lemma_layer_source,
    lemma_layer_state, lemma_range_commute, lemma_range_source_in_cube, lemma_rotate_order_four,
    lemma_rotate_then_inverse, moved_from, range_source,
};
use super::rotation::{Rotation, RotationKind, lemma_normalise_idempotent};
use super::{
    CubeState, lemma_rotate_outcome, lemma_state_ext, rotate_outcome,
    sequence_outcome, setback_of, setbacks_outcome, single_outcome,
};

verus! {

/// The rotations of each single layer from `lo` to `hi` behind the face of `r`, in that order,
/// each in the direction of `r`.
pub open spec fn layer_by_layer(r: Rotation, lo: int, hi: int) -> Seq<Rotation> {
    Seq::new(
        if lo <= hi { (hi + 1 - lo) as nat } else { 0 },
        |k: int| setback_of(r, (lo + k) as usize),
    )
}

/// The first and last layer that a rotation of several layers turns: from the face to `layer`
/// for a multi-layer rotation, from the nearer to the further end for a multi-setback one.
pub open spec fn layers_spanned(kind: RotationKind) -> (int, int) {
    match kind {
        RotationKind::Multilayer { layer } => (0, layer as int),
        RotationKind::MultiSetback { start_layer, end_layer } => if start_layer <= end_layer {
            (start_layer as int, end_layer as int)
        } else {
            (end_layer as int, start_layer as int)
        },
        _ => (0, 0),
    }
}

/// A clockwise rotation of a single layer is made as the model of a single layer says, also
/// when it is the furthest layer, which is made as the opposite face turned the other way.
proof fn lemma_clockwise_setback(s: CubeState, r: Rotation, k: int)
    requires
        r.direction == Direction::Clockwise,
        0 <= k <= usize::MAX,
    ensures
        rotate_outcome(s, setback_of(r, k as usize)) == single_outcome(
            s,
            setback_of(r, k as usize).spec_normalise(s.n as int),
        ),
{
}

/// Rotating the layers `lo` to `hi` one at a time is rotating by each of their clockwise
/// rotations in turn.
proof fn lemma_setbacks_as_sequence(s: CubeState, r: Rotation, lo: int, hi: int)
    requires
        r.direction == Direction::Clockwise,
        0 <= lo,
        hi < usize::MAX,
    ensures
        setbacks_outcome(s, r, lo, hi) == sequence_outcome(s, layer_by_layer(r, lo, hi)),
    decreases hi + 1 - lo,
{
    let q = layer_by_layer(r, lo, hi);
    if lo <= hi {
        assert(q[0] == setback_of(r, lo as usize));
        assert(q.drop_first() =~= layer_by_layer(r, lo + 1, hi));
        lemma_clockwise_setback(s, r, lo);
        let o = single_outcome(s, setback_of(r, lo as usize).spec_normalise(s.n as int));
        if o.1 is Ok {
            lemma_setbacks_as_sequence(o.0, r, lo + 1, hi);
        }
    } else {
        assert(q =~= Seq::<Rotation>::empty());
    }
}

/// A clockwise rotation of several layers does what the clockwise rotations of each of its
/// layers do, one after another from the nearest layer to the furthest, and stops at the same
/// first missing layer: `3Fw` is `F`, `2F`, `3F` in turn, and `2-4F` is `2F`, `3F`, `4F`.
pub proof fn lemma_clockwise_layers_one_by_one(s: CubeState, r: Rotation)
    requires
        r.well_formed(),
        r.direction == Direction::Clockwise,
        r.kind is Multilayer || r.kind is MultiSetback,
    ensures
        rotate_outcome(s, r) == sequence_outcome(
            s,
            layer_by_layer(r, layers_spanned(r.kind).0, layers_spanned(r.kind).1),
        ),
{
    let m = r.spec_normalise(s.n as int);
    let (lo, hi) = layers_spanned(r.kind);
    lemma_setbacks_as_sequence(s, m, lo, hi);
    assert(layer_by_layer(m, lo, hi) =~= layer_by_layer(r, lo, hi));
}

/// Rotating the single layer 0 behind a face is rotating the face itself.
pub proof fn lemma_setback_zero_is_face(s: CubeState, r: Rotation)
    ensures
        rotate_outcome(s, setback_of(r, 0)) == rotate_outcome(
            s,
            Rotation { kind: RotationKind::FaceOnly, ..r },
        ),
{
}

/// Rotating a cube by the inverse of a rotation that fits it is rotating it three times by the
/// rotation itself.
proof fn lemma_inverse_is_thrice(s: CubeState, r: Rotation)
    requires
        s.wf(),
        r.well_formed(),
        r.fits(s.n as int),
    ensures
        rotate_outcome(s, r.inverted()) == sequence_outcome(s, seq![r, r, r]),
        sequence_outcome(s, seq![r, r, r]).1 is Ok,
{
    lemma_rotate_outcome(s, r);
    let s1 = rotate_outcome(s, r).0;
    lemma_rotate_outcome(s1, r);
    let s2 = rotate_outcome(s1, r).0;
    lemma_rotate_outcome(s2, r);
    let s3 = rotate_outcome(s2, r).0;
    lemma_rotate_order_four(s, r);
    assert(seq![r, r, r, r].drop_first() =~= seq![r, r, r]);
    assert(seq![r, r, r].drop_first() =~= seq![r, r]);
    assert(seq![r, r].drop_first() =~= seq![r]);
    assert(seq![r].drop_first() =~= Seq::<Rotation>::empty());
    assert(sequence_outcome(s, seq![r, r, r]) == (s3, Ok::<(), LayerError>(()))) by {
        reveal_with_fuel(sequence_outcome, 4);
    }
    assert(rotate_outcome(s3, r).0 == s) by {
        reveal_with_fuel(sequence_outcome, 5);
    }
    lemma_rotate_then_inverse(s3, r);
}

/// A layer turned three times: where the cubie that three clockwise rotations of layer `l`
/// bring to `cell` comes from.
pub open spec fn layer_thrice(n: int, face: Face, l: int, cell: (Face, int, int)) -> (Face, int, int) {
    layer_source(n, face, l, layer_source(n, face, l, layer_source(n, face, l, cell)))
}

/// Where the cubie that rotating each layer from `lo` to `hi` anticlockwise in turn brings to
/// `cell` comes from.
pub open spec fn anticlockwise_source(n: int, face: Face, lo: int, hi: int, cell: (Face, int, int)) -> (Face, int, int)
    decreases hi + 1 - lo,
{
    if lo > hi {
        cell
    } else {
        layer_thrice(n, face, lo, anticlockwise_source(n, face, lo + 1, hi, cell))
    }
}

/// Three moves of the cubies, each as `src` says, move them as `src` taken three times says.
proof fn lemma_moved_thrice(
    s: CubeState,
    t1: CubeState,
    t2: CubeState,
    t3: CubeState,
    src: spec_fn((Face, int, int)) -> (Face, int, int),
)
    requires
        moved_from(s, t1, src),
        moved_from(t1, t2, src),
        moved_from(t2, t3, src),
        forall|cell: (Face, int, int)| in_cube(s.n as int, cell) ==> in_cube(s.n as int, #[trigger] src(cell)),
    ensures
        moved_from(s, t3, |cell: (Face, int, int)| src(src(src(cell)))),
{
    let n = s.n as int;
    assert forall|cell: (Face, int, int)| in_cube(n, cell) implies #[trigger] t3.get(cell.0, cell.1, cell.2)
        == s.get(src(src(src(cell))).0, src(src(src(cell))).1, src(src(src(cell))).2) by {
        let p1 = src(cell);
        let p2 = src(p1);
        let p3 = src(p2);
        assert(in_cube(n, p1));
        assert(in_cube(n, p2));
        assert(t3.get(cell.0, cell.1, cell.2) == t2.get(p1.0, p1.1, p1.2));
        assert(t2.get(p1.0, p1.1, p1.2) == t1.get(p2.0, p2.1, p2.2));
        assert(t1.get(p2.0, p2.1, p2.2) == s.get(p3.0, p3.1, p3.2));
    }
}

/// The anticlockwise rotation of a single layer that the cube has moves the cubies as three
/// clockwise ones do.
proof fn lemma_anticlockwise_setback_state(s: CubeState, r: Rotation, k: int)
    requires
        s.wf(),
        r.direction == Direction::Anticlockwise,
        0 <= k < s.n,
        k < usize::MAX,
    ensures
        rotate_outcome(s, setback_of(r, k as usize)).1 == Ok::<(), LayerError>(()),
        moved_from(
            s,
            rotate_outcome(s, setback_of(r, k as usize)).0,
            |cell: (Face, int, int)| layer_thrice(s.n as int, r.relative_to, k, cell),
        ),
{
    let n = s.n as int;
    let face = r.relative_to;
    let rc = r.inverted();
    let ac = setback_of(rc, k as usize);
    assert(ac.inverted() == setback_of(r, k as usize));
    lemma_inverse_is_thrice(s, ac);
    let src = |cell: (Face, int, int)| layer_source(n, face, k, cell);
    lemma_clockwise_setback(s, rc, k);
    lemma_layer_state(s, rc, k);
    let t1 = rotate_outcome(s, ac).0;
    lemma_clockwise_setback(t1, rc, k);
    lemma_layer_state(t1, rc, k);
    let t2 = rotate_outcome(t1, ac).0;
    lemma_clockwise_setback(t2, rc, k);
    lemma_layer_state(t2, rc, k);
    let t3 = rotate_outcome(t2, ac).0;
    assert(seq![ac, ac, ac].drop_first() =~= seq![ac, ac]);
    assert(seq![ac, ac].drop_first() =~= seq![ac]);
    assert(seq![ac].drop_first() =~= Seq::<Rotation>::empty());
    assert(sequence_outcome(s, seq![ac, ac, ac]) == (t3, Ok::<(), LayerError>(()))) by {
        reveal_with_fuel(sequence_outcome, 4);
    }
    assert forall|cell: (Face, int, int)| in_cube(n, cell) implies in_cube(n, #[trigger] src(cell)) by {
        lemma_layer_source(n, face, k, cell);
    }
    lemma_moved_thrice(s, t1, t2, t3, src);
    let src3 = |cell: (Face, int, int)| src(src(src(cell)));
    assert forall|cell: (Face, int, int)| in_cube(n, cell) implies #[trigger] t3.get(cell.0, cell.1, cell.2)
        == s.get(layer_thrice(n, face, k, cell).0, layer_thrice(n, face, k, cell).1, layer_thrice(n, face, k, cell).2) by {
        assert(src3(cell) == layer_thrice(n, face, k, cell));
    }
}

/// Rotating each layer from `lo` to `hi` anticlockwise keeps cells on the cube.
proof fn lemma_anticlockwise_source_in_cube(n: int, face: Face, lo: int, hi: int, cell: (Face, int, int))
    requires
        0 <= lo,
        hi < n,
        in_cube(n, cell),
    ensures
        in_cube(n, anticlockwise_source(n, face, lo, hi, cell)),
    decreases hi + 1 - lo,
{
    if lo <= hi {
        lemma_anticlockwise_source_in_cube(n, face, lo + 1, hi, cell);
        let x = anticlockwise_source(n, face, lo + 1, hi, cell);
        lemma_layer_source(n, face, lo, x);
        lemma_layer_source(n, face, lo, layer_source(n, face, lo, x));
        lemma_layer_source(n, face, lo, layer_source(n, face, lo, layer_source(n, face, lo, x)));
    }
}

/// Rotating each layer from `lo` to `hi` anticlockwise in turn, where the cube has all of them,
/// succeeds and moves the cubies as `anticlockwise_source` says.
proof fn lemma_anticlockwise_sequence_state(s: CubeState, r: Rotation, lo: int, hi: int)
    requires
        s.wf(),
        r.direction == Direction::Anticlockwise,
        0 <= lo,
        hi < s.n,
        hi < usize::MAX,
    ensures
        sequence_outcome(s, layer_by_layer(r, lo, hi)).1 == Ok::<(), LayerError>(()),
        moved_from(
            s,
            sequence_outcome(s, layer_by_layer(r, lo, hi)).0,
            |cell: (Face, int, int)| anticlockwise_source(s.n as int, r.relative_to, lo, hi, cell),
        ),
    decreases hi + 1 - lo,
{
    let n = s.n as int;
    let face = r.relative_to;
    let q = layer_by_layer(r, lo, hi);
    if lo <= hi {
        assert(q[0] == setback_of(r, lo as usize));
        assert(q.drop_first() =~= layer_by_layer(r, lo + 1, hi));
        lemma_anticlockwise_setback_state(s, r, lo);
        let o = rotate_outcome(s, setback_of(r, lo as usize));
        lemma_anticlockwise_sequence_state(o.0, r, lo + 1, hi);
        let t = sequence_outcome(s, q).0;
        assert(t == sequence_outcome(o.0, layer_by_layer(r, lo + 1, hi)).0);
        assert forall|cell: (Face, int, int)| in_cube(n, cell) implies #[trigger] t.get(cell.0, cell.1, cell.2)
            == s.get(
            anticlockwise_source(n, face, lo, hi, cell).0,
            anticlockwise_source(n, face, lo, hi, cell).1,
            anticlockwise_source(n, face, lo, hi, cell).2,
        ) by {
            let inner = anticlockwise_source(n, face, lo + 1, hi, cell);
            lemma_anticlockwise_source_in_cube(n, face, lo + 1, hi, cell);
            assert(o.0.get(inner.0, inner.1, inner.2) == s.get(
                layer_thrice(n, face, lo, inner).0,
                layer_thrice(n, face, lo, inner).1,
                layer_thrice(n, face, lo, inner).2,
            ));
        }
    } else {
        assert(q =~= Seq::<Rotation>::empty());
    }
}

/// The layers `lo` to `hi` rotated together three times take each cubie from where rotating
/// each of those layers three times in turn does: the layers commute.
proof fn lemma_range_thrice(n: int, face: Face, lo: int, hi: int, cell: (Face, int, int))
    requires
        0 <= lo,
        hi < n,
        in_cube(n, cell),
    ensures
        range_source(n, face, lo, hi, range_source(n, face, lo, hi, range_source(n, face, lo, hi, cell)))
            == anticlockwise_source(n, face, lo, hi, cell),
    decreases hi + 1 - lo,
{
    if lo <= hi {
        let a = range_source(n, face, lo + 1, hi, cell);
        lemma_range_source_in_cube(n, face, lo + 1, hi, cell);
        lemma_range_commute(n, face, lo, lo + 1, hi, a);
        let b = range_source(n, face, lo + 1, hi, a);
        lemma_range_source_in_cube(n, face, lo + 1, hi, a);
        lemma_layer_source(n, face, lo, a);
        lemma_layer_source(n, face, lo, b);
        let lb = layer_source(n, face, lo, b);
        lemma_range_commute(n, face, lo, lo + 1, hi, b);
        lemma_range_commute(n, face, lo, lo + 1, hi, lb);
        lemma_range_thrice(n, face, lo + 1, hi, cell);
        let r1 = range_source(n, face, lo, hi, cell);
        assert(r1 == layer_source(n, face, lo, a));
        let r2 = range_source(n, face, lo, hi, r1);
        assert(r2 == layer_source(n, face, lo, lb));
        let r3 = range_source(n, face, lo, hi, r2);
        assert(r3 == layer_source(n, face, lo, range_source(n, face, lo + 1, hi, r2)));
    }
}

/// An anticlockwise rotation of several layers that the cube has succeeds and moves the cubies
/// as the clockwise one taken three times does.
proof fn lemma_anticlockwise_multi_state(s: CubeState, r: Rotation)
    requires
        s.wf(),
        r.well_formed(),
        r.direction == Direction::Anticlockwise,
        r.kind is Multilayer || r.kind is MultiSetback,
        r.fits(s.n as int),
    ensures
        rotate_outcome(s, r).1 == Ok::<(), LayerError>(()),
        moved_from(
            s,
            rotate_outcome(s, r).0,
            |cell: (Face, int, int)| range_source(
                s.n as int,
                r.relative_to,
                layers_spanned(r.kind).0,
                layers_spanned(r.kind).1,
                range_source(
                    s.n as int,
                    r.relative_to,
                    layers_spanned(r.kind).0,
                    layers_spanned(r.kind).1,
                    range_source(s.n as int, r.relative_to, layers_spanned(r.kind).0, layers_spanned(r.kind).1, cell),
                ),
            ),
        ),
{
    let n = s.n as int;
    let face = r.relative_to;
    let (lo, hi) = layers_spanned(r.kind);
    let rc = r.inverted();
    assert(rc.inverted() == r);
    lemma_inverse_is_thrice(s, rc);
    lemma_normalise_idempotent(rc, n);
    let mc = rc.spec_normalise(n);
    let src = |cell: (Face, int, int)| clockwise_source(n, mc, cell);
    lemma_clockwise_state(s, mc);
    let t1 = rotate_outcome(s, rc).0;
    lemma_clockwise_state(t1, mc);
    let t2 = rotate_outcome(t1, rc).0;
    lemma_clockwise_state(t2, mc);
    let t3 = rotate_outcome(t2, rc).0;
    assert(seq![rc, rc, rc].drop_first() =~= seq![rc, rc]);
    assert(seq![rc, rc].drop_first() =~= seq![rc]);
    assert(seq![rc].drop_first() =~= Seq::<Rotation>::empty());
    assert(sequence_outcome(s, seq![rc, rc, rc]) == (t3, Ok::<(), LayerError>(()))) by {
        reveal_with_fuel(sequence_outcome, 4);
    }
    assert forall|cell: (Face, int, int)| in_cube(n, cell) implies #[trigger] src(cell) == range_source(n, face, lo, hi, cell)
        && in_cube(n, src(cell)) by {
        lemma_range_source_in_cube(n, face, lo, hi, cell);
    }
    lemma_moved_thrice(s, t1, t2, t3, src);
    assert forall|cell: (Face, int, int)| in_cube(n, cell) implies #[trigger] t3.get(cell.0, cell.1, cell.2)
        == s.get(
        range_source(n, face, lo, hi, range_source(n, face, lo, hi, range_source(n, face, lo, hi, cell))).0,
        range_source(n, face, lo, hi, range_source(n, face, lo, hi, range_source(n, face, lo, hi, cell))).1,
        range_source(n, face, lo, hi, range_source(n, face, lo, hi, range_source(n, face, lo, hi, cell))).2,
    ) by {
        let p1 = src(cell);
        let p2 = src(p1);
        assert(in_cube(n, p1));
        assert(p1 == range_source(n, face, lo, hi, cell));
        assert(p2 == range_source(n, face, lo, hi, p1));
        assert(src(p2) == range_source(n, face, lo, hi, p2));
    }
}

/// An anticlockwise rotation of several layers that the cube has does what the anticlockwise
/// rotations of each of its layers do, one after another from the nearest layer to the
/// furthest: `3Fw'` is `F'`, `2F'`, `3F'` in turn.
pub proof fn lemma_anticlockwise_layers_one_by_one(s: CubeState, r: Rotation)
    requires
        s.wf(),
        r.well_formed(),
        r.direction == Direction::Anticlockwise,
        r.kind is Multilayer || r.kind is MultiSetback,
        r.fits(s.n as int),
    ensures
        rotate_outcome(s, r) == sequence_outcome(
            s,
            layer_by_layer(r, layers_spanned(r.kind).0, layers_spanned(r.kind).1),
        ),
{
    let n = s.n as int;
    let face = r.relative_to;
    let (lo, hi) = layers_spanned(r.kind);
    lemma_anticlockwise_multi_state(s, r);
    lemma_anticlockwise_sequence_state(s, r, lo, hi);
    let a = rotate_outcome(s, r).0;
    let b = sequence_outcome(s, layer_by_layer(r, lo, hi)).0;
    assert forall|g: Face, row: int, col: int| 0 <= row < n && 0 <= col < n implies #[trigger] a.get(g, row, col)
        == b.get(g, row, col) by {
        let cell = (g, row, col);
        lemma_range_thrice(n, face, lo, hi, cell);
        assert(a.get(cell.0, cell.1, cell.2) == s.get(
            anticlockwise_source(n, face, lo, hi, cell).0,
            anticlockwise_source(n, face, lo, hi, cell).1,
            anticlockwise_source(n, face, lo, hi, cell).2,
        ));
    }
    lemma_state_ext(a, b);
}

} // verus!
