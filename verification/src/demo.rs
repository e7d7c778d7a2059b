use vstd::prelude::*;
use vstd::string::StringExecFns;

use crate::cube::cubie_face::CubieFace;
use crate::cube::face::Face;
use crate::cube::flat_side::LayerError;
use crate::cube::layout::net_row;
use crate::cube::direction::Direction;
use crate::cube::rotation::{Rotation, RotationKind};
use crate::cube::side_lengths::{
    lemma_side_length_try_from, lemma_unique_chars_side_length_try_from, SideLength,
    UniqueCharsSideLength,
};
use crate::cube::{
    all_fit, all_well_formed, lemma_rotate_outcome, rotate_outcome,
    rotations_applied, sequence_outcome, solved_state, unique_chars_state, Cube, CubeState,
    PuzzleCube,
};
use crate::known_transforms::KnownTransform;

verus! {

/// The net of a cube, row by row: a blank cell where no cubie is shown.
pub type Net = Vec<Vec<Option<CubieFace>>>;

/// A demo to show in a terminal: its title, and the cube's net each time it is shown.
pub struct Demo {
    /// What the demo shows.
    pub title: String,
    /// The frames are the cube before and after its moves, rather than after each move.
    pub before_and_after: bool,
    /// The cube's net each time it is shown, in order.
    pub frames: Vec<Net>,
}

/// `net` is the net of the cube `s`.
pub open spec fn shows(net: Net, s: CubeState) -> bool {
    &&& net.len() == 3 * s.n
    &&& forall|r: int| 0 <= r < net.len() ==> #[trigger] net[r]@ == net_row(s, r)
}

/// The demo has `title`, and shows `s` and then the cube after each of `rotations`, or after
/// all of them when it shows the cube before and after.
pub open spec fn shows_steps(d: Demo, title: Seq<char>, s: CubeState, rotations: Seq<Rotation>, before_and_after: bool) -> bool {
    &&& d.title@ == title
    &&& d.before_and_after == before_and_after
    &&& if before_and_after {
        &&& d.frames.len() == 2
        &&& shows(d.frames[0], s)
        &&& shows(d.frames[1], sequence_outcome(s, rotations).0)
    } else {
        &&& d.frames.len() == rotations.len() + 1
        &&& forall|i: int|
            0 <= i < d.frames.len() ==> shows(#[trigger] d.frames[i], sequence_outcome(s, rotations.take(i)).0)
    }
}

/// Rotating by one more rotation after a sequence that succeeded.
proof fn lemma_sequence_push(s: CubeState, rotations: Seq<Rotation>, r: Rotation)
    requires
        sequence_outcome(s, rotations).1 is Ok,
    ensures
        sequence_outcome(s, rotations.push(r)) == rotate_outcome(sequence_outcome(s, rotations).0, r),
    decreases rotations.len(),
{
    if rotations.len() == 0 {
        let o = rotate_outcome(s, r);
        assert(seq![r].drop_first() =~= Seq::<Rotation>::empty());
        assert(rotations.push(r) =~= seq![r]);
        assert(sequence_outcome(s, rotations) == (s, Ok::<(), LayerError>(())));
        if o.1 is Ok {
            let u: () = o.1->Ok_0;
            assert(u == ());
            assert(o.1 == Ok::<(), LayerError>(()));
            assert(sequence_outcome(o.0, Seq::<Rotation>::empty()) == (o.0, Ok::<(), LayerError>(())));
            assert(sequence_outcome(s, seq![r]) == sequence_outcome(o.0, Seq::<Rotation>::empty()));
        } else {
            assert(sequence_outcome(s, seq![r]) == o);
        }
    } else {
        let o = rotate_outcome(s, rotations[0]);
        assert(rotations.push(r)[0] == rotations[0]);
        assert(rotations.push(r).drop_first() =~= rotations.drop_first().push(r));
        lemma_sequence_push(o.0, rotations.drop_first(), r);
    }
}

/// Shows `cube`, performs each of `rotations`, and shows the cube after each, or only after the
/// last when `before_and_after`.
fn steps_demo(title: String, cube: Cube, rotations: Vec<Rotation>, before_and_after: bool) -> (res: Result<Demo, LayerError>)
    requires
        cube.valid(),
        all_well_formed(rotations@),
        all_fit(rotations@, cube.state().n as int),
    ensures
        res matches Ok(d) && shows_steps(d, title@, cube.state(), rotations@, before_and_after),
{
    let ghost s0 = cube.state();
    proof {
        cube.lemma_valid_state();
    }
    let mut cube = cube;
    let mut frames: Vec<Net> = Vec::new();
    frames.push(cube.net_layout());
    proof {
        assert(rotations@.take(0) =~= Seq::<Rotation>::empty());
    }
    let mut i: usize = 0;
    while i < rotations.len()
        invariant
            cube.valid(),
            s0.wf(),
            cube.state().n == s0.n,
            i <= rotations.len(),
            all_well_formed(rotations@),
            all_fit(rotations@, s0.n as int),
            sequence_outcome(s0, rotations@.take(i as int)).1 is Ok,
            cube.state() == sequence_outcome(s0, rotations@.take(i as int)).0,
            before_and_after ==> frames.len() == 1 && shows(frames[0], s0),
            !before_and_after ==> frames.len() == i + 1 && forall|k: int|
                0 <= k < frames.len() ==> shows(#[trigger] frames[k], sequence_outcome(s0, rotations@.take(k)).0),
        decreases rotations.len() - i,
    {
        let ghost before = cube.state();
        proof {
            cube.lemma_valid_state();
            lemma_sequence_push(s0, rotations@.take(i as int), rotations@[i as int]);
            assert(rotations@.take(i + 1) =~= rotations@.take(i as int).push(rotations@[i as int]));
            lemma_rotate_outcome(before, rotations@[i as int]);
            assert(rotations@[i as int].fits(s0.n as int));
        }
        let _ = cube.rotate(rotations[i]);
        if !before_and_after {
            frames.push(cube.net_layout());
        }
        i = i + 1;
    }
    proof {
        assert(rotations@.take(i as int) =~= rotations@);
    }
    if before_and_after {
        frames.push(cube.net_layout());
    }
    Ok(Demo { title, before_and_after, frames })
}

/// A quarter turn of `face`, clockwise or not.
pub open spec fn face_turn(clockwise: bool, face: Face) -> Rotation {
    Rotation {
        relative_to: face,
        direction: if clockwise {
            Direction::Clockwise
        } else {
            Direction::Anticlockwise
        },
        kind: RotationKind::FaceOnly,
    }
}

/// A quarter turn of the single layer `layer` behind `face`, clockwise or not.
pub open spec fn setback_turn(clockwise: bool, face: Face, layer: usize) -> Rotation {
    Rotation {
        relative_to: face,
        direction: if clockwise {
            Direction::Clockwise
        } else {
            Direction::Anticlockwise
        },
        kind: RotationKind::Setback { layer },
    }
}

/// Turns of the front, right and back faces, then their inverses in reverse order.
pub open spec fn simple_turns() -> Seq<Rotation> {
    seq![
        face_turn(true, Face::Front),
        face_turn(true, Face::Right),
        face_turn(true, Face::Back),
        face_turn(false, Face::Back),
        face_turn(false, Face::Right),
        face_turn(false, Face::Front),
    ]
}

/// The layers just behind the front face and the up face.
pub open spec fn inner_rotation() -> Seq<Rotation> {
    seq![setback_turn(true, Face::Front, 1), setback_turn(true, Face::Up, 1)]
}

/// Each of the layers just behind the front, right and up faces, twice.
pub open spec fn inner_rotation_checkerboard() -> Seq<Rotation> {
    let f = setback_turn(true, Face::Front, 1);
    let r = setback_turn(true, Face::Right, 1);
    let u = setback_turn(true, Face::Up, 1);
    seq![f, f, r, r, u, u]
}

/// Turns of inner layers of a 5x5x5 cube.
pub open spec fn inner_rotation_medium() -> Seq<Rotation> {
    seq![
        setback_turn(true, Face::Front, 1),
        setback_turn(false, Face::Front, 3),
        setback_turn(false, Face::Right, 2),
    ]
}

/// The face of the `i`th group of turns of the large cube demo.
pub open spec fn large_cube_face(group: int) -> Face {
    if group == 0 {
        Face::Front
    } else if group == 1 {
        Face::Right
    } else if group == 2 {
        Face::Up
    } else {
        Face::Front
    }
}

/// Every other layer of a 9x9x9 cube behind the front, right, up and front faces again.
pub open spec fn inner_rotation_large() -> Seq<Rotation> {
    Seq::new(
        20,
        |i: int| setback_turn(true, large_cube_face(i / 5), (2 * (i % 5)) as usize),
    )
}

/// Builds a sequence of rotations from up to six given ones.
fn rotations_of(rs: &[Rotation]) -> (v: Vec<Rotation>)
    ensures
        v@ == rs@,
{
    vstd::slice::slice_to_vec(rs)
}

/// Demo of simple turns and their inverse.
pub fn demo_simple_turns() -> (res: Result<Demo, LayerError>)
    ensures
        res matches Ok(d) && shows_steps(d, "Demo of simple turns and their inverse"@, solved_state(3), simple_turns(), false),
{
    let cube = Cube::default();
    let rotations = rotations_of(&[
        Rotation::clockwise(Face::Front),
        Rotation::clockwise(Face::Right),
        Rotation::clockwise(Face::Back),
        Rotation::anticlockwise(Face::Back),
        Rotation::anticlockwise(Face::Right),
        Rotation::anticlockwise(Face::Front),
    ]);
    assert(rotations@ =~= simple_turns());
    steps_demo(String::from_str("Demo of simple turns and their inverse"), cube, rotations, false)
}

/// Demo of simple turns and their inverse on a big cube of unique characters.
pub fn demo_simple_turns_big_cube() -> (res: Result<Demo, LayerError>)
    ensures
        res matches Ok(d) && shows_steps(d, "Demo of simple turns and their inverse on a big cube"@, unique_chars_state(8), simple_turns(), false),
{
    proof {
        lemma_unique_chars_side_length_try_from(8);
    }
    let cube = Cube::create_with_unique_characters(UniqueCharsSideLength::try_from(8usize).unwrap());
    let rotations = rotations_of(&[
        Rotation::clockwise(Face::Front),
        Rotation::clockwise(Face::Right),
        Rotation::clockwise(Face::Back),
        Rotation::anticlockwise(Face::Back),
        Rotation::anticlockwise(Face::Right),
        Rotation::anticlockwise(Face::Front),
    ]);
    assert(rotations@ =~= simple_turns());
    steps_demo(String::from_str("Demo of simple turns and their inverse on a big cube"), cube, rotations, false)
}

/// Demo of the checkerboard pattern.
pub fn demo_checkerboard() -> (res: Result<Demo, LayerError>)
    ensures
        res matches Ok(d) && shows_steps(d, "Demo of checkerboard pattern"@, solved_state(3), KnownTransform::CheckerboardCorners3x3x3.spec_sequence(), true),
{
    proof {
        KnownTransform::CheckerboardCorners3x3x3.lemma_notation_parses();
    }
    let rotations = KnownTransform::CheckerboardCorners3x3x3.sequence();
    steps_demo(String::from_str("Demo of checkerboard pattern"), Cube::default(), rotations, true)
}

/// Demo of the cube in a cube in a cube pattern.
pub fn demo_cube_in_cube_in_cube() -> (res: Result<Demo, LayerError>)
    ensures
        res matches Ok(d) && shows_steps(d, "Demo of cube in cube in cube"@, solved_state(3), KnownTransform::NestedCube3x3x3.spec_sequence(), true),
{
    proof {
        KnownTransform::NestedCube3x3x3.lemma_notation_parses();
    }
    let rotations = KnownTransform::NestedCube3x3x3.sequence();
    steps_demo(String::from_str("Demo of cube in cube in cube"), Cube::default(), rotations, true)
}

/// Demo of rotating inner slices.
pub fn demo_inner_rotation() -> (res: Result<Demo, LayerError>)
    ensures
        res matches Ok(d) && shows_steps(d, "Demo of rotating inner slice"@, solved_state(3), inner_rotation(), true),
{
    let rotations = rotations_of(&[
        Rotation::clockwise_setback_from(Face::Front, 1),
        Rotation::clockwise_setback_from(Face::Up, 1),
    ]);
    assert(rotations@ =~= inner_rotation());
    steps_demo(String::from_str("Demo of rotating inner slice"), Cube::default(), rotations, true)
}

/// Demo of rotating inner slices to make a checkerboard.
pub fn demo_inner_rotation_recreate_checkerboard() -> (res: Result<Demo, LayerError>)
    ensures
        res matches Ok(d) && shows_steps(d, "Demo of rotating inner slice"@, solved_state(3), inner_rotation_checkerboard(), true),
{
    let axis1 = Rotation::clockwise_setback_from(Face::Front, 1);
    let axis2 = Rotation::clockwise_setback_from(Face::Right, 1);
    let axis3 = Rotation::clockwise_setback_from(Face::Up, 1);
    let rotations = rotations_of(&[axis1, axis1, axis2, axis2, axis3, axis3]);
    assert(rotations@ =~= inner_rotation_checkerboard());
    steps_demo(String::from_str("Demo of rotating inner slice"), Cube::default(), rotations, true)
}

/// Demo of rotating inner slices of a 5x5x5 cube of unique characters.
pub fn demo_simple_inner_rotation_medium_cube() -> (res: Result<Demo, LayerError>)
    ensures
        res matches Ok(d) && shows_steps(d, "Demo of rotating inner slice on large cube"@, unique_chars_state(5), inner_rotation_medium(), true),
{
    proof {
        lemma_unique_chars_side_length_try_from(5);
    }
    let cube = Cube::create_with_unique_characters(UniqueCharsSideLength::try_from(5usize).unwrap());
    let rotations = rotations_of(&[
        Rotation::clockwise_setback_from(Face::Front, 1),
        Rotation::anticlockwise_setback_from(Face::Front, 3),
        Rotation::anticlockwise_setback_from(Face::Right, 2),
    ]);
    assert(rotations@ =~= inner_rotation_medium());
    steps_demo(String::from_str("Demo of rotating inner slice on large cube"), cube, rotations, true)
}

/// Demo of rotating every other layer of a 9x9x9 cube.
pub fn demo_inner_rotation_large_cube() -> (res: Result<Demo, LayerError>)
    ensures
        res matches Ok(d) && shows_steps(d, "Demo of rotating inner slice on large cube"@, solved_state(9), inner_rotation_large(), true),
{
    proof {
        lemma_side_length_try_from(9);
    }
    let side_length: usize = 9;
    let cube = Cube::create(SideLength::try_from(side_length).unwrap());
    let faces = [Face::Front, Face::Right, Face::Up, Face::Front];
    let mut rotations: Vec<Rotation> = Vec::new();
    let mut group: usize = 0;
    while group < 4
        invariant
            group <= 4,
            side_length == 9,
            faces@ == seq![Face::Front, Face::Right, Face::Up, Face::Front],
            rotations@ == inner_rotation_large().take(5 * group as int),
        decreases 4 - group,
    {
        let mut layer: usize = 0;
        while layer < side_length
            invariant
                group < 4,
                side_length == 9,
                layer % 2 == 0,
                layer <= side_length + 1,
                faces@ == seq![Face::Front, Face::Right, Face::Up, Face::Front],
                rotations@ == inner_rotation_large().take(5 * group + layer / 2),
            decreases side_length + 1 - layer,
        {
            let r = Rotation::clockwise_setback_from(faces[group], layer);
            proof {
                let i = 5 * group + layer / 2;
                assert(i / 5 == group && i % 5 == layer / 2);
                assert(faces@[group as int] == large_cube_face(group as int));
                assert(inner_rotation_large().take(i + 1) =~= inner_rotation_large().take(i).push(r));
            }
            rotations.push(r);
            layer = layer + 2;
        }
        group = group + 1;
    }
    proof {
        assert(inner_rotation_large().take(20) =~= inner_rotation_large());
    }
    steps_demo(String::from_str("Demo of rotating inner slice on large cube"), cube, rotations, true)
}

/// Demo of shuffling a 9x9x9 cube with 100 random moves.
pub fn demo_shuffle() -> (res: Result<Demo, LayerError>)
    ensures
        res matches Ok(d) && {
            &&& d.title@ == "Demo of 100-move shuffling a 9x9x9 cube"@
            &&& d.before_and_after
            &&& d.frames.len() == 2
            &&& shows(d.frames[0], solved_state(9))
            &&& exists|rotations: Seq<Rotation>|
                {
                    &&& rotations.len() == 100
                    &&& all_fit(rotations, 9)
                    &&& shows(d.frames[1], #[trigger] rotations_applied(solved_state(9), rotations))
                }
        },
{
    proof {
        lemma_side_length_try_from(9);
    }
    let mut cube = Cube::create(SideLength::try_from(9usize).unwrap());
    let mut frames: Vec<Net> = Vec::new();
    frames.push(cube.net_layout());
    cube.shuffle(100);
    frames.push(cube.net_layout());
    Ok(Demo { title: String::from_str("Demo of 100-move shuffling a 9x9x9 cube"), before_and_after: true, frames })
}

/// Every terminal demo, in the order they are shown.
pub fn terminal_demos() -> (res: Result<Vec<Demo>, LayerError>)
    ensures
        res matches Ok(ds) && {
            &&& ds.len() == 9
            &&& shows_steps(ds[0], "Demo of simple turns and their inverse"@, solved_state(3), simple_turns(), false)
            &&& shows_steps(ds[1], "Demo of simple turns and their inverse on a big cube"@, unique_chars_state(8), simple_turns(), false)
            &&& shows_steps(ds[2], "Demo of checkerboard pattern"@, solved_state(3), KnownTransform::CheckerboardCorners3x3x3.spec_sequence(), true)
            &&& shows_steps(ds[3], "Demo of cube in cube in cube"@, solved_state(3), KnownTransform::NestedCube3x3x3.spec_sequence(), true)
            &&& shows_steps(ds[4], "Demo of rotating inner slice"@, solved_state(3), inner_rotation(), true)
            &&& shows_steps(ds[5], "Demo of rotating inner slice"@, solved_state(3), inner_rotation_checkerboard(), true)
            &&& shows_steps(ds[6], "Demo of rotating inner slice on large cube"@, unique_chars_state(5), inner_rotation_medium(), true)
            &&& shows_steps(ds[7], "Demo of rotating inner slice on large cube"@, solved_state(9), inner_rotation_large(), true)
            &&& ds[8].title@ == "Demo of 100-move shuffling a 9x9x9 cube"@
            &&& ds[8].frames.len() == 2
        },
{
    let mut demos: Vec<Demo> = Vec::new();
    demos.push(demo_simple_turns()?);
    demos.push(demo_simple_turns_big_cube()?);
    demos.push(demo_checkerboard()?);
    demos.push(demo_cube_in_cube_in_cube()?);
    demos.push(demo_inner_rotation()?);
    demos.push(demo_inner_rotation_recreate_checkerboard()?);
    demos.push(demo_simple_inner_rotation_medium_cube()?);
    demos.push(demo_inner_rotation_large_cube()?);
    demos.push(demo_shuffle()?);
    Ok(demos)
}

} // verus!
