use std::collections::HashSet;

use rusty_puzzle_cube::cube::cubie_face::CubieFace;
use rusty_puzzle_cube::cube::direction::Direction;
use rusty_puzzle_cube::cube::face::Face;
use rusty_puzzle_cube::cube::rotation::{rotation_from_draws, Rotation, RotationKind};
use rusty_puzzle_cube::cube::{Cube, PuzzleCube};
use rusty_puzzle_cube::notation::parse_sequence;

const CUBE_SIZE: usize = 8;

fn faces() -> [Face; 6] {
    [Face::Up, Face::Down, Face::Front, Face::Right, Face::Back, Face::Left]
}

/// A spread of rotations of every kind that fit a cube of side length `CUBE_SIZE`.
fn sample_rotations() -> Vec<Rotation> {
    let mut rotations = Vec::new();
    for (i, face) in faces().into_iter().enumerate() {
        let direction = if i % 2 == 0 { Direction::Clockwise } else { Direction::Anticlockwise };
        let layer = 1 + i % (CUBE_SIZE - 1);
        for kind in [
            RotationKind::FaceOnly,
            RotationKind::Multilayer { layer },
            RotationKind::Setback { layer },
            RotationKind::Setback { layer: CUBE_SIZE - 1 },
            RotationKind::MultiSetback { start_layer: 0, end_layer: layer },
            RotationKind::MultiSetback { start_layer: layer, end_layer: CUBE_SIZE - 1 },
        ] {
            rotations.push(Rotation { relative_to: face, direction, kind });
        }
    }
    rotations
}

fn new_cube() -> Cube {
    Cube::create(CUBE_SIZE.try_into().unwrap())
}

fn new_unique_cube() -> Cube {
    Cube::create_with_unique_characters(CUBE_SIZE.try_into().unwrap())
}

#[test]
fn single_rotation_always_changes_cube() {
    for rotation in sample_rotations() {
        let mut cube = new_cube();
        cube.rotate(rotation).unwrap();
        assert_ne!(new_cube(), cube, "{rotation:?}");
    }
}

#[test]
fn single_rotation_changes_two_cubes_identically() {
    for rotation in sample_rotations() {
        let mut cube_a = new_cube();
        let mut cube_b = new_cube();
        cube_a.rotate(rotation).unwrap();
        cube_b.rotate(rotation).unwrap();
        assert_eq!(cube_a, cube_b);
    }
}

#[test]
fn rotations_then_undone_same_as_no_rotations() {
    let rotations = sample_rotations();
    let inverse_rotations: Vec<_> = rotations.iter().map(|&r| !r).rev().collect();
    let mut cube = new_cube();
    cube.rotate_seq(rotations).unwrap();
    assert_ne!(new_cube(), cube);
    cube.rotate_seq(inverse_rotations).unwrap();
    assert_eq!(new_cube(), cube);
}

#[test]
fn cubies_are_never_created_or_destroyed_only_moved() {
    let mut cube = new_unique_cube();
    cube.rotate_seq(sample_rotations()).unwrap();
    let mut seen: HashSet<(u8, char)> = HashSet::new();
    for face in faces() {
        for cubie in cube.side(face).iter_flat() {
            let colour = match cubie {
                CubieFace::Blue(_) => 0,
                CubieFace::Green(_) => 1,
                CubieFace::Orange(_) => 2,
                CubieFace::Red(_) => 3,
                CubieFace::White(_) => 4,
                CubieFace::Yellow(_) => 5,
            };
            assert!(seen.insert((colour, cubie.display_char())));
        }
    }
    assert_eq!(6 * CUBE_SIZE * CUBE_SIZE, seen.len());
}

#[test]
fn rotations_to_string_then_parsed_are_the_same() {
    for rotation in sample_rotations() {
        let parsed_back = parse_sequence(&rotation.notation()).unwrap();
        assert_eq!(vec![rotation], parsed_back);
    }
}

#[test]
fn four_quarter_turns_restore_the_cube() {
    for rotation in sample_rotations() {
        let mut cube = new_unique_cube();
        for _ in 0..4 {
            cube.rotate(rotation).unwrap();
        }
        assert_eq!(new_unique_cube(), cube);
    }
}

#[test]
fn turns_of_different_layers_commute() {
    let a = Rotation::clockwise_setback_from(Face::Front, 2);
    let b = Rotation::anticlockwise_multisetback_from(Face::Front, 4, 6);
    let mut ab = new_unique_cube();
    ab.rotate(a).unwrap();
    ab.rotate(b).unwrap();
    let mut ba = new_unique_cube();
    ba.rotate(b).unwrap();
    ba.rotate(a).unwrap();
    assert_eq!(ab, ba);
}

#[test]
fn single_rotation_leaves_faces_it_does_not_reach() {
    let mut cube = new_unique_cube();
    cube.rotate(Rotation::clockwise_setback_from(Face::Up, 3)).unwrap();
    assert_eq!(new_unique_cube().side(Face::Up), cube.side(Face::Up));
    assert_eq!(new_unique_cube().side(Face::Down), cube.side(Face::Down));
    assert_ne!(new_unique_cube().side(Face::Front), cube.side(Face::Front));
}

#[test]
fn rotations_are_built_from_their_draws() {
    assert_eq!(Rotation::anticlockwise(Face::Back), rotation_from_draws(4, 0, false, true, true, 3));
    assert_eq!(
        Rotation::clockwise_multisetback_from(Face::Up, 2, 5),
        rotation_from_draws(0, 5, true, true, true, 2)
    );
    assert_eq!(
        Rotation::clockwise_multilayer_from(Face::Right, 3),
        rotation_from_draws(3, 3, true, true, false, 0)
    );
    assert_eq!(
        Rotation::anticlockwise_setback_from(Face::Left, 1),
        rotation_from_draws(9, 1, false, false, true, 0)
    );
}

/// The rotations of each single layer from `lo` to `hi` behind the face of `r`, in order.
fn layer_by_layer(r: Rotation, lo: usize, hi: usize) -> Vec<Rotation> {
    (lo..=hi)
        .map(|layer| Rotation { kind: RotationKind::Setback { layer }, ..r })
        .collect()
}

#[test]
fn multilayer_turns_are_their_layers_one_by_one() {
    for face in faces() {
        for direction in [Direction::Clockwise, Direction::Anticlockwise] {
            for (kind, lo, hi) in [
                (RotationKind::Multilayer { layer: 2 }, 0, 2),
                (RotationKind::Multilayer { layer: CUBE_SIZE - 1 }, 0, CUBE_SIZE - 1),
                (RotationKind::MultiSetback { start_layer: 2, end_layer: 5 }, 2, 5),
                (RotationKind::MultiSetback { start_layer: CUBE_SIZE - 1, end_layer: 3 }, 3, CUBE_SIZE - 1),
            ] {
                let rotation = Rotation { relative_to: face, direction, kind };
                let mut whole = new_unique_cube();
                whole.rotate(rotation).unwrap();
                let mut one_by_one = new_unique_cube();
                one_by_one.rotate_seq(layer_by_layer(rotation, lo, hi)).unwrap();
                assert_eq!(whole, one_by_one);
            }
        }
    }
}

#[test]
fn clockwise_multilayer_turn_stops_where_its_layers_stop() {
    let rotation = Rotation::clockwise_multilayer_from(Face::Left, 3);
    let mut whole = Cube::create(3.try_into().unwrap());
    let whole_result = whole.rotate(rotation);
    let mut one_by_one = Cube::create(3.try_into().unwrap());
    let one_by_one_result = one_by_one.rotate_seq(layer_by_layer(rotation, 0, 3));
    assert!(whole_result.is_err());
    assert_eq!(whole_result, one_by_one_result);
    assert_eq!(whole, one_by_one);
}

#[test]
fn anticlockwise_multilayer_turn_that_does_not_fit_differs_from_its_layers() {
    // The whole turn is made as three clockwise ones and stops during the first; its layers one
    // by one are each turned anticlockwise before the missing one stops them.
    let rotation = Rotation::anticlockwise_multilayer_from(Face::Left, 3);
    let mut whole = Cube::create(3.try_into().unwrap());
    assert!(whole.rotate(rotation).is_err());
    let mut one_by_one = Cube::create(3.try_into().unwrap());
    assert!(one_by_one.rotate_seq(layer_by_layer(rotation, 0, 3)).is_err());
    assert_ne!(whole, one_by_one);
}

#[test]
fn setback_zero_turns_the_face() {
    for face in faces() {
        let mut setback = new_unique_cube();
        setback.rotate(Rotation::anticlockwise_setback_from(face, 0)).unwrap();
        let mut face_only = new_unique_cube();
        face_only.rotate(Rotation::anticlockwise(face)).unwrap();
        assert_eq!(setback, face_only);
    }
}
