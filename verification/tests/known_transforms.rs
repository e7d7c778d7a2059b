use rusty_puzzle_cube::cube::cubie_face::CubieFace;
use rusty_puzzle_cube::cube::face::Face;
use rusty_puzzle_cube::cube::rotation::Rotation;
use rusty_puzzle_cube::cube::{Cube, PuzzleCube};
use rusty_puzzle_cube::known_transforms::{checkerboard_corners, cube_in_cube_in_cube, KnownTransform};
use rusty_puzzle_cube::notation::{parse_sequence, perform_notation};

/// The cubie of the named colour, without a custom character.
fn colour(name: &str) -> CubieFace {
    match name {
        "White" => CubieFace::White(None),
        "Yellow" => CubieFace::Yellow(None),
        "Blue" => CubieFace::Blue(None),
        "Green" => CubieFace::Green(None),
        "Orange" => CubieFace::Orange(None),
        "Red" => CubieFace::Red(None),
        _ => panic!("unknown colour {name}"),
    }
}

/// A side given as rows of colour names, flattened into row-major order.
fn side(rows: &[&str]) -> Vec<CubieFace> {
    rows.iter()
        .flat_map(|row| row.split_whitespace().map(colour))
        .collect()
}

#[test]
fn test_checkerboard_corners_3x3x3() {
    assert_eq!(None, KnownTransform::CheckerboardCorners3x3x3.minimum_side_length());

    let mut cube = Cube::create(3.try_into().expect("known good value"));

    KnownTransform::CheckerboardCorners3x3x3.perform_instantly(&mut cube);

    let expected_cube = Cube::create_from_sides(
            side(&["White Yellow White", "Yellow White Yellow", "White Yellow White"]),
            side(&["Yellow White Yellow", "White Yellow White", "Yellow White Yellow"]),
            side(&["Blue Green Blue", "Green Blue Green", "Blue Green Blue"]),
            side(&["Orange Red Orange", "Red Orange Red", "Orange Red Orange"]),
            side(&["Green Blue Green", "Blue Green Blue", "Green Blue Green"]),
            side(&["Red Orange Red", "Orange Red Orange", "Red Orange Red"]),
        );

    assert_eq!(expected_cube, cube);
}

#[test]
fn test_nested_cube_3x3x3() {
    assert_eq!(None, KnownTransform::NestedCube3x3x3.minimum_side_length());

    let mut cube = Cube::create(3.try_into().expect("known good value"));

    KnownTransform::NestedCube3x3x3.perform_instantly(&mut cube);

    let expected_cube = Cube::create_from_sides(
            side(&["Blue Blue Blue", "Blue White White", "Blue White Orange"]),
            side(&["Green Green Green", "Yellow Yellow Green", "Red Yellow Green"]),
            side(&["Orange Blue White", "Orange Blue Blue", "Orange Orange Orange"]),
            side(&["Blue Orange White", "Orange Orange White", "White White White"]),
            side(&["Red Red Red", "Red Green Green", "Red Green Yellow"]),
            side(&["Yellow Yellow Yellow", "Red Red Yellow", "Green Red Yellow"]),
        );

    assert_eq!(expected_cube, cube);
}

#[test]
fn test_nested_cube_4x4x4() {
    assert_eq!(Some(4), KnownTransform::NestedCube4x4x4.minimum_side_length());

    let mut cube = Cube::create(4.try_into().expect("known good value"));

    KnownTransform::NestedCube4x4x4.perform_instantly(&mut cube);

    let expected_cube = Cube::create_from_sides(
            side(&["White White White White", "White Yellow Yellow Yellow", "White Yellow Blue Blue", "White Yellow Blue Green"]),
            side(&["Yellow Yellow Yellow Yellow", "White White White Yellow", "Green Green White Yellow", "Blue Green White Yellow"]),
            side(&["Blue Red Orange Yellow", "Blue Red Orange Orange", "Blue Red Red Red", "Blue Blue Blue Blue"]),
            side(&["Red White Green Orange", "White White Green Orange", "Green Green Green Orange", "Orange Orange Orange Orange"]),
            side(&["Green Green Green Green", "Green Orange Orange Orange", "Green Orange Red Red", "Green Orange Red White"]),
            side(&["Red Red Red Red", "Blue Blue Blue Red", "Yellow Yellow Blue Red", "Orange Yellow Blue Red"]),
        );

    assert_eq!(expected_cube, cube);
}

#[test]
fn known_transforms_are_listed_in_order() {
    assert_eq!(
        vec![
            KnownTransform::CheckerboardCorners3x3x3,
            KnownTransform::Crosses3x3x3,
            KnownTransform::NestedCube3x3x3,
            KnownTransform::NestedCube4x4x4,
        ],
        KnownTransform::all()
    );
}

#[test]
fn known_transform_texts() {
    assert_eq!("Checkerboard Corners", KnownTransform::CheckerboardCorners3x3x3.name());
    assert_eq!("Crosses", KnownTransform::Crosses3x3x3.name());
    assert_eq!("Nested Cubes (3)", KnownTransform::NestedCube3x3x3.name());
    assert_eq!("Nested Cubes (4)", KnownTransform::NestedCube4x4x4.name());
    assert_eq!(
        "Designed for 3x3x3 cubes, can run on any size cube",
        KnownTransform::Crosses3x3x3.description()
    );
    assert_eq!(
        "Designed for 4x4x4 cubes, can run on any cube 4x4x4 or larger, but will not have the desired effect on cubes larger than 4x4x4",
        KnownTransform::NestedCube4x4x4.description()
    );
    assert_eq!("R2 L2 F2 B2 U2 D2", KnownTransform::CheckerboardCorners3x3x3.notation());
    assert_eq!(
        "R2 L' D F2 R' D' R' L U' D R D B2 R' U D2",
        KnownTransform::Crosses3x3x3.notation()
    );
    assert_eq!(
        "F R' U' F' U L' B U' B2 U' F' R' B R2 F U L U",
        KnownTransform::NestedCube3x3x3.notation()
    );
    assert_eq!(
        "B' Lw2 L2 Rw2 R2 U2 Lw2 L2 Rw2 R2 B F2 R U' R U R2 U R2 F' U F' Uw Lw Uw' Fw2 Dw Rw' Uw Fw Dw2 Rw2",
        KnownTransform::NestedCube4x4x4.notation()
    );
}

#[test]
fn known_transform_sequences_parse_their_notation() {
    for transform in KnownTransform::all() {
        assert_eq!(parse_sequence(&transform.notation()).unwrap(), transform.sequence());
    }
    assert_eq!(
        vec![Rotation::clockwise(Face::Right), Rotation::clockwise(Face::Right)],
        KnownTransform::CheckerboardCorners3x3x3.sequence()[..2].to_vec()
    );
}

#[test]
fn perform_seq_matches_perform_instantly() {
    for transform in KnownTransform::all() {
        let mut instant = Cube::create(5.try_into().expect("known good value"));
        let mut by_seq = Cube::create(5.try_into().expect("known good value"));
        let mut by_notation = Cube::create(5.try_into().expect("known good value"));
        transform.perform_instantly(&mut instant);
        transform.perform_seq(&mut by_seq);
        perform_notation(&transform.notation(), &mut by_notation).unwrap();
        assert_eq!(instant, by_seq);
        assert_eq!(instant, by_notation);
    }
}

#[test]
fn nested_cube_4x4x4_runs_on_a_2x2x2() {
    let mut cube = Cube::create(2.try_into().expect("known good value"));
    KnownTransform::NestedCube4x4x4.perform_instantly(&mut cube);
    assert_eq!(2, cube.side_length());
}

#[test]
fn test_checkerboard_corners() {
    let mut cube = Cube::create(3.try_into().expect("known good value"));

    checkerboard_corners(&mut cube);

    let expected_cube = Cube::create_from_sides(
            side(&["White Yellow White", "Yellow White Yellow", "White Yellow White"]),
            side(&["Yellow White Yellow", "White Yellow White", "Yellow White Yellow"]),
            side(&["Blue Green Blue", "Green Blue Green", "Blue Green Blue"]),
            side(&["Orange Red Orange", "Red Orange Red", "Orange Red Orange"]),
            side(&["Green Blue Green", "Blue Green Blue", "Green Blue Green"]),
            side(&["Red Orange Red", "Orange Red Orange", "Red Orange Red"]),
        );

    assert_eq!(expected_cube, cube);
}

#[test]
fn test_cube_in_cube_in_cube() {
    let mut cube = Cube::create(3.try_into().expect("known good value"));

    cube_in_cube_in_cube(&mut cube);

    let expected_cube = Cube::create_from_sides(
            side(&["Blue Blue Blue", "Blue White White", "Blue White Orange"]),
            side(&["Green Green Green", "Yellow Yellow Green", "Red Yellow Green"]),
            side(&["Orange Blue White", "Orange Blue Blue", "Orange Orange Orange"]),
            side(&["Blue Orange White", "Orange Orange White", "White White White"]),
            side(&["Red Red Red", "Red Green Green", "Red Green Yellow"]),
            side(&["Yellow Yellow Yellow", "Red Red Yellow", "Green Red Yellow"]),
        );

    assert_eq!(expected_cube, cube);
}
