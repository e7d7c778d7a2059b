use rusty_puzzle_cube::cube::cubie_face::CubieFace;
use rusty_puzzle_cube::cube::face::Face;
use rusty_puzzle_cube::cube::flat_side::{FlatSide, LayerError};
use rusty_puzzle_cube::cube::rotation::Rotation;
use rusty_puzzle_cube::cube::side_lengths::SideLength;
use rusty_puzzle_cube::cube::{Cube, PuzzleCube};

/// A side given as rows of cubies, flattened into row-major order.
fn flat(rows: Vec<Vec<CubieFace>>) -> Vec<CubieFace> {
    rows.into_iter().flatten().collect()
}

/// A side of `side_length` by `side_length` cubies that are all `cubie`.
fn uniform(cubie: CubieFace, side_length: usize) -> Vec<CubieFace> {
    vec![cubie; side_length * side_length]
}

#[test]
fn test_recreate_at_size() {
    let mut shuffled_large_cube = Cube::create(SideLength::try_from(5).unwrap());
    shuffled_large_cube.shuffle(25);

    let original_cube = Cube::create(SideLength::try_from(3).unwrap());

    assert_eq!(
        original_cube,
        shuffled_large_cube.recreate_at_size(SideLength::try_from(3).unwrap())
    );
}

#[test]
fn cube_test_side_length_getter() {
    let cube = Cube::default();
    assert_eq!(3, cube.side_length());
}

#[test]
fn test_side_getter() {
    let cube = Cube::default();
    assert_eq!(&FlatSide::new(3, uniform(CubieFace::White(None), 3)), cube.side(Face::Up));
    assert_eq!(&FlatSide::new(3, uniform(CubieFace::Yellow(None), 3)), cube.side(Face::Down));
    assert_eq!(&FlatSide::new(3, uniform(CubieFace::Blue(None), 3)), cube.side(Face::Front));
    assert_eq!(&FlatSide::new(3, uniform(CubieFace::Orange(None), 3)), cube.side(Face::Right));
    assert_eq!(&FlatSide::new(3, uniform(CubieFace::Green(None), 3)), cube.side(Face::Back));
    assert_eq!(&FlatSide::new(3, uniform(CubieFace::Red(None), 3)), cube.side(Face::Left));
}

#[test]
fn cube_test_default_3x3_cube() {
    let cube = Cube::default();

    let expected_cube = Cube::create_from_sides(
        uniform(CubieFace::White(None), 3),
        uniform(CubieFace::Yellow(None), 3),
        uniform(CubieFace::Blue(None), 3),
        uniform(CubieFace::Orange(None), 3),
        uniform(CubieFace::Green(None), 3),
        uniform(CubieFace::Red(None), 3),
    );

    assert_eq!(expected_cube, cube);
}

#[test]
fn cube_test_unique_chars_3x3_cube() {
    let cube = Cube::create_with_unique_characters(3.try_into().expect("known good value"));

    let expected_cube = Cube::create_from_sides(
        flat(vec![
            vec![CubieFace::White(Some('0')), CubieFace::White(Some('1')), CubieFace::White(Some('2'))],
            vec![CubieFace::White(Some('3')), CubieFace::White(Some('4')), CubieFace::White(Some('5'))],
            vec![CubieFace::White(Some('6')), CubieFace::White(Some('7')), CubieFace::White(Some('8'))],
        ]),
        flat(vec![
            vec![CubieFace::Yellow(Some('0')), CubieFace::Yellow(Some('1')), CubieFace::Yellow(Some('2'))],
            vec![CubieFace::Yellow(Some('3')), CubieFace::Yellow(Some('4')), CubieFace::Yellow(Some('5'))],
            vec![CubieFace::Yellow(Some('6')), CubieFace::Yellow(Some('7')), CubieFace::Yellow(Some('8'))],
        ]),
        flat(vec![
            vec![CubieFace::Blue(Some('0')), CubieFace::Blue(Some('1')), CubieFace::Blue(Some('2'))],
            vec![CubieFace::Blue(Some('3')), CubieFace::Blue(Some('4')), CubieFace::Blue(Some('5'))],
            vec![CubieFace::Blue(Some('6')), CubieFace::Blue(Some('7')), CubieFace::Blue(Some('8'))],
        ]),
        flat(vec![
            vec![CubieFace::Orange(Some('0')), CubieFace::Orange(Some('1')), CubieFace::Orange(Some('2'))],
            vec![CubieFace::Orange(Some('3')), CubieFace::Orange(Some('4')), CubieFace::Orange(Some('5'))],
            vec![CubieFace::Orange(Some('6')), CubieFace::Orange(Some('7')), CubieFace::Orange(Some('8'))],
        ]),
        flat(vec![
            vec![CubieFace::Green(Some('0')), CubieFace::Green(Some('1')), CubieFace::Green(Some('2'))],
            vec![CubieFace::Green(Some('3')), CubieFace::Green(Some('4')), CubieFace::Green(Some('5'))],
            vec![CubieFace::Green(Some('6')), CubieFace::Green(Some('7')), CubieFace::Green(Some('8'))],
        ]),
        flat(vec![
            vec![CubieFace::Red(Some('0')), CubieFace::Red(Some('1')), CubieFace::Red(Some('2'))],
            vec![CubieFace::Red(Some('3')), CubieFace::Red(Some('4')), CubieFace::Red(Some('5'))],
            vec![CubieFace::Red(Some('6')), CubieFace::Red(Some('7')), CubieFace::Red(Some('8'))],
        ]),
    );

    assert_eq!(expected_cube, cube);
}

#[test]
fn shuffle() {
    let mut cube = Cube::default();
    let original_cube = Cube::default();
    assert_eq!(
        original_cube, cube,
        "Test only works if cubes start out the same"
    );

    cube.shuffle(25);
    assert_ne!(original_cube, cube);
}

#[test]
fn rotate_face() {
    let mut cube = Cube::create_with_unique_characters(2.try_into().unwrap());
    cube.rotate(Rotation::anticlockwise(Face::Back)).unwrap();

    let expected_cube = Cube::create_from_sides(
        flat(vec![
            vec![CubieFace::Red(Some('2')), CubieFace::Red(Some('0'))],
            vec![CubieFace::White(Some('2')), CubieFace::White(Some('3'))],
        ]),
        flat(vec![
            vec![CubieFace::Yellow(Some('0')), CubieFace::Yellow(Some('1'))],
            vec![CubieFace::Orange(Some('3')), CubieFace::Orange(Some('1'))],
        ]),
        flat(vec![
            vec![CubieFace::Blue(Some('0')), CubieFace::Blue(Some('1'))],
            vec![CubieFace::Blue(Some('2')), CubieFace::Blue(Some('3'))],
        ]),
        flat(vec![
            vec![CubieFace::Orange(Some('0')), CubieFace::White(Some('0'))],
            vec![CubieFace::Orange(Some('2')), CubieFace::White(Some('1'))],
        ]),
        flat(vec![
            vec![CubieFace::Green(Some('1')), CubieFace::Green(Some('3'))],
            vec![CubieFace::Green(Some('0')), CubieFace::Green(Some('2'))],
        ]),
        flat(vec![
            vec![CubieFace::Yellow(Some('2')), CubieFace::Red(Some('1'))],
            vec![CubieFace::Yellow(Some('3')), CubieFace::Red(Some('3'))],
        ]),
    );
    assert_eq!(expected_cube, cube);
}

#[test]
fn rotate_inner() {
    let mut cube = Cube::create_with_unique_characters(3.try_into().unwrap());
    cube.rotate(Rotation::clockwise_setback_from(Face::Front, 1)).unwrap();

    let expected_cube = Cube::create_from_sides(
        flat(vec![
            vec![CubieFace::White(Some('0')), CubieFace::White(Some('1')), CubieFace::White(Some('2'))],
            vec![CubieFace::Red(Some('7')), CubieFace::Red(Some('4')), CubieFace::Red(Some('1'))],
            vec![CubieFace::White(Some('6')), CubieFace::White(Some('7')), CubieFace::White(Some('8'))],
        ]),
        flat(vec![
            vec![CubieFace::Yellow(Some('0')), CubieFace::Yellow(Some('1')), CubieFace::Yellow(Some('2'))],
            vec![CubieFace::Orange(Some('7')), CubieFace::Orange(Some('4')), CubieFace::Orange(Some('1'))],
            vec![CubieFace::Yellow(Some('6')), CubieFace::Yellow(Some('7')), CubieFace::Yellow(Some('8'))],
        ]),
        flat(vec![
            vec![CubieFace::Blue(Some('0')), CubieFace::Blue(Some('1')), CubieFace::Blue(Some('2'))],
            vec![CubieFace::Blue(Some('3')), CubieFace::Blue(Some('4')), CubieFace::Blue(Some('5'))],
            vec![CubieFace::Blue(Some('6')), CubieFace::Blue(Some('7')), CubieFace::Blue(Some('8'))],
        ]),
        flat(vec![
            vec![CubieFace::Orange(Some('0')), CubieFace::White(Some('3')), CubieFace::Orange(Some('2'))],
            vec![CubieFace::Orange(Some('3')), CubieFace::White(Some('4')), CubieFace::Orange(Some('5'))],
            vec![CubieFace::Orange(Some('6')), CubieFace::White(Some('5')), CubieFace::Orange(Some('8'))],
        ]),
        flat(vec![
            vec![CubieFace::Green(Some('0')), CubieFace::Green(Some('1')), CubieFace::Green(Some('2'))],
            vec![CubieFace::Green(Some('3')), CubieFace::Green(Some('4')), CubieFace::Green(Some('5'))],
            vec![CubieFace::Green(Some('6')), CubieFace::Green(Some('7')), CubieFace::Green(Some('8'))],
        ]),
        flat(vec![
            vec![CubieFace::Red(Some('0')), CubieFace::Yellow(Some('3')), CubieFace::Red(Some('2'))],
            vec![CubieFace::Red(Some('3')), CubieFace::Yellow(Some('4')), CubieFace::Red(Some('5'))],
            vec![CubieFace::Red(Some('6')), CubieFace::Yellow(Some('5')), CubieFace::Red(Some('8'))],
        ]),
    );
    assert_eq!(expected_cube, cube);
}

#[test]
fn rotate_multilayer() {
    let mut cube = Cube::create_with_unique_characters(3.try_into().unwrap());
    cube.rotate(Rotation::clockwise_multilayer_from(Face::Front, 1)).unwrap();

    let expected_cube = Cube::create_from_sides(
        flat(vec![
            vec![CubieFace::White(Some('0')), CubieFace::White(Some('1')), CubieFace::White(Some('2'))],
            vec![CubieFace::Red(Some('7')), CubieFace::Red(Some('4')), CubieFace::Red(Some('1'))],
            vec![CubieFace::Red(Some('8')), CubieFace::Red(Some('5')), CubieFace::Red(Some('2'))],
        ]),
        flat(vec![
            vec![CubieFace::Orange(Some('6')), CubieFace::Orange(Some('3')), CubieFace::Orange(Some('0'))],
            vec![CubieFace::Orange(Some('7')), CubieFace::Orange(Some('4')), CubieFace::Orange(Some('1'))],
            vec![CubieFace::Yellow(Some('6')), CubieFace::Yellow(Some('7')), CubieFace::Yellow(Some('8'))],
        ]),
        flat(vec![
            vec![CubieFace::Blue(Some('6')), CubieFace::Blue(Some('3')), CubieFace::Blue(Some('0'))],
            vec![CubieFace::Blue(Some('7')), CubieFace::Blue(Some('4')), CubieFace::Blue(Some('1'))],
            vec![CubieFace::Blue(Some('8')), CubieFace::Blue(Some('5')), CubieFace::Blue(Some('2'))],
        ]),
        flat(vec![
            vec![CubieFace::White(Some('6')), CubieFace::White(Some('3')), CubieFace::Orange(Some('2'))],
            vec![CubieFace::White(Some('7')), CubieFace::White(Some('4')), CubieFace::Orange(Some('5'))],
            vec![CubieFace::White(Some('8')), CubieFace::White(Some('5')), CubieFace::Orange(Some('8'))],
        ]),
        flat(vec![
            vec![CubieFace::Green(Some('0')), CubieFace::Green(Some('1')), CubieFace::Green(Some('2'))],
            vec![CubieFace::Green(Some('3')), CubieFace::Green(Some('4')), CubieFace::Green(Some('5'))],
            vec![CubieFace::Green(Some('6')), CubieFace::Green(Some('7')), CubieFace::Green(Some('8'))],
        ]),
        flat(vec![
            vec![CubieFace::Red(Some('0')), CubieFace::Yellow(Some('3')), CubieFace::Yellow(Some('0'))],
            vec![CubieFace::Red(Some('3')), CubieFace::Yellow(Some('4')), CubieFace::Yellow(Some('1'))],
            vec![CubieFace::Red(Some('6')), CubieFace::Yellow(Some('5')), CubieFace::Yellow(Some('2'))],
        ]),
    );
    assert_eq!(expected_cube, cube);
}

#[test]
fn rotate_multisetback() {
    let mut cube = Cube::create_with_unique_characters(4.try_into().unwrap());
    cube.rotate(Rotation::clockwise_multisetback_from(Face::Left, 1, 2)).unwrap();

    let expected_cube = Cube::create_from_sides(
        flat(vec![
            vec![CubieFace::White(Some('0')), CubieFace::Green(Some('>')), CubieFace::Green(Some('=')), CubieFace::White(Some('3'))],
            vec![CubieFace::White(Some('4')), CubieFace::Green(Some(':')), CubieFace::Green(Some('9')), CubieFace::White(Some('7'))],
            vec![CubieFace::White(Some('8')), CubieFace::Green(Some('6')), CubieFace::Green(Some('5')), CubieFace::White(Some(';'))],
            vec![CubieFace::White(Some('<')), CubieFace::Green(Some('2')), CubieFace::Green(Some('1')), CubieFace::White(Some('?'))],
        ]),
        flat(vec![
            vec![CubieFace::Yellow(Some('0')), CubieFace::Blue(Some('1')), CubieFace::Blue(Some('2')), CubieFace::Yellow(Some('3'))],
            vec![CubieFace::Yellow(Some('4')), CubieFace::Blue(Some('5')), CubieFace::Blue(Some('6')), CubieFace::Yellow(Some('7'))],
            vec![CubieFace::Yellow(Some('8')), CubieFace::Blue(Some('9')), CubieFace::Blue(Some(':')), CubieFace::Yellow(Some(';'))],
            vec![CubieFace::Yellow(Some('<')), CubieFace::Blue(Some('=')), CubieFace::Blue(Some('>')), CubieFace::Yellow(Some('?'))],
        ]),
        flat(vec![
            vec![CubieFace::Blue(Some('0')), CubieFace::White(Some('1')), CubieFace::White(Some('2')), CubieFace::Blue(Some('3'))],
            vec![CubieFace::Blue(Some('4')), CubieFace::White(Some('5')), CubieFace::White(Some('6')), CubieFace::Blue(Some('7'))],
            vec![CubieFace::Blue(Some('8')), CubieFace::White(Some('9')), CubieFace::White(Some(':')), CubieFace::Blue(Some(';'))],
            vec![CubieFace::Blue(Some('<')), CubieFace::White(Some('=')), CubieFace::White(Some('>')), CubieFace::Blue(Some('?'))],
        ]),
        flat(vec![
            vec![CubieFace::Orange(Some('0')), CubieFace::Orange(Some('1')), CubieFace::Orange(Some('2')), CubieFace::Orange(Some('3'))],
            vec![CubieFace::Orange(Some('4')), CubieFace::Orange(Some('5')), CubieFace::Orange(Some('6')), CubieFace::Orange(Some('7'))],
            vec![CubieFace::Orange(Some('8')), CubieFace::Orange(Some('9')), CubieFace::Orange(Some(':')), CubieFace::Orange(Some(';'))],
            vec![CubieFace::Orange(Some('<')), CubieFace::Orange(Some('=')), CubieFace::Orange(Some('>')), CubieFace::Orange(Some('?'))],
        ]),
        flat(vec![
            vec![CubieFace::Green(Some('0')), CubieFace::Yellow(Some('>')), CubieFace::Yellow(Some('=')), CubieFace::Green(Some('3'))],
            vec![CubieFace::Green(Some('4')), CubieFace::Yellow(Some(':')), CubieFace::Yellow(Some('9')), CubieFace::Green(Some('7'))],
            vec![CubieFace::Green(Some('8')), CubieFace::Yellow(Some('6')), CubieFace::Yellow(Some('5')), CubieFace::Green(Some(';'))],
            vec![CubieFace::Green(Some('<')), CubieFace::Yellow(Some('2')), CubieFace::Yellow(Some('1')), CubieFace::Green(Some('?'))],
        ]),
        flat(vec![
            vec![CubieFace::Red(Some('0')), CubieFace::Red(Some('1')), CubieFace::Red(Some('2')), CubieFace::Red(Some('3'))],
            vec![CubieFace::Red(Some('4')), CubieFace::Red(Some('5')), CubieFace::Red(Some('6')), CubieFace::Red(Some('7'))],
            vec![CubieFace::Red(Some('8')), CubieFace::Red(Some('9')), CubieFace::Red(Some(':')), CubieFace::Red(Some(';'))],
            vec![CubieFace::Red(Some('<')), CubieFace::Red(Some('=')), CubieFace::Red(Some('>')), CubieFace::Red(Some('?'))],
        ]),
    );
    assert_eq!(expected_cube, cube);
}

#[test]
fn rotate_far_opposite_face_as_if_it_were_inner() {
    let side_length = 5;

    let mut cube_under_test = Cube::create_with_unique_characters(side_length.try_into().unwrap());
    cube_under_test.rotate(Rotation::clockwise_setback_from(
        Face::Right,
        side_length - 1,
    )).unwrap();

    let mut expected_cube = Cube::create_with_unique_characters(side_length.try_into().unwrap());
    expected_cube.rotate(Rotation::anticlockwise(Face::Left)).unwrap();

    assert_eq!(expected_cube, cube_under_test);
}

#[test]
fn rotate_with_invalid_layer() {
    let side_length = 4;
    let mut cube = Cube::create(side_length.try_into().unwrap());

    let invalid_layer_index = side_length;
    let rotation = Rotation::clockwise_setback_from(Face::Up, invalid_layer_index);
    let result = cube.rotate(rotation);

    assert!(result.is_err());
    let err = result.unwrap_err();
    assert_eq!(LayerError::MissingRow { layer: 4 }, err);
    assert!(err
        .message()
        .starts_with("side did not have required layer (4 of outer vec of side)"));
    assert_eq!(Cube::create(side_length.try_into().unwrap()), cube);
}

#[test]
fn rotate_seq() {
    let side_length = 4;
    let mut seq_cube = Cube::create(side_length.try_into().unwrap());
    let mut no_seq_cube = Cube::create(side_length.try_into().unwrap());

    let rot_1 = Rotation::clockwise(Face::Up);
    let rot_2 = Rotation::clockwise(Face::Left);
    let rot_3 = Rotation::anticlockwise(Face::Up);

    seq_cube.rotate_seq(vec![rot_1, rot_2, rot_3]).unwrap();
    no_seq_cube.rotate(rot_1).unwrap();
    no_seq_cube.rotate(rot_2).unwrap();
    no_seq_cube.rotate(rot_3).unwrap();

    assert_eq!(no_seq_cube, seq_cube);
}
