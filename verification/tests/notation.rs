use rusty_puzzle_cube::cube::cubie_face::CubieFace;
use rusty_puzzle_cube::cube::face::Face;
use rusty_puzzle_cube::cube::flat_side::LayerError;
use rusty_puzzle_cube::cube::rotation::Rotation;
use rusty_puzzle_cube::cube::{Cube, PuzzleCube};
use rusty_puzzle_cube::notation::{
    parse_sequence, parse_token, perform_notation, perform_sequence, IntFault, NotationErrorKind,
    PerformError,
};

/// The cubie of the named colour, without a custom character.
fn colour(name: &str) -> CubieFace {
    match name {
        "White" => CubieFace::White(None),
        "Yellow" => CubieFace::Yellow(None),
        "Blue" => CubieFace::Blue(None),
        "Green" => CubieFace::Green(None),
        "Orange" => CubieFace::Orange(None),
        "Red" => CubieFace::Red(None),
        _ => panic!("unknown colour {name}"),
    }
}

/// A side given as rows of colour names, flattened into row-major order.
fn side(rows: &[&str]) -> Vec<CubieFace> {
    rows.iter()
        .flat_map(|row| row.split_whitespace().map(colour))
        .collect()
}

fn assert_invalid_token(token: &str, kind: NotationErrorKind, text: &str) {
    let error = parse_token(token).unwrap_err();
    assert_eq!(kind, error.kind);
    assert_eq!(token, error.token);
    let message = error.message();
    assert!(message.starts_with(text), "{message}");
}

fn assert_invalid_sequence(notation: &str, kind: NotationErrorKind, token: &str, text: &str) {
    let mut cube = Cube::create(3.try_into().expect("known good value"));
    let untouched = Cube::create(3.try_into().expect("known good value"));
    let error = perform_notation(notation, &mut cube).unwrap_err();
    let message = error.message();
    assert!(message.starts_with(text), "{message}");
    match error {
        PerformError::Notation(error) => {
            assert_eq!(kind, error.kind);
            assert_eq!(token, error.token);
        }
        other => panic!("expected a notation error, got {other:?}"),
    }
    assert_eq!(untouched, cube);
}

#[test]
fn test_invalid_token_m() {
    assert_invalid_token(
        "M",
        NotationErrorKind::InvalidFace('M'),
        "failed parsing token: [M]\n\nCaused by:\n    invalid face character: [M]",
    );
}

#[test]
fn test_invalid_token_f_0() {
    assert_invalid_token(
        "F0",
        NotationErrorKind::InvalidFace('0'),
        "failed parsing token: [F0]\n\nCaused by:\n    invalid face character: [0]",
    );
}

#[test]
fn test_invalid_token_f_1() {
    assert_invalid_token(
        "F1",
        NotationErrorKind::InvalidFace('1'),
        "failed parsing token: [F1]\n\nCaused by:\n    invalid face character: [1]",
    );
}

#[test]
fn test_invalid_token_f_1_prime() {
    assert_invalid_token(
        "F1'",
        NotationErrorKind::InvalidFace('1'),
        "failed parsing token: [F1']\n\nCaused by:\n    invalid face character: [1]",
    );
}

#[test]
fn test_invalid_token_f_2_prime() {
    assert_invalid_token(
        "F2'",
        NotationErrorKind::TurnTwiceWithAnticlockwise,
        "failed parsing token: [F2'] as 'turn twice' should not be used as well as 'anticlockwise'",
    );
}

#[test]
fn test_invalid_token_f_prime_1() {
    assert_invalid_token(
        "F'1",
        NotationErrorKind::InvalidFace('1'),
        "failed parsing token: [F'1]\n\nCaused by:\n    invalid face character: [1]",
    );
}

#[test]
fn test_invalid_token_f_prime_2() {
    assert_invalid_token(
        "F'2",
        NotationErrorKind::InvalidFace('\''),
        "failed parsing token: [F'2]\n\nCaused by:\n    invalid face character: [']",
    );
}

#[test]
fn test_invalid_token_f_3() {
    assert_invalid_token(
        "F3",
        NotationErrorKind::InvalidFace('3'),
        "failed parsing token: [F3]\n\nCaused by:\n    invalid face character: [3]",
    );
}

#[test]
fn test_invalid_token_f_f() {
    assert_invalid_token(
        "FF",
        NotationErrorKind::InvalidLayerCount(IntFault::InvalidDigit),
        "failed parsing token: [FF]\n\nCaused by:\n    0: invalid multi-layer count: [F]\n    1: invalid digit found in string",
    );
}

#[test]
fn test_invalid_token_f_f_1() {
    assert_invalid_token(
        "FF1",
        NotationErrorKind::InvalidFace('1'),
        "failed parsing token: [FF1]\n\nCaused by:\n    invalid face character: [1]",
    );
}

#[test]
fn test_invalid_token_f_f_2() {
    assert_invalid_token(
        "FF2",
        NotationErrorKind::InvalidLayerCount(IntFault::InvalidDigit),
        "failed parsing token: [FF2]\n\nCaused by:\n    0: invalid multi-layer count: [F]\n    1: invalid digit found in string",
    );
}

#[test]
fn test_invalid_token_f_2_2() {
    assert_invalid_token(
        "F22",
        NotationErrorKind::InvalidFace('2'),
        "failed parsing token: [F22]\n\nCaused by:\n    invalid face character: [2]",
    );
}

#[test]
fn test_invalid_token_1() {
    assert_invalid_token(
        "1",
        NotationErrorKind::InvalidFace('1'),
        "failed parsing token: [1]\n\nCaused by:\n    invalid face character: [1]",
    );
}

#[test]
fn test_invalid_token_2() {
    assert_invalid_token(
        "2",
        NotationErrorKind::MissingFace,
        "failed parsing token: [2]\n\nCaused by:\n    missing face character",
    );
}

#[test]
fn test_invalid_token_3() {
    assert_invalid_token(
        "3",
        NotationErrorKind::InvalidFace('3'),
        "failed parsing token: [3]\n\nCaused by:\n    invalid face character: [3]",
    );
}

#[test]
fn test_invalid_token_2_dash_f() {
    assert_invalid_token(
        "2-F",
        NotationErrorKind::InvalidLayerRange(IntFault::Empty),
        "failed parsing token: [2-F]\n\nCaused by:\n    0: invalid multi-layer range: [2-]",
    );
}

#[test]
fn test_invalid_token_dash_2_f() {
    assert_invalid_token(
        "-2F",
        NotationErrorKind::InvalidLayerRange(IntFault::Empty),
        "failed parsing token: [-2F]\n\nCaused by:\n    0: invalid multi-layer range: [-2]",
    );
}

#[test]
fn test_invalid_sequence_not_enough_spaces() {
    assert_invalid_sequence(
        "FR U",
        NotationErrorKind::InvalidLayerCount(IntFault::InvalidDigit),
        "FR",
        "failed parsing token: [FR]\n\nCaused by:\n    0: invalid multi-layer count: [F]\n    1: invalid digit found in string",
    );
}

#[test]
fn test_invalid_sequence_multiple_individual_tokens() {
    assert_invalid_sequence(
        "F2' R'' UU",
        NotationErrorKind::TurnTwiceWithAnticlockwise,
        "F2'",
        "failed parsing token: [F2'] as 'turn twice' should not be used as well as 'anticlockwise'",
    );
}

#[test]
fn test_invalid_sequence_invalid_single_char_token() {
    assert_invalid_sequence(
        "F2 R G U",
        NotationErrorKind::InvalidFace('G'),
        "G",
        "failed parsing token: [G]\n\nCaused by:\n    invalid face character: [G]",
    );
}

#[test]
fn test_invalid_sequence_invalid_multi_char_token() {
    assert_invalid_sequence(
        "F2 R@ U",
        NotationErrorKind::InvalidFace('@'),
        "R@",
        "failed parsing token: [R@]\n\nCaused by:\n    invalid face character: [@]",
    );
}

#[test]
fn test_perform_3x3_notation() {
    let mut cube_under_test = Cube::create(3.try_into().expect("known good value"));
    let mut control_cube = Cube::create(3.try_into().expect("known good value"));

    perform_notation("F2 R U' F", &mut cube_under_test).expect("Sequence in test should be valid");

    control_cube.rotate(Rotation::clockwise(Face::Front)).unwrap();
    control_cube.rotate(Rotation::clockwise(Face::Front)).unwrap();
    control_cube.rotate(Rotation::clockwise(Face::Right)).unwrap();
    control_cube.rotate(Rotation::anticlockwise(Face::Up)).unwrap();
    control_cube.rotate(Rotation::clockwise(Face::Front)).unwrap();

    assert_eq!(control_cube, cube_under_test);
}

#[test]
fn test_perform_3x3_notation_every_token_once() {
    let sequence = "F R U L B D F2 R2 U2 L2 B2 D2 F' R' U' L' B' D'";
    let mut cube_under_test = Cube::create(3.try_into().expect("known good value"));

    perform_notation(sequence, &mut cube_under_test).expect("Sequence in test should be valid");

    let expected_cube = Cube::create_from_sides(
        side(&["Green Orange Green", "White White Yellow", "Blue Red White"]),
        side(&["Orange Yellow Yellow", "White Yellow Blue", "White Red Blue"]),
        side(&["Orange Yellow Green", "White Blue Green", "White Blue Red"]),
        side(&["Red Green Yellow", "Red Orange Yellow", "Blue Orange Red"]),
        side(&["Red Green Orange", "Orange Green White", "White Blue Green"]),
        side(&["Yellow Orange Yellow", "Blue Red Green", "Orange Red Blue"]),
    );

    assert_eq!(expected_cube, cube_under_test);
}

#[test]
fn test_perform_notation_cube_too_small() {
    let sequence = "4Uw";
    let mut cube = Cube::create(3.try_into().expect("known good value"));

    let error = perform_notation(sequence, &mut cube).unwrap_err();

    assert_eq!(PerformError::Layer(LayerError::MissingRow { layer: 3 }), error);
    assert!(error
        .message()
        .starts_with("side did not have required layer (3 of outer vec of side)"));
}

#[test]
fn parse_token_large_cubes_uw() {
    let rotations = parse_token("Uw").unwrap();
    assert_eq!(vec![Rotation::clockwise_multilayer_from(Face::Up, 1)], rotations);
    assert_eq!("Uw", Rotation::clockwise_multilayer_from(Face::Up, 1).notation());
}

#[test]
fn parse_token_large_cubes_3_fw() {
    let rotations = parse_token("3Fw").unwrap();
    assert_eq!(vec![Rotation::clockwise_multilayer_from(Face::Front, 2)], rotations);
    assert_eq!("3Fw", Rotation::clockwise_multilayer_from(Face::Front, 2).notation());
}

#[test]
fn parse_token_large_cubes_3_rw_prime() {
    let rotations = parse_token("3Rw'").unwrap();
    assert_eq!(vec![Rotation::anticlockwise_multilayer_from(Face::Right, 2)], rotations);
    assert_eq!("3Rw'", Rotation::anticlockwise_multilayer_from(Face::Right, 2).notation());
}

#[test]
fn parse_token_large_cubes_3_bw_2() {
    let rotations = parse_token("3Bw2").unwrap();
    assert_eq!(
        vec![
            Rotation::clockwise_multilayer_from(Face::Back, 2),
            Rotation::clockwise_multilayer_from(Face::Back, 2),
        ],
        rotations
    );
    assert_eq!("3Bw", Rotation::clockwise_multilayer_from(Face::Back, 2).notation());
}

#[test]
fn parse_token_large_cubes_4_l_prime() {
    let rotations = parse_token("4L'").unwrap();
    assert_eq!(vec![Rotation::anticlockwise_setback_from(Face::Left, 3)], rotations);
    assert_eq!("4L'", Rotation::anticlockwise_setback_from(Face::Left, 3).notation());
}

#[test]
fn parse_token_large_cubes_multisetback() {
    let rotations = parse_token("3-6U'").unwrap();
    assert_eq!(vec![Rotation::anticlockwise_multisetback_from(Face::Up, 2, 5)], rotations);
    assert_eq!("3-6U'", Rotation::anticlockwise_multisetback_from(Face::Up, 2, 5).notation());
}

#[test]
fn parse_sequence_spans_whitespace_of_any_kind() {
    let rotations = parse_sequence("  R\tU'\n 2F2  ").unwrap();
    assert_eq!(
        vec![
            Rotation::clockwise(Face::Right),
            Rotation::anticlockwise(Face::Up),
            Rotation::clockwise_setback_from(Face::Front, 1),
            Rotation::clockwise_setback_from(Face::Front, 1),
        ],
        rotations
    );
    assert_eq!(Vec::<Rotation>::new(), parse_sequence(" \t ").unwrap());
}

#[test]
fn parse_token_trims_and_reads_plus_signs_and_ranges() {
    assert_eq!(vec![Rotation::clockwise(Face::Down)], parse_token(" D ").unwrap());
    assert_eq!(
        vec![Rotation::clockwise_setback_from(Face::Down, 2)],
        parse_token("+3D").unwrap()
    );
    assert_eq!(
        vec![Rotation::clockwise_multisetback_from(Face::Left, 4, 1)],
        parse_token("5-2L").unwrap()
    );
    assert_eq!(
        vec![Rotation::clockwise_multisetback_from(Face::Left, 1, 2)],
        parse_token("2-3-9L").unwrap()
    );
    assert_eq!(
        vec![Rotation::clockwise_multilayer_from(Face::Up, 1)],
        parse_token("2Uw").unwrap()
    );
}

#[test]
fn layer_counts_too_large_for_usize_are_invalid() {
    assert_invalid_token(
        "99999999999999999999999F",
        NotationErrorKind::InvalidLayerCount(IntFault::PosOverflow),
        "failed parsing token: [99999999999999999999999F]\n\nCaused by:\n    0: invalid multi-layer count: [99999999999999999999999]\n    1: number too large to fit in target type",
    );
    assert_invalid_token(
        "1-99999999999999999999999F",
        NotationErrorKind::InvalidLayerRange(IntFault::PosOverflow),
        "failed parsing token: [1-99999999999999999999999F]\n\nCaused by:\n    0: invalid multi-layer range: [1-99999999999999999999999]\n    1: number too large to fit in target type",
    );
}

#[test]
fn zero_layer_counts_are_malformed() {
    assert_invalid_token(
        "0F",
        NotationErrorKind::InvalidLayerCount(IntFault::Zero),
        "failed parsing token: [0F]\n\nCaused by:\n    0: invalid multi-layer count: [0]\n    1: number would be zero for non-zero type",
    );
    assert_invalid_token(
        "0Fw",
        NotationErrorKind::InvalidLayerCount(IntFault::Zero),
        "failed parsing token: [0Fw]\n\nCaused by:\n    0: invalid multi-layer count: [0]",
    );
    assert_invalid_token(
        "0-2U",
        NotationErrorKind::InvalidLayerRange(IntFault::Zero),
        "failed parsing token: [0-2U]\n\nCaused by:\n    0: invalid multi-layer range: [0-2]",
    );
    assert_invalid_token(
        "2-0U'",
        NotationErrorKind::InvalidLayerRange(IntFault::Zero),
        "failed parsing token: [2-0U']\n\nCaused by:\n    0: invalid multi-layer range: [2-0]",
    );
    assert_invalid_sequence(
        "R 0F",
        NotationErrorKind::InvalidLayerCount(IntFault::Zero),
        "0F",
        "failed parsing token: [0F]",
    );
    assert!(parse_sequence("G 0F").unwrap_err().token == "G");
}

#[test]
fn signs_and_stray_characters_in_layer_counts() {
    assert_eq!(
        vec![Rotation::clockwise_setback_from(Face::Front, 2)],
        parse_token("+3F").unwrap()
    );
    assert_invalid_token(
        "+F",
        NotationErrorKind::InvalidLayerCount(IntFault::InvalidDigit),
        "failed parsing token: [+F]\n\nCaused by:\n    0: invalid multi-layer count: [+]\n    1: invalid digit found in string",
    );
    assert_invalid_token(
        "3xF",
        NotationErrorKind::InvalidLayerCount(IntFault::InvalidDigit),
        "failed parsing token: [3xF]\n\nCaused by:\n    0: invalid multi-layer count: [3x]\n    1: invalid digit found in string",
    );
}

#[test]
fn notation_round_trips() {
    let rotations = [
        Rotation::clockwise(Face::Front),
        Rotation::anticlockwise(Face::Back),
        Rotation::clockwise_multilayer_from(Face::Left, 1),
        Rotation::anticlockwise_multilayer_from(Face::Down, 11),
        Rotation::clockwise_setback_from(Face::Right, 9),
        Rotation::anticlockwise_multisetback_from(Face::Up, 0, 120),
    ];
    for rotation in rotations {
        assert_eq!(vec![rotation], parse_token(&rotation.notation()).unwrap());
    }
    assert_eq!("U", Rotation::clockwise_setback_from(Face::Up, 0).notation());
    assert_eq!("U'", Rotation::anticlockwise_multilayer_from(Face::Up, 0).notation());
    assert_eq!(vec![Rotation::clockwise(Face::Up)], parse_token("U").unwrap());
}

#[test]
fn perform_sequence_stops_at_the_first_failure() {
    let mut cube = Cube::create(3.try_into().expect("known good value"));
    let mut control = Cube::create(3.try_into().expect("known good value"));
    control.rotate(Rotation::clockwise(Face::Front)).unwrap();

    let result = perform_sequence(
        vec![
            Rotation::clockwise(Face::Front),
            Rotation::clockwise_setback_from(Face::Up, 5),
            Rotation::clockwise(Face::Right),
        ],
        &mut cube,
    );

    assert!(result.is_err());
    assert_eq!(control, cube);
}

#[test]
fn notation_written_one_text_after_another_parses_as_both() {
    let first = "R U2";
    let second = "3Fw' 2-3L";
    let mut expected = parse_sequence(first).unwrap();
    expected.extend(parse_sequence(second).unwrap());
    assert_eq!(expected, parse_sequence(&format!("{first} {second}")).unwrap());

    let with_fault_first = parse_sequence("R G 0F").unwrap_err();
    assert_eq!("G", with_fault_first.token);
    assert_eq!(NotationErrorKind::InvalidFace('G'), with_fault_first.kind);
}
