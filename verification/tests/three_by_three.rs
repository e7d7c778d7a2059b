use rusty_puzzle_cube::cube::cubie_face::CubieFace;
use rusty_puzzle_cube::cube::face::Face;
use rusty_puzzle_cube::cube::Cube;
use rusty_puzzle_cube::notation::three_by_three::perform_3x3_sequence;

/// The cubie of the named colour, without a custom character.
fn colour(name: &str) -> CubieFace {
    match name {
        "White" => CubieFace::White(None),
        "Yellow" => CubieFace::Yellow(None),
        "Blue" => CubieFace::Blue(None),
        "Green" => CubieFace::Green(None),
        "Orange" => CubieFace::Orange(None),
        "Red" => CubieFace::Red(None),
        _ => panic!("unknown colour {name}"),
    }
}

/// A side given as rows of colour names, flattened into row-major order.
fn side(rows: &[&str]) -> Vec<CubieFace> {
    rows.iter()
        .flat_map(|row| row.split_whitespace().map(colour))
        .collect()
}

fn assert_unsupported(sequence: &str, token: &str) {
    let mut cube = Cube::create(3.try_into().expect("known good value"));
    let expected_error_msg = format!("Unsupported token in notation string: [{token}]");
    assert_eq!(Err(expected_error_msg), perform_3x3_sequence(sequence, &mut cube));
}

#[test]
fn three_by_three_invalid_token_f_0() {
    assert_unsupported("F0", "F0");
}

#[test]
fn three_by_three_invalid_token_f_1() {
    assert_unsupported("F1", "F1");
}

#[test]
fn three_by_three_invalid_token_f_1_prime() {
    assert_unsupported("F1'", "F1'");
}

#[test]
fn three_by_three_invalid_token_f_2_prime() {
    assert_unsupported("F2'", "F2'");
}

#[test]
fn three_by_three_invalid_token_f_prime_1() {
    assert_unsupported("F'1", "F'1");
}

#[test]
fn three_by_three_invalid_token_f_prime_2() {
    assert_unsupported("F'2", "F'2");
}

#[test]
fn three_by_three_invalid_token_f_3() {
    assert_unsupported("F3", "F3");
}

#[test]
fn three_by_three_invalid_token_f_f() {
    assert_unsupported("FF", "FF");
}

#[test]
fn three_by_three_invalid_token_f_f_1() {
    assert_unsupported("FF1", "FF1");
}

#[test]
fn three_by_three_invalid_token_f_f_2() {
    assert_unsupported("FF2", "FF2");
}

#[test]
fn three_by_three_invalid_token_f_2_2() {
    assert_unsupported("F22", "F22");
}

#[test]
fn three_by_three_invalid_token_1() {
    assert_unsupported("1", "1");
}

#[test]
fn three_by_three_invalid_token_2() {
    assert_unsupported("2", "2");
}

#[test]
fn three_by_three_invalid_token_3() {
    assert_unsupported("3", "3");
}

#[test]
fn three_by_three_invalid_sequence_too_many_spaces() {
    assert_unsupported("F  R U", "");
}

#[test]
fn three_by_three_invalid_sequence_not_enough_spaces() {
    assert_unsupported("FR U", "FR");
}

#[test]
fn three_by_three_invalid_sequence_multiple_individual_tokens() {
    assert_unsupported("F2' R'' UU", "F2'");
}

#[test]
fn three_by_three_invalid_sequence_invalid_single_char_token() {
    assert_unsupported("F2 R G U", "G");
}

#[test]
fn three_by_three_invalid_sequence_invalid_multi_char_token() {
    assert_unsupported("F2 R@ U", "R@");
}

#[test]
fn mod_test_perform_3x3_sequence() {
    let mut cube_under_test = Cube::create(3.try_into().expect("known good value"));
    let mut control_cube = Cube::create(3.try_into().expect("known good value"));

    perform_3x3_sequence("F2 R U' F", &mut cube_under_test).expect("Sequence in test should be valid");

    control_cube.rotate_face_90_degrees_clockwise(Face::Front);
    control_cube.rotate_face_90_degrees_clockwise(Face::Front);
    control_cube.rotate_face_90_degrees_clockwise(Face::Right);
    control_cube.rotate_face_90_degrees_anticlockwise(Face::Up);
    control_cube.rotate_face_90_degrees_clockwise(Face::Front);

    assert_eq!(control_cube, cube_under_test);
}

#[test]
fn mod_test_perform_3x3_sequence_every_token_once() {
    let sequence = "F R U L B D F2 R2 U2 L2 B2 D2 F' R' U' L' B' D'";
    let mut cube_under_test = Cube::create(3.try_into().expect("known good value"));

    perform_3x3_sequence(sequence, &mut cube_under_test).expect("Sequence in test should be valid");

    let expected_cube = Cube::create_from_sides(
        side(&["Green Orange Green", "White White Yellow", "Blue Red White"]),
        side(&["Orange Yellow Yellow", "White Yellow Blue", "White Red Blue"]),
        side(&["Orange Yellow Green", "White Blue Green", "White Blue Red"]),
        side(&["Red Green Yellow", "Red Orange Yellow", "Blue Orange Red"]),
        side(&["Red Green Orange", "Orange Green White", "White Blue Green"]),
        side(&["Yellow Orange Yellow", "Blue Red Green", "Orange Red Blue"]),
    );

    assert_eq!(expected_cube, cube_under_test);
}

#[test]
fn three_by_three_tokens_before_a_bad_one_are_performed() {
    let mut cube = Cube::create(3.try_into().expect("known good value"));
    let mut control = Cube::create(3.try_into().expect("known good value"));
    control.rotate_face_90_degrees_clockwise(Face::Front);
    assert!(perform_3x3_sequence(" F X", &mut cube).is_err());
    assert_eq!(control, cube);
}

#[test]
fn three_by_three_empty_sequence_is_an_empty_token() {
    assert_unsupported("   ", "");
}
