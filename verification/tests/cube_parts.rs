use rusty_puzzle_cube::cube::cubie_face::{CubieFace, DEFAULT_CUBIE_CHAR};
use rusty_puzzle_cube::cube::direction::Direction;
use rusty_puzzle_cube::cube::face::{Face, IndexAlignment};
use rusty_puzzle_cube::cube::flat_side::{FlatSide, LayerError};
use rusty_puzzle_cube::cube::helpers::{
    create_side, create_side_with_unique_characters, get_clockwise_slice_of_side_setback,
};
use rusty_puzzle_cube::cube::rotation::{Rotation, RotationKind};
use rusty_puzzle_cube::cube::side_lengths::{SideLength, UniqueCharsSideLength};

fn lettered(indices: impl IntoIterator<Item = u32>) -> Vec<CubieFace> {
    indices
        .into_iter()
        .map(|n| n + u32::from(b'a'))
        .map(|n| CubieFace::White(char::from_u32(n)))
        .collect()
}

#[test]
fn rotate_90_degrees_clockwise_4x4x4() {
    let mut side = FlatSide::new(4, lettered(0..16));
    side.rotate_90_degrees_clockwise();
    let inner = [
        12, 8, 4, 0,
        13, 9, 5, 1,
        14, 10, 6, 2,
        15, 11, 7, 3
    ];
    assert_eq!(FlatSide::new(4, lettered(inner)), side);
}

#[test]
fn rotate_90_degrees_clockwise_3x3x3() {
    let mut side = FlatSide::new(3, lettered(0..9));
    side.rotate_90_degrees_clockwise();
    let inner = [
        6, 3, 0,
        7, 4, 1,
        8, 5, 2
    ];
    assert_eq!(FlatSide::new(3, lettered(inner)), side);
}

#[test]
fn reverse_order_of_rows_4x4x4() {
    let mut side = FlatSide::new(4, lettered(0..16));
    side.reverse_order_of_rows();
    let expected = [(12..16), (8..12), (4..8), (0..4)]
        .into_iter()
        .flat_map(lettered)
        .collect();
    assert_eq!(FlatSide::new(4, expected), side);
}

#[test]
fn reverse_order_of_rows_3x3x3() {
    let mut side = FlatSide::new(3, lettered(0..9));
    side.reverse_order_of_rows();
    let expected = [(6..9), (3..6), (0..3)].into_iter().flat_map(lettered).collect();
    assert_eq!(FlatSide::new(3, expected), side);
}

#[test]
fn four_clockwise_quarter_turns_of_a_side_restore_it() {
    let original = FlatSide::new(5, lettered(0..25));
    let mut side = FlatSide::new(5, lettered(0..25));
    for _ in 0..4 {
        side.rotate_90_degrees_clockwise();
    }
    assert_eq!(original, side);
}

#[test]
fn flat_side_rows_and_columns() {
    let mut side = FlatSide::new(3, lettered(0..9));
    assert_eq!(3, side.side_length());
    assert_eq!(Some(&lettered(3..6)[..]), side.row(1));
    assert_eq!(None, side.row(3));
    assert_eq!(vec![lettered(0..3), lettered(3..6), lettered(6..9)], side.rows());
    assert_eq!(Some(lettered([2, 5, 8])), side.col(2));
    assert_eq!(None, side.col(3));
    assert_eq!(&lettered(0..9)[..], side.iter_flat());

    side.clone_row_from(0, &lettered(20..23)).unwrap();
    side.clone_col_from(1, &lettered(10..13)).unwrap();
    assert_eq!(
        FlatSide::new(3, lettered([20, 10, 22, 3, 11, 5, 6, 12, 8])),
        side
    );
    let row_error = side.clone_row_from(7, &[]).unwrap_err();
    assert_eq!(LayerError::MissingLayer { layer: 7 }, row_error);
    assert_eq!("side did not have requested layer (7)", row_error.message());
    let col_error = side.clone_col_from(3, &[]).unwrap_err();
    assert_eq!(LayerError::MissingLayer { layer: 3 }, col_error);
    assert_eq!("side did not have requested layer (3)", col_error.message());
}

#[test]
fn rows_can_be_written_in_place() {
    let mut side = FlatSide::new(3, lettered(0..9));
    side.row_mut(2).unwrap().copy_from_slice(&lettered(20..23));
    assert!(side.row_mut(3).is_none());
    assert_eq!(FlatSide::new(3, lettered([0, 1, 2, 3, 4, 5, 20, 21, 22])), side);
}

#[test]
fn clockwise_slices_of_a_side() {
    let side = FlatSide::new(3, lettered(0..9));
    assert_eq!(
        Ok(lettered([0, 3, 6])),
        get_clockwise_slice_of_side_setback(&side, IndexAlignment::OuterStart, 0)
    );
    assert_eq!(
        Ok(lettered([7, 4, 1])),
        get_clockwise_slice_of_side_setback(&side, IndexAlignment::OuterEnd, 1)
    );
    assert_eq!(
        Ok(lettered([2, 1, 0])),
        get_clockwise_slice_of_side_setback(&side, IndexAlignment::InnerFirst, 0)
    );
    assert_eq!(
        Ok(lettered([6, 7, 8])),
        get_clockwise_slice_of_side_setback(&side, IndexAlignment::InnerLast, 0)
    );
    assert!(get_clockwise_slice_of_side_setback(&side, IndexAlignment::InnerLast, 3).is_err());
}

#[test]
fn only_use_visible_unique_characters() {
    let side = create_side_with_unique_characters(UniqueCharsSideLength::max(), CubieFace::Blue(None));
    for cubie in side.iter_flat() {
        let c = cubie.display_char();
        assert!(!c.is_whitespace(), "Found whitespace char: {}", c.escape_unicode());
        assert!(!c.is_control(), "Found control char: {}", c.escape_unicode());
    }
    let mut chars: Vec<char> = side.iter_flat().iter().map(|c| c.display_char()).collect();
    chars.sort();
    chars.dedup();
    assert_eq!(64, chars.len());
}

#[test]
fn created_sides_are_one_colour() {
    let side = create_side(SideLength::try_from(2).unwrap(), CubieFace::Red(None));
    assert_eq!(FlatSide::new(2, vec![CubieFace::Red(None); 4]), side);
}

#[test]
fn cubie_face_test_default_char_cubie() {
    assert_eq!(DEFAULT_CUBIE_CHAR, CubieFace::Red(None).display_char());
    assert_eq!('■', DEFAULT_CUBIE_CHAR);
}

#[test]
fn cubie_face_test_custom_char_cubie() {
    assert_eq!('?', CubieFace::Red(Some('?')).display_char());
}

#[test]
fn cubie_face_colours() {
    assert_eq!((0, 0, 255), CubieFace::Blue(None).rgb());
    assert_eq!((0, 255, 0), CubieFace::Green(Some('x')).rgb());
    assert_eq!((255, 127, 0), CubieFace::Orange(None).rgb());
    assert_eq!((255, 0, 0), CubieFace::Red(None).rgb());
    assert_eq!((255, 255, 255), CubieFace::White(None).rgb());
    assert_eq!((255, 255, 0), CubieFace::Yellow(None).rgb());
}

#[test]
fn clockwise_inverted() {
    assert_eq!(Direction::Anticlockwise, !Direction::Clockwise);
}

#[test]
fn anticlockwise_inverted() {
    assert_eq!(Direction::Clockwise, !Direction::Anticlockwise);
}

#[test]
fn up_inverted() {
    assert_eq!(Face::Down, !Face::Up);
}

#[test]
fn down_inverted() {
    assert_eq!(Face::Up, !Face::Down);
}

#[test]
fn front_inverted() {
    assert_eq!(Face::Back, !Face::Front);
}

#[test]
fn back_inverted() {
    assert_eq!(Face::Front, !Face::Back);
}

#[test]
fn left_inverted() {
    assert_eq!(Face::Right, !Face::Left);
}

#[test]
fn right_inverted() {
    assert_eq!(Face::Left, !Face::Right);
}

#[test]
fn adjacent_faces_of_front() {
    assert_eq!(
        [
            (Face::Up, IndexAlignment::InnerLast),
            (Face::Right, IndexAlignment::OuterStart),
            (Face::Down, IndexAlignment::InnerFirst),
            (Face::Left, IndexAlignment::OuterEnd),
        ],
        Face::Front.adjacent_faces_clockwise()
    );
}

#[test]
fn clockwise() {
    let expected_output = Rotation {
        relative_to: Face::Back,
        direction: Direction::Clockwise,
        kind: RotationKind::FaceOnly,
    };
    assert_eq!(expected_output, Rotation::clockwise(Face::Back));
}

#[test]
fn anticlockwise() {
    let expected_output = Rotation {
        relative_to: Face::Right,
        direction: Direction::Anticlockwise,
        kind: RotationKind::FaceOnly,
    };
    assert_eq!(expected_output, Rotation::anticlockwise(Face::Right));
}

#[test]
fn clockwise_setback_from() {
    let expected_output = Rotation {
        relative_to: Face::Down,
        direction: Direction::Clockwise,
        kind: RotationKind::Setback { layer: 3 },
    };
    assert_eq!(expected_output, Rotation::clockwise_setback_from(Face::Down, 3));
}

#[test]
fn anticlockwise_setback_from() {
    let expected_output = Rotation {
        relative_to: Face::Front,
        direction: Direction::Anticlockwise,
        kind: RotationKind::Setback { layer: 4 },
    };
    assert_eq!(expected_output, Rotation::anticlockwise_setback_from(Face::Front, 4));
}

#[test]
fn clockwise_multilayer_from() {
    let expected_output = Rotation {
        relative_to: Face::Down,
        direction: Direction::Clockwise,
        kind: RotationKind::Multilayer { layer: 3 },
    };
    assert_eq!(expected_output, Rotation::clockwise_multilayer_from(Face::Down, 3));
}

#[test]
fn anticlockwise_multilayer_from() {
    let expected_output = Rotation {
        relative_to: Face::Front,
        direction: Direction::Anticlockwise,
        kind: RotationKind::Multilayer { layer: 4 },
    };
    assert_eq!(expected_output, Rotation::anticlockwise_multilayer_from(Face::Front, 4));
}

#[test]
fn clockwise_multisetback_from() {
    let expected_output = Rotation {
        relative_to: Face::Down,
        direction: Direction::Clockwise,
        kind: RotationKind::MultiSetback { start_layer: 3, end_layer: 5 },
    };
    assert_eq!(expected_output, Rotation::clockwise_multisetback_from(Face::Down, 3, 5));
}

#[test]
fn anticlockwise_multisetback_from() {
    let expected_output = Rotation {
        relative_to: Face::Front,
        direction: Direction::Anticlockwise,
        kind: RotationKind::MultiSetback { start_layer: 4, end_layer: 6 },
    };
    assert_eq!(expected_output, Rotation::anticlockwise_multisetback_from(Face::Front, 4, 6));
}

#[test]
fn normalise_already_normalised() {
    let input = Rotation {
        relative_to: Face::Up,
        direction: Direction::Clockwise,
        kind: RotationKind::Setback { layer: 7 },
    };
    assert_eq!(input, input.normalise(9));
}

#[test]
fn normalise_already_normalised_only_because_multilayer() {
    let input = Rotation {
        relative_to: Face::Up,
        direction: Direction::Clockwise,
        kind: RotationKind::Multilayer { layer: 7 },
    };
    assert_eq!(input, input.normalise(8));
}

#[test]
fn normalise_not_already_normalised() {
    let input = Rotation {
        relative_to: Face::Up,
        direction: Direction::Clockwise,
        kind: RotationKind::Setback { layer: 7 },
    };
    let expected_output = Rotation {
        relative_to: Face::Down,
        direction: Direction::Anticlockwise,
        kind: RotationKind::FaceOnly,
    };
    assert_eq!(expected_output, input.normalise(8));
}

#[test]
fn normalise_already_normalised_mutlisetback() {
    let input = Rotation {
        relative_to: Face::Up,
        direction: Direction::Clockwise,
        kind: RotationKind::MultiSetback { start_layer: 3, end_layer: 7 },
    };
    assert_eq!(input, input.normalise(10));
}

#[test]
fn normalise_not_already_normalised_mutlisetback() {
    let input = Rotation {
        relative_to: Face::Up,
        direction: Direction::Clockwise,
        kind: RotationKind::MultiSetback { start_layer: 7, end_layer: 3 },
    };
    let expected_output = Rotation {
        relative_to: Face::Up,
        direction: Direction::Clockwise,
        kind: RotationKind::MultiSetback { start_layer: 3, end_layer: 7 },
    };
    assert_eq!(expected_output, input.normalise(10));
}

#[test]
fn as_layer_0_of_opposite_face() {
    let input = Rotation {
        relative_to: Face::Up,
        direction: Direction::Clockwise,
        kind: RotationKind::Setback { layer: 7 },
    };
    let expected_output = Rotation {
        relative_to: Face::Down,
        direction: Direction::Anticlockwise,
        kind: RotationKind::FaceOnly,
    };
    assert_eq!(expected_output, input.as_layer_0_of_opposite_face());
}

#[test]
fn as_layer_0_of_opposite_face_multilayer() {
    let input = Rotation {
        relative_to: Face::Up,
        direction: Direction::Clockwise,
        kind: RotationKind::Multilayer { layer: 7 },
    };
    let expected_output = Rotation {
        relative_to: Face::Down,
        direction: Direction::Anticlockwise,
        kind: RotationKind::FaceOnly,
    };
    assert_eq!(expected_output, input.as_layer_0_of_opposite_face());
}

#[test]
fn invert_only_changes_direction() {
    let relative_to = Face::Left;
    let layer = 4;
    let input = Rotation {
        relative_to,
        direction: Direction::Anticlockwise,
        kind: RotationKind::Multilayer { layer },
    };
    let expected_output = Rotation {
        relative_to,
        direction: Direction::Clockwise,
        kind: RotationKind::Multilayer { layer },
    };
    assert_eq!(expected_output, !input);
}

#[test]
fn random_picks_layer_within_bounds() {
    let side_length = 5;
    for _ in 0..25 {
        let rotation = Rotation::random(side_length);
        assert!(
            matches!(rotation.kind, RotationKind::MultiSetback { start_layer, end_layer } if start_layer < side_length && end_layer < side_length)
                || matches!(rotation.kind, RotationKind::Setback { layer } | RotationKind::Multilayer { layer } if layer < side_length)
                || matches!(rotation.kind, RotationKind::FaceOnly)
        );
    }
}

#[test]
fn layer_error_messages() {
    assert_eq!(
        "side did not have required layer (12 of outer vec of side)",
        LayerError::MissingRow { layer: 12 }.message()
    );
    assert_eq!(
        "side did not have required layer (0 of inner vec of side)",
        LayerError::MissingColumn { layer: 0 }.message()
    );
    assert_eq!(
        "requested layer index 305 caused underflow",
        LayerError::LayerUnderflow { layer: 305 }.message()
    );
}

#[test]
fn a_quarter_turn_of_a_side_only_moves_its_cubies() {
    let cubies = vec![
        CubieFace::Blue(None),
        CubieFace::Red(None),
        CubieFace::Blue(None),
        CubieFace::Green(None),
        CubieFace::Red(None),
        CubieFace::Blue(None),
        CubieFace::White(None),
        CubieFace::Yellow(None),
        CubieFace::Blue(None),
    ];
    let mut side = FlatSide::new(3, cubies.clone());
    side.rotate_90_degrees_clockwise();
    assert_ne!(&cubies[..], side.iter_flat());
    for cubie in &cubies {
        let before = cubies.iter().filter(|c| *c == cubie).count();
        let after = side.iter_flat().iter().filter(|c| *c == cubie).count();
        assert_eq!(before, after);
    }
}
