use rusty_puzzle_cube::cube::cube_slice::CubeSliceTwist;
use rusty_puzzle_cube::cube::cubie_face::CubieFace;
use rusty_puzzle_cube::cube::direction::Direction;
use rusty_puzzle_cube::cube::face::Face;
use rusty_puzzle_cube::cube::flat_side::LayerError;
use rusty_puzzle_cube::cube::rotation::Rotation;
use rusty_puzzle_cube::cube::{Cube, PuzzleCube};
use rusty_puzzle_cube::demo::terminal_demos;
use rusty_puzzle_cube::moves::{
    should_apply_anim, straight_drag_to_move, translate_horizontal_drag_for_whole_face,
    translate_vertical_drag_for_whole_face, DecidedMove, TranslatedDragForWholeFace,
};

#[test]
fn terminal_demos_are_valid() {
    let demos = terminal_demos();
    assert!(demos.is_ok());
    let demos = demos.unwrap();
    assert_eq!(9, demos.len());
    assert_eq!("Demo of simple turns and their inverse", demos[0].title);
    assert_eq!(7, demos[0].frames.len());
    assert_eq!(demos[0].frames[0], demos[0].frames[6]);
    assert_eq!(demos[1].frames[0], demos[1].frames[6]);
    assert_eq!(27, demos[7].frames[1].len());
    assert!(demos[2..].iter().all(|demo| demo.before_and_after && demo.frames.len() == 2));
}

#[test]
fn net_layout_of_a_solved_cube() {
    let rows = Cube::default().net_layout();
    assert_eq!(9, rows.len());
    let w = Some(CubieFace::White(None));
    assert_eq!(vec![None, None, None, w, w, w], rows[0]);
    let r = Some(CubieFace::Red(None));
    let b = Some(CubieFace::Blue(None));
    let o = Some(CubieFace::Orange(None));
    let g = Some(CubieFace::Green(None));
    assert_eq!(vec![r, r, r, b, b, b, o, o, o, g, g, g], rows[4]);
    let y = Some(CubieFace::Yellow(None));
    assert_eq!(vec![None, None, None, y, y, y], rows[8]);
}

#[test]
fn whole_face_move_becomes_a_face_rotation() {
    let decided = DecidedMove::WholeFace { face: Face::Left, direction: Direction::Anticlockwise };
    assert_eq!(Rotation::anticlockwise(Face::Left), decided.as_rotation());
}

#[test]
fn inner_row_moves_turn_a_layer_behind_the_axis_face() {
    let up = DecidedMove::InnerRow { face: Face::Up, row: 1, toward_positive: true };
    assert_eq!(Rotation::clockwise_setback_from(Face::Front, 1), up.as_rotation());
    let down = DecidedMove::InnerRow { face: Face::Down, row: 2, toward_positive: false };
    assert_eq!(Rotation::anticlockwise_setback_from(Face::Back, 2), down.as_rotation());
    let right = DecidedMove::InnerRow { face: Face::Right, row: 1, toward_positive: true };
    assert_eq!(Rotation::clockwise_setback_from(Face::Down, 1), right.as_rotation());
}

#[test]
fn inner_col_moves_turn_a_layer_behind_the_axis_face() {
    let front = DecidedMove::InnerCol { face: Face::Front, col: 1, toward_positive: true };
    assert_eq!(Rotation::anticlockwise_setback_from(Face::Left, 1), front.as_rotation());
    let right = DecidedMove::InnerCol { face: Face::Right, col: 2, toward_positive: false };
    assert_eq!(Rotation::clockwise_setback_from(Face::Front, 2), right.as_rotation());
    let back = DecidedMove::InnerCol { face: Face::Back, col: 1, toward_positive: false };
    assert_eq!(Rotation::clockwise_setback_from(Face::Right, 1), back.as_rotation());
    let left = DecidedMove::InnerCol { face: Face::Left, col: 1, toward_positive: true };
    assert_eq!(Rotation::anticlockwise_setback_from(Face::Back, 1), left.as_rotation());
}

#[test]
fn applying_a_move_rotates_the_cube() {
    let mut cube = Cube::default();
    let mut control = Cube::default();
    let decided = DecidedMove::InnerRow { face: Face::Front, row: 1, toward_positive: true };
    assert_eq!(Some(Rotation::clockwise_setback_from(Face::Down, 1)), decided.apply(&mut cube));
    control.rotate(Rotation::clockwise_setback_from(Face::Down, 1)).unwrap();
    assert_eq!(control, cube);

    let too_deep = DecidedMove::InnerCol { face: Face::Front, col: 5, toward_positive: true };
    assert_eq!(None, too_deep.apply(&mut cube));
    assert_eq!(control, cube);
}

#[test]
fn vertical_drags_of_outer_columns() {
    assert_eq!(
        TranslatedDragForWholeFace { face: Face::Left, direction: Direction::Anticlockwise },
        translate_vertical_drag_for_whole_face(0, Face::Front, true)
    );
    assert_eq!(
        TranslatedDragForWholeFace { face: Face::Right, direction: Direction::Clockwise },
        translate_vertical_drag_for_whole_face(2, Face::Up, true)
    );
    assert_eq!(
        TranslatedDragForWholeFace { face: Face::Right, direction: Direction::Clockwise },
        translate_vertical_drag_for_whole_face(0, Face::Back, false)
    );
    assert_eq!(
        TranslatedDragForWholeFace { face: Face::Front, direction: Direction::Clockwise },
        translate_vertical_drag_for_whole_face(2, Face::Left, true)
    );
    assert_eq!(
        TranslatedDragForWholeFace { face: Face::Back, direction: Direction::Anticlockwise },
        translate_vertical_drag_for_whole_face(2, Face::Right, false)
    );
}

#[test]
fn horizontal_drags_of_outer_rows() {
    assert_eq!(
        TranslatedDragForWholeFace { face: Face::Front, direction: Direction::Clockwise },
        translate_horizontal_drag_for_whole_face(0, Face::Up, true)
    );
    assert_eq!(
        TranslatedDragForWholeFace { face: Face::Front, direction: Direction::Clockwise },
        translate_horizontal_drag_for_whole_face(2, Face::Down, false)
    );
    assert_eq!(
        TranslatedDragForWholeFace { face: Face::Down, direction: Direction::Anticlockwise },
        translate_horizontal_drag_for_whole_face(0, Face::Right, false)
    );
    assert_eq!(
        TranslatedDragForWholeFace { face: Face::Up, direction: Direction::Anticlockwise },
        translate_horizontal_drag_for_whole_face(3, Face::Left, true)
    );
}

#[test]
fn straight_drags_decide_moves() {
    assert_eq!(
        DecidedMove::InnerRow { face: Face::Front, row: 1, toward_positive: true },
        straight_drag_to_move(3, Face::Front, true, true, 1)
    );
    assert_eq!(
        DecidedMove::InnerCol { face: Face::Up, col: 2, toward_positive: false },
        straight_drag_to_move(4, Face::Up, false, false, 2)
    );
    assert_eq!(
        DecidedMove::WholeFace { face: Face::Down, direction: Direction::Clockwise },
        straight_drag_to_move(3, Face::Front, true, true, 0)
    );
    assert_eq!(
        DecidedMove::WholeFace { face: Face::Right, direction: Direction::Clockwise },
        straight_drag_to_move(3, Face::Front, false, true, 2)
    );
    assert_eq!(
        DecidedMove::WholeFace { face: Face::Front, direction: Direction::Clockwise },
        straight_drag_to_move(1, Face::Up, true, true, 0)
    );
}

#[test]
fn animation_covers_the_turning_layer() {
    let front = Rotation::clockwise(Face::Front);
    assert!(should_apply_anim(Face::Front, 3, 1, 1, front));
    assert!(should_apply_anim(Face::Up, 3, 0, 2, front));
    assert!(!should_apply_anim(Face::Up, 3, 0, 1, front));
    assert!(should_apply_anim(Face::Right, 3, 0, 2, front));
    assert!(!should_apply_anim(Face::Back, 3, 0, 0, front));
    assert!(should_apply_anim(Face::Back, 1, 0, 0, front));

    let inner = Rotation::clockwise_setback_from(Face::Up, 1);
    assert!(!should_apply_anim(Face::Up, 3, 1, 1, inner));
    assert!(should_apply_anim(Face::Left, 3, 2, 1, inner));
    assert!(!should_apply_anim(Face::Left, 3, 1, 0, inner));
}

#[test]
fn inner_slice_twist_matches_a_setback_rotation() {
    let mut twisted = Cube::create_with_unique_characters(4.try_into().unwrap());
    let mut rotated = Cube::create_with_unique_characters(4.try_into().unwrap());
    twisted
        .rotate_inner_slice(CubeSliceTwist { relative_to: Face::Right, layer: 1, clockwise: false })
        .unwrap();
    rotated.rotate(Rotation::anticlockwise_setback_from(Face::Right, 1)).unwrap();
    assert_eq!(rotated, twisted);
}

#[test]
fn inner_slice_twist_of_a_missing_layer_fails() {
    let mut cube = Cube::default();
    let result = cube.rotate_inner_slice(CubeSliceTwist { relative_to: Face::Up, layer: 3, clockwise: true });
    assert_eq!(Err(LayerError::MissingRow { layer: 3 }), result);
    assert_eq!(Cube::default(), cube);
}

#[test]
fn face_only_slice_twist_leaves_the_face_itself() {
    let mut twisted = Cube::create_with_unique_characters(3.try_into().unwrap());
    let mut rotated = Cube::create_with_unique_characters(3.try_into().unwrap());
    twisted
        .rotate_inner_slice(CubeSliceTwist { relative_to: Face::Front, layer: 0, clockwise: true })
        .unwrap();
    rotated.rotate(Rotation::clockwise(Face::Front)).unwrap();
    assert_eq!(rotated.side(Face::Up), twisted.side(Face::Up));
    assert_eq!(
        Cube::create_with_unique_characters(3.try_into().unwrap()).side(Face::Front),
        twisted.side(Face::Front)
    );
}

#[test]
fn face_turns_by_the_older_methods() {
    let mut cube = Cube::default();
    let mut control = Cube::default();
    cube.rotate_face_90_degrees_clockwise(Face::Up);
    control.rotate(Rotation::clockwise(Face::Up)).unwrap();
    assert_eq!(control, cube);
    cube.rotate_face_90_degrees_anticlockwise(Face::Up);
    assert_eq!(Cube::default(), cube);
}
