use rusty_puzzle_cube::cube::side_lengths::{SideLength, SideLengthError, UniqueCharsSideLength};

#[test]
fn test_side_length_valid() {
    for side_length in 1..=100 {
        let held_value: usize = SideLength::try_from(side_length).unwrap().into();
        assert_eq!(side_length, held_value);
    }
}

#[test]
fn test_side_length_invalid() {
    assert!(SideLength::try_from(0).is_err());
}

#[test]
fn test_unique_chars_side_length_valid() {
    for side_length in 1..=8 {
        let held_value: usize = UniqueCharsSideLength::try_from(side_length).unwrap().into();
        assert_eq!(side_length, held_value);
    }
}

#[test]
fn test_unique_chars_side_length_invalid() {
    assert!(UniqueCharsSideLength::try_from(0).is_err());

    for side_length in 9..=20 {
        assert!(UniqueCharsSideLength::try_from(side_length).is_err());
    }
}

#[test]
fn refused_side_lengths_say_why() {
    let too_small = SideLength::try_from(0).unwrap_err();
    assert_eq!(SideLengthError::TooSmall, too_small);
    assert_eq!("Cannot have a side length of less than 1", too_small.message());
    let unique_message = "Cannot have a side length of less than 1, nor of greater than 8 when using unique display chars";
    for side_length in [0, 9, 100] {
        let refused = UniqueCharsSideLength::try_from(side_length).unwrap_err();
        assert_eq!(SideLengthError::OutsideUniqueCharsRange, refused);
        assert_eq!(unique_message, refused.message());
    }
}
