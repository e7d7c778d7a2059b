use vstd::prelude::*;

use super::{
    cubie_face::CubieFace,
    face::{IndexAlignment as IA, line_cell},
    flat_side::{FlatSide, LayerError},
    side_lengths::{SideLength, UniqueCharsSideLength},
};

verus! {

/// The cubies of the line on edge `alignment` of grid `g`, `layer` layers in from that edge,
/// in clockwise order around the turning face.
pub open spec fn line_of(g: Seq<Seq<CubieFace>>, alignment: IA, n: int, layer: int) -> Seq<CubieFace> {
    Seq::new(
        n as nat,
        |k: int| g[line_cell(alignment, n, layer, k).0][line_cell(alignment, n, layer, k).1],
    )
}

/// The error reported when the line on edge `alignment` at `layer` does not exist.
pub open spec fn missing_line_error(alignment: IA, layer: usize) -> LayerError {
    match alignment {
        IA::OuterStart => LayerError::MissingColumn { layer },
        IA::InnerFirst => LayerError::MissingRow { layer },
        IA::OuterEnd | IA::InnerLast => LayerError::LayerUnderflow { layer },
    }
}

/// The display character given to the cubie at place `i` (in row-major order) of a side
/// created with unique characters.
pub open spec fn unique_char(i: int) -> char {
    (48 + i) as char
}

/// The unique characters of the cubies of a side of side length at most 8 are visible ASCII
/// characters, neither whitespace nor control characters, and no two places share one.
pub proof fn lemma_unique_chars_visible(i: int, j: int)
    requires
        0 <= i < 64,
        0 <= j < 64,
    ensures
        '!' <= unique_char(i) <= '~',
        i != j ==> unique_char(i) != unique_char(j),
{
}

/// A side of `side_length` by `side_length` cubies, all of the colour of `colour`, none carrying a display character.
pub fn create_side(side_length: SideLength, colour: CubieFace) -> (side: FlatSide)
    requires
        side_length.valid(),
        side_length@ * side_length@ <= usize::MAX,
    ensures
        side.wf(),
        side.spec_side_length() == side_length@,
        forall|r: int, c: int|
            0 <= r < side_length@ && 0 <= c < side_length@ ==> #[trigger] side@[r][c]
                == colour.with_char(None),
{
    let side_length: usize = side_length.into();
    let cubie = colour.recoloured_char(None);
    let mut cubies: Vec<CubieFace> = Vec::new();
    let total = side_length * side_length;
    let mut i: usize = 0;
    while i < total
        invariant
            i <= total,
            cubies.len() == i,
            forall|j: int| 0 <= j < i ==> #[trigger] cubies@[j] == cubie,
        decreases total - i,
    {
        cubies.push(cubie);
        i = i + 1;
    }
    let side = FlatSide::new(side_length, cubies);
    proof {
        let n = side_length as int;
        assert forall|r: int, c: int| 0 <= r < n && 0 <= c < n implies #[trigger] side@[r][c]
            == colour.with_char(None) by {
            super::flat_side::lemma_flat_index(n, r, c);
        }
    }
    side
}

/// A side of `side_length` by `side_length` cubies, all of the colour of `colour`, where each
/// cubie carries its own character, counting up from `'0'` in row-major order.
pub fn create_side_with_unique_characters(side_length: UniqueCharsSideLength, colour: CubieFace) -> (side:
    FlatSide)
    requires
        side_length.valid(),
    ensures
        side.wf(),
        side.spec_side_length() == side_length@,
        forall|r: int, c: int|
            0 <= r < side_length@ && 0 <= c < side_length@ ==> #[trigger] side@[r][c]
                == colour.with_char(Some(unique_char(r * side_length@ + c))),
{
    proof {
        side_length.lemma_valid();
    }
    let side_length: usize = side_length.into();
    let mut cubies: Vec<CubieFace> = Vec::new();
    let mut row: usize = 0;
    while row < side_length
        invariant
            1 <= side_length <= 8,
            row <= side_length,
            cubies.len() == row * side_length,
            forall|j: int| 0 <= j < cubies.len() ==> #[trigger] cubies@[j] == colour.with_char(
                Some(unique_char(j)),
            ),
        decreases side_length - row,
    {
        let mut column: usize = 0;
        while column < side_length
            invariant
                1 <= side_length <= 8,
                row < side_length,
                column <= side_length,
                cubies.len() == row * side_length + column,
                forall|j: int| 0 <= j < cubies.len() ==> #[trigger] cubies@[j] == colour.with_char(
                    Some(unique_char(j)),
                ),
            decreases side_length - column,
        {
            assert(row * side_length + column < 64) by (nonlinear_arith)
                requires
                    row < side_length,
                    column < side_length,
                    side_length <= 8,
            ;
            let value = side_length * row + column;
            let display_char = (48u8 + value as u8) as char;
            assert(display_char == unique_char(value as int));
            cubies.push(colour.recoloured_char(Some(display_char)));
            column = column + 1;
        }
        assert((row + 1) * side_length == row * side_length + side_length) by (nonlinear_arith);
        row = row + 1;
    }
    let side = FlatSide::new(side_length, cubies);
    proof {
        let n = side_length as int;
        assert forall|r: int, c: int| 0 <= r < n && 0 <= c < n implies #[trigger] side@[r][c]
            == colour.with_char(Some(unique_char(r * n + c))) by {
            super::flat_side::lemma_flat_index(n, r, c);
        }
    }
    side
}

/// The cubies of one edge line of `side`, `layers_back` layers in from the edge `index_alignment`, read
/// clockwise around the turning face.
pub fn get_clockwise_slice_of_side_setback(
    side: &FlatSide,
    index_alignment: IA,
    layers_back: usize,
) -> (res: Result<Vec<CubieFace>, LayerError>)
    requires
        side.wf(),
        layers_back < usize::MAX,
    ensures
        layers_back < side.spec_side_length() ==> res is Ok && res->Ok_0@ == line_of(
            side@,
            index_alignment,
            side.spec_side_length() as int,
            layers_back as int,
        ),
        layers_back >= side.spec_side_length() ==> res == Err::<Vec<CubieFace>, LayerError>(
            missing_line_error(index_alignment, layers_back),
        ),
{
    let n = side.side_length();
    proof {
        side.lemma_square();
    }
    let ghost expected = line_of(side@, index_alignment, n as int, layers_back as int);
    match index_alignment {
        IA::OuterStart => {
            match side.col(layers_back) {
                Some(col) => {
                    assert(col@ =~= expected);
                    Ok(col)
                },
                None => Err(LayerError::MissingColumn { layer: layers_back }),
            }
        },
        IA::OuterEnd => {
            let required_index = match n.checked_sub(layers_back + 1) {
                Some(i) => i,
                None => {
                    return Err(LayerError::LayerUnderflow { layer: layers_back });
                },
            };
            let col = side.col(required_index).unwrap();
            let reversed = reversed_copy(&col);
            assert(reversed@ =~= expected);
            Ok(reversed)
        },
        IA::InnerFirst => {
            match side.row(layers_back) {
                Some(row) => {
                    let row = vstd::slice::slice_to_vec(row);
                    let reversed = reversed_copy(&row);
                    assert(reversed@ =~= expected);
                    Ok(reversed)
                },
                None => Err(LayerError::MissingRow { layer: layers_back }),
            }
        },
        IA::InnerLast => {
            let required_index = match n.checked_sub(layers_back + 1) {
                Some(i) => i,
                None => {
                    return Err(LayerError::LayerUnderflow { layer: layers_back });
                },
            };
            let row = side.row(required_index).unwrap();
            let row = vstd::slice::slice_to_vec(row);
            assert(row@ =~= expected);
            Ok(row)
        },
    }
}

/// A copy of `values` in reverse order.
pub fn reversed_copy(values: &Vec<CubieFace>) -> (reversed: Vec<CubieFace>)
    ensures
        reversed@ == values@.reverse(),
{
    let mut reversed: Vec<CubieFace> = Vec::new();
    let mut i: usize = values.len();
    while i > 0
        invariant
            i <= values.len(),
            reversed.len() == values.len() - i,
            forall|j: int| 0 <= j < reversed.len() ==> #[trigger] reversed@[j] == values@[values.len()
                - 1 - j],
        decreases i,
    {
        i = i - 1;
        reversed.push(values[i]);
    }
    assert(reversed@ =~= values@.reverse());
    reversed
}

} // verus!
