use vstd::prelude::*;

verus! {

/// The character shown for a cubie that carries no custom display character.
pub const DEFAULT_CUBIE_CHAR: char = '■';

/// Representing a single tile on a single side of a cube.
///
/// Optionally contains a `char` that will be used instead of the default square char when rendering as text.
#[derive(Copy, Clone, Debug, PartialEq, Eq, Structural)]
pub enum CubieFace {
    /// Blue CubieFace is the default for the front face.
    Blue(Option<char>),
    /// Green CubieFace is the default for the back face.
    Green(Option<char>),
    /// Orange CubieFace is the default for the right face.
    Orange(Option<char>),
    /// Red CubieFace is the default for the left face.
    Red(Option<char>),
    /// White CubieFace is the default for the up face.
    White(Option<char>),
    /// Yellow CubieFace is the default for the down face.
    Yellow(Option<char>),
}

impl CubieFace {
    /// The custom display character of this cubie, if it has one.
    pub open spec fn custom_char(self) -> Option<char> {
        match self {
            CubieFace::Blue(c) => c,
            CubieFace::Green(c) => c,
            CubieFace::Orange(c) => c,
            CubieFace::Red(c) => c,
            CubieFace::White(c) => c,
            CubieFace::Yellow(c) => c,
        }
    }

    /// A cubie of the same colour as this one that carries `c` as its display character.
    pub open spec fn with_char(self, c: Option<char>) -> CubieFace {
        match self {
            CubieFace::Blue(_) => CubieFace::Blue(c),
            CubieFace::Green(_) => CubieFace::Green(c),
            CubieFace::Orange(_) => CubieFace::Orange(c),
            CubieFace::Red(_) => CubieFace::Red(c),
            CubieFace::White(_) => CubieFace::White(c),
            CubieFace::Yellow(_) => CubieFace::Yellow(c),
        }
    }

    /// Two cubies have the same colour.
    pub open spec fn same_colour(self, other: CubieFace) -> bool {
        self.with_char(None) == other.with_char(None)
    }

    /// The character used to display this cubie: its custom character, or the default square.
    pub open spec fn spec_display_char(self) -> char {
        match self.custom_char() {
            Some(c) => c,
            None => DEFAULT_CUBIE_CHAR,
        }
    }

    /// The red, green and blue components of this cubie's colour when shown on a terminal.
    pub open spec fn spec_rgb(self) -> (u8, u8, u8) {
        match self {
            CubieFace::Blue(_) => (0, 0, 255),
            CubieFace::Green(_) => (0, 255, 0),
            CubieFace::Orange(_) => (255, 127, 0),
            CubieFace::Red(_) => (255, 0, 0),
            CubieFace::White(_) => (255, 255, 255),
            CubieFace::Yellow(_) => (255, 255, 0),
        }
    }

    /// A cubie of the same colour as this one that carries `c` as its display character.
    pub fn recoloured_char(self, c: Option<char>) -> (res: CubieFace)
        ensures
            res == self.with_char(c),
    {
        match self {
            CubieFace::Blue(_) => CubieFace::Blue(c),
            CubieFace::Green(_) => CubieFace::Green(c),
            CubieFace::Orange(_) => CubieFace::Orange(c),
            CubieFace::Red(_) => CubieFace::Red(c),
            CubieFace::White(_) => CubieFace::White(c),
            CubieFace::Yellow(_) => CubieFace::Yellow(c),
        }
    }

    /// The character shown for this cubie: its custom display `char` if present, or the default square `char` if not.
    pub fn display_char(self) -> (c: char)
        ensures
            c == self.spec_display_char(),
    {
        match self {
            CubieFace::Blue(Some(c))
            | CubieFace::Green(Some(c))
            | CubieFace::Orange(Some(c))
            | CubieFace::Red(Some(c))
            | CubieFace::White(Some(c))
            | CubieFace::Yellow(Some(c)) => c,
            CubieFace::Blue(None)
            | CubieFace::Green(None)
            | CubieFace::Orange(None)
            | CubieFace::Red(None)
            | CubieFace::White(None)
            | CubieFace::Yellow(None) => DEFAULT_CUBIE_CHAR,
        }
    }

    /// The true-colour red, green and blue components used to colour this cubie on a terminal.
    pub fn rgb(self) -> (rgb: (u8, u8, u8))
        ensures
            rgb == self.spec_rgb(),
    {
        match self {
            CubieFace::Blue(_) => (0, 0, 255),
            CubieFace::Green(_) => (0, 255, 0),
            CubieFace::Orange(_) => (255, 127, 0),
            CubieFace::Red(_) => (255, 0, 0),
            CubieFace::White(_) => (255, 255, 255),
            CubieFace::Yellow(_) => (255, 255, 0),
        }
    }
}

} // verus!
