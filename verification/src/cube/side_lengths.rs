use vstd::prelude::*;

verus! {

/// A side length was refused.
#[derive(Debug, Copy, Clone, PartialEq, Eq, Structural)]
pub enum SideLengthError {
    /// A cube cannot have a side length of less than 1.
    TooSmall,
    /// A cube with unique display characters cannot have a side length of less than 1, nor one
    /// greater than 8, for which no unique characters can be found.
    OutsideUniqueCharsRange,
}

/// The message that tells why a side length was refused.
pub open spec fn side_length_message(e: SideLengthError) -> Seq<char> {
    match e {
        SideLengthError::TooSmall => "Cannot have a side length of less than 1"@,
        SideLengthError::OutsideUniqueCharsRange => "Cannot have a side length of less than 1, nor of greater than 8 when using unique display chars"@,
    }
}

impl SideLengthError {
    /// The message that tells why the side length was refused.
    pub fn message(&self) -> (text: &'static str)
        ensures
            text@ == side_length_message(*self),
    {
        match self {
            SideLengthError::TooSmall => "Cannot have a side length of less than 1",
            SideLengthError::OutsideUniqueCharsRange => "Cannot have a side length of less than 1, nor of greater than 8 when using unique display chars",
        }
    }
}

/// The largest side length for which every cubie of a colour gets its own visible character.
pub const MAX_UNIQUE_CHARS_SIDE_LENGTH: usize = 8;

/// A valid side length for a `Cube` that has no unique display chars.
///
/// The provided `side_length` here must be >= 1.
#[derive(Debug, Copy, Clone)]
pub struct SideLength(usize);

impl View for SideLength {
    type V = usize;

    closed spec fn view(&self) -> usize {
        self.0
    }
}

impl SideLength {
    /// What converting `side_length` gives: the side length itself when it is at least 1.
    pub closed spec fn checked(side_length: usize) -> Result<SideLength, SideLengthError> {
        if side_length >= 1 {
            Ok(SideLength(side_length))
        } else {
            Err(SideLengthError::TooSmall)
        }
    }

    /// Every side length that is held is at least 1.
    pub closed spec fn valid(&self) -> bool {
        self.0 >= 1
    }

    /// A held side length is at least 1.
    pub proof fn lemma_valid(&self)
        requires
            self.valid(),
        ensures
            self@ >= 1,
    {
    }

    /// The side length held.
    pub fn get(&self) -> (n: usize)
        ensures
            n == self@,
    {
        self.0
    }
}

impl TryFrom<usize> for SideLength {
    type Error = SideLengthError;

    fn try_from(side_length: usize) -> (res: Result<Self, Self::Error>)
        ensures
            res == SideLength::checked(side_length),
    {
        if side_length >= 1 {
            Ok(SideLength(side_length))
        } else {
            Err(SideLengthError::TooSmall)
        }
    }
}

impl vstd::std_specs::convert::TryFromSpecImpl<usize> for SideLength {
    open spec fn obeys_try_from_spec() -> bool {
        true
    }

    open spec fn try_from_spec(side_length: usize) -> Result<Self, Self::Error> {
        SideLength::checked(side_length)
    }
}

/// A side length is accepted exactly when it is at least 1, and is then held unchanged.
pub proof fn lemma_side_length_try_from(side_length: usize)
    ensures
        SideLength::checked(side_length) is Ok <==> side_length >= 1,
        match SideLength::checked(side_length) {
            Ok(s) => s@ == side_length && s.valid(),
            Err(e) => e == SideLengthError::TooSmall,
        },
{
}

impl From<SideLength> for usize {
    fn from(val: SideLength) -> (n: usize)
        ensures
            n == val@,
    {
        val.0
    }
}

impl vstd::std_specs::convert::FromSpecImpl<SideLength> for usize {
    open spec fn obeys_from_spec() -> bool {
        true
    }

    open spec fn from_spec(val: SideLength) -> usize {
        val@
    }
}

/// A valid side length for a `Cube` that has unique display chars.
///
/// The provided `side_length` here must be >=1 and <=8 to allow for unique, visible characters per cubie in the basic ascii range.
#[derive(Debug, Copy, Clone)]
pub struct UniqueCharsSideLength(usize);

impl View for UniqueCharsSideLength {
    type V = usize;

    closed spec fn view(&self) -> usize {
        self.0
    }
}

impl UniqueCharsSideLength {
    /// The largest side length that can be held.
    pub const MAX: usize = 8;

    /// What converting `side_length` gives: the side length itself when it is between 1 and 8.
    pub closed spec fn checked(side_length: usize) -> Result<UniqueCharsSideLength, SideLengthError> {
        if 1 <= side_length <= 8 {
            Ok(UniqueCharsSideLength(side_length))
        } else {
            Err(SideLengthError::OutsideUniqueCharsRange)
        }
    }

    /// Every side length that is held is between 1 and 8.
    pub closed spec fn valid(&self) -> bool {
        1 <= self.0 <= 8
    }

    /// A held side length is between 1 and 8.
    pub proof fn lemma_valid(&self)
        requires
            self.valid(),
        ensures
            1 <= self@ <= 8,
    {
    }

    /// The side length held.
    pub fn get(&self) -> (n: usize)
        ensures
            n == self@,
    {
        self.0
    }

    /// The largest side length that can be held, as a value.
    pub fn max() -> (s: UniqueCharsSideLength)
        ensures
            s@ == 8,
            s.valid(),
    {
        UniqueCharsSideLength(MAX_UNIQUE_CHARS_SIDE_LENGTH)
    }
}

impl TryFrom<usize> for UniqueCharsSideLength {
    type Error = SideLengthError;

    fn try_from(side_length: usize) -> (res: Result<Self, Self::Error>)
        ensures
            res == UniqueCharsSideLength::checked(side_length),
    {
        if 1 <= side_length && side_length <= MAX_UNIQUE_CHARS_SIDE_LENGTH {
            Ok(UniqueCharsSideLength(side_length))
        } else {
            Err(SideLengthError::OutsideUniqueCharsRange)
        }
    }
}

impl vstd::std_specs::convert::TryFromSpecImpl<usize> for UniqueCharsSideLength {
    open spec fn obeys_try_from_spec() -> bool {
        true
    }

    open spec fn try_from_spec(side_length: usize) -> Result<Self, Self::Error> {
        UniqueCharsSideLength::checked(side_length)
    }
}

/// A side length for unique characters is accepted exactly when it is between 1 and 8, and is
/// then held unchanged.
pub proof fn lemma_unique_chars_side_length_try_from(side_length: usize)
    ensures
        UniqueCharsSideLength::checked(side_length) is Ok <==> 1 <= side_length <= 8,
        match UniqueCharsSideLength::checked(side_length) {
            Ok(s) => s@ == side_length && s.valid(),
            Err(e) => e == SideLengthError::OutsideUniqueCharsRange,
        },
{
}

impl From<UniqueCharsSideLength> for usize {
    fn from(val: UniqueCharsSideLength) -> (n: usize)
        ensures
            n == val@,
    {
        val.0
    }
}

impl vstd::std_specs::convert::FromSpecImpl<UniqueCharsSideLength> for usize {
    open spec fn obeys_from_spec() -> bool {
        true
    }

    open spec fn from_spec(val: UniqueCharsSideLength) -> usize {
        val@
    }
}

} // verus!
