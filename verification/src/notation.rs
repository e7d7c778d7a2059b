use vstd::prelude::*;
use vstd::string::StrSliceExecFns;
use vstd::string::StringExecFns;

use super::cube::direction::Direction;
use super::cube::face::Face;
use super::cube::flat_side::LayerError;
use super::cube::{all_well_formed, sequence_outcome, PuzzleCube};
use super::cube::rotation::{Rotation, RotationKind};

/// The older notation of 3x3x3 cubes, turning whole faces only.
pub mod three_by_three;

verus! {

/// The character that marks an anticlockwise rotation.
pub const CHAR_FOR_ANTICLOCKWISE: char = '\'';

/// The character that marks a rotation made twice.
pub const CHAR_FOR_TURN_TWICE: char = '2';

/// The character that marks a rotation of several layers at once.
pub const CHAR_FOR_MULTI_LAYER: char = 'w';

/// What is wrong with a token of notation.
#[derive(Debug, Copy, Clone, PartialEq, Eq, Structural)]
pub enum NotationErrorKind {
    /// 'turn twice' should not be used as well as 'anticlockwise'.
    TurnTwiceWithAnticlockwise,
    /// The token has no face character.
    MissingFace,
    /// The face character is not one of `F`, `R`, `U`, `L`, `B` or `D`.
    InvalidFace(char),
    /// The number of layers before the face is not a whole number of at least 1.
    InvalidLayerCount(IntFault),
    /// One end of the range of layers before the face is not a whole number of at least 1.
    InvalidLayerRange(IntFault),
}

/// Why a count of layers is not a whole number of at least 1.
#[derive(Debug, Copy, Clone, PartialEq, Eq, Structural)]
pub enum IntFault {
    /// The count is empty.
    Empty,
    /// The count holds a character that is not a decimal digit.
    InvalidDigit,
    /// The count is too large for a `usize`.
    PosOverflow,
    /// The count is 0, and layers are counted from 1.
    Zero,
}

/// A token of notation could not be parsed.
#[derive(Debug, Clone, PartialEq, Eq)]
pub struct NotationError {
    /// What is wrong with the token.
    pub kind: NotationErrorKind,
    /// The token, as written.
    pub token: String,
    /// The part of the token that the fault lies in: the face character when it is not one,
    /// the count of layers when that is malformed, else nothing.
    pub detail: String,
}

/// The outcome of parsing a token, in the model: its rotations, or the fault in it.
pub enum TokenParse {
    Parsed(Seq<Rotation>),
    Fault(NotationErrorKind),
}

/// Rust's `char::is_whitespace`: the characters with the Unicode `White_Space` property.
pub open spec fn is_whitespace(c: char) -> bool {
    let u = c as u32;
    ||| 0x09 <= u <= 0x0D
    ||| u == 0x20
    ||| u == 0x85
    ||| u == 0xA0
    ||| u == 0x1680
    ||| 0x2000 <= u <= 0x200A
    ||| u == 0x2028
    ||| u == 0x2029
    ||| u == 0x202F
    ||| u == 0x205F
    ||| u == 0x3000
}

/// The number of characters before the first whitespace of `s`.
pub open spec fn word_len(s: Seq<char>) -> nat
    decreases s.len(),
{
    if s.len() == 0 || is_whitespace(s[0]) {
        0
    } else {
        1 + word_len(s.drop_first())
    }
}

/// A word is no longer than the text it starts.
pub proof fn lemma_word_len(s: Seq<char>)
    ensures
        word_len(s) <= s.len(),
        s.len() > 0 && !is_whitespace(s[0]) ==> word_len(s) >= 1,
    decreases s.len(),
{
    if s.len() > 0 && !is_whitespace(s[0]) {
        lemma_word_len(s.drop_first());
    }
}

/// The maximal runs of characters other than whitespace in `s`, in order, as
/// `str::split_whitespace` gives them.
pub open spec fn words(s: Seq<char>) -> Seq<Seq<char>>
    decreases s.len(),
{
    if s.len() == 0 {
        seq![]
    } else if is_whitespace(s[0]) {
        words(s.drop_first())
    } else {
        proof {
            lemma_word_len(s);
        }
        seq![s.take(word_len(s) as int)] + words(s.skip(word_len(s) as int))
    }
}

/// `s` without the whitespace at its start and at its end, as `str::trim` gives it.
pub open spec fn trimmed(s: Seq<char>) -> Seq<char>
    decreases s.len(),
{
    if s.len() == 0 {
        s
    } else if is_whitespace(s[0]) {
        trimmed(s.drop_first())
    } else if is_whitespace(s.last()) {
        trimmed(s.drop_last())
    } else {
        s
    }
}

/// `s` without a last character `c`, and whether it had one.
pub open spec fn strip_suffix_spec(s: Seq<char>, c: char) -> (Seq<char>, bool) {
    if s.len() > 0 && s.last() == c {
        (s.drop_last(), true)
    } else {
        (s, false)
    }
}

/// The face that a face character names.
pub open spec fn face_of_char(c: char) -> Option<Face> {
    if c == 'F' {
        Some(Face::Front)
    } else if c == 'R' {
        Some(Face::Right)
    } else if c == 'U' {
        Some(Face::Up)
    } else if c == 'L' {
        Some(Face::Left)
    } else if c == 'B' {
        Some(Face::Back)
    } else if c == 'D' {
        Some(Face::Down)
    } else {
        None
    }
}

/// The character that names a face.
pub open spec fn face_char(face: Face) -> char {
    match face {
        Face::Front => 'F',
        Face::Right => 'R',
        Face::Up => 'U',
        Face::Left => 'L',
        Face::Back => 'B',
        Face::Down => 'D',
    }
}

/// The value of a decimal digit character.
pub open spec fn digit_value(c: char) -> int {
    c as int - '0' as int
}

/// `s` is made of one or more decimal digits.
pub open spec fn all_digits(s: Seq<char>) -> bool {
    &&& s.len() > 0
    &&& forall|i: int| 0 <= i < s.len() ==> '0' <= #[trigger] s[i] <= '9'
}

/// The number that the decimal digits `s` write.
pub open spec fn digits_value(s: Seq<char>) -> nat
    decreases s.len(),
{
    if s.len() == 0 {
        0
    } else {
        (digits_value(s.drop_last()) * 10 + digit_value(s.last())) as nat
    }
}

/// What `str::parse::<usize>` gives: an optional `+` followed by decimal digits whose value
/// fits in a `usize`.
pub open spec fn parse_usize_spec(s: Seq<char>) -> Option<nat> {
    let digits = if s.len() > 0 && s[0] == '+' {
        s.drop_first()
    } else {
        s
    };
    if all_digits(digits) && digits_value(digits) <= usize::MAX {
        Some(digits_value(digits))
    } else {
        None
    }
}

/// The count of layers before a face: one layer index, or a range of them.
pub enum LayerCount {
    Single(nat),
    Range(nat, nat),
}

/// The outcome of parsing the count of layers before a face, in the model.
pub enum CountParse {
    NoCount,
    Count(LayerCount),
    Fault(NotationErrorKind),
}

/// The index of the first `-` in `s`, or its length when it has none.
pub open spec fn dash_index(s: Seq<char>) -> int
    decreases s.len(),
{
    if s.len() == 0 {
        0
    } else if s[0] == '-' {
        0
    } else {
        1 + dash_index(s.drop_first())
    }
}

/// Reading the digits `s` onto `value`, one at a time, as `str::parse::<usize>` does: the first
/// character that is not a digit, or the first digit that takes the number past `usize::MAX`,
/// decides the fault.
pub open spec fn digits_fault(s: Seq<char>, value: nat) -> IntFault
    decreases s.len(),
{
    if s.len() == 0 {
        IntFault::PosOverflow
    } else if !('0' <= s[0] <= '9') {
        IntFault::InvalidDigit
    } else if value * 10 + digit_value(s[0]) > usize::MAX {
        IntFault::PosOverflow
    } else {
        digits_fault(s.drop_first(), (value * 10 + digit_value(s[0])) as nat)
    }
}

/// Why `str::parse::<usize>` refuses `s`, when it does: empty text, a lone `+`, or the first
/// fault met reading the digits.
pub open spec fn usize_fault(s: Seq<char>) -> IntFault {
    if s.len() == 0 {
        IntFault::Empty
    } else if s[0] == '+' {
        if s.len() == 1 {
            IntFault::InvalidDigit
        } else {
            digits_fault(s.drop_first(), 0)
        }
    } else {
        digits_fault(s, 0)
    }
}

/// What parsing the count of layers before a face gives. A count is written counting from 1, so
/// the layer index is one less; a count of 0 names no layer and is refused.
pub open spec fn parse_count_spec(s: Seq<char>) -> CountParse {
    if s.len() == 0 {
        CountParse::NoCount
    } else {
        let d = dash_index(s);
        if d < s.len() {
            let left = s.take(d);
            let rest = s.skip(d + 1);
            let right = rest.take(dash_index(rest));
            match parse_usize_spec(left) {
                None => CountParse::Fault(NotationErrorKind::InvalidLayerRange(usize_fault(left))),
                Some(l) => if l == 0 {
                    CountParse::Fault(NotationErrorKind::InvalidLayerRange(IntFault::Zero))
                } else {
                    match parse_usize_spec(right) {
                        None => CountParse::Fault(NotationErrorKind::InvalidLayerRange(usize_fault(right))),
                        Some(r) => if r == 0 {
                            CountParse::Fault(NotationErrorKind::InvalidLayerRange(IntFault::Zero))
                        } else {
                            CountParse::Count(LayerCount::Range((l - 1) as nat, (r - 1) as nat))
                        },
                    }
                },
            }
        } else {
            match parse_usize_spec(s) {
                None => CountParse::Fault(NotationErrorKind::InvalidLayerCount(usize_fault(s))),
                Some(v) => if v == 0 {
                    CountParse::Fault(NotationErrorKind::InvalidLayerCount(IntFault::Zero))
                } else {
                    CountParse::Count(LayerCount::Single((v - 1) as nat))
                },
            }
        }
    }
}

/// The direction that the anticlockwise mark chooses.
pub open spec fn direction_of(anticlockwise: bool) -> Direction {
    if anticlockwise {
        Direction::Anticlockwise
    } else {
        Direction::Clockwise
    }
}

/// The rotation that a face, a direction mark, the multi-layer mark and a count of layers name.
pub open spec fn rotation_of(
    face: Face,
    anticlockwise: bool,
    multi_layer: bool,
    count: Option<LayerCount>,
) -> Rotation {
    let kind = match count {
        None => RotationKind::FaceOnly,
        Some(LayerCount::Single(layer)) => if multi_layer {
            RotationKind::Multilayer { layer: layer as usize }
        } else {
            RotationKind::Setback { layer: layer as usize }
        },
        Some(LayerCount::Range(start, end)) => RotationKind::MultiSetback {
            start_layer: start as usize,
            end_layer: end as usize,
        },
    };
    Rotation { relative_to: face, direction: direction_of(anticlockwise), kind }
}

/// What parsing one token of notation gives.
///
/// A token is an optional count of layers (`3`, or a range `2-4`), a face character, an
/// optional `w` for several layers at once, and an optional `2` (made twice) or `'`
/// (anticlockwise), but not both.
pub open spec fn parse_token_spec(written: Seq<char>) -> TokenParse {
    let token = trimmed(written);
    let (token, anticlockwise) = strip_suffix_spec(token, CHAR_FOR_ANTICLOCKWISE);
    let (token, turn_twice) = strip_suffix_spec(token, CHAR_FOR_TURN_TWICE);
    if anticlockwise && turn_twice {
        TokenParse::Fault(NotationErrorKind::TurnTwiceWithAnticlockwise)
    } else {
        let (token, multi_layer) = strip_suffix_spec(token, CHAR_FOR_MULTI_LAYER);
        if token.len() == 0 {
            TokenParse::Fault(NotationErrorKind::MissingFace)
        } else {
            match face_of_char(token.last()) {
                None => TokenParse::Fault(NotationErrorKind::InvalidFace(token.last())),
                Some(face) => {
                    let count = match parse_count_spec(token.drop_last()) {
                        CountParse::NoCount => if multi_layer {
                            Some(Some(LayerCount::Single(1)))
                        } else {
                            Some(None)
                        },
                        CountParse::Count(c) => Some(Some(c)),
                        _ => None,
                    };
                    match parse_count_spec(token.drop_last()) {
                        CountParse::Fault(kind) => TokenParse::Fault(kind),
                        _ => {
                            let rotation = rotation_of(face, anticlockwise, multi_layer, count->0);
                            if turn_twice {
                                TokenParse::Parsed(seq![rotation, rotation])
                            } else {
                                TokenParse::Parsed(seq![rotation])
                            }
                        },
                    }
                },
            }
        }
    }
}

/// What parsing the words of notation gives: every rotation of every word in order, or the
/// fault in the first word that has one together with that word.
pub open spec fn parse_words(ws: Seq<Seq<char>>) -> Result<Seq<Rotation>, (NotationErrorKind, Seq<char>)>
    decreases ws.len(),
{
    if ws.len() == 0 {
        Ok(seq![])
    } else {
        match parse_token_spec(ws[0]) {
            TokenParse::Parsed(rotations) => match parse_words(ws.drop_first()) {
                Ok(rest) => Ok(rotations + rest),
                Err(e) => Err(e),
            },
            TokenParse::Fault(kind) => Err((kind, ws[0])),
        }
    }
}

/// What parsing a sequence of notation gives.
pub open spec fn parse_sequence_spec(notation: Seq<char>) -> Result<Seq<Rotation>, (NotationErrorKind, Seq<char>)> {
    parse_words(words(notation))
}

/// The count of layers written before the face of a token: what is left of it once trimmed and
/// stripped of its marks and its face character.
pub open spec fn count_text(written: Seq<char>) -> Seq<char> {
    let token = trimmed(written);
    let token = strip_suffix_spec(token, CHAR_FOR_ANTICLOCKWISE).0;
    let token = strip_suffix_spec(token, CHAR_FOR_TURN_TWICE).0;
    let token = strip_suffix_spec(token, CHAR_FOR_MULTI_LAYER).0;
    if token.len() == 0 {
        token
    } else {
        token.drop_last()
    }
}

/// The fault lies in the count of layers.
pub open spec fn is_layer_fault(kind: NotationErrorKind) -> bool {
    kind is InvalidLayerCount || kind is InvalidLayerRange
}

/// The part of the token `written` that a fault of this kind lies in: the face character that
/// is not one, the count of layers that is malformed, or nothing.
pub open spec fn error_detail(kind: NotationErrorKind, written: Seq<char>) -> Seq<char> {
    match kind {
        NotationErrorKind::InvalidFace(c) => seq![c],
        NotationErrorKind::InvalidLayerCount(_) => count_text(written),
        NotationErrorKind::InvalidLayerRange(_) => count_text(written),
        _ => seq![],
    }
}

/// The characters of `s`, in order.
pub fn chars_of(s: &str) -> (chars: Vec<char>)
    ensures
        chars@ == s@,
{
    let mut chars: Vec<char> = Vec::new();
    for c in it: s.chars()
        invariant
            chars@ == it.seq().take(it.index() as int),
            it.seq() == s@,
    {
        chars.push(c);
    }
    chars
}

/// Rust's `char::is_whitespace`.
pub fn is_whitespace_char(c: char) -> (b: bool)
    ensures
        b == is_whitespace(c),
{
    let u = c as u32;
    (0x09 <= u && u <= 0x0D) || u == 0x20 || u == 0x85 || u == 0xA0 || u == 0x1680 || (0x2000 <= u
        && u <= 0x200A) || u == 0x2028 || u == 0x2029 || u == 0x202F || u == 0x205F || u == 0x3000
}

/// The face that a face character names.
pub fn face_from_char(c: char) -> (face: Option<Face>)
    ensures
        face == face_of_char(c),
{
    if c == 'F' {
        Some(Face::Front)
    } else if c == 'R' {
        Some(Face::Right)
    } else if c == 'U' {
        Some(Face::Up)
    } else if c == 'L' {
        Some(Face::Left)
    } else if c == 'B' {
        Some(Face::Back)
    } else if c == 'D' {
        Some(Face::Down)
    } else {
        None
    }
}

/// The bounds of `chars[start..end]` without the whitespace at either end.
fn trim_range(chars: &Vec<char>, start: usize, end: usize) -> (bounds: (usize, usize))
    requires
        start <= end <= chars.len(),
    ensures
        start <= bounds.0 <= bounds.1 <= end,
        chars@.subrange(bounds.0 as int, bounds.1 as int) == trimmed(
            chars@.subrange(start as int, end as int),
        ),
{
    let mut s = start;
    while s < end && is_whitespace_char(chars[s])
        invariant
            start <= s <= end <= chars.len(),
            trimmed(chars@.subrange(start as int, end as int)) == trimmed(
                chars@.subrange(s as int, end as int),
            ),
        decreases end - s,
    {
        assert(chars@.subrange(s as int, end as int).drop_first() =~= chars@.subrange(
            s + 1,
            end as int,
        ));
        s = s + 1;
    }
    let mut e = end;
    while e > s && is_whitespace_char(chars[e - 1])
        invariant
            start <= s <= e <= end <= chars.len(),
            s < e ==> !is_whitespace(chars@[s as int]),
            trimmed(chars@.subrange(start as int, end as int)) == trimmed(
                chars@.subrange(s as int, e as int),
            ),
        decreases e - s,
    {
        assert(chars@.subrange(s as int, e as int).drop_last() =~= chars@.subrange(
            s as int,
            e - 1,
        ));
        e = e - 1;
    }
    (s, e)
}

/// The number that `chars[start..end]` writes, as `str::parse::<usize>` reads it, or why it
/// writes none.
fn parse_usize_range(chars: &Vec<char>, start: usize, end: usize) -> (value: Result<usize, IntFault>)
    requires
        start <= end <= chars.len(),
    ensures
        match value {
            Ok(v) => parse_usize_spec(chars@.subrange(start as int, end as int)) == Some(v as nat),
            Err(f) => {
                &&& parse_usize_spec(chars@.subrange(start as int, end as int)) is None
                &&& f == usize_fault(chars@.subrange(start as int, end as int))
            },
        },
{
    let ghost whole = chars@.subrange(start as int, end as int);
    if start == end {
        return Err(IntFault::Empty);
    }
    let mut i = start;
    if chars[i] == '+' {
        if start + 1 == end {
            return Err(IntFault::InvalidDigit);
        }
        i = i + 1;
    }
    let first = i;
    let ghost digits = chars@.subrange(first as int, end as int);
    assert(digits == if whole.len() > 0 && whole[0] == '+' {
        whole.drop_first()
    } else {
        whole
    });
    assert(parse_usize_spec(whole) == if all_digits(digits) && digits_value(digits) <= usize::MAX {
        Some(digits_value(digits))
    } else {
        None
    });
    assert(usize_fault(whole) == digits_fault(digits, 0));
    assert(chars@.subrange(first as int, first as int) =~= Seq::<char>::empty());
    let mut value: usize = 0;
    while i < end
        invariant
            start <= first <= i <= end <= chars.len(),
            first < end,
            digits == chars@.subrange(first as int, end as int),
            whole == chars@.subrange(start as int, end as int),
            parse_usize_spec(whole) == if all_digits(digits) && digits_value(digits)
                <= usize::MAX {
                Some(digits_value(digits))
            } else {
                None
            },
            usize_fault(whole) == digits_fault(chars@.subrange(i as int, end as int), value as nat),
            forall|j: int| first <= j < i ==> '0' <= #[trigger] chars@[j] <= '9',
            value == digits_value(chars@.subrange(first as int, i as int)),
        decreases end - i,
    {
        let c = chars[i];
        let ghost rest = chars@.subrange(i as int, end as int);
        proof {
            assert(digits[i - first] == c);
            assert(rest[0] == c);
        }
        if !('0' <= c && c <= '9') {
            return Err(IntFault::InvalidDigit);
        }
        let d = (c as u32 - '0' as u32) as usize;
        proof {
            assert(chars@.subrange(first as int, i + 1).drop_last() =~= chars@.subrange(
                first as int,
                i as int,
            ));
            assert(chars@.subrange(first as int, i + 1).last() == c);
            assert(rest.drop_first() =~= chars@.subrange(i + 1, end as int));
        }
        let next = match value.checked_mul(10) {
            Some(v) => v.checked_add(d),
            None => None,
        };
        match next {
            Some(v) => {
                value = v;
            },
            None => {
                proof {
                    if all_digits(digits) {
                        lemma_digits_value_grows(digits, i + 1 - first);
                        assert(digits.take(i + 1 - first) =~= chars@.subrange(first as int, i + 1));
                    }
                }
                return Err(IntFault::PosOverflow);
            },
        }
        i = i + 1;
    }
    proof {
        assert(chars@.subrange(first as int, i as int) =~= digits);
    }
    Ok(value)
}

/// The value of a string of digits is at least the value of any of its prefixes.
pub proof fn lemma_digits_value_grows(s: Seq<char>, k: int)
    requires
        0 <= k <= s.len(),
        forall|i: int| 0 <= i < s.len() ==> '0' <= #[trigger] s[i] <= '9',
    ensures
        digits_value(s) >= digits_value(s.take(k)),
    decreases s.len(),
{
    if k < s.len() {
        let p = s.drop_last();
        assert forall|i: int| 0 <= i < p.len() implies '0' <= #[trigger] p[i] <= '9' by {
            assert(p[i] == s[i]);
        }
        lemma_digits_value_grows(p, k);
        assert(p.take(k) =~= s.take(k));
        assert(digit_value(s.last()) >= 0);
    } else {
        assert(s.take(k) =~= s);
    }
}

/// Dropping the last character of `chars[start..end]` leaves `chars[start..end - 1]`.
proof fn lemma_range_drop_last(chars: Seq<char>, start: int, end: int)
    requires
        0 <= start < end <= chars.len(),
    ensures
        chars.subrange(start, end).drop_last() == chars.subrange(start, end - 1),
        chars.subrange(start, end).last() == chars[end - 1],
{
    assert(chars.subrange(start, end).drop_last() =~= chars.subrange(start, end - 1));
}

/// Removes a last character `c` from the range `start..end` of `chars`.
fn strip_suffix_range(chars: &Vec<char>, start: usize, end: usize, c: char) -> (res: (usize, bool))
    requires
        start <= end <= chars.len(),
    ensures
        start <= res.0 <= end,
        (chars@.subrange(start as int, res.0 as int), res.1) == strip_suffix_spec(
            chars@.subrange(start as int, end as int),
            c,
        ),
{
    if end > start && chars[end - 1] == c {
        proof {
            lemma_range_drop_last(chars@, start as int, end as int);
        }
        (end - 1, true)
    } else {
        proof {
            if end > start {
                lemma_range_drop_last(chars@, start as int, end as int);
            }
        }
        (end, false)
    }
}

/// The index of the first `-` in `chars[start..end]`, or `end` when it has none.
fn dash_index_range(chars: &Vec<char>, start: usize, end: usize) -> (d: usize)
    requires
        start <= end <= chars.len(),
    ensures
        start <= d <= end,
        d - start == dash_index(chars@.subrange(start as int, end as int)),
{
    let mut k = start;
    while k < end && chars[k] != '-'
        invariant
            start <= k <= end <= chars.len(),
            dash_index(chars@.subrange(start as int, end as int)) == (k - start) + dash_index(
                chars@.subrange(k as int, end as int),
            ),
        decreases end - k,
    {
        assert(chars@.subrange(k as int, end as int).drop_first() =~= chars@.subrange(
            k + 1,
            end as int,
        ));
        k = k + 1;
    }
    k
}

/// The count of layers before a face, as parsed.
enum CountOutcome {
    NoCount,
    Single(usize),
    Range(usize, usize),
    Fault(NotationErrorKind),
}

/// The parsed count agrees with the model.
spec fn count_agrees(o: CountOutcome, p: CountParse) -> bool {
    match o {
        CountOutcome::NoCount => p is NoCount,
        CountOutcome::Single(l) => p == CountParse::Count(LayerCount::Single(l as nat)) && l
            < usize::MAX,
        CountOutcome::Range(a, b) => p == CountParse::Count(LayerCount::Range(a as nat, b as nat))
            && a < usize::MAX && b < usize::MAX,
        CountOutcome::Fault(kind) => p == CountParse::Fault(kind) && is_layer_fault(kind),
    }
}

/// Parses the count of layers written before a face, in `chars[start..end]`.
fn parse_count_range(chars: &Vec<char>, start: usize, end: usize) -> (o: CountOutcome)
    requires
        start <= end <= chars.len(),
    ensures
        count_agrees(o, parse_count_spec(chars@.subrange(start as int, end as int))),
{
    let ghost s = chars@.subrange(start as int, end as int);
    if start == end {
        return CountOutcome::NoCount;
    }
    let d = dash_index_range(chars, start, end);
    if d < end {
        let d2 = dash_index_range(chars, d + 1, end);
        proof {
            assert(s.take(d - start) =~= chars@.subrange(start as int, d as int));
            assert(s.skip(d - start + 1) =~= chars@.subrange(d + 1, end as int));
            assert(chars@.subrange(d + 1, end as int).take(d2 - (d + 1)) =~= chars@.subrange(
                d + 1,
                d2 as int,
            ));
        }
        match parse_usize_range(chars, start, d) {
            Err(f) => CountOutcome::Fault(NotationErrorKind::InvalidLayerRange(f)),
            Ok(l) => if l == 0 {
                CountOutcome::Fault(NotationErrorKind::InvalidLayerRange(IntFault::Zero))
            } else {
                match parse_usize_range(chars, d + 1, d2) {
                    Err(f) => CountOutcome::Fault(NotationErrorKind::InvalidLayerRange(f)),
                    Ok(r) => if r == 0 {
                        CountOutcome::Fault(NotationErrorKind::InvalidLayerRange(IntFault::Zero))
                    } else {
                        CountOutcome::Range(l - 1, r - 1)
                    },
                }
            },
        }
    } else {
        match parse_usize_range(chars, start, end) {
            Err(f) => CountOutcome::Fault(NotationErrorKind::InvalidLayerCount(f)),
            Ok(v) => if v == 0 {
                CountOutcome::Fault(NotationErrorKind::InvalidLayerCount(IntFault::Zero))
            } else {
                CountOutcome::Single(v - 1)
            },
        }
    }
}

/// The outcome of parsing one token: its rotations, or the fault in it with the bounds of the
/// part of the token that the fault lies in.
enum TokenOutcome {
    Parsed(Vec<Rotation>),
    Fault(NotationErrorKind, usize, usize),
}

/// The parsed token agrees with the model, and its rotations can be counted a layer further.
spec fn token_agrees(o: TokenOutcome, p: TokenParse) -> bool {
    match o {
        TokenOutcome::Parsed(v) => p == TokenParse::Parsed(v@) && all_well_formed(v@),
        TokenOutcome::Fault(kind, _, _) => p == TokenParse::Fault(kind),
    }
}

/// Parses the token `chars[start..end]`.
fn parse_token_range(chars: &Vec<char>, start: usize, end: usize) -> (o: TokenOutcome)
    requires
        start <= end <= chars.len(),
    ensures
        token_agrees(o, parse_token_spec(chars@.subrange(start as int, end as int))),
        o matches TokenOutcome::Fault(kind, a, b) ==> {
            &&& start <= a <= b <= end
            &&& chars@.subrange(a as int, b as int) == error_detail(
                kind,
                chars@.subrange(start as int, end as int),
            )
        },
{
    let (s, e) = trim_range(chars, start, end);
    let (e1, anticlockwise) = strip_suffix_range(chars, s, e, CHAR_FOR_ANTICLOCKWISE);
    let (e2, turn_twice) = strip_suffix_range(chars, s, e1, CHAR_FOR_TURN_TWICE);
    proof {
        assert(chars@.subrange(s as int, s as int) =~= Seq::<char>::empty());
    }
    if anticlockwise && turn_twice {
        return TokenOutcome::Fault(NotationErrorKind::TurnTwiceWithAnticlockwise, s, s);
    }
    let (e3, multi_layer) = strip_suffix_range(chars, s, e2, CHAR_FOR_MULTI_LAYER);
    if e3 == s {
        return TokenOutcome::Fault(NotationErrorKind::MissingFace, s, s);
    }
    let c = chars[e3 - 1];
    proof {
        lemma_range_drop_last(chars@, s as int, e3 as int);
        assert(chars@.subrange(e3 - 1, e3 as int) =~= seq![c]);
    }
    let face = match face_from_char(c) {
        None => {
            return TokenOutcome::Fault(NotationErrorKind::InvalidFace(c), e3 - 1, e3);
        },
        Some(face) => face,
    };
    let direction = if anticlockwise {
        Direction::Anticlockwise
    } else {
        Direction::Clockwise
    };
    let kind = match parse_count_range(chars, s, e3 - 1) {
        CountOutcome::NoCount => if multi_layer {
            RotationKind::Multilayer { layer: 1 }
        } else {
            RotationKind::FaceOnly
        },
        CountOutcome::Single(layer) => if multi_layer {
            RotationKind::Multilayer { layer }
        } else {
            RotationKind::Setback { layer }
        },
        CountOutcome::Range(start_layer, end_layer) => RotationKind::MultiSetback {
            start_layer,
            end_layer,
        },
        CountOutcome::Fault(kind) => {
            return TokenOutcome::Fault(kind, s, e3 - 1);
        },
    };
    let rotation = Rotation { relative_to: face, direction, kind };
    let mut rotations: Vec<Rotation> = Vec::new();
    rotations.push(rotation);
    if turn_twice {
        rotations.push(rotation);
    }
    proof {
        if turn_twice {
            assert(rotations@ =~= seq![rotation, rotation]);
        } else {
            assert(rotations@ =~= seq![rotation]);
        }
    }
    TokenOutcome::Parsed(rotations)
}

/// Parses one token of notation into the rotations it names: one, or the same one twice for a
/// token that ends in `2`.
///
/// # Errors
/// Returns an error naming the fault, the token and the part of it that the fault lies in,
/// when the token is malformed; a count of layers of `0` (`0F`, `0-2F`) names no layer and is
/// malformed.
pub fn parse_token(token: &str) -> (result: Result<Vec<Rotation>, NotationError>)
    ensures
        match parse_token_spec(token@) {
            TokenParse::Parsed(rotations) => result matches Ok(v) && v@ == rotations,
            TokenParse::Fault(kind) => result matches Err(e) && e.kind == kind && e.token@
                == token@ && e.detail@ == error_detail(kind, token@),
        },
        result matches Ok(v) ==> all_well_formed(v@),
{
    let chars = chars_of(token);
    proof {
        assert(chars@.subrange(0, chars@.len() as int) =~= chars@);
    }
    match parse_token_range(&chars, 0, chars.len()) {
        TokenOutcome::Parsed(rotations) => Ok(rotations),
        TokenOutcome::Fault(kind, a, b) => {
            let detail = token.substring_char(a, b);
            Err(NotationError { kind, token: String::from_str(token), detail: String::from_str(detail) })
        },
    }
}

/// The end of the word that starts at `start`: the first whitespace at or after it, or `end`.
fn word_end(chars: &Vec<char>, start: usize, end: usize) -> (j: usize)
    requires
        start < end <= chars.len(),
        !is_whitespace(chars@[start as int]),
    ensures
        start < j <= end,
        j - start == word_len(chars@.subrange(start as int, end as int)),
{
    let mut k = start;
    while k < end && !is_whitespace_char(chars[k])
        invariant
            start <= k <= end <= chars.len(),
            k == start ==> !is_whitespace(chars@[start as int]),
            word_len(chars@.subrange(start as int, end as int)) == (k - start) + word_len(
                chars@.subrange(k as int, end as int),
            ),
        decreases end - k,
    {
        assert(chars@.subrange(k as int, end as int).drop_first() =~= chars@.subrange(
            k + 1,
            end as int,
        ));
        k = k + 1;
    }
    k
}

/// `rotations` in front of what parsing the rest of the words gave.
pub open spec fn after(
    rotations: Seq<Rotation>,
    rest: Result<Seq<Rotation>, (NotationErrorKind, Seq<char>)>,
) -> Result<Seq<Rotation>, (NotationErrorKind, Seq<char>)> {
    match rest {
        Ok(more) => Ok(rotations + more),
        Err(e) => Err(e),
    }
}

/// The words of `chars[start..]` are the word that starts there and those after it.
proof fn lemma_words_at(chars: Seq<char>, start: int, j: int)
    requires
        0 <= start < j <= chars.len(),
        !is_whitespace(chars[start]),
        j - start == word_len(chars.subrange(start, chars.len() as int)),
    ensures
        words(chars.subrange(start, chars.len() as int)) == seq![chars.subrange(start, j)] + words(
            chars.subrange(j, chars.len() as int),
        ),
{
    let rest = chars.subrange(start, chars.len() as int);
    assert(rest[0] == chars[start]);
    assert(rest.take(j - start) =~= chars.subrange(start, j));
    assert(rest.skip(j - start) =~= chars.subrange(j, chars.len() as int));
}

/// The malformed token `start..end` of the notation, the fault in it and the bounds `a..b` of
/// the part of it that the fault lies in.
struct ScanStop {
    kind: NotationErrorKind,
    start: usize,
    end: usize,
    a: usize,
    b: usize,
}

/// Parses every word of `chars` in order.
fn scan_notation(chars: &Vec<char>) -> (res: Result<Vec<Rotation>, ScanStop>)
    ensures
        match res {
            Ok(v) => {
                &&& parse_sequence_spec(chars@) == Ok::<Seq<Rotation>, (NotationErrorKind, Seq<char>)>(v@)
                &&& all_well_formed(v@)
            },
            Err(stop) => {
                &&& stop.start <= stop.a <= stop.b <= stop.end <= chars.len()
                &&& parse_sequence_spec(chars@) == Err::<Seq<Rotation>, (NotationErrorKind, Seq<char>)>((stop.kind, chars@.subrange(stop.start as int, stop.end as int)))
                &&& chars@.subrange(stop.a as int, stop.b as int) == error_detail(
                    stop.kind,
                    chars@.subrange(stop.start as int, stop.end as int),
                )
            },
        },
{
    let n = chars.len();
    let mut acc: Vec<Rotation> = Vec::new();
    let mut i: usize = 0;
    proof {
        assert(chars@.subrange(0, n as int) =~= chars@);
        assert(acc@ + Seq::<Rotation>::empty() =~= acc@);
    }
    while i < n
        invariant
            i <= n == chars.len(),
            all_well_formed(acc@),
            parse_sequence_spec(chars@) == after(acc@, parse_words(words(chars@.subrange(i as int, n as int)))),
        decreases n - i,
    {
        if is_whitespace_char(chars[i]) {
            proof {
                let rest = chars@.subrange(i as int, n as int);
                assert(rest[0] == chars@[i as int]);
                assert(rest.drop_first() =~= chars@.subrange(i + 1, n as int));
            }
            i = i + 1;
        } else {
            let j = word_end(chars, i, n);
            let ghost ws = words(chars@.subrange(i as int, n as int));
            proof {
                lemma_words_at(chars@, i as int, j as int);
                assert(ws[0] == chars@.subrange(i as int, j as int));
                assert(ws.drop_first() =~= words(chars@.subrange(j as int, n as int)));
            }
            match parse_token_range(chars, i, j) {
                TokenOutcome::Parsed(mut rotations) => {
                    let ghost before = acc@;
                    let ghost token = rotations@;
                    acc.append(&mut rotations);
                    proof {
                        assert(acc@ == before + token);
                        assert forall|k: int| 0 <= k < acc@.len() implies #[trigger] acc@[k].well_formed() by {
                            if k >= before.len() {
                                assert(acc@[k] == token[k - before.len()]);
                            }
                        }
                        match parse_words(words(chars@.subrange(j as int, n as int))) {
                            Ok(more) => {
                                assert(before + (token + more) =~= (before + token) + more);
                            },
                            Err(_) => {},
                        }
                    }
                    i = j;
                },
                TokenOutcome::Fault(kind, a, b) => {
                    return Err(ScanStop { kind, start: i, end: j, a, b });
                },
            }
        }
    }
    proof {
        assert(chars@.subrange(n as int, n as int) =~= Seq::<char>::empty());
        assert(acc@ + Seq::<Rotation>::empty() =~= acc@);
    }
    Ok(acc)
}

/// Parse a sequence of moves, written as tokens separated by whitespace.
///
/// # Errors
/// Returns an error naming the fault, the token and the part of it that the fault lies in, for
/// the first malformed token; a count of layers of `0` (`0F`, `0-2F`) names no layer and is
/// malformed.
pub fn parse_sequence(notation: &str) -> (result: Result<Vec<Rotation>, NotationError>)
    ensures
        match parse_sequence_spec(notation@) {
            Ok(rotations) => result matches Ok(v) && v@ == rotations,
            Err((kind, token)) => result matches Err(e) && e.kind == kind && e.token@ == token
                && e.detail@ == error_detail(kind, token),
        },
        result matches Ok(v) ==> all_well_formed(v@),
{
    let chars = chars_of(notation);
    match scan_notation(&chars) {
        Ok(rotations) => Ok(rotations),
        Err(stop) => {
            let token = notation.substring_char(stop.start, stop.end);
            let detail = notation.substring_char(stop.a, stop.b);
            Err(NotationError { kind: stop.kind, token: String::from_str(token), detail: String::from_str(detail) })
        },
    }
}

/// The text of a fault in a count of layers: what `str::parse::<usize>` reports, or that the
/// count is 0 where layers are counted from 1.
pub open spec fn int_fault_text(f: IntFault) -> Seq<char> {
    match f {
        IntFault::Empty => "cannot parse integer from empty string"@,
        IntFault::InvalidDigit => "invalid digit found in string"@,
        IntFault::PosOverflow => "number too large to fit in target type"@,
        IntFault::Zero => "number would be zero for non-zero type"@,
    }
}

/// The message that tells what is wrong with the token `token`, quoting `detail`, the part of
/// it that the fault lies in; the cause follows the token on lines of its own.
pub open spec fn notation_message(kind: NotationErrorKind, token: Seq<char>, detail: Seq<char>) -> Seq<char> {
    let head = "failed parsing token: ["@ + token + "]"@;
    match kind {
        NotationErrorKind::TurnTwiceWithAnticlockwise => head
            + " as 'turn twice' should not be used as well as 'anticlockwise'"@,
        NotationErrorKind::MissingFace => head + "\n\nCaused by:\n    missing face character"@,
        NotationErrorKind::InvalidFace(_) => head + "\n\nCaused by:\n    invalid face character: ["@
            + detail + "]"@,
        NotationErrorKind::InvalidLayerCount(f) => head
            + "\n\nCaused by:\n    0: invalid multi-layer count: ["@ + detail + "]\n    1: "@
            + int_fault_text(f),
        NotationErrorKind::InvalidLayerRange(f) => head
            + "\n\nCaused by:\n    0: invalid multi-layer range: ["@ + detail + "]\n    1: "@
            + int_fault_text(f),
    }
}

impl IntFault {
    /// The text of this fault.
    pub fn text(&self) -> (text: &'static str)
        ensures
            text@ == int_fault_text(*self),
    {
        match self {
            IntFault::Empty => "cannot parse integer from empty string",
            IntFault::InvalidDigit => "invalid digit found in string",
            IntFault::PosOverflow => "number too large to fit in target type",
            IntFault::Zero => "number would be zero for non-zero type",
        }
    }
}

impl NotationError {
    /// The message that tells what is wrong with the token, such as
    /// `failed parsing token: [M]` followed by the cause, `invalid face character: [M]`.
    pub fn message(&self) -> (text: String)
        ensures
            text@ == notation_message(self.kind, self.token@, self.detail@),
    {
        let mut text = String::from_str("failed parsing token: [");
        text.append(self.token.as_str());
        text.append("]");
        match self.kind {
            NotationErrorKind::TurnTwiceWithAnticlockwise => {
                text.append(" as 'turn twice' should not be used as well as 'anticlockwise'");
            },
            NotationErrorKind::MissingFace => {
                text.append("\n\nCaused by:\n    missing face character");
            },
            NotationErrorKind::InvalidFace(_) => {
                text.append("\n\nCaused by:\n    invalid face character: [");
                text.append(self.detail.as_str());
                text.append("]");
            },
            NotationErrorKind::InvalidLayerCount(f) => {
                text.append("\n\nCaused by:\n    0: invalid multi-layer count: [");
                text.append(self.detail.as_str());
                text.append("]\n    1: ");
                text.append(f.text());
            },
            NotationErrorKind::InvalidLayerRange(f) => {
                text.append("\n\nCaused by:\n    0: invalid multi-layer range: [");
                text.append(self.detail.as_str());
                text.append("]\n    1: ");
                text.append(f.text());
            },
        }
        text
    }
}

/// Why performing notation on a cube failed.
#[derive(Debug, Clone, PartialEq, Eq)]
pub enum PerformError {
    /// The notation is malformed.
    Notation(NotationError),
    /// A rotation names a layer that the cube does not have.
    Layer(LayerError),
}

impl PerformError {
    /// The message that tells what went wrong: that of the malformed token, or of the missing
    /// layer.
    pub fn message(&self) -> (text: String)
        ensures
            text@ == match *self {
                PerformError::Notation(e) => notation_message(e.kind, e.token@, e.detail@),
                PerformError::Layer(e) => crate::cube::flat_side::layer_message(e),
            },
    {
        match self {
            PerformError::Notation(e) => e.message(),
            PerformError::Layer(e) => e.message(),
        }
    }
}

/// Perform a sequence of moves on a provided `PuzzleCube` instance, stopping at the first that
/// fails.
///
/// # Errors
/// Will return an `Err` variant when the input `sequence` references layers of the cube that the
/// given cube does not have e.g. 4Uw on a 3x3x3 cube.
///
/// If the given moves are intended for a larger cube than provided but only references faces
/// directly and not inner layers, or only references inner layers that are still within the size
/// of the cube, these will be applied without error.
pub fn perform_sequence<C: PuzzleCube>(sequence: Vec<Rotation>, cube: &mut C) -> (res: Result<
    (),
    LayerError,
>)
    requires
        old(cube).valid(),
        all_well_formed(sequence@),
    ensures
        final(cube).valid(),
        (final(cube).state(), res) == sequence_outcome(old(cube).state(), sequence@),
{
    let ghost s0 = cube.state();
    let mut i: usize = 0;
    assert(sequence@.skip(0) =~= sequence@);
    while i < sequence.len()
        invariant
            cube.valid(),
            s0 == old(cube).state(),
            i <= sequence.len(),
            all_well_formed(sequence@),
            sequence_outcome(s0, sequence@) == sequence_outcome(
                cube.state(),
                sequence@.skip(i as int),
            ),
        decreases sequence.len() - i,
    {
        proof {
            assert(sequence@.skip(i as int)[0] == sequence@[i as int]);
            assert(sequence@.skip(i as int).drop_first() =~= sequence@.skip(i + 1));
        }
        let step = cube.rotate(sequence[i]);
        if step.is_err() {
            return step;
        }
        i = i + 1;
    }
    proof {
        assert(sequence@.skip(i as int) =~= Seq::<Rotation>::empty());
    }
    Ok(())
}

/// Parse a sequence of moves and perform them on a provided `PuzzleCube` instance.
///
/// # Errors
/// Will return an `Err` variant when the input `notation` is malformed, leaving the cube as it
/// was, or references layers of the cube that the given cube does not have e.g. 4Uw on a 3x3x3
/// cube.
///
/// If the given moves are intended for a larger cube than provided but only references faces
/// directly and not inner layers, or only references inner layers that are still within the size
/// of the cube, these will be applied without error.
pub fn perform_notation<C: PuzzleCube>(notation: &str, cube: &mut C) -> (res: Result<(), PerformError>)
    requires
        old(cube).valid(),
    ensures
        final(cube).valid(),
        match parse_sequence_spec(notation@) {
            Err((kind, token)) => {
                &&& res matches Err(PerformError::Notation(e)) && e.kind == kind && e.token@ == token
                    && e.detail@ == error_detail(kind, token)
                &&& final(cube).state() == old(cube).state()
            },
            Ok(rotations) => {
                let outcome = sequence_outcome(old(cube).state(), rotations);
                &&& final(cube).state() == outcome.0
                &&& match outcome.1 {
                    Ok(()) => res is Ok,
                    Err(layer_error) => res == Err::<(), PerformError>(PerformError::Layer(layer_error)),
                }
            },
        },
{
    let sequence = match parse_sequence(notation) {
        Ok(sequence) => sequence,
        Err(e) => {
            return Err(PerformError::Notation(e));
        },
    };
    match perform_sequence(sequence, cube) {
        Ok(()) => Ok(()),
        Err(layer_error) => Err(PerformError::Layer(layer_error)),
    }
}

/// The character of a decimal digit.
pub open spec fn digit_char(d: nat) -> char {
    if d == 0 {
        '0'
    } else if d == 1 {
        '1'
    } else if d == 2 {
        '2'
    } else if d == 3 {
        '3'
    } else if d == 4 {
        '4'
    } else if d == 5 {
        '5'
    } else if d == 6 {
        '6'
    } else if d == 7 {
        '7'
    } else if d == 8 {
        '8'
    } else {
        '9'
    }
}

/// `n` written in decimal, without leading zeros.
pub open spec fn decimal(n: nat) -> Seq<char>
    decreases n,
{
    if n < 10 {
        seq![digit_char(n)]
    } else {
        decimal(n / 10).push(digit_char(n % 10))
    }
}

/// The count of layers written before the face of a rotation: none for the face alone or the
/// first layers, else one more than the index of the deepest layer, or of both ends of a range.
pub open spec fn count_notation(kind: RotationKind) -> Seq<char> {
    match kind {
        RotationKind::Multilayer { layer } => if layer > 1 {
            decimal((layer + 1) as nat)
        } else {
            seq![]
        },
        RotationKind::Setback { layer } => if layer > 0 {
            decimal((layer + 1) as nat)
        } else {
            seq![]
        },
        RotationKind::MultiSetback { start_layer, end_layer } => decimal((start_layer + 1) as nat)
            + seq!['-'] + decimal((end_layer + 1) as nat),
        RotationKind::FaceOnly => seq![],
    }
}

/// A rotation written in notation: its count of layers, its face, `w` when it turns more than
/// the face layer from the face, and `'` when it is anticlockwise.
pub open spec fn rotation_notation(r: Rotation) -> Seq<char> {
    let wide = match r.kind {
        RotationKind::Multilayer { layer } => layer > 0,
        _ => false,
    };
    count_notation(r.kind) + seq![face_char(r.relative_to)] + (if wide {
        seq![CHAR_FOR_MULTI_LAYER]
    } else {
        seq![]
    }) + (if r.direction == Direction::Anticlockwise {
        seq![CHAR_FOR_ANTICLOCKWISE]
    } else {
        seq![]
    })
}

/// The single digit `d` as text.
fn digit_text(d: usize) -> (text: &'static str)
    requires
        d < 10,
    ensures
        text@ == seq![digit_char(d as nat)],
{
    match d {
        0 => {
            proof {
                reveal_strlit("0");
            }
            "0"
        },
        1 => {
            proof {
                reveal_strlit("1");
            }
            "1"
        },
        2 => {
            proof {
                reveal_strlit("2");
            }
            "2"
        },
        3 => {
            proof {
                reveal_strlit("3");
            }
            "3"
        },
        4 => {
            proof {
                reveal_strlit("4");
            }
            "4"
        },
        5 => {
            proof {
                reveal_strlit("5");
            }
            "5"
        },
        6 => {
            proof {
                reveal_strlit("6");
            }
            "6"
        },
        7 => {
            proof {
                reveal_strlit("7");
            }
            "7"
        },
        8 => {
            proof {
                reveal_strlit("8");
            }
            "8"
        },
        _ => {
            proof {
                reveal_strlit("9");
            }
            "9"
        },
    }
}

/// Appends `n` in decimal to `out`.
pub(crate) fn append_decimal(out: &mut String, n: usize)
    ensures
        final(out)@ == old(out)@ + decimal(n as nat),
    decreases n,
{
    if n >= 10 {
        append_decimal(out, n / 10);
    }
    out.append(digit_text(n % 10));
    proof {
        if n >= 10 {
            assert(old(out)@ + decimal(n as nat) =~= old(out)@ + decimal((n / 10) as nat) + seq![
                digit_char((n % 10) as nat),
            ]);
        }
    }
}

/// The face character of `face` as text.
fn face_text(face: Face) -> (text: &'static str)
    ensures
        text@ == seq![face_char(face)],
{
    match face {
        Face::Front => {
            proof {
                reveal_strlit("F");
            }
            "F"
        },
        Face::Right => {
            proof {
                reveal_strlit("R");
            }
            "R"
        },
        Face::Up => {
            proof {
                reveal_strlit("U");
            }
            "U"
        },
        Face::Left => {
            proof {
                reveal_strlit("L");
            }
            "L"
        },
        Face::Back => {
            proof {
                reveal_strlit("B");
            }
            "B"
        },
        Face::Down => {
            proof {
                reveal_strlit("D");
            }
            "D"
        },
    }
}

impl Rotation {
    /// This rotation written in notation, such as `R`, `3Fw`, `4L'` or `3-6U'`.
    pub fn notation(&self) -> (text: String)
        requires
            self.well_formed(),
        ensures
            text@ == rotation_notation(*self),
    {
        let mut out = String::new();
        match self.kind {
            RotationKind::Multilayer { layer } => if layer > 1 {
                append_decimal(&mut out, layer + 1);
            },
            RotationKind::Setback { layer } => if layer > 0 {
                append_decimal(&mut out, layer + 1);
            },
            RotationKind::MultiSetback { start_layer, end_layer } => {
                append_decimal(&mut out, start_layer + 1);
                proof {
                    reveal_strlit("-");
                }
                out.append("-");
                append_decimal(&mut out, end_layer + 1);
            },
            RotationKind::FaceOnly => {},
        }
        assert(out@ =~= count_notation(self.kind));
        out.append(face_text(self.relative_to));
        let ghost with_face = out@;
        match self.kind {
            RotationKind::Multilayer { layer } => if layer > 0 {
                proof {
                    reveal_strlit("w");
                }
                out.append("w");
            },
            _ => {},
        }
        let ghost with_wide = out@;
        match self.direction {
            Direction::Anticlockwise => {
                proof {
                    reveal_strlit("'");
                }
                out.append("'");
            },
            Direction::Clockwise => {},
        }
        assert(out@ =~= rotation_notation(*self));
        out
    }
}

/// The rotation that parsing the notation of `r` gives back: `r` itself, but for a turn of the
/// face layer alone written as a count of layers, which reads back as a turn of the face.
pub open spec fn as_written(r: Rotation) -> Rotation {
    let kind = match r.kind {
        RotationKind::Multilayer { layer } => if layer == 0 {
            RotationKind::FaceOnly
        } else {
            r.kind
        },
        RotationKind::Setback { layer } => if layer == 0 {
            RotationKind::FaceOnly
        } else {
            r.kind
        },
        _ => r.kind,
    };
    Rotation { kind, ..r }
}

/// A character of decimal notation is neither whitespace nor a sign nor a dash.
pub open spec fn plain_digit(c: char) -> bool {
    '0' <= c <= '9'
}

/// A digit character is a digit, and its value is the digit.
proof fn lemma_digit_char(d: nat)
    requires
        d < 10,
    ensures
        '0' <= digit_char(d) <= '9',
        digit_value(digit_char(d)) == d,
{
}

/// The decimal notation of `n` is a non-empty run of digits whose value is `n`.
pub proof fn lemma_decimal(n: nat)
    ensures
        all_digits(decimal(n)),
        digits_value(decimal(n)) == n,
    decreases n,
{
    lemma_digit_char((n % 10) as nat);
    if n < 10 {
        assert(decimal(n).drop_last() =~= Seq::<char>::empty());
        assert(digits_value(Seq::<char>::empty()) == 0);
    } else {
        lemma_decimal(n / 10);
        let d = decimal(n);
        assert(d.drop_last() =~= decimal(n / 10));
        assert(d.last() == digit_char((n % 10) as nat));
        assert(n == (n / 10) * 10 + n % 10);
        assert(digits_value(d) == digits_value(decimal(n / 10)) * 10 + digit_value(d.last()));
        assert forall|i: int| 0 <= i < d.len() implies '0' <= #[trigger] d[i] <= '9' by {
            if i < d.len() - 1 {
                assert(d[i] == decimal(n / 10)[i]);
            }
        }
    }
}

/// A sequence without `-` has its first `-` at its end.
proof fn lemma_dash_index_none(s: Seq<char>)
    requires
        forall|i: int| 0 <= i < s.len() ==> #[trigger] s[i] != '-',
    ensures
        dash_index(s) == s.len(),
    decreases s.len(),
{
    if s.len() > 0 {
        let t = s.drop_first();
        assert forall|i: int| 0 <= i < t.len() implies #[trigger] t[i] != '-' by {
            assert(t[i] == s[i + 1]);
        }
        lemma_dash_index_none(t);
    }
}

/// In `a` followed by `-`, where `a` has no `-`, the first `-` is right after `a`.
proof fn lemma_dash_index_after(a: Seq<char>, b: Seq<char>)
    requires
        forall|i: int| 0 <= i < a.len() ==> #[trigger] a[i] != '-',
    ensures
        dash_index(a + seq!['-'] + b) == a.len(),
    decreases a.len(),
{
    let s = a + seq!['-'] + b;
    if a.len() > 0 {
        let t = a.drop_first();
        assert forall|i: int| 0 <= i < t.len() implies #[trigger] t[i] != '-' by {
            assert(t[i] == a[i + 1]);
        }
        lemma_dash_index_after(t, b);
        assert(s[0] == a[0]);
        assert(s.drop_first() =~= t + seq!['-'] + b);
    } else {
        assert(s[0] == '-');
    }
}

/// Reading back the decimal notation of a count gives the count.
proof fn lemma_parse_decimal(n: nat)
    requires
        n <= usize::MAX,
    ensures
        parse_usize_spec(decimal(n)) == Some(n),
        dash_index(decimal(n)) == decimal(n).len(),
        decimal(n).len() > 0,
        forall|i: int| 0 <= i < decimal(n).len() ==> plain_digit(#[trigger] decimal(n)[i]),
{
    lemma_decimal(n);
    let d = decimal(n);
    assert(d[0] != '+');
    assert forall|i: int| 0 <= i < d.len() implies #[trigger] d[i] != '-' by {
        assert('0' <= d[i] <= '9');
    }
    lemma_dash_index_none(d);
}

/// Parsing the count of layers in the notation of a rotation.
proof fn lemma_parse_count_notation(kind: RotationKind)
    requires
        kind.layers_below(usize::MAX as int),
    ensures
        parse_count_spec(count_notation(kind)) == (match kind {
            RotationKind::Multilayer { layer } => if layer > 1 {
                CountParse::Count(LayerCount::Single(layer as nat))
            } else {
                CountParse::NoCount
            },
            RotationKind::Setback { layer } => if layer > 0 {
                CountParse::Count(LayerCount::Single(layer as nat))
            } else {
                CountParse::NoCount
            },
            RotationKind::MultiSetback { start_layer, end_layer } => CountParse::Count(
                LayerCount::Range(start_layer as nat, end_layer as nat),
            ),
            RotationKind::FaceOnly => CountParse::NoCount,
        }),
        forall|i: int|
            0 <= i < count_notation(kind).len() ==> plain_digit(#[trigger] count_notation(kind)[i])
                || count_notation(kind)[i] == '-',
{
    match kind {
        RotationKind::Multilayer { layer } => {
            if layer > 1 {
                lemma_parse_decimal((layer + 1) as nat);
            }
        },
        RotationKind::Setback { layer } => {
            if layer > 0 {
                lemma_parse_decimal((layer + 1) as nat);
            }
        },
        RotationKind::MultiSetback { start_layer, end_layer } => {
            let a = decimal((start_layer + 1) as nat);
            let b = decimal((end_layer + 1) as nat);
            lemma_parse_decimal((start_layer + 1) as nat);
            lemma_parse_decimal((end_layer + 1) as nat);
            assert forall|i: int| 0 <= i < a.len() implies #[trigger] a[i] != '-' by {
                assert(plain_digit(a[i]));
            }
            lemma_dash_index_after(a, b);
            let c = a + seq!['-'] + b;
            assert(c.take(a.len() as int) =~= a);
            assert(c.skip(a.len() as int + 1) =~= b);
            assert(b.take(b.len() as int) =~= b);
            assert forall|i: int| 0 <= i < c.len() implies plain_digit(#[trigger] c[i]) || c[i]
                == '-' by {
                if i < a.len() {
                    assert(c[i] == a[i]);
                } else if i > a.len() {
                    assert(c[i] == b[i - a.len() - 1]);
                }
            }
        },
        RotationKind::FaceOnly => {},
    }
}

/// Writing a rotation in notation and parsing it back gives the rotation, with a turn of the
/// face layer alone that was written as a count of layers read back as a turn of the face.
#[verifier::spinoff_prover]
pub proof fn lemma_notation_round_trip(r: Rotation)
    requires
        r.well_formed(),
    ensures
        parse_token_spec(rotation_notation(r)) == TokenParse::Parsed(seq![as_written(r)]),
        plain_word(rotation_notation(r)),
{
    let c = count_notation(r.kind);
    let f = face_char(r.relative_to);
    let wide = match r.kind {
        RotationKind::Multilayer { layer } => layer > 0,
        _ => false,
    };
    let anti = r.direction == Direction::Anticlockwise;
    let w: Seq<char> = if wide {
        seq![CHAR_FOR_MULTI_LAYER]
    } else {
        seq![]
    };
    let a: Seq<char> = if anti {
        seq![CHAR_FOR_ANTICLOCKWISE]
    } else {
        seq![]
    };
    let token = rotation_notation(r);
    lemma_parse_count_notation(r.kind);
    assert(token == c + seq![f] + w + a);
    // The token has no whitespace at either end.
    assert(token.len() > 0);
    assert(!is_whitespace(token[0])) by {
        if c.len() > 0 {
            assert(token[0] == c[0]);
            assert(plain_digit(c[0]) || c[0] == '-');
        } else {
            assert(token[0] == f);
        }
    }
    assert(!is_whitespace(token.last()));
    assert(trimmed(token) == token);
    // Stripping the marks at its end.
    let with_wide = c + seq![f] + w;
    assert(strip_suffix_spec(token, CHAR_FOR_ANTICLOCKWISE) == (with_wide, anti)) by {
        if anti {
            assert(token.drop_last() =~= with_wide);
        } else {
            assert(token =~= with_wide);
        }
    }
    assert(with_wide.len() > 0 && with_wide.last() != CHAR_FOR_TURN_TWICE);
    assert(strip_suffix_spec(with_wide, CHAR_FOR_TURN_TWICE) == (with_wide, false));
    let with_face = c + seq![f];
    assert(strip_suffix_spec(with_wide, CHAR_FOR_MULTI_LAYER) == (with_face, wide)) by {
        if wide {
            assert(with_wide.drop_last() =~= with_face);
        } else {
            assert(with_wide =~= with_face);
        }
    }
    assert(with_face.last() == f);
    assert(with_face.drop_last() =~= c);
    assert(face_of_char(f) == Some(r.relative_to));
    assert forall|i: int| 0 <= i < token.len() implies !is_whitespace(#[trigger] token[i]) by {
        if i < c.len() {
            assert(token[i] == c[i]);
            assert(plain_digit(c[i]) || c[i] == '-');
        }
    }
}

/// Writing a rotation in notation and parsing it back as a sequence gives the one rotation, read
/// as `as_written` says.
pub proof fn lemma_notation_round_trip_sequence(r: Rotation)
    requires
        r.well_formed(),
    ensures
        parse_sequence_spec(rotation_notation(r)) == Ok::<Seq<Rotation>, (NotationErrorKind, Seq<char>)>(seq![as_written(r)]),
{
    let token = rotation_notation(r);
    lemma_notation_round_trip(r);
    lemma_words_plain(token);
    let ws = seq![token];
    assert(ws.drop_first() =~= Seq::<Seq<char>>::empty());
    assert(parse_words(Seq::<Seq<char>>::empty()) == Ok::<Seq<Rotation>, (NotationErrorKind, Seq<char>)>(seq![]));
    assert(seq![as_written(r)] + Seq::<Rotation>::empty() =~= seq![as_written(r)]);
}

/// A word of notation: one or more characters, none of them whitespace.
pub open spec fn plain_word(t: Seq<char>) -> bool {
    &&& t.len() > 0
    &&& forall|i: int| 0 <= i < t.len() ==> !is_whitespace(#[trigger] t[i])
}

/// The words `ts` written one after another with a space between each two.
pub open spec fn join_words(ts: Seq<Seq<char>>) -> Seq<char>
    decreases ts.len(),
{
    if ts.len() == 0 {
        seq![]
    } else if ts.len() == 1 {
        ts[0]
    } else {
        join_words(ts.drop_last()) + seq![' '] + ts.last()
    }
}

/// A word ends where the text after it starts with whitespace, or ends.
proof fn lemma_word_len_before_break(a: Seq<char>, b: Seq<char>)
    requires
        b.len() == 0 || is_whitespace(b[0]),
    ensures
        word_len(a + b) == word_len(a),
    decreases a.len(),
{
    if a.len() == 0 {
        assert(a + b =~= b);
    } else if !is_whitespace(a[0]) {
        assert((a + b).drop_first() =~= a.drop_first() + b);
        lemma_word_len_before_break(a.drop_first(), b);
    }
}

/// Splitting text at whitespace splits the words of it there.
pub proof fn lemma_words_concat(a: Seq<char>, b: Seq<char>)
    requires
        b.len() == 0 || is_whitespace(b[0]),
    ensures
        words(a + b) == words(a) + words(b),
    decreases a.len(),
{
    if a.len() == 0 {
        assert(a + b =~= b);
        assert(words(a) =~= Seq::<Seq<char>>::empty());
        assert(words(a) + words(b) =~= words(b));
    } else if is_whitespace(a[0]) {
        assert((a + b).drop_first() =~= a.drop_first() + b);
        lemma_words_concat(a.drop_first(), b);
    } else {
        lemma_word_len(a);
        lemma_word_len_before_break(a, b);
        let k = word_len(a) as int;
        assert((a + b).take(k) =~= a.take(k));
        assert((a + b).skip(k) =~= a.skip(k) + b);
        lemma_words_concat(a.skip(k), b);
        assert(words(a + b) =~= seq![a.take(k)] + (words(a.skip(k)) + words(b)));
    }
}

/// Parsing words one after another gives the rotations of the first words followed by those of
/// the rest, or the first fault.
proof fn lemma_parse_words_concat(a: Seq<Seq<char>>, b: Seq<Seq<char>>)
    ensures
        parse_words(a + b) == match parse_words(a) {
            Ok(x) => after(x, parse_words(b)),
            Err(e) => Err(e),
        },
    decreases a.len(),
{
    if a.len() == 0 {
        assert(a + b =~= b);
        match parse_words(b) {
            Ok(more) => {
                assert(Seq::<Rotation>::empty() + more =~= more);
            },
            Err(_) => {},
        }
    } else {
        assert((a + b)[0] == a[0]);
        assert((a + b).drop_first() =~= a.drop_first() + b);
        lemma_parse_words_concat(a.drop_first(), b);
        match parse_token_spec(a[0]) {
            TokenParse::Parsed(first) => match parse_words(a.drop_first()) {
                Ok(x) => match parse_words(b) {
                    Ok(more) => {
                        assert(first + (x + more) =~= (first + x) + more);
                    },
                    Err(_) => {},
                },
                Err(_) => {},
            },
            TokenParse::Fault(_) => {},
        }
    }
}

/// Parsing two texts of notation written one after the other with a space between them gives
/// the rotations of the first followed by those of the second, or the first malformed token,
/// looked for in the first text before the second.
pub proof fn lemma_parse_sequence_concat(a: Seq<char>, b: Seq<char>)
    ensures
        parse_sequence_spec(a + seq![' '] + b) == match parse_sequence_spec(a) {
            Ok(x) => after(x, parse_sequence_spec(b)),
            Err(e) => Err(e),
        },
{
    let tail = seq![' '] + b;
    assert(a + seq![' '] + b =~= a + tail);
    lemma_words_concat(a, tail);
    assert(tail.drop_first() =~= b);
    assert(words(tail) == words(b));
    lemma_parse_words_concat(words(a), words(b));
}

/// The words of a single plain word are that word.
proof fn lemma_words_plain(t: Seq<char>)
    requires
        plain_word(t),
    ensures
        words(t) == seq![t],
{
    assert(word_len(t) == t.len()) by {
        lemma_word_len_whole(t);
    }
    assert(t.take(t.len() as int) =~= t);
    assert(t.skip(t.len() as int) =~= Seq::<char>::empty());
    assert(!is_whitespace(t[0]));
    assert(words(Seq::<char>::empty()) =~= Seq::<Seq<char>>::empty());
    assert(words(t) =~= seq![t.take(t.len() as int)] + words(t.skip(t.len() as int)));
}

/// A text without whitespace is one word long.
proof fn lemma_word_len_whole(t: Seq<char>)
    requires
        forall|i: int| 0 <= i < t.len() ==> !is_whitespace(#[trigger] t[i]),
    ensures
        word_len(t) == t.len(),
    decreases t.len(),
{
    if t.len() > 0 {
        let u = t.drop_first();
        assert forall|i: int| 0 <= i < u.len() implies !is_whitespace(#[trigger] u[i]) by {
            assert(u[i] == t[i + 1]);
        }
        lemma_word_len_whole(u);
    }
}

/// Plain words joined by spaces split back into the same words.
pub proof fn lemma_words_of_joined(ts: Seq<Seq<char>>)
    requires
        forall|i: int| 0 <= i < ts.len() ==> plain_word(#[trigger] ts[i]),
    ensures
        words(join_words(ts)) == ts,
    decreases ts.len(),
{
    if ts.len() == 0 {
        assert(words(Seq::<char>::empty()) =~= Seq::<Seq<char>>::empty());
    } else if ts.len() == 1 {
        lemma_words_plain(ts[0]);
        assert(ts =~= seq![ts[0]]);
    } else {
        let init = ts.drop_last();
        assert forall|i: int| 0 <= i < init.len() implies plain_word(#[trigger] init[i]) by {
            assert(init[i] == ts[i]);
        }
        lemma_words_of_joined(init);
        let tail = seq![' '] + ts.last();
        lemma_words_concat(join_words(init), tail);
        assert(plain_word(ts[ts.len() - 1]));
        lemma_words_plain(ts.last());
        assert(tail.drop_first() =~= ts.last());
        assert(join_words(ts) =~= join_words(init) + tail);
        assert(words(tail) == words(ts.last()));
        assert(ts =~= init + seq![ts.last()]);
    }
}

} // verus!
