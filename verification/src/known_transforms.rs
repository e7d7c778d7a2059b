use vstd::prelude::*;
use vstd::string::StringExecFns;

use crate::cube::face::Face;
use crate::cube::flat_side::LayerError;
use crate::cube::rotation::{Rotation, RotationKind};
use crate::cube::{all_fit, all_well_formed, lemma_sequence_outcome, sequence_outcome, Cube, PuzzleCube};
use crate::notation::{
    face_char, face_of_char, is_whitespace, join_words, lemma_words_of_joined,
    parse_count_spec, parse_sequence, parse_sequence_spec, parse_token_spec, parse_words,
    perform_sequence, plain_word, strip_suffix_spec, trimmed, NotationErrorKind,
};

verus! {

/// A collection of pre-defined sequences that can be applied to `PuzzleCube` instances to achieve visually pleasing patterns.
#[derive(Debug, Copy, Clone, PartialEq, Eq, Structural)]
pub enum KnownTransform {
    /// Turns a 3x3x3 cube into a checkerboard.
    ///
    /// This can be applied to any cube size, but will pretend the cube is a 3x3x3.
    CheckerboardCorners3x3x3,
    /// Puts a cross (plus sign) on each side of a 3x3x3 cube.
    ///
    /// This can be applied to any cube size, but will pretend the cube is a 3x3x3.
    Crosses3x3x3,
    /// Turns a 3x3x3 cube into 3 nested cubes (cube within a cube within a cube).
    ///
    /// This can be applied to any cube size, but will pretend the cube is a 3x3x3.
    NestedCube3x3x3,
    /// Turns a 4x4x4 cube into 4 nested cubes (cube within a cube within a cube within a cube).
    ///
    /// This can be applied to any cube that is 4x4x4 or larger, but will not have the desired effect on cubes larger than 4x4x4.
    NestedCube4x4x4,
}

/// The token `t` parses into rotations that turn only layers below `bound`.
pub open spec fn token_fits(t: Seq<char>, bound: int) -> bool {
    &&& parse_token_spec(t) is Parsed
    &&& forall|j: int|
        0 <= j < parse_token_spec(t)->Parsed_0.len() ==> (#[trigger] parse_token_spec(
            t,
        )->Parsed_0[j]).kind.layers_below(bound)
}

/// A token made of a face character, then `w` when `wide`, then `'` when `anti` or `2` when
/// `twice`.
pub open spec fn plain_token(face: Face, wide: bool, anti: bool, twice: bool) -> Seq<char> {
    seq![face_char(face)] + (if wide {
        seq!['w']
    } else {
        seq![]
    }) + (if anti {
        seq!['\'']
    } else {
        seq![]
    }) + (if twice {
        seq!['2']
    } else {
        seq![]
    })
}

/// A token of a face, `w`, and a mark parses into the turn of the face layer, or of the first
/// two layers when it has `w`, once or twice.
proof fn lemma_plain_token(face: Face, wide: bool, anti: bool, twice: bool)
    requires
        !(anti && twice),
    ensures
        plain_word(plain_token(face, wide, anti, twice)),
        forall|b: int| b >= (if wide { 2int } else { 1int }) ==> #[trigger] token_fits(plain_token(face, wide, anti, twice), b),
        parse_token_spec(plain_token(face, wide, anti, twice)) is Parsed,
        parse_token_spec(plain_token(face, wide, anti, twice))->Parsed_0.len() > 0,
        parse_token_spec(plain_token(face, wide, anti, twice))->Parsed_0[0].kind == if wide {
            RotationKind::Multilayer { layer: 1 }
        } else {
            RotationKind::FaceOnly
        },
{
    let t = plain_token(face, wide, anti, twice);
    let f = seq![face_char(face)];
    let fw = f + (if wide {
        seq!['w']
    } else {
        seq![]
    });
    assert(t[0] == face_char(face));
    assert forall|i: int| 0 <= i < t.len() implies !is_whitespace(#[trigger] t[i]) by {
        if i > 0 {
            assert(t[i] == 'w' || t[i] == '\'' || t[i] == '2');
        }
    }
    assert(trimmed(t) == t);
    assert(strip_suffix_spec(t, '\'') == (f + (if wide { seq!['w'] } else { seq![] }) + (if twice { seq!['2'] } else { seq![] }), anti)) by {
        if anti {
            assert(t.drop_last() =~= fw);
            assert(fw + Seq::<char>::empty() =~= fw);
        } else {
            assert(t =~= fw + (if twice { seq!['2'] } else { seq![] }));
        }
    }
    let after_anti = fw + (if twice { seq!['2'] } else { seq![] });
    assert(strip_suffix_spec(after_anti, '2') == (fw, twice)) by {
        if twice {
            assert(after_anti.drop_last() =~= fw);
        } else {
            assert(after_anti =~= fw);
        }
    }
    assert(strip_suffix_spec(fw, 'w') == (f, wide)) by {
        if wide {
            assert(fw.drop_last() =~= f);
        } else {
            assert(fw =~= f);
        }
    }
    assert(f.drop_last() =~= Seq::<char>::empty());
    assert(face_of_char(face_char(face)) == Some(face));
    assert(parse_count_spec(Seq::<char>::empty()) is NoCount);
}

/// Every token that a known transform is written with is a plain word that parses into turns
/// of at most the first two layers from a face, and of the face layer alone without `w`.
proof fn lemma_known_tokens()
    ensures
        plain_word("B"@),
        forall|b: int| b >= 1 ==> #[trigger] token_fits("B"@, b),
        plain_word("B'"@),
        forall|b: int| b >= 1 ==> #[trigger] token_fits("B'"@, b),
        plain_word("B2"@),
        forall|b: int| b >= 1 ==> #[trigger] token_fits("B2"@, b),
        plain_word("D"@),
        forall|b: int| b >= 1 ==> #[trigger] token_fits("D"@, b),
        plain_word("D'"@),
        forall|b: int| b >= 1 ==> #[trigger] token_fits("D'"@, b),
        plain_word("D2"@),
        forall|b: int| b >= 1 ==> #[trigger] token_fits("D2"@, b),
        plain_word("Dw"@),
        forall|b: int| b >= 2 ==> #[trigger] token_fits("Dw"@, b),
        plain_word("Dw2"@),
        forall|b: int| b >= 2 ==> #[trigger] token_fits("Dw2"@, b),
        plain_word("F"@),
        forall|b: int| b >= 1 ==> #[trigger] token_fits("F"@, b),
        plain_word("F'"@),
        forall|b: int| b >= 1 ==> #[trigger] token_fits("F'"@, b),
        plain_word("F2"@),
        forall|b: int| b >= 1 ==> #[trigger] token_fits("F2"@, b),
        plain_word("Fw"@),
        forall|b: int| b >= 2 ==> #[trigger] token_fits("Fw"@, b),
        plain_word("Fw2"@),
        forall|b: int| b >= 2 ==> #[trigger] token_fits("Fw2"@, b),
        plain_word("L"@),
        forall|b: int| b >= 1 ==> #[trigger] token_fits("L"@, b),
        plain_word("L'"@),
        forall|b: int| b >= 1 ==> #[trigger] token_fits("L'"@, b),
        plain_word("L2"@),
        forall|b: int| b >= 1 ==> #[trigger] token_fits("L2"@, b),
        plain_word("Lw"@),
        forall|b: int| b >= 2 ==> #[trigger] token_fits("Lw"@, b),
        plain_word("Lw2"@),
        forall|b: int| b >= 2 ==> #[trigger] token_fits("Lw2"@, b),
        plain_word("R"@),
        forall|b: int| b >= 1 ==> #[trigger] token_fits("R"@, b),
        plain_word("R'"@),
        forall|b: int| b >= 1 ==> #[trigger] token_fits("R'"@, b),
        plain_word("R2"@),
        forall|b: int| b >= 1 ==> #[trigger] token_fits("R2"@, b),
        plain_word("Rw'"@),
        forall|b: int| b >= 2 ==> #[trigger] token_fits("Rw'"@, b),
        plain_word("Rw2"@),
        forall|b: int| b >= 2 ==> #[trigger] token_fits("Rw2"@, b),
        plain_word("U"@),
        forall|b: int| b >= 1 ==> #[trigger] token_fits("U"@, b),
        plain_word("U'"@),
        forall|b: int| b >= 1 ==> #[trigger] token_fits("U'"@, b),
        plain_word("U2"@),
        forall|b: int| b >= 1 ==> #[trigger] token_fits("U2"@, b),
        plain_word("Uw"@),
        forall|b: int| b >= 2 ==> #[trigger] token_fits("Uw"@, b),
        plain_word("Uw'"@),
        forall|b: int| b >= 2 ==> #[trigger] token_fits("Uw'"@, b),
{
    assert(plain_word("B"@) && forall|b: int| b >= 1 ==> #[trigger] token_fits("B"@, b)) by {
        reveal_strlit("B");
        assert("B"@ =~= plain_token(Face::Back, false, false, false));
        lemma_plain_token(Face::Back, false, false, false);
    }
    assert(plain_word("B'"@) && forall|b: int| b >= 1 ==> #[trigger] token_fits("B'"@, b)) by {
        reveal_strlit("B'");
        assert("B'"@ =~= plain_token(Face::Back, false, true, false));
        lemma_plain_token(Face::Back, false, true, false);
    }
    assert(plain_word("B2"@) && forall|b: int| b >= 1 ==> #[trigger] token_fits("B2"@, b)) by {
        reveal_strlit("B2");
        assert("B2"@ =~= plain_token(Face::Back, false, false, true));
        lemma_plain_token(Face::Back, false, false, true);
    }
    assert(plain_word("D"@) && forall|b: int| b >= 1 ==> #[trigger] token_fits("D"@, b)) by {
        reveal_strlit("D");
        assert("D"@ =~= plain_token(Face::Down, false, false, false));
        lemma_plain_token(Face::Down, false, false, false);
    }
    assert(plain_word("D'"@) && forall|b: int| b >= 1 ==> #[trigger] token_fits("D'"@, b)) by {
        reveal_strlit("D'");
        assert("D'"@ =~= plain_token(Face::Down, false, true, false));
        lemma_plain_token(Face::Down, false, true, false);
    }
    assert(plain_word("D2"@) && forall|b: int| b >= 1 ==> #[trigger] token_fits("D2"@, b)) by {
        reveal_strlit("D2");
        assert("D2"@ =~= plain_token(Face::Down, false, false, true));
        lemma_plain_token(Face::Down, false, false, true);
    }
    assert(plain_word("Dw"@) && forall|b: int| b >= 2 ==> #[trigger] token_fits("Dw"@, b)) by {
        reveal_strlit("Dw");
        assert("Dw"@ =~= plain_token(Face::Down, true, false, false));
        lemma_plain_token(Face::Down, true, false, false);
    }
    assert(plain_word("Dw2"@) && forall|b: int| b >= 2 ==> #[trigger] token_fits("Dw2"@, b)) by {
        reveal_strlit("Dw2");
        assert("Dw2"@ =~= plain_token(Face::Down, true, false, true));
        lemma_plain_token(Face::Down, true, false, true);
    }
    assert(plain_word("F"@) && forall|b: int| b >= 1 ==> #[trigger] token_fits("F"@, b)) by {
        reveal_strlit("F");
        assert("F"@ =~= plain_token(Face::Front, false, false, false));
        lemma_plain_token(Face::Front, false, false, false);
    }
    assert(plain_word("F'"@) && forall|b: int| b >= 1 ==> #[trigger] token_fits("F'"@, b)) by {
        reveal_strlit("F'");
        assert("F'"@ =~= plain_token(Face::Front, false, true, false));
        lemma_plain_token(Face::Front, false, true, false);
    }
    assert(plain_word("F2"@) && forall|b: int| b >= 1 ==> #[trigger] token_fits("F2"@, b)) by {
        reveal_strlit("F2");
        assert("F2"@ =~= plain_token(Face::Front, false, false, true));
        lemma_plain_token(Face::Front, false, false, true);
    }
    assert(plain_word("Fw"@) && forall|b: int| b >= 2 ==> #[trigger] token_fits("Fw"@, b)) by {
        reveal_strlit("Fw");
        assert("Fw"@ =~= plain_token(Face::Front, true, false, false));
        lemma_plain_token(Face::Front, true, false, false);
    }
    assert(plain_word("Fw2"@) && forall|b: int| b >= 2 ==> #[trigger] token_fits("Fw2"@, b)) by {
        reveal_strlit("Fw2");
        assert("Fw2"@ =~= plain_token(Face::Front, true, false, true));
        lemma_plain_token(Face::Front, true, false, true);
    }
    assert(plain_word("L"@) && forall|b: int| b >= 1 ==> #[trigger] token_fits("L"@, b)) by {
        reveal_strlit("L");
        assert("L"@ =~= plain_token(Face::Left, false, false, false));
        lemma_plain_token(Face::Left, false, false, false);
    }
    assert(plain_word("L'"@) && forall|b: int| b >= 1 ==> #[trigger] token_fits("L'"@, b)) by {
        reveal_strlit("L'");
        assert("L'"@ =~= plain_token(Face::Left, false, true, false));
        lemma_plain_token(Face::Left, false, true, false);
    }
    assert(plain_word("L2"@) && forall|b: int| b >= 1 ==> #[trigger] token_fits("L2"@, b)) by {
        reveal_strlit("L2");
        assert("L2"@ =~= plain_token(Face::Left, false, false, true));
        lemma_plain_token(Face::Left, false, false, true);
    }
    assert(plain_word("Lw"@) && forall|b: int| b >= 2 ==> #[trigger] token_fits("Lw"@, b)) by {
        reveal_strlit("Lw");
        assert("Lw"@ =~= plain_token(Face::Left, true, false, false));
        lemma_plain_token(Face::Left, true, false, false);
    }
    assert(plain_word("Lw2"@) && forall|b: int| b >= 2 ==> #[trigger] token_fits("Lw2"@, b)) by {
        reveal_strlit("Lw2");
        assert("Lw2"@ =~= plain_token(Face::Left, true, false, true));
        lemma_plain_token(Face::Left, true, false, true);
    }
    assert(plain_word("R"@) && forall|b: int| b >= 1 ==> #[trigger] token_fits("R"@, b)) by {
        reveal_strlit("R");
        assert("R"@ =~= plain_token(Face::Right, false, false, false));
        lemma_plain_token(Face::Right, false, false, false);
    }
    assert(plain_word("R'"@) && forall|b: int| b >= 1 ==> #[trigger] token_fits("R'"@, b)) by {
        reveal_strlit("R'");
        assert("R'"@ =~= plain_token(Face::Right, false, true, false));
        lemma_plain_token(Face::Right, false, true, false);
    }
    assert(plain_word("R2"@) && forall|b: int| b >= 1 ==> #[trigger] token_fits("R2"@, b)) by {
        reveal_strlit("R2");
        assert("R2"@ =~= plain_token(Face::Right, false, false, true));
        lemma_plain_token(Face::Right, false, false, true);
    }
    assert(plain_word("Rw'"@) && forall|b: int| b >= 2 ==> #[trigger] token_fits("Rw'"@, b)) by {
        reveal_strlit("Rw'");
        assert("Rw'"@ =~= plain_token(Face::Right, true, true, false));
        lemma_plain_token(Face::Right, true, true, false);
    }
    assert(plain_word("Rw2"@) && forall|b: int| b >= 2 ==> #[trigger] token_fits("Rw2"@, b)) by {
        reveal_strlit("Rw2");
        assert("Rw2"@ =~= plain_token(Face::Right, true, false, true));
        lemma_plain_token(Face::Right, true, false, true);
    }
    assert(plain_word("U"@) && forall|b: int| b >= 1 ==> #[trigger] token_fits("U"@, b)) by {
        reveal_strlit("U");
        assert("U"@ =~= plain_token(Face::Up, false, false, false));
        lemma_plain_token(Face::Up, false, false, false);
    }
    assert(plain_word("U'"@) && forall|b: int| b >= 1 ==> #[trigger] token_fits("U'"@, b)) by {
        reveal_strlit("U'");
        assert("U'"@ =~= plain_token(Face::Up, false, true, false));
        lemma_plain_token(Face::Up, false, true, false);
    }
    assert(plain_word("U2"@) && forall|b: int| b >= 1 ==> #[trigger] token_fits("U2"@, b)) by {
        reveal_strlit("U2");
        assert("U2"@ =~= plain_token(Face::Up, false, false, true));
        lemma_plain_token(Face::Up, false, false, true);
    }
    assert(plain_word("Uw"@) && forall|b: int| b >= 2 ==> #[trigger] token_fits("Uw"@, b)) by {
        reveal_strlit("Uw");
        assert("Uw"@ =~= plain_token(Face::Up, true, false, false));
        lemma_plain_token(Face::Up, true, false, false);
    }
    assert(plain_word("Uw'"@) && forall|b: int| b >= 2 ==> #[trigger] token_fits("Uw'"@, b)) by {
        reveal_strlit("Uw'");
        assert("Uw'"@ =~= plain_token(Face::Up, true, true, false));
        lemma_plain_token(Face::Up, true, true, false);
    }
}

/// No two of the rotations `rs` that turn opposite faces turn the same layer of a cube of side
/// length `n`: layer `a` from one face and layer `b` from the opposite one are the same layer
/// when `a + b == n - 1`.
pub open spec fn opposite_turns_apart(rs: Seq<Rotation>, n: int) -> bool {
    forall|i: int, j: int, a: int, b: int|
        0 <= i < rs.len() && 0 <= j < rs.len() && rs[j].relative_to == rs[i].relative_to.opposite()
            && #[trigger] rs[i].kind.turns_layer(a) && #[trigger] rs[j].kind.turns_layer(b) ==> a + b
            != n - 1
}

/// Rotations that turn only layers below `bound`, at least 1, keep turns of opposite faces apart
/// on a cube at least twice `bound` long.
proof fn lemma_apart_when_layers_below(rs: Seq<Rotation>, bound: int, n: int)
    requires
        all_fit(rs, bound),
        bound >= 1,
        n >= 2 * bound,
    ensures
        opposite_turns_apart(rs, n),
{
    assert forall|i: int, j: int, a: int, b: int|
        0 <= i < rs.len() && 0 <= j < rs.len() && rs[j].relative_to == rs[i].relative_to.opposite()
            && #[trigger] rs[i].kind.turns_layer(a) && #[trigger] rs[j].kind.turns_layer(b) implies a + b
        != n - 1 by {
        assert(rs[i].fits(bound));
        assert(rs[j].fits(bound));
    }
}

/// On a 3x3x3 cube, the turn of two layers from the left and that of two layers from the right,
/// both made by the nested cubes pattern for 4x4x4 cubes, meet in the middle layer.
#[verifier::spinoff_prover]
proof fn lemma_nested_cube_4_turns_meet_on_3()
    ensures
        !opposite_turns_apart(KnownTransform::NestedCube4x4x4.spec_sequence(), 3),
{
    let t = KnownTransform::NestedCube4x4x4;
    let ts = t.tokens();
    let rs = t.spec_sequence();
    t.lemma_notation_parses();
    t.lemma_tokens();
    lemma_words_of_joined(ts);
    reveal_strlit("Lw2");
    reveal_strlit("Rw2");
    assert("Lw2"@ =~= plain_token(Face::Left, true, false, true));
    assert("Rw2"@ =~= plain_token(Face::Right, true, false, true));
    lemma_plain_token(Face::Left, true, false, true);
    lemma_plain_token(Face::Right, true, false, true);
    lemma_word_rotation(ts, 1);
    lemma_word_rotation(ts, 3);
    let i = words_offset(ts, 1);
    let j = words_offset(ts, 3);
    assert(rs[i].kind.turns_layer(1));
    assert(rs[j].kind.turns_layer(1));
    assert(rs[j].relative_to == rs[i].relative_to.opposite());
}

/// How many rotations the first `i` of the words `ws` parse into.
pub open spec fn words_offset(ws: Seq<Seq<char>>, i: int) -> int
    decreases i,
{
    if i <= 0 || ws.len() == 0 {
        0
    } else {
        parse_token_spec(ws[0])->Parsed_0.len() + words_offset(ws.drop_first(), i - 1)
    }
}

/// Where the words `ws` parse, the first rotation of word `i` comes after the rotations of the
/// words before it.
proof fn lemma_word_rotation(ws: Seq<Seq<char>>, i: int)
    requires
        0 <= i < ws.len(),
        parse_words(ws) is Ok,
        parse_token_spec(ws[i]) is Parsed,
        parse_token_spec(ws[i])->Parsed_0.len() > 0,
    ensures
        0 <= words_offset(ws, i) < parse_words(ws)->Ok_0.len(),
        parse_words(ws)->Ok_0[words_offset(ws, i)] == parse_token_spec(ws[i])->Parsed_0[0],
    decreases i,
{
    let a = parse_token_spec(ws[0])->Parsed_0;
    let rest = ws.drop_first();
    assert(parse_token_spec(ws[0]) is Parsed);
    assert(parse_words(rest) is Ok);
    let more = parse_words(rest)->Ok_0;
    assert(parse_words(ws)->Ok_0 == a + more);
    if i > 0 {
        assert(rest[i - 1] == ws[i]);
        lemma_word_rotation(rest, i - 1);
        assert((a + more)[a.len() + words_offset(rest, i - 1)] == more[words_offset(rest, i - 1)]);
    }
}

/// Where the words `ws` parse, the rotations of the second word follow those of the first.
proof fn lemma_second_word_parsed(ws: Seq<Seq<char>>)
    requires
        ws.len() >= 2,
        parse_words(ws) is Ok,
        parse_token_spec(ws[0]) is Parsed,
        parse_token_spec(ws[1]) is Parsed,
        parse_token_spec(ws[1])->Parsed_0.len() > 0,
    ensures
        parse_words(ws)->Ok_0.len() > parse_token_spec(ws[0])->Parsed_0.len(),
        parse_words(ws)->Ok_0[parse_token_spec(ws[0])->Parsed_0.len() as int] == parse_token_spec(
            ws[1],
        )->Parsed_0[0],
{
    let a = parse_token_spec(ws[0])->Parsed_0;
    let b = parse_token_spec(ws[1])->Parsed_0;
    let rest = ws.drop_first();
    assert(rest[0] == ws[1]);
    let more = parse_words(rest.drop_first())->Ok_0;
    assert(parse_words(rest) is Ok);
    assert(parse_words(rest)->Ok_0 == b + more);
    assert(parse_words(ws)->Ok_0 == a + (b + more));
    assert((a + (b + more))[a.len() as int] == b[0]);
}

/// Words that each parse into turns of layers below `bound` parse, together, into turns of
/// layers below `bound`.
proof fn lemma_words_fit(ts: Seq<Seq<char>>, bound: int)
    requires
        forall|i: int| 0 <= i < ts.len() ==> #[trigger] token_fits(ts[i], bound),
    ensures
        parse_words(ts) is Ok,
        forall|j: int|
            0 <= j < parse_words(ts)->Ok_0.len() ==> (#[trigger] parse_words(ts)->Ok_0[j]).kind.layers_below(
                bound,
            ),
    decreases ts.len(),
{
    if ts.len() > 0 {
        let rest = ts.drop_first();
        assert forall|i: int| 0 <= i < rest.len() implies #[trigger] token_fits(rest[i], bound) by {
            assert(rest[i] == ts[i + 1]);
        }
        lemma_words_fit(rest, bound);
        assert(token_fits(ts[0], bound));
        let first = parse_token_spec(ts[0])->Parsed_0;
        let more = parse_words(rest)->Ok_0;
        assert(parse_words(ts)->Ok_0 == first + more);
        assert forall|j: int| 0 <= j < (first + more).len() implies (#[trigger] (first + more)[j]).kind.layers_below(bound) by {
            if j < first.len() {
                assert((first + more)[j] == first[j]);
            } else {
                assert((first + more)[j] == more[j - first.len()]);
            }
        }
    }
}

impl KnownTransform {
    /// Every known transform, in the order they are declared.
    pub fn all() -> (transforms: Vec<KnownTransform>)
        ensures
            transforms@ == seq![
                KnownTransform::CheckerboardCorners3x3x3,
                KnownTransform::Crosses3x3x3,
                KnownTransform::NestedCube3x3x3,
                KnownTransform::NestedCube4x4x4,
            ],
    {
        let mut transforms: Vec<KnownTransform> = Vec::new();
        transforms.push(KnownTransform::CheckerboardCorners3x3x3);
        transforms.push(KnownTransform::Crosses3x3x3);
        transforms.push(KnownTransform::NestedCube3x3x3);
        transforms.push(KnownTransform::NestedCube4x4x4);
        transforms
    }

    /// The short name of the transform.
    pub open spec fn name_text(self) -> Seq<char> {
        match self {
            KnownTransform::CheckerboardCorners3x3x3 => "Checkerboard Corners"@,
            KnownTransform::Crosses3x3x3 => "Crosses"@,
            KnownTransform::NestedCube3x3x3 => "Nested Cubes (3)"@,
            KnownTransform::NestedCube4x4x4 => "Nested Cubes (4)"@,
        }
    }

    /// A short name to represent what the transform does.
    pub fn name(&self) -> (name: String)
        ensures
            name@ == self.name_text(),
    {
        match self {
            KnownTransform::CheckerboardCorners3x3x3 => String::from_str("Checkerboard Corners"),
            KnownTransform::Crosses3x3x3 => String::from_str("Crosses"),
            KnownTransform::NestedCube3x3x3 => String::from_str("Nested Cubes (3)"),
            KnownTransform::NestedCube4x4x4 => String::from_str("Nested Cubes (4)"),
        }
    }

    /// The description of the transform.
    pub open spec fn description_text(self) -> Seq<char> {
        match self {
            KnownTransform::NestedCube4x4x4 => "Designed for 4x4x4 cubes, can run on any cube 4x4x4 or larger, but will not have the desired effect on cubes larger than 4x4x4"@,
            _ => "Designed for 3x3x3 cubes, can run on any size cube"@,
        }
    }

    /// A blurb to add extra information for users to better understand what the transform does.
    pub fn description(&self) -> (description: String)
        ensures
            description@ == self.description_text(),
    {
        match self {
            KnownTransform::NestedCube4x4x4 => String::from_str(
                "Designed for 4x4x4 cubes, can run on any cube 4x4x4 or larger, but will not have the desired effect on cubes larger than 4x4x4",
            ),
            _ => String::from_str("Designed for 3x3x3 cubes, can run on any size cube"),
        }
    }

    /// The smallest side length that the transform is designed for, where it has one.
    pub open spec fn spec_minimum_side_length(self) -> Option<usize> {
        match self {
            KnownTransform::NestedCube4x4x4 => Some(4),
            _ => None,
        }
    }

    /// Some transforms are invalid on too-small cube sizes. In such cases, the minimum valid cube size is given here.
    pub fn minimum_side_length(&self) -> (n: Option<usize>)
        ensures
            n == self.spec_minimum_side_length(),
            n is None <==> all_fit(self.spec_sequence(), 1),
            n matches Some(m) ==> forall|k: int| k >= m ==> #[trigger] all_fit(self.spec_sequence(), k),
            n matches Some(m) ==> forall|k: int| k >= m ==> #[trigger] opposite_turns_apart(self.spec_sequence(), k),
            n matches Some(m) ==> !opposite_turns_apart(self.spec_sequence(), m - 1),
    {
        proof {
            self.lemma_minimum_side_length_needed();
            self.lemma_minimum_side_length_keeps_opposite_turns_apart();
        }
        match self {
            KnownTransform::NestedCube4x4x4 => Some(4),
            _ => None,
        }
    }

    /// The smallest side length on which every rotation of the transform finds its layers: the
    /// transforms for 3x3x3 cubes turn faces only, the one for 4x4x4 cubes also the layer
    /// behind a face.
    pub open spec fn least_fitting_side_length(self) -> nat {
        match self {
            KnownTransform::NestedCube4x4x4 => 2,
            _ => 1,
        }
    }

    /// The tokens the transform is written with, in order.
    pub open spec fn tokens(self) -> Seq<Seq<char>> {
        match self {
            KnownTransform::CheckerboardCorners3x3x3 => seq!["R2"@, "L2"@, "F2"@, "B2"@, "U2"@, "D2"@],
            KnownTransform::Crosses3x3x3 => seq!["R2"@, "L'"@, "D"@, "F2"@, "R'"@, "D'"@, "R'"@, "L"@, "U'"@, "D"@, "R"@, "D"@, "B2"@, "R'"@, "U"@, "D2"@],
            KnownTransform::NestedCube3x3x3 => seq!["F"@, "R'"@, "U'"@, "F'"@, "U"@, "L'"@, "B"@, "U'"@, "B2"@, "U'"@, "F'"@, "R'"@, "B"@, "R2"@, "F"@, "U"@, "L"@, "U"@],
            KnownTransform::NestedCube4x4x4 => seq!["B'"@, "Lw2"@, "L2"@, "Rw2"@, "R2"@, "U2"@, "Lw2"@, "L2"@, "Rw2"@, "R2"@, "B"@, "F2"@, "R"@, "U'"@, "R"@, "U"@, "R2"@, "U"@, "R2"@, "F'"@, "U"@, "F'"@, "Uw"@, "Lw"@, "Uw'"@, "Fw2"@, "Dw"@, "Rw'"@, "Uw"@, "Fw"@, "Dw2"@, "Rw2"@],
        }
    }

    /// Every token of the transform is a plain word that parses into rotations that find their
    /// layers on a cube at least `least_fitting_side_length` long.
    #[verifier::spinoff_prover]
    proof fn lemma_tokens(self)
        ensures
            forall|i: int|
                0 <= i < self.tokens().len() ==> plain_word(#[trigger] self.tokens()[i])
                    && token_fits(self.tokens()[i], self.least_fitting_side_length() as int),
    {
        lemma_known_tokens();
        let ts = self.tokens();
        let bound = self.least_fitting_side_length() as int;
        match self {
            KnownTransform::CheckerboardCorners3x3x3 => {
                assert forall|i: int| 0 <= i < ts.len() implies plain_word(#[trigger] ts[i])
                    && token_fits(ts[i], bound) by {}
            },
            KnownTransform::Crosses3x3x3 => {
                assert forall|i: int| 0 <= i < ts.len() implies plain_word(#[trigger] ts[i])
                    && token_fits(ts[i], bound) by {}
            },
            KnownTransform::NestedCube3x3x3 => {
                assert forall|i: int| 0 <= i < ts.len() implies plain_word(#[trigger] ts[i])
                    && token_fits(ts[i], bound) by {}
            },
            KnownTransform::NestedCube4x4x4 => {
                assert forall|i: int| 0 <= i < ts.len() implies plain_word(#[trigger] ts[i])
                    && token_fits(ts[i], bound) by {}
            },
        }
    }

    /// The written notation of the transform: its tokens separated by spaces.
    pub open spec fn notation_text(self) -> Seq<char> {
        join_words(self.tokens())
    }

    /// The rotations that the notation of the transform parses into.
    pub open spec fn spec_sequence(self) -> Seq<Rotation> {
        parse_sequence_spec(self.notation_text())->Ok_0
    }

    /// The notation of every known transform parses, without a count of layers from 0, into
    /// rotations that find their layers on every cube at least `least_fitting_side_length` long,
    /// which the minimum side length, where there is one, is not below.
    pub proof fn lemma_notation_parses(self)
        ensures
            parse_sequence_spec(self.notation_text()) is Ok,
            all_well_formed(self.spec_sequence()),
            forall|n: int| n >= self.least_fitting_side_length() ==> #[trigger] all_fit(self.spec_sequence(), n),
            self.spec_minimum_side_length() matches Some(m) ==> m >= self.least_fitting_side_length(),
    {
        let ts = self.tokens();
        let bound = self.least_fitting_side_length() as int;
        self.lemma_tokens();
        lemma_words_of_joined(ts);
        lemma_words_fit(ts, bound);
        let rs = self.spec_sequence();
        assert forall|n: int| n >= self.least_fitting_side_length() implies #[trigger] all_fit(rs, n) by {
            assert forall|j: int| 0 <= j < rs.len() implies #[trigger] rs[j].fits(n) by {
                assert(rs[j].kind.layers_below(bound));
            }
        }
        assert forall|j: int| 0 <= j < rs.len() implies #[trigger] rs[j].well_formed() by {
            assert(rs[j].kind.layers_below(bound));
        }
    }

    /// A transform names a minimum side length exactly when it cannot run on every cube, that is
    /// when some rotation of it turns more than the face layer; and every rotation of it then
    /// finds its layers on each cube at least that long. The transforms that turn faces alone
    /// name none and run on a cube of any size.
    pub proof fn lemma_minimum_side_length_needed(self)
        ensures
            self.spec_minimum_side_length() is None <==> all_fit(self.spec_sequence(), 1),
            self.spec_minimum_side_length() matches Some(m) ==> m > 1 && forall|n: int|
                n >= m ==> #[trigger] all_fit(self.spec_sequence(), n),
    {
        self.lemma_notation_parses();
        if self == KnownTransform::NestedCube4x4x4 {
            let ts = self.tokens();
            self.lemma_tokens();
            lemma_words_of_joined(ts);
            reveal_strlit("B'");
            reveal_strlit("Lw2");
            assert("B'"@ =~= plain_token(Face::Back, false, true, false));
            assert("Lw2"@ =~= plain_token(Face::Left, true, false, true));
            lemma_plain_token(Face::Back, false, true, false);
            lemma_plain_token(Face::Left, true, false, true);
            lemma_second_word_parsed(ts);
            let rs = self.spec_sequence();
            let i = parse_token_spec(ts[0])->Parsed_0.len() as int;
            assert(rs[i].kind == RotationKind::Multilayer { layer: 1 });
            assert(!rs[i].fits(1));
        }
    }

    /// The smallest side length that a transform names, where it names one, is the smallest on
    /// which its turns of two opposite faces never turn the same layer of the cube: on a smaller
    /// cube some of its turns from opposite sides meet, and the pattern does not come out.
    #[verifier::spinoff_prover]
    pub proof fn lemma_minimum_side_length_keeps_opposite_turns_apart(self)
        ensures
            self.spec_minimum_side_length() matches Some(m) ==> {
                &&& forall|n: int| n >= m ==> #[trigger] opposite_turns_apart(self.spec_sequence(), n)
                &&& !opposite_turns_apart(self.spec_sequence(), m - 1)
            },
    {
        self.lemma_notation_parses();
        if self == KnownTransform::NestedCube4x4x4 {
            let rs = self.spec_sequence();
            assert(all_fit(rs, 2));
            assert forall|n: int| n >= 4 implies #[trigger] opposite_turns_apart(rs, n) by {
                lemma_apart_when_layers_below(rs, 2, n);
            }
            lemma_nested_cube_4_turns_meet_on_3();
        }
    }

    /// The tokens the transform is written with, as text.
    fn token_texts(&self) -> (texts: Vec<&'static str>)
        ensures
            texts@.len() == self.tokens().len(),
            forall|i: int| 0 <= i < texts@.len() ==> #[trigger] texts@[i]@ == self.tokens()[i],
    {
        let mut texts: Vec<&'static str> = Vec::new();
        match self {
            KnownTransform::CheckerboardCorners3x3x3 => {
                texts.push("R2");
                texts.push("L2");
                texts.push("F2");
                texts.push("B2");
                texts.push("U2");
                texts.push("D2");
            },
            KnownTransform::Crosses3x3x3 => {
                texts.push("R2");
                texts.push("L'");
                texts.push("D");
                texts.push("F2");
                texts.push("R'");
                texts.push("D'");
                texts.push("R'");
                texts.push("L");
                texts.push("U'");
                texts.push("D");
                texts.push("R");
                texts.push("D");
                texts.push("B2");
                texts.push("R'");
                texts.push("U");
                texts.push("D2");
            },
            KnownTransform::NestedCube3x3x3 => {
                texts.push("F");
                texts.push("R'");
                texts.push("U'");
                texts.push("F'");
                texts.push("U");
                texts.push("L'");
                texts.push("B");
                texts.push("U'");
                texts.push("B2");
                texts.push("U'");
                texts.push("F'");
                texts.push("R'");
                texts.push("B");
                texts.push("R2");
                texts.push("F");
                texts.push("U");
                texts.push("L");
                texts.push("U");
            },
            KnownTransform::NestedCube4x4x4 => {
                texts.push("B'");
                texts.push("Lw2");
                texts.push("L2");
                texts.push("Rw2");
                texts.push("R2");
                texts.push("U2");
                texts.push("Lw2");
                texts.push("L2");
                texts.push("Rw2");
                texts.push("R2");
                texts.push("B");
                texts.push("F2");
                texts.push("R");
                texts.push("U'");
                texts.push("R");
                texts.push("U");
                texts.push("R2");
                texts.push("U");
                texts.push("R2");
                texts.push("F'");
                texts.push("U");
                texts.push("F'");
                texts.push("Uw");
                texts.push("Lw");
                texts.push("Uw'");
                texts.push("Fw2");
                texts.push("Dw");
                texts.push("Rw'");
                texts.push("Uw");
                texts.push("Fw");
                texts.push("Dw2");
                texts.push("Rw2");
            },
        }
        texts
    }

    /// The written notation version of this transform that can be parsed and applied to a `PuzzleCube`.
    pub fn notation(&self) -> (text: String)
        ensures
            text@ == self.notation_text(),
    {
        let texts = self.token_texts();
        let ghost ts = self.tokens();
        let mut out = String::new();
        let mut i: usize = 0;
        while i < texts.len()
            invariant
                i <= texts@.len() == ts.len(),
                forall|k: int| 0 <= k < texts@.len() ==> #[trigger] texts@[k]@ == ts[k],
                out@ == join_words(ts.take(i as int)),
            decreases texts.len() - i,
        {
            proof {
                assert(ts.take(i + 1).drop_last() =~= ts.take(i as int));
            }
            if i > 0 {
                proof {
                    reveal_strlit(" ");
                }
                out.append(" ");
            } else {
                assert(out@ =~= Seq::<char>::empty());
            }
            out.append(texts[i]);
            i = i + 1;
        }
        proof {
            assert(ts.take(i as int) =~= ts);
        }
        out
    }

    /// The parsed version of this transform's `notation`.
    pub fn sequence(&self) -> (rotations: Vec<Rotation>)
        ensures
            rotations@ == self.spec_sequence(),
            parse_sequence_spec(self.notation_text()) == Ok::<Seq<Rotation>, (NotationErrorKind, Seq<char>)>(rotations@),
    {
        proof {
            self.lemma_notation_parses();
        }
        let text = self.notation();
        match parse_sequence(text.as_str()) {
            Ok(rotations) => rotations,
            Err(_) => {
                proof {
                    assert(false);
                }
                Vec::new()
            },
        }
    }

    /// Parse this transform's `notation` and immediately perform the resulting sequence on `cube`.
    ///
    /// Every rotation finds its layers on a cube at least `least_fitting_side_length` long, so
    /// none fails.
    pub fn perform_instantly<C: PuzzleCube>(&self, cube: &mut C)
        requires
            old(cube).valid(),
            old(cube).state().n >= self.least_fitting_side_length(),
        ensures
            final(cube).valid(),
            final(cube).state() == sequence_outcome(old(cube).state(), self.spec_sequence()).0,
            sequence_outcome(old(cube).state(), self.spec_sequence()).1 is Ok,
    {
        proof {
            self.lemma_notation_parses();
            old(cube).lemma_valid_state();
            lemma_sequence_outcome(old(cube).state(), self.spec_sequence());
        }
        let _ = perform_sequence(self.sequence(), cube);
    }

    /// Parse this transform's `notation` and perform the resulting sequence on `cube` as a sequence controlled by the `cube` itself.
    ///
    /// Every rotation finds its layers on a cube at least `least_fitting_side_length` long, so
    /// none fails.
    pub fn perform_seq<C: PuzzleCube>(&self, cube: &mut C)
        requires
            old(cube).valid(),
            old(cube).state().n >= self.least_fitting_side_length(),
        ensures
            final(cube).valid(),
            final(cube).state() == sequence_outcome(old(cube).state(), self.spec_sequence()).0,
            sequence_outcome(old(cube).state(), self.spec_sequence()).1 is Ok,
    {
        proof {
            self.lemma_notation_parses();
            old(cube).lemma_valid_state();
            lemma_sequence_outcome(old(cube).state(), self.spec_sequence());
        }
        let _ = cube.rotate_seq(self.sequence());
    }
}

/// Turns a 3x3x3 cube into a checkerboard.
pub fn checkerboard_corners(cube: &mut Cube)
    requires
        old(cube).valid(),
    ensures
        final(cube).valid(),
        final(cube).state() == sequence_outcome(
            old(cube).state(),
            KnownTransform::CheckerboardCorners3x3x3.spec_sequence(),
        ).0,
{
    proof {
        old(cube).lemma_valid_state();
    }
    KnownTransform::CheckerboardCorners3x3x3.perform_instantly(cube);
}

/// Turns a 3x3x3 cube into 3 nested cubes (cube within a cube within a cube).
pub fn cube_in_cube_in_cube(cube: &mut Cube)
    requires
        old(cube).valid(),
    ensures
        final(cube).valid(),
        final(cube).state() == sequence_outcome(
            old(cube).state(),
            KnownTransform::NestedCube3x3x3.spec_sequence(),
        ).0,
{
    proof {
        old(cube).lemma_valid_state();
    }
    KnownTransform::NestedCube3x3x3.perform_instantly(cube);
}

} // verus!
