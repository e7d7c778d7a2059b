use vstd::prelude::*;
use vstd::string::StrSliceExecFns;
use vstd::string::StringExecFns;

use super::{chars_of, face_from_char, face_of_char, trim_range, trimmed};
use crate::cube::face::Face;
use crate::cube::{turn_layer, Cube, CubeState};

verus! {

/// The index of the first space in `s`, or its length when it has none.
pub open spec fn space_index(s: Seq<char>) -> int
    decreases s.len(),
{
    if s.len() == 0 {
        0
    } else if s[0] == ' ' {
        0
    } else {
        1 + space_index(s.drop_first())
    }
}

/// The first space is within the text, or just past its end.
pub proof fn lemma_space_index(s: Seq<char>)
    ensures
        0 <= space_index(s) <= s.len(),
        space_index(s) < s.len() ==> s[space_index(s)] == ' ',
    decreases s.len(),
{
    if s.len() > 0 && s[0] != ' ' {
        lemma_space_index(s.drop_first());
    }
}

/// The pieces of `s` between single spaces, as `str::split(' ')` gives them: two spaces in a
/// row leave an empty piece between them.
pub open spec fn split_at_spaces(s: Seq<char>) -> Seq<Seq<char>>
    decreases s.len(),
{
    let i = space_index(s);
    if i >= s.len() {
        seq![s]
    } else {
        proof {
            lemma_space_index(s);
        }
        seq![s.take(i)] + split_at_spaces(s.skip(i + 1))
    }
}

/// The face character of a token of the 3x3x3 notation: a token of one character, or of two
/// whose second is `'` or `2`.
pub open spec fn base_token(t: Seq<char>) -> Option<char> {
    if t.len() == 1 || (t.len() == 2 && (t.last() == '\'' || t.last() == '2')) {
        Some(t[0])
    } else {
        None
    }
}

/// Three quarter turns clockwise of `face`, the same as one anticlockwise.
pub open spec fn face_turn_anticlockwise(s: CubeState, face: Face) -> CubeState {
    turn_layer(turn_layer(turn_layer(s, face, 0), face, 0), face, 0)
}

/// The quarter turn of `face` that a token names: anticlockwise when it ends in `'`.
pub open spec fn token_quarter(s: CubeState, face: Face, t: Seq<char>) -> CubeState {
    if t.last() == '\'' {
        face_turn_anticlockwise(s, face)
    } else {
        turn_layer(s, face, 0)
    }
}

/// What a token of the 3x3x3 notation does: its quarter turn, made twice when it ends in `2`.
pub open spec fn token_turns(s: CubeState, face: Face, t: Seq<char>) -> CubeState {
    if t.last() == '2' {
        token_quarter(token_quarter(s, face, t), face, t)
    } else {
        token_quarter(s, face, t)
    }
}

/// What performing the pieces of a 3x3x3 sequence does: each trimmed piece turns its face in
/// turn, until a piece that is not a token, which is reported.
pub open spec fn perform_3x3_spec(s: CubeState, pieces: Seq<Seq<char>>) -> (CubeState, Result<(), Seq<char>>)
    decreases pieces.len(),
{
    if pieces.len() == 0 {
        (s, Ok(()))
    } else {
        let t = trimmed(pieces[0]);
        match base_token(t) {
            Some(c) => match face_of_char(c) {
                Some(face) => perform_3x3_spec(token_turns(s, face, t), pieces.drop_first()),
                None => (s, Err(t)),
            },
            None => (s, Err(t)),
        }
    }
}

/// The message that reports a token that is not one of the 3x3x3 notation.
pub open spec fn unsupported_token_message(t: Seq<char>) -> Seq<char> {
    "Unsupported token in notation string: ["@ + t + "]"@
}

/// The index of the first space in `chars[start..end]`, or `end` when it has none.
fn space_index_range(chars: &Vec<char>, start: usize, end: usize) -> (j: usize)
    requires
        start <= end <= chars.len(),
    ensures
        start <= j <= end,
        j - start == space_index(chars@.subrange(start as int, end as int)),
{
    let mut k = start;
    while k < end && chars[k] != ' '
        invariant
            start <= k <= end <= chars.len(),
            space_index(chars@.subrange(start as int, end as int)) == (k - start) + space_index(
                chars@.subrange(k as int, end as int),
            ),
        decreases end - k,
    {
        assert(chars@.subrange(k as int, end as int).drop_first() =~= chars@.subrange(
            k + 1,
            end as int,
        ));
        k = k + 1;
    }
    k
}

/// The pieces of `chars[start..end]` are the piece before its first space and, when it has a
/// space at `j`, the pieces after it.
proof fn lemma_split_at(chars: Seq<char>, start: int, j: int, end: int)
    requires
        0 <= start <= j <= end <= chars.len(),
        j - start == space_index(chars.subrange(start, end)),
    ensures
        j == end ==> split_at_spaces(chars.subrange(start, end)) == seq![chars.subrange(start, end)],
        j < end ==> split_at_spaces(chars.subrange(start, end)) == seq![chars.subrange(start, j)]
            + split_at_spaces(chars.subrange(j + 1, end)),
{
    let s = chars.subrange(start, end);
    lemma_space_index(s);
    if j < end {
        assert(s.take(j - start) =~= chars.subrange(start, j));
        assert(s.skip(j - start + 1) =~= chars.subrange(j + 1, end));
    }
}

/// Turn `face` as the token of the 3x3x3 notation `chars[start..end]` says.
fn apply_token_turns(cube: &mut Cube, face: Face, chars: &Vec<char>, start: usize, end: usize)
    requires
        old(cube).spec_valid(),
        start < end <= chars.len(),
    ensures
        final(cube).spec_valid(),
        final(cube).spec_state() == token_turns(old(cube).spec_state(), face, chars@.subrange(start as int, end as int)),
{
    let ghost t = chars@.subrange(start as int, end as int);
    assert(t.last() == chars@[end - 1]);
    let last = chars[end - 1];
    let anticlockwise = last == '\'';
    if anticlockwise {
        cube.rotate_face_90_degrees_anticlockwise(face);
    } else {
        cube.rotate_face_90_degrees_clockwise(face);
    }
    if last == '2' {
        if anticlockwise {
            cube.rotate_face_90_degrees_anticlockwise(face);
        } else {
            cube.rotate_face_90_degrees_clockwise(face);
        }
    }
}

/// Perform a sequence of 3x3x3 notation: tokens of a face character with an optional `'` or `2`,
/// separated by single spaces, turning whole faces only.
///
/// # Errors
/// Returns the message naming the first piece that is not such a token; the tokens before it
/// have been performed.
pub fn perform_3x3_sequence(token_sequence: &str, cube: &mut Cube) -> (res: Result<(), String>)
    requires
        old(cube).spec_valid(),
    ensures
        final(cube).spec_valid(),
        final(cube).spec_state() == perform_3x3_spec(old(cube).spec_state(), split_at_spaces(trimmed(token_sequence@))).0,
        match perform_3x3_spec(old(cube).spec_state(), split_at_spaces(trimmed(token_sequence@))).1 {
            Ok(()) => res is Ok,
            Err(t) => res matches Err(message) && message@ == unsupported_token_message(t),
        },
{
    let chars = chars_of(token_sequence);
    let (ts, te) = trim_range(&chars, 0, chars.len());
    proof {
        assert(chars@.subrange(0, chars@.len() as int) =~= chars@);
    }
    let ghost s0 = cube.spec_state();
    let ghost goal = perform_3x3_spec(s0, split_at_spaces(chars@.subrange(ts as int, te as int)));
    let mut i = ts;
    let mut done = false;
    while !done
        invariant
            ts <= i <= te <= chars.len(),
            cube.spec_valid(),
            chars@ == token_sequence@,
            s0 == old(cube).spec_state(),
            chars@.subrange(ts as int, te as int) == trimmed(token_sequence@),
            goal == perform_3x3_spec(s0, split_at_spaces(chars@.subrange(ts as int, te as int))),
            !done ==> goal == perform_3x3_spec(cube.spec_state(), split_at_spaces(chars@.subrange(i as int, te as int))),
            done ==> goal == (cube.spec_state(), Ok::<(), Seq<char>>(())),
        decreases (te - i) * 2 + if done { 0int } else { 1int },
    {
        let j = space_index_range(&chars, i, te);
        proof {
            lemma_split_at(chars@, i as int, j as int, te as int);
        }
        let ghost pieces = split_at_spaces(chars@.subrange(i as int, te as int));
        let ghost rest = if j < te {
            split_at_spaces(chars@.subrange(j + 1, te as int))
        } else {
            Seq::<Seq<char>>::empty()
        };
        proof {
            assert(pieces[0] == chars@.subrange(i as int, j as int));
            assert(pieces.drop_first() =~= rest);
            if j == te {
                assert(perform_3x3_spec(cube.spec_state(), Seq::<Seq<char>>::empty()).1 is Ok);
            }
        }
        let (a, b) = trim_range(&chars, i, j);
        let ghost t = chars@.subrange(a as int, b as int);
        let len = b - a;
        let valid = len == 1 || (len == 2 && (chars[b - 1] == '\'' || chars[b - 1] == '2'));
        proof {
            if len > 0 {
                assert(t.last() == chars@[b - 1]);
            }
        }
        let face = if valid {
            proof {
                assert(t[0] == chars@[a as int]);
            }
            face_from_char(chars[a])
        } else {
            None
        };
        match face {
            None => {
                proof {
                    assert(trimmed(pieces[0]) == t);
                    assert(perform_3x3_spec(cube.spec_state(), pieces) == (cube.spec_state(), Err::<(), Seq<char>>(t)));
                }
                let token = token_sequence.substring_char(a, b);
                let mut message = String::from_str("Unsupported token in notation string: [");
                message.append(token);
                proof {
                    reveal_strlit("]");
                }
                message.append("]");
                return Err(message);
            },
            Some(face) => {
                let ghost before = cube.spec_state();
                apply_token_turns(cube, face, &chars, a, b);
                proof {
                    assert(trimmed(pieces[0]) == t);
                    assert(perform_3x3_spec(before, pieces) == perform_3x3_spec(cube.spec_state(), rest));
                    if j == te {
                        assert(perform_3x3_spec(cube.spec_state(), rest) == (cube.spec_state(), Ok::<(), Seq<char>>(())));
                    }
                }
            },
        }
        if j == te {
            done = true;
        } else {
            i = j + 1;
        }
    }
    Ok(())
}

} // verus!
