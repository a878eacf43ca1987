use vstd::prelude::*;
use vstd::string::StrSliceExecFns;

use crate::error::Error;

verus! {

/// True of the characters the codec accepts: the uppercase ASCII letters.
pub open spec fn is_upper_letter(c: char) -> bool {
    65 <= c as int <= 90
}

/// The zero-based alphabet position of an uppercase letter.
pub open spec fn position_of_letter(c: char) -> int {
    c as int - 65
}

/// The uppercase letter standing at a zero-based alphabet position.
pub open spec fn letter_at_position(p: int) -> char {
    (p + 65) as char
}

/// Maps an uppercase letter to its position 0..25; any other character is an
/// input error.
pub fn get_position_from_char(a: char) -> (r: Result<usize, Error>)
    ensures
        r == if is_upper_letter(a) {
            Ok::<usize, Error>(position_of_letter(a) as usize)
        } else {
            Err::<usize, Error>(Error::InputError)
        },
{
    let code = a as u32;
    if 65 <= code && code <= 90 {
        Ok((code - 65) as usize)
    } else {
        Err(Error::InputError)
    }
}

/// Maps a position 0..25 back to its uppercase letter; any other position is
/// an input error.
pub fn get_char_from_position(position: usize) -> (r: Result<char, Error>)
    ensures
        r == if position <= 25 {
            Ok::<char, Error>(letter_at_position(position as int))
        } else {
            Err::<char, Error>(Error::InputError)
        },
{
    if position > 25 {
        return Err(Error::InputError);
    }

    let code: u8 = 65 + position as u8;
    Ok(code as char)
}

/// A substitution table maps every position to a position: the closure the
/// signal path needs at each lookup.
pub open spec fn table_in_range(w: Seq<usize>) -> bool {
    w.len() == 26 && forall|i: int| 0 <= i < 26 ==> w[i] < 26
}

/// The lowercase form of an uppercase ASCII letter; any other character is
/// left as it is.
pub open spec fn to_lower_char(c: char) -> char {
    if 65 <= c as int <= 90 {
        (c as int + 32) as char
    } else {
        c
    }
}

/// A character sequence lowercased letter by letter.
pub open spec fn lower_seq(s: Seq<char>) -> Seq<char> {
    s.map_values(|c: char| to_lower_char(c))
}

/// Lowercases the ASCII letters of a string into a character list, for
/// case-insensitive name resolution.
pub(crate) fn to_lower_chars(s: &str) -> (r: Vec<char>)
    ensures
        r@ == lower_seq(s@),
{
    let len = s.unicode_len();
    let mut out: Vec<char> = Vec::new();

    proof {
        assert(lower_seq(s@.take(0)) =~= Seq::<char>::empty());
    }

    for i in 0..len
        invariant
            len == s@.len(),
            out@ == lower_seq(s@.take(i as int)),
    {
        let c = s.get_char(i);
        let code = c as u32;

        if 65 <= code && code <= 90 {
            out.push(((code + 32) as u8) as char);
        } else {
            out.push(c);
        }

        proof {
            assert(lower_seq(s@.take(i + 1)) =~= lower_seq(s@.take(i as int)).push(
                to_lower_char(s@[i as int]),
            ));
        }
    }

    proof {
        assert(s@.take(len as int) =~= s@);
    }

    out
}

/// Relies on String::push: appends exactly the given character at the end
/// of the string.
#[verifier::external_body]
pub(crate) fn push_char(s: &mut String, c: char)
    ensures
        final(s)@ == old(s)@.push(c),
{
    s.push(c);
}

/// The letter/position mapping is a total bijection between 'A'..'Z' and
/// 0..25: each direction lands in the other's domain and the two compose to
/// the identity both ways.
pub proof fn lemma_codec_bijection()
    ensures
        forall|c: char| is_upper_letter(c) ==> 0 <= position_of_letter(c) < 26,
        forall|c: char|
            is_upper_letter(c) ==> letter_at_position(position_of_letter(c)) == c,
        forall|p: int| 0 <= p < 26 ==> is_upper_letter(letter_at_position(p)),
        forall|p: int| 0 <= p < 26 ==> position_of_letter(letter_at_position(p)) == p,
{
}

} // verus!
