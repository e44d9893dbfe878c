//! Operation tokens: a sign, `+` or `-`, followed by a magnitude in two
//! hexadecimal digits. A token tells how to get from a pad byte to a plain
//! byte, modulo 256.

use vstd::prelude::*;
use crate::error::CipherError;
use crate::text::{chars_of, hex_byte, hex_upper, hex_upper_char, parse_hex_byte, push_char};

verus! {

/// `pad + magnitude`, modulo 256.
pub open spec fn add_mod(pad: u8, magnitude: u8) -> u8 {
    pad.wrapping_add(magnitude)
}

/// `pad - magnitude`, modulo 256.
pub open spec fn sub_mod(pad: u8, magnitude: u8) -> u8 {
    pad.wrapping_sub(magnitude)
}

/// The sign of the token that relates `pad` to `plain`: `+` where adding
/// takes no larger a magnitude than subtracting.
pub open spec fn op_sign(pad: u8, plain: u8) -> char {
    if sub_mod(plain, pad) <= sub_mod(pad, plain) {
        '+'
    } else {
        '-'
    }
}

/// The magnitude of the token that relates `pad` to `plain`: the smaller of
/// the two distances between them.
pub open spec fn op_magnitude(pad: u8, plain: u8) -> u8 {
    if sub_mod(plain, pad) <= sub_mod(pad, plain) {
        sub_mod(plain, pad)
    } else {
        sub_mod(pad, plain)
    }
}

/// A token as text: the sign, then the magnitude in two upper-case
/// hexadecimal digits.
pub open spec fn token_text(sign: char, magnitude: u8) -> Seq<char> {
    seq![sign, hex_upper(magnitude / 16), hex_upper(magnitude % 16)]
}

/// The token that relates `pad` to `plain`.
pub open spec fn op_token(pad: u8, plain: u8) -> Seq<char> {
    token_text(op_sign(pad, plain), op_magnitude(pad, plain))
}

/// Whether `token` begins with `+`.
pub open spec fn is_plus(token: Seq<char>) -> bool {
    token.len() > 0 && token[0] == '+'
}

/// The magnitude that `token` writes after its first character.
pub open spec fn token_magnitude(token: Seq<char>) -> Option<u8> {
    if token.len() > 0 {
        parse_hex_byte(token.skip(1))
    } else {
        None
    }
}

/// The byte that `token` leads to from `pad`. A token without a sign is an
/// invalid operator; one with a sign and a malformed magnitude is a parse
/// error.
pub open spec fn apply_token(pad: u8, token: Seq<char>) -> Result<u8, CipherError> {
    if token.len() == 0 || (token[0] != '+' && token[0] != '-') {
        Err(CipherError::InvalidOperator)
    } else {
        match token_magnitude(token) {
            None => Err(CipherError::Parse),
            Some(magnitude) => if token[0] == '+' {
                Ok(add_mod(pad, magnitude))
            } else {
                Ok(sub_mod(pad, magnitude))
            },
        }
    }
}

/// Two upper-case digits read back as the byte they were written from.
pub proof fn lemma_hex_round_trip(magnitude: u8)
    ensures
        parse_hex_byte(seq![hex_upper(magnitude / 16), hex_upper(magnitude % 16)]) == Some(
            magnitude,
        ),
{
}

/// The token of `pad` and `plain` leads from `pad` to `plain`.
pub proof fn lemma_op_token_applies(pad: u8, plain: u8)
    ensures
        apply_token(pad, op_token(pad, plain)) == Ok::<u8, CipherError>(plain),
{
    lemma_hex_round_trip(op_magnitude(pad, plain));
}

/// No magnitude below that of the token leads from `pad` to `plain`, with
/// either sign; and where the token subtracts, adding its magnitude does not
/// lead there. So the token is the first hit of a search through the
/// magnitudes in rising order that tries `+` before `-`.
pub proof fn lemma_op_token_is_first_hit(pad: u8, plain: u8)
    ensures
        forall|m: u8|
            m < op_magnitude(pad, plain) ==> add_mod(pad, m) != plain && sub_mod(pad, m) != plain,
        op_sign(pad, plain) == '-' ==> add_mod(pad, op_magnitude(pad, plain)) != plain,
{
}

/// The token that relates `hex1` to `result`, as text. It is always there.
pub fn get_op_value(hex1: u8, result: u8) -> (token: Option<String>)
    ensures
        token is Some,
        token->0@ == op_token(hex1, result),
{
    let up = result.wrapping_sub(hex1);
    let down = hex1.wrapping_sub(result);
    let mut text = String::new();
    let magnitude = if up <= down {
        push_char(&mut text, '+');
        up
    } else {
        push_char(&mut text, '-');
        down
    };
    push_char(&mut text, hex_upper_char(magnitude / 16));
    push_char(&mut text, hex_upper_char(magnitude % 16));
    Some(text)
}

/// Applies `token` to `pad`.
pub fn apply(pad: u8, token: &str) -> (r: Result<u8, CipherError>)
    ensures
        r == apply_token(pad, token@),
{
    let chars = chars_of(token);
    if chars.len() == 0 {
        return Err(CipherError::InvalidOperator);
    }
    let sign = chars[0];
    if sign != '+' && sign != '-' {
        return Err(CipherError::InvalidOperator);
    }
    match hex_byte(chars.as_slice(), 1, chars.len()) {
        None => Err(CipherError::Parse),
        Some(magnitude) => if sign == '+' {
            Ok(pad.wrapping_add(magnitude))
        } else {
            Ok(pad.wrapping_sub(magnitude))
        },
    }
}

} // verus!
