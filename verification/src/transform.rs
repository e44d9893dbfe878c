//! The transform of a single byte: from plain byte to code byte and back,
//! each relative to one byte of the pad.

use std::collections::HashMap;
use vstd::prelude::*;
use crate::error::CipherError;
use crate::forward::ForwardTable;
use crate::reverse::{held_token, token_texts};
use crate::token::{apply, apply_token, get_op_value, op_token};

verus! {

/// The code byte that stands in for a token the forward table does not hold.
pub const SENTINEL: u8 = 0xFF;

/// The code byte of `plain` under `pad`: what `forward` gives for the token
/// that relates the two, or the sentinel where it gives nothing.
pub open spec fn encode(pad: u8, plain: u8, forward: Map<Seq<char>, u8>) -> u8 {
    if forward.contains_key(op_token(pad, plain)) {
        forward[op_token(pad, plain)]
    } else {
        SENTINEL
    }
}

/// The plain byte of `code` under `pad`: the token that `reverse` holds for
/// `code`, applied to `pad`. A code byte without a token is a lookup error.
pub open spec fn decode(pad: u8, code: u8, reverse: Map<u8, Seq<char>>) -> Result<u8, CipherError> {
    if reverse.contains_key(code) {
        apply_token(pad, reverse[code])
    } else {
        Err(CipherError::Lookup)
    }
}

/// Encrypts one byte. An unmapped token is no error: it yields the sentinel.
pub fn encrypt_byte(random_byte: u8, input_byte: u8, table: &ForwardTable) -> (code: u8)
    ensures
        code == encode(random_byte, input_byte, table@),
        !table@.contains_key(op_token(random_byte, input_byte)) ==> code == SENTINEL,
{
    let token = get_op_value(random_byte, input_byte).unwrap();
    match table.get(token.as_str()) {
        Some(code) => code,
        None => SENTINEL,
    }
}

/// Decrypts one byte.
pub fn recover_original_byte(
    random_byte: u8,
    encrypted_byte: u8,
    reverse_table: &HashMap<u8, String>,
) -> (r: Result<u8, CipherError>)
    ensures
        r == decode(random_byte, encrypted_byte, token_texts(reverse_table@)),
{
    match held_token(reverse_table, encrypted_byte) {
        Some(token) => apply(random_byte, token.as_str()),
        None => Err(CipherError::Lookup),
    }
}

} // verus!
