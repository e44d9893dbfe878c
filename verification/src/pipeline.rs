//! Whole payloads: each byte of the payload is transformed under the pad
//! byte at the same position.

use std::collections::HashMap;
use vstd::prelude::*;
use crate::error::CipherError;
use crate::forward::ForwardTable;
use crate::reverse::token_texts;
use crate::transform::{decode, encode, encrypt_byte, recover_original_byte};

verus! {

/// The code bytes of `payload` under `pad`.
pub open spec fn encrypt_bytes(payload: Seq<u8>, forward: Map<Seq<char>, u8>, pad: Seq<u8>) -> Seq<
    u8,
>
    recommends
        payload.len() <= pad.len(),
{
    Seq::new(payload.len(), |i: int| encode(pad[i], payload[i], forward))
}

/// The plain bytes of `payload` under `pad`, or the error of the first byte
/// that cannot be decoded.
pub open spec fn decrypt_bytes(
    payload: Seq<u8>,
    reverse: Map<u8, Seq<char>>,
    pad: Seq<u8>,
) -> Result<Seq<u8>, CipherError>
    recommends
        payload.len() <= pad.len(),
    decreases payload.len(),
{
    if payload.len() == 0 {
        Ok(Seq::empty())
    } else {
        match decrypt_bytes(payload.drop_last(), reverse, pad) {
            Err(e) => Err(e),
            Ok(plain) => match decode(pad[payload.len() - 1], payload.last(), reverse) {
                Err(e) => Err(e),
                Ok(byte) => Ok(plain.push(byte)),
            },
        }
    }
}

/// Decryption gives every byte decoded where every byte can be, and
/// otherwise the error of the first byte that cannot.
pub proof fn lemma_decrypt_bytes(payload: Seq<u8>, reverse: Map<u8, Seq<char>>, pad: Seq<u8>)
    ensures
        match decrypt_bytes(payload, reverse, pad) {
            Ok(plain) => plain.len() == payload.len() && forall|i: int|
                0 <= i < payload.len() ==> decode(pad[i], #[trigger] payload[i], reverse) == Ok::<
                    u8,
                    CipherError,
                >(plain[i]),
            Err(e) => exists|k: int|
                0 <= k < payload.len() && decode(pad[k], #[trigger] payload[k], reverse) == Err::<
                    u8,
                    CipherError,
                >(e) && forall|i: int|
                    0 <= i < k ==> decode(pad[i], #[trigger] payload[i], reverse) is Ok,
        },
    decreases payload.len(),
{
    if payload.len() > 0 {
        let earlier = payload.drop_last();
        let last = payload.len() - 1;
        lemma_decrypt_bytes(earlier, reverse, pad);
        match decrypt_bytes(earlier, reverse, pad) {
            Err(e) => {
                let k = choose|k: int|
                    0 <= k < earlier.len() && decode(pad[k], #[trigger] earlier[k], reverse) == Err::<
                        u8,
                        CipherError,
                    >(e) && forall|i: int|
                        0 <= i < k ==> decode(pad[i], #[trigger] earlier[i], reverse) is Ok;
                assert forall|i: int| 0 <= i < k implies decode(
                    pad[i],
                    #[trigger] payload[i],
                    reverse,
                ) is Ok by {
                    assert(decode(pad[i], earlier[i], reverse) is Ok);
                }
            },
            Ok(plain) => {
                assert forall|i: int| 0 <= i < last implies decode(
                    pad[i],
                    #[trigger] payload[i],
                    reverse,
                ) == Ok::<u8, CipherError>(plain[i]) by {
                    assert(decode(pad[i], earlier[i], reverse) == Ok::<u8, CipherError>(plain[i]));
                }
                match decode(pad[last], payload[last], reverse) {
                    Err(e) => {
                        assert(decode(pad[last], payload[last], reverse) == Err::<u8, CipherError>(
                            e,
                        ));
                    },
                    Ok(byte) => {},
                }
            },
        }
    }
}

/// Encrypts `payload` under `pad`. It fails exactly where the pad is
/// shorter than the payload; a token that the table does not hold is no
/// failure.
pub fn encrypt(payload: &[u8], table: &ForwardTable, pad: &[u8]) -> (r: Result<
    Vec<u8>,
    CipherError,
>)
    ensures
        pad@.len() < payload@.len() ==> r is Err && r->Err_0 == CipherError::InsufficientPad,
        pad@.len() >= payload@.len() ==> r is Ok && r->Ok_0@ == encrypt_bytes(
            payload@,
            table@,
            pad@,
        ),
{
    if pad.len() < payload.len() {
        return Err(CipherError::InsufficientPad);
    }
    let mut output: Vec<u8> = Vec::new();
    let mut i: usize = 0;
    while i < payload.len()
        invariant
            i <= payload@.len() <= pad@.len(),
            output@ == encrypt_bytes(payload@.take(i as int), table@, pad@),
        decreases payload@.len() - i,
    {
        output.push(encrypt_byte(pad[i], payload[i], table));
        i += 1;
    }
    Ok(output)
}

/// Decrypts `payload` under `pad`. It fails where the pad is shorter than
/// the payload, and else with the error of the first byte that cannot be
/// decoded; no output is given then.
pub fn decrypt(payload: &[u8], table: &HashMap<u8, String>, pad: &[u8]) -> (r: Result<
    Vec<u8>,
    CipherError,
>)
    ensures
        pad@.len() < payload@.len() ==> r is Err && r->Err_0 == CipherError::InsufficientPad,
        pad@.len() >= payload@.len() ==> match decrypt_bytes(
            payload@,
            token_texts(table@),
            pad@,
        ) {
            Ok(plain) => r is Ok && r->Ok_0@ == plain,
            Err(e) => r is Err && r->Err_0 == e,
        },
{
    if pad.len() < payload.len() {
        return Err(CipherError::InsufficientPad);
    }
    let mut output: Vec<u8> = Vec::new();
    let mut i: usize = 0;
    while i < payload.len()
        invariant
            i <= payload@.len() <= pad@.len(),
            decrypt_bytes(payload@.take(i as int), token_texts(table@), pad@) == Ok::<
                Seq<u8>,
                CipherError,
            >(output@),
        decreases payload@.len() - i,
    {
        assert(payload@.take(i as int + 1).drop_last() == payload@.take(i as int));
        match recover_original_byte(pad[i], payload[i], table) {
            Ok(byte) => {
                output.push(byte);
            },
            Err(e) => {
                proof {
                    lemma_decrypt_fails_on(payload@, token_texts(table@), pad@, i as int + 1);
                }
                return Err(e);
            },
        }
        i += 1;
    }
    assert(payload@.take(i as int) == payload@);
    Ok(output)
}

/// Once the first `n` bytes cannot all be decoded, neither can the payload,
/// and the error is the same.
pub proof fn lemma_decrypt_fails_on(
    payload: Seq<u8>,
    reverse: Map<u8, Seq<char>>,
    pad: Seq<u8>,
    n: int,
)
    requires
        0 <= n <= payload.len(),
        decrypt_bytes(payload.take(n), reverse, pad) is Err,
    ensures
        decrypt_bytes(payload, reverse, pad) == decrypt_bytes(payload.take(n), reverse, pad),
    decreases payload.len() - n,
{
    if n < payload.len() {
        assert(payload.take(n + 1).drop_last() == payload.take(n));
        lemma_decrypt_fails_on(payload, reverse, pad, n + 1);
    } else {
        assert(payload.take(n) == payload);
    }
}

} // verus!
