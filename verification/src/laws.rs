//! What holds of encryption and decryption taken together.

use vstd::prelude::*;
use crate::error::CipherError;
use crate::forward::{forward_of, lemma_forward_is_entry};
use crate::pipeline::{decrypt_bytes, encrypt_bytes, lemma_decrypt_bytes};
use crate::reverse::{
    lemma_resolve_is_entry, lemma_reverse_first_wins, lemma_reverse_plus_wins, reverse_of,
};
use crate::table::Entry;
use crate::token::{apply_token, is_plus, lemma_op_token_applies, op_token};
use crate::transform::{decode, SENTINEL};

verus! {

/// Whether two tokens do the same to every pad byte.
pub open spec fn same_effect(a: Seq<char>, b: Seq<char>) -> bool {
    forall|pad: u8| #[trigger] apply_token(pad, a) == apply_token(pad, b)
}

/// Whether what is encrypted through `token` comes back: the forward table
/// holds `token`, and the reverse table answers its code byte with a token
/// of the same effect.
pub open spec fn reversible_at(
    forward: Map<Seq<char>, u8>,
    reverse: Map<u8, Seq<char>>,
    token: Seq<char>,
) -> bool {
    &&& forward.contains_key(token)
    &&& reverse.contains_key(forward[token])
    &&& same_effect(reverse[forward[token]], token)
}

/// Round trip. Decrypting what was encrypted gives the payload back,
/// provided that each byte was encrypted through a token at which the
/// tables are reversible. The tables need not be: several tokens may share
/// a code byte, and then the reverse table holds only one of them.
pub proof fn lemma_round_trip(
    payload: Seq<u8>,
    forward: Map<Seq<char>, u8>,
    reverse: Map<u8, Seq<char>>,
    pad: Seq<u8>,
)
    requires
        payload.len() <= pad.len(),
        forall|i: int|
            0 <= i < payload.len() ==> reversible_at(
                forward,
                reverse,
                op_token(pad[i], #[trigger] payload[i]),
            ),
    ensures
        decrypt_bytes(encrypt_bytes(payload, forward, pad), reverse, pad) == Ok::<
            Seq<u8>,
            CipherError,
        >(payload),
{
    let coded = encrypt_bytes(payload, forward, pad);
    assert forall|i: int| 0 <= i < payload.len() implies decode(
        pad[i],
        #[trigger] coded[i],
        reverse,
    ) == Ok::<u8, CipherError>(payload[i]) by {
        lemma_op_token_applies(pad[i], payload[i]);
    }
    lemma_decrypt_bytes(coded, reverse, pad);
    match decrypt_bytes(coded, reverse, pad) {
        Ok(plain) => {
            assert forall|i: int| 0 <= i < payload.len() implies plain[i] == payload[i] by {
                assert(decode(pad[i], coded[i], reverse) == Ok::<u8, CipherError>(plain[i]));
            }
            assert(plain =~= payload);
        },
        Err(e) => {
            let k = choose|k: int|
                0 <= k < coded.len() && decode(pad[k], #[trigger] coded[k], reverse) == Err::<
                    u8,
                    CipherError,
                >(e);
            assert(decode(pad[k], coded[k], reverse) == Ok::<u8, CipherError>(payload[k]));
        },
    }
}

/// The round trip asks no more than it needs: where no byte falls back on
/// the sentinel and the payload comes back, the tables are reversible at
/// the token of every byte.
pub proof fn lemma_round_trip_only_where_reversible(
    payload: Seq<u8>,
    forward: Map<Seq<char>, u8>,
    reverse: Map<u8, Seq<char>>,
    pad: Seq<u8>,
    i: int,
)
    requires
        payload.len() <= pad.len(),
        0 <= i < payload.len(),
        forward.contains_key(op_token(pad[i], payload[i])),
        decrypt_bytes(encrypt_bytes(payload, forward, pad), reverse, pad) == Ok::<
            Seq<u8>,
            CipherError,
        >(payload),
    ensures
        reversible_at(forward, reverse, op_token(pad[i], payload[i])),
{
    let coded = encrypt_bytes(payload, forward, pad);
    let token = op_token(pad[i], payload[i]);
    lemma_decrypt_bytes(coded, reverse, pad);
    assert(decode(pad[i], coded[i], reverse) == Ok::<u8, CipherError>(payload[i]));
    lemma_op_token_applies(pad[i], payload[i]);
    let held = reverse[forward[token]];
    assert forall|other: u8| #[trigger] apply_token(other, held) == apply_token(other, token) by {}
}

/// A table in which no two lines share a code byte is reversible at every
/// token that it holds and that encryption can ask for.
pub proof fn lemma_distinct_codes_reversible(entries: Seq<Entry>, pad: u8, plain: u8)
    requires
        forall|i: int, j: int|
            0 <= i < j < entries.len() ==> (#[trigger] entries[i]).code != (
            #[trigger] entries[j]).code,
        forward_of(entries).contains_key(op_token(pad, plain)),
    ensures
        reversible_at(forward_of(entries), reverse_of(entries), op_token(pad, plain)),
{
    let token = op_token(pad, plain);
    lemma_forward_is_entry(entries, token);
    let i = choose|i: int|
        0 <= i < entries.len() && (#[trigger] entries[i]).token == token && entries[i].code
            == forward_of(entries)[token];
    assert forall|j: int| 0 <= j < entries.len() && (#[trigger] entries[j]).code
        == entries[i].code implies j == i by {}
    if is_plus(token) {
        lemma_reverse_plus_wins(entries, i);
    } else {
        lemma_reverse_first_wins(entries, i);
    }
}

/// Round trip, for a table as it is read: where no two lines share a code
/// byte and no byte of the payload falls back on the sentinel, decrypting
/// with the reverse table what was encrypted with the forward table gives
/// the payload back.
pub proof fn lemma_round_trip_distinct_codes(entries: Seq<Entry>, payload: Seq<u8>, pad: Seq<u8>)
    requires
        payload.len() <= pad.len(),
        forall|i: int, j: int|
            0 <= i < j < entries.len() ==> (#[trigger] entries[i]).code != (
            #[trigger] entries[j]).code,
        forall|i: int|
            0 <= i < payload.len() ==> forward_of(entries).contains_key(
                op_token(pad[i], #[trigger] payload[i]),
            ),
    ensures
        decrypt_bytes(
            encrypt_bytes(payload, forward_of(entries), pad),
            reverse_of(entries),
            pad,
        ) == Ok::<Seq<u8>, CipherError>(payload),
{
    assert forall|i: int| 0 <= i < payload.len() implies reversible_at(
        forward_of(entries),
        reverse_of(entries),
        op_token(pad[i], #[trigger] payload[i]),
    ) by {
        lemma_distinct_codes_reversible(entries, pad[i], payload[i]);
    }
    lemma_round_trip(payload, forward_of(entries), reverse_of(entries), pad);
}

/// The sentinel surfaces: where no line of the table has the sentinel for
/// its code byte, a sentinel in the payload is a lookup error on the way
/// back.
pub proof fn lemma_sentinel_surfaces(entries: Seq<Entry>, pad: u8)
    requires
        forall|i: int| 0 <= i < entries.len() ==> (#[trigger] entries[i]).code != SENTINEL,
    ensures
        decode(pad, SENTINEL, reverse_of(entries)) == Err::<u8, CipherError>(CipherError::Lookup),
{
    lemma_resolve_is_entry(entries, SENTINEL);
}

/// Determinism. The output is a function of the payload, the table and the
/// pad bytes under the payload: pads that differ only behind the payload
/// give the same output, encrypting and decrypting.
pub proof fn lemma_output_determined(
    payload: Seq<u8>,
    forward: Map<Seq<char>, u8>,
    reverse: Map<u8, Seq<char>>,
    pad: Seq<u8>,
    other_pad: Seq<u8>,
)
    requires
        payload.len() <= pad.len(),
        payload.len() <= other_pad.len(),
        forall|i: int| 0 <= i < payload.len() ==> pad[i] == other_pad[i],
    ensures
        encrypt_bytes(payload, forward, pad) == encrypt_bytes(payload, forward, other_pad),
        decrypt_bytes(payload, reverse, pad) == decrypt_bytes(payload, reverse, other_pad),
    decreases payload.len(),
{
    if payload.len() > 0 {
        lemma_output_determined(payload.drop_last(), forward, reverse, pad, other_pad);
    }
}

} // verus!
