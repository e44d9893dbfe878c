//! One run of the tool, from what its files hold to what it has to write.
//! Nothing is to be written before a run has succeeded as a whole, so a run
//! that fails leaves every file as it was.

use vstd::prelude::*;
use crate::error::CipherError;
use crate::forward::{forward_of, parse_conversion_table};
use crate::ledger::{acquire, commit, keeps, pool_bytes, Commit};
use crate::pipeline::{decrypt, decrypt_bytes, encrypt, encrypt_bytes};
use crate::reverse::{parse_reverse_table, plus_tokens_well_formed, reverse_of};
use crate::table::table_entries;

verus! {

/// What a successful run has to write.
#[derive(Debug, PartialEq, Eq)]
pub struct Run {
    /// The output file: as long as the payload.
    pub output: Vec<u8>,
    /// The used-pad archive and the pool.
    pub commit: Commit,
}

/// Whether `run` takes its pad from the front of `pool`, one byte for each
/// byte of a payload of length `n`, and leaves the rest as the pool.
pub open spec fn consumes(run: Run, pool: Seq<u8>, n: int) -> bool {
    &&& run.commit.archive@ == pool.take(n)
    &&& keeps(run.commit.pool, pool.skip(n))
}

/// A run that encrypts `payload`. The pool is checked first: where it is
/// shorter than the payload the run fails with `InsufficientPad`, whatever
/// the table says. Then the table is read, and a malformed one fails the
/// run with `Parse`. Every other run succeeds.
pub fn encrypt_run(pool: Option<Vec<u8>>, payload: &[u8], table_text: &str) -> (r: Result<
    Run,
    CipherError,
>)
    ensures
        pool_bytes(pool).len() < payload@.len() ==> r is Err && r->Err_0
            == CipherError::InsufficientPad,
        pool_bytes(pool).len() >= payload@.len() ==> match table_entries(table_text@) {
            None => r is Err && r->Err_0 == CipherError::Parse,
            Some(entries) => r is Ok && consumes(r->Ok_0, pool_bytes(pool), payload@.len() as int)
                && r->Ok_0.output@ == encrypt_bytes(
                payload@,
                forward_of(entries),
                pool_bytes(pool).take(payload@.len() as int),
            ),
        },
{
    let acquisition = match acquire(pool, payload.len()) {
        Ok(acquisition) => acquisition,
        Err(e) => {
            return Err(e);
        },
    };
    let table = match parse_conversion_table(table_text) {
        Ok(table) => table,
        Err(e) => {
            return Err(e);
        },
    };
    match encrypt(payload, &table, acquisition.used.as_slice()) {
        Ok(output) => Ok(Run { output, commit: commit(acquisition) }),
        Err(e) => Err(e),
    }
}

/// A run that decrypts `payload`. The pool is checked first, then the table
/// is read, as in a run that encrypts; a `+` token with a malformed
/// magnitude makes the table malformed too. Then the run fails with the
/// error of the first byte of the payload that cannot be decoded, if there
/// is one.
pub fn decrypt_run(pool: Option<Vec<u8>>, payload: &[u8], table_text: &str) -> (r: Result<
    Run,
    CipherError,
>)
    ensures
        pool_bytes(pool).len() < payload@.len() ==> r is Err && r->Err_0
            == CipherError::InsufficientPad,
        pool_bytes(pool).len() >= payload@.len() ==> match table_entries(table_text@) {
            Some(entries) if plus_tokens_well_formed(entries) => match decrypt_bytes(
                payload@,
                reverse_of(entries),
                pool_bytes(pool).take(payload@.len() as int),
            ) {
                Ok(plain) => r is Ok && consumes(
                    r->Ok_0,
                    pool_bytes(pool),
                    payload@.len() as int,
                ) && r->Ok_0.output@ == plain,
                Err(e) => r is Err && r->Err_0 == e,
            },
            _ => r is Err && r->Err_0 == CipherError::Parse,
        },
{
    let acquisition = match acquire(pool, payload.len()) {
        Ok(acquisition) => acquisition,
        Err(e) => {
            return Err(e);
        },
    };
    let table = match parse_reverse_table(table_text) {
        Ok(table) => table,
        Err(e) => {
            return Err(e);
        },
    };
    match decrypt(payload, &table, acquisition.used.as_slice()) {
        Ok(output) => Ok(Run { output, commit: commit(acquisition) }),
        Err(e) => Err(e),
    }
}

} // verus!
