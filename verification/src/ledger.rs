//! The pad ledger: how a run takes its pad from the front of the pool, and
//! what it leaves behind. The pool is a file; a pool file that is not there
//! is a pool without bytes, and a pool without bytes is kept as no file.

use vstd::prelude::*;
use crate::error::CipherError;

verus! {

/// The bytes of a pool, given what its file holds, if there is a file.
pub open spec fn pool_bytes(pool: Option<Vec<u8>>) -> Seq<u8> {
    match pool {
        Some(bytes) => bytes@,
        None => Seq::empty(),
    }
}

/// Whether `pool` is how a pool of `bytes` is kept: as no file where there
/// are no bytes, else as a file of just those bytes.
pub open spec fn keeps(pool: Option<Vec<u8>>, bytes: Seq<u8>) -> bool {
    if bytes.len() == 0 {
        pool is None
    } else {
        pool is Some && pool->0@ == bytes
    }
}

/// A pool split for one run.
#[derive(Debug, PartialEq, Eq)]
pub struct Acquisition {
    /// The pad of this run: as many bytes as the payload has, from the front
    /// of the pool.
    pub used: Vec<u8>,
    /// What the pool holds after this run.
    pub remaining: Vec<u8>,
}

/// What a run leaves on disk.
#[derive(Debug, PartialEq, Eq)]
pub struct Commit {
    /// The used-pad archive, which replaces that of the run before.
    pub archive: Vec<u8>,
    /// The pool file: its new contents, or `None` where it is to be removed.
    pub pool: Option<Vec<u8>>,
}

/// Takes `n` bytes from the front of the pool. It fails, with nothing
/// taken, exactly where the pool holds fewer than `n` bytes.
pub fn acquire(pool: Option<Vec<u8>>, n: usize) -> (r: Result<Acquisition, CipherError>)
    ensures
        pool_bytes(pool).len() < n ==> r is Err && r->Err_0 == CipherError::InsufficientPad,
        pool_bytes(pool).len() >= n ==> r is Ok && r->Ok_0.used@ == pool_bytes(pool).take(n as int)
            && r->Ok_0.remaining@ == pool_bytes(pool).skip(n as int),
{
    let mut used = match pool {
        Some(bytes) => bytes,
        None => Vec::new(),
    };
    if used.len() < n {
        return Err(CipherError::InsufficientPad);
    }
    let remaining = used.split_off(n);
    Ok(Acquisition { used, remaining })
}

/// Says what to write for an acquisition: the used bytes as the archive, and
/// the remaining bytes as the pool, which goes away once it is empty. The
/// next run then finds a pool of just the remaining bytes.
pub fn commit(acquisition: Acquisition) -> (c: Commit)
    ensures
        c.archive@ == acquisition.used@,
        keeps(c.pool, acquisition.remaining@),
        pool_bytes(c.pool) == acquisition.remaining@,
{
    let Acquisition { used, remaining } = acquisition;
    let pool = if remaining.len() == 0 {
        None
    } else {
        Some(remaining)
    };
    Commit { archive: used, pool }
}

/// Partition: taking `n` bytes splits the pool in two. The used part has `n`
/// bytes, the first `n` of the pool; the remaining part has the others; and
/// the two together are the pool as it was.
pub proof fn lemma_pad_partition(pool: Seq<u8>, n: nat)
    requires
        n <= pool.len(),
    ensures
        pool.take(n as int).len() == n,
        pool.skip(n as int).len() == pool.len() - n,
        forall|i: int| 0 <= i < n ==> pool.take(n as int)[i] == pool[i],
        pool.take(n as int) + pool.skip(n as int) == pool,
{
}

/// Two runs in a row take adjoining parts of the pool: no byte is used
/// twice, none is passed over, and the pool that the second run leaves is
/// the one that a single run of both lengths would leave.
pub proof fn lemma_pad_used_once(pool: Seq<u8>, first: nat, second: nat)
    requires
        first + second <= pool.len(),
    ensures
        pool.take(first as int) + pool.skip(first as int).take(second as int) == pool.take(
            (first + second) as int,
        ),
        pool.skip(first as int).skip(second as int) == pool.skip((first + second) as int),
{
}

} // verus!
