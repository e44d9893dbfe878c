//! The pad generator: random bytes for a pool, made one chunk at a time.

use rand::Rng;
use vstd::prelude::*;

verus! {

/// The most bytes that the generator makes at once.
pub const CHUNK_SIZE: usize = 1_048_576;

/// How many bytes to make next, for a pool of `total` bytes of which
/// `written` are made, with room for `capacity`: what is left to make, or
/// `capacity` where that is less.
pub open spec fn chunk_len(total: u64, written: u64, capacity: nat) -> nat {
    if written >= total {
        0
    } else if total - written <= capacity {
        (total - written) as nat
    } else {
        capacity
    }
}

/// Random bytes: `rand::Rng::fill` on the generator of `rand::thread_rng`,
/// which overwrites the slice it is given, here the first `count` bytes of
/// `buffer`. The bytes behind them stay, and nothing is said of the bytes
/// written. The call fails only if the operating system has no entropy to
/// seed the generator with.
#[verifier::external_body]
fn fill_random(buffer: &mut Vec<u8>, count: usize)
    requires
        count <= old(buffer)@.len(),
    ensures
        final(buffer)@.len() == old(buffer)@.len(),
        final(buffer)@.skip(count as int) == old(buffer)@.skip(count as int),
{
    rand::thread_rng().fill(&mut buffer[..count]);
}

/// Makes the next chunk of a pool at the front of `buffer`, and returns its
/// length. The rest of `buffer` is left as it was.
pub fn fill_chunk(buffer: &mut Vec<u8>, total: u64, written: u64) -> (count: usize)
    ensures
        count == chunk_len(total, written, old(buffer)@.len()),
        final(buffer)@.len() == old(buffer)@.len(),
        final(buffer)@.skip(count as int) == old(buffer)@.skip(count as int),
{
    let capacity = buffer.len();
    let count = if written >= total {
        0
    } else if total - written <= capacity as u64 {
        (total - written) as usize
    } else {
        capacity
    };
    fill_random(buffer, count);
    count
}

} // verus!
