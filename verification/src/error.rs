//! The ways in which a run of the cipher can fail.

use vstd::prelude::*;

verus! {

/// Why a table could not be read or a run could not be made.
#[derive(Clone, Copy, Debug, PartialEq, Eq, Structural)]
pub enum CipherError {
    /// The conversion table is malformed: a line with `=` whose value is not
    /// two hexadecimal digits, or a token whose magnitude is not.
    Parse,
    /// The pad pool holds fewer bytes than the payload.
    InsufficientPad,
    /// A code byte of the payload has no token in the reverse table.
    Lookup,
    /// A token of the reverse table begins with neither `+` nor `-`.
    InvalidOperator,
}

} // verus!
