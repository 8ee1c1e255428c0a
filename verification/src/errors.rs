//! The ways a wire-format read or write can be refused.  All of them are
//! malformed-input conditions; I/O failures belong to the caller that owns
//! the reader or writer.

use vstd::prelude::*;

verus! {

/// Why a serialized `Params` or `PoK` was refused.
#[derive(Clone, Copy, Debug, PartialEq, Eq, Structural)]
pub enum SerdesError {
    /// The uncompressed form was asked for; only the compressed wire form
    /// exists.
    NotCompressed,
    /// The buffer ends before the structure does.
    TooShort,
    /// A group element fails decompression, canonicity or the subgroup
    /// check.
    BadPoint,
    /// A scalar or target-group coefficient is not below its modulus.
    BadScalar,
    /// The vector length `n` is above 65535.
    NTooLarge,
    /// The vector length `n` is zero.
    NZero,
}

} // verus!
