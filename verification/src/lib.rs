//! Embedding vector delta codec.
//!
//! Computes a compact patch (`VectorDelta`) between two same-typed embedding
//! vectors, serialises and deserialises that patch, and applies it to a base
//! vector to reconstruct the updated vector bit-exactly.

pub mod bytes;
pub mod codec;
pub mod delta;
pub mod vector;

use vstd::prelude::*;

verus! {

/// Human-readable version tag of this library.
pub fn version() -> (r: &'static str)
    ensures
        r@ == "lnmp-sdk-rust v0.1.0"@,
        r@.len() > 0,
{
    proof {
        reveal_strlit("lnmp-sdk-rust v0.1.0");
    }
    "lnmp-sdk-rust v0.1.0"
}

} // verus!
