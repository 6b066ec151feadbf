//! Embedding vectors: fixed-dimension, typed, immutable numeric buffers.
//!
//! A `Vector` stores its elements as raw little-endian bytes; all comparisons
//! made by the delta codec are bit-exact comparisons of those stored bytes.

use vstd::prelude::*;

use crate::bytes::lemma_u32_le_round_trip;
use crate::bytes::push_u32_le;
use crate::bytes::u32_from_le_bytes;
use crate::bytes::u32_le_bytes;

verus! {

/// Element type of a `Vector`. A closed tagged variant so that further
/// element types can be added without changing the delta format's envelope.
#[derive(Clone, Copy, Debug, PartialEq, Eq, Structural)]
pub enum EmbeddingType {
    /// 32-bit IEEE-754 value, stored as its little-endian bit pattern.
    F32,
}

/// Width in bytes of one element of type `t`.
pub open spec fn spec_element_size(t: EmbeddingType) -> nat {
    4
}

/// A fixed-dimension, typed, immutable numeric buffer (e.g. an embedding),
/// constructed once and never mutated in place: every derived vector is a
/// new value.
#[derive(Debug)]
pub struct Vector {
    /// Number of elements.
    pub dim: usize,
    /// Element type.
    pub dtype: EmbeddingType,
    /// Raw little-endian element bytes, `dim * element_size(dtype)` long.
    pub data: Vec<u8>,
}

impl Vector {
    /// `data` holds exactly `dim` elements of `dtype`'s width.
    pub open spec fn well_formed(self) -> bool {
        self.data@.len() == self.dim * spec_element_size(self.dtype)
    }

    /// Bit pattern of the element at position `i`.
    pub open spec fn elem(self, i: int) -> u32 {
        u32_from_le_bytes(self.data@.subrange(4 * i, 4 * i + 4))
    }

    /// Bit pattern of the element at position `k`.
    pub fn get_elem(&self, k: usize) -> (r: u32)
        requires
            self.well_formed(),
            k < self.dim,
        ensures
            r == self.elem(k as int),
    {
        let n: usize = self.data.len();
        proof {
            assert(4 * k + 4 <= n);
        }
        crate::bytes::read_u32_le(&self.data, 4 * k)
    }

    /// Constructs an F32 vector whose elements are the given 32-bit IEEE-754
    /// bit patterns, in order. Never fails, for any length (an empty input
    /// yields a zero-dimension vector).
    pub fn from_f32_bits(values: &Vec<u32>) -> (r: Vector)
        ensures
            r.well_formed(),
            r.dim == values.len(),
            r.dtype == EmbeddingType::F32,
            forall|i: int| 0 <= i < values@.len() ==> r.data@.subrange(4 * i, 4 * i + 4)
                == u32_le_bytes(values@[i]),
            forall|i: int| 0 <= i < values@.len() ==> r.elem(i) == values@[i],
    {
        let mut data: Vec<u8> = Vec::new();
        let n = values.len();
        let mut k: usize = 0;
        while k < n
            invariant
                k <= n,
                n == values@.len(),
                data@.len() == 4 * k,
                forall|i: int| 0 <= i < k ==> data@.subrange(4 * i, 4 * i + 4)
                    == u32_le_bytes(values@[i]),
            decreases n - k,
        {
            let ghost prev = data@;
            push_u32_le(&mut data, values[k]);
            proof {
                assert forall|i: int| 0 <= i < k + 1 implies data@.subrange(4 * i, 4 * i + 4)
                    == u32_le_bytes(values@[i]) by {
                    if i < k {
                        assert(data@.subrange(4 * i, 4 * i + 4)
                            =~= prev.subrange(4 * i, 4 * i + 4));
                    } else {
                        assert(data@.subrange(4 * i, 4 * i + 4) =~= u32_le_bytes(values@[i as int]));
                    }
                }
            }
            k = k + 1;
        }
        let r = Vector { dim: n, dtype: EmbeddingType::F32, data };
        proof {
            assert forall|i: int| 0 <= i < values@.len() implies r.elem(i) == values@[i] by {
                lemma_u32_le_round_trip(values@[i]);
            }
        }
        r
    }
}

/// Reading four little-endian bytes determines them: two four-byte strings
/// that decode to the same 32-bit value are equal.
pub proof fn lemma_u32_from_le_injective(s: Seq<u8>, t: Seq<u8>)
    requires
        s.len() == 4,
        t.len() == 4,
        u32_from_le_bytes(s) == u32_from_le_bytes(t),
    ensures
        s == t,
{
    let (a0, a1, a2, a3) = (s[0], s[1], s[2], s[3]);
    let (b0, b1, b2, b3) = (t[0], t[1], t[2], t[3]);
    assert(((a0 as u32) | (a1 as u32) << 8 | (a2 as u32) << 16 | (a3 as u32) << 24
        == (b0 as u32) | (b1 as u32) << 8 | (b2 as u32) << 16 | (b3 as u32) << 24)
        ==> (a0 == b0 && a1 == b1 && a2 == b2 && a3 == b3)) by (bit_vector);
    assert(s =~= t);
}

/// Two well-formed vectors of the same dimension and type whose elements are
/// pairwise bit-equal have bit-identical data buffers.
pub proof fn lemma_data_eq_from_elems(a: Vector, b: Vector)
    requires
        a.well_formed(),
        b.well_formed(),
        a.dim == b.dim,
        a.dtype == b.dtype,
        forall|k: int| 0 <= k < a.dim ==> a.elem(k) == b.elem(k),
    ensures
        a.data@ == b.data@,
{
    assert forall|p: int| 0 <= p < a.data@.len() implies a.data@[p] == b.data@[p] by {
        vstd::arithmetic::div_mod::lemma_fundamental_div_mod(p, 4);
        vstd::arithmetic::div_mod::lemma_mod_bound(p, 4);
        let k = p / 4;
        let t = p % 4;
        assert(0 <= k < a.dim);
        assert(a.elem(k) == b.elem(k));
        lemma_u32_from_le_injective(
            a.data@.subrange(4 * k, 4 * k + 4),
            b.data@.subrange(4 * k, 4 * k + 4),
        );
        assert(a.data@[p] == a.data@.subrange(4 * k, 4 * k + 4)[t]);
        assert(b.data@[p] == b.data@.subrange(4 * k, 4 * k + 4)[t]);
    }
    assert(a.data@ =~= b.data@);
}

} // verus!
