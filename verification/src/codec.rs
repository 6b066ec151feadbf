//! Wire format of an encoded delta: an 8-byte little-endian base identifier,
//! a 4-byte little-endian change count, then one 8-byte entry per change
//! (4 index bytes, 4 value bytes), in the order the delta holds them.

use vstd::prelude::*;

use crate::bytes::lemma_u32_le_round_trip;
use crate::bytes::lemma_u64_le_round_trip;
use crate::bytes::push_u32_le;
use crate::bytes::push_u64_le;
use crate::bytes::read_u32_le;
use crate::bytes::read_u64_le;
use crate::bytes::u32_from_le_bytes;
use crate::bytes::u32_le_bytes;
use crate::bytes::u64_from_le_bytes;
use crate::bytes::u64_le_bytes;
use crate::delta::DeltaChange;
use crate::delta::DeltaError;
use crate::delta::VectorDelta;

verus! {

/// Largest value the four-byte count and index fields can carry.
pub const FIELD_MAX: u64 = 0xffff_ffff;

/// The delta's fields fit the format's fixed widths: at most `FIELD_MAX`
/// changes, each index at most `FIELD_MAX`.
pub open spec fn encodable(changes: Seq<DeltaChange>) -> bool {
    &&& changes.len() <= FIELD_MAX
    &&& forall|i: int| 0 <= i < changes.len() ==> (#[trigger] changes[i]).index <= FIELD_MAX
}

/// Wire bytes of the change entries, eight bytes each: four little-endian
/// index bytes, then four little-endian value bytes.
pub open spec fn entries_bytes(changes: Seq<DeltaChange>) -> Seq<u8>
    decreases changes.len(),
{
    if changes.len() == 0 {
        Seq::empty()
    } else {
        entries_bytes(changes.drop_last()) + u32_le_bytes(changes.last().index as u32)
            + u32_le_bytes(changes.last().value)
    }
}

/// Complete wire encoding of a delta.
pub open spec fn spec_encode(base_id: u64, changes: Seq<DeltaChange>) -> Seq<u8> {
    u64_le_bytes(base_id) + u32_le_bytes(changes.len() as u32) + entries_bytes(changes)
}

/// The change count an encoded delta's header declares.
pub open spec fn spec_count(bytes: Seq<u8>) -> u32 {
    u32_from_le_bytes(bytes.subrange(8, 12))
}

/// `bytes` is a well-formed encoded delta: it holds the 12-byte header and
/// exactly the entry bytes the header's change count requires.
pub open spec fn spec_decode_ok(bytes: Seq<u8>) -> bool {
    &&& bytes.len() >= 12
    &&& bytes.len() == 12 + 8 * spec_count(bytes)
}

/// The decode error for malformed bytes: `TruncatedInput` when they end
/// before the declared content, `TrailingData` when they continue past it.
pub open spec fn spec_decode_err(bytes: Seq<u8>) -> DeltaError {
    if bytes.len() < 12 + 8 * spec_count(bytes) {
        DeltaError::TruncatedInput
    } else {
        DeltaError::TrailingData
    }
}

/// The change entry at position `i` of a well-formed encoded delta.
pub open spec fn spec_entry(bytes: Seq<u8>, i: int) -> DeltaChange {
    DeltaChange {
        index: u32_from_le_bytes(bytes.subrange(12 + 8 * i, 12 + 8 * i + 4)) as usize,
        value: u32_from_le_bytes(bytes.subrange(12 + 8 * i + 4, 12 + 8 * i + 8)),
    }
}

/// Base identifier an encoded delta's header carries.
pub open spec fn spec_decoded_base_id(bytes: Seq<u8>) -> u64 {
    u64_from_le_bytes(bytes.subrange(0, 8))
}

/// The change sequence a well-formed encoded delta carries, in wire order.
pub open spec fn spec_decoded_changes(bytes: Seq<u8>) -> Seq<DeltaChange> {
    Seq::new(spec_count(bytes) as nat, |i: int| spec_entry(bytes, i))
}

impl VectorDelta {
    /// Serialises this delta deterministically: the same value always yields
    /// identical bytes. Fails with `EncodeError` if and only if the change
    /// count or some change's index overflows its fixed four-byte field —
    /// unreachable for realistic in-memory values, kept defensive.
    pub fn encode(&self) -> (r: Result<Vec<u8>, DeltaError>)
        ensures
            r is Ok <==> encodable(self.changes@),
            r is Ok ==> r->Ok_0@ == spec_encode(self.base_id, self.changes@),
            r is Err ==> r == Err::<Vec<u8>, DeltaError>(DeltaError::EncodeError),
    {
        let n = self.changes.len();
        if n as u64 > FIELD_MAX {
            return Err(DeltaError::EncodeError);
        }
        let mut i: usize = 0;
        while i < n
            invariant
                i <= n,
                n == self.changes@.len(),
                forall|j: int| 0 <= j < i ==> (#[trigger] self.changes@[j]).index <= FIELD_MAX,
            decreases n - i,
        {
            if self.changes[i].index as u64 > FIELD_MAX {
                return Err(DeltaError::EncodeError);
            }
            i = i + 1;
        }
        let mut out: Vec<u8> = Vec::new();
        push_u64_le(&mut out, self.base_id);
        push_u32_le(&mut out, n as u32);
        let mut i: usize = 0;
        while i < n
            invariant
                i <= n,
                n == self.changes@.len(),
                n <= FIELD_MAX,
                forall|j: int| 0 <= j < n ==> (#[trigger] self.changes@[j]).index <= FIELD_MAX,
                out@ == u64_le_bytes(self.base_id) + u32_le_bytes(n as u32) + entries_bytes(
                    self.changes@.subrange(0, i as int),
                ),
            decreases n - i,
        {
            let c = self.changes[i];
            push_u32_le(&mut out, c.index as u32);
            push_u32_le(&mut out, c.value);
            proof {
                let pre = self.changes@.subrange(0, i as int);
                let post = self.changes@.subrange(0, i as int + 1);
                assert(post.drop_last() =~= pre);
                assert(post.last() == self.changes@[i as int]);
                assert(out@ =~= u64_le_bytes(self.base_id) + u32_le_bytes(n as u32)
                    + entries_bytes(post));
            }
            i = i + 1;
        }
        proof {
            assert(self.changes@.subrange(0, n as int) =~= self.changes@);
        }
        Ok(out)
    }

    /// Deserialises an encoded delta, the inverse of `encode`. The buffer
    /// must hold the 12-byte header and exactly the entry bytes the header's
    /// change count declares; a shorter buffer fails with `TruncatedInput`, a
    /// longer one with `TrailingData`, and nothing is ever partially parsed.
    /// The entries are taken in wire order; the order is not re-checked here,
    /// the format contract (ascending indices as produced by `from_vectors`)
    /// being the encoder's to uphold.
    pub fn decode(bytes: &Vec<u8>) -> (r: Result<VectorDelta, DeltaError>)
        ensures
            r is Ok <==> spec_decode_ok(bytes@),
            r is Ok ==> (r->Ok_0).base_id == spec_decoded_base_id(bytes@) && (r->Ok_0).changes@
                == spec_decoded_changes(bytes@),
            r is Err ==> r == Err::<VectorDelta, DeltaError>(spec_decode_err(bytes@)),
    {
        let len = bytes.len();
        if len < 12 {
            return Err(DeltaError::TruncatedInput);
        }
        let base_id = read_u64_le(bytes, 0);
        let count = read_u32_le(bytes, 8);
        let need: u64 = 12 + (count as u64) * 8;
        if (len as u64) < need {
            return Err(DeltaError::TruncatedInput);
        }
        if (len as u64) > need {
            return Err(DeltaError::TrailingData);
        }
        let n = count as usize;
        let mut changes: Vec<DeltaChange> = Vec::new();
        let mut i: usize = 0;
        while i < n
            invariant
                i <= n,
                n == spec_count(bytes@),
                len == bytes@.len(),
                len == 12 + 8 * n,
                changes@.len() == i,
                forall|j: int| 0 <= j < i ==> #[trigger] changes@[j] == spec_entry(bytes@, j),
            decreases n - i,
        {
            let off = 12 + 8 * i;
            let idx = read_u32_le(bytes, off);
            let val = read_u32_le(bytes, off + 4);
            changes.push(DeltaChange { index: idx as usize, value: val });
            i = i + 1;
        }
        proof {
            assert(changes@ =~= spec_decoded_changes(bytes@));
        }
        Ok(VectorDelta { base_id, changes })
    }
}

/// The entry bytes are eight per change.
proof fn lemma_entries_bytes_len(changes: Seq<DeltaChange>)
    ensures
        entries_bytes(changes).len() == 8 * changes.len(),
    decreases changes.len(),
{
    if changes.len() > 0 {
        lemma_entries_bytes_len(changes.drop_last());
    }
}

/// The eight entry bytes at position `i` are the little-endian index bytes
/// followed by the little-endian value bytes of change `i`.
proof fn lemma_entries_bytes_at(changes: Seq<DeltaChange>, i: int)
    requires
        0 <= i < changes.len(),
    ensures
        entries_bytes(changes).subrange(8 * i, 8 * i + 4) == u32_le_bytes(
            changes[i].index as u32,
        ),
        entries_bytes(changes).subrange(8 * i + 4, 8 * i + 8) == u32_le_bytes(changes[i].value),
    decreases changes.len(),
{
    lemma_entries_bytes_len(changes);
    lemma_entries_bytes_len(changes.drop_last());
    if i == changes.len() - 1 {
        assert(entries_bytes(changes).subrange(8 * i, 8 * i + 4) =~= u32_le_bytes(
            changes[i].index as u32,
        ));
        assert(entries_bytes(changes).subrange(8 * i + 4, 8 * i + 8) =~= u32_le_bytes(
            changes[i].value,
        ));
    } else {
        lemma_entries_bytes_at(changes.drop_last(), i);
        assert(changes.drop_last()[i] == changes[i]);
        assert(entries_bytes(changes).subrange(8 * i, 8 * i + 4) =~= entries_bytes(
            changes.drop_last(),
        ).subrange(8 * i, 8 * i + 4));
        assert(entries_bytes(changes).subrange(8 * i + 4, 8 * i + 8) =~= entries_bytes(
            changes.drop_last(),
        ).subrange(8 * i + 4, 8 * i + 8));
    }
}

/// Encode/decode round trip: the wire bytes of any encodable delta are
/// well-formed and decode back to the same base identifier and the same
/// changes in the same order.
pub proof fn lemma_encode_decode_round_trip(base_id: u64, changes: Seq<DeltaChange>)
    requires
        encodable(changes),
    ensures
        spec_decode_ok(spec_encode(base_id, changes)),
        spec_decoded_base_id(spec_encode(base_id, changes)) == base_id,
        spec_decoded_changes(spec_encode(base_id, changes)) == changes,
{
    let bytes = spec_encode(base_id, changes);
    lemma_entries_bytes_len(changes);
    assert(bytes.subrange(0, 8) =~= u64_le_bytes(base_id));
    lemma_u64_le_round_trip(base_id);
    assert(bytes.subrange(8, 12) =~= u32_le_bytes(changes.len() as u32));
    lemma_u32_le_round_trip(changes.len() as u32);
    assert(spec_count(bytes) == changes.len());
    assert forall|i: int| 0 <= i < changes.len() implies spec_entry(bytes, i) == changes[i] by {
        lemma_entries_bytes_at(changes, i);
        assert(bytes.subrange(12 + 8 * i, 12 + 8 * i + 4) =~= entries_bytes(changes).subrange(
            8 * i,
            8 * i + 4,
        ));
        assert(bytes.subrange(12 + 8 * i + 4, 12 + 8 * i + 8) =~= entries_bytes(changes).subrange(
            8 * i + 4,
            8 * i + 8,
        ));
        lemma_u32_le_round_trip(changes[i].index as u32);
        lemma_u32_le_round_trip(changes[i].value);
    }
    assert(spec_decoded_changes(bytes) =~= changes);
}

} // verus!
