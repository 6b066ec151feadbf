//! Delta computation and application: diffing two vectors into a compact
//! patch and applying a patch to a base vector.

use vstd::prelude::*;

use crate::vector::Vector;
use crate::vector::lemma_data_eq_from_elems;

verus! {

/// Errors of the delta codec. All are caller-input or malformed-data errors,
/// surfaced directly and never retried internally.
#[derive(Clone, Copy, Debug, PartialEq, Eq, Structural)]
pub enum DeltaError {
    /// Operand vectors, or a change index and a base vector, disagree on size.
    DimensionMismatch,
    /// Operand vectors have different element types.
    TypeMismatch,
    /// Encoded bytes end before the content their header declares.
    TruncatedInput,
    /// Encoded bytes continue past the content their header declares.
    TrailingData,
    /// An in-memory value does not fit the format's fixed field widths.
    EncodeError,
}

/// One element replacement within a vector.
#[derive(Clone, Copy, Debug, PartialEq, Eq, Structural)]
pub struct DeltaChange {
    /// 0-based position within the vector.
    pub index: usize,
    /// New element bit pattern at that position.
    pub value: u32,
}

/// A compact patch between two vectors of identical dimension and type:
/// a detached, serialisable value that references neither vector.
#[derive(Debug)]
pub struct VectorDelta {
    /// Opaque caller-assigned identifier correlating this delta to the base
    /// vector it patches; round-tripped unchanged, never validated.
    pub base_id: u64,
    /// Element replacements; as produced by `from_vectors`, ordered by
    /// strictly ascending index, possibly empty.
    pub changes: Vec<DeltaChange>,
}

/// The changes' indices are strictly ascending (hence unique).
pub open spec fn changes_ascending(changes: Seq<DeltaChange>) -> bool {
    forall|i: int, j: int| 0 <= i < j < changes.len()
        ==> #[trigger] changes[i].index < #[trigger] changes[j].index
}

/// Every change of `d` names a position within `base`.
pub open spec fn delta_in_bounds(d: VectorDelta, base: Vector) -> bool {
    forall|i: int| 0 <= i < d.changes@.len() ==> (#[trigger] d.changes@[i]).index < base.dim
}

/// `d` is exactly the bit-level difference between `base` and `target`:
/// ascending unique indices, one change per differing position, each carrying
/// `target`'s bit pattern there, and no change at an equal position.
pub open spec fn is_diff(base: Vector, target: Vector, base_id: u64, d: VectorDelta) -> bool {
    &&& d.base_id == base_id
    &&& changes_ascending(d.changes@)
    &&& forall|i: int| 0 <= i < d.changes@.len() ==> {
        &&& (#[trigger] d.changes@[i]).index < base.dim
        &&& d.changes@[i].value == target.elem(d.changes@[i].index as int)
        &&& base.elem(d.changes@[i].index as int) != target.elem(d.changes@[i].index as int)
    }
    &&& forall|k: int|
        0 <= k < base.dim && base.elem(k) != #[trigger] target.elem(k)
            ==> exists|i: int| 0 <= i < d.changes@.len() && (#[trigger] d.changes@[i]).index == k
}

/// Element `k` after the changes are applied in order to the original bit
/// pattern `orig`: the last change naming `k` wins; with none, `orig` stands.
pub open spec fn apply_changes_elem(changes: Seq<DeltaChange>, orig: u32, k: int) -> u32
    decreases changes.len(),
{
    if changes.len() == 0 {
        orig
    } else if changes.last().index == k {
        changes.last().value
    } else {
        apply_changes_elem(changes.drop_last(), orig, k)
    }
}

/// `r` is `base` with every change of `d` applied, element by element.
pub open spec fn applied_to(d: VectorDelta, base: Vector, r: Vector) -> bool {
    &&& r.dim == base.dim
    &&& r.dtype == base.dtype
    &&& r.well_formed()
    &&& forall|k: int| 0 <= k < base.dim
        ==> #[trigger] r.elem(k) == apply_changes_elem(d.changes@, base.elem(k), k)
}

impl VectorDelta {
    /// Diffs `target` against `base`: emits, in ascending index order, one
    /// change for every position whose stored bit patterns differ, carrying
    /// `target`'s pattern there. Fails with `DimensionMismatch` when the
    /// dimensions differ, and with `TypeMismatch` when the dimensions agree
    /// but the element types differ; succeeds otherwise, identical vectors
    /// yielding an empty change sequence.
    pub fn from_vectors(base: &Vector, target: &Vector, base_id: u64) -> (r: Result<
        VectorDelta,
        DeltaError,
    >)
        requires
            base.well_formed(),
            target.well_formed(),
        ensures
            r is Ok <==> (base.dim == target.dim && base.dtype == target.dtype),
            r is Ok ==> is_diff(*base, *target, base_id, r->Ok_0),
            base.dim != target.dim ==> r == Err::<VectorDelta, DeltaError>(
                DeltaError::DimensionMismatch,
            ),
            base.dim == target.dim && base.dtype != target.dtype ==> r == Err::<
                VectorDelta,
                DeltaError,
            >(DeltaError::TypeMismatch),
    {
        if base.dim != target.dim {
            return Err(DeltaError::DimensionMismatch);
        }
        if base.dtype != target.dtype {
            return Err(DeltaError::TypeMismatch);
        }
        let dim = base.dim;
        let mut changes: Vec<DeltaChange> = Vec::new();
        let mut k: usize = 0;
        while k < dim
            invariant
                k <= dim,
                dim == base.dim,
                base.dim == target.dim,
                base.well_formed(),
                target.well_formed(),
                changes_ascending(changes@),
                forall|i: int| 0 <= i < changes@.len() ==> (#[trigger] changes@[i]).index < k,
                forall|i: int| 0 <= i < changes@.len() ==> {
                    &&& (#[trigger] changes@[i]).value == target.elem(changes@[i].index as int)
                    &&& base.elem(changes@[i].index as int) != target.elem(
                        changes@[i].index as int,
                    )
                },
                forall|j: int|
                    0 <= j < k && base.elem(j) != #[trigger] target.elem(j)
                        ==> exists|i: int| 0 <= i < changes@.len() && (#[trigger] changes@[i]).index
                        == j,
            decreases dim - k,
        {
            let bv = base.get_elem(k);
            let tv = target.get_elem(k);
            if bv != tv {
                let ghost prev = changes@;
                changes.push(DeltaChange { index: k, value: tv });
                proof {
                    assert forall|j: int|
                        0 <= j < k + 1 && base.elem(j) != #[trigger] target.elem(j)
                            implies exists|i: int| 0 <= i < changes@.len()
                            && (#[trigger] changes@[i]).index == j by {
                        if j < k {
                            let i = choose|i: int| 0 <= i < prev.len()
                                && (#[trigger] prev[i]).index == j;
                            assert(changes@[i].index == j);
                        } else {
                            assert(changes@[changes@.len() - 1].index == j);
                        }
                    }
                }
            }
            k = k + 1;
        }
        let ghost snap = changes@;
        let d = VectorDelta { base_id, changes };
        proof {
            assert forall|k: int|
                0 <= k < base.dim && base.elem(k) != #[trigger] target.elem(k)
                    implies exists|i: int| 0 <= i < d.changes@.len()
                    && (#[trigger] d.changes@[i]).index == k by {
                let i = choose|i: int| 0 <= i < snap.len() && (#[trigger] snap[i]).index == k;
                assert(d.changes@[i].index == k);
            }
        }
        Ok(d)
    }

    /// Applies this delta to `base` as a pure, allocating transform: returns
    /// a new vector, `base`'s copy with each change's element overwritten in
    /// order, leaving `base` untouched. Fails with `DimensionMismatch` if and
    /// only if some change's index lies outside `base`'s dimension. The
    /// delta's `base_id` is not validated against `base`: applying a delta to
    /// the right base vector is the caller's contract.
    pub fn apply(&self, base: &Vector) -> (r: Result<Vector, DeltaError>)
        requires
            base.well_formed(),
        ensures
            r is Ok <==> delta_in_bounds(*self, *base),
            r is Err ==> r == Err::<Vector, DeltaError>(DeltaError::DimensionMismatch),
            r is Ok ==> applied_to(*self, *base, r->Ok_0),
    {
        let n = self.changes.len();
        let mut i: usize = 0;
        while i < n
            invariant
                i <= n,
                n == self.changes@.len(),
                forall|j: int| 0 <= j < i ==> (#[trigger] self.changes@[j]).index < base.dim,
            decreases n - i,
        {
            if self.changes[i].index >= base.dim {
                return Err(DeltaError::DimensionMismatch);
            }
            i = i + 1;
        }
        let len = base.data.len();
        let mut data: Vec<u8> = Vec::new();
        let mut p: usize = 0;
        while p < len
            invariant
                p <= len,
                len == base.data@.len(),
                data@ == base.data@.subrange(0, p as int),
            decreases len - p,
        {
            data.push(base.data[p]);
            proof {
                assert(data@ =~= base.data@.subrange(0, p as int + 1));
            }
            p = p + 1;
        }
        proof {
            assert(data@ =~= base.data@);
        }
        let mut i: usize = 0;
        while i < n
            invariant
                i <= n,
                n == self.changes@.len(),
                base.well_formed(),
                delta_in_bounds(*self, *base),
                len == base.data@.len(),
                data@.len() == len,
                forall|k: int|
                    0 <= k < base.dim ==> crate::bytes::u32_from_le_bytes(
                        #[trigger] data@.subrange(4 * k, 4 * k + 4),
                    ) == apply_changes_elem(
                        self.changes@.subrange(0, i as int),
                        base.elem(k),
                        k,
                    ),
            decreases n - i,
        {
            let c = self.changes[i];
            let ghost prev = data@;
            proof {
                assert(c == self.changes@[i as int]);
                assert(c.index < base.dim);
                assert(4 * c.index + 4 <= len);
            }
            crate::bytes::write_u32_le(&mut data, 4 * c.index, c.value);
            proof {
                lemma_apply_step(self.changes@, i as int, *base, prev, data@);
            }
            i = i + 1;
        }
        let r = Vector { dim: base.dim, dtype: base.dtype, data };
        proof {
            assert(self.changes@.subrange(0, n as int) =~= self.changes@);
        }
        Ok(r)
    }
}

/// One step of `apply`: overwriting the four bytes of the element named by
/// change `i` advances every element's decoded value from the prefix of
/// length `i` to the prefix of length `i + 1`.
proof fn lemma_apply_step(
    changes: Seq<DeltaChange>,
    i: int,
    base: Vector,
    prev: Seq<u8>,
    cur: Seq<u8>,
)
    requires
        0 <= i < changes.len(),
        base.well_formed(),
        changes[i].index < base.dim,
        prev.len() == base.data@.len(),
        cur.len() == prev.len(),
        cur.subrange(4 * changes[i].index as int, 4 * changes[i].index as int + 4)
            == crate::bytes::u32_le_bytes(changes[i].value),
        forall|p: int|
            0 <= p < prev.len() && !(4 * changes[i].index <= p < 4 * changes[i].index + 4)
                ==> #[trigger] cur[p] == prev[p],
        forall|k: int|
            0 <= k < base.dim ==> crate::bytes::u32_from_le_bytes(
                #[trigger] prev.subrange(4 * k, 4 * k + 4),
            ) == apply_changes_elem(changes.subrange(0, i), base.elem(k), k),
    ensures
        forall|k: int|
            0 <= k < base.dim ==> crate::bytes::u32_from_le_bytes(
                #[trigger] cur.subrange(4 * k, 4 * k + 4),
            ) == apply_changes_elem(changes.subrange(0, i + 1), base.elem(k), k),
{
    let ci = changes[i].index as int;
    assert(changes.subrange(0, i + 1).drop_last() =~= changes.subrange(0, i));
    assert forall|k: int| 0 <= k < base.dim implies crate::bytes::u32_from_le_bytes(
        #[trigger] cur.subrange(4 * k, 4 * k + 4),
    ) == apply_changes_elem(changes.subrange(0, i + 1), base.elem(k), k) by {
        if k == ci {
            assert(cur.subrange(4 * k, 4 * k + 4) == crate::bytes::u32_le_bytes(changes[i].value));
            crate::bytes::lemma_u32_le_round_trip(changes[i].value);
        } else {
            assert(cur.subrange(4 * k, 4 * k + 4) =~= prev.subrange(4 * k, 4 * k + 4));
        }
    }
}

/// No change names position `k`, so applying the changes leaves `k`'s
/// original bit pattern standing.
proof fn lemma_apply_changes_absent(changes: Seq<DeltaChange>, orig: u32, k: int)
    requires
        forall|i: int| 0 <= i < changes.len() ==> (#[trigger] changes[i]).index != k,
    ensures
        apply_changes_elem(changes, orig, k) == orig,
    decreases changes.len(),
{
    if changes.len() > 0 {
        lemma_apply_changes_absent(changes.drop_last(), orig, k);
    }
}

/// With strictly ascending indices, the change at position `i` is the only
/// one naming its index, so applying the changes puts its value there.
proof fn lemma_apply_changes_present(changes: Seq<DeltaChange>, orig: u32, k: int, i: int)
    requires
        changes_ascending(changes),
        0 <= i < changes.len(),
        changes[i].index == k,
    ensures
        apply_changes_elem(changes, orig, k) == changes[i].value,
    decreases changes.len(),
{
    if i == changes.len() - 1 {
    } else {
        assert(changes[i].index < changes[changes.len() - 1].index);
        assert(changes.drop_last()[i] == changes[i]);
        lemma_apply_changes_present(changes.drop_last(), orig, k, i);
    }
}

/// Round-trip identity: applying the diff of `base` and `target` to `base`
/// reconstructs `target` bit-exactly — same dimension, same element type,
/// byte-identical data.
pub proof fn lemma_delta_round_trip(
    base: Vector,
    target: Vector,
    base_id: u64,
    d: VectorDelta,
    r: Vector,
)
    requires
        base.well_formed(),
        target.well_formed(),
        base.dim == target.dim,
        base.dtype == target.dtype,
        is_diff(base, target, base_id, d),
        applied_to(d, base, r),
    ensures
        r.dim == target.dim,
        r.dtype == target.dtype,
        r.data@ == target.data@,
{
    assert forall|k: int| 0 <= k < target.dim implies r.elem(k) == target.elem(k) by {
        if base.elem(k) == target.elem(k) {
            assert forall|i: int| 0 <= i < d.changes@.len()
                implies (#[trigger] d.changes@[i]).index != k by {
                if d.changes@[i].index == k {
                    assert(base.elem(k) != target.elem(k));
                }
            }
            lemma_apply_changes_absent(d.changes@, base.elem(k), k);
        } else {
            let i = choose|i: int| 0 <= i < d.changes@.len() && (#[trigger] d.changes@[i]).index
                == k;
            lemma_apply_changes_present(d.changes@, base.elem(k), k, i);
        }
    }
    lemma_data_eq_from_elems(r, target);
}

/// Idempotent no-op: a vector diffed against itself yields a delta with an
/// empty change sequence.
pub proof fn lemma_self_diff_empty(v: Vector, base_id: u64, d: VectorDelta)
    requires
        is_diff(v, v, base_id, d),
    ensures
        d.changes@.len() == 0,
{
    if d.changes@.len() > 0 {
        let c0 = d.changes@[0];
        assert(v.elem(c0.index as int) != v.elem(c0.index as int));
    }
}

} // verus!
