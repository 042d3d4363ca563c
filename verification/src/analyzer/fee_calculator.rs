//! Transaction size, BIP141 weight and virtual size.

use vstd::prelude::*;

use crate::types::RawTransaction;

verus! {

/// Size, weight and virtual size of a transaction.
pub struct WeightInfo {
    pub size_bytes: usize,
    pub weight: u64,
    pub vbytes: u64,
}

/// The BIP141 weight of a transaction of `total` bytes whose legacy
/// serialization has `base` bytes: `base * 3 + total` for SegWit, `total * 4`
/// otherwise.
pub open spec fn spec_weight(segwit: bool, base: nat, total: nat) -> nat {
    if segwit {
        base * 3 + total
    } else {
        total * 4
    }
}

/// Virtual bytes: weight / 4, rounded up.
pub open spec fn spec_vbytes(weight: nat) -> nat {
    (weight + 3) / 4
}

/// The virtual size of a legacy transaction is its size; that of a SegWit
/// transaction is no larger than its size and no smaller than its legacy
/// serialization.
pub proof fn lemma_vbytes_bounds(segwit: bool, base: nat, total: nat)
    requires
        base <= total,
    ensures
        !segwit ==> spec_vbytes(spec_weight(segwit, base, total)) == total,
        segwit ==> base <= spec_vbytes(spec_weight(segwit, base, total)) <= total,
{
}

/// Whether the weight of `tx` and its rounding fit in a u64.
pub open spec fn weight_fits(tx: RawTransaction<'_>) -> bool {
    tx.legacy_bytes@.len() * 3 + tx.full_bytes@.len() * 4 + 3 <= u64::MAX
}

/// Compute size, weight, and virtual bytes per BIP141.
///
/// weight = base_size * 3 + total_size, where base_size is the legacy
/// serialization (no marker, flag or witness) and total_size the full one.
/// This equals `base * 4 + (total - base)`, but the subtraction form would
/// count the two marker and flag bytes as witness data.
pub fn compute_weight(tx: &RawTransaction<'_>) -> (w: WeightInfo)
    requires
        weight_fits(*tx),
    ensures
        w.size_bytes == tx.full_bytes@.len(),
        w.weight == spec_weight(tx.is_segwit, tx.legacy_bytes@.len(), tx.full_bytes@.len()),
        w.vbytes == spec_vbytes(w.weight as nat),
{
    let size = tx.full_bytes.len();
    let weight = if tx.is_segwit {
        let base = tx.legacy_bytes.len() as u64;
        let total = size as u64;
        base * 3 + total
    } else {
        size as u64 * 4
    };
    let vbytes = (weight + 3) / 4;
    WeightInfo { size_bytes: size, weight, vbytes }
}

/// The integer part of a SegWit savings analysis.
pub struct SegwitWeights {
    /// `total - legacy`: the witness data with the 2 marker and flag bytes.
    pub witness_bytes: usize,
    pub non_witness_bytes: usize,
    pub total_bytes: usize,
    pub weight_actual: u64,
    /// The weight the transaction would have without witness data.
    pub weight_if_legacy: u64,
}

/// Sizes and weights of a SegWit transaction; `None` for legacy ones.
pub fn compute_segwit_weights(tx: &RawTransaction<'_>) -> (r: Option<SegwitWeights>)
    requires
        weight_fits(*tx),
        tx.legacy_bytes@.len() <= tx.full_bytes@.len(),
    ensures
        r is None <==> !tx.is_segwit,
        r matches Some(s) ==> {
            &&& s.total_bytes == tx.full_bytes@.len()
            &&& s.non_witness_bytes == tx.legacy_bytes@.len()
            &&& s.witness_bytes == tx.full_bytes@.len() - tx.legacy_bytes@.len()
            &&& s.weight_actual == tx.legacy_bytes@.len() * 3 + tx.full_bytes@.len()
            &&& s.weight_if_legacy == tx.legacy_bytes@.len() * 4
        },
{
    if !tx.is_segwit {
        return None;
    }
    let total = tx.full_bytes.len();
    let non_w = tx.legacy_bytes.len();
    let w_bytes = total - non_w;
    let weight_actual = (non_w as u64) * 3 + (total as u64);
    let weight_if_legacy = (non_w as u64) * 4;
    Some(
        SegwitWeights {
            witness_bytes: w_bytes,
            non_witness_bytes: non_w,
            total_bytes: total,
            weight_actual,
            weight_if_legacy,
        },
    )
}

} // verus!
