//! Common Input Ownership Heuristic (CIOH).

use vstd::prelude::*;

use crate::types::{
    plain_result, spec_with, ExtraModel, ExtraValue, HeuristicModel, HeuristicResult,
    RawTransaction, TxModel,
};

verus! {

/// CIOH: any transaction with more than one input is flagged, with
/// confidence "high" from three inputs on and "medium" with two.
pub open spec fn spec_cioh(tx: TxModel) -> HeuristicModel {
    let n = tx.inputs.len();
    if n <= 1 {
        plain_result(false)
    } else {
        spec_with(
            spec_with(plain_result(true), "input_count"@, ExtraModel::U64(n as u64)),
            "confidence"@,
            ExtraModel::Text(
                if n >= 3 {
                    "high"@
                } else {
                    "medium"@
                },
            ),
        )
    }
}

/// Common Input Ownership Heuristic.
///
/// Transactions where all inputs are assumed to belong to the same entity:
/// if multiple UTXOs are spent together, they were likely controlled by the
/// same wallet. `detected = input_count > 1`, with no script-type filtering
/// and no value analysis.
///
/// Known false positives: CoinJoin (several owners co-sign on purpose),
/// Payjoin, and exchange consolidations. Coinbase transactions do not reach
/// this function.
pub fn run(tx: &RawTransaction<'_>) -> (h: HeuristicResult)
    ensures
        h@ == spec_cioh(tx@),
{
    let input_count = tx.inputs.len();
    if input_count <= 1 {
        return HeuristicResult::not_detected();
    }
    let confidence = if input_count >= 3 {
        "high"
    } else {
        "medium"
    };
    HeuristicResult::detected().with("input_count", ExtraValue::U64(input_count as u64)).with(
        "confidence",
        ExtraValue::Text(confidence.to_owned()),
    )
}

} // verus!
