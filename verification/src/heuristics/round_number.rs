//! Round Number Payment heuristic.

use vstd::prelude::*;

use crate::types::{
    plain_result, spec_with, ExtraModel, ExtraValue, HeuristicModel, HeuristicResult, OutputModel,
    RawTransaction, TxModel,
};

verus! {

/// A round amount: a nonzero multiple of 100_000 sats (0.001 BTC), which
/// takes in the multiples of 0.01, 0.1 and 1 BTC.
pub open spec fn spec_is_round(v: u64) -> bool {
    v >= 100_000 && v % 100_000 == 0
}

/// A very round amount: at least 1_000_000 sats (0.01 BTC) and a multiple of
/// 1_000_000 sats.
pub open spec fn spec_is_very_round(v: u64) -> bool {
    v >= 1_000_000 && v % 1_000_000 == 0
}

/// Whether `v` is a round amount.
pub fn is_round(v: u64) -> (b: bool)
    ensures
        b == spec_is_round(v),
{
    v >= 100_000 && v % 100_000 == 0
}

/// The indices, in order, of the outputs among `outs` whose value is round.
pub open spec fn round_indices(outs: Seq<OutputModel>) -> Seq<u64>
    decreases outs.len(),
{
    if outs.len() == 0 {
        seq![]
    } else {
        let rest = round_indices(outs.drop_last());
        if spec_is_round(outs.last().value) {
            rest.push((outs.len() - 1) as u64)
        } else {
            rest
        }
    }
}

/// Whether some output among `outs` has a very round value.
pub open spec fn any_very_round(outs: Seq<OutputModel>) -> bool {
    exists|i: int| 0 <= i < outs.len() && spec_is_very_round(#[trigger] outs[i].value)
}

/// Round numbers: detected when some output value is round; reports the
/// round output indices, their count, and confidence "high" when one of them
/// is a multiple of 0.01 BTC, else "medium".
pub open spec fn spec_round_number(tx: TxModel) -> HeuristicModel {
    let idx = round_indices(tx.outputs);
    if idx.len() == 0 {
        plain_result(false)
    } else {
        spec_with(
            spec_with(
                spec_with(plain_result(true), "round_output_indices"@, ExtraModel::U64List(idx)),
                "round_output_count"@,
                ExtraModel::U64(idx.len() as u64),
            ),
            "confidence"@,
            ExtraModel::Text(
                if any_very_round(tx.outputs) {
                    "high"@
                } else {
                    "medium"@
                },
            ),
        )
    }
}

/// Round Number Payment heuristic.
///
/// Outputs whose values are round BTC amounts are more likely intentional
/// payments; non-round outputs are more likely change. Fires on any
/// transaction with a round output, whatever its output count, and reports
/// which indices are round.
///
/// Known false positives: exchange batch withdrawals with standard amounts,
/// consolidations of earlier round-value UTXOs.
pub fn run(tx: &RawTransaction<'_>) -> (h: HeuristicResult)
    ensures
        h@ == spec_round_number(tx@),
{
    let ghost outs = tx@.outputs;
    let mut round: Vec<u64> = Vec::new();
    let mut best_roundness: u8 = 0;
    let mut i: usize = 0;
    while i < tx.outputs.len()
        invariant
            outs == tx@.outputs,
            i <= outs.len(),
            round@ == round_indices(outs.take(i as int)),
            (best_roundness >= 2) == any_very_round(outs.take(i as int)),
        decreases outs.len() - i,
    {
        let v = tx.outputs[i].value;
        proof {
            assert(outs.take(i + 1).drop_last() =~= outs.take(i as int));
            assert(outs[i as int].value == v);
            assert(outs.take(i + 1).last() == outs[i as int]);
        }
        if v >= 1_000_000 && v % 1_000_000 == 0 {
            round.push(i as u64);
            best_roundness = 2;
        } else if v >= 100_000 && v % 100_000 == 0 {
            round.push(i as u64);
            if best_roundness < 1 {
                best_roundness = 1;
            }
        }
        proof {
            assert(spec_is_very_round(v) ==> spec_is_round(v));
            if spec_is_very_round(v) {
                assert(spec_is_very_round(outs.take(i + 1)[i as int].value));
            }
            if any_very_round(outs.take(i as int)) {
                let j = choose|j: int|
                    0 <= j < i && spec_is_very_round(#[trigger] outs.take(i as int)[j].value);
                assert(outs.take(i + 1)[j].value == outs.take(i as int)[j].value);
            }
            if any_very_round(outs.take(i + 1)) && !spec_is_very_round(v) {
                let j = choose|j: int|
                    0 <= j < i + 1 && spec_is_very_round(#[trigger] outs.take(i + 1)[j].value);
                assert(j != i);
                assert(outs.take(i + 1)[j].value == outs.take(i as int)[j].value);
            }
        }
        i = i + 1;
    }
    proof {
        assert(outs.take(i as int) =~= outs);
    }
    if round.len() == 0 {
        return HeuristicResult::not_detected();
    }
    let confidence = if best_roundness >= 2 {
        "high"
    } else {
        "medium"
    };
    let round_output_count = round.len() as u64;
    HeuristicResult::detected().with("round_output_indices", ExtraValue::U64List(round)).with(
        "round_output_count",
        ExtraValue::U64(round_output_count),
    ).with("confidence", ExtraValue::Text(confidence.to_owned()))
}

} // verus!
