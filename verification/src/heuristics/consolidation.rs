//! Consolidation detection heuristic.

use vstd::prelude::*;

use crate::heuristics::prevout_types::{
    output_type_names, output_types, resolved_input_types, resolved_types,
};
use crate::text::str_eq;
use crate::types::{
    entry_get, lemma_with_get, plain_result, spec_with, ExtraModel, ExtraValue, HeuristicModel, HeuristicResult, PrevoutMap,
    PrevoutModel, RawTransaction, TxModel,
};

verus! {

/// A non-empty list whose entries are all the same.
pub open spec fn spec_homogeneous(s: Seq<Seq<char>>) -> bool {
    s.len() > 0 && forall|i: int| 0 <= i < s.len() ==> #[trigger] s[i] == s[0]
}

/// The texts of a slice of strings.
pub open spec fn str_slice_view(v: Seq<&str>) -> Seq<Seq<char>> {
    v.map_values(|s: &str| s@)
}

/// Returns true if the slice is non-empty and all its elements are equal.
pub fn is_homogeneous(types: &[&str]) -> (b: bool)
    ensures
        b == spec_homogeneous(str_slice_view(types@)),
{
    let ghost sv = str_slice_view(types@);
    if types.len() == 0 {
        return false;
    }
    let first = types[0];
    let mut i: usize = 0;
    while i < types.len()
        invariant
            sv == str_slice_view(types@),
            types@.len() > 0,
            first@ == sv[0],
            i <= types@.len(),
            forall|j: int| 0 <= j < i ==> #[trigger] sv[j] == sv[0],
        decreases types@.len() - i,
    {
        if !str_eq(types[i], first) {
            proof {
                assert(sv[i as int] != sv[0]);
            }
            return false;
        }
        i = i + 1;
    }
    true
}

/// Consolidation: at least three inputs and at most two outputs. The types
/// are homogeneous when the resolved spent outputs all share one type, the
/// outputs all share one type, and the two agree; confidence is "high" for
/// homogeneous types with five or more inputs, "medium" for homogeneous
/// types otherwise, "low" when not homogeneous.
pub open spec fn spec_consolidation(tx: TxModel, prevouts: Seq<PrevoutModel>) -> HeuristicModel {
    let n_in = tx.inputs.len();
    let n_out = tx.outputs.len();
    if n_in < 3 || n_out > 2 {
        plain_result(false)
    } else {
        let ins = resolved_types(tx.inputs, prevouts);
        let outs = output_types(tx.outputs);
        let homogeneous = ins.len() > 0 && spec_homogeneous(ins) && spec_homogeneous(outs) && ins[0]
            == outs[0];
        spec_with(
            spec_with(
                spec_with(
                    spec_with(plain_result(true), "input_count"@, ExtraModel::U64(n_in as u64)),
                    "output_count"@,
                    ExtraModel::U64(n_out as u64),
                ),
                "homogeneous_types"@,
                ExtraModel::Bool(homogeneous),
            ),
            "confidence"@,
            ExtraModel::Text(
                if n_in >= 5 && homogeneous {
                    "high"@
                } else if homogeneous {
                    "medium"@
                } else {
                    "low"@
                },
            ),
        )
    }
}

/// Consolidation is detected exactly when the transaction has at least
/// three inputs and at most two outputs, and then reports those two counts.
pub proof fn lemma_consolidation_shape(tx: TxModel, prevouts: Seq<PrevoutModel>)
    requires
        tx.inputs.len() <= u64::MAX,
    ensures
        spec_consolidation(tx, prevouts).detected <==> (tx.inputs.len() >= 3 && tx.outputs.len()
            <= 2),
        spec_consolidation(tx, prevouts).detected ==> {
            &&& entry_get(spec_consolidation(tx, prevouts).extra, "input_count"@) == Some(
                ExtraModel::U64(tx.inputs.len() as u64),
            )
            &&& entry_get(spec_consolidation(tx, prevouts).extra, "output_count"@) == Some(
                ExtraModel::U64(tx.outputs.len() as u64),
            )
        },
{
    let n_in = tx.inputs.len();
    let n_out = tx.outputs.len();
    if n_in >= 3 && n_out <= 2 {
        let ins = resolved_types(tx.inputs, prevouts);
        let outs = output_types(tx.outputs);
        let homogeneous = ins.len() > 0 && spec_homogeneous(ins) && spec_homogeneous(outs) && ins[0]
            == outs[0];
        let conf = if n_in >= 5 && homogeneous {
            "high"@
        } else if homogeneous {
            "medium"@
        } else {
            "low"@
        };
        let h0 = spec_with(plain_result(true), "input_count"@, ExtraModel::U64(n_in as u64));
        let h1 = spec_with(h0, "output_count"@, ExtraModel::U64(n_out as u64));
        let h2 = spec_with(h1, "homogeneous_types"@, ExtraModel::Bool(homogeneous));
        assert(spec_consolidation(tx, prevouts) == spec_with(
            h2,
            "confidence"@,
            ExtraModel::Text(conf),
        ));
        reveal_strlit("input_count");
        reveal_strlit("output_count");
        reveal_strlit("homogeneous_types");
        reveal_strlit("confidence");
        assert("input_count"@[0] == 'i');
        assert("output_count"@[0] == 'o');
        assert("homogeneous_types"@[0] == 'h');
        assert("confidence"@[0] == 'c');
        lemma_with_get(h2, "confidence"@, ExtraModel::Text(conf), "input_count"@);
        lemma_with_get(h1, "homogeneous_types"@, ExtraModel::Bool(homogeneous), "input_count"@);
        lemma_with_get(h0, "output_count"@, ExtraModel::U64(n_out as u64), "input_count"@);
        lemma_with_get(plain_result(true), "input_count"@, ExtraModel::U64(n_in as u64), "input_count"@);
        lemma_with_get(h2, "confidence"@, ExtraModel::Text(conf), "output_count"@);
        lemma_with_get(h1, "homogeneous_types"@, ExtraModel::Bool(homogeneous), "output_count"@);
        lemma_with_get(h0, "output_count"@, ExtraModel::U64(n_out as u64), "output_count"@);
    }
}

/// Consolidation detection heuristic.
///
/// Transactions that combine many inputs into few outputs, typically wallet
/// maintenance that shrinks the UTXO set: `input_count >= 3 &&
/// output_count <= 2`. Homogeneous script types across inputs and outputs
/// strengthen confidence. Inputs without prevout data are left out of the
/// type analysis; with none resolved, types never count as homogeneous.
///
/// Known false positives: exchange deposit sweeps (many owners, one hot
/// wallet), CoinJoins with a single output.
pub fn run(tx: &RawTransaction<'_>, prevout_map: &PrevoutMap) -> (h: HeuristicResult)
    ensures
        h@ == spec_consolidation(tx@, prevout_map@),
{
    let input_count = tx.inputs.len();
    let output_count = tx.outputs.len();
    if input_count < 3 || output_count > 2 {
        return HeuristicResult::not_detected();
    }
    let out_types = output_type_names(tx);
    let in_types = resolved_input_types(tx, prevout_map);
    proof {
        assert(str_slice_view(out_types@) =~= crate::heuristics::prevout_types::strs_view(
            out_types@,
        ));
        assert(str_slice_view(in_types@) =~= crate::heuristics::prevout_types::strs_view(
            in_types@,
        ));
    }
    let homogeneous = if in_types.len() == 0 {
        false
    } else {
        is_homogeneous(in_types.as_slice()) && is_homogeneous(out_types.as_slice()) && str_eq(
            in_types[0],
            out_types[0],
        )
    };
    let confidence = if input_count >= 5 && homogeneous {
        "high"
    } else if homogeneous {
        "medium"
    } else {
        "low"
    };
    HeuristicResult::detected().with("input_count", ExtraValue::U64(input_count as u64)).with(
        "output_count",
        ExtraValue::U64(output_count as u64),
    ).with("homogeneous_types", ExtraValue::Bool(homogeneous)).with(
        "confidence",
        ExtraValue::Text(confidence.to_owned()),
    )
}

} // verus!
