//! Self-transfer detection heuristic.

use vstd::prelude::*;

use crate::analyzer::script_classifier::{classify_output, spec_classify_output, OutputScriptType};
use crate::heuristics::prevout_types::{resolved_input_types, resolved_types, script_type_name, strs_view};
use crate::heuristics::round_number::{is_round, spec_is_round};
use crate::text::str_eq;
use crate::types::{
    plain_result, spec_with, ExtraModel, ExtraValue, HeuristicModel, HeuristicResult, OutputModel,
    PrevoutMap, PrevoutModel, RawTransaction, TxModel,
};

verus! {

/// The type names that carry an ownership signal: all but "op_return" and
/// "unknown", in order.
pub open spec fn signal_types(s: Seq<Seq<char>>) -> Seq<Seq<char>>
    decreases s.len(),
{
    if s.len() == 0 {
        seq![]
    } else {
        let rest = signal_types(s.drop_last());
        if s.last() != "op_return"@ && s.last() != "unknown"@ {
            rest.push(s.last())
        } else {
            rest
        }
    }
}

/// The type names of the spendable (non-OP_RETURN) outputs, in order.
pub open spec fn spendable_types(outs: Seq<OutputModel>) -> Seq<Seq<char>>
    decreases outs.len(),
{
    if outs.len() == 0 {
        seq![]
    } else {
        let rest = spendable_types(outs.drop_last());
        if spec_classify_output(outs.last().script_pubkey) != OutputScriptType::OpReturn {
            rest.push(script_type_name(outs.last().script_pubkey))
        } else {
            rest
        }
    }
}

/// Every entry of `s` is `t`.
pub open spec fn all_equal_to(s: Seq<Seq<char>>, t: Seq<char>) -> bool {
    forall|i: int| 0 <= i < s.len() ==> #[trigger] s[i] == t
}

/// Whether some output has a round value.
pub open spec fn any_round_output(outs: Seq<OutputModel>) -> bool {
    exists|i: int| 0 <= i < outs.len() && spec_is_round(#[trigger] outs[i].value)
}

/// Self-transfer: one or two outputs, none of them with a round value; the
/// resolved spent outputs with an ownership signal all share one type, and
/// every spendable output has that type too (there is at least one of
/// each). Confidence is "high" with two or more such inputs or outputs,
/// else "medium".
pub open spec fn spec_self_transfer(tx: TxModel, prevouts: Seq<PrevoutModel>) -> HeuristicModel {
    let ins = signal_types(resolved_types(tx.inputs, prevouts));
    let outs = spendable_types(tx.outputs);
    if tx.outputs.len() == 0 || tx.outputs.len() > 2 || any_round_output(tx.outputs) {
        plain_result(false)
    } else if ins.len() == 0 || !all_equal_to(ins, ins[0]) || outs.len() == 0 || !all_equal_to(
        outs,
        ins[0],
    ) {
        plain_result(false)
    } else {
        spec_with(
            spec_with(
                spec_with(
                    spec_with(plain_result(true), "script_type"@, ExtraModel::Text(ins[0])),
                    "input_count"@,
                    ExtraModel::U64(tx.inputs.len() as u64),
                ),
                "output_count"@,
                ExtraModel::U64(tx.outputs.len() as u64),
            ),
            "confidence"@,
            ExtraModel::Text(
                if ins.len() >= 2 || outs.len() >= 2 {
                    "high"@
                } else {
                    "medium"@
                },
            ),
        )
    }
}

/// Whether every entry of `v` is `t`.
fn all_are(v: &Vec<&'static str>, t: &str) -> (b: bool)
    ensures
        b == all_equal_to(strs_view(v@), t@),
{
    let ghost sv = strs_view(v@);
    let mut i: usize = 0;
    while i < v.len()
        invariant
            sv == strs_view(v@),
            i <= v@.len(),
            forall|j: int| 0 <= j < i ==> #[trigger] sv[j] == t@,
        decreases v@.len() - i,
    {
        if !str_eq(v[i], t) {
            proof {
                assert(sv[i as int] != t@);
            }
            return false;
        }
        i = i + 1;
    }
    true
}

/// Self-transfer detection heuristic.
///
/// Transactions where every spendable output seems to belong to the owner
/// of the inputs: one or two outputs, none with a round value (which would
/// mark a payment), and all resolved inputs and all non-OP_RETURN outputs
/// share one script type. At least one input must resolve, else there is
/// no signal.
///
/// Known false positives: ordinary payments between two parties who both
/// use the same script type (very common), change-only transactions.
pub fn run(tx: &RawTransaction<'_>, prevout_map: &PrevoutMap) -> (h: HeuristicResult)
    ensures
        h@ == spec_self_transfer(tx@, prevout_map@),
{
    if tx.outputs.len() == 0 || tx.outputs.len() > 2 {
        return HeuristicResult::not_detected();
    }
    proof {
        assert(tx@.outputs[0] == tx.outputs@[0]@);
        if tx.outputs.len() == 2 {
            assert(tx@.outputs[1] == tx.outputs@[1]@);
        }
    }
    if is_round(tx.outputs[0].value) {
        proof {
            assert(spec_is_round(tx@.outputs[0].value));
        }
        return HeuristicResult::not_detected();
    }
    if tx.outputs.len() == 2 && is_round(tx.outputs[1].value) {
        proof {
            assert(spec_is_round(tx@.outputs[1].value));
        }
        return HeuristicResult::not_detected();
    }
    proof {
        assert(!any_round_output(tx@.outputs)) by {
            assert forall|i: int| 0 <= i < tx@.outputs.len() implies !spec_is_round(
                #[trigger] tx@.outputs[i].value,
            ) by {
                assert(i == 0 || i == 1);
            }
        }
    }
    let resolved = resolved_input_types(tx, prevout_map);
    let ghost rv = strs_view(resolved@);
    let mut in_types: Vec<&'static str> = Vec::new();
    let mut i: usize = 0;
    while i < resolved.len()
        invariant
            rv == strs_view(resolved@),
            i <= rv.len(),
            strs_view(in_types@) == signal_types(rv.take(i as int)),
        decreases rv.len() - i,
    {
        let t = resolved[i];
        proof {
            assert(rv.take(i + 1).drop_last() =~= rv.take(i as int));
            assert(rv.take(i + 1).last() == t@);
            reveal_strlit("op_return");
            reveal_strlit("unknown");
        }
        let ghost prev = in_types@;
        if !str_eq(t, "op_return") && !str_eq(t, "unknown") {
            in_types.push(t);
            proof {
                assert(strs_view(in_types@) =~= strs_view(prev).push(t@));
            }
        }
        i = i + 1;
    }
    proof {
        assert(rv.take(i as int) =~= rv);
    }
    if in_types.len() == 0 {
        return HeuristicResult::not_detected();
    }
    let dominant = in_types[0];
    if !all_are(&in_types, dominant) {
        return HeuristicResult::not_detected();
    }
    let ghost outs = tx@.outputs;
    let mut out_types: Vec<&'static str> = Vec::new();
    let mut k: usize = 0;
    while k < tx.outputs.len()
        invariant
            outs == tx@.outputs,
            k <= outs.len(),
            strs_view(out_types@) == spendable_types(outs.take(k as int)),
        decreases outs.len() - k,
    {
        let t = classify_output(tx.outputs[k].script_pubkey);
        proof {
            assert(outs.take(k + 1).drop_last() =~= outs.take(k as int));
            assert(outs.take(k + 1).last() == outs[k as int]);
            assert(outs[k as int] == tx.outputs@[k as int]@);
        }
        let ghost prev = out_types@;
        if t != OutputScriptType::OpReturn {
            let name = t.as_str();
            out_types.push(name);
            proof {
                assert(strs_view(out_types@) =~= strs_view(prev).push(name@));
            }
        }
        k = k + 1;
    }
    proof {
        assert(outs.take(k as int) =~= outs);
    }
    if out_types.len() == 0 {
        return HeuristicResult::not_detected();
    }
    if !all_are(&out_types, dominant) {
        return HeuristicResult::not_detected();
    }
    let confidence = if in_types.len() >= 2 || out_types.len() >= 2 {
        "high"
    } else {
        "medium"
    };
    HeuristicResult::detected().with("script_type", ExtraValue::Text(dominant.to_owned())).with(
        "input_count",
        ExtraValue::U64(tx.inputs.len() as u64),
    ).with("output_count", ExtraValue::U64(tx.outputs.len() as u64)).with(
        "confidence",
        ExtraValue::Text(confidence.to_owned()),
    )
}

} // verus!
