//! OP_RETURN analysis heuristic.

use vstd::prelude::*;

use crate::analyzer::script_classifier::{
    classify_output, decode_op_return_payload, op_return_protocol, spec_classify_output,
    spec_op_return_payload, spec_op_return_protocol, OutputScriptType,
};
use crate::types::{
    plain_result, spec_with, ExtraModel, ExtraValue, HeuristicModel, HeuristicResult, OutputModel,
    RawTransaction, TxModel,
};

verus! {

/// Whether an output carries an OP_RETURN script.
pub open spec fn is_op_return(o: OutputModel) -> bool {
    spec_classify_output(o.script_pubkey) == OutputScriptType::OpReturn
}

/// The indices, in order, of the OP_RETURN outputs among `outs`.
pub open spec fn op_return_indices(outs: Seq<OutputModel>) -> Seq<u64>
    decreases outs.len(),
{
    if outs.len() == 0 {
        seq![]
    } else {
        let rest = op_return_indices(outs.drop_last());
        if is_op_return(outs.last()) {
            rest.push((outs.len() - 1) as u64)
        } else {
            rest
        }
    }
}

/// OP_RETURN analysis: detected when some output is OP_RETURN; reports how
/// many there are, the index of the first, the protocol its payload
/// announces, and confidence "high".
pub open spec fn spec_op_return(tx: TxModel) -> HeuristicModel {
    let idx = op_return_indices(tx.outputs);
    if idx.len() == 0 {
        plain_result(false)
    } else {
        let first = idx[0];
        spec_with(
            spec_with(
                spec_with(
                    spec_with(plain_result(true), "op_return_count"@, ExtraModel::U64(idx.len() as u64)),
                    "first_index"@,
                    ExtraModel::U64(first),
                ),
                "protocol"@,
                ExtraModel::Text(
                    spec_op_return_protocol(
                        spec_op_return_payload(tx.outputs[first as int].script_pubkey),
                    ),
                ),
            ),
            "confidence"@,
            ExtraModel::Text("high"@),
        )
    }
}

/// OP_RETURN analysis heuristic.
///
/// OP_RETURN outputs embed data in the chain and are provably unspendable.
/// Detected when any output script starts with `0x6a`; confidence is always
/// "high" since the pattern is unambiguous. The protocol comes from
/// `op_return_protocol` on the first OP_RETURN output's payload.
pub fn run(tx: &RawTransaction<'_>) -> (h: HeuristicResult)
    ensures
        h@ == spec_op_return(tx@),
{
    let ghost outs = tx@.outputs;
    let mut indices: Vec<u64> = Vec::new();
    let mut first_protocol: Option<&'static str> = None;
    let mut i: usize = 0;
    while i < tx.outputs.len()
        invariant
            outs == tx@.outputs,
            i <= outs.len(),
            indices@ == op_return_indices(outs.take(i as int)),
            match first_protocol {
                None => indices@.len() == 0,
                Some(p) => indices@.len() > 0 && indices@[0] < outs.len() && p@
                    == spec_op_return_protocol(
                    spec_op_return_payload(outs[indices@[0] as int].script_pubkey),
                ),
            },
        decreases outs.len() - i,
    {
        let out = &tx.outputs[i];
        proof {
            assert(outs.take(i + 1).drop_last() =~= outs.take(i as int));
            assert(outs[i as int] == out@);
            assert(outs.take(i + 1).last() == outs[i as int]);
        }
        if classify_output(out.script_pubkey) == OutputScriptType::OpReturn {
            indices.push(i as u64);
            if first_protocol.is_none() {
                let payload = decode_op_return_payload(out.script_pubkey);
                first_protocol = Some(op_return_protocol(payload.as_slice()));
            }
        }
        i = i + 1;
    }
    proof {
        assert(outs.take(i as int) =~= outs);
    }
    if indices.len() == 0 {
        return HeuristicResult::not_detected();
    }
    let protocol = match first_protocol {
        Some(p) => p,
        None => "unknown",
    };
    let count = indices.len() as u64;
    let first = indices[0];
    HeuristicResult::detected().with("op_return_count", ExtraValue::U64(count)).with(
        "first_index",
        ExtraValue::U64(first),
    ).with("protocol", ExtraValue::Text(protocol.to_owned())).with(
        "confidence",
        ExtraValue::Text("high".to_owned()),
    )
}

} // verus!
