//! Peeling chain detection heuristic.

use vstd::prelude::*;

use crate::analyzer::context::{BlockContext, BlockContextModel};
use crate::analyzer::script_classifier::{classify_output, spec_classify_output, OutputScriptType};
use crate::parser::block_parser::{hash_display, spec_hash_display};
use crate::types::{
    entry_get, lemma_with_get, plain_result, spec_with, ExtraModel, ExtraValue, HeuristicModel, HeuristicResult,
    OutputModel, RawTransaction, TxModel,
};

verus! {

/// The spendable (non-OP_RETURN) outputs as (index, value) pairs, in order.
pub open spec fn spendable_outputs(outs: Seq<OutputModel>) -> Seq<(int, u64)>
    decreases outs.len(),
{
    if outs.len() == 0 {
        seq![]
    } else {
        let rest = spendable_outputs(outs.drop_last());
        if spec_classify_output(outs.last().script_pubkey) != OutputScriptType::OpReturn {
            rest.push((outs.len() - 1, outs.last().value))
        } else {
            rest
        }
    }
}

/// Peeling chain link: one input, exactly two spendable outputs of
/// different values, and the larger one spent by another transaction of the
/// block. Confidence is "high" when the
/// input also comes from a transaction of the block, else "medium".
pub open spec fn spec_peeling_chain(txid: Seq<char>, tx: TxModel, ctx: BlockContextModel) -> HeuristicModel {
    let sp = spendable_outputs(tx.outputs);
    if tx.inputs.len() != 1 || sp.len() != 2 || sp[0].1 == sp[1].1 {
        plain_result(false)
    } else {
        let first_large = sp[0].1 >= sp[1].1;
        let large = if first_large {
            sp[0]
        } else {
            sp[1]
        };
        let small = if first_large {
            sp[1]
        } else {
            sp[0]
        };
        let large_vout = large.0 as u32;
        let small_vout = small.0 as u32;
        match entry_get(ctx.spend_index, (txid, large_vout)) {
            None => plain_result(false),
            Some(successor) => {
                let has_predecessor = ctx.block_txids.contains(
                    spec_hash_display(tx.inputs[0].txid),
                );
                spec_with(
                    spec_with(
                        spec_with(
                            spec_with(
                                spec_with(
                                    plain_result(true),
                                    "large_output_vout"@,
                                    ExtraModel::U64(large_vout as u64),
                                ),
                                "small_output_vout"@,
                                ExtraModel::U64(small_vout as u64),
                            ),
                            "successor_txid"@,
                            ExtraModel::Text(successor),
                        ),
                        "has_predecessor"@,
                        ExtraModel::Bool(has_predecessor),
                    ),
                    "confidence"@,
                    ExtraModel::Text(
                        if has_predecessor {
                            "high"@
                        } else {
                            "medium"@
                        },
                    ),
                )
            },
        }
    }
}

/// Each spendable entry names an output by its index and carries that
/// output's value; the indices increase and none is an OP_RETURN.
proof fn lemma_spendable_entries(outs: Seq<OutputModel>)
    ensures
        spendable_outputs(outs).len() <= outs.len(),
        forall|k: int|
            0 <= k < spendable_outputs(outs).len() ==> {
                let e = #[trigger] spendable_outputs(outs)[k];
                &&& 0 <= e.0 < outs.len()
                &&& outs[e.0].value == e.1
                &&& spec_classify_output(outs[e.0].script_pubkey) != OutputScriptType::OpReturn
            },
        forall|a: int, b: int|
            0 <= a < b < spendable_outputs(outs).len() ==> (#[trigger] spendable_outputs(outs)[a]).0
                < (#[trigger] spendable_outputs(outs)[b]).0,
        forall|k: int|
            0 <= k < outs.len() && spec_classify_output(#[trigger] outs[k].script_pubkey)
                != OutputScriptType::OpReturn ==> exists|m: int|
                0 <= m < spendable_outputs(outs).len() && (#[trigger] spendable_outputs(outs)[m]).0
                    == k,
    decreases outs.len(),
{
    if outs.len() > 0 {
        let init = outs.drop_last();
        lemma_spendable_entries(init);
        let rest = spendable_outputs(init);
        let sp = spendable_outputs(outs);
        assert forall|k: int| 0 <= k < rest.len() implies outs[(#[trigger] rest[k]).0] == init[rest[k].0] by {}
        assert forall|k: int|
            0 <= k < outs.len() && spec_classify_output(#[trigger] outs[k].script_pubkey)
                != OutputScriptType::OpReturn implies exists|m: int|
            0 <= m < sp.len() && (#[trigger] sp[m]).0 == k by {
            if k < outs.len() - 1 {
                assert(init[k] == outs[k]);
                let m = choose|m: int| 0 <= m < rest.len() && (#[trigger] rest[m]).0 == k;
                assert(sp[m] == rest[m]);
            } else {
                assert(outs.last() == outs[k]);
                assert(sp[rest.len() as int].0 == k);
            }
        }
    }
}

/// Output `k` is an OP_RETURN.
pub open spec fn is_op_return_output(tx: TxModel, k: int) -> bool {
    spec_classify_output(tx.outputs[k].script_pubkey) == OutputScriptType::OpReturn
}

/// Outputs `a < b` are the only two that are not OP_RETURNs.
pub open spec fn only_spendable_pair(tx: TxModel, a: int, b: int) -> bool {
    &&& 0 <= a < b < tx.outputs.len()
    &&& !is_op_return_output(tx, a)
    &&& !is_op_return_output(tx, b)
    &&& forall|k: int| 0 <= k < tx.outputs.len() && k != a && k != b ==> is_op_return_output(tx, k)
}

/// A peeling-chain link is detected exactly when the transaction has one
/// input and exactly two outputs that are not OP_RETURNs, their values
/// differ, and the larger one is spent by a transaction of the block.
/// (Output indices fit a u32.)
pub proof fn lemma_peeling_detected_iff(txid: Seq<char>, tx: TxModel, ctx: BlockContextModel)
    requires
        tx.outputs.len() <= u32::MAX,
    ensures
        spec_peeling_chain(txid, tx, ctx).detected <==> (tx.inputs.len() == 1 && exists|a: int, b: int|
            #![trigger tx.outputs[a], tx.outputs[b]]
            only_spendable_pair(tx, a, b) && tx.outputs[a].value != tx.outputs[b].value && entry_get(
                ctx.spend_index,
                (
                    txid,
                    (if tx.outputs[a].value > tx.outputs[b].value {
                        a
                    } else {
                        b
                    }) as u32,
                ),
            ) is Some),
{
    let outs = tx.outputs;
    let sp = spendable_outputs(outs);
    lemma_spendable_entries(outs);
    if tx.inputs.len() == 1 && sp.len() == 2 && sp[0].1 != sp[1].1 {
        let a = sp[0].0;
        let b = sp[1].0;
        assert(sp[0] == spendable_outputs(outs)[0] && sp[1] == spendable_outputs(outs)[1]);
        assert forall|k: int| 0 <= k < outs.len() && k != a && k != b implies is_op_return_output(
            tx,
            k,
        ) by {
            if !is_op_return_output(tx, k) {
                assert(spec_classify_output(outs[k].script_pubkey) != OutputScriptType::OpReturn);
                let m = choose|m: int| 0 <= m < sp.len() && (#[trigger] sp[m]).0 == k;
                assert(m == 0 || m == 1);
            }
        }
        assert(only_spendable_pair(tx, a, b));
        assert(outs[a].value != outs[b].value);
    }
    if tx.inputs.len() == 1 && exists|a: int, b: int|
        #![trigger outs[a], outs[b]]
        only_spendable_pair(tx, a, b) && outs[a].value != outs[b].value && entry_get(
            ctx.spend_index,
            (txid, (if outs[a].value > outs[b].value { a } else { b }) as u32),
        ) is Some {
        let (a, b) = choose|a: int, b: int|
            #![trigger outs[a], outs[b]]
            only_spendable_pair(tx, a, b) && outs[a].value != outs[b].value && entry_get(
                ctx.spend_index,
                (txid, (if outs[a].value > outs[b].value { a } else { b }) as u32),
            ) is Some;
        assert(spec_classify_output(outs[a].script_pubkey) != OutputScriptType::OpReturn);
        assert(spec_classify_output(outs[b].script_pubkey) != OutputScriptType::OpReturn);
        let ma = choose|m: int| 0 <= m < sp.len() && (#[trigger] sp[m]).0 == a;
        let mb = choose|m: int| 0 <= m < sp.len() && (#[trigger] sp[m]).0 == b;
        assert forall|m: int| 0 <= m < sp.len() implies (#[trigger] sp[m]).0 == a || sp[m].0 == b by {
            let k = sp[m].0;
            if k != a && k != b {
                assert(is_op_return_output(tx, k));
            }
        }
        if sp.len() > 2 {
            assert(sp[0].0 < sp[1].0 && sp[1].0 < sp[2].0);
        }
        assert(sp.len() == 2);
        assert(sp[0].0 < sp[1].0);
        assert(sp[0].0 == a && sp[1].0 == b);
    }
}

/// A detected peeling-chain link has one input and names two different
/// spendable outputs: the one reported as large has the greater value, and
/// the reported successor is the transaction of the block that spends it.
/// (Output indices fit a u32.)
pub proof fn lemma_peeling_large_output(txid: Seq<char>, tx: TxModel, ctx: BlockContextModel)
    requires
        tx.outputs.len() <= u32::MAX,
    ensures
        spec_peeling_chain(txid, tx, ctx).detected ==> {
            &&& tx.inputs.len() == 1
            &&& entry_get(spec_peeling_chain(txid, tx, ctx).extra, "large_output_vout"@) matches Some(
                ExtraModel::U64(l),
            ) && (entry_get(spec_peeling_chain(txid, tx, ctx).extra, "small_output_vout"@) matches Some(
                ExtraModel::U64(m),
            ) && (l < tx.outputs.len() && m < tx.outputs.len() && tx.outputs[l as int].value
                > tx.outputs[m as int].value && spec_classify_output(
                tx.outputs[m as int].script_pubkey,
            ) != OutputScriptType::OpReturn && (entry_get(ctx.spend_index, (txid, l as u32)) matches Some(
                succ,
            ) && entry_get(spec_peeling_chain(txid, tx, ctx).extra, "successor_txid"@) == Some(
                ExtraModel::Text(succ),
            ))))
        },
{
    let sp = spendable_outputs(tx.outputs);
    lemma_spendable_entries(tx.outputs);
    if tx.inputs.len() == 1 && sp.len() == 2 && sp[0].1 != sp[1].1 {
        let first_large = sp[0].1 > sp[1].1;
        let large = if first_large {
            sp[0]
        } else {
            sp[1]
        };
        let small = if first_large {
            sp[1]
        } else {
            sp[0]
        };
        let large_vout = large.0 as u32;
        let small_vout = small.0 as u32;
        if let Some(successor) = entry_get(ctx.spend_index, (txid, large_vout)) {
            let has_predecessor = ctx.block_txids.contains(spec_hash_display(tx.inputs[0].txid));
            let conf = if has_predecessor {
                "high"@
            } else {
                "medium"@
            };
            let h0 = spec_with(
                plain_result(true),
                "large_output_vout"@,
                ExtraModel::U64(large_vout as u64),
            );
            let h1 = spec_with(h0, "small_output_vout"@, ExtraModel::U64(small_vout as u64));
            let h2 = spec_with(h1, "successor_txid"@, ExtraModel::Text(successor));
            let h3 = spec_with(h2, "has_predecessor"@, ExtraModel::Bool(has_predecessor));
            assert(spec_peeling_chain(txid, tx, ctx) == spec_with(
                h3,
                "confidence"@,
                ExtraModel::Text(conf),
            ));
            reveal_strlit("large_output_vout");
            reveal_strlit("small_output_vout");
            reveal_strlit("successor_txid");
            reveal_strlit("has_predecessor");
            reveal_strlit("confidence");
            assert("large_output_vout"@[0] == 'l');
            assert("small_output_vout"@[0] == 's');
            assert("small_output_vout"@[1] == 'm');
            assert("successor_txid"@[0] == 's');
            assert("successor_txid"@[1] == 'u');
            assert("has_predecessor"@[0] == 'h');
            assert("confidence"@[0] == 'c');
            let c = ExtraModel::Text(conf);
            let hp = ExtraModel::Bool(has_predecessor);
            let st = ExtraModel::Text(successor);
            lemma_with_get(h3, "confidence"@, c, "large_output_vout"@);
            lemma_with_get(h2, "has_predecessor"@, hp, "large_output_vout"@);
            lemma_with_get(h1, "successor_txid"@, st, "large_output_vout"@);
            lemma_with_get(h0, "small_output_vout"@, ExtraModel::U64(small_vout as u64), "large_output_vout"@);
            lemma_with_get(plain_result(true), "large_output_vout"@, ExtraModel::U64(large_vout as u64), "large_output_vout"@);
            lemma_with_get(h3, "confidence"@, c, "small_output_vout"@);
            lemma_with_get(h2, "has_predecessor"@, hp, "small_output_vout"@);
            lemma_with_get(h1, "successor_txid"@, st, "small_output_vout"@);
            lemma_with_get(h0, "small_output_vout"@, ExtraModel::U64(small_vout as u64), "small_output_vout"@);
            lemma_with_get(h3, "confidence"@, c, "successor_txid"@);
            lemma_with_get(h2, "has_predecessor"@, hp, "successor_txid"@);
            lemma_with_get(h1, "successor_txid"@, st, "successor_txid"@);
            assert(sp[0] == spendable_outputs(tx.outputs)[0]);
            assert(sp[1] == spendable_outputs(tx.outputs)[1]);
            assert(large_vout as int == large.0 && small_vout as int == small.0);
        }
    }
}

/// Peeling chain detection heuristic.
///
/// A large UTXO repeatedly split into one small output (the payment) and
/// one large output (the change), the change spent by a later transaction
/// of the same block. The block context holds which outputs are spent in
/// the block and which txids it contains; only chains of two or more
/// transactions within one block are seen.
///
/// Known false positives: any one-input two-output transaction whose larger
/// output happens to be spent in the same block (CPFP fee bumps among them).
pub fn run(txid: &str, tx: &RawTransaction<'_>, ctx: &BlockContext) -> (h: HeuristicResult)
    ensures
        h@ == spec_peeling_chain(txid@, tx@, ctx@),
{
    if tx.inputs.len() != 1 {
        return HeuristicResult::not_detected();
    }
    let ghost outs = tx@.outputs;
    let mut spendable: Vec<(usize, u64)> = Vec::new();
    let mut i: usize = 0;
    while i < tx.outputs.len()
        invariant
            outs == tx@.outputs,
            i <= outs.len(),
            spendable@.len() == spendable_outputs(outs.take(i as int)).len(),
            forall|j: int|
                0 <= j < spendable@.len() ==> (#[trigger] spendable@[j]).0 as int
                    == spendable_outputs(outs.take(i as int))[j].0 && spendable@[j].1
                    == spendable_outputs(outs.take(i as int))[j].1,
        decreases outs.len() - i,
    {
        proof {
            assert(outs.take(i + 1).drop_last() =~= outs.take(i as int));
            assert(outs.take(i + 1).last() == outs[i as int]);
            assert(outs[i as int] == tx.outputs@[i as int]@);
        }
        if classify_output(tx.outputs[i].script_pubkey) != OutputScriptType::OpReturn {
            spendable.push((i, tx.outputs[i].value));
        }
        i = i + 1;
    }
    proof {
        assert(outs.take(i as int) =~= outs);
    }
    if spendable.len() != 2 {
        return HeuristicResult::not_detected();
    }
    if spendable[0].1 == spendable[1].1 {
        return HeuristicResult::not_detected();
    }
    let (large_vout, small_vout) = if spendable[0].1 >= spendable[1].1 {
        (spendable[0].0 as u32, spendable[1].0 as u32)
    } else {
        (spendable[1].0 as u32, spendable[0].0 as u32)
    };
    let successor_txid = match ctx.spender(txid, large_vout) {
        Some(s) => s.clone(),
        None => {
            return HeuristicResult::not_detected();
        },
    };
    proof {
        assert(tx@.inputs[0] == tx.inputs@[0]@);
    }
    let input_prevout_txid = hash_display(&tx.inputs[0].txid);
    let has_predecessor = ctx.has_txid(input_prevout_txid.as_str());
    let confidence = if has_predecessor {
        "high"
    } else {
        "medium"
    };
    HeuristicResult::detected().with("large_output_vout", ExtraValue::U64(large_vout as u64)).with(
        "small_output_vout",
        ExtraValue::U64(small_vout as u64),
    ).with("successor_txid", ExtraValue::Text(successor_txid)).with(
        "has_predecessor",
        ExtraValue::Bool(has_predecessor),
    ).with("confidence", ExtraValue::Text(confidence.to_owned()))
}

} // verus!
