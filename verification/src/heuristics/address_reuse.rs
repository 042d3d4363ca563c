//! Address reuse heuristic.

use vstd::prelude::*;

use crate::analyzer::context::{bytes_eq, find_script, script_index_view};
use crate::analyzer::script_classifier::{classify_output, spec_classify_output, OutputScriptType};
use crate::types::{
    entry_get, plain_result, spec_lookup, spec_with, ExtraModel, ExtraValue, HeuristicModel,
    HeuristicResult, InputModel, OutputModel, PrevoutMap, PrevoutModel, RawTransaction, TxModel,
};

verus! {

/// Whether a script can be reused in the sense of this heuristic: it is not
/// empty and not OP_RETURN (the same protocol tag in several transactions
/// is not address reuse).
pub open spec fn reusable(script: Seq<u8>) -> bool {
    script.len() > 0 && spec_classify_output(script) != OutputScriptType::OpReturn
}

/// The reusable output scripts, each with the number of txids of the block
/// that must list it (two: the transaction's own txid is listed too).
pub open spec fn output_candidates(outs: Seq<OutputModel>) -> Seq<(Seq<u8>, nat)>
    decreases outs.len(),
{
    if outs.len() == 0 {
        seq![]
    } else {
        let rest = output_candidates(outs.drop_last());
        if reusable(outs.last().script_pubkey) {
            rest.push((outs.last().script_pubkey, 2nat))
        } else {
            rest
        }
    }
}

/// The reusable scripts of the resolved spent outputs, each with the number
/// of txids of the block that must list it (one: the spent output comes
/// from an earlier block, which the index does not cover).
pub open spec fn input_candidates(inputs: Seq<InputModel>, prevouts: Seq<PrevoutModel>) -> Seq<(Seq<u8>, nat)>
    decreases inputs.len(),
{
    if inputs.len() == 0 {
        seq![]
    } else {
        let rest = input_candidates(inputs.drop_last(), prevouts);
        match spec_lookup(prevouts, inputs.last().txid, inputs.last().vout) {
            Some(p) => if reusable(p.script_pubkey) {
                rest.push((p.script_pubkey, 1nat))
            } else {
                rest
            },
            None => rest,
        }
    }
}

/// How many txids the block index lists for `script`, if it lists it.
pub open spec fn indexed_count(index: Seq<(Seq<u8>, Seq<Seq<char>>)>, script: Seq<u8>) -> Option<nat> {
    match entry_get(index, script) {
        Some(l) => Some(l.len()),
        None => None,
    }
}

/// How many distinct candidate scripts are reused: each script counts once,
/// at its first occurrence, when the index lists at least its threshold of
/// txids.
pub open spec fn reused_count(cands: Seq<(Seq<u8>, nat)>, index: Seq<(Seq<u8>, Seq<Seq<char>>)>) -> nat
    decreases cands.len(),
{
    if cands.len() == 0 {
        0
    } else {
        let prior = cands.drop_last();
        let c = cands.last();
        let first = forall|j: int| 0 <= j < prior.len() ==> #[trigger] prior[j].0 != c.0;
        reused_count(prior, index) + if first && (indexed_count(index, c.0) matches Some(n) && n
            >= c.1) {
            1nat
        } else {
            0nat
        }
    }
}

/// Address reuse: detected when some script of the transaction's outputs or
/// spent outputs appears in another transaction of the block. Reports the
/// number of reused scripts with confidence "high" from three on, "medium"
/// for two, "low" for one.
pub open spec fn spec_address_reuse(
    tx: TxModel,
    prevouts: Seq<PrevoutModel>,
    index: Seq<(Seq<u8>, Seq<Seq<char>>)>,
) -> HeuristicModel {
    let n = reused_count(output_candidates(tx.outputs) + input_candidates(tx.inputs, prevouts), index);
    if n == 0 {
        plain_result(false)
    } else {
        spec_with(
            spec_with(plain_result(true), "reused_script_count"@, ExtraModel::U64(n as u64)),
            "confidence"@,
            ExtraModel::Text(
                if n >= 3 {
                    "high"@
                } else if n == 2 {
                    "medium"@
                } else {
                    "low"@
                },
            ),
        )
    }
}

/// The byte views of a list of scripts.
pub open spec fn scripts_view(v: Seq<Vec<u8>>) -> Seq<Seq<u8>> {
    v.map_values(|s: Vec<u8>| s@)
}

/// Whether `script` is among `checked`.
fn already_checked(checked: &Vec<Vec<u8>>, script: &[u8]) -> (r: bool)
    ensures
        r == scripts_view(checked@).contains(script@),
{
    let ghost cv = scripts_view(checked@);
    let mut i: usize = 0;
    while i < checked.len()
        invariant
            cv == scripts_view(checked@),
            i <= checked@.len(),
            forall|j: int| 0 <= j < i ==> #[trigger] cv[j] != script@,
        decreases checked@.len() - i,
    {
        if bytes_eq(checked[i].as_slice(), script) {
            proof {
                assert(cv[i as int] == script@);
            }
            return true;
        }
        proof {
            assert(cv[i as int] != script@);
        }
        i = i + 1;
    }
    false
}

/// The scripts of a candidate list, as a set.
pub open spec fn candidate_scripts(cands: Seq<(Seq<u8>, nat)>) -> Set<Seq<u8>> {
    Set::new(|s: Seq<u8>| exists|j: int| 0 <= j < cands.len() && #[trigger] cands[j].0 == s)
}

/// Evaluate one candidate: a script seen before in this transaction is
/// skipped; otherwise it is remembered and counted when the index lists at
/// least `threshold` txids for it.
fn check_candidate(
    checked: &mut Vec<Vec<u8>>,
    count: &mut u64,
    script: &[u8],
    threshold: usize,
    index: &Vec<(Vec<u8>, Vec<String>)>,
    Ghost(cands): Ghost<Seq<(Seq<u8>, nat)>>,
)
    requires
        forall|s: Seq<u8>| scripts_view(old(checked)@).contains(s) <==> candidate_scripts(cands).contains(s),
        *old(count) == reused_count(cands, script_index_view(index@)),
        *old(count) <= cands.len(),
        cands.len() < u64::MAX,
    ensures
        forall|s: Seq<u8>|
            scripts_view(final(checked)@).contains(s) <==> candidate_scripts(
                cands.push((script@, threshold as nat)),
            ).contains(s),
        *final(count) == reused_count(cands.push((script@, threshold as nat)), script_index_view(index@)),
        *final(count) <= cands.len() + 1,
{
    let ghost c = (script@, threshold as nat);
    let ghost next = cands.push(c);
    proof {
        assert(next.drop_last() =~= cands);
        assert(next.last() == c);
        assert forall|s: Seq<u8>| candidate_scripts(next).contains(s) <==> (candidate_scripts(
            cands,
        ).contains(s) || s == script@) by {
            if candidate_scripts(next).contains(s) {
                let j = choose|j: int| 0 <= j < next.len() && #[trigger] next[j].0 == s;
                if j < cands.len() {
                    assert(cands[j].0 == s);
                }
            }
            if candidate_scripts(cands).contains(s) {
                let j = choose|j: int| 0 <= j < cands.len() && #[trigger] cands[j].0 == s;
                assert(next[j].0 == s);
            }
            if s == script@ {
                assert(next[cands.len() as int].0 == s);
            }
        }
    }
    if already_checked(checked, script) {
        proof {
            assert(candidate_scripts(cands).contains(script@));
            let j = choose|j: int| 0 <= j < cands.len() && #[trigger] cands[j].0 == script@;
            assert(!(forall|k: int| 0 <= k < cands.len() ==> #[trigger] cands[k].0 != c.0));
        }
        return;
    }
    let ghost before = scripts_view(checked@);
    let mut owned: Vec<u8> = Vec::new();
    crate::parser::transaction::push_bytes(&mut owned, script);
    checked.push(owned);
    proof {
        assert(owned@ =~= script@);
        assert(scripts_view(checked@) =~= before.push(script@));
        assert forall|s: Seq<u8>| scripts_view(checked@).contains(s) <==> candidate_scripts(
            next,
        ).contains(s) by {
            if scripts_view(checked@).contains(s) && s != script@ {
                let j = choose|j: int| 0 <= j < scripts_view(checked@).len() && scripts_view(checked@)[j] == s;
                assert(before[j] == s);
            }
            if before.contains(s) {
                let j = choose|j: int| 0 <= j < before.len() && before[j] == s;
                assert(scripts_view(checked@)[j] == s);
            }
            if s == script@ {
                assert(scripts_view(checked@)[before.len() as int] == s);
            }
        }
        assert forall|k: int| 0 <= k < cands.len() implies #[trigger] cands[k].0 != c.0 by {
            if cands[k].0 == c.0 {
                assert(candidate_scripts(cands).contains(script@));
            }
        }
    }
    match find_script(index, script) {
        Some(i) => {
            proof {
                assert(script_index_view(index@)[i as int].1.len() == index@[i as int].1@.len());
            }
            if index[i].1.len() >= threshold {
                *count = *count + 1;
            }
        },
        None => {},
    }
}

/// Address reuse heuristic.
///
/// The same scriptPubKey in several transactions of one block, either as
/// outputs of two transactions or as the spent output of one and an output
/// of another, weakens privacy and links the transactions to one entity.
/// The block index (built beforehand from the block's outputs) maps each
/// script to the txids paying it. An output script counts when at least two
/// txids are listed (the transaction itself is one of them); a spent
/// output's script counts when one is. Each script counts once per
/// transaction.
///
/// Known false positives: busy exchange deposit addresses and mining pool
/// payout addresses.
pub fn run(
    tx: &RawTransaction<'_>,
    prevout_map: &PrevoutMap,
    block_script_index: &Vec<(Vec<u8>, Vec<String>)>,
) -> (h: HeuristicResult)
    requires
        tx@.outputs.len() + tx@.inputs.len() < u64::MAX,
    ensures
        h@ == spec_address_reuse(tx@, prevout_map@, script_index_view(block_script_index@)),
{
    let ghost outs = tx@.outputs;
    let ghost ins = tx@.inputs;
    let ghost pv = prevout_map@;
    let mut checked: Vec<Vec<u8>> = Vec::new();
    let mut reused: u64 = 0;
    proof {
        assert(output_candidates(outs.take(0)) =~= Seq::<(Seq<u8>, nat)>::empty());
        assert forall|s: Seq<u8>| scripts_view(checked@).contains(s) <==> candidate_scripts(
            output_candidates(outs.take(0)),
        ).contains(s) by {
            assert(scripts_view(checked@) =~= Seq::<Seq<u8>>::empty());
        }
    }
    let mut i: usize = 0;
    while i < tx.outputs.len()
        invariant
            outs == tx@.outputs,
            i <= outs.len(),
            forall|s: Seq<u8>| scripts_view(checked@).contains(s) <==> candidate_scripts(
                output_candidates(outs.take(i as int)),
            ).contains(s),
            reused == reused_count(
                output_candidates(outs.take(i as int)),
                script_index_view(block_script_index@),
            ),
            reused <= output_candidates(outs.take(i as int)).len(),
            output_candidates(outs.take(i as int)).len() <= i,
            outs.len() + ins.len() < u64::MAX,
        decreases outs.len() - i,
    {
        let script = tx.outputs[i].script_pubkey;
        let ghost cands = output_candidates(outs.take(i as int));
        proof {
            assert(outs.take(i + 1).drop_last() =~= outs.take(i as int));
            assert(outs.take(i + 1).last() == outs[i as int]);
            assert(outs[i as int].script_pubkey == script@);
        }
        if script.len() > 0 && classify_output(script) != OutputScriptType::OpReturn {
            check_candidate(&mut checked, &mut reused, script, 2, block_script_index, Ghost(cands));
        }
        i = i + 1;
    }
    proof {
        assert(outs.take(i as int) =~= outs);
        assert(input_candidates(ins.take(0), pv) =~= Seq::<(Seq<u8>, nat)>::empty());
        assert(output_candidates(outs) + input_candidates(ins.take(0), pv) =~= output_candidates(
            outs,
        ));
    }
    let mut k: usize = 0;
    while k < tx.inputs.len()
        invariant
            outs == tx@.outputs,
            ins == tx@.inputs,
            pv == prevout_map@,
            k <= ins.len(),
            output_candidates(outs).len() <= outs.len(),
            forall|s: Seq<u8>| scripts_view(checked@).contains(s) <==> candidate_scripts(
                output_candidates(outs) + input_candidates(ins.take(k as int), pv),
            ).contains(s),
            reused == reused_count(
                output_candidates(outs) + input_candidates(ins.take(k as int), pv),
                script_index_view(block_script_index@),
            ),
            reused <= (output_candidates(outs) + input_candidates(ins.take(k as int), pv)).len(),
            input_candidates(ins.take(k as int), pv).len() <= k,
            outs.len() + ins.len() < u64::MAX,
        decreases ins.len() - k,
    {
        let inp = &tx.inputs[k];
        let ghost cands = output_candidates(outs) + input_candidates(ins.take(k as int), pv);
        proof {
            assert(ins.take(k + 1).drop_last() =~= ins.take(k as int));
            assert(ins.take(k + 1).last() == ins[k as int]);
            assert(ins[k as int] == inp@);
        }
        match prevout_map.get(&inp.txid, inp.vout) {
            Some(prevout) => {
                let script = prevout.script_pubkey.as_slice();
                if script.len() > 0 && classify_output(script) != OutputScriptType::OpReturn {
                    check_candidate(
                        &mut checked,
                        &mut reused,
                        script,
                        1,
                        block_script_index,
                        Ghost(cands),
                    );
                    proof {
                        assert(cands.push((script@, 1nat)) =~= output_candidates(outs)
                            + input_candidates(ins.take(k + 1), pv));
                    }
                } else {
                    proof {
                        assert(cands =~= output_candidates(outs) + input_candidates(
                            ins.take(k + 1),
                            pv,
                        ));
                    }
                }
            },
            None => {
                proof {
                    assert(cands =~= output_candidates(outs) + input_candidates(ins.take(k + 1), pv));
                }
            },
        }
        k = k + 1;
    }
    proof {
        assert(ins.take(k as int) =~= ins);
    }
    if reused == 0 {
        return HeuristicResult::not_detected();
    }
    let confidence = if reused >= 3 {
        "high"
    } else if reused == 2 {
        "medium"
    } else {
        "low"
    };
    HeuristicResult::detected().with("reused_script_count", ExtraValue::U64(reused)).with(
        "confidence",
        ExtraValue::Text(confidence.to_owned()),
    )
}

} // verus!
