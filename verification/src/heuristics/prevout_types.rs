//! The script types of a transaction's spent outputs and of its outputs.

use vstd::prelude::*;

use crate::analyzer::script_classifier::{classify_output, spec_classify_output, spec_output_type_str};
use crate::types::{spec_lookup, InputModel, OutputModel, PrevoutMap, PrevoutModel, RawTransaction};

verus! {

/// The texts of a list of static strings.
pub open spec fn strs_view(v: Seq<&'static str>) -> Seq<Seq<char>> {
    v.map_values(|s: &'static str| s@)
}

/// The type name of a scriptPubKey.
pub open spec fn script_type_name(script: Seq<u8>) -> Seq<char> {
    spec_output_type_str(spec_classify_output(script))
}

/// The type names of the spent outputs that `prevouts` resolves, in input
/// order; inputs it does not resolve are left out.
pub open spec fn resolved_types(inputs: Seq<InputModel>, prevouts: Seq<PrevoutModel>) -> Seq<Seq<char>>
    decreases inputs.len(),
{
    if inputs.len() == 0 {
        seq![]
    } else {
        let rest = resolved_types(inputs.drop_last(), prevouts);
        match spec_lookup(prevouts, inputs.last().txid, inputs.last().vout) {
            Some(p) => rest.push(script_type_name(p.script_pubkey)),
            None => rest,
        }
    }
}

/// The type names of all outputs, in order.
pub open spec fn output_types(outs: Seq<OutputModel>) -> Seq<Seq<char>> {
    outs.map_values(|o: OutputModel| script_type_name(o.script_pubkey))
}

/// The type names of the spent outputs of `tx` that `prevout_map` resolves.
pub fn resolved_input_types(tx: &RawTransaction<'_>, prevout_map: &PrevoutMap) -> (v: Vec<&'static str>)
    ensures
        strs_view(v@) == resolved_types(tx@.inputs, prevout_map@),
{
    let ghost ins = tx@.inputs;
    let mut v: Vec<&'static str> = Vec::new();
    let mut i: usize = 0;
    while i < tx.inputs.len()
        invariant
            ins == tx@.inputs,
            i <= ins.len(),
            strs_view(v@) == resolved_types(ins.take(i as int), prevout_map@),
        decreases ins.len() - i,
    {
        let inp = &tx.inputs[i];
        proof {
            assert(ins.take(i + 1).drop_last() =~= ins.take(i as int));
            assert(ins.take(i + 1).last() == ins[i as int]);
            assert(ins[i as int] == inp@);
        }
        let ghost prev = v@;
        match prevout_map.get(&inp.txid, inp.vout) {
            Some(p) => {
                v.push(classify_output(p.script_pubkey.as_slice()).as_str());
                proof {
                    assert(strs_view(v@) =~= strs_view(prev).push(script_type_name(p@.script_pubkey)));
                }
            },
            None => {},
        }
        i = i + 1;
    }
    proof {
        assert(ins.take(i as int) =~= ins);
    }
    v
}

/// The type names of all outputs of `tx`.
pub fn output_type_names(tx: &RawTransaction<'_>) -> (v: Vec<&'static str>)
    ensures
        strs_view(v@) == output_types(tx@.outputs),
{
    let ghost outs = tx@.outputs;
    let mut v: Vec<&'static str> = Vec::new();
    let mut i: usize = 0;
    while i < tx.outputs.len()
        invariant
            outs == tx@.outputs,
            i <= outs.len(),
            strs_view(v@) == output_types(outs.take(i as int)),
        decreases outs.len() - i,
    {
        let ghost prev = v@;
        v.push(classify_output(tx.outputs[i].script_pubkey).as_str());
        proof {
            assert(outs[i as int] == tx.outputs@[i as int]@);
            assert(output_types(outs.take(i + 1)) =~= output_types(outs.take(i as int)).push(
                script_type_name(outs[i as int].script_pubkey),
            ));
            assert(strs_view(v@) =~= strs_view(prev).push(script_type_name(outs[i as int].script_pubkey)));
        }
        i = i + 1;
    }
    proof {
        assert(outs.take(i as int) =~= outs);
    }
    v
}

} // verus!
