//! Change detection heuristic.

use vstd::prelude::*;

use crate::analyzer::script_classifier::{
    classify_output, spec_classify_output, spec_output_type_str, OutputScriptType,
};
use crate::heuristics::round_number::spec_is_round;
use crate::text::str_eq;
use crate::types::{
    entry_get, lemma_with_get, plain_result, spec_lookup, spec_with, ExtraModel, ExtraValue, HeuristicModel, HeuristicResult,
    InputModel, PrevoutMap, PrevoutModel, RawTransaction, TxModel,
};

verus! {

/// The script type counted at position `k` (0..7) of the per-type counters.
pub open spec fn spec_ordinal_type(k: int) -> OutputScriptType {
    if k == 0 {
        OutputScriptType::P2PKH
    } else if k == 1 {
        OutputScriptType::P2SH
    } else if k == 2 {
        OutputScriptType::P2WPKH
    } else if k == 3 {
        OutputScriptType::P2WSH
    } else if k == 4 {
        OutputScriptType::P2TR
    } else if k == 5 {
        OutputScriptType::OpReturn
    } else {
        OutputScriptType::Unknown
    }
}

/// The position of a script type among the per-type counters.
pub open spec fn spec_type_ordinal(t: OutputScriptType) -> int {
    match t {
        OutputScriptType::P2PKH => 0,
        OutputScriptType::P2SH => 1,
        OutputScriptType::P2WPKH => 2,
        OutputScriptType::P2WSH => 3,
        OutputScriptType::P2TR => 4,
        OutputScriptType::OpReturn => 5,
        OutputScriptType::Unknown => 6,
    }
}

/// How many inputs spend a resolved output of type `t`.
pub open spec fn type_count(inputs: Seq<InputModel>, prevouts: Seq<PrevoutModel>, t: OutputScriptType) -> nat
    decreases inputs.len(),
{
    if inputs.len() == 0 {
        0
    } else {
        type_count(inputs.drop_last(), prevouts, t) + match spec_lookup(
            prevouts,
            inputs.last().txid,
            inputs.last().vout,
        ) {
            Some(p) => if spec_classify_output(p.script_pubkey) == t {
                1nat
            } else {
                0nat
            },
            None => 0nat,
        }
    }
}

/// The count of the counted type at position `k`.
pub open spec fn count_at(inputs: Seq<InputModel>, prevouts: Seq<PrevoutModel>, k: int) -> nat {
    type_count(inputs, prevouts, spec_ordinal_type(k))
}

/// The type at position `k` (one of the five that carry an ownership
/// signal) is spent by strictly more inputs than each of the other four.
pub open spec fn dominant_at(inputs: Seq<InputModel>, prevouts: Seq<PrevoutModel>, k: int) -> bool {
    &&& 0 <= k < 5
    &&& forall|j: int|
        0 <= j < 5 && j != k ==> count_at(inputs, prevouts, k) > #[trigger] count_at(
            inputs,
            prevouts,
            j,
        )
}

/// The name of the dominant input type, if one type is spent by strictly
/// more inputs than every other (OP_RETURN and unknown outputs carry no
/// ownership signal and are not counted).
pub open spec fn spec_dominant_input_type(inputs: Seq<InputModel>, prevouts: Seq<PrevoutModel>) -> Option<Seq<char>> {
    if exists|k: int| dominant_at(inputs, prevouts, k) {
        Some(spec_output_type_str(spec_ordinal_type(choose|k: int| dominant_at(inputs, prevouts, k))))
    } else {
        None
    }
}

/// Map an output script type to a stable counter position.
fn type_ordinal(t: &OutputScriptType) -> (k: usize)
    ensures
        k == spec_type_ordinal(*t),
        spec_ordinal_type(k as int) == *t,
        k < 7,
{
    match t {
        OutputScriptType::P2PKH => 0,
        OutputScriptType::P2SH => 1,
        OutputScriptType::P2WPKH => 2,
        OutputScriptType::P2WSH => 3,
        OutputScriptType::P2TR => 4,
        OutputScriptType::OpReturn => 5,
        OutputScriptType::Unknown => 6,
    }
}

/// Map a counter position back to the script type name.
fn ordinal_to_str(idx: usize) -> (s: &'static str)
    ensures
        idx < 7 ==> s@ == spec_output_type_str(spec_ordinal_type(idx as int)),
{
    match idx {
        0 => "p2pkh",
        1 => "p2sh",
        2 => "p2wpkh",
        3 => "p2wsh",
        4 => "p2tr",
        5 => "op_return",
        _ => "unknown",
    }
}

/// At most one type is dominant.
proof fn lemma_dominant_unique(inputs: Seq<InputModel>, prevouts: Seq<PrevoutModel>, a: int, b: int)
    requires
        dominant_at(inputs, prevouts, a),
        dominant_at(inputs, prevouts, b),
    ensures
        a == b,
{
    if a != b {
        assert(count_at(inputs, prevouts, a) > count_at(inputs, prevouts, b));
        assert(count_at(inputs, prevouts, b) > count_at(inputs, prevouts, a));
    }
}

/// The dominant input script type across the inputs of `tx`: the type of
/// resolved spent output that strictly more inputs spend than any other.
/// `None` when no input resolves to a counted type, or on a tie at the top.
fn dominant_input_type(tx: &RawTransaction<'_>, prevout_map: &PrevoutMap) -> (r: Option<
    &'static str,
>)
    ensures
        match r {
            Some(s) => spec_dominant_input_type(tx@.inputs, prevout_map@) == Some(s@),
            None => spec_dominant_input_type(tx@.inputs, prevout_map@) is None,
        },
{
    let ghost ins = tx@.inputs;
    let ghost pv = prevout_map@;
    let mut counts: [u64; 7] = [0; 7];
    let mut total: u64 = 0;
    let mut i: usize = 0;
    while i < tx.inputs.len()
        invariant
            ins == tx@.inputs,
            pv == prevout_map@,
            i <= ins.len(),
            total <= i,
            forall|k: int| 0 <= k < 5 ==> #[trigger] counts@[k] == count_at(ins.take(i as int), pv, k),
            counts@[5] == 0,
            counts@[6] == 0,
            total == counts@[0] + counts@[1] + counts@[2] + counts@[3] + counts@[4],
            forall|k: int| 0 <= k < 7 ==> #[trigger] counts@[k] <= i,
        decreases ins.len() - i,
    {
        let inp = &tx.inputs[i];
        let ghost before = ins.take(i as int);
        let ghost after = ins.take(i + 1);
        proof {
            assert(after.drop_last() =~= before);
            assert(after.last() == ins[i as int]);
            assert(ins[i as int] == inp@);
        }
        match prevout_map.get(&inp.txid, inp.vout) {
            Some(prevout) => {
                let t = classify_output(prevout.script_pubkey.as_slice());
                match t {
                    OutputScriptType::Unknown | OutputScriptType::OpReturn => {
                        proof {
                            assert forall|k: int| 0 <= k < 5 implies #[trigger] counts@[k]
                                == count_at(after, pv, k) by {
                                assert(spec_ordinal_type(k) != t);
                            }
                        }
                    },
                    _ => {
                        let k = type_ordinal(&t);
                        counts[k] = counts[k] + 1;
                        total = total + 1;
                        proof {
                            assert forall|j: int| 0 <= j < 5 implies #[trigger] counts@[j]
                                == count_at(after, pv, j) by {
                                if j != k {
                                    assert(spec_ordinal_type(j) != t);
                                }
                            }
                        }
                    },
                }
            },
            None => {},
        }
        i = i + 1;
    }
    proof {
        assert(ins.take(i as int) =~= ins);
    }
    if total == 0 {
        proof {
            if exists|k: int| dominant_at(ins, pv, k) {
                let k = choose|k: int| dominant_at(ins, pv, k);
                let j: int = if k == 0 { 1 } else { 0 };
                assert(count_at(ins, pv, k) > count_at(ins, pv, j));
                assert(counts@[k] == 0);
            }
        }
        return None;
    }
    let mut best: usize = 0;
    let mut tie = false;
    let mut k: usize = 1;
    while k < 7
        invariant
            1 <= k <= 7,
            best < k,
            forall|j: int| 0 <= j < k ==> #[trigger] counts@[j] <= counts@[best as int],
            tie <==> exists|j: int| 0 <= j < k && j != best && #[trigger] counts@[j] == counts@[best as int],
        decreases 7 - k,
    {
        if counts[k] > counts[best] {
            best = k;
            tie = false;
        } else if counts[k] == counts[best] {
            tie = true;
        }
        k = k + 1;
    }
    if tie {
        proof {
            let j = choose|j: int| 0 <= j < 7 && j != best && #[trigger] counts@[j] == counts@[best as int];
            if exists|m: int| dominant_at(ins, pv, m) {
                let m = choose|m: int| dominant_at(ins, pv, m);
                assert(counts@[m] <= counts@[best as int]);
                if best < 5 && best != m {
                    assert(count_at(ins, pv, m) > count_at(ins, pv, best as int));
                } else if j < 5 && j != m {
                    assert(count_at(ins, pv, m) > count_at(ins, pv, j));
                } else {
                    let o: int = if m == 0 { 1 } else { 0 };
                    assert(count_at(ins, pv, m) > count_at(ins, pv, o));
                    assert(counts@[0] + counts@[1] + counts@[2] + counts@[3] + counts@[4] > 0);
                }
            }
        }
        return None;
    }
    proof {
        assert(counts@[best as int] > 0);
        assert(best < 5);
        assert(dominant_at(ins, pv, best as int));
        let m = choose|m: int| dominant_at(ins, pv, m);
        lemma_dominant_unique(ins, pv, m, best as int);
    }
    Some(ordinal_to_str(best))
}

/// Returns true if an input of `input_type` would naturally produce change
/// of `output_type`: the two type names are the same (a P2SH input, which
/// covers wrapped SegWit, pairs with a P2SH output).
pub fn script_types_compatible(input_type: &str, output_type: &str) -> (b: bool)
    ensures
        b == (input_type@ == output_type@),
{
    str_eq(input_type, output_type)
}

/// Returns true if `value_sats` is a round payment amount: a nonzero
/// multiple of 100_000 sats (0.001 BTC).
pub fn is_round_number(value_sats: u64) -> (b: bool)
    ensures
        b == spec_is_round(value_sats),
{
    value_sats >= 100_000 && value_sats % 100_000 == 0
}

/// A detected change output at `idx`, found by `method` with `confidence`.
pub open spec fn change_result(idx: u64, method: Seq<char>, confidence: Seq<char>) -> HeuristicModel {
    spec_with(
        spec_with(
            spec_with(plain_result(true), "likely_change_index"@, ExtraModel::U64(idx)),
            "method"@,
            ExtraModel::Text(method),
        ),
        "confidence"@,
        ExtraModel::Text(confidence),
    )
}

/// The change index that a script-type match points to: the one output of
/// the two whose type is the dominant input type.
pub open spec fn script_match_index(tx: TxModel, prevouts: Seq<PrevoutModel>) -> Option<u64> {
    match spec_dominant_input_type(tx.inputs, prevouts) {
        None => None,
        Some(d) => {
            let m0 = d == spec_output_type_str(spec_classify_output(tx.outputs[0].script_pubkey));
            let m1 = d == spec_output_type_str(spec_classify_output(tx.outputs[1].script_pubkey));
            if m0 && !m1 {
                Some(0)
            } else if m1 && !m0 {
                Some(1)
            } else {
                None
            }
        },
    }
}

/// Change detection on a two-output transaction, methods in priority order:
/// a script-type match with the dominant input type ("high"), a
/// round-number payment ("medium"), an OP_RETURN companion ("high"), and
/// the position fallback, index 1 ("low").
pub open spec fn spec_change_detection(tx: TxModel, prevouts: Seq<PrevoutModel>) -> HeuristicModel {
    if tx.outputs.len() != 2 || tx.inputs.len() == 0 {
        plain_result(false)
    } else {
        let t0 = spec_classify_output(tx.outputs[0].script_pubkey);
        let t1 = spec_classify_output(tx.outputs[1].script_pubkey);
        let r0 = spec_is_round(tx.outputs[0].value);
        let r1 = spec_is_round(tx.outputs[1].value);
        if script_match_index(tx, prevouts) is Some {
            change_result(script_match_index(tx, prevouts)->Some_0, "script_type_match"@, "high"@)
        } else if r0 && !r1 {
            change_result(1, "round_number_payment"@, "medium"@)
        } else if r1 && !r0 {
            change_result(0, "round_number_payment"@, "medium"@)
        } else if t0 == OutputScriptType::OpReturn {
            change_result(1, "op_return_companion"@, "high"@)
        } else if t1 == OutputScriptType::OpReturn {
            change_result(0, "op_return_companion"@, "high"@)
        } else {
            change_result(1, "position"@, "low"@)
        }
    }
}

/// A change result reports its index and its method.
proof fn lemma_change_result_fields(idx: u64, method: Seq<char>, confidence: Seq<char>)
    ensures
        change_result(idx, method, confidence).detected,
        entry_get(change_result(idx, method, confidence).extra, "likely_change_index"@) == Some(
            ExtraModel::U64(idx),
        ),
        entry_get(change_result(idx, method, confidence).extra, "method"@) == Some(
            ExtraModel::Text(method),
        ),
{
    reveal_strlit("likely_change_index");
    reveal_strlit("method");
    reveal_strlit("confidence");
    assert("likely_change_index"@[0] == 'l');
    assert("method"@[0] == 'm');
    assert("confidence"@[0] == 'c');
    let h0 = spec_with(plain_result(true), "likely_change_index"@, ExtraModel::U64(idx));
    let h1 = spec_with(h0, "method"@, ExtraModel::Text(method));
    lemma_with_get(h1, "confidence"@, ExtraModel::Text(confidence), "likely_change_index"@);
    lemma_with_get(h0, "method"@, ExtraModel::Text(method), "likely_change_index"@);
    lemma_with_get(plain_result(true), "likely_change_index"@, ExtraModel::U64(idx), "likely_change_index"@);
    lemma_with_get(h1, "confidence"@, ExtraModel::Text(confidence), "method"@);
    lemma_with_get(h0, "method"@, ExtraModel::Text(method), "method"@);
}

/// A round amount, written out: a nonzero multiple of 100_000 sats.
pub open spec fn round_amount(v: u64) -> bool {
    v >= 100_000 && v % 100_000 == 0
}

/// What change detection reports is backed by the transaction: it fires
/// exactly on two outputs and at least one input, and names one of the two
/// outputs as change; when the method is a script-type match, that output
/// has the dominant input type and the other does not; when the method is
/// a round-number payment, the output named as change is not round and the
/// other one is; when the method is an OP_RETURN companion, the other
/// output is the OP_RETURN.
pub proof fn lemma_change_evidence(tx: TxModel, prevouts: Seq<PrevoutModel>)
    ensures
        spec_change_detection(tx, prevouts).detected <==> (tx.outputs.len() == 2 && tx.inputs.len()
            > 0),
        spec_change_detection(tx, prevouts).detected ==> {
            &&& tx.outputs.len() == 2
            &&& entry_get(spec_change_detection(tx, prevouts).extra, "likely_change_index"@) matches Some(
                ExtraModel::U64(i),
            ) && i < 2
        },
        entry_get(spec_change_detection(tx, prevouts).extra, "method"@) == Some(
            ExtraModel::Text("script_type_match"@),
        ) ==> {
            &&& tx.outputs.len() == 2
            &&& entry_get(spec_change_detection(tx, prevouts).extra, "likely_change_index"@) matches Some(
                ExtraModel::U64(i),
            ) && (i < 2 && (spec_dominant_input_type(tx.inputs, prevouts) matches Some(d) && (
            spec_output_type_str(spec_classify_output(tx.outputs[i as int].script_pubkey)) == d
                && spec_output_type_str(spec_classify_output(tx.outputs[1 - i].script_pubkey))
                != d)))
        },
        entry_get(spec_change_detection(tx, prevouts).extra, "method"@) == Some(
            ExtraModel::Text("round_number_payment"@),
        ) ==> {
            &&& tx.outputs.len() == 2
            &&& entry_get(spec_change_detection(tx, prevouts).extra, "likely_change_index"@) matches Some(
                ExtraModel::U64(i),
            ) && i < 2 && !round_amount(tx.outputs[i as int].value) && round_amount(
                tx.outputs[1 - i].value,
            )
        },
        entry_get(spec_change_detection(tx, prevouts).extra, "method"@) == Some(
            ExtraModel::Text("op_return_companion"@),
        ) ==> {
            &&& tx.outputs.len() == 2
            &&& entry_get(spec_change_detection(tx, prevouts).extra, "likely_change_index"@) matches Some(
                ExtraModel::U64(i),
            ) && i < 2 && spec_classify_output(tx.outputs[1 - i].script_pubkey)
                == OutputScriptType::OpReturn
        },
{
    reveal_strlit("round_number_payment");
    reveal_strlit("op_return_companion");
    reveal_strlit("script_type_match");
    reveal_strlit("position");
    assert("round_number_payment"@[0] == 'r');
    assert("op_return_companion"@[0] == 'o');
    assert("script_type_match"@[0] == 's');
    assert("position"@[0] == 'p');
    if tx.outputs.len() == 2 && tx.inputs.len() != 0 {
        let t0 = spec_classify_output(tx.outputs[0].script_pubkey);
        let t1 = spec_classify_output(tx.outputs[1].script_pubkey);
        let r0 = spec_is_round(tx.outputs[0].value);
        let r1 = spec_is_round(tx.outputs[1].value);
        if script_match_index(tx, prevouts) is Some {
            let k = script_match_index(tx, prevouts)->Some_0;
            lemma_change_result_fields(k, "script_type_match"@, "high"@);
        } else if r0 && !r1 {
            lemma_change_result_fields(1, "round_number_payment"@, "medium"@);
        } else if r1 && !r0 {
            lemma_change_result_fields(0, "round_number_payment"@, "medium"@);
        } else if t0 == OutputScriptType::OpReturn {
            lemma_change_result_fields(1, "op_return_companion"@, "high"@);
        } else if t1 == OutputScriptType::OpReturn {
            lemma_change_result_fields(0, "op_return_companion"@, "high"@);
        } else {
            lemma_change_result_fields(1, "position"@, "low"@);
        }
    }
}

/// A detected change output at `idx`, found by `method` with `confidence`.
fn change_found(idx: u64, method: &str, confidence: &str) -> (h: HeuristicResult)
    ensures
        h@ == change_result(idx, method@, confidence@),
{
    HeuristicResult::detected().with("likely_change_index", ExtraValue::U64(idx)).with(
        "method",
        ExtraValue::Text(method.to_owned()),
    ).with("confidence", ExtraValue::Text(confidence.to_owned()))
}

/// Change detection heuristic.
///
/// Finds the likely change output of a two-output transaction, the one that
/// returns funds to the sender. Methods, first match wins: a script-type
/// match with the dominant input type, a round-number payment (the
/// non-round output is change), an OP_RETURN companion (the other output
/// must be change), and the position fallback (many wallets put change
/// last).
///
/// Known false positives: consolidations, self-transfers, wallets that
/// deliberately mismatch change types, send-all transactions.
pub fn run(tx: &RawTransaction<'_>, prevout_map: &PrevoutMap) -> (h: HeuristicResult)
    ensures
        h@ == spec_change_detection(tx@, prevout_map@),
{
    if tx.outputs.len() != 2 {
        return HeuristicResult::not_detected();
    }
    if tx.inputs.len() == 0 {
        return HeuristicResult::not_detected();
    }
    proof {
        assert(tx@.outputs[0] == tx.outputs@[0]@);
        assert(tx@.outputs[1] == tx.outputs@[1]@);
    }
    let out0_type = classify_output(tx.outputs[0].script_pubkey);
    let out1_type = classify_output(tx.outputs[1].script_pubkey);
    match dominant_input_type(tx, prevout_map) {
        Some(input_type_str) => {
            let out0_matches = script_types_compatible(input_type_str, out0_type.as_str());
            let out1_matches = script_types_compatible(input_type_str, out1_type.as_str());
            if out0_matches && !out1_matches {
                return change_found(0, "script_type_match", "high");
            }
            if out1_matches && !out0_matches {
                return change_found(1, "script_type_match", "high");
            }
        },
        None => {},
    }
    let round0 = is_round_number(tx.outputs[0].value);
    let round1 = is_round_number(tx.outputs[1].value);
    if round0 && !round1 {
        return change_found(1, "round_number_payment", "medium");
    }
    if round1 && !round0 {
        return change_found(0, "round_number_payment", "medium");
    }
    if out0_type == OutputScriptType::OpReturn {
        return change_found(1, "op_return_companion", "high");
    }
    if out1_type == OutputScriptType::OpReturn {
        return change_found(0, "op_return_companion", "high");
    }
    change_found(1, "position", "low")
}

} // verus!
