//! CoinJoin detection heuristic.

use vstd::prelude::*;

use crate::types::{
    entry_get, lemma_with_get, plain_result, spec_with, ExtraModel, ExtraValue, HeuristicModel, HeuristicResult, OutputModel,
    RawTransaction, TxModel,
};

verus! {

/// How many outputs among `outs` carry the value `v`.
pub open spec fn value_freq(outs: Seq<OutputModel>, v: u64) -> nat
    decreases outs.len(),
{
    if outs.len() == 0 {
        0
    } else {
        value_freq(outs.drop_last(), v) + if outs.last().value == v {
            1nat
        } else {
            0nat
        }
    }
}

/// A value can be a denomination when at least two outputs carry it and it
/// is at least 10_000 sats.
pub open spec fn eligible(outs: Seq<OutputModel>, v: u64) -> bool {
    value_freq(outs, v) >= 2 && v >= 10_000
}

/// `a` ranks at least as high as `b`: more outputs carry it, or as many and
/// it is at least as large.
pub open spec fn ranks_over(outs: Seq<OutputModel>, a: u64, b: u64) -> bool {
    value_freq(outs, a) > value_freq(outs, b) || (value_freq(outs, a) == value_freq(outs, b) && a
        >= b)
}

/// `v` is the denomination: the eligible value carried by the most outputs,
/// the higher value on a tie.
pub open spec fn is_denomination(outs: Seq<OutputModel>, v: u64) -> bool {
    &&& eligible(outs, v)
    &&& forall|j: int|
        0 <= j < outs.len() && eligible(outs, #[trigger] outs[j].value) ==> ranks_over(
            outs,
            v,
            outs[j].value,
        )
}

/// CoinJoin: at least three inputs and a denomination among the outputs.
/// Reports the denomination, how many outputs carry it, the input count,
/// and confidence "high" when both counts reach 5, "medium" when both reach
/// 3, else "low".
pub open spec fn spec_coinjoin(tx: TxModel) -> HeuristicModel {
    let n = tx.inputs.len();
    if n < 3 || !(exists|v: u64| is_denomination(tx.outputs, v)) {
        plain_result(false)
    } else {
        let d = choose|v: u64| is_denomination(tx.outputs, v);
        let eq = value_freq(tx.outputs, d);
        spec_with(
            spec_with(
                spec_with(
                    spec_with(plain_result(true), "denomination_sats"@, ExtraModel::U64(d)),
                    "equal_output_count"@,
                    ExtraModel::U64(eq as u64),
                ),
                "input_count"@,
                ExtraModel::U64(n as u64),
            ),
            "confidence"@,
            ExtraModel::Text(
                if eq >= 5 && n >= 5 {
                    "high"@
                } else if eq >= 3 && n >= 3 {
                    "medium"@
                } else {
                    "low"@
                },
            ),
        )
    }
}

/// A value that some output carries appears at some index.
proof fn lemma_freq_witness(outs: Seq<OutputModel>, v: u64)
    requires
        value_freq(outs, v) > 0,
    ensures
        exists|j: int| 0 <= j < outs.len() && outs[j].value == v,
    decreases outs.len(),
{
    if outs.last().value != v {
        lemma_freq_witness(outs.drop_last(), v);
        let j = choose|j: int| 0 <= j < outs.len() - 1 && outs.drop_last()[j].value == v;
        assert(outs[j].value == v);
    } else {
        assert(outs[outs.len() - 1].value == v);
    }
}

/// There is at most one denomination.
proof fn lemma_denomination_unique(outs: Seq<OutputModel>, a: u64, b: u64)
    requires
        is_denomination(outs, a),
        is_denomination(outs, b),
    ensures
        a == b,
{
    lemma_freq_witness(outs, a);
    lemma_freq_witness(outs, b);
    let ja = choose|j: int| 0 <= j < outs.len() && outs[j].value == a;
    let jb = choose|j: int| 0 <= j < outs.len() && outs[j].value == b;
    assert(eligible(outs, outs[ja].value));
    assert(eligible(outs, outs[jb].value));
}

/// No more outputs carry a value than there are outputs.
proof fn lemma_freq_bound(outs: Seq<OutputModel>, v: u64)
    ensures
        value_freq(outs, v) <= outs.len(),
    decreases outs.len(),
{
    if outs.len() > 0 {
        lemma_freq_bound(outs.drop_last(), v);
    }
}

/// A value that two or more outputs carry appears at two different indices.
proof fn lemma_freq_pair(outs: Seq<OutputModel>, v: u64)
    requires
        value_freq(outs, v) >= 2,
    ensures
        exists|i: int, j: int|
            #![trigger outs[i], outs[j]]
            0 <= i < j < outs.len() && outs[i].value == v && outs[j].value == v,
    decreases outs.len(),
{
    let init = outs.drop_last();
    if outs.last().value == v {
        lemma_freq_witness(init, v);
        let i = choose|i: int| 0 <= i < init.len() && init[i].value == v;
        assert(outs[i] == init[i]);
        assert(outs[outs.len() - 1] == outs.last());
    } else {
        lemma_freq_pair(init, v);
        let (i, j) = choose|i: int, j: int|
            #![trigger init[i], init[j]]
            0 <= i < j < init.len() && init[i].value == v && init[j].value == v;
        assert(outs[i] == init[i] && outs[j] == init[j]);
    }
}

/// The best-ranked eligible value among the first `k` outputs, if any.
spec fn best_upto(outs: Seq<OutputModel>, k: nat) -> Option<u64>
    decreases k,
{
    if k == 0 {
        None
    } else {
        let prev = best_upto(outs, (k - 1) as nat);
        let v = outs[k - 1].value;
        if eligible(outs, v) && (prev is None || ranks_over(outs, v, prev->Some_0)) {
            Some(v)
        } else {
            prev
        }
    }
}

/// `best_upto` ranks over every eligible value among the first `k` outputs.
proof fn lemma_best_upto(outs: Seq<OutputModel>, k: nat)
    requires
        k <= outs.len(),
    ensures
        match best_upto(outs, k) {
            Some(b) => eligible(outs, b) && forall|j: int|
                0 <= j < k && eligible(outs, #[trigger] outs[j].value) ==> ranks_over(
                    outs,
                    b,
                    outs[j].value,
                ),
            None => forall|j: int| 0 <= j < k ==> !eligible(outs, #[trigger] outs[j].value),
        },
    decreases k,
{
    if k > 0 {
        lemma_best_upto(outs, (k - 1) as nat);
    }
}

/// Where two different outputs carry the same value of at least 10_000
/// sats, there is a denomination.
proof fn lemma_denomination_exists(outs: Seq<OutputModel>, i: int, j: int)
    requires
        0 <= i < j < outs.len(),
        outs[i].value == outs[j].value,
        outs[i].value >= 10_000,
    ensures
        exists|v: u64| is_denomination(outs, v),
{
    lemma_pair_freq(outs, i, j);
    lemma_best_upto(outs, outs.len());
    assert(eligible(outs, outs[i].value));
    let b = best_upto(outs, outs.len())->Some_0;
    assert(is_denomination(outs, b));
}

/// Two different outputs carrying one value make its frequency at least two.
proof fn lemma_pair_freq(outs: Seq<OutputModel>, i: int, j: int)
    requires
        0 <= i < j < outs.len(),
        outs[i].value == outs[j].value,
    ensures
        value_freq(outs, outs[i].value) >= 2,
    decreases outs.len(),
{
    let init = outs.drop_last();
    let v = outs[i].value;
    if j < outs.len() - 1 {
        assert(init[i] == outs[i] && init[j] == outs[j]);
        lemma_pair_freq(init, i, j);
    } else {
        assert(init[i] == outs[i]);
        lemma_value_present(init, i);
        assert(outs.last() == outs[j]);
    }
}

/// A value carried at some index has frequency at least one.
proof fn lemma_value_present(outs: Seq<OutputModel>, i: int)
    requires
        0 <= i < outs.len(),
    ensures
        value_freq(outs, outs[i].value) >= 1,
    decreases outs.len(),
{
    let init = outs.drop_last();
    if i < outs.len() - 1 {
        assert(init[i] == outs[i]);
        lemma_value_present(init, i);
    } else {
        assert(outs.last() == outs[i]);
    }
}

/// CoinJoin is detected exactly when the transaction has at least three
/// inputs and two different outputs carry the same value of at least
/// 10_000 sats.
pub proof fn lemma_coinjoin_detected_iff(tx: TxModel)
    ensures
        spec_coinjoin(tx).detected <==> (tx.inputs.len() >= 3 && exists|i: int, j: int|
            #![trigger tx.outputs[i], tx.outputs[j]]
            0 <= i < j < tx.outputs.len() && tx.outputs[i].value == tx.outputs[j].value
                && tx.outputs[i].value >= 10_000),
{
    let outs = tx.outputs;
    if tx.inputs.len() >= 3 && exists|i: int, j: int|
        #![trigger outs[i], outs[j]]
        0 <= i < j < outs.len() && outs[i].value == outs[j].value && outs[i].value >= 10_000 {
        let (i, j) = choose|i: int, j: int|
            #![trigger outs[i], outs[j]]
            0 <= i < j < outs.len() && outs[i].value == outs[j].value && outs[i].value >= 10_000;
        lemma_denomination_exists(outs, i, j);
    }
    if spec_coinjoin(tx).detected {
        let d = choose|v: u64| is_denomination(outs, v);
        lemma_freq_pair(outs, d);
        let (i, j) = choose|i: int, j: int|
            #![trigger outs[i], outs[j]]
            0 <= i < j < outs.len() && outs[i].value == d && outs[j].value == d;
        assert(outs[i].value == outs[j].value && outs[i].value >= 10_000);
    }
}

/// A detected CoinJoin has at least three inputs, and its reported
/// denomination, at least 10_000 sats, is the value of two different
/// outputs; no value of at least 10_000 sats is carried by more outputs,
/// and the equal-output count, at least two, is how many outputs carry it. So a transaction
/// whose outputs all differ in value is never a CoinJoin. (Output counts
/// fit a u64.)
pub proof fn lemma_coinjoin_denomination_repeated(tx: TxModel)
    requires
        tx.outputs.len() <= u64::MAX,
    ensures
        spec_coinjoin(tx).detected ==> {
            &&& tx.inputs.len() >= 3
            &&& entry_get(spec_coinjoin(tx).extra, "denomination_sats"@) matches Some(
                ExtraModel::U64(d),
            ) && (d >= 10_000 && (exists|i: int, j: int|
                #![trigger tx.outputs[i], tx.outputs[j]]
                0 <= i < j < tx.outputs.len() && tx.outputs[i].value == d && tx.outputs[j].value
                    == d) && (forall|k: int|
                0 <= k < tx.outputs.len() && tx.outputs[k].value >= 10_000 ==> value_freq(
                    tx.outputs,
                    d,
                ) >= value_freq(tx.outputs, #[trigger] tx.outputs[k].value)) && (entry_get(
                spec_coinjoin(tx).extra,
                "equal_output_count"@,
            ) matches Some(ExtraModel::U64(c)) && (c >= 2 && c == value_freq(tx.outputs, d))))
        },
        (forall|i: int, j: int|
            #![trigger tx.outputs[i], tx.outputs[j]]
            0 <= i < j < tx.outputs.len() ==> tx.outputs[i].value != tx.outputs[j].value)
            ==> !spec_coinjoin(tx).detected,
{
    let outs = tx.outputs;
    let n = tx.inputs.len();
    if n >= 3 && exists|v: u64| is_denomination(outs, v) {
        let d = choose|v: u64| is_denomination(outs, v);
        let eq = value_freq(outs, d);
        lemma_freq_pair(outs, d);
        lemma_freq_bound(outs, d);
        reveal_strlit("denomination_sats");
        reveal_strlit("equal_output_count");
        reveal_strlit("input_count");
        reveal_strlit("confidence");
        let h0 = spec_with(plain_result(true), "denomination_sats"@, ExtraModel::U64(d));
        let h1 = spec_with(h0, "equal_output_count"@, ExtraModel::U64(eq as u64));
        let h2 = spec_with(h1, "input_count"@, ExtraModel::U64(n as u64));
        let conf = if eq >= 5 && n >= 5 {
            "high"@
        } else if eq >= 3 && n >= 3 {
            "medium"@
        } else {
            "low"@
        };
        assert(spec_coinjoin(tx) == spec_with(h2, "confidence"@, ExtraModel::Text(conf)));
        lemma_with_get(h2, "confidence"@, ExtraModel::Text(conf), "denomination_sats"@);
        lemma_with_get(h1, "input_count"@, ExtraModel::U64(n as u64), "denomination_sats"@);
        lemma_with_get(h0, "equal_output_count"@, ExtraModel::U64(eq as u64), "denomination_sats"@);
        lemma_with_get(plain_result(true), "denomination_sats"@, ExtraModel::U64(d), "denomination_sats"@);
        lemma_with_get(h2, "confidence"@, ExtraModel::Text(conf), "equal_output_count"@);
        lemma_with_get(h1, "input_count"@, ExtraModel::U64(n as u64), "equal_output_count"@);
        lemma_with_get(h0, "equal_output_count"@, ExtraModel::U64(eq as u64), "equal_output_count"@);
        assert("denomination_sats"@[0] == 'd');
        assert("confidence"@[0] == 'c');
        assert("input_count"@[0] == 'i');
        assert("equal_output_count"@[0] == 'e');
        assert("denomination_sats"@ != "confidence"@);
        assert("denomination_sats"@ != "input_count"@);
        assert("denomination_sats"@ != "equal_output_count"@);
        assert("equal_output_count"@ != "confidence"@);
        assert("equal_output_count"@ != "input_count"@);
        assert(entry_get(spec_coinjoin(tx).extra, "denomination_sats"@) == Some(ExtraModel::U64(d)));
        assert(entry_get(spec_coinjoin(tx).extra, "equal_output_count"@) == Some(ExtraModel::U64(eq as u64)));
        let (i, j) = choose|i: int, j: int|
            #![trigger outs[i], outs[j]]
            0 <= i < j < outs.len() && outs[i].value == d && outs[j].value == d;
        assert(outs[i].value == outs[j].value);
    }
}

/// How many outputs carry the value `v`.
fn count_value(tx: &RawTransaction<'_>, v: u64) -> (c: u64)
    ensures
        c == value_freq(tx@.outputs, v),
{
    let ghost outs = tx@.outputs;
    let mut c: u64 = 0;
    let mut k: usize = 0;
    while k < tx.outputs.len()
        invariant
            outs == tx@.outputs,
            k <= outs.len(),
            c == value_freq(outs.take(k as int), v),
            c <= k,
        decreases outs.len() - k,
    {
        proof {
            assert(outs.take(k + 1).drop_last() =~= outs.take(k as int));
            assert(outs.take(k + 1).last() == outs[k as int]);
        }
        if tx.outputs[k].value == v {
            c = c + 1;
        }
        k = k + 1;
    }
    proof {
        assert(outs.take(k as int) =~= outs);
    }
    c
}

/// CoinJoin detection heuristic.
///
/// CoinJoins combine inputs of several participants and produce equal-value
/// outputs so that the transaction graph cannot be traced. Detection needs
/// at least three inputs and an output value carried by at least two
/// outputs and worth at least 10_000 sats; the denomination is the most
/// repeated such value, the higher one on a tie.
///
/// Known false positives: exchange batch withdrawals with equal amounts,
/// P2Pool coinbase outputs. Whether the inputs really have different owners
/// is not checked.
pub fn run(tx: &RawTransaction<'_>) -> (h: HeuristicResult)
    ensures
        h@ == spec_coinjoin(tx@),
{
    let ghost outs = tx@.outputs;
    let input_count = tx.inputs.len();
    if input_count < 3 {
        return HeuristicResult::not_detected();
    }
    let mut best: Option<(u64, u64)> = None;
    let mut i: usize = 0;
    while i < tx.outputs.len()
        invariant
            outs == tx@.outputs,
            i <= outs.len(),
            match best {
                None => forall|j: int| 0 <= j < i ==> !eligible(outs, #[trigger] outs[j].value),
                Some((b, cb)) => {
                    &&& cb == value_freq(outs, b)
                    &&& eligible(outs, b)
                    &&& forall|j: int|
                        0 <= j < i && eligible(outs, #[trigger] outs[j].value) ==> ranks_over(
                            outs,
                            b,
                            outs[j].value,
                        )
                },
            },
        decreases outs.len() - i,
    {
        let v = tx.outputs[i].value;
        let c = count_value(tx, v);
        proof {
            assert(outs[i as int].value == v);
        }
        if c >= 2 && v >= 10_000 {
            let better = match best {
                None => true,
                Some((b, cb)) => c > cb || (c == cb && v >= b),
            };
            if better {
                best = Some((v, c));
            }
        }
        i = i + 1;
    }
    let (denomination, equal_output_count) = match best {
        Some(p) => p,
        None => {
            proof {
                if exists|v: u64| is_denomination(outs, v) {
                    let v = choose|v: u64| is_denomination(outs, v);
                    lemma_freq_witness(outs, v);
                    let j = choose|j: int| 0 <= j < outs.len() && outs[j].value == v;
                    assert(!eligible(outs, outs[j].value));
                }
            }
            return HeuristicResult::not_detected();
        },
    };
    proof {
        assert(is_denomination(outs, denomination));
        let d = choose|v: u64| is_denomination(outs, v);
        lemma_denomination_unique(outs, d, denomination);
    }
    let confidence = if equal_output_count >= 5 && input_count >= 5 {
        "high"
    } else if equal_output_count >= 3 && input_count >= 3 {
        "medium"
    } else {
        "low"
    };
    HeuristicResult::detected().with("denomination_sats", ExtraValue::U64(denomination)).with(
        "equal_output_count",
        ExtraValue::U64(equal_output_count),
    ).with("input_count", ExtraValue::U64(input_count as u64)).with(
        "confidence",
        ExtraValue::Text(confidence.to_owned()),
    )
}

} // verus!
