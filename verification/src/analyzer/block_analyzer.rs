//! Per-block and per-file analysis: heuristics on every transaction, and the
//! counts, distributions and fee data that the reports are made of.

use vstd::prelude::*;

use crate::analyzer::context::{
    contains_string, find_script, find_spend, script_index_view, spend_index_view, strings_view,
    BlockContext, BlockContextModel,
};
use crate::analyzer::script_classifier::{classify_output, OutputScriptType};
use crate::errors::{ChainError, ErrorKind};
use crate::heuristics::address_reuse::{reusable, spec_address_reuse};
use crate::heuristics::change_detection::spec_change_detection;
use crate::heuristics::cioh::spec_cioh;
use crate::heuristics::coinjoin::spec_coinjoin;
use crate::heuristics::consolidation::spec_consolidation;
use crate::heuristics::op_return::spec_op_return;
use crate::heuristics::peeling_chain::spec_peeling_chain;
use crate::heuristics::round_number::spec_round_number;
use crate::heuristics::self_transfer::spec_self_transfer;
use crate::heuristics::tx_classifier::{classify, fired, spec_classify, spec_fired};
use crate::parser::block_parser::{
    ParsedBlock, ParsedBlockModel, buffers_view, hash_display, sha256d, spec_hash_display,
    spec_sha256d, spec_txid,
};
use crate::io::buffer_reader::le_value;
use crate::parser::transaction::{
    lemma_le_value_push, parse_tx, pow256, push_bytes, spec_legacy_bytes, spec_parse_tx,
};
use crate::parser::undo_parser::{BlockUndo, BlockUndoModel};
use crate::analyzer::fee_calculator::{compute_weight, spec_vbytes, spec_weight, weight_fits};
use crate::heuristics::prevout_types::script_type_name;
use crate::text::spec_decimal;
use crate::types::{
    dist_zero, duplicate_detail, keys_distinct, prevouts_view, spec_any_detected, spec_counter, spec_dist_add,
    dist_merge_fits, spec_dist_merge, spec_dist_total, spec_lookup, Prevout, ScriptTypeDistribution,
    entry_get, entry_set, plain_result, InputModel, OutputModel, HeuristicModel, HeuristicResult, PrevoutMap, PrevoutModel,
    RawTransaction, TxAnalysis, TxAnalysisModel, TxClassification, TxModel,
};

verus! {

// ─── BIP34 height ────────────────────────────────────────────────────────────

/// ORing a byte in above a smaller value adds it: `v | (x << 8i)` is
/// `v + x * 256^i` when `v < 256^i`, for the eight byte positions of a u64.
proof fn lemma_or_byte(v: u64, x: u64, i: nat)
    requires
        i < 8,
        x < 256,
        v < pow256(i),
    ensures
        v | (x << ((8 * i) as u64)) == v + x * pow256(i),
{
    assert(pow256(0) == 1 && pow256(1) == 0x100 && pow256(2) == 0x1_0000 && pow256(3)
        == 0x100_0000 && pow256(4) == 0x1_0000_0000 && pow256(5) == 0x100_0000_0000 && pow256(6)
        == 0x1_0000_0000_0000 && pow256(7) == 0x100_0000_0000_0000) by {
        reveal_with_fuel(pow256, 8);
    }
    if i == 0 {
        assert(v | (x << 0u64) == v + x) by (bit_vector)
            requires
                v < 1,
                x < 256,
        ;
    } else if i == 1 {
        assert(v | (x << 8u64) == v + x * 0x100) by (bit_vector)
            requires
                v < 0x100,
                x < 256,
        ;
    } else if i == 2 {
        assert(v | (x << 16u64) == v + x * 0x1_0000) by (bit_vector)
            requires
                v < 0x1_0000,
                x < 256,
        ;
    } else if i == 3 {
        assert(v | (x << 24u64) == v + x * 0x100_0000) by (bit_vector)
            requires
                v < 0x100_0000,
                x < 256,
        ;
    } else if i == 4 {
        assert(v | (x << 32u64) == v + x * 0x1_0000_0000) by (bit_vector)
            requires
                v < 0x1_0000_0000,
                x < 256,
        ;
    } else if i == 5 {
        assert(v | (x << 40u64) == v + x * 0x100_0000_0000) by (bit_vector)
            requires
                v < 0x100_0000_0000,
                x < 256,
        ;
    } else if i == 6 {
        assert(v | (x << 48u64) == v + x * 0x1_0000_0000_0000) by (bit_vector)
            requires
                v < 0x1_0000_0000_0000,
                x < 256,
        ;
    } else {
        assert(v | (x << 56u64) == v + x * 0x100_0000_0000_0000) by (bit_vector)
            requires
                v < 0x100_0000_0000_0000,
                x < 256,
        ;
    }
}

/// The block height that a coinbase scriptSig announces (BIP34): its first
/// byte is the length `n` of the push that follows, which holds the height
/// as a little-endian number of at most eight bytes.
pub open spec fn spec_bip34_height(script_sig: Seq<u8>) -> Result<u64, ErrorKind> {
    if script_sig.len() == 0 {
        Err(ErrorKind::InvalidCoinbase("empty scriptSig"@))
    } else {
        let n = script_sig[0] as int;
        if n == 0 || 1 + n > script_sig.len() {
            Err(
                ErrorKind::InvalidCoinbase(
                    "BIP34 push byte "@ + spec_decimal(n as nat) + " exceeds scriptSig length "@
                        + spec_decimal(script_sig.len()),
                ),
            )
        } else if n > 8 {
            Err(
                ErrorKind::InvalidCoinbase(
                    "BIP34 height push of "@ + spec_decimal(n as nat) + " bytes exceeds 8"@,
                ),
            )
        } else {
            Ok(le_value(script_sig.subrange(1, 1 + n)) as u64)
        }
    }
}

/// Decode the BIP34 block height from a coinbase scriptSig.
pub fn decode_bip34_height(script_sig: &[u8]) -> (res: Result<u64, ChainError>)
    ensures
        match res {
            Ok(v) => spec_bip34_height(script_sig@) == Ok::<u64, ErrorKind>(v),
            Err(e) => spec_bip34_height(script_sig@) == Err::<u64, ErrorKind>(e.kind()),
        },
{
    if script_sig.len() == 0 {
        return Err(ChainError::InvalidCoinbase { detail: "empty scriptSig".to_owned() });
    }
    let n = script_sig[0] as usize;
    if n == 0 || 1 + n > script_sig.len() {
        let mut detail = "BIP34 push byte ".to_owned();
        crate::text::push_decimal(&mut detail, n as u64);
        detail.append(" exceeds scriptSig length ");
        crate::text::push_decimal(&mut detail, script_sig.len() as u64);
        return Err(ChainError::InvalidCoinbase { detail });
    }
    if n > 8 {
        let mut detail = "BIP34 height push of ".to_owned();
        crate::text::push_decimal(&mut detail, n as u64);
        detail.append(" bytes exceeds 8");
        return Err(ChainError::InvalidCoinbase { detail });
    }
    let ghost push = script_sig@.subrange(1, 1 + n as int);
    let mut val: u64 = 0;
    let mut i: usize = 0;
    proof {
        assert(push.take(0) =~= Seq::<u8>::empty());
        assert(pow256(0) == 1);
    }
    while i < n
        invariant
            n <= 8,
            1 + n <= script_sig@.len(),
            push == script_sig@.subrange(1, 1 + n as int),
            i <= n,
            val == le_value(push.take(i as int)),
            le_value(push.take(i as int)) < pow256(i as nat),
        decreases n - i,
    {
        let b = script_sig[1 + i];
        proof {
            assert(push.take(i + 1) =~= push.take(i as int).push(b));
            lemma_le_value_push(push.take(i as int), b);
            lemma_or_byte(val, b as u64, i as nat);
            let p = pow256(i as nat);
            assert(le_value(push.take(i as int)) + b * p < 256 * p) by (nonlinear_arith)
                requires
                    le_value(push.take(i as int)) < p,
                    b < 256,
            ;
            assert(pow256((i + 1) as nat) == 256 * p);
        }
        val = val | ((b as u64) << ((i * 8) as u64));
        i = i + 1;
    }
    proof {
        assert(push.take(i as int) =~= push);
    }
    Ok(val)
}

// ─── Heuristic and classification ids ───────────────────────────────────────

/// The heuristics this engine applies, in report order.
pub open spec fn spec_heuristic_ids() -> Seq<Seq<char>> {
    seq![
        "cioh"@,
        "change_detection"@,
        "consolidation"@,
        "coinjoin"@,
        "self_transfer"@,
        "round_number"@,
        "op_return"@,
        "address_reuse"@,
        "peeling_chain"@,
    ]
}

/// The number of heuristics applied.
pub const HEURISTIC_COUNT: usize = 9;

/// The number of classifications.
pub const CLASSIFICATION_COUNT: usize = 6;

/// The id of heuristic `k`.
pub fn heuristic_id(k: usize) -> (s: &'static str)
    requires
        k < HEURISTIC_COUNT,
    ensures
        s@ == spec_heuristic_ids()[k as int],
{
    match k {
        0 => "cioh",
        1 => "change_detection",
        2 => "consolidation",
        3 => "coinjoin",
        4 => "self_transfer",
        5 => "round_number",
        6 => "op_return",
        7 => "address_reuse",
        _ => "peeling_chain",
    }
}

/// The ids of the heuristics applied, in report order.
pub fn heuristics_applied() -> (v: Vec<String>)
    ensures
        v@.len() == HEURISTIC_COUNT,
        forall|k: int| 0 <= k < HEURISTIC_COUNT ==> #[trigger] v@[k]@ == spec_heuristic_ids()[k],
{
    let mut v: Vec<String> = Vec::new();
    let mut k: usize = 0;
    while k < HEURISTIC_COUNT
        invariant
            k <= HEURISTIC_COUNT,
            v@.len() == k,
            forall|j: int| 0 <= j < k ==> #[trigger] v@[j]@ == spec_heuristic_ids()[j],
        decreases HEURISTIC_COUNT - k,
    {
        v.push(heuristic_id(k).to_owned());
        k = k + 1;
    }
    v
}

/// The classifications, in report order.
pub open spec fn spec_classification_ids() -> Seq<Seq<char>> {
    seq![
        "simple_payment"@,
        "consolidation"@,
        "coinjoin"@,
        "self_transfer"@,
        "batch_payment"@,
        "unknown"@,
    ]
}

/// The position of a classification in report order.
pub open spec fn spec_class_index(c: TxClassification) -> int {
    match c {
        TxClassification::SimplePayment => 0,
        TxClassification::Consolidation => 1,
        TxClassification::Coinjoin => 2,
        TxClassification::SelfTransfer => 3,
        TxClassification::BatchPayment => 4,
        TxClassification::Unknown => 5,
    }
}

/// The schema id of a classification.
pub fn classification_id(classification: &TxClassification) -> (s: &'static str)
    ensures
        s@ == spec_classification_ids()[spec_class_index(*classification)],
{
    match classification {
        TxClassification::SimplePayment => "simple_payment",
        TxClassification::Consolidation => "consolidation",
        TxClassification::Coinjoin => "coinjoin",
        TxClassification::SelfTransfer => "self_transfer",
        TxClassification::BatchPayment => "batch_payment",
        TxClassification::Unknown => "unknown",
    }
}

/// The position of a classification in report order.
fn class_index(c: &TxClassification) -> (k: usize)
    ensures
        k == spec_class_index(*c),
        k < CLASSIFICATION_COUNT,
{
    match c {
        TxClassification::SimplePayment => 0,
        TxClassification::Consolidation => 1,
        TxClassification::Coinjoin => 2,
        TxClassification::SelfTransfer => 3,
        TxClassification::BatchPayment => 4,
        TxClassification::Unknown => 5,
    }
}

/// Coinjoin, consolidation, self-transfer and batch payment are notable.
pub open spec fn spec_is_notable(c: TxClassification) -> bool {
    c == TxClassification::Coinjoin || c == TxClassification::Consolidation || c
        == TxClassification::SelfTransfer || c == TxClassification::BatchPayment
}

/// Whether a classification is listed among a block's notable transactions.
pub fn is_notable_classification(classification: &TxClassification) -> (b: bool)
    ensures
        b == spec_is_notable(*classification),
{
    match classification {
        TxClassification::Coinjoin | TxClassification::Consolidation | TxClassification::SelfTransfer
        | TxClassification::BatchPayment => true,
        _ => false,
    }
}

/// The ids among the first `k` heuristics that fired in `hs`, in order.
pub open spec fn detected_ids(hs: Seq<(Seq<char>, HeuristicModel)>, k: nat) -> Seq<Seq<char>>
    decreases k,
{
    if k == 0 {
        seq![]
    } else {
        let rest = detected_ids(hs, (k - 1) as nat);
        let id = spec_heuristic_ids()[k - 1];
        if spec_fired(hs, id) {
            rest.push(id)
        } else {
            rest
        }
    }
}

/// The texts of a list of strings.
pub open spec fn texts_view(v: Seq<String>) -> Seq<Seq<char>> {
    v.map_values(|s: String| s@)
}

/// The ids of the heuristics that fired for `analysis`, in report order.
pub fn detected_heuristics(analysis: &TxAnalysis) -> (v: Vec<String>)
    ensures
        texts_view(v@) == detected_ids(analysis@.heuristics, HEURISTIC_COUNT as nat),
{
    let mut v: Vec<String> = Vec::new();
    let mut k: usize = 0;
    while k < HEURISTIC_COUNT
        invariant
            k <= HEURISTIC_COUNT,
            texts_view(v@) == detected_ids(analysis@.heuristics, k as nat),
        decreases HEURISTIC_COUNT - k,
    {
        let id = heuristic_id(k);
        let ghost prev = v@;
        if fired(analysis, id) {
            v.push(id.to_owned());
            proof {
                assert(texts_view(v@) =~= texts_view(prev).push(id@));
            }
        }
        k = k + 1;
    }
    v
}

// ─── Per-transaction analysis ───────────────────────────────────────────────

/// The heuristic results of the coinbase: the first `k` heuristics, each
/// recorded as not detected.
pub open spec fn coinbase_heuristics(k: nat) -> Seq<(Seq<char>, HeuristicModel)>
    decreases k,
{
    if k == 0 {
        seq![]
    } else {
        entry_set(coinbase_heuristics((k - 1) as nat), spec_heuristic_ids()[k - 1], plain_result(false))
    }
}

/// The analysis in which no heuristic ran: every heuristic not detected,
/// classified `Unknown`. The coinbase gets it, and so does every
/// transaction of a block without undo data.
pub open spec fn spec_quiet_analysis(txid: Seq<char>) -> TxAnalysisModel {
    TxAnalysisModel {
        txid,
        heuristics: coinbase_heuristics(HEURISTIC_COUNT as nat),
        classification: TxClassification::Unknown,
    }
}

/// The analysis with every heuristic not detected.
fn quiet_analysis(txid: &str) -> (a: TxAnalysis)
    ensures
        a@ == spec_quiet_analysis(txid@),
{
    let mut analysis = TxAnalysis::new(txid.to_owned());
    let mut k: usize = 0;
    while k < HEURISTIC_COUNT
        invariant
            k <= HEURISTIC_COUNT,
            analysis@ == (TxAnalysisModel {
                txid: txid@,
                heuristics: coinbase_heuristics(k as nat),
                classification: TxClassification::Unknown,
            }),
        decreases HEURISTIC_COUNT - k,
    {
        analysis.set_heuristic(heuristic_id(k), HeuristicResult::not_detected());
        k = k + 1;
    }
    analysis
}

/// The heuristic results of a non-coinbase transaction, recorded in report
/// order.
pub open spec fn spec_tx_heuristics(
    txid: Seq<char>,
    tx: TxModel,
    prevouts: Seq<PrevoutModel>,
    ctx: BlockContextModel,
) -> Seq<(Seq<char>, HeuristicModel)> {
    let h0 = entry_set(seq![], "cioh"@, spec_cioh(tx));
    let h1 = entry_set(h0, "change_detection"@, spec_change_detection(tx, prevouts));
    let h2 = entry_set(h1, "consolidation"@, spec_consolidation(tx, prevouts));
    let h3 = entry_set(h2, "coinjoin"@, spec_coinjoin(tx));
    let h4 = entry_set(h3, "self_transfer"@, spec_self_transfer(tx, prevouts));
    let h5 = entry_set(h4, "round_number"@, spec_round_number(tx));
    let h6 = entry_set(h5, "op_return"@, spec_op_return(tx));
    let h7 = entry_set(h6, "address_reuse"@, spec_address_reuse(tx, prevouts, ctx.script_index));
    entry_set(h7, "peeling_chain"@, spec_peeling_chain(txid, tx, ctx))
}

/// The analysis of a non-coinbase transaction: every heuristic, then the
/// classification of their results.
pub open spec fn spec_apply_heuristics(
    txid: Seq<char>,
    tx: TxModel,
    prevouts: Seq<PrevoutModel>,
    ctx: BlockContextModel,
) -> TxAnalysisModel {
    let hs = spec_tx_heuristics(txid, tx, prevouts, ctx);
    TxAnalysisModel { txid, heuristics: hs, classification: spec_classify(hs) }
}

/// Apply all heuristics to one non-coinbase transaction, then classify it.
fn apply_heuristics(
    txid: &str,
    tx: &RawTransaction<'_>,
    prevout_map: &PrevoutMap,
    ctx: &BlockContext,
) -> (a: TxAnalysis)
    requires
        tx@.outputs.len() + tx@.inputs.len() < u64::MAX,
    ensures
        a@ == spec_apply_heuristics(txid@, tx@, prevout_map@, ctx@),
{
    let mut analysis = TxAnalysis::new(txid.to_owned());
    analysis.set_heuristic("cioh", crate::heuristics::cioh::run(tx));
    analysis.set_heuristic(
        "change_detection",
        crate::heuristics::change_detection::run(tx, prevout_map),
    );
    analysis.set_heuristic(
        "consolidation",
        crate::heuristics::consolidation::run(tx, prevout_map),
    );
    analysis.set_heuristic("coinjoin", crate::heuristics::coinjoin::run(tx));
    analysis.set_heuristic(
        "self_transfer",
        crate::heuristics::self_transfer::run(tx, prevout_map),
    );
    analysis.set_heuristic("round_number", crate::heuristics::round_number::run(tx));
    analysis.set_heuristic("op_return", crate::heuristics::op_return::run(tx));
    analysis.set_heuristic(
        "address_reuse",
        crate::heuristics::address_reuse::run(tx, prevout_map, &ctx.script_index),
    );
    analysis.set_heuristic(
        "peeling_chain",
        crate::heuristics::peeling_chain::run(txid, tx, ctx),
    );
    analysis.classification = classify(&analysis);
    analysis
}

// ─── Parsing the block's transactions ───────────────────────────────────────

/// Every raw transaction parsed, with the number of bytes each occupies, or
/// the first parse error.
pub open spec fn spec_parse_all(raws: Seq<Seq<u8>>) -> Result<Seq<(TxModel, nat)>, ErrorKind>
    decreases raws.len(),
{
    if raws.len() == 0 {
        Ok(seq![])
    } else {
        match spec_parse_all(raws.drop_last()) {
            Err(e) => Err(e),
            Ok(txs) => match spec_parse_tx(raws.last()) {
                Err(e) => Err(e),
                Ok(p) => Ok(txs.push(p)),
            },
        }
    }
}

/// The txid of a transaction in display order (reversed hex).
pub open spec fn spec_display_txid(tx: TxModel) -> Seq<char> {
    spec_hash_display(spec_txid(tx))
}

/// The parsed transactions line up with their models and raw buffers.
pub open spec fn parsed_match<'a>(
    parsed: Seq<RawTransaction<'a>>,
    txs: Seq<(TxModel, nat)>,
    raws: Seq<Seq<u8>>,
) -> bool {
    &&& parsed.len() == txs.len()
    &&& txs.len() <= raws.len()
    &&& forall|i: int|
        0 <= i < parsed.len() ==> {
            &&& (#[trigger] parsed[i])@ == txs[i].0
            &&& parsed[i].full_bytes@.len() == txs[i].1
            &&& parsed[i].legacy_bytes@ == spec_legacy_bytes(txs[i].0)
            &&& spec_parse_tx(raws[i]) == Ok::<(TxModel, nat), ErrorKind>(txs[i])
            &&& txs[i].1 <= raws[i].len()
        }
}

/// Parse every transaction of a block.
#[verifier::spinoff_prover]
#[verifier::rlimit(30)]
fn parse_all<'a>(raws: &'a Vec<Vec<u8>>) -> (res: Result<Vec<RawTransaction<'a>>, ChainError>)
    ensures
        match res {
            Ok(v) => spec_parse_all(buffers_view(raws@)) matches Ok(txs) && parsed_match(
                v@,
                txs,
                buffers_view(raws@),
            ) && txs.len() == raws@.len(),
            Err(e) => spec_parse_all(buffers_view(raws@)) matches Err(k) && e.kind() == k,
        },
{
    let ghost bv = buffers_view(raws@);
    let mut parsed: Vec<RawTransaction<'a>> = Vec::new();
    let ghost mut txs: Seq<(TxModel, nat)> = seq![];
    let mut i: usize = 0;
    while i < raws.len()
        invariant
            bv == buffers_view(raws@),
            i <= raws@.len(),
            spec_parse_all(bv.take(i as int)) == Ok::<Seq<(TxModel, nat)>, ErrorKind>(txs),
            txs.len() == i,
            parsed_match(parsed@, txs, bv),
        decreases raws@.len() - i,
    {
        proof {
            assert(bv.take(i + 1).drop_last() =~= bv.take(i as int));
            assert(bv.take(i + 1).last() == raws@[i as int]@);
        }
        let tx = match parse_tx(raws[i].as_slice()) {
            Ok(t) => t,
            Err(e) => {
                proof {
                    lemma_parse_all_err(bv, i as nat);
                }
                return Err(e);
            },
        };
        let ghost item = (tx@, tx.full_bytes@.len());
        proof {
            assert(raws@[i as int]@.take(item.1 as int).len() == item.1);
        }
        parsed.push(tx);
        proof {
            txs = txs.push(item);
        }
        i = i + 1;
    }
    proof {
        assert(bv.take(i as int) =~= bv);
    }
    Ok(parsed)
}

/// Once a transaction fails to parse, parsing the whole list fails with the
/// first such error.
proof fn lemma_parse_all_err(raws: Seq<Seq<u8>>, i: nat)
    requires
        i < raws.len(),
        spec_parse_all(raws.take(i as int)) is Ok,
        spec_parse_tx(raws[i as int]) is Err,
    ensures
        spec_parse_all(raws) == Err::<Seq<(TxModel, nat)>, ErrorKind>(
            spec_parse_tx(raws[i as int])->Err_0,
        ),
    decreases raws.len() - i,
{
    if i + 1 == raws.len() {
        assert(raws.drop_last() =~= raws.take(i as int));
    } else {
        assert(raws.drop_last().take(i as int) =~= raws.take(i as int));
        lemma_parse_all_err(raws.drop_last(), i);
    }
}

/// The display txids of the parsed transactions.
fn display_txids(parsed: &Vec<RawTransaction<'_>>) -> (v: Vec<String>)
    requires
        forall|i: int|
            0 <= i < parsed@.len() ==> (#[trigger] parsed@[i]).legacy_bytes@ == spec_legacy_bytes(
                parsed@[i]@,
            ),
    ensures
        v@.len() == parsed@.len(),
        forall|i: int| 0 <= i < v@.len() ==> #[trigger] v@[i]@ == spec_display_txid(parsed@[i]@),
{
    let mut v: Vec<String> = Vec::new();
    let mut i: usize = 0;
    while i < parsed.len()
        invariant
            forall|j: int|
                0 <= j < parsed@.len() ==> (#[trigger] parsed@[j]).legacy_bytes@
                    == spec_legacy_bytes(parsed@[j]@),
            i <= parsed@.len(),
            v@.len() == i,
            forall|j: int| 0 <= j < i ==> #[trigger] v@[j]@ == spec_display_txid(parsed@[j]@),
        decreases parsed@.len() - i,
    {
        let h = sha256d(parsed[i].legacy_bytes.as_slice());
        v.push(hash_display(&h));
        i = i + 1;
    }
    v
}

// ─── Block context ───────────────────────────────────────────────────────────

/// The script index after recording that `txid` pays to `script`: the txid
/// joins the script's list unless it is there already.
pub open spec fn index_add(
    index: Seq<(Seq<u8>, Seq<Seq<char>>)>,
    script: Seq<u8>,
    txid: Seq<char>,
) -> Seq<(Seq<u8>, Seq<Seq<char>>)> {
    match entry_get(index, script) {
        Some(l) => if l.contains(txid) {
            index
        } else {
            entry_set(index, script, l.push(txid))
        },
        None => entry_set(index, script, seq![txid]),
    }
}

/// The script index after recording the reusable outputs of one transaction.
pub open spec fn index_outputs(
    index: Seq<(Seq<u8>, Seq<Seq<char>>)>,
    outs: Seq<OutputModel>,
    txid: Seq<char>,
) -> Seq<(Seq<u8>, Seq<Seq<char>>)>
    decreases outs.len(),
{
    if outs.len() == 0 {
        index
    } else {
        let before = index_outputs(index, outs.drop_last(), txid);
        if reusable(outs.last().script_pubkey) {
            index_add(before, outs.last().script_pubkey, txid)
        } else {
            before
        }
    }
}

/// The script index of a block: each non-empty, non-OP_RETURN output script
/// with the distinct txids that pay to it, in order of first appearance.
pub open spec fn spec_script_index(txs: Seq<TxModel>, txids: Seq<Seq<char>>) -> Seq<(Seq<u8>, Seq<Seq<char>>)>
    decreases txs.len(),
{
    if txs.len() == 0 {
        seq![]
    } else {
        index_outputs(spec_script_index(txs.drop_last(), txids), txs.last().outputs, txids[txs.len() - 1])
    }
}

/// The spend index after recording the inputs of one transaction: each
/// outpoint (display txid, vout) maps to the spender, a later spender of the
/// same outpoint replacing an earlier one.
pub open spec fn spend_inputs(
    index: Seq<((Seq<char>, u32), Seq<char>)>,
    ins: Seq<InputModel>,
    txid: Seq<char>,
) -> Seq<((Seq<char>, u32), Seq<char>)>
    decreases ins.len(),
{
    if ins.len() == 0 {
        index
    } else {
        entry_set(
            spend_inputs(index, ins.drop_last(), txid),
            (spec_hash_display(ins.last().txid), ins.last().vout),
            txid,
        )
    }
}

/// The spend index of a block, over every input but the coinbase's.
pub open spec fn spec_spend_index(txs: Seq<TxModel>, txids: Seq<Seq<char>>) -> Seq<((Seq<char>, u32), Seq<char>)>
    decreases txs.len(),
{
    if txs.len() <= 1 {
        seq![]
    } else {
        spend_inputs(spec_spend_index(txs.drop_last(), txids), txs.last().inputs, txids[txs.len() - 1])
    }
}

/// The context of a block: script index, spend index, and the txids of its
/// non-coinbase transactions.
pub open spec fn spec_block_context(txs: Seq<TxModel>, txids: Seq<Seq<char>>) -> BlockContextModel {
    BlockContextModel {
        script_index: spec_script_index(txs, txids),
        spend_index: spec_spend_index(txs, txids),
        block_txids: txids.skip(1),
    }
}

/// The models of parsed transactions.
pub open spec fn tx_models<'a>(v: Seq<RawTransaction<'a>>) -> Seq<TxModel> {
    v.map_values(|t: RawTransaction<'a>| t@)
}

/// A copy of a list of strings.
fn copy_strings(v: &Vec<String>) -> (c: Vec<String>)
    ensures
        strings_view(c@) == strings_view(v@),
{
    let mut c: Vec<String> = Vec::new();
    let mut i: usize = 0;
    while i < v.len()
        invariant
            i <= v@.len(),
            strings_view(c@) == strings_view(v@).take(i as int),
        decreases v@.len() - i,
    {
        let ghost prev = c@;
        c.push(v[i].clone());
        proof {
            assert(strings_view(c@) =~= strings_view(prev).push(v@[i as int]@));
            assert(strings_view(v@).take(i + 1) =~= strings_view(v@).take(i as int).push(
                v@[i as int]@,
            ));
        }
        i = i + 1;
    }
    proof {
        assert(strings_view(v@).take(i as int) =~= strings_view(v@));
    }
    c
}

/// A copy of a byte slice.
fn bytes_to_vec(b: &[u8]) -> (v: Vec<u8>)
    ensures
        v@ == b@,
{
    let mut v: Vec<u8> = Vec::new();
    push_bytes(&mut v, b);
    proof {
        assert(v@ =~= b@);
    }
    v
}

/// Record in the script index that `txid` pays to `script`.
fn index_add_exec(index: &mut Vec<(Vec<u8>, Vec<String>)>, script: &[u8], txid: &String)
    ensures
        script_index_view(final(index)@) == index_add(script_index_view(old(index)@), script@, txid@),
{
    let ghost iv = script_index_view(index@);
    match find_script(index, script) {
        Some(i) => {
            proof {
                assert(iv[i as int].1 == strings_view(index@[i as int].1@));
            }
            if !contains_string(&index[i].1, txid.as_str()) {
                let mut list = copy_strings(&index[i].1);
                let ghost before = strings_view(list@);
                list.push(txid.clone());
                let key = bytes_to_vec(script);
                index.set(i, (key, list));
                proof {
                    assert(strings_view(list@) =~= before.push(txid@));
                    assert(script_index_view(index@) =~= iv.update(
                        i as int,
                        (script@, iv[i as int].1.push(txid@)),
                    ));
                }
            }
        },
        None => {
            let mut list: Vec<String> = Vec::new();
            list.push(txid.clone());
            let key = bytes_to_vec(script);
            index.push((key, list));
            proof {
                assert(strings_view(list@) =~= seq![txid@]);
                assert(script_index_view(index@) =~= iv.push((script@, seq![txid@])));
            }
        },
    }
}

/// Record the outpoint `(prev_txid, vout)` as spent by `txid`.
fn spend_set_exec(index: &mut Vec<((String, u32), String)>, prev_txid: String, vout: u32, txid: &String)
    ensures
        spend_index_view(final(index)@) == entry_set(
            spend_index_view(old(index)@),
            (prev_txid@, vout),
            txid@,
        ),
{
    let ghost iv = spend_index_view(index@);
    let ghost entry = ((prev_txid@, vout), txid@);
    match find_spend(index, prev_txid.as_str(), vout) {
        Some(i) => {
            index.set(i, ((prev_txid, vout), txid.clone()));
            proof {
                assert(spend_index_view(index@) =~= iv.update(i as int, entry));
            }
        },
        None => {
            index.push(((prev_txid, vout), txid.clone()));
            proof {
                assert(spend_index_view(index@) =~= iv.push(entry));
            }
        },
    }
}

/// Build the block context of the parsed transactions of a block.
fn build_context(parsed: &Vec<RawTransaction<'_>>, txids: &Vec<String>) -> (ctx: BlockContext)
    requires
        parsed@.len() == txids@.len(),
        parsed@.len() >= 1,
    ensures
        ctx@ == spec_block_context(tx_models(parsed@), strings_view(txids@)),
{
    let ghost txs = tx_models(parsed@);
    let ghost ids = strings_view(txids@);
    let mut script_index: Vec<(Vec<u8>, Vec<String>)> = Vec::new();
    let mut spend_index: Vec<((String, u32), String)> = Vec::new();
    let mut i: usize = 0;
    proof {
        assert(script_index_view(script_index@) =~= spec_script_index(txs.take(0), ids));
        assert(spend_index_view(spend_index@) =~= spec_spend_index(txs.take(0), ids));
    }
    while i < parsed.len()
        invariant
            txs == tx_models(parsed@),
            ids == strings_view(txids@),
            parsed@.len() == txids@.len(),
            i <= parsed@.len(),
            script_index_view(script_index@) == spec_script_index(txs.take(i as int), ids),
            spend_index_view(spend_index@) == spec_spend_index(txs.take(i as int), ids),
        decreases parsed@.len() - i,
    {
        let tx = &parsed[i];
        let txid = &txids[i];
        let ghost outs = tx@.outputs;
        let ghost base = script_index_view(script_index@);
        proof {
            assert(txs.take(i + 1).drop_last() =~= txs.take(i as int));
            assert(txs.take(i + 1).last() == tx@);
            assert(ids[i as int] == txid@);
        }
        let mut k: usize = 0;
        while k < tx.outputs.len()
            invariant
                outs == tx@.outputs,
                k <= outs.len(),
                script_index_view(script_index@) == index_outputs(base, outs.take(k as int), txid@),
            decreases outs.len() - k,
        {
            let script = tx.outputs[k].script_pubkey;
            proof {
                assert(outs.take(k + 1).drop_last() =~= outs.take(k as int));
                assert(outs.take(k + 1).last() == outs[k as int]);
                assert(outs[k as int] == tx.outputs@[k as int]@);
            }
            if classify_output(script) != OutputScriptType::OpReturn && script.len() > 0 {
                index_add_exec(&mut script_index, script, txid);
            }
            k = k + 1;
        }
        proof {
            assert(outs.take(k as int) =~= outs);
        }
        if i > 0 {
            let ghost ins = tx@.inputs;
            let ghost sbase = spend_index_view(spend_index@);
            let mut j: usize = 0;
            while j < tx.inputs.len()
                invariant
                    ins == tx@.inputs,
                    j <= ins.len(),
                    spend_index_view(spend_index@) == spend_inputs(sbase, ins.take(j as int), txid@),
                decreases ins.len() - j,
            {
                let inp = &tx.inputs[j];
                proof {
                    assert(ins.take(j + 1).drop_last() =~= ins.take(j as int));
                    assert(ins.take(j + 1).last() == ins[j as int]);
                    assert(ins[j as int] == inp@);
                }
                let prev_txid_hex = hash_display(&inp.txid);
                spend_set_exec(&mut spend_index, prev_txid_hex, inp.vout, txid);
                j = j + 1;
            }
            proof {
                assert(ins.take(j as int) =~= ins);
            }
        }
        i = i + 1;
    }
    proof {
        assert(txs.take(i as int) =~= txs);
    }
    let mut block_txids: Vec<String> = Vec::new();
    let mut k: usize = 1;
    while k < txids.len()
        invariant
            ids == strings_view(txids@),
            1 <= k <= txids@.len(),
            strings_view(block_txids@) == ids.subrange(1, k as int),
        decreases txids@.len() - k,
    {
        let ghost prev = block_txids@;
        block_txids.push(txids[k].clone());
        proof {
            assert(strings_view(block_txids@) =~= strings_view(prev).push(txids@[k as int]@));
            assert(ids.subrange(1, k + 1) =~= ids.subrange(1, k as int).push(ids[k as int]));
        }
        k = k + 1;
    }
    proof {
        assert(ids.subrange(1, k as int) =~= ids.skip(1));
    }
    BlockContext { script_index, spend_index, block_txids }
}

// ─── Block results ───────────────────────────────────────────────────────────

/// The fee and virtual size of one non-coinbase transaction; the fee rate in
/// sat/vbyte is their quotient.
#[derive(Debug, Clone, Copy, PartialEq, Eq, Structural)]
pub struct FeeSample {
    pub fee_sats: u64,
    pub vbytes: u64,
}

/// What a notable transaction entry holds, as plain values.
pub struct NotableModel {
    pub txid: Seq<char>,
    pub classification: TxClassification,
    pub detected_heuristics: Seq<Seq<char>>,
}

/// A transaction listed among a block's notable transactions.
pub struct NotableTransaction {
    pub txid: String,
    pub classification: TxClassification,
    pub detected_heuristics: Vec<String>,
}

impl View for NotableTransaction {
    type V = NotableModel;

    open spec fn view(&self) -> NotableModel {
        NotableModel {
            txid: self.txid@,
            classification: self.classification,
            detected_heuristics: texts_view(self.detected_heuristics@),
        }
    }
}

/// What the analysis of one block holds, as plain values.
pub struct BlockResultModel {
    pub block_hash: Seq<char>,
    pub block_height: u64,
    pub timestamp: u32,
    pub tx_count: nat,
    pub flagged_real: u64,
    pub heuristic_counts: Seq<u64>,
    pub classification_counts: Seq<u64>,
    pub notable_transactions: Seq<NotableModel>,
    pub script_dist: ScriptTypeDistribution,
    pub fee_samples: Seq<FeeSample>,
    pub transactions: Seq<TxAnalysisModel>,
}

/// The analysis of one block.
pub struct BlockResult {
    pub block_hash: String,
    pub block_height: u64,
    pub timestamp: u32,
    pub tx_count: usize,
    /// How many non-coinbase transactions had at least one heuristic fire.
    pub flagged_real: u64,
    /// Per heuristic, in the order of `spec_heuristic_ids`: how many
    /// transactions it fired for.
    pub heuristic_counts: Vec<u64>,
    /// Per classification, in the order of `spec_classification_ids`: how
    /// many transactions received it.
    pub classification_counts: Vec<u64>,
    /// The first ten notable transactions.
    pub notable_transactions: Vec<NotableTransaction>,
    pub script_dist: ScriptTypeDistribution,
    /// Fee and size of every non-coinbase transaction, in block order.
    pub fee_samples: Vec<FeeSample>,
    /// Every transaction's analysis when requested (the first block of a
    /// file), else empty.
    pub transactions: Vec<TxAnalysis>,
}

/// The views of a list of notable transactions.
pub open spec fn notables_view(v: Seq<NotableTransaction>) -> Seq<NotableModel> {
    v.map_values(|n: NotableTransaction| n@)
}

/// The views of a list of analyses.
pub open spec fn analyses_view(v: Seq<TxAnalysis>) -> Seq<TxAnalysisModel> {
    v.map_values(|a: TxAnalysis| a@)
}

impl View for BlockResult {
    type V = BlockResultModel;

    open spec fn view(&self) -> BlockResultModel {
        BlockResultModel {
            block_hash: self.block_hash@,
            block_height: self.block_height,
            timestamp: self.timestamp,
            tx_count: self.tx_count as nat,
            flagged_real: self.flagged_real,
            heuristic_counts: self.heuristic_counts@,
            classification_counts: self.classification_counts@,
            notable_transactions: notables_view(self.notable_transactions@),
            script_dist: self.script_dist,
            fee_samples: self.fee_samples@,
            transactions: analyses_view(self.transactions@),
        }
    }
}

/// The spent outputs of a transaction: the undo record's coins with the
/// outpoints of the inputs that spend them.
pub open spec fn spec_tx_prevouts(tx: TxModel, coins: Seq<PrevoutModel>) -> Seq<PrevoutModel> {
    Seq::new(
        tx.inputs.len(),
        |j: int| PrevoutModel { txid: tx.inputs[j].txid, vout: tx.inputs[j].vout, ..coins[j] },
    )
}

/// The spent outputs of the non-coinbase transaction at position `i`:
/// none without undo data; an undo record with another number of coins than
/// inputs is invalid undo data; an outpoint spent twice is an invalid field.
pub open spec fn spec_prevouts_for(tx: TxModel, undo: Option<BlockUndoModel>, i: int) -> Result<Seq<PrevoutModel>, ErrorKind> {
    match undo {
        None => Ok(seq![]),
        Some(u) => {
            let coins = u.prevouts[i - 1];
            if coins.len() != tx.inputs.len() {
                Err(
                    ErrorKind::InvalidUndoData(
                        "tx "@ + spec_decimal(i as nat) + " has "@ + spec_decimal(tx.inputs.len())
                            + " inputs but undo has "@ + spec_decimal(coins.len()) + " records"@,
                    ),
                )
            } else if keys_distinct(spec_tx_prevouts(tx, coins)) {
                Ok(spec_tx_prevouts(tx, coins))
            } else {
                Err(ErrorKind::InvalidField("prevouts"@, duplicate_detail(spec_tx_prevouts(tx, coins))))
            }
        },
    }
}

/// The spent outputs of the first `k` transactions of a block (none for the
/// coinbase), or the first error.
pub open spec fn spec_block_prevouts(txs: Seq<TxModel>, undo: Option<BlockUndoModel>, k: nat) -> Result<Seq<Seq<PrevoutModel>>, ErrorKind>
    decreases k,
{
    if k == 0 {
        Ok(seq![])
    } else {
        match spec_block_prevouts(txs, undo, (k - 1) as nat) {
            Err(e) => Err(e),
            Ok(pvs) => if k == 1 {
                Ok(pvs.push(seq![]))
            } else {
                match spec_prevouts_for(txs[k - 1], undo, k - 1) {
                    Err(e) => Err(e),
                    Ok(pv) => Ok(pvs.push(pv)),
                }
            },
        }
    }
}

/// The analysis of a non-coinbase transaction: its heuristics where the
/// block has undo data; skipped, with nothing detected, where it has none.
pub open spec fn spec_tx_analysis(
    txid: Seq<char>,
    tx: TxModel,
    prevouts: Seq<PrevoutModel>,
    ctx: BlockContextModel,
    has_undo: bool,
) -> TxAnalysisModel {
    if has_undo {
        spec_apply_heuristics(txid, tx, prevouts, ctx)
    } else {
        spec_quiet_analysis(txid)
    }
}

/// The analyses of the transactions of a block: the coinbase's, then each
/// other transaction's.
pub open spec fn spec_analyses(
    txs: Seq<TxModel>,
    txids: Seq<Seq<char>>,
    pvs: Seq<Seq<PrevoutModel>>,
    ctx: BlockContextModel,
    has_undo: bool,
) -> Seq<TxAnalysisModel> {
    Seq::new(
        txs.len(),
        |i: int|
            if i == 0 {
                spec_quiet_analysis(txids[0])
            } else {
                spec_tx_analysis(txids[i], txs[i], pvs[i], ctx, has_undo)
            },
    )
}

/// How many analyses record heuristic `id` as detected.
pub open spec fn count_fired(an: Seq<TxAnalysisModel>, id: Seq<char>) -> nat
    decreases an.len(),
{
    if an.len() == 0 {
        0
    } else {
        count_fired(an.drop_last(), id) + if spec_fired(an.last().heuristics, id) {
            1nat
        } else {
            0nat
        }
    }
}

/// How many analyses carry classification `c`.
pub open spec fn count_class(an: Seq<TxAnalysisModel>, c: TxClassification) -> nat
    decreases an.len(),
{
    if an.len() == 0 {
        0
    } else {
        count_class(an.drop_last(), c) + if an.last().classification == c {
            1nat
        } else {
            0nat
        }
    }
}

/// How many analyses have some heuristic detected.
pub open spec fn count_flagged(an: Seq<TxAnalysisModel>) -> nat
    decreases an.len(),
{
    if an.len() == 0 {
        0
    } else {
        count_flagged(an.drop_last()) + if spec_any_detected(an.last().heuristics) {
            1nat
        } else {
            0nat
        }
    }
}

/// The classification at position `c` of the report order.
pub open spec fn class_at(c: int) -> TxClassification {
    if c == 0 {
        TxClassification::SimplePayment
    } else if c == 1 {
        TxClassification::Consolidation
    } else if c == 2 {
        TxClassification::Coinjoin
    } else if c == 3 {
        TxClassification::SelfTransfer
    } else if c == 4 {
        TxClassification::BatchPayment
    } else {
        TxClassification::Unknown
    }
}

/// The notable entry of an analysis.
pub open spec fn notable_of(a: TxAnalysisModel) -> NotableModel {
    NotableModel {
        txid: a.txid,
        classification: a.classification,
        detected_heuristics: detected_ids(a.heuristics, HEURISTIC_COUNT as nat),
    }
}

/// The notable transactions among the analyses: those with a notable
/// classification, in order, at most ten.
pub open spec fn spec_notables(an: Seq<TxAnalysisModel>) -> Seq<NotableModel>
    decreases an.len(),
{
    if an.len() == 0 {
        seq![]
    } else {
        let before = spec_notables(an.drop_last());
        if before.len() < 10 && spec_is_notable(an.last().classification) {
            before.push(notable_of(an.last()))
        } else {
            before
        }
    }
}

/// The distribution after counting each output of `outs` by type.
pub open spec fn dist_outputs(d: ScriptTypeDistribution, outs: Seq<OutputModel>) -> ScriptTypeDistribution
    decreases outs.len(),
{
    if outs.len() == 0 {
        d
    } else {
        spec_dist_add(dist_outputs(d, outs.drop_last()), script_type_name(outs.last().script_pubkey))
    }
}

/// The script type distribution of every output of every transaction.
pub open spec fn spec_block_dist(txs: Seq<TxModel>) -> ScriptTypeDistribution
    decreases txs.len(),
{
    if txs.len() == 0 {
        dist_zero()
    } else {
        dist_outputs(spec_block_dist(txs.drop_last()), txs.last().outputs)
    }
}

/// The total value of the spent outputs that `prevouts` resolves.
pub open spec fn input_total(ins: Seq<InputModel>, prevouts: Seq<PrevoutModel>) -> nat
    decreases ins.len(),
{
    if ins.len() == 0 {
        0
    } else {
        input_total(ins.drop_last(), prevouts) + match spec_lookup(
            prevouts,
            ins.last().txid,
            ins.last().vout,
        ) {
            Some(p) => p.value_sats as nat,
            None => 0nat,
        }
    }
}

/// The total value of the outputs.
pub open spec fn output_total(outs: Seq<OutputModel>) -> nat
    decreases outs.len(),
{
    if outs.len() == 0 {
        0
    } else {
        output_total(outs.drop_last()) + outs.last().value as nat
    }
}

/// The fee of a transaction: resolved inputs minus outputs, zero when the
/// outputs exceed what was resolved, at most `u64::MAX`.
pub open spec fn spec_fee(tx: TxModel, prevouts: Seq<PrevoutModel>) -> u64 {
    let i = input_total(tx.inputs, prevouts);
    let o = output_total(tx.outputs);
    if i <= o {
        0
    } else if i - o > u64::MAX {
        u64::MAX
    } else {
        (i - o) as u64
    }
}

/// The fee sample of the non-coinbase transaction `t` of `n` bytes.
pub open spec fn spec_fee_sample(t: (TxModel, nat), prevouts: Seq<PrevoutModel>) -> FeeSample {
    FeeSample {
        fee_sats: spec_fee(t.0, prevouts),
        vbytes: spec_vbytes(spec_weight(t.0.is_segwit, spec_legacy_bytes(t.0).len(), t.1)) as u64,
    }
}

/// The analysis of one block. Errors, in the order they are checked: no
/// transactions, an undo record for another number of transactions, a
/// transaction that does not parse, a coinbase without a BIP34 height, and
/// the spent outputs of a transaction (see `spec_prevouts_for`).
pub open spec fn spec_analyze_block(
    block: ParsedBlockModel,
    undo: Option<BlockUndoModel>,
    include_transactions: bool,
) -> Result<BlockResultModel, ErrorKind> {
    let n = block.transactions.len();
    if n == 0 {
        Err(ErrorKind::InvalidField("tx_count"@, "block has no transactions"@))
    } else if undo matches Some(u) && u.prevouts.len() != n - 1 {
        Err(
            ErrorKind::InvalidUndoData(
                "undo has "@ + spec_decimal(undo->Some_0.prevouts.len()) + " records but block has "@
                    + spec_decimal((n - 1) as nat) + " non-coinbase txs"@,
            ),
        )
    } else {
        match spec_parse_all(block.transactions) {
            Err(e) => Err(e),
            Ok(ptxs) => {
                let txs = ptxs.map_values(|p: (TxModel, nat)| p.0);
                match spec_bip34_height(txs[0].inputs[0].script_sig) {
                    Err(e) => Err(e),
                    Ok(height) => {
                        let txids = Seq::new(n, |i: int| spec_display_txid(txs[i]));
                        let ctx = spec_block_context(txs, txids);
                        match spec_block_prevouts(txs, undo, n) {
                            Err(e) => Err(e),
                            Ok(pvs) => {
                                let an = spec_analyses(txs, txids, pvs, ctx, undo is Some);
                                Ok(
                                    BlockResultModel {
                                        block_hash: spec_hash_display(block.block_hash),
                                        block_height: height,
                                        timestamp: block.header.timestamp,
                                        tx_count: n,
                                        flagged_real: count_flagged(an) as u64,
                                        heuristic_counts: Seq::new(
                                            HEURISTIC_COUNT as nat,
                                            |k: int| count_fired(an, spec_heuristic_ids()[k]) as u64,
                                        ),
                                        classification_counts: Seq::new(
                                            CLASSIFICATION_COUNT as nat,
                                            |c: int| count_class(an, class_at(c)) as u64,
                                        ),
                                        notable_transactions: spec_notables(an),
                                        script_dist: spec_block_dist(txs),
                                        fee_samples: Seq::new(
                                            (n - 1) as nat,
                                            |i: int| spec_fee_sample(ptxs[i + 1], pvs[i + 1]),
                                        ),
                                        transactions: if include_transactions {
                                            an
                                        } else {
                                            seq![]
                                        },
                                    },
                                )
                            },
                        }
                    },
                }
            },
        }
    }
}

// ─── Steps of the block analysis ─────────────────────────────────────────────

/// The model of an optional undo record.
pub open spec fn undo_model(u: Option<&BlockUndo>) -> Option<BlockUndoModel> {
    match u {
        Some(b) => Some(b@),
        None => None,
    }
}

/// The spent outputs of the non-coinbase transaction at position `i`.
fn tx_prevout_map(tx: &RawTransaction<'_>, maybe_undo: Option<&BlockUndo>, i: usize) -> (res: Result<PrevoutMap, ChainError>)
    requires
        i >= 1,
        maybe_undo matches Some(u) ==> i - 1 < u.prevouts@.len(),
    ensures
        match res {
            Ok(m) => spec_prevouts_for(tx@, undo_model(maybe_undo), i as int) == Ok::<
                Seq<PrevoutModel>,
                ErrorKind,
            >(m@),
            Err(e) => spec_prevouts_for(tx@, undo_model(maybe_undo), i as int) == Err::<
                Seq<PrevoutModel>,
                ErrorKind,
            >(e.kind()),
        },
{
    match maybe_undo {
        None => Ok(PrevoutMap::empty()),
        Some(undo) => {
            let coins = &undo.prevouts[i - 1];
            proof {
                assert(undo@.prevouts[i - 1] == prevouts_view(coins@));
            }
            if coins.len() != tx.inputs.len() {
                let mut detail = "tx ".to_owned();
                crate::text::push_decimal(&mut detail, i as u64);
                detail.append(" has ");
                crate::text::push_decimal(&mut detail, tx.inputs.len() as u64);
                detail.append(" inputs but undo has ");
                crate::text::push_decimal(&mut detail, coins.len() as u64);
                detail.append(" records");
                return Err(ChainError::InvalidUndoData { detail });
            }
            let ghost target = spec_tx_prevouts(tx@, prevouts_view(coins@));
            let mut prevout_vec: Vec<Prevout> = Vec::new();
            let mut j: usize = 0;
            while j < tx.inputs.len()
                invariant
                    coins@.len() == tx.inputs@.len(),
                    target == spec_tx_prevouts(tx@, prevouts_view(coins@)),
                    j <= tx.inputs@.len(),
                    prevouts_view(prevout_vec@) == target.take(j as int),
                decreases tx.inputs@.len() - j,
            {
                let inp = &tx.inputs[j];
                let mut pv = coins[j].copy();
                pv.txid = inp.txid;
                pv.vout = inp.vout;
                let ghost prev = prevout_vec@;
                prevout_vec.push(pv);
                proof {
                    assert(tx@.inputs[j as int] == inp@);
                    assert(prevouts_view(coins@)[j as int] == coins@[j as int]@);
                    assert(pv@ == target[j as int]);
                    assert(prevouts_view(prevout_vec@) =~= prevouts_view(prev).push(pv@));
                    assert(target.take(j + 1) =~= target.take(j as int).push(target[j as int]));
                }
                j = j + 1;
            }
            proof {
                assert(target.take(j as int) =~= target);
            }
            PrevoutMap::from_vec(prevout_vec)
        },
    }
}

/// The fee of a transaction given its resolved spent outputs.
fn tx_fee(tx: &RawTransaction<'_>, prevout_map: &PrevoutMap) -> (fee: u64)
    ensures
        fee == spec_fee(tx@, prevout_map@),
{
    let ghost ins = tx@.inputs;
    let ghost outs = tx@.outputs;
    let mut total_in: u128 = 0;
    let mut i: usize = 0;
    while i < tx.inputs.len()
        invariant
            ins == tx@.inputs,
            i <= ins.len(),
            total_in == input_total(ins.take(i as int), prevout_map@),
            total_in <= i * 0xFFFF_FFFF_FFFF_FFFFnat,
        decreases ins.len() - i,
    {
        let inp = &tx.inputs[i];
        proof {
            assert(ins.take(i + 1).drop_last() =~= ins.take(i as int));
            assert(ins.take(i + 1).last() == ins[i as int]);
            assert(ins[i as int] == inp@);
        }
        match prevout_map.get(&inp.txid, inp.vout) {
            Some(p) => {
                total_in = total_in + p.value_sats as u128;
            },
            None => {},
        }
        proof {
            assert(total_in <= (i + 1) * 0xFFFF_FFFF_FFFF_FFFFnat) by (nonlinear_arith)
                requires
                    total_in <= i * 0xFFFF_FFFF_FFFF_FFFFnat + 0xFFFF_FFFF_FFFF_FFFFnat,
            ;
        }
        i = i + 1;
    }
    let mut total_out: u128 = 0;
    let mut k: usize = 0;
    while k < tx.outputs.len()
        invariant
            outs == tx@.outputs,
            k <= outs.len(),
            total_out == output_total(outs.take(k as int)),
            total_out <= k * 0xFFFF_FFFF_FFFF_FFFFnat,
        decreases outs.len() - k,
    {
        proof {
            assert(outs.take(k + 1).drop_last() =~= outs.take(k as int));
            assert(outs.take(k + 1).last() == outs[k as int]);
            assert(outs[k as int] == tx.outputs@[k as int]@);
        }
        total_out = total_out + tx.outputs[k].value as u128;
        proof {
            assert(total_out <= (k + 1) * 0xFFFF_FFFF_FFFF_FFFFnat) by (nonlinear_arith)
                requires
                    total_out <= k * 0xFFFF_FFFF_FFFF_FFFFnat + 0xFFFF_FFFF_FFFF_FFFFnat,
            ;
        }
        k = k + 1;
    }
    proof {
        assert(ins.take(i as int) =~= ins);
        assert(outs.take(k as int) =~= outs);
    }
    if total_in <= total_out {
        0
    } else if total_in - total_out > 0xFFFF_FFFF_FFFF_FFFF {
        u64::MAX
    } else {
        (total_in - total_out) as u64
    }
}

/// Each counter is at most the total, and counting one more output adds one
/// to the total.
proof fn lemma_dist_add(d: ScriptTypeDistribution, t: Seq<char>)
    ensures
        spec_counter(d, t) <= spec_dist_total(d),
        spec_counter(d, t) < u64::MAX ==> spec_dist_total(spec_dist_add(d, t)) == spec_dist_total(d) + 1,
{
}

/// Count the outputs of `tx` by script type.
fn add_outputs(dist: &mut ScriptTypeDistribution, tx: &RawTransaction<'_>)
    requires
        spec_dist_total(*old(dist)) + tx@.outputs.len() < u64::MAX,
    ensures
        *final(dist) == dist_outputs(*old(dist), tx@.outputs),
        spec_dist_total(*final(dist)) == spec_dist_total(*old(dist)) + tx@.outputs.len(),
{
    let ghost outs = tx@.outputs;
    let ghost d0 = *dist;
    let mut k: usize = 0;
    while k < tx.outputs.len()
        invariant
            outs == tx@.outputs,
            k <= outs.len(),
            spec_dist_total(d0) + outs.len() < u64::MAX,
            *dist == dist_outputs(d0, outs.take(k as int)),
            spec_dist_total(*dist) == spec_dist_total(d0) + k,
        decreases outs.len() - k,
    {
        proof {
            assert(outs.take(k + 1).drop_last() =~= outs.take(k as int));
            assert(outs.take(k + 1).last() == outs[k as int]);
            assert(outs[k as int] == tx.outputs@[k as int]@);
        }
        let name = classify_output(tx.outputs[k].script_pubkey).as_str();
        proof {
            lemma_dist_add(*dist, name@);
        }
        dist.add(name);
        k = k + 1;
    }
    proof {
        assert(outs.take(k as int) =~= outs);
    }
}

/// Add one analysis to the per-heuristic and per-classification counts.
fn record_analysis(
    analysis: &TxAnalysis,
    heuristic_counts: &mut Vec<u64>,
    classification_counts: &mut Vec<u64>,
)
    requires
        old(heuristic_counts)@.len() == HEURISTIC_COUNT,
        old(classification_counts)@.len() == CLASSIFICATION_COUNT,
        forall|k: int| 0 <= k < HEURISTIC_COUNT ==> #[trigger] old(heuristic_counts)@[k] < u64::MAX,
        forall|c: int|
            0 <= c < CLASSIFICATION_COUNT ==> #[trigger] old(classification_counts)@[c] < u64::MAX,
    ensures
        final(heuristic_counts)@.len() == HEURISTIC_COUNT,
        final(classification_counts)@.len() == CLASSIFICATION_COUNT,
        forall|k: int|
            0 <= k < HEURISTIC_COUNT ==> #[trigger] final(heuristic_counts)@[k] == old(
                heuristic_counts,
            )@[k] + if spec_fired(analysis@.heuristics, spec_heuristic_ids()[k]) {
                1int
            } else {
                0int
            },
        forall|c: int|
            0 <= c < CLASSIFICATION_COUNT ==> #[trigger] final(classification_counts)@[c] == old(
                classification_counts,
            )@[c] + if analysis@.classification == class_at(c) {
                1int
            } else {
                0int
            },
{
    let mut k: usize = 0;
    while k < HEURISTIC_COUNT
        invariant
            k <= HEURISTIC_COUNT,
            heuristic_counts@.len() == HEURISTIC_COUNT,
            forall|j: int|
                k <= j < HEURISTIC_COUNT ==> #[trigger] heuristic_counts@[j] == old(
                    heuristic_counts,
                )@[j],
            forall|j: int| 0 <= j < HEURISTIC_COUNT ==> #[trigger] old(heuristic_counts)@[j] < u64::MAX,
            forall|j: int|
                0 <= j < k ==> #[trigger] heuristic_counts@[j] == old(heuristic_counts)@[j] + if spec_fired(
                    analysis@.heuristics,
                    spec_heuristic_ids()[j],
                ) {
                    1int
                } else {
                    0int
                },
        decreases HEURISTIC_COUNT - k,
    {
        if fired(analysis, heuristic_id(k)) {
            let v = heuristic_counts[k];
            heuristic_counts.set(k, v + 1);
        }
        k = k + 1;
    }
    let c = class_index(&analysis.classification);
    let v = classification_counts[c];
    classification_counts.set(c, v + 1);
    proof {
        assert forall|j: int| 0 <= j < CLASSIFICATION_COUNT implies #[trigger] classification_counts@[j]
            == old(classification_counts)@[j] + if analysis@.classification == class_at(j) {
            1int
        } else {
            0int
        } by {
            if j == c {
                assert(class_at(j) == analysis@.classification);
            } else {
                assert(class_at(j) != analysis@.classification);
            }
        }
    }
}

/// A list of `n` zero counters.
fn zero_counts(n: usize) -> (v: Vec<u64>)
    ensures
        v@.len() == n,
        forall|k: int| 0 <= k < n ==> #[trigger] v@[k] == 0,
{
    let mut v: Vec<u64> = Vec::new();
    let mut k: usize = 0;
    while k < n
        invariant
            k <= n,
            v@.len() == k,
            forall|j: int| 0 <= j < k ==> #[trigger] v@[j] == 0,
        decreases n - k,
    {
        v.push(0);
        k = k + 1;
    }
    v
}

/// Zero counts for every heuristic applied.
fn empty_heuristic_counts() -> (v: Vec<u64>)
    ensures
        v@.len() == HEURISTIC_COUNT,
        forall|k: int| 0 <= k < HEURISTIC_COUNT ==> #[trigger] v@[k] == 0,
{
    zero_counts(HEURISTIC_COUNT)
}

/// Zero counts for every classification.
fn empty_classification_counts() -> (v: Vec<u64>)
    ensures
        v@.len() == CLASSIFICATION_COUNT,
        forall|c: int| 0 <= c < CLASSIFICATION_COUNT ==> #[trigger] v@[c] == 0,
{
    zero_counts(CLASSIFICATION_COUNT)
}

// ─── Single-block analysis ───────────────────────────────────────────────────

/// The total size of a list of raw transactions.
pub open spec fn tx_bytes_total(raws: Seq<Seq<u8>>) -> nat
    decreases raws.len(),
{
    if raws.len() == 0 {
        0
    } else {
        tx_bytes_total(raws.drop_last()) + raws.last().len()
    }
}

/// The most transaction bytes the analysis takes in one call, far beyond any
/// real block file: it keeps every counter and weight within 64 bits.
pub const MAX_TX_BYTES: u64 = 0x0FFF_FFFF_FFFF_FFFF;

/// A prefix of the transactions is no larger than the whole.
proof fn lemma_tx_bytes_prefix(raws: Seq<Seq<u8>>, i: int)
    requires
        0 <= i < raws.len(),
    ensures
        tx_bytes_total(raws.take(i + 1)) == tx_bytes_total(raws.take(i)) + raws[i].len(),
        tx_bytes_total(raws.take(i + 1)) <= tx_bytes_total(raws),
    decreases raws.len() - i,
{
    assert(raws.take(i + 1).drop_last() =~= raws.take(i));
    if i + 1 < raws.len() {
        lemma_tx_bytes_prefix(raws, i + 1);
    } else {
        assert(raws.take(i + 1) =~= raws);
    }
}

/// Every entry that `entry_set` leaves is an old entry or the new one.
proof fn lemma_entry_set_entries<K, V>(s: Seq<(K, V)>, k: K, v: V)
    ensures
        forall|j: int|
            0 <= j < entry_set(s, k, v).len() ==> #[trigger] entry_set(s, k, v)[j] == (k, v) || exists|
                m: int,
            |
                0 <= m < s.len() && entry_set(s, k, v)[j] == s[m],
{
    crate::types::lemma_entry_index(s, k);
    assert forall|j: int| 0 <= j < entry_set(s, k, v).len() implies #[trigger] entry_set(s, k, v)[j]
        == (k, v) || exists|m: int| 0 <= m < s.len() && entry_set(s, k, v)[j] == s[m] by {
        if entry_set(s, k, v)[j] != (k, v) {
            assert(entry_set(s, k, v)[j] == s[j]);
        }
    }
}

/// No heuristic is detected in a coinbase analysis.
proof fn lemma_coinbase_quiet(k: nat)
    ensures
        forall|j: int|
            0 <= j < coinbase_heuristics(k).len() ==> !(#[trigger] coinbase_heuristics(k)[j]).1.detected,
    decreases k,
{
    if k > 0 {
        lemma_coinbase_quiet((k - 1) as nat);
        let s = coinbase_heuristics((k - 1) as nat);
        lemma_entry_set_entries(s, spec_heuristic_ids()[k - 1], plain_result(false));
        assert forall|j: int| 0 <= j < coinbase_heuristics(k).len() implies !(
        #[trigger] coinbase_heuristics(k)[j]).1.detected by {
            if coinbase_heuristics(k)[j] != (spec_heuristic_ids()[k - 1], plain_result(false)) {
                let m = choose|m: int| 0 <= m < s.len() && coinbase_heuristics(k)[j] == s[m];
                assert(!s[m].1.detected);
            }
        }
    }
}

/// The analysis in which no heuristic ran is classified `Unknown`, fires no
/// heuristic and is not flagged.
pub proof fn lemma_quiet_analysis(txid: Seq<char>)
    ensures
        forall|id: Seq<char>| !spec_fired(#[trigger] spec_quiet_analysis(txid).heuristics, id),
        !spec_any_detected(spec_quiet_analysis(txid).heuristics),
        spec_quiet_analysis(txid).classification == TxClassification::Unknown,
{
    let hs = coinbase_heuristics(HEURISTIC_COUNT as nat);
    lemma_coinbase_quiet(HEURISTIC_COUNT as nat);
    assert forall|id: Seq<char>| !spec_fired(#[trigger] spec_quiet_analysis(txid).heuristics, id) by {
        crate::types::lemma_entry_index(hs, id);
    }
}

/// Once the spent outputs of transaction `i` fail, those of the block fail
/// with the same error.
proof fn lemma_block_prevouts_err(txs: Seq<TxModel>, undo: Option<BlockUndoModel>, i: nat, n: nat)
    requires
        1 <= i < n,
        spec_block_prevouts(txs, undo, i) is Ok,
        spec_prevouts_for(txs[i as int], undo, i as int) is Err,
    ensures
        spec_block_prevouts(txs, undo, n) == Err::<Seq<Seq<PrevoutModel>>, ErrorKind>(
            spec_prevouts_for(txs[i as int], undo, i as int)->Err_0,
        ),
    decreases n,
{
    if n > i + 1 {
        lemma_block_prevouts_err(txs, undo, i, (n - 1) as nat);
    }
}

/// The accumulated results after the first `i` transactions of a block.
pub open spec fn block_acc(
    an: Seq<TxAnalysisModel>,
    heuristic_counts: Seq<u64>,
    classification_counts: Seq<u64>,
    flagged: u64,
    notables: Seq<NotableModel>,
    transactions: Seq<TxAnalysisModel>,
    include_transactions: bool,
) -> bool {
    &&& heuristic_counts.len() == HEURISTIC_COUNT
    &&& classification_counts.len() == CLASSIFICATION_COUNT
    &&& forall|k: int|
        0 <= k < HEURISTIC_COUNT ==> #[trigger] heuristic_counts[k] == count_fired(
            an,
            spec_heuristic_ids()[k],
        )
    &&& forall|c: int|
        0 <= c < CLASSIFICATION_COUNT ==> #[trigger] classification_counts[c] == count_class(
            an,
            class_at(c),
        )
    &&& flagged == count_flagged(an)
    &&& notables == spec_notables(an)
    &&& transactions == if include_transactions {
        an
    } else {
        seq![]
    }
}

/// Counts never exceed the number of analyses.
proof fn lemma_counts_bounded(an: Seq<TxAnalysisModel>, id: Seq<char>, c: TxClassification)
    ensures
        count_fired(an, id) <= an.len(),
        count_class(an, c) <= an.len(),
        count_flagged(an) <= an.len(),
    decreases an.len(),
{
    if an.len() > 0 {
        lemma_counts_bounded(an.drop_last(), id, c);
    }
}

/// Appending one analysis to the accumulated results.
proof fn lemma_block_acc_push(
    an: Seq<TxAnalysisModel>,
    a: TxAnalysisModel,
    hc: Seq<u64>,
    hc2: Seq<u64>,
    cc: Seq<u64>,
    cc2: Seq<u64>,
    flagged: u64,
    flagged2: u64,
    notables: Seq<NotableModel>,
    notables2: Seq<NotableModel>,
    transactions: Seq<TxAnalysisModel>,
    transactions2: Seq<TxAnalysisModel>,
    include_transactions: bool,
)
    requires
        block_acc(an, hc, cc, flagged, notables, transactions, include_transactions),
        hc2.len() == HEURISTIC_COUNT,
        cc2.len() == CLASSIFICATION_COUNT,
        forall|k: int|
            0 <= k < HEURISTIC_COUNT ==> #[trigger] hc2[k] == hc[k] + if spec_fired(
                a.heuristics,
                spec_heuristic_ids()[k],
            ) {
                1int
            } else {
                0int
            },
        forall|c: int|
            0 <= c < CLASSIFICATION_COUNT ==> #[trigger] cc2[c] == cc[c] + if a.classification
                == class_at(c) {
                1int
            } else {
                0int
            },
        flagged2 == flagged + if spec_any_detected(a.heuristics) {
            1int
        } else {
            0int
        },
        notables2 == if notables.len() < 10 && spec_is_notable(a.classification) {
            notables.push(notable_of(a))
        } else {
            notables
        },
        transactions2 == if include_transactions {
            transactions.push(a)
        } else {
            transactions
        },
    ensures
        block_acc(an.push(a), hc2, cc2, flagged2, notables2, transactions2, include_transactions),
{
    let an2 = an.push(a);
    assert(an2.drop_last() =~= an);
    assert(an2.last() == a);
    assert forall|k: int| 0 <= k < HEURISTIC_COUNT implies #[trigger] hc2[k] == count_fired(
        an2,
        spec_heuristic_ids()[k],
    ) by {
        assert(hc[k] == count_fired(an, spec_heuristic_ids()[k]));
    }
    assert forall|c: int| 0 <= c < CLASSIFICATION_COUNT implies #[trigger] cc2[c] == count_class(
        an2,
        class_at(c),
    ) by {
        assert(cc[c] == count_class(an, class_at(c)));
    }
}

/// The analyses of the first `i` transactions, given the spent outputs of
/// each.
pub open spec fn analyses_prefix(
    txs: Seq<TxModel>,
    txids: Seq<Seq<char>>,
    pvs: Seq<Seq<PrevoutModel>>,
    ctx: BlockContextModel,
    has_undo: bool,
    i: nat,
) -> Seq<TxAnalysisModel> {
    spec_analyses(txs.take(i as int), txids, pvs, ctx, has_undo)
}

/// The results gathered while walking the transactions of a block.
struct BlockAcc {
    script_dist: ScriptTypeDistribution,
    fee_samples: Vec<FeeSample>,
    heuristic_counts: Vec<u64>,
    classification_counts: Vec<u64>,
    notable_transactions: Vec<NotableTransaction>,
    transactions: Vec<TxAnalysis>,
    flagged_real: u64,
}

/// `acc` holds the results of the analyses `an`, the distribution of the
/// outputs of `dist_txs`, and the fee samples `fees`.
spec fn acc_holds(
    acc: BlockAcc,
    an: Seq<TxAnalysisModel>,
    dist_txs: Seq<TxModel>,
    fees: Seq<FeeSample>,
    include_transactions: bool,
) -> bool {
    &&& block_acc(
        an,
        acc.heuristic_counts@,
        acc.classification_counts@,
        acc.flagged_real,
        notables_view(acc.notable_transactions@),
        analyses_view(acc.transactions@),
        include_transactions,
    )
    &&& acc.script_dist == spec_block_dist(dist_txs)
    &&& acc.fee_samples@ == fees
}

/// The counters of `acc` can take one more transaction.
proof fn lemma_acc_room(acc: BlockAcc, an: Seq<TxAnalysisModel>, dist_txs: Seq<TxModel>, fees: Seq<FeeSample>, include_transactions: bool)
    requires
        acc_holds(acc, an, dist_txs, fees, include_transactions),
        an.len() < u64::MAX,
    ensures
        forall|k: int| 0 <= k < HEURISTIC_COUNT ==> #[trigger] acc.heuristic_counts@[k] < u64::MAX,
        forall|c: int| 0 <= c < CLASSIFICATION_COUNT ==> #[trigger] acc.classification_counts@[c] < u64::MAX,
        acc.flagged_real < u64::MAX,
{
    lemma_counts_bounded(an, "cioh"@, TxClassification::Unknown);
    assert forall|k: int| 0 <= k < HEURISTIC_COUNT implies #[trigger] acc.heuristic_counts@[k]
        < u64::MAX by {
        lemma_counts_bounded(an, spec_heuristic_ids()[k], TxClassification::Unknown);
    }
    assert forall|c: int| 0 <= c < CLASSIFICATION_COUNT implies #[trigger] acc.classification_counts@[c]
        < u64::MAX by {
        lemma_counts_bounded(an, "cioh"@, class_at(c));
    }
}

/// The coinbase step: count its outputs and record its (quiet) analysis.
fn coinbase_step(acc: &mut BlockAcc, tx: &RawTransaction<'_>, txid: &str, include_transactions: bool)
    requires
        acc_holds(*old(acc), seq![], seq![], seq![], include_transactions),
        tx@.outputs.len() < u64::MAX,
    ensures
        acc_holds(
            *final(acc),
            seq![spec_quiet_analysis(txid@)],
            seq![tx@],
            seq![],
            include_transactions,
        ),
        spec_dist_total(final(acc).script_dist) == tx@.outputs.len(),
{
    proof {
        lemma_acc_room(*acc, seq![], seq![], seq![], include_transactions);
        assert(seq![tx@].drop_last() =~= Seq::<TxModel>::empty());
    }
    add_outputs(&mut acc.script_dist, tx);
    let analysis = quiet_analysis(txid);
    proof {
        lemma_quiet_analysis(txid@);
    }
    let ghost hc0 = acc.heuristic_counts@;
    let ghost cc0 = acc.classification_counts@;
    let ghost tr0 = analyses_view(acc.transactions@);
    record_analysis(&analysis, &mut acc.heuristic_counts, &mut acc.classification_counts);
    let ghost a = analysis@;
    if include_transactions {
        acc.transactions.push(analysis);
    }
    proof {
        assert(analyses_view(acc.transactions@) =~= if include_transactions {
            tr0.push(a)
        } else {
            tr0
        });
        lemma_block_acc_push(
            seq![],
            a,
            hc0,
            acc.heuristic_counts@,
            cc0,
            acc.classification_counts@,
            acc.flagged_real,
            acc.flagged_real,
            notables_view(acc.notable_transactions@),
            notables_view(acc.notable_transactions@),
            tr0,
            analyses_view(acc.transactions@),
            include_transactions,
        );
        assert(Seq::<TxAnalysisModel>::empty().push(a) =~= seq![a]);
    }
}

/// The step of the non-coinbase transaction at position `i`: count its
/// outputs, resolve its spent outputs, take its fee sample, run the
/// heuristics (where the block has undo data) and record the analysis.
fn tx_step(
    acc: &mut BlockAcc,
    tx: &RawTransaction<'_>,
    txid: &str,
    maybe_undo: Option<&BlockUndo>,
    i: usize,
    ctx: &BlockContext,
    include_transactions: bool,
    Ghost(an): Ghost<Seq<TxAnalysisModel>>,
    Ghost(dist_txs): Ghost<Seq<TxModel>>,
    Ghost(fees): Ghost<Seq<FeeSample>>,
) -> (res: Result<(), ChainError>)
    requires
        acc_holds(*old(acc), an, dist_txs, fees, include_transactions),
        an.len() < u64::MAX,
        i >= 1,
        maybe_undo matches Some(u) ==> i - 1 < u.prevouts@.len(),
        spec_dist_total(old(acc).script_dist) + tx@.outputs.len() < u64::MAX,
        weight_fits(*tx),
        tx@.outputs.len() + tx@.inputs.len() < u64::MAX,
    ensures
        match res {
            Ok(()) => spec_prevouts_for(tx@, undo_model(maybe_undo), i as int) matches Ok(pv)
                && acc_holds(
                *final(acc),
                an.push(spec_tx_analysis(txid@, tx@, pv, ctx@, maybe_undo is Some)),
                dist_txs.push(tx@),
                fees.push(
                    FeeSample {
                        fee_sats: spec_fee(tx@, pv),
                        vbytes: spec_vbytes(
                            spec_weight(tx.is_segwit, tx.legacy_bytes@.len(), tx.full_bytes@.len()),
                        ) as u64,
                    },
                ),
                include_transactions,
            ) && spec_dist_total(final(acc).script_dist) == spec_dist_total(old(acc).script_dist)
                + tx@.outputs.len(),
            Err(e) => spec_prevouts_for(tx@, undo_model(maybe_undo), i as int) == Err::<
                Seq<PrevoutModel>,
                ErrorKind,
            >(e.kind()),
        },
{
    proof {
        lemma_acc_room(*acc, an, dist_txs, fees, include_transactions);
        assert(dist_txs.push(tx@).drop_last() =~= dist_txs);
    }
    add_outputs(&mut acc.script_dist, tx);
    let prevout_map = tx_prevout_map(tx, maybe_undo, i)?;
    let ghost pv = prevout_map@;
    let fee_sats = tx_fee(tx, &prevout_map);
    let winfo = compute_weight(tx);
    acc.fee_samples.push(FeeSample { fee_sats, vbytes: winfo.vbytes });
    let analysis = match maybe_undo {
        Some(_) => apply_heuristics(txid, tx, &prevout_map, ctx),
        None => quiet_analysis(txid),
    };
    let ghost hc0 = acc.heuristic_counts@;
    let ghost cc0 = acc.classification_counts@;
    let ghost nt0 = notables_view(acc.notable_transactions@);
    let ghost tr0 = analyses_view(acc.transactions@);
    let ghost fl0 = acc.flagged_real;
    record_analysis(&analysis, &mut acc.heuristic_counts, &mut acc.classification_counts);
    if analysis.is_flagged() {
        acc.flagged_real = acc.flagged_real + 1;
    }
    let ghost a = analysis@;
    if acc.notable_transactions.len() < 10 && is_notable_classification(&analysis.classification) {
        let entry = NotableTransaction {
            txid: analysis.txid.clone(),
            classification: analysis.classification,
            detected_heuristics: detected_heuristics(&analysis),
        };
        acc.notable_transactions.push(entry);
        proof {
            assert(notables_view(acc.notable_transactions@) =~= nt0.push(notable_of(a)));
        }
    }
    if include_transactions {
        acc.transactions.push(analysis);
    }
    proof {
        assert(analyses_view(acc.transactions@) =~= if include_transactions {
            tr0.push(a)
        } else {
            tr0
        });
        lemma_block_acc_push(
            an,
            a,
            hc0,
            acc.heuristic_counts@,
            cc0,
            acc.classification_counts@,
            fl0,
            acc.flagged_real,
            nt0,
            notables_view(acc.notable_transactions@),
            tr0,
            analyses_view(acc.transactions@),
            include_transactions,
        );
    }
    Ok(())
}

/// The counts of a block result stay within its transaction count, which
/// with its output count stays within `bytes`.
pub open spec fn result_bounded(r: BlockResultModel, bytes: nat) -> bool {
    &&& r.tx_count <= bytes
    &&& spec_dist_total(r.script_dist) <= bytes
    &&& r.flagged_real <= r.tx_count
    &&& r.heuristic_counts.len() == HEURISTIC_COUNT
    &&& r.classification_counts.len() == CLASSIFICATION_COUNT
    &&& forall|k: int| 0 <= k < HEURISTIC_COUNT ==> #[trigger] r.heuristic_counts[k] <= r.tx_count
    &&& forall|c: int| 0 <= c < CLASSIFICATION_COUNT ==> #[trigger] r.classification_counts[c] <= r.tx_count
}

/// The fee samples of the non-coinbase transactions among the first `i`.
pub open spec fn fees_prefix(ptxs: Seq<(TxModel, nat)>, pvs: Seq<Seq<PrevoutModel>>, i: nat) -> Seq<FeeSample> {
    Seq::new((if i >= 1 { i - 1 } else { 0 }) as nat, |j: int| spec_fee_sample(ptxs[j + 1], pvs[j + 1]))
}

/// Analyse one block: parse its transactions, build the block context, run
/// every heuristic on each non-coinbase transaction, and gather counts,
/// distributions, notable transactions and fee samples. A block without undo
/// data is still analysed: no spent output resolves, so every fee is zero,
/// and no heuristic runs on its transactions.
#[verifier::rlimit(100)]
#[verifier::spinoff_prover]
fn analyze_one_block(block: &ParsedBlock, maybe_undo: Option<&BlockUndo>, include_transactions: bool) -> (res: Result<BlockResult, ChainError>)
    requires
        tx_bytes_total(buffers_view(block.transactions@)) <= MAX_TX_BYTES,
    ensures
        match res {
            Ok(r) => spec_analyze_block(block@, undo_model(maybe_undo), include_transactions) == Ok::<
                BlockResultModel,
                ErrorKind,
            >(r@),
            Err(e) => spec_analyze_block(block@, undo_model(maybe_undo), include_transactions)
                == Err::<BlockResultModel, ErrorKind>(e.kind()),
        },
        res matches Ok(r) ==> result_bounded(r@, tx_bytes_total(buffers_view(block.transactions@))),
{
    let ghost undo_m = undo_model(maybe_undo);
    let ghost raws = buffers_view(block.transactions@);
    let tx_count = block.transactions.len();
    if tx_count == 0 {
        return Err(
            ChainError::InvalidField {
                field: "tx_count",
                detail: "block has no transactions".to_owned(),
            },
        );
    }
    let non_cb_count = tx_count - 1;
    match maybe_undo {
        Some(undo) => {
            if undo.prevouts.len() != non_cb_count {
                let mut detail = "undo has ".to_owned();
                crate::text::push_decimal(&mut detail, undo.prevouts.len() as u64);
                detail.append(" records but block has ");
                crate::text::push_decimal(&mut detail, non_cb_count as u64);
                detail.append(" non-coinbase txs");
                return Err(ChainError::InvalidUndoData { detail });
            }
        },
        None => {},
    }
    let parsed = parse_all(&block.transactions)?;
    let ghost ptxs = spec_parse_all(raws)->Ok_0;
    let ghost txs = ptxs.map_values(|p: (TxModel, nat)| p.0);
    proof {
        assert(tx_models(parsed@) =~= txs);
        crate::parser::transaction::lemma_legacy_len(raws[0]);
        assert(parsed@[0]@ == txs[0]);
    }
    let txids = display_txids(&parsed);
    let ghost ids = strings_view(txids@);
    proof {
        assert(ids =~= Seq::new(tx_count as nat, |i: int| spec_display_txid(txs[i])));
    }
    let block_height = decode_bip34_height(parsed[0].inputs[0].script_sig)?;
    let block_hash = hash_display(&block.block_hash);
    let timestamp = block.header.timestamp;
    let ctx = build_context(&parsed, &txids);
    let mut acc = BlockAcc {
        script_dist: ScriptTypeDistribution::default(),
        fee_samples: Vec::new(),
        heuristic_counts: empty_heuristic_counts(),
        classification_counts: empty_classification_counts(),
        notable_transactions: Vec::new(),
        transactions: Vec::new(),
        flagged_real: 0,
    };
    proof {
        assert(notables_view(acc.notable_transactions@) =~= Seq::<NotableModel>::empty());
        assert(analyses_view(acc.transactions@) =~= Seq::<TxAnalysisModel>::empty());
        assert(acc.fee_samples@ =~= Seq::<FeeSample>::empty());
        crate::parser::transaction::lemma_legacy_len(raws[0]);
        lemma_tx_bytes_prefix(raws, 0);
        assert(raws.take(0) =~= Seq::<Seq<u8>>::empty());
    }
    coinbase_step(&mut acc, &parsed[0], txids[0].as_str(), include_transactions);
    let ghost mut pvs: Seq<Seq<PrevoutModel>> = seq![seq![]];
    proof {
        assert(analyses_prefix(txs, ids, pvs, ctx@, maybe_undo is Some, 1) =~= seq![spec_quiet_analysis(ids[0])]);
        assert(txs.take(1) =~= seq![txs[0]]);
        assert(fees_prefix(ptxs, pvs, 1) =~= Seq::<FeeSample>::empty());
        assert(spec_block_prevouts(txs, undo_m, 0) == Ok::<Seq<Seq<PrevoutModel>>, ErrorKind>(seq![]));
        assert(Seq::<Seq<PrevoutModel>>::empty().push(seq![]) =~= pvs);
    }
    let mut i: usize = 1;
    while i < tx_count
        invariant
            tx_count == block.transactions@.len(),
            raws == buffers_view(block.transactions@),
            tx_bytes_total(raws) <= MAX_TX_BYTES,
            undo_m == undo_model(maybe_undo),
            undo_m matches Some(u) ==> u.prevouts.len() == tx_count - 1,
            ptxs.len() == tx_count,
            spec_parse_all(raws) == Ok::<Seq<(TxModel, nat)>, ErrorKind>(ptxs),
            spec_bip34_height(txs[0].inputs[0].script_sig) == Ok::<u64, ErrorKind>(block_height),
            parsed_match(parsed@, ptxs, raws),
            txs == ptxs.map_values(|p: (TxModel, nat)| p.0),
            txids@.len() == tx_count,
            ids == strings_view(txids@),
            ids == Seq::new(tx_count as nat, |j: int| spec_display_txid(txs[j])),
            ctx@ == spec_block_context(txs, ids),
            1 <= i <= tx_count,
            i <= tx_bytes_total(raws.take(i as int)),
            spec_block_prevouts(txs, undo_m, i as nat) == Ok::<Seq<Seq<PrevoutModel>>, ErrorKind>(pvs),
            pvs.len() == i,
            acc_holds(
                acc,
                analyses_prefix(txs, ids, pvs, ctx@, maybe_undo is Some, i as nat),
                txs.take(i as int),
                fees_prefix(ptxs, pvs, i as nat),
                include_transactions,
            ),
            spec_dist_total(acc.script_dist) <= tx_bytes_total(raws.take(i as int)),
        decreases tx_count - i,
    {
        let tx = &parsed[i];
        proof {
            crate::parser::transaction::lemma_legacy_len(raws[i as int]);
            lemma_tx_bytes_prefix(raws, i as int);
            assert(tx@ == txs[i as int]);
            assert(analyses_prefix(txs, ids, pvs, ctx@, maybe_undo is Some, i as nat).len() == i);
        }
        let ghost an = analyses_prefix(txs, ids, pvs, ctx@, maybe_undo is Some, i as nat);
        let ghost dist_txs = txs.take(i as int);
        let ghost fees = fees_prefix(ptxs, pvs, i as nat);
        match tx_step(
            &mut acc,
            tx,
            txids[i].as_str(),
            maybe_undo,
            i,
            &ctx,
            include_transactions,
            Ghost(an),
            Ghost(dist_txs),
            Ghost(fees),
        ) {
            Ok(()) => {},
            Err(e) => {
                proof {
                    lemma_block_prevouts_err(txs, undo_m, i as nat, tx_count as nat);
                }
                return Err(e);
            },
        }
        proof {
            let pv = spec_prevouts_for(txs[i as int], undo_m, i as int)->Ok_0;
            let old_pvs = pvs;
            pvs = pvs.push(pv);
            assert(analyses_prefix(txs, ids, pvs, ctx@, maybe_undo is Some, (i + 1) as nat) =~= an.push(
                spec_tx_analysis(ids[i as int], txs[i as int], pv, ctx@, maybe_undo is Some),
            ));
            assert(txs.take(i + 1) =~= dist_txs.push(txs[i as int]));
            assert(fees_prefix(ptxs, pvs, (i + 1) as nat) =~= fees.push(
                spec_fee_sample(ptxs[i as int], pv),
            ));
        }
        i = i + 1;
    }
    proof {
        assert(txs.take(i as int) =~= txs);
        assert(raws.take(i as int) =~= raws);
    }
    let result = BlockResult {
        block_hash,
        block_height,
        timestamp,
        tx_count,
        flagged_real: acc.flagged_real,
        heuristic_counts: acc.heuristic_counts,
        classification_counts: acc.classification_counts,
        notable_transactions: acc.notable_transactions,
        script_dist: acc.script_dist,
        fee_samples: acc.fee_samples,
        transactions: acc.transactions,
    };
    proof {
        let an = analyses_prefix(txs, ids, pvs, ctx@, maybe_undo is Some, tx_count as nat);
        assert(an =~= spec_analyses(txs, ids, pvs, ctx@, maybe_undo is Some));
        assert(result@.heuristic_counts =~= Seq::new(
            HEURISTIC_COUNT as nat,
            |k: int| count_fired(an, spec_heuristic_ids()[k]) as u64,
        ));
        assert(result@.classification_counts =~= Seq::new(
            CLASSIFICATION_COUNT as nat,
            |c: int| count_class(an, class_at(c)) as u64,
        ));
        assert(result@.fee_samples =~= Seq::new(
            (tx_count - 1) as nat,
            |j: int| spec_fee_sample(ptxs[j + 1], pvs[j + 1]),
        ));
        lemma_counts_bounded(an, "cioh"@, TxClassification::Unknown);
        assert forall|k: int| 0 <= k < HEURISTIC_COUNT implies #[trigger] result@.heuristic_counts[k]
            <= result@.tx_count by {
            lemma_counts_bounded(an, spec_heuristic_ids()[k], TxClassification::Unknown);
        }
        assert forall|c: int| 0 <= c < CLASSIFICATION_COUNT implies #[trigger] result@.classification_counts[c]
            <= result@.tx_count by {
            lemma_counts_bounded(an, "cioh"@, class_at(c));
        }
    }
    Ok(result)
}

// ─── File-level analysis ─────────────────────────────────────────────────────

/// What a file report holds, as plain values.
pub struct FileReportModel {
    pub file: Seq<char>,
    pub block_count: nat,
    pub total_transactions_analyzed: u64,
    pub flagged_transactions: u64,
    pub heuristics_applied: Seq<Seq<char>>,
    pub heuristic_findings: Seq<u64>,
    pub classification_distribution: Seq<u64>,
    pub script_type_distribution: ScriptTypeDistribution,
    pub blocks: Seq<BlockResultModel>,
}

/// The analysis of one blk*.dat file. Fee rates and their statistics are
/// derived from the blocks' fee samples.
pub struct FileReport {
    pub file: String,
    pub block_count: usize,
    pub total_transactions_analyzed: u64,
    pub flagged_transactions: u64,
    pub heuristics_applied: Vec<String>,
    /// Per heuristic, in the order of `heuristics_applied`.
    pub heuristic_findings: Vec<u64>,
    /// Per classification, in the order of `spec_classification_ids`.
    pub classification_distribution: Vec<u64>,
    pub script_type_distribution: ScriptTypeDistribution,
    pub blocks: Vec<BlockResult>,
}

/// The views of a list of block results.
pub open spec fn results_view(v: Seq<BlockResult>) -> Seq<BlockResultModel> {
    v.map_values(|r: BlockResult| r@)
}

impl View for FileReport {
    type V = FileReportModel;

    open spec fn view(&self) -> FileReportModel {
        FileReportModel {
            file: self.file@,
            block_count: self.block_count as nat,
            total_transactions_analyzed: self.total_transactions_analyzed,
            flagged_transactions: self.flagged_transactions,
            heuristics_applied: texts_view(self.heuristics_applied@),
            heuristic_findings: self.heuristic_findings@,
            classification_distribution: self.classification_distribution@,
            script_type_distribution: self.script_type_distribution,
            blocks: results_view(self.blocks@),
        }
    }
}

/// The models of the (block, undo) pairs of a file.
pub open spec fn pairs_view(v: Seq<(&ParsedBlock, Option<&BlockUndo>)>) -> Seq<(ParsedBlockModel, Option<BlockUndoModel>)> {
    v.map_values(|p: (&ParsedBlock, Option<&BlockUndo>)| (p.0@, undo_model(p.1)))
}

/// The analyses of the first `k` blocks (only the first one keeps its
/// transactions), or the first error.
pub open spec fn spec_analyze_blocks(pairs: Seq<(ParsedBlockModel, Option<BlockUndoModel>)>, k: nat) -> Result<Seq<BlockResultModel>, ErrorKind>
    decreases k,
{
    if k == 0 {
        Ok(seq![])
    } else {
        match spec_analyze_blocks(pairs, (k - 1) as nat) {
            Err(e) => Err(e),
            Ok(rs) => match spec_analyze_block(pairs[k - 1].0, pairs[k - 1].1, k - 1 == 0) {
                Err(e) => Err(e),
                Ok(r) => Ok(rs.push(r)),
            },
        }
    }
}

/// The sum over the blocks of their transaction counts.
pub open spec fn sum_tx_count(rs: Seq<BlockResultModel>) -> nat
    decreases rs.len(),
{
    if rs.len() == 0 {
        0
    } else {
        sum_tx_count(rs.drop_last()) + rs.last().tx_count
    }
}

/// The sum over the blocks of their flagged counts.
pub open spec fn sum_flagged(rs: Seq<BlockResultModel>) -> nat
    decreases rs.len(),
{
    if rs.len() == 0 {
        0
    } else {
        sum_flagged(rs.drop_last()) + rs.last().flagged_real as nat
    }
}

/// The sum over the blocks of heuristic `k`'s count.
pub open spec fn sum_heuristic(rs: Seq<BlockResultModel>, k: int) -> nat
    decreases rs.len(),
{
    if rs.len() == 0 {
        0
    } else {
        sum_heuristic(rs.drop_last(), k) + rs.last().heuristic_counts[k] as nat
    }
}

/// The sum over the blocks of classification `c`'s count.
pub open spec fn sum_class(rs: Seq<BlockResultModel>, c: int) -> nat
    decreases rs.len(),
{
    if rs.len() == 0 {
        0
    } else {
        sum_class(rs.drop_last(), c) + rs.last().classification_counts[c] as nat
    }
}

/// The merged script type distribution of the blocks.
pub open spec fn merged_dist(rs: Seq<BlockResultModel>) -> ScriptTypeDistribution
    decreases rs.len(),
{
    if rs.len() == 0 {
        dist_zero()
    } else {
        spec_dist_merge(merged_dist(rs.drop_last()), rs.last().script_dist)
    }
}

/// The total size of the transactions of the blocks of a file.
pub open spec fn file_tx_bytes(pairs: Seq<(ParsedBlockModel, Option<BlockUndoModel>)>) -> nat
    decreases pairs.len(),
{
    if pairs.len() == 0 {
        0
    } else {
        file_tx_bytes(pairs.drop_last()) + tx_bytes_total(pairs.last().0.transactions)
    }
}

/// The report of a file: an error when it holds no blocks or when a block's
/// analysis fails (the first such error); otherwise every block's result
/// and their sums.
pub open spec fn spec_analyze_file(
    filename: Seq<char>,
    pairs: Seq<(ParsedBlockModel, Option<BlockUndoModel>)>,
) -> Result<FileReportModel, ErrorKind> {
    if pairs.len() == 0 {
        Err(ErrorKind::InvalidField("blocks"@, "blk file contains no blocks"@))
    } else {
        match spec_analyze_blocks(pairs, pairs.len()) {
            Err(e) => Err(e),
            Ok(rs) => Ok(
                FileReportModel {
                    file: filename,
                    block_count: pairs.len(),
                    total_transactions_analyzed: sum_tx_count(rs) as u64,
                    flagged_transactions: sum_flagged(rs) as u64,
                    heuristics_applied: spec_heuristic_ids(),
                    heuristic_findings: Seq::new(
                        HEURISTIC_COUNT as nat,
                        |k: int| sum_heuristic(rs, k) as u64,
                    ),
                    classification_distribution: Seq::new(
                        CLASSIFICATION_COUNT as nat,
                        |c: int| sum_class(rs, c) as u64,
                    ),
                    script_type_distribution: merged_dist(rs),
                    blocks: rs,
                },
            ),
        }
    }
}

/// The file-level sums of the first `k` block results.
spec fn file_acc(
    rs: Seq<BlockResultModel>,
    total: u64,
    flagged: u64,
    findings: Seq<u64>,
    classes: Seq<u64>,
    dist: ScriptTypeDistribution,
) -> bool {
    &&& total == sum_tx_count(rs)
    &&& flagged == sum_flagged(rs)
    &&& findings.len() == HEURISTIC_COUNT
    &&& classes.len() == CLASSIFICATION_COUNT
    &&& forall|k: int| 0 <= k < HEURISTIC_COUNT ==> #[trigger] findings[k] == sum_heuristic(rs, k)
    &&& forall|c: int| 0 <= c < CLASSIFICATION_COUNT ==> #[trigger] classes[c] == sum_class(rs, c)
    &&& dist == merged_dist(rs)
}

/// Every block result is within the bytes of its block.
spec fn results_bounded(rs: Seq<BlockResultModel>, pairs: Seq<(ParsedBlockModel, Option<BlockUndoModel>)>) -> bool {
    forall|b: int|
        0 <= b < rs.len() ==> result_bounded(
            #[trigger] rs[b],
            tx_bytes_total(pairs[b].0.transactions),
        )
}

/// The sums over bounded results stay within the file's bytes.
proof fn lemma_sums_bounded(rs: Seq<BlockResultModel>, pairs: Seq<(ParsedBlockModel, Option<BlockUndoModel>)>, k: int, c: int)
    requires
        rs.len() <= pairs.len(),
        results_bounded(rs, pairs),
        file_tx_bytes(pairs.take(rs.len() as int)) <= MAX_TX_BYTES,
        0 <= k < HEURISTIC_COUNT,
        0 <= c < CLASSIFICATION_COUNT,
    ensures
        sum_tx_count(rs) <= file_tx_bytes(pairs.take(rs.len() as int)),
        sum_flagged(rs) <= sum_tx_count(rs),
        sum_heuristic(rs, k) <= sum_tx_count(rs),
        sum_class(rs, c) <= sum_tx_count(rs),
        spec_dist_total(merged_dist(rs)) <= file_tx_bytes(pairs.take(rs.len() as int)),
        spec_dist_total(merged_dist(rs)) == sum_outputs(rs),
    decreases rs.len(),
{
    if rs.len() > 0 {
        let n = rs.len() - 1;
        assert(pairs.take(rs.len() as int).drop_last() =~= pairs.take(n));
        assert(results_bounded(rs.drop_last(), pairs));
        lemma_sums_bounded(rs.drop_last(), pairs, k, c);
        assert(result_bounded(rs[n], tx_bytes_total(pairs[n].0.transactions)));
        lemma_merge_total(merged_dist(rs.drop_last()), rs[n].script_dist);
    }
}

/// Merging two distributions whose sum fits adds their totals.
proof fn lemma_merge_total(a: ScriptTypeDistribution, b: ScriptTypeDistribution)
    requires
        spec_dist_total(a) + spec_dist_total(b) <= u64::MAX,
    ensures
        dist_merge_fits(a, b),
        spec_dist_total(spec_dist_merge(a, b)) == spec_dist_total(a) + spec_dist_total(b),
{
}

/// The sum over the blocks of their output counts.
spec fn sum_outputs(rs: Seq<BlockResultModel>) -> nat
    decreases rs.len(),
{
    if rs.len() == 0 {
        0
    } else {
        sum_outputs(rs.drop_last()) + spec_dist_total(rs.last().script_dist) as nat
    }
}

/// A prefix of the blocks holds no more transaction bytes than the file.
proof fn lemma_file_bytes_prefix(pairs: Seq<(ParsedBlockModel, Option<BlockUndoModel>)>, b: int)
    requires
        0 <= b < pairs.len(),
    ensures
        file_tx_bytes(pairs.take(b + 1)) == file_tx_bytes(pairs.take(b)) + tx_bytes_total(
            pairs[b].0.transactions,
        ),
        file_tx_bytes(pairs.take(b + 1)) <= file_tx_bytes(pairs),
    decreases pairs.len() - b,
{
    assert(pairs.take(b + 1).drop_last() =~= pairs.take(b));
    if b + 1 < pairs.len() {
        lemma_file_bytes_prefix(pairs, b + 1);
    } else {
        assert(pairs.take(b + 1) =~= pairs);
    }
}

/// Once a block's analysis fails, the file's fails with the same error.
proof fn lemma_analyze_blocks_err(pairs: Seq<(ParsedBlockModel, Option<BlockUndoModel>)>, b: nat, n: nat)
    requires
        b < n,
        spec_analyze_blocks(pairs, b) is Ok,
        spec_analyze_block(pairs[b as int].0, pairs[b as int].1, b == 0) is Err,
    ensures
        spec_analyze_blocks(pairs, n) == Err::<Seq<BlockResultModel>, ErrorKind>(
            spec_analyze_block(pairs[b as int].0, pairs[b as int].1, b == 0)->Err_0,
        ),
    decreases n,
{
    if n > b + 1 {
        lemma_analyze_blocks_err(pairs, b, (n - 1) as nat);
    }
}

/// Analyse all blocks of one blk*.dat file and produce the file report.
///
/// Only the first block keeps its per-transaction analyses; every block
/// contributes its counts to the file-level sums, and its fee samples to
/// the fee statistics.
pub fn analyze_block_file(filename: &str, block_undo_pairs: &[(&ParsedBlock, Option<&BlockUndo>)]) -> (res: Result<FileReport, ChainError>)
    requires
        file_tx_bytes(pairs_view(block_undo_pairs@)) <= MAX_TX_BYTES,
    ensures
        match res {
            Ok(r) => spec_analyze_file(filename@, pairs_view(block_undo_pairs@)) == Ok::<
                FileReportModel,
                ErrorKind,
            >(r@),
            Err(e) => spec_analyze_file(filename@, pairs_view(block_undo_pairs@)) == Err::<
                FileReportModel,
                ErrorKind,
            >(e.kind()),
        },
{
    let ghost pairs = pairs_view(block_undo_pairs@);
    if block_undo_pairs.len() == 0 {
        return Err(
            ChainError::InvalidField {
                field: "blocks",
                detail: "blk file contains no blocks".to_owned(),
            },
        );
    }
    let block_count = block_undo_pairs.len();
    let mut block_results: Vec<BlockResult> = Vec::new();
    let mut total: u64 = 0;
    let mut flagged: u64 = 0;
    let mut findings = empty_heuristic_counts();
    let mut classes = empty_classification_counts();
    let mut dist = ScriptTypeDistribution::default();
    proof {
        assert(results_view(block_results@) =~= Seq::<BlockResultModel>::empty());
        assert(pairs.take(0) =~= Seq::<(ParsedBlockModel, Option<BlockUndoModel>)>::empty());
    }
    let mut idx: usize = 0;
    while idx < block_count
        invariant
            pairs == pairs_view(block_undo_pairs@),
            block_count == block_undo_pairs@.len(),
            file_tx_bytes(pairs) <= MAX_TX_BYTES,
            idx <= block_count,
            spec_analyze_blocks(pairs, idx as nat) == Ok::<Seq<BlockResultModel>, ErrorKind>(
                results_view(block_results@),
            ),
            results_view(block_results@).len() == idx,
            results_bounded(results_view(block_results@), pairs),
            file_tx_bytes(pairs.take(idx as int)) <= MAX_TX_BYTES,
            file_acc(results_view(block_results@), total, flagged, findings@, classes@, dist),
        decreases block_count - idx,
    {
        let (block, maybe_undo) = block_undo_pairs[idx];
        let ghost rs = results_view(block_results@);
        proof {
            lemma_file_bytes_prefix(pairs, idx as int);
            assert(pairs[idx as int] == (block@, undo_model(maybe_undo)));
        }
        let r = match analyze_one_block(block, maybe_undo, idx == 0) {
            Ok(r) => r,
            Err(e) => {
                proof {
                    lemma_analyze_blocks_err(pairs, idx as nat, block_count as nat);
                }
                return Err(e);
            },
        };
        let ghost rs2 = rs.push(r@);
        proof {
            assert(rs2.drop_last() =~= rs);
            assert(results_bounded(rs2, pairs));
            assert(pairs.take(idx + 1).len() == rs2.len());
            lemma_sums_bounded(rs2, pairs, 0, 0);
            lemma_sums_bounded(rs, pairs, 0, 0);
            lemma_merge_total(dist, r.script_dist);
        }
        total = total + r.tx_count as u64;
        flagged = flagged + r.flagged_real;
        let mut k: usize = 0;
        while k < HEURISTIC_COUNT
            invariant
                k <= HEURISTIC_COUNT,
                findings@.len() == HEURISTIC_COUNT,
                r@.heuristic_counts.len() == HEURISTIC_COUNT,
                results_bounded(rs2, pairs),
                rs2.len() <= pairs.len(),
                file_tx_bytes(pairs.take(rs2.len() as int)) <= MAX_TX_BYTES,
                rs2 == rs.push(r@),
                rs2.drop_last() == rs,
                forall|j: int| k <= j < HEURISTIC_COUNT ==> #[trigger] findings@[j] == sum_heuristic(rs, j),
                forall|j: int| 0 <= j < k ==> #[trigger] findings@[j] == sum_heuristic(rs2, j),
            decreases HEURISTIC_COUNT - k,
        {
            proof {
                lemma_sums_bounded(rs2, pairs, k as int, 0);
            }
            let v = findings[k] + r.heuristic_counts[k];
            findings.set(k, v);
            k = k + 1;
        }
        let mut c: usize = 0;
        while c < CLASSIFICATION_COUNT
            invariant
                c <= CLASSIFICATION_COUNT,
                classes@.len() == CLASSIFICATION_COUNT,
                r@.classification_counts.len() == CLASSIFICATION_COUNT,
                results_bounded(rs2, pairs),
                rs2.len() <= pairs.len(),
                file_tx_bytes(pairs.take(rs2.len() as int)) <= MAX_TX_BYTES,
                rs2 == rs.push(r@),
                rs2.drop_last() == rs,
                forall|j: int| c <= j < CLASSIFICATION_COUNT ==> #[trigger] classes@[j] == sum_class(rs, j),
                forall|j: int| 0 <= j < c ==> #[trigger] classes@[j] == sum_class(rs2, j),
            decreases CLASSIFICATION_COUNT - c,
        {
            proof {
                lemma_sums_bounded(rs2, pairs, 0, c as int);
            }
            let v = classes[c] + r.classification_counts[c];
            classes.set(c, v);
            c = c + 1;
        }
        dist.merge(&r.script_dist);
        block_results.push(r);
        proof {
            assert(results_view(block_results@) =~= rs2);
        }
        idx = idx + 1;
    }
    let heuristics_applied = heuristics_applied();
    let report = FileReport {
        file: filename.to_owned(),
        block_count,
        total_transactions_analyzed: total,
        flagged_transactions: flagged,
        heuristics_applied,
        heuristic_findings: findings,
        classification_distribution: classes,
        script_type_distribution: dist,
        blocks: block_results,
    };
    proof {
        let rs = results_view(report.blocks@);
        assert(report@.heuristics_applied =~= spec_heuristic_ids());
        assert(report@.heuristic_findings =~= Seq::new(
            HEURISTIC_COUNT as nat,
            |k: int| sum_heuristic(rs, k) as u64,
        ));
        assert(report@.classification_distribution =~= Seq::new(
            CLASSIFICATION_COUNT as nat,
            |c: int| sum_class(rs, c) as u64,
        ));
    }
    Ok(report)
}

// ─── Pairing blocks with their undo records ──────────────────────────────────

/// Whether undo record `u` belongs to the block whose previous block hash is
/// `prev`: Bitcoin Core stores SHA256d(prev_block_hash || undo bytes) as the
/// record's checksum.
pub open spec fn undo_belongs(prev: Seq<u8>, u: BlockUndoModel) -> bool {
    spec_sha256d(prev + u.raw_bytes) == u.checksum
}

/// The first undo record from position `j` on that no earlier block took
/// and that belongs to the block with previous hash `prev`.
pub open spec fn first_free_match(
    prev: Seq<u8>,
    undos: Seq<BlockUndoModel>,
    taken: Seq<Option<int>>,
    j: int,
) -> Option<int>
    decreases undos.len() - j,
{
    if j < 0 || j >= undos.len() {
        None
    } else if !taken.contains(Some(j)) && undo_belongs(prev, undos[j]) {
        Some(j)
    } else {
        first_free_match(prev, undos, taken, j + 1)
    }
}

/// The undo record of each block, in block order: the first one not taken
/// by an earlier block whose checksum matches; none for a block without
/// one (an orphan, whose undo data Bitcoin Core never writes).
pub open spec fn spec_match_undos(prevs: Seq<Seq<u8>>, undos: Seq<BlockUndoModel>) -> Seq<Option<int>>
    decreases prevs.len(),
{
    if prevs.len() == 0 {
        seq![]
    } else {
        let before = spec_match_undos(prevs.drop_last(), undos);
        before.push(first_free_match(prevs.last(), undos, before, 0))
    }
}

/// The previous block hashes of a list of blocks.
pub open spec fn prev_hashes(blocks: Seq<ParsedBlock>) -> Seq<Seq<u8>> {
    blocks.map_values(|b: ParsedBlock| b.header.prev_block_hash@)
}

/// The models of a list of undo records.
pub open spec fn undos_view(undos: Seq<BlockUndo>) -> Seq<BlockUndoModel> {
    undos.map_values(|u: BlockUndo| u@)
}

/// Positions as integers.
pub open spec fn positions_view(v: Seq<Option<usize>>) -> Seq<Option<int>> {
    v.map_values(|o: Option<usize>| match o {
        Some(i) => Some(i as int),
        None => None,
    })
}

/// Whether undo record `undo` belongs to the block with previous hash `prev`.
pub fn undo_matches_block(prev: &[u8; 32], undo: &BlockUndo) -> (b: bool)
    ensures
        b == undo_belongs(prev@, undo@),
{
    let mut buf: Vec<u8> = Vec::new();
    push_bytes(&mut buf, prev.as_slice());
    push_bytes(&mut buf, undo.raw_bytes.as_slice());
    let computed = sha256d(buf.as_slice());
    proof {
        assert(buf@ =~= prev@ + undo.raw_bytes@);
    }
    crate::analyzer::context::bytes_eq(computed.as_slice(), undo.checksum.as_slice())
}

/// Pair each block with its undo record by checksum, in block order; each
/// record goes to the first block it matches. The blk*.dat and rev*.dat
/// files store blocks in different orders, and the checksum is the only
/// reliable key.
pub fn match_undo_records(blocks: &[ParsedBlock], undos: &[BlockUndo]) -> (m: Vec<Option<usize>>)
    ensures
        positions_view(m@) == spec_match_undos(prev_hashes(blocks@), undos_view(undos@)),
{
    let ghost prevs = prev_hashes(blocks@);
    let ghost uv = undos_view(undos@);
    let mut used: Vec<bool> = Vec::new();
    let mut u: usize = 0;
    while u < undos.len()
        invariant
            u <= undos@.len(),
            used@.len() == u,
            forall|j: int| 0 <= j < u ==> !#[trigger] used@[j],
        decreases undos@.len() - u,
    {
        used.push(false);
        u = u + 1;
    }
    let mut result: Vec<Option<usize>> = Vec::new();
    let mut b: usize = 0;
    proof {
        assert(positions_view(result@) =~= spec_match_undos(prevs.take(0), uv));
    }
    while b < blocks.len()
        invariant
            prevs == prev_hashes(blocks@),
            uv == undos_view(undos@),
            b <= blocks@.len(),
            used@.len() == undos@.len(),
            positions_view(result@) == spec_match_undos(prevs.take(b as int), uv),
            forall|j: int|
                0 <= j < used@.len() ==> (#[trigger] used@[j] <==> positions_view(result@).contains(
                    Some(j),
                )),
        decreases blocks@.len() - b,
    {
        let prev = &blocks[b].header.prev_block_hash;
        let ghost taken = positions_view(result@);
        let mut found: Option<usize> = None;
        let mut j: usize = 0;
        while j < undos.len()
            invariant_except_break
                found is None,
                first_free_match(prev@, uv, taken, 0) == first_free_match(prev@, uv, taken, j as int),
            invariant
                j <= undos@.len(),
                used@.len() == undos@.len(),
                uv == undos_view(undos@),
                forall|k: int|
                    0 <= k < used@.len() ==> (#[trigger] used@[k] <==> taken.contains(Some(k))),
            ensures
                match found {
                    Some(k) => k < undos@.len() && first_free_match(prev@, uv, taken, 0) == Some(k as int),
                    None => first_free_match(prev@, uv, taken, 0) == None::<int>,
                },
            decreases undos@.len() - j,
        {
            proof {
                assert(uv[j as int] == undos@[j as int]@);
            }
            if !used[j] && undo_matches_block(prev, &undos[j]) {
                found = Some(j);
                break;
            }
            j = j + 1;
        }
        proof {
            assert(prevs[b as int] == prev@);
            assert(prevs.take(b + 1).drop_last() =~= prevs.take(b as int));
            assert(prevs.take(b + 1).last() == prev@);
        }
        let ghost before = result@;
        let ghost used0 = used@;
        let ghost fi: Option<int> = match found {
            Some(j) => Some(j as int),
            None => None,
        };
        result.push(found);
        match found {
            Some(j) => {
                used.set(j, true);
            },
            None => {},
        }
        proof {
            let pv = positions_view(result@);
            assert(pv =~= taken.push(fi));
            assert forall|k: int| 0 <= k < used@.len() implies (#[trigger] used@[k]
                <==> pv.contains(Some(k))) by {
                if pv.contains(Some(k)) {
                    let w = choose|w: int| 0 <= w < pv.len() && pv[w] == Some(k);
                    if w < taken.len() {
                        assert(taken[w] == Some(k));
                        assert(taken.contains(Some(k)));
                        assert(used0[k]);
                    } else {
                        assert(fi == Some(k));
                    }
                }
                if used@[k] {
                    if fi == Some(k) {
                        assert(pv[taken.len() as int] == Some(k));
                    } else {
                        assert(used0[k]);
                        assert(taken.contains(Some(k)));
                        let w = choose|w: int| 0 <= w < taken.len() && taken[w] == Some(k);
                        assert(pv[w] == Some(k));
                    }
                }
            }
        }
        b = b + 1;
    }
    proof {
        assert(prevs.take(b as int) =~= prevs);
    }
    result
}

/// What the search from position `j` finds: a record at or after `j`, not
/// taken, that belongs to the block; or nothing, when every record from `j`
/// on that belongs to the block is taken.
proof fn lemma_first_free_match(prev: Seq<u8>, undos: Seq<BlockUndoModel>, taken: Seq<Option<int>>, j: int)
    requires
        0 <= j,
    ensures
        match first_free_match(prev, undos, taken, j) {
            Some(k) => j <= k < undos.len() && !taken.contains(Some(k)) && undo_belongs(prev, undos[k]),
            None => forall|k: int|
                j <= k < undos.len() && undo_belongs(prev, #[trigger] undos[k]) ==> taken.contains(
                    Some(k),
                ),
        },
    decreases undos.len() - j,
{
    if j < undos.len() {
        lemma_first_free_match(prev, undos, taken, j + 1);
    }
}

/// Pairing blocks with undo records by checksum: there is one entry per
/// block; a record given to a block belongs to it (its checksum is the
/// double SHA-256 of the block's previous hash and the record's bytes); no
/// record goes to two blocks; and a block gets none only when every record
/// that belongs to it went to an earlier block.
pub proof fn lemma_match_undos_sound(prevs: Seq<Seq<u8>>, undos: Seq<BlockUndoModel>)
    ensures
        spec_match_undos(prevs, undos).len() == prevs.len(),
        forall|b: int|
            0 <= b < prevs.len() && (#[trigger] spec_match_undos(prevs, undos)[b]) is Some ==> {
                let j = spec_match_undos(prevs, undos)[b]->Some_0;
                0 <= j < undos.len() && undo_belongs(prevs[b], undos[j])
            },
        forall|b: int, j: int|
            0 <= b < prevs.len() && 0 <= j < undos.len() && (#[trigger] spec_match_undos(
                prevs,
                undos,
            )[b]) is None && undo_belongs(prevs[b], #[trigger] undos[j]) ==> exists|c: int|
                0 <= c < b && spec_match_undos(prevs, undos)[c] == Some(j),
        forall|b1: int, b2: int|
            0 <= b1 < b2 < prevs.len() && (#[trigger] spec_match_undos(prevs, undos)[b1]) is Some
                ==> spec_match_undos(prevs, undos)[b1] != #[trigger] spec_match_undos(prevs, undos)[b2],
    decreases prevs.len(),
{
    if prevs.len() > 0 {
        let init = prevs.drop_last();
        lemma_match_undos_sound(init, undos);
        let before = spec_match_undos(init, undos);
        let m = spec_match_undos(prevs, undos);
        let last = prevs.len() - 1;
        lemma_first_free_match(prevs.last(), undos, before, 0);
        assert(m == before.push(first_free_match(prevs.last(), undos, before, 0)));
        assert forall|b: int|
            #![trigger prevs[b]]
            0 <= b < prevs.len() implies (m[b] is Some ==> 0 <= m[b]->Some_0 < undos.len()
                && undo_belongs(prevs[b], undos[m[b]->Some_0])) && (m[b] is None ==> forall|j: int|
                #![trigger undos[j]]
                0 <= j < undos.len() && undo_belongs(prevs[b], undos[j]) ==> exists|c: int|
                    0 <= c < b && m[c] == Some(j)) by {
            if b < last {
                assert(init[b] == prevs[b]);
                assert(m[b] == before[b]);
                if m[b] is None {
                    assert forall|j: int|
                        #![trigger undos[j]]
                        0 <= j < undos.len() && undo_belongs(prevs[b], undos[j]) implies exists|c: int|
                            0 <= c < b && m[c] == Some(j) by {
                        let c = choose|c: int| 0 <= c < b && before[c] == Some(j);
                        assert(m[c] == before[c]);
                    }
                }
            } else {
                if m[b] is None {
                    assert forall|j: int|
                        #![trigger undos[j]]
                        0 <= j < undos.len() && undo_belongs(prevs[b], undos[j]) implies exists|c: int|
                            0 <= c < b && m[c] == Some(j) by {
                        assert(before.contains(Some(j)));
                        let c = choose|c: int| 0 <= c < before.len() && before[c] == Some(j);
                        assert(m[c] == before[c]);
                    }
                }
            }
        }
        assert forall|b1: int, b2: int|
            #![trigger prevs[b1], prevs[b2]]
            0 <= b1 < b2 < prevs.len() && m[b1] is Some implies m[b1] != m[b2] by {
            assert(m[b1] == before[b1]);
            if b2 == last {
                if m[b2] is Some {
                    assert(before.contains(m[b1]));
                }
            } else {
                assert(m[b2] == before[b2]);
            }
        }
    }
}

// ─── Shape of the analysis results ──────────────────────────────────────────

/// The number of outputs of all the transactions.
pub open spec fn output_count(txs: Seq<TxModel>) -> nat
    decreases txs.len(),
{
    if txs.len() == 0 {
        0
    } else {
        output_count(txs.drop_last()) + txs.last().outputs.len()
    }
}

/// Counting outputs by script type adds one per output.
proof fn lemma_dist_outputs_total(d: ScriptTypeDistribution, outs: Seq<OutputModel>)
    requires
        spec_dist_total(d) + outs.len() <= u64::MAX,
    ensures
        spec_dist_total(dist_outputs(d, outs)) == spec_dist_total(d) + outs.len(),
    decreases outs.len(),
{
    if outs.len() > 0 {
        let before = dist_outputs(d, outs.drop_last());
        lemma_dist_outputs_total(d, outs.drop_last());
        lemma_dist_add(before, script_type_name(outs.last().script_pubkey));
    }
}

/// The script type distribution of a block counts each output of each of
/// its transactions exactly once (where that count fits a u64).
pub proof fn lemma_block_dist_counts_outputs(txs: Seq<TxModel>)
    requires
        output_count(txs) <= u64::MAX,
    ensures
        spec_dist_total(spec_block_dist(txs)) == output_count(txs),
    decreases txs.len(),
{
    if txs.len() > 0 {
        lemma_block_dist_counts_outputs(txs.drop_last());
        lemma_dist_outputs_total(spec_block_dist(txs.drop_last()), txs.last().outputs);
    }
}

/// Without undo data every spent output list is empty.
proof fn lemma_orphan_prevouts(txs: Seq<TxModel>, k: nat)
    ensures
        spec_block_prevouts(txs, None, k) matches Ok(pvs) && pvs.len() == k && forall|i: int|
            0 <= i < k ==> #[trigger] pvs[i] == Seq::<PrevoutModel>::empty(),
    decreases k,
{
    if k > 0 {
        lemma_orphan_prevouts(txs, (k - 1) as nat);
    }
}

/// Nothing resolves against no spent outputs.
proof fn lemma_input_total_none(ins: Seq<InputModel>)
    ensures
        input_total(ins, Seq::<PrevoutModel>::empty()) == 0,
    decreases ins.len(),
{
    if ins.len() > 0 {
        lemma_input_total_none(ins.drop_last());
    }
}

/// An orphan block, one without undo data, is still analysed, with the fee
/// of each of its transactions zero.
pub proof fn lemma_orphan_fees_zero(block: ParsedBlockModel, include_transactions: bool)
    ensures
        spec_analyze_block(block, None, include_transactions) matches Ok(r) ==> forall|i: int|
            0 <= i < r.fee_samples.len() ==> (#[trigger] r.fee_samples[i]).fee_sats == 0,
{
    if let Ok(r) = spec_analyze_block(block, None, include_transactions) {
        let n = block.transactions.len();
        let ptxs = spec_parse_all(block.transactions)->Ok_0;
        let txs = ptxs.map_values(|p: (TxModel, nat)| p.0);
        lemma_orphan_prevouts(txs, n);
        let pvs = spec_block_prevouts(txs, None, n)->Ok_0;
        assert forall|i: int| 0 <= i < r.fee_samples.len() implies (
        #[trigger] r.fee_samples[i]).fee_sats == 0 by {
            assert(pvs[i + 1] == Seq::<PrevoutModel>::empty());
            lemma_input_total_none(ptxs[i + 1].0.inputs);
        }
    }
}


/// Analyses in which no heuristic ran count no heuristic, flag nothing and
/// list nothing notable.
proof fn lemma_quiet_counts(an: Seq<TxAnalysisModel>, id: Seq<char>)
    requires
        forall|i: int| 0 <= i < an.len() ==> #[trigger] an[i] == spec_quiet_analysis(an[i].txid),
    ensures
        count_fired(an, id) == 0,
        count_flagged(an) == 0,
        spec_notables(an).len() == 0,
    decreases an.len(),
{
    if an.len() > 0 {
        let init = an.drop_last();
        assert forall|i: int| 0 <= i < init.len() implies #[trigger] init[i] == spec_quiet_analysis(
            init[i].txid,
        ) by {
            assert(init[i] == an[i]);
        }
        lemma_quiet_counts(init, id);
        assert(an.last() == an[an.len() - 1]);
        lemma_quiet_analysis(an.last().txid);
    }
}

/// An orphan block, one without undo data, has its heuristics skipped: no
/// heuristic is counted, no transaction is flagged or notable, and every
/// transaction it lists has each heuristic not detected and is classified
/// `Unknown`.
pub proof fn lemma_orphan_heuristics_skipped(block: ParsedBlockModel, include_transactions: bool)
    ensures
        spec_analyze_block(block, None, include_transactions) matches Ok(r) ==> {
            &&& r.flagged_real == 0
            &&& r.notable_transactions.len() == 0
            &&& forall|k: int| 0 <= k < r.heuristic_counts.len() ==> #[trigger] r.heuristic_counts[k] == 0
            &&& forall|i: int|
                0 <= i < r.transactions.len() ==> #[trigger] r.transactions[i] == spec_quiet_analysis(
                    r.transactions[i].txid,
                )
        },
{
    if let Ok(r) = spec_analyze_block(block, None, include_transactions) {
        let raws = block.transactions;
        let ptxs = spec_parse_all(raws)->Ok_0;
        let txs = ptxs.map_values(|p: (TxModel, nat)| p.0);
        let n = raws.len();
        let txids = Seq::new(n, |i: int| spec_display_txid(txs[i]));
        let ctx = spec_block_context(txs, txids);
        let pvs = spec_block_prevouts(txs, None, n)->Ok_0;
        let an = spec_analyses(txs, txids, pvs, ctx, false);
        assert forall|i: int| 0 <= i < an.len() implies #[trigger] an[i] == spec_quiet_analysis(
            an[i].txid,
        ) by {}
        lemma_quiet_counts(an, "cioh"@);
        assert forall|k: int| 0 <= k < r.heuristic_counts.len() implies #[trigger] r.heuristic_counts[k]
            == 0 by {
            lemma_quiet_counts(an, spec_heuristic_ids()[k]);
        }
    }
}


/// Parsed transactions are at least one byte each.
proof fn lemma_parse_all_sizes(raws: Seq<Seq<u8>>)
    ensures
        spec_parse_all(raws) matches Ok(ptxs) ==> ptxs.len() == raws.len() && raws.len()
            <= tx_bytes_total(raws),
    decreases raws.len(),
{
    if raws.len() > 0 {
        lemma_parse_all_sizes(raws.drop_last());
        crate::parser::transaction::lemma_legacy_len(raws.last());
    }
}

/// A block result counts the block's transactions, flags no more of them
/// than it has, and lists them all exactly when asked to.
pub proof fn lemma_block_shape(block: ParsedBlockModel, undo: Option<BlockUndoModel>, include_transactions: bool)
    ensures
        spec_analyze_block(block, undo, include_transactions) matches Ok(r) ==> {
            &&& r.tx_count == block.transactions.len()
            &&& r.tx_count <= tx_bytes_total(block.transactions)
            &&& r.flagged_real <= r.tx_count
            &&& r.transactions.len() == if include_transactions {
                r.tx_count
            } else {
                0
            }
        },
{
    let raws = block.transactions;
    lemma_parse_all_sizes(raws);
    if let Ok(r) = spec_analyze_block(block, undo, include_transactions) {
        let ptxs = spec_parse_all(raws)->Ok_0;
        let txs = ptxs.map_values(|p: (TxModel, nat)| p.0);
        let n = raws.len();
        let txids = Seq::new(n, |i: int| spec_display_txid(txs[i]));
        let ctx = spec_block_context(txs, txids);
        let pvs = spec_block_prevouts(txs, undo, n)->Ok_0;
        let an = spec_analyses(txs, txids, pvs, ctx, undo is Some);
        lemma_counts_bounded(an, "cioh"@, TxClassification::Unknown);
    }
}

/// A block lists at most ten notable transactions, each of them with a
/// notable classification.
pub proof fn lemma_notables_bounded(an: Seq<TxAnalysisModel>)
    ensures
        spec_notables(an).len() <= 10,
        forall|i: int|
            0 <= i < spec_notables(an).len() ==> spec_is_notable(
                (#[trigger] spec_notables(an)[i]).classification,
            ),
    decreases an.len(),
{
    if an.len() > 0 {
        lemma_notables_bounded(an.drop_last());
    }
}

/// The sum of the six classification counts of a result, in report order.
pub open spec fn class_total(c: Seq<u64>) -> nat {
    c[0] as nat + c[1] as nat + c[2] as nat + c[3] as nat + c[4] as nat + c[5] as nat
}

/// Each analysis carries exactly one of the six classifications.
proof fn lemma_class_partition(an: Seq<TxAnalysisModel>)
    ensures
        count_class(an, class_at(0)) + count_class(an, class_at(1)) + count_class(an, class_at(2))
            + count_class(an, class_at(3)) + count_class(an, class_at(4)) + count_class(
            an,
            class_at(5),
        ) == an.len(),
    decreases an.len(),
{
    if an.len() > 0 {
        lemma_class_partition(an.drop_last());
    }
}

/// Every transaction of a block gets exactly one classification: the
/// classification counts of a block sum to its transaction count (where
/// that count fits a u64).
pub proof fn lemma_block_classes_partition(
    block: ParsedBlockModel,
    undo: Option<BlockUndoModel>,
    include_transactions: bool,
)
    ensures
        spec_analyze_block(block, undo, include_transactions) matches Ok(r) ==> (r.tx_count
            <= u64::MAX ==> class_total(r.classification_counts) == r.tx_count),
{
    if let Ok(r) = spec_analyze_block(block, undo, include_transactions) {
        let raws = block.transactions;
        let ptxs = spec_parse_all(raws)->Ok_0;
        let txs = ptxs.map_values(|p: (TxModel, nat)| p.0);
        let n = raws.len();
        let txids = Seq::new(n, |i: int| spec_display_txid(txs[i]));
        let ctx = spec_block_context(txs, txids);
        let pvs = spec_block_prevouts(txs, undo, n)->Ok_0;
        let an = spec_analyses(txs, txids, pvs, ctx, undo is Some);
        lemma_parse_all_sizes(raws);
        lemma_class_partition(an);
        if r.tx_count <= u64::MAX {
            lemma_counts_bounded(an, "cioh"@, class_at(0));
            lemma_counts_bounded(an, "cioh"@, class_at(1));
            lemma_counts_bounded(an, "cioh"@, class_at(2));
            lemma_counts_bounded(an, "cioh"@, class_at(3));
            lemma_counts_bounded(an, "cioh"@, class_at(4));
            lemma_counts_bounded(an, "cioh"@, class_at(5));
            assert(r.classification_counts[0] == count_class(an, class_at(0)));
            assert(r.classification_counts[1] == count_class(an, class_at(1)));
            assert(r.classification_counts[2] == count_class(an, class_at(2)));
            assert(r.classification_counts[3] == count_class(an, class_at(3)));
            assert(r.classification_counts[4] == count_class(an, class_at(4)));
            assert(r.classification_counts[5] == count_class(an, class_at(5)));
        }
    }
}

/// Summed over blocks whose classification counts each sum to their
/// transaction count, the per-class sums add up to the total count.
proof fn lemma_sum_class_total(rs: Seq<BlockResultModel>)
    requires
        forall|b: int|
            0 <= b < rs.len() ==> class_total((#[trigger] rs[b]).classification_counts)
                == rs[b].tx_count,
    ensures
        sum_class(rs, 0) + sum_class(rs, 1) + sum_class(rs, 2) + sum_class(rs, 3) + sum_class(rs, 4)
            + sum_class(rs, 5) == sum_tx_count(rs),
    decreases rs.len(),
{
    if rs.len() > 0 {
        let init = rs.drop_last();
        assert forall|b: int| 0 <= b < init.len() implies class_total(
            (#[trigger] init[b]).classification_counts,
        ) == init[b].tx_count by {
            assert(init[b] == rs[b]);
        }
        lemma_sum_class_total(init);
        assert(class_total(rs[rs.len() - 1].classification_counts) == rs.last().tx_count);
    }
}

/// Every transaction of a file gets exactly one classification: the
/// file's classification distribution sums to the number of transactions
/// analyzed.
#[verifier::spinoff_prover]
#[verifier::rlimit(40)]
pub proof fn lemma_file_classes_partition(
    filename: Seq<char>,
    pairs: Seq<(ParsedBlockModel, Option<BlockUndoModel>)>,
)
    requires
        file_tx_bytes(pairs) <= MAX_TX_BYTES,
    ensures
        spec_analyze_file(filename, pairs) matches Ok(r) ==> class_total(
            r.classification_distribution,
        ) == r.total_transactions_analyzed,
{
    if let Ok(r) = spec_analyze_file(filename, pairs) {
        let n = pairs.len();
        let rs = r.blocks;
        lemma_blocks_shape(pairs, n);
        assert(pairs.take(n as int) =~= pairs);
        assert forall|b: int| 0 <= b < rs.len() implies class_total(
            (#[trigger] rs[b]).classification_counts,
        ) == rs[b].tx_count by {
            lemma_block_shape(pairs[b].0, pairs[b].1, b == 0);
            lemma_block_classes_partition(pairs[b].0, pairs[b].1, b == 0);
            lemma_file_bytes_prefix(pairs, b);
            assert(spec_analyze_block(pairs[b].0, pairs[b].1, b == 0) == Ok::<
                BlockResultModel,
                ErrorKind,
            >(rs[b]));
        }
        lemma_sum_class_total(rs);
    }
}

/// The results of the first `k` blocks: one per block, each of the shape
/// of `lemma_block_shape`, with sums within the blocks' bytes.
pub proof fn lemma_blocks_shape(pairs: Seq<(ParsedBlockModel, Option<BlockUndoModel>)>, k: nat)
    requires
        k <= pairs.len(),
    ensures
        spec_analyze_blocks(pairs, k) matches Ok(rs) ==> {
            &&& rs.len() == k
            &&& forall|b: int|
                0 <= b < k ==> spec_analyze_block(pairs[b].0, pairs[b].1, b == 0) == Ok::<
                    BlockResultModel,
                    ErrorKind,
                >(#[trigger] rs[b])
            &&& sum_tx_count(rs) <= file_tx_bytes(pairs.take(k as int))
            &&& sum_flagged(rs) <= sum_tx_count(rs)
        },
    decreases k,
{
    if k > 0 {
        lemma_blocks_shape(pairs, (k - 1) as nat);
        lemma_block_shape(pairs[k - 1].0, pairs[k - 1].1, k - 1 == 0);
        if let Ok(rs) = spec_analyze_blocks(pairs, k) {
            let before = spec_analyze_blocks(pairs, (k - 1) as nat)->Ok_0;
            assert(rs.drop_last() =~= before);
            assert(pairs.take(k as int).drop_last() =~= pairs.take(k - 1));
        }
    }
}

} // verus!
