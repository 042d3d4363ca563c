use sherlock::heuristics::change_detection::{is_round_number, script_types_compatible};
use sherlock::heuristics::round_number::is_round;

#[test]
fn round_number_thresholds() {
    assert!(!is_round_number(0));
    assert!(!is_round_number(546));
    assert!(!is_round_number(99_999));
    assert!(!is_round_number(100_001));
    assert!(is_round_number(100_000));
    assert!(is_round_number(1_000_000));
    assert!(is_round_number(10_000_000));
    assert!(is_round_number(100_000_000));
}

#[test]
fn script_type_compat_identity() {
    assert!(script_types_compatible("p2wpkh", "p2wpkh"));
    assert!(script_types_compatible("p2tr", "p2tr"));
    assert!(script_types_compatible("p2pkh", "p2pkh"));
    assert!(!script_types_compatible("p2wpkh", "p2tr"));
    assert!(!script_types_compatible("p2pkh", "p2wpkh"));
}

#[test]
fn round_number_boundaries() {
    assert!(!is_round(0));
    assert!(!is_round(99_999));
    assert!(!is_round(100_001));
    assert!(is_round(100_000));
    assert!(is_round(1_000_000));
    assert!(is_round(100_000_000));
}

use sherlock::analyzer::context::BlockContext;
use sherlock::heuristics::{change_detection, peeling_chain, self_transfer};
use sherlock::types::{ExtraValue, HeuristicResult, Prevout, PrevoutMap, RawInput, RawOutput, RawTransaction};

const P2WPKH: [u8; 22] = [
    0x00, 0x14, 7, 7, 7, 7, 7, 7, 7, 7, 7, 7, 7, 7, 7, 7, 7, 7, 7, 7, 7, 7,
];
const OP_RETURN: [u8; 3] = [0x6a, 0x01, 0x00];

fn tx<'a>(n_inputs: usize, outputs: &[(u64, &'a [u8])]) -> RawTransaction<'a> {
    RawTransaction {
        version: 2,
        inputs: (0..n_inputs)
            .map(|i| RawInput { txid: [i as u8 + 1; 32], vout: 0, script_sig: &[], sequence: 0, witness: vec![] })
            .collect(),
        outputs: outputs.iter().map(|&(value, script_pubkey)| RawOutput { value, script_pubkey }).collect(),
        locktime: 0,
        is_segwit: false,
        legacy_bytes: vec![],
        full_bytes: &[],
    }
}

fn p2wpkh_prevouts(n: usize) -> PrevoutMap {
    PrevoutMap::from_vec(
        (0..n)
            .map(|i| Prevout { txid: [i as u8 + 1; 32], vout: 0, value_sats: 1_000_000, script_pubkey: P2WPKH.to_vec() })
            .collect(),
    )
    .unwrap()
}

fn extra<'a>(h: &'a HeuristicResult, key: &str) -> &'a ExtraValue {
    &h.extra.iter().find(|(k, _)| k == key).unwrap().1
}

#[test]
fn round_means_a_multiple_of_100_000() {
    assert!(!is_round(110_000));
    assert!(!is_round_number(110_000));
    assert!(is_round(200_000));
}

#[test]
fn change_detection_tries_script_type_match_first() {
    let t = tx(1, &[(5_000, &OP_RETURN), (12_345, &P2WPKH)]);
    let h = change_detection::run(&t, &p2wpkh_prevouts(1));
    assert!(h.detected);
    assert!(matches!(extra(&h, "likely_change_index"), ExtraValue::U64(1)));
    assert!(matches!(extra(&h, "method"), ExtraValue::Text(m) if m == "script_type_match"));
    assert!(matches!(extra(&h, "confidence"), ExtraValue::Text(c) if c == "high"));
    // Without spent-output data the OP_RETURN companion decides.
    let h = change_detection::run(&t, &PrevoutMap::empty());
    assert!(matches!(extra(&h, "method"), ExtraValue::Text(m) if m == "op_return_companion"));
}

#[test]
fn self_transfer_needs_one_or_two_non_round_outputs() {
    let three = tx(1, &[(12_345, &P2WPKH), (23_456, &P2WPKH), (34_567, &P2WPKH)]);
    assert!(!self_transfer::run(&three, &p2wpkh_prevouts(1)).detected);
    let round = tx(1, &[(12_345, &P2WPKH), (200_000, &P2WPKH)]);
    assert!(!self_transfer::run(&round, &p2wpkh_prevouts(1)).detected);
    let two = tx(1, &[(12_345, &P2WPKH), (23_456, &P2WPKH)]);
    assert!(self_transfer::run(&two, &p2wpkh_prevouts(1)).detected);
}

#[test]
fn peeling_chain_has_no_ratio_condition() {
    let t = tx(1, &[(150_000, &P2WPKH), (100_000, &P2WPKH)]);
    let ctx = BlockContext {
        script_index: vec![],
        spend_index: vec![(("aa".to_string(), 0), "bb".to_string())],
        block_txids: vec![],
    };
    let h = peeling_chain::run("aa", &t, &ctx);
    assert!(h.detected);
    assert!(matches!(extra(&h, "large_output_vout"), ExtraValue::U64(0)));
    assert!(matches!(extra(&h, "small_output_vout"), ExtraValue::U64(1)));
    assert!(matches!(extra(&h, "successor_txid"), ExtraValue::Text(s) if s == "bb"));
}
