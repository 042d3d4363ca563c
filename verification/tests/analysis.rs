use sha2::{Digest, Sha256};
use sherlock::analyzer::block_analyzer::{analyze_block_file, decode_bip34_height, match_undo_records};
use sherlock::errors::ChainError;
use sherlock::parser::block_parser::{
    compute_merkle_root, hash_display, parse_block_file, sha256d, ParsedBlock,
};
use sherlock::parser::undo_parser::{parse_undo_file, BlockUndo, MAINNET_MAGIC};
use sherlock::reporter::json_report::validate;
use sherlock::reporter::markdown::{markdown_report, FeeCells};
use sherlock::types::{ExtraValue, TxClassification};

fn dsha(b: &[u8]) -> [u8; 32] {
    let h1 = Sha256::digest(b);
    Sha256::digest(h1).into()
}

fn display(h: &[u8; 32]) -> String {
    h.iter().rev().map(|b| format!("{:02x}", b)).collect()
}

/// The coinbase: BIP34 height 123456, one 50 BTC P2WPKH output.
fn coinbase() -> Vec<u8> {
    let mut t = vec![0x01, 0x00, 0x00, 0x00, 0x01];
    t.extend_from_slice(&[0u8; 32]);
    t.extend_from_slice(&[0xff, 0xff, 0xff, 0xff]);
    t.extend_from_slice(&[0x04, 0x03, 0x40, 0xe2, 0x01]);
    t.extend_from_slice(&[0xff, 0xff, 0xff, 0xff]);
    t.push(0x01);
    t.extend_from_slice(&5_000_000_000u64.to_le_bytes());
    t.extend_from_slice(&[0x16, 0x00, 0x14]);
    t.extend_from_slice(&[0xaa; 20]);
    t.extend_from_slice(&[0, 0, 0, 0]);
    t
}

/// Two inputs, outputs of 1 BTC and 12_345 sats, all P2WPKH.
fn spender() -> Vec<u8> {
    let mut t = vec![0x02, 0x00, 0x00, 0x00, 0x02];
    t.extend_from_slice(&[0x11; 32]);
    t.extend_from_slice(&[0, 0, 0, 0, 0x00, 0xff, 0xff, 0xff, 0xff]);
    t.extend_from_slice(&[0x22; 32]);
    t.extend_from_slice(&[1, 0, 0, 0, 0x00, 0xff, 0xff, 0xff, 0xff]);
    t.push(0x02);
    t.extend_from_slice(&100_000_000u64.to_le_bytes());
    t.extend_from_slice(&[0x16, 0x00, 0x14]);
    t.extend_from_slice(&[0xbb; 20]);
    t.extend_from_slice(&12_345u64.to_le_bytes());
    t.extend_from_slice(&[0x16, 0x00, 0x14]);
    t.extend_from_slice(&[0xcc; 20]);
    t.extend_from_slice(&[0, 0, 0, 0]);
    t
}

const PREV: [u8; 32] = [0x42; 32];

fn block_bytes(txs: &[Vec<u8>], merkle: [u8; 32]) -> Vec<u8> {
    let mut b = vec![0x00, 0x00, 0x00, 0x20];
    b.extend_from_slice(&PREV);
    b.extend_from_slice(&merkle);
    b.extend_from_slice(&1_700_000_000u32.to_le_bytes());
    b.extend_from_slice(&0x1703_0ecdu32.to_le_bytes());
    b.extend_from_slice(&7u32.to_le_bytes());
    b.push(txs.len() as u8);
    for t in txs {
        b.extend_from_slice(t);
    }
    b
}

fn file_record(payload: &[u8]) -> Vec<u8> {
    let mut out = MAINNET_MAGIC.to_le_bytes().to_vec();
    out.extend_from_slice(&(payload.len() as u32).to_le_bytes());
    out.extend_from_slice(payload);
    out
}

/// The undo data of the spender: two P2WPKH coins of 0.6 and 0.5 BTC.
fn undo_bytes() -> Vec<u8> {
    let mut u = vec![0x01, 0x02];
    u.extend_from_slice(&[0x02, 0x00, 0x3a, 0x1c, 0x00, 0x14]);
    u.extend_from_slice(&[0xdd; 20]);
    u.extend_from_slice(&[0x02, 0x00, 0x30, 0x1c, 0x00, 0x14]);
    u.extend_from_slice(&[0xee; 20]);
    u
}

fn fixture() -> (Vec<u8>, Vec<u8>) {
    let txs = vec![coinbase(), spender()];
    let mut pair = dsha(&txs[0]).to_vec();
    pair.extend_from_slice(&dsha(&txs[1]));
    let root = dsha(&pair);
    let blk = file_record(&block_bytes(&txs, root));
    let undo = undo_bytes();
    let mut keyed = PREV.to_vec();
    keyed.extend_from_slice(&undo);
    let mut rev = file_record(&undo);
    rev.extend_from_slice(&dsha(&keyed));
    (blk, rev)
}

#[test]
fn block_file_parses_and_checks_merkle_root() {
    let (blk, _) = fixture();
    let blocks = parse_block_file(&blk).unwrap();
    assert_eq!(blocks.len(), 1);
    let b = &blocks[0];
    assert_eq!(b.header.version, 0x2000_0000);
    assert_eq!(b.header.prev_block_hash, PREV);
    assert_eq!(b.header.timestamp, 1_700_000_000);
    assert_eq!(b.header.nonce, 7);
    assert_eq!(b.transactions, vec![coinbase(), spender()]);
    let header = &block_bytes(&[coinbase(), spender()], b.header.merkle_root)[..80];
    assert_eq!(b.block_hash, dsha(header));
}

#[test]
fn merkle_mismatch_reports_both_roots() {
    let txs = vec![coinbase(), spender()];
    let blk = file_record(&block_bytes(&txs, [0x07; 32]));
    let mut pair = dsha(&txs[0]).to_vec();
    pair.extend_from_slice(&dsha(&txs[1]));
    let root = dsha(&pair);
    match parse_block_file(&blk) {
        Err(ChainError::MerkleRootMismatch { computed, header }) => {
            assert_eq!(computed, display(&root));
            assert_eq!(header, "07".repeat(32));
        }
        other => panic!("unexpected {:?}", other.map(|v| v.len())),
    }
}

#[test]
fn bad_coinbase_is_rejected() {
    let txs = vec![spender()];
    let root = dsha(&txs[0]);
    let blk = file_record(&block_bytes(&txs, root));
    assert!(matches!(parse_block_file(&blk), Err(ChainError::InvalidCoinbase { .. })));
}

#[test]
fn block_file_errors() {
    let (mut blk, _) = fixture();
    blk[3] = 0x00;
    assert!(matches!(parse_block_file(&blk), Err(ChainError::InvalidMagic { .. })));
    let (blk, _) = fixture();
    assert!(matches!(
        parse_block_file(&blk[..blk.len() - 1]),
        Err(ChainError::UnexpectedEof { context: "block_size" })
    ));
    let short = file_record(&[0u8; 40]);
    assert!(matches!(parse_block_file(&short), Err(ChainError::UnexpectedEof { context: "block_data" })));
    assert_eq!(parse_block_file(&[0u8; 16]).unwrap().len(), 0);
}

#[test]
fn merkle_root_shapes() {
    assert!(compute_merkle_root(&[]).is_none());
    let a = [0x01; 32];
    let b = [0x02; 32];
    let c = [0x03; 32];
    assert_eq!(compute_merkle_root(&[a]).unwrap(), a);
    let mut ab = a.to_vec();
    ab.extend_from_slice(&b);
    assert_eq!(compute_merkle_root(&[a, b]).unwrap(), dsha(&ab));
    // An odd level pairs its last node with itself.
    let mut cc = c.to_vec();
    cc.extend_from_slice(&c);
    let mut top = dsha(&ab).to_vec();
    top.extend_from_slice(&dsha(&cc));
    assert_eq!(compute_merkle_root(&[a, b, c]).unwrap(), dsha(&top));
}

#[test]
fn hashing_helpers() {
    assert_eq!(sha256d(b"abc"), dsha(b"abc"));
    let mut h = [0u8; 32];
    h[0] = 0x01;
    h[31] = 0xab;
    let s = hash_display(&h);
    assert!(s.starts_with("ab00"));
    assert!(s.ends_with("0001"));
    assert_eq!(s.len(), 64);
}

#[test]
fn undo_records_pair_by_checksum() {
    let (blk, rev) = fixture();
    let blocks = parse_block_file(&blk).unwrap();
    let undos = parse_undo_file(&rev).unwrap();
    assert_eq!(match_undo_records(&blocks, &undos), vec![Some(0)]);
    // A record with a wrong checksum pairs with no block.
    let mut bad = rev.clone();
    let n = bad.len();
    bad[n - 1] ^= 0xff;
    let undos_bad = parse_undo_file(&bad).unwrap();
    assert_eq!(match_undo_records(&blocks, &undos_bad), vec![None]);
}

fn analyse(with_undo: bool) -> sherlock::analyzer::block_analyzer::FileReport {
    let (blk, rev) = fixture();
    let blocks = parse_block_file(&blk).unwrap();
    let undos = parse_undo_file(&rev).unwrap();
    let pairs: Vec<(&ParsedBlock, Option<&BlockUndo>)> =
        vec![(&blocks[0], if with_undo { Some(&undos[0]) } else { None })];
    analyze_block_file("blk00000.dat", &pairs).unwrap()
}

#[test]
fn block_analysis_end_to_end() {
    let report = analyse(true);
    assert!(validate(&report).is_ok());
    assert_eq!(report.file, "blk00000.dat");
    assert_eq!(report.block_count, 1);
    assert_eq!(report.total_transactions_analyzed, 2);
    assert_eq!(report.flagged_transactions, 1);
    assert_eq!(report.heuristics_applied.len(), 9);
    // A round output rules out a self-transfer.
    assert_eq!(report.heuristic_findings, vec![1, 1, 0, 0, 0, 1, 0, 0, 0]);
    assert_eq!(report.classification_distribution, vec![1, 0, 0, 0, 0, 1]);
    assert_eq!(report.script_type_distribution.p2wpkh, 3);
    assert_eq!(report.script_type_distribution.total(), 3);

    let b = &report.blocks[0];
    assert_eq!(b.block_height, 123_456);
    assert_eq!(b.tx_count, 2);
    assert_eq!(b.timestamp, 1_700_000_000);
    assert_eq!(b.fee_samples.len(), 1);
    assert_eq!(b.fee_samples[0].fee_sats, 110_000_000 - 100_012_345);
    assert_eq!(b.fee_samples[0].vbytes, spender().len() as u64);

    let tx = &b.transactions[1];
    assert_eq!(tx.txid, display(&dsha(&spender())));
    assert_eq!(tx.classification, TxClassification::SimplePayment);
    let change = &tx.heuristics.iter().find(|(id, _)| id == "change_detection").unwrap().1;
    assert!(change.detected);
    assert!(matches!(change.extra[0], (ref k, ExtraValue::U64(1)) if k == "likely_change_index"));
    assert!(matches!(change.extra[1], (ref k, ExtraValue::Text(ref m)) if k == "method" && m == "round_number_payment"));

    let cb = &b.transactions[0];
    assert_eq!(cb.classification, TxClassification::Unknown);
    assert!(!cb.is_flagged());
    assert_eq!(cb.heuristics.len(), 9);

    // A simple payment is not notable.
    assert!(b.notable_transactions.is_empty());
}

#[test]
fn orphan_block_has_no_fees() {
    let report = analyse(false);
    let b = &report.blocks[0];
    assert_eq!(b.fee_samples[0].fee_sats, 0);
    assert_eq!(b.tx_count, 2);
    assert_eq!(b.transactions.len(), 2);
}

#[test]
fn orphan_block_skips_heuristics() {
    let report = analyse(false);
    assert!(validate(&report).is_ok());
    assert_eq!(report.flagged_transactions, 0);
    assert_eq!(report.heuristic_findings, vec![0; 9]);
    assert_eq!(report.classification_distribution, vec![0, 0, 0, 0, 0, 2]);
    let b = &report.blocks[0];
    assert_eq!(b.flagged_real, 0);
    assert!(b.notable_transactions.is_empty());
    let spender = &b.transactions[1];
    assert_eq!(spender.classification, TxClassification::Unknown);
    assert_eq!(spender.heuristics.len(), 9);
    assert!(spender.heuristics.iter().all(|(_, h)| !h.detected));
    assert!(!spender.is_flagged());
}

#[test]
fn empty_file_is_rejected() {
    let pairs: Vec<(&ParsedBlock, Option<&BlockUndo>)> = Vec::new();
    assert!(matches!(
        analyze_block_file("x", &pairs),
        Err(ChainError::InvalidField { field: "blocks", .. })
    ));
}

#[test]
fn undo_count_mismatch_is_rejected() {
    let (blk, _) = fixture();
    let blocks = parse_block_file(&blk).unwrap();
    let mut keyed = PREV.to_vec();
    keyed.push(0x00);
    let mut rev = file_record(&[0x00]);
    rev.extend_from_slice(&dsha(&keyed));
    let undos = parse_undo_file(&rev).unwrap();
    let pairs: Vec<(&ParsedBlock, Option<&BlockUndo>)> = vec![(&blocks[0], Some(&undos[0]))];
    assert!(matches!(analyze_block_file("x", &pairs), Err(ChainError::InvalidUndoData { .. })));
}

#[test]
fn merkle_root_ignores_a_repeated_last_hash() {
    let a = [0x01; 32];
    let b = [0x02; 32];
    let c = [0x03; 32];
    assert_eq!(compute_merkle_root(&[a, b, c]), compute_merkle_root(&[a, b, c, c]));
    assert_ne!(compute_merkle_root(&[a]), compute_merkle_root(&[a, a]));
}

#[test]
fn undo_record_goes_to_one_block_only() {
    let (blk, rev) = fixture();
    let mut blocks = parse_block_file(&blk).unwrap();
    blocks.extend(parse_block_file(&blk).unwrap());
    let undos = parse_undo_file(&rev).unwrap();
    assert_eq!(match_undo_records(&blocks, &undos), vec![Some(0), None]);
    let mut two = parse_undo_file(&rev).unwrap();
    two.extend(parse_undo_file(&rev).unwrap());
    assert_eq!(match_undo_records(&blocks, &two), vec![Some(0), Some(1)]);
}

#[test]
fn validation_errors_name_the_mismatch() {
    let mut r = analyse(true);
    r.block_count = 2;
    match validate(&r) {
        Err(ChainError::InvalidField { field, detail }) => {
            assert_eq!(field, "block_count");
            assert_eq!(detail, "block_count=2 but blocks.len()=1");
        }
        other => panic!("unexpected {:?}", other),
    }
    let mut r = analyse(true);
    r.flagged_transactions = 5;
    match validate(&r) {
        Err(ChainError::InvalidField { field, detail }) => {
            assert_eq!(field, "flagged_transactions");
            assert_eq!(detail, "file flagged=5 but Σ per-block flagged=1");
        }
        other => panic!("unexpected {:?}", other),
    }
    let mut r = analyse(true);
    r.blocks[0].transactions.clear();
    match validate(&r) {
        Err(ChainError::InvalidField { field, detail }) => {
            assert_eq!(field, "blocks[0].transactions");
            assert_eq!(detail, "len()=0 but tx_count=2");
        }
        other => panic!("unexpected {:?}", other),
    }
    let mut r = analyse(true);
    r.heuristics_applied.truncate(3);
    match validate(&r) {
        Err(ChainError::InvalidField { field, detail }) => {
            assert_eq!(field, "heuristics_applied");
            assert_eq!(detail, "only 3 heuristics, need >= 5");
        }
        other => panic!("unexpected {:?}", other),
    }
}

#[test]
fn every_transaction_gets_one_classification() {
    for with_undo in [true, false] {
        let report = analyse(with_undo);
        let total: u64 = report.classification_distribution.iter().sum();
        assert_eq!(total, report.total_transactions_analyzed);
        let per_block: u64 = report.blocks[0].classification_counts.iter().sum();
        assert_eq!(per_block, report.blocks[0].tx_count as u64);
    }
}

#[test]
fn bip34_push_longer_than_eight_bytes_is_rejected() {
    assert_eq!(decode_bip34_height(&[3, 0x40, 0xe2, 0x01]).unwrap(), 123_456);
    let mut long = vec![9u8];
    long.extend_from_slice(&[1; 9]);
    match decode_bip34_height(&long) {
        Err(ChainError::InvalidCoinbase { detail }) => {
            assert_eq!(detail, "BIP34 height push of 9 bytes exceeds 8")
        }
        other => panic!("unexpected {:?}", other.map(|_| ())),
    }
}

#[test]
fn markdown_report_of_the_fixture() {
    use_markdown();
}

fn use_markdown() {
    let report = analyse(true);
    let cell = |s: &str| FeeCells { min: s.to_owned(), median: s.to_owned(), mean: s.to_owned(), max: s.to_owned() };
    let md = markdown_report(&report, &vec![cell("1.00"), cell("2.00")], "50.0");
    assert!(md.starts_with(
        "# Sherlock Chain Analysis — `blk00000.dat`\n\n**File:** `blk00000.dat` | **Blocks:** 1 | **Total transactions:** 2\n\n## File-Level Summary\n\n"
    ));
    assert!(md.contains("| min_sat_vb | 1.00 |\n"));
    assert!(md.contains("| p2wpkh | 3 |\n| p2tr | 0 |\n"));
    assert!(md.contains("**Flagged transactions:** 1 / 2 (50.0%)\n\n"));
    assert!(md.contains("**Heuristics applied:** cioh, change_detection, consolidation"));
    assert!(md.contains("| cioh | 1 |\n| change_detection | 1 |\n"));
    assert!(md.contains("## Block 1 — Height 123456\n\n"));
    assert!(md.contains("| Timestamp | 1700000000 |\n| Transactions | 2 |\n| Flagged | 1 |\n\n"));
    assert!(md.contains("| 2.00 | 2.00 | 2.00 | 2.00 |\n\n"));
    assert!(md.contains("| Classification | Count |\n|---|---|\n| simple_payment | 1 |\n| unknown | 1 |\n\n"));
    assert!(!md.contains("Notable Transactions"));
    assert!(md.ends_with("Heuristics applied: 9. All values in satoshis unless noted.\n"));
}

#[test]
fn zero_padding_or_a_short_tail_is_ignored() {
    let (blk, _) = fixture();
    let plain = parse_block_file(&blk).unwrap();
    for pad in [vec![0u8; 64], vec![1u8, 2, 3, 4, 5]] {
        let mut padded = blk.clone();
        padded.extend_from_slice(&pad);
        let blocks = parse_block_file(&padded).unwrap();
        assert_eq!(blocks.len(), plain.len());
        assert_eq!(blocks[0].block_hash, plain[0].block_hash);
        assert_eq!(blocks[0].transactions, plain[0].transactions);
    }
}
