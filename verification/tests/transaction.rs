use sherlock::analyzer::fee_calculator::compute_weight;
use sherlock::errors::ChainError;
use sherlock::io::buffer_reader::BufferReader;
use sherlock::parser::transaction::{build_legacy_serialization, parse_tx, write_compact_size};

fn from_hex(s: &str) -> Vec<u8> {
    (0..s.len()).step_by(2).map(|i| u8::from_str_radix(&s[i..i + 2], 16).unwrap()).collect()
}

const TX_LEGACY_P2PKH: &str =
    "020000000111111111111111111111111111111111111111111111111111111111111111110000000000ffffffff\
     02b0040000000000001976a914010101010101010101010101010101010101010188ac\
     00000000000000000a6a08736f622d3230323600000000";

#[test]
fn parse_legacy_p2pkh_structure() {
    let raw = from_hex(TX_LEGACY_P2PKH);
    let tx = parse_tx(&raw).unwrap();

    assert!(!tx.is_segwit, "must be legacy");
    assert_eq!(tx.inputs.len(), 1);
    assert_eq!(tx.outputs.len(), 2);
    assert_eq!(tx.locktime, 0);
    assert_eq!(tx.version, 2);
    assert!(tx.inputs[0].witness.is_empty());
}

#[test]
fn parse_legacy_p2pkh_legacy_bytes_roundtrip() {
    let raw = from_hex(TX_LEGACY_P2PKH);
    let tx = parse_tx(&raw).unwrap();
    assert_eq!(tx.legacy_bytes, tx.full_bytes, "legacy tx: legacy_bytes must equal full wire bytes");
}

const TX_SEGWIT_P2WPKH_P2TR: &str =
    "0200000000010122222222222222222222222222222222222222222222222222222222222222220100000000\
     feffffff02102700000000000016001403030303030303030303030303030303030303038813000000000000\
     225120040404040404040404040404040404040404040404040404040404040404040402\
     471e5180f383a5dcf31ae239e5999f8e6bc8928cd7bbc6c47dc0c596703d009d141c49d1197302d0e4af7\
     dad5035654059faffed5bce60ffbe83a313b957168e894a497524e0a5b421b7934f06d9b55e5d766c1766\
     e4958d7fde1d6c81cdc0dd99e07d65ea8642d86b9000000000";

#[test]
fn parse_segwit_p2wpkh_p2tr_structure() {
    let raw = from_hex(TX_SEGWIT_P2WPKH_P2TR);
    let tx = parse_tx(&raw).unwrap();

    assert!(tx.is_segwit, "must be segwit");
    assert_eq!(tx.inputs.len(), 1);
    assert_eq!(tx.outputs.len(), 2);
    assert_eq!(tx.locktime, 0);
    assert_eq!(tx.inputs[0].witness.len(), 2, "p2wpkh witness must have 2 items (sig + pubkey)");
}

#[test]
fn parse_segwit_legacy_bytes_differ_from_full() {
    let raw = from_hex(TX_SEGWIT_P2WPKH_P2TR);
    let tx = parse_tx(&raw).unwrap();
    assert!(
        tx.legacy_bytes.len() < tx.full_bytes.len(),
        "legacy_bytes ({}) must be shorter than full_bytes ({}) for segwit",
        tx.legacy_bytes.len(),
        tx.full_bytes.len()
    );
}

const TX_PREVOUTS_UNORDERED: &str =
    "02000000021032547698badcfeefcdab89674523011032547698badcfeefcdab89674523010000000000\
     ffffffff00112233445566778899aabbccddeeffffeeddccbbaa998877665544332211000100000000\
     fdffffff02b80b0000000000001600142323232323232323232323232323232323232323\
     e803000000000000225120242424242424242424242424242424242424242424242424242424242424242400000000";

#[test]
fn parse_prevouts_unordered_inputs() {
    let raw = from_hex(TX_PREVOUTS_UNORDERED);
    let tx = parse_tx(&raw).unwrap();

    assert!(!tx.is_segwit);
    assert_eq!(tx.inputs.len(), 2);
    assert_eq!(tx.inputs[0].sequence, 0xffff_ffff, "input[0] sequence must be 0xffffffff");
    assert_eq!(tx.inputs[1].sequence, 0xffff_fffd, "input[1] sequence must be 0xfffffffd");
    assert_eq!(tx.outputs.len(), 2);
    assert_eq!(tx.locktime, 0);
}

const TX_SEGWIT_NESTED: &str =
    "02000000000101010101010101010101010101010101019f9f9f9f9f9f9f9f9f9f9f9f9f9f9f9f\
     00000000171600142727272727272727272727272727272727272727fdffffff02401f000000000000\
     1600142828282828282828282828282828282828282828e80300000000000017a9142929292929292929\
     29292929292929292929292987030048e28d0d6090024c26f086e70f9dc900a30cd42c9e8a2a82c35d\
     536b5c49a0fddf8ed12d368149842cfab087ad7d16704e3dd7be4e7dd068f52639f488fafb1873f1c5\
     af86eb5271ea218dd3f8159ec9b7ec002f9153262917c2a9cddf343ce4eb0b58865f975d2f2351fb00000000";

#[test]
fn parse_segwit_nested_empty_witness_item() {
    let raw = from_hex(TX_SEGWIT_NESTED);
    let tx = parse_tx(&raw).unwrap();

    assert!(tx.is_segwit);
    assert_eq!(tx.inputs.len(), 1);
    assert_eq!(tx.inputs[0].witness.len(), 3, "p2sh-p2wpkh witness has 3 items (empty + sig + pubkey)");
    assert_eq!(tx.inputs[0].witness[0].len(), 0, "first witness item must be empty (0 bytes)");
}

const TX_MULTI_INPUT_SEGWIT: &str =
    "02000000000102a1a1a1a1a1a1a1a1a1a1a1a1a1a1a1a1a1a1a1a1a1a1a1a1a1a1a1a1a1a1a1a1\
     0000000000feffffffb2b2b2b2b2b2b2b2b2b2b2b2b2b2b2b2b2b2b2b2b2b2b2b2b2b2b2b2b2b2b2b2\
     0200000000fdffffff0210270000000000001600141313131313131313131313131313131313131313\
     e02e00000000000022512014141414141414141414141414141414141414141414141414141414141414\
     140247eed60c73dec1a4307bb6ade00521a58737c9e184e5f42329a9d82f63456c886ade14624e2f58\
     2c43767fffc7d06a49772d53847b711e86cb86cb46d018d9363b01f417e074a55421688bc8d5d9d8ab\
     2ef6065ad8285a8faf92ca89371c9eb7478ec091bb36914b90440000000000";

#[test]
fn parse_multi_input_segwit_structure() {
    let raw = from_hex(TX_MULTI_INPUT_SEGWIT);
    let tx = parse_tx(&raw).unwrap();

    assert!(tx.is_segwit);
    assert_eq!(tx.inputs.len(), 2);
    assert_eq!(tx.outputs.len(), 2);
    assert_eq!(tx.inputs[0].witness.len(), 2);
    assert_eq!(tx.inputs[1].witness.len(), 0);
}

const TX_LEGACY_P2SH_P2WSH: &str =
    "01000000013333333333333333333333333333333333333333333333333333333333333333020000000151\
     ffffffff0250c300000000000017a914060606060606060606060606060606060606060687\
     409c000000000000220020070707070707070707070707070707070707070707070707070707070707070700000000";

#[test]
fn parse_legacy_p2sh_p2wsh_structure() {
    let raw = from_hex(TX_LEGACY_P2SH_P2WSH);
    let tx = parse_tx(&raw).unwrap();

    assert!(!tx.is_segwit);
    assert_eq!(tx.version, 1);
    assert_eq!(tx.inputs.len(), 1);
    assert_eq!(tx.outputs.len(), 2);
    assert_eq!(tx.locktime, 0);
}

const TX_MULTI_INPUT_LEGACY: &str =
    "0200000002aaaaaaaaaaaaaaaaaaaaaaaaaaaaaaaaaaaaaaaaaaaaaaaaaaaaaaaaaaaaaaaa0000000000\
     ffffffffbbbbbbbbbbbbbbbbbbbbbbbbbbbbbbbbbbbbbbbbbbbbbbbbbbbbbbbbbbbbbbbb0100000000\
     feffffff02b80b0000000000001976a9140f0f0f0f0f0f0f0f0f0f0f0f0f0f0f0f0f0f0f0f88ac\
     a00f000000000000160014101010101010101010101010101010101010101000000000";

#[test]
fn parse_multi_input_legacy_structure() {
    let raw = from_hex(TX_MULTI_INPUT_LEGACY);
    let tx = parse_tx(&raw).unwrap();

    assert!(!tx.is_segwit);
    assert_eq!(tx.inputs.len(), 2);
    assert_eq!(tx.outputs.len(), 2);
    assert_eq!(tx.locktime, 0);
    assert_eq!(tx.inputs[0].sequence, 0xffff_ffff);
    assert_eq!(tx.inputs[1].sequence, 0xffff_fffe);
}

// Further cases.

#[test]
fn segwit_legacy_bytes_match_stripped_form() {
    let raw = from_hex(TX_SEGWIT_P2WPKH_P2TR);
    let tx = parse_tx(&raw).unwrap();
    // The legacy form is the version, then everything from the input count
    // up to the witnesses, then the locktime.
    let body_len = tx.legacy_bytes.len() - 8;
    let mut expected = raw[0..4].to_vec();
    expected.extend_from_slice(&raw[6..6 + body_len]);
    expected.extend_from_slice(&raw[raw.len() - 4..]);
    assert_eq!(tx.legacy_bytes, expected);
    assert_eq!(tx.full_bytes.len(), raw.len());
}

#[test]
fn trailing_bytes_are_not_consumed() {
    let mut raw = from_hex(TX_LEGACY_P2PKH);
    let n = raw.len();
    raw.extend_from_slice(&[0xde, 0xad]);
    let tx = parse_tx(&raw).unwrap();
    assert_eq!(tx.full_bytes.len(), n);
}

#[test]
fn zero_inputs_is_rejected() {
    // version, SegWit marker and flag, an input count of zero.
    let raw = from_hex("02000000000100");
    assert!(matches!(parse_tx(&raw), Err(ChainError::InvalidField { field: "input_count", .. })));
}

#[test]
fn bad_segwit_flag_is_rejected() {
    let raw = from_hex("02000000000201");
    assert!(matches!(parse_tx(&raw), Err(ChainError::InvalidField { field: "segwit_flag", .. })));
}

#[test]
fn truncated_transaction_is_eof() {
    let raw = from_hex(TX_LEGACY_P2PKH);
    let short = &raw[..raw.len() - 2];
    assert!(matches!(parse_tx(short), Err(ChainError::UnexpectedEof { context: "u32_le" })));
    assert!(matches!(parse_tx(&raw[..3]), Err(ChainError::UnexpectedEof { context: "i32_le" })));
}

#[test]
fn compact_size_writer_encodings() {
    let mut out = Vec::new();
    write_compact_size(&mut out, 0xfc);
    write_compact_size(&mut out, 0xfd);
    write_compact_size(&mut out, 0x1_0000);
    write_compact_size(&mut out, 0x1_0000_0000);
    assert_eq!(
        out,
        vec![
            0xfc, 0xfd, 0xfd, 0x00, 0xfe, 0x00, 0x00, 0x01, 0x00, 0xff, 0x00, 0x00, 0x00, 0x00,
            0x01, 0x00, 0x00, 0x00,
        ]
    );
}

#[test]
fn legacy_serialization_of_parsed_parts() {
    let raw = from_hex(TX_MULTI_INPUT_LEGACY);
    let tx = parse_tx(&raw).unwrap();
    let again = build_legacy_serialization(tx.version, &tx.inputs, &tx.outputs, tx.locktime);
    assert_eq!(again, raw);
}

#[test]
fn compact_size_round_trips() {
    let values: &[u64] =
        &[0, 1, 0xfc, 0xfd, 0xffff, 0x1_0000, 0xffff_ffff, 0x1_0000_0000, u64::MAX];
    for &v in values {
        let mut out = Vec::new();
        write_compact_size(&mut out, v);
        let n = out.len();
        out.push(0xaa);
        let mut r = BufferReader::new(&out);
        assert_eq!(r.read_compact_size().unwrap(), v);
        assert_eq!(r.position(), n);
    }
}

#[test]
fn virtual_size_bounds() {
    let raw = from_hex(TX_LEGACY_P2PKH);
    let tx = parse_tx(&raw).unwrap();
    let w = compute_weight(&tx);
    assert_eq!(w.weight, 4 * raw.len() as u64);
    assert_eq!(w.vbytes, raw.len() as u64);

    let raw = from_hex(TX_SEGWIT_P2WPKH_P2TR);
    let tx = parse_tx(&raw).unwrap();
    let w = compute_weight(&tx);
    let base = tx.legacy_bytes.len() as u64;
    let total = tx.full_bytes.len() as u64;
    assert_eq!(w.weight, base * 3 + total);
    assert_eq!(w.vbytes, (base * 3 + total + 3) / 4);
    assert!(base <= w.vbytes && w.vbytes < total);
}
