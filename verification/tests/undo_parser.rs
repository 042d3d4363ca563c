use sherlock::errors::ChainError;
use sherlock::parser::bignum::decompress_pubkey;
use sherlock::parser::undo_parser::{amount_fits, decompress_amount, parse_undo_file, MAINNET_MAGIC};

#[test]
fn decompress_amount_zero() {
    assert_eq!(decompress_amount(0), Some(0));
}

#[test]
fn decompress_amount_known_values() {
    let cases: &[(u64, u64)] = &[
        (0, 0),
        (1, 1),
        (2, 10),
        (3, 100),
        (4, 1_000),
        (5, 10_000),
        (6, 100_000),
        (7, 1_000_000),
        (50, 5_000_000_000),
        (21_000_000, 2_100_000_000_000_000),
    ];
    for &(compressed, expected) in cases {
        assert_eq!(
            decompress_amount(compressed),
            Some(expected),
            "decompress({}) should be {}",
            compressed,
            expected
        );
    }
}

#[test]
fn secp256k1_decompress_genesis_pubkey() {
    let x: [u8; 32] = [
        0x67, 0x8a, 0xfd, 0xb0, 0xfe, 0x55, 0x48, 0x27, 0x19, 0x67, 0xf1, 0xa6, 0x71, 0x30, 0xb7,
        0x10, 0x5c, 0xd6, 0xa8, 0x28, 0xe0, 0x39, 0x09, 0xa6, 0x79, 0x62, 0xe0, 0xea, 0x1f, 0x61,
        0xde, 0xb6,
    ];
    let result = decompress_pubkey(&x, 1);
    assert!(result.is_ok(), "decompress failed: {:?}", result.err());
    let pk = result.unwrap();
    assert_eq!(pk[0], 0x04);
    assert_eq!(&pk[1..33], &x);
}

// Further cases.

#[test]
fn genesis_pubkey_y_coordinate() {
    // The uncompressed genesis coinbase key is 04 678afdb0...1f61deb6 49f6bc3f...0b8d578a4c702b6bf11d5f.
    let x: [u8; 32] = [
        0x67, 0x8a, 0xfd, 0xb0, 0xfe, 0x55, 0x48, 0x27, 0x19, 0x67, 0xf1, 0xa6, 0x71, 0x30, 0xb7,
        0x10, 0x5c, 0xd6, 0xa8, 0x28, 0xe0, 0x39, 0x09, 0xa6, 0x79, 0x62, 0xe0, 0xea, 0x1f, 0x61,
        0xde, 0xb6,
    ];
    let y: [u8; 32] = [
        0x49, 0xf6, 0xbc, 0x3f, 0x4c, 0xef, 0x38, 0xc4, 0xf3, 0x55, 0x04, 0xe5, 0x1e, 0xc1, 0x12,
        0xde, 0x5c, 0x38, 0x4d, 0xf7, 0xba, 0x0b, 0x8d, 0x57, 0x8a, 0x4c, 0x70, 0x2b, 0x6b, 0xf1,
        0x1d, 0x5f,
    ];
    let pk = decompress_pubkey(&x, 1).unwrap();
    assert_eq!(&pk[33..65], &y);
    // The other parity gives p - y, which is even.
    let other = decompress_pubkey(&x, 0).unwrap();
    assert_eq!(other[64] & 1, 0);
    assert_ne!(&other[33..65], &y);
}

#[test]
fn amount_overflow_is_detected() {
    assert!(amount_fits(21_000_000));
    // x - 1 = 10 * z + 9 with a huge z decompresses past u64::MAX.
    assert!(!amount_fits(u64::MAX));
    assert_eq!(decompress_amount(u64::MAX), None);
}

fn record(undo: &[u8]) -> Vec<u8> {
    let mut out = MAINNET_MAGIC.to_le_bytes().to_vec();
    out.extend_from_slice(&(undo.len() as u32).to_le_bytes());
    out.extend_from_slice(undo);
    out.extend_from_slice(&[0x5a; 32]);
    out
}

#[test]
fn undo_file_with_one_p2pkh_coin() {
    // One non-coinbase tx with one coin: height*2 = 0x02, coinbase flag 0,
    // amount 50 (5_000_000_000 sats), nSize 0 (P2PKH) and a 20-byte hash.
    let mut undo = vec![0x01, 0x01, 0x02, 0x00, 50, 0x00];
    undo.extend_from_slice(&[0x11; 20]);
    let mut data = record(&undo);
    data.extend_from_slice(&[0, 0, 0, 0, 0, 0, 0, 0]);
    let blocks = parse_undo_file(&data).unwrap();
    assert_eq!(blocks.len(), 1);
    assert_eq!(blocks[0].raw_bytes, undo);
    assert_eq!(blocks[0].checksum, [0x5a; 32]);
    assert_eq!(blocks[0].prevouts.len(), 1);
    let p = &blocks[0].prevouts[0][0];
    assert_eq!(p.value_sats, 5_000_000_000);
    let mut script = vec![0x76, 0xa9, 0x14];
    script.extend_from_slice(&[0x11; 20]);
    script.extend_from_slice(&[0x88, 0xac]);
    assert_eq!(p.script_pubkey, script);
    assert_eq!(p.txid, [0u8; 32]);
    assert_eq!(p.vout, 0);
}

#[test]
fn undo_file_raw_script_and_p2sh() {
    // Two coins: a P2SH one (nSize 1), and a raw 3-byte script (nSize 9).
    let mut undo = vec![0x01, 0x02, 0x04, 0x00, 0x01, 0x01];
    undo.extend_from_slice(&[0x22; 20]);
    undo.extend_from_slice(&[0x04, 0x01, 0x02, 0x09, 0x51, 0x52, 0x53]);
    let blocks = parse_undo_file(&record(&undo)).unwrap();
    let coins = &blocks[0].prevouts[0];
    assert_eq!(coins.len(), 2);
    let mut p2sh = vec![0xa9, 0x14];
    p2sh.extend_from_slice(&[0x22; 20]);
    p2sh.push(0x87);
    assert_eq!(coins[0].script_pubkey, p2sh);
    assert_eq!(coins[0].value_sats, 1);
    assert_eq!(coins[1].script_pubkey, vec![0x51, 0x52, 0x53]);
    assert_eq!(coins[1].value_sats, 10);
}

#[test]
fn undo_file_errors() {
    let mut bad = record(&[0x00]);
    bad[0] = 0x00;
    bad[1] = 0x11;
    assert!(matches!(
        parse_undo_file(&bad),
        Err(ChainError::InvalidMagic { expected: 0xD9B4BEF9, got: 0xD9B41100 })
    ));
    let mut short = record(&[0x00]);
    short.truncate(short.len() - 1);
    assert!(matches!(parse_undo_file(&short), Err(ChainError::UnexpectedEof { context: "undo_size" })));
    // A coin whose amount (compressed 10^13 + 10) does not fit in a u64.
    let undo = vec![0x01, 0x01, 0x02, 0x00, 0x81, 0xa2, 0x83, 0xf2, 0xc9, 0xbf, 0x0a, 0x00];
    assert!(matches!(parse_undo_file(&record(&undo)), Err(ChainError::InvalidUndoData { .. })));
    // A truncated coin.
    assert!(matches!(
        parse_undo_file(&record(&[0x01, 0x01, 0x02])),
        Err(ChainError::UnexpectedEof { context: "u8" })
    ));
}

#[test]
fn undo_file_stops_at_zero_magic_or_short_tail() {
    assert_eq!(parse_undo_file(&[]).unwrap().len(), 0);
    assert_eq!(parse_undo_file(&[1, 2, 3, 4, 5, 6, 7]).unwrap().len(), 0);
    let mut data = record(&[0x00]);
    data.extend_from_slice(&[0; 12]);
    let blocks = parse_undo_file(&data).unwrap();
    assert_eq!(blocks.len(), 1);
    assert_eq!(blocks[0].prevouts.len(), 0);
}

#[test]
fn undo_file_multibyte_varints() {
    // Height 840000 (code 1680000 = e5 c4 00), amounts 123456789 and the
    // whole supply (compressed 1111111101 = 83 90 e7 ea 3d and
    // 21000000 = 89 80 dd 40), and a raw script of 200 bytes (nSize 206 = 80 4e).
    let mut undo = vec![0x01, 0x02];
    undo.extend_from_slice(&[0xe5, 0xc4, 0x00, 0x00, 0x83, 0x90, 0xe7, 0xea, 0x3d, 0x00]);
    undo.extend_from_slice(&[0x33; 20]);
    undo.extend_from_slice(&[0xe5, 0xc4, 0x00, 0x00, 0x89, 0x80, 0xdd, 0x40, 0x80, 0x4e]);
    undo.extend_from_slice(&[0x6a; 200]);
    let blocks = parse_undo_file(&record(&undo)).unwrap();
    let coins = &blocks[0].prevouts[0];
    assert_eq!(coins.len(), 2);
    assert_eq!(coins[0].value_sats, 123_456_789);
    assert_eq!(coins[0].script_pubkey.len(), 25);
    assert_eq!(coins[1].value_sats, 2_100_000_000_000_000);
    assert_eq!(coins[1].script_pubkey, vec![0x6a; 200]);
}

#[test]
fn compressed_amounts_decompress_back() {
    // CompressAmount of these values, as Bitcoin Core computes it.
    let cases: &[(u64, u64)] = &[(123_456_789, 1_111_111_101), (546, 4_911), (2_100_000_000_000_000, 21_000_000)];
    for &(amount, compressed) in cases {
        assert_eq!(decompress_amount(compressed), Some(amount));
    }
}
