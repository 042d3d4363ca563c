use sherlock::io::xor_decoder::xor_decode;

#[test]
fn zero_key_is_identity() {
    let data = vec![0xde, 0xad, 0xbe, 0xef];
    assert_eq!(xor_decode(&data, &[0, 0, 0]), data);
}

#[test]
fn xor_round_trips() {
    let key = vec![0xab, 0xcd];
    let plain = vec![0x01, 0x02, 0x03, 0x04, 0x05];
    let enc = xor_decode(&plain, &key);
    let dec = xor_decode(&enc, &key);
    assert_eq!(dec, plain);
}

#[test]
fn empty_key_is_identity() {
    let data = vec![0x11, 0x22];
    assert_eq!(xor_decode(&data, &[]), data);
}

#[test]
fn key_repeats_cyclically() {
    let data = vec![0x00, 0x00, 0x00, 0x00, 0x00];
    assert_eq!(xor_decode(&data, &[0x01, 0x02]), vec![0x01, 0x02, 0x01, 0x02, 0x01]);
    assert_eq!(xor_decode(&[0xff, 0x0f], &[0xf0]), vec![0x0f, 0xff]);
}
