use sherlock::analyzer::script_classifier::{
    classify_input, classify_output, decode_op_return_payload, disassemble, extract_last_push,
    op_return_protocol, opcode_name_owned, InputScriptType, OutputScriptType,
};

fn p2pkh() -> Vec<u8> {
    let mut s = vec![0x76, 0xa9, 0x14];
    s.extend_from_slice(&[0x11; 20]);
    s.extend_from_slice(&[0x88, 0xac]);
    s
}

#[test]
fn output_types_by_template() {
    assert_eq!(classify_output(&p2pkh()), OutputScriptType::P2PKH);
    let mut p2sh = vec![0xa9, 0x14];
    p2sh.extend_from_slice(&[0x22; 20]);
    p2sh.push(0x87);
    assert_eq!(classify_output(&p2sh), OutputScriptType::P2SH);
    let mut p2wpkh = vec![0x00, 0x14];
    p2wpkh.extend_from_slice(&[0x33; 20]);
    assert_eq!(classify_output(&p2wpkh), OutputScriptType::P2WPKH);
    let mut p2wsh = vec![0x00, 0x20];
    p2wsh.extend_from_slice(&[0x44; 32]);
    assert_eq!(classify_output(&p2wsh), OutputScriptType::P2WSH);
    let mut p2tr = vec![0x51, 0x20];
    p2tr.extend_from_slice(&[0x55; 32]);
    assert_eq!(classify_output(&p2tr), OutputScriptType::P2TR);
    assert_eq!(classify_output(&[0x6a, 0x01, 0x00]), OutputScriptType::OpReturn);
    assert_eq!(classify_output(&[]), OutputScriptType::Unknown);
    assert_eq!(classify_output(&[0x51]), OutputScriptType::Unknown);
    assert_eq!(OutputScriptType::OpReturn.as_str(), "op_return");
    assert_eq!(InputScriptType::P2SHP2WPKH.as_str(), "p2sh-p2wpkh");
}

#[test]
fn input_types_from_spent_script_and_witness() {
    let mut p2tr = vec![0x51, 0x20];
    p2tr.extend_from_slice(&[0x55; 32]);
    let sig = [0x99u8; 64];
    assert_eq!(classify_input(&p2tr, &[], &[&sig]), InputScriptType::P2TRKeypath);
    let leaf = [0x51u8];
    let control = [0xc1u8; 33];
    assert_eq!(classify_input(&p2tr, &[], &[&sig, &leaf, &control]), InputScriptType::P2TRScriptpath);
    // An annex (0x50 ...) after a keypath signature is stripped.
    let annex = [0x50u8, 0x01];
    assert_eq!(classify_input(&p2tr, &[], &[&sig, &annex]), InputScriptType::P2TRKeypath);
    assert_eq!(classify_input(&p2tr, &[], &[]), InputScriptType::Unknown);

    let mut p2sh = vec![0xa9, 0x14];
    p2sh.extend_from_slice(&[0x22; 20]);
    p2sh.push(0x87);
    let mut redeem = vec![0x16, 0x00, 0x14];
    redeem.extend_from_slice(&[0x33; 20]);
    assert_eq!(classify_input(&p2sh, &redeem, &[]), InputScriptType::P2SHP2WPKH);
    let mut redeem_wsh = vec![0x22, 0x00, 0x20];
    redeem_wsh.extend_from_slice(&[0x44; 32]);
    assert_eq!(classify_input(&p2sh, &redeem_wsh, &[]), InputScriptType::P2SHP2WSH);
    assert_eq!(classify_input(&p2sh, &[0x51], &[]), InputScriptType::Unknown);
    assert_eq!(classify_input(&p2pkh(), &[], &[]), InputScriptType::P2PKH);
}

#[test]
fn last_push_and_op_return_payload() {
    assert_eq!(extract_last_push(&[0x02, 0xaa, 0xbb, 0x01, 0xcc]), Some(&[0xcc][..]));
    assert_eq!(extract_last_push(&[0x4c, 0x02, 0xaa, 0xbb]), Some(&[0xaa, 0xbb][..]));
    assert_eq!(extract_last_push(&[0x00]), Some(&[][..]));
    assert_eq!(extract_last_push(&[0x02, 0xaa]), None);
    assert_eq!(extract_last_push(&[0x01, 0xaa, 0x76]), None);
    assert_eq!(extract_last_push(&[]), None);

    let script = [0x6a, 0x04, 0x6f, 0x6d, 0x6e, 0x69, 0x4c, 0x01, 0x07];
    let payload = decode_op_return_payload(&script);
    assert_eq!(payload, vec![0x6f, 0x6d, 0x6e, 0x69, 0x07]);
    assert_eq!(op_return_protocol(&payload), "omni");
    assert_eq!(op_return_protocol(&[0x01, 0x09, 0xf9, 0x11, 0x02, 0x00]), "opentimestamps");
    assert_eq!(op_return_protocol(&[0x01, 0x09]), "unknown");
    assert!(decode_op_return_payload(&[0x51, 0x01, 0x00]).is_empty());
    // A truncated push ends the payload.
    assert_eq!(decode_op_return_payload(&[0x6a, 0x01, 0xaa, 0x05, 0xbb]), vec![0xaa]);
}

#[test]
fn disassembly_tokens() {
    assert_eq!(disassemble(&[]), "");
    assert_eq!(
        disassemble(&p2pkh()),
        "OP_DUP OP_HASH160 OP_PUSHBYTES_20 1111111111111111111111111111111111111111 OP_EQUALVERIFY OP_CHECKSIG"
    );
    assert_eq!(disassemble(&[0x00, 0x4c, 0x02, 0xab, 0xcd]), "OP_0 OP_PUSHDATA1 abcd");
    // A truncated push names itself and the next byte is read as an opcode.
    assert_eq!(disassemble(&[0x05, 0x01]), "OP_PUSHBYTES_5 OP_PUSHBYTES_1");
    assert_eq!(disassemble(&[0x51, 0x4c]), "OP_1");
    assert_eq!(disassemble(&[0xbb]), "OP_UNKNOWN_0xbb");
    assert_eq!(opcode_name_owned(0xac), "OP_CHECKSIG");
    assert_eq!(opcode_name_owned(0x01), "OP_UNKNOWN_0x01");
}

#[test]
fn op_return_protocols_by_prefix() {
    assert_eq!(op_return_protocol(&[0x4f, 0x54, 0x53, 0x00, 0x01]), "opentimestamps");
    assert_eq!(op_return_protocol(&[0x52, 0x53, 0x4b, 0x42, 0x00]), "rsk");
    assert_eq!(op_return_protocol(&[0x52, 0x53, 0x4b]), "unknown");
}
