//! Script classification, push-data extraction and disassembly.

use vstd::prelude::*;

use crate::io::buffer_reader::le_value;
use crate::text::{decimal, spec_decimal};
use crate::types::{hex_encode, spec_hex};

verus! {

/// Output script type classification per Bitcoin Core patterns.
#[derive(Debug, Clone, Copy, PartialEq, Eq, Structural)]
pub enum OutputScriptType {
    P2PKH,
    P2SH,
    P2WPKH,
    P2WSH,
    P2TR,
    OpReturn,
    Unknown,
}

/// The schema name of an output script type.
pub open spec fn spec_output_type_str(t: OutputScriptType) -> Seq<char> {
    match t {
        OutputScriptType::P2PKH => "p2pkh"@,
        OutputScriptType::P2SH => "p2sh"@,
        OutputScriptType::P2WPKH => "p2wpkh"@,
        OutputScriptType::P2WSH => "p2wsh"@,
        OutputScriptType::P2TR => "p2tr"@,
        OutputScriptType::OpReturn => "op_return"@,
        OutputScriptType::Unknown => "unknown"@,
    }
}

impl OutputScriptType {
    pub fn as_str(&self) -> (s: &'static str)
        ensures
            s@ == spec_output_type_str(*self),
    {
        match self {
            Self::P2PKH => "p2pkh",
            Self::P2SH => "p2sh",
            Self::P2WPKH => "p2wpkh",
            Self::P2WSH => "p2wsh",
            Self::P2TR => "p2tr",
            Self::OpReturn => "op_return",
            Self::Unknown => "unknown",
        }
    }
}

/// Input spend type classification.
#[derive(Debug, Clone, Copy, PartialEq, Eq, Structural)]
pub enum InputScriptType {
    P2PKH,
    P2SHP2WPKH,
    P2SHP2WSH,
    P2WPKH,
    P2WSH,
    P2TRKeypath,
    P2TRScriptpath,
    Unknown,
}

/// The schema name of an input spend type.
pub open spec fn spec_input_type_str(t: InputScriptType) -> Seq<char> {
    match t {
        InputScriptType::P2PKH => "p2pkh"@,
        InputScriptType::P2SHP2WPKH => "p2sh-p2wpkh"@,
        InputScriptType::P2SHP2WSH => "p2sh-p2wsh"@,
        InputScriptType::P2WPKH => "p2wpkh"@,
        InputScriptType::P2WSH => "p2wsh"@,
        InputScriptType::P2TRKeypath => "p2tr_keypath"@,
        InputScriptType::P2TRScriptpath => "p2tr_scriptpath"@,
        InputScriptType::Unknown => "unknown"@,
    }
}

impl InputScriptType {
    pub fn as_str(&self) -> (s: &'static str)
        ensures
            s@ == spec_input_type_str(*self),
    {
        match self {
            Self::P2PKH => "p2pkh",
            Self::P2SHP2WPKH => "p2sh-p2wpkh",
            Self::P2SHP2WSH => "p2sh-p2wsh",
            Self::P2WPKH => "p2wpkh",
            Self::P2WSH => "p2wsh",
            Self::P2TRKeypath => "p2tr_keypath",
            Self::P2TRScriptpath => "p2tr_scriptpath",
            Self::Unknown => "unknown",
        }
    }
}

/// The type of a scriptPubKey, by its byte pattern.
pub open spec fn spec_classify_output(s: Seq<u8>) -> OutputScriptType {
    if s.len() == 25 && s[0] == 0x76 && s[1] == 0xa9 && s[2] == 0x14 && s[23] == 0x88 && s[24]
        == 0xac {
        OutputScriptType::P2PKH
    } else if s.len() == 23 && s[0] == 0xa9 && s[1] == 0x14 && s[22] == 0x87 {
        OutputScriptType::P2SH
    } else if s.len() == 22 && s[0] == 0x00 && s[1] == 0x14 {
        OutputScriptType::P2WPKH
    } else if s.len() == 34 && s[0] == 0x00 && s[1] == 0x20 {
        OutputScriptType::P2WSH
    } else if s.len() == 34 && s[0] == 0x51 && s[1] == 0x20 {
        OutputScriptType::P2TR
    } else if s.len() > 0 && s[0] == 0x6a {
        OutputScriptType::OpReturn
    } else {
        OutputScriptType::Unknown
    }
}

/// Classify a scriptPubKey by its byte pattern.
pub fn classify_output(script: &[u8]) -> (t: OutputScriptType)
    ensures
        t == spec_classify_output(script@),
{
    let n = script.len();
    if n == 25 && script[0] == 0x76 && script[1] == 0xa9 && script[2] == 0x14 && script[23] == 0x88
        && script[24] == 0xac {
        OutputScriptType::P2PKH
    } else if n == 23 && script[0] == 0xa9 && script[1] == 0x14 && script[22] == 0x87 {
        OutputScriptType::P2SH
    } else if n == 22 && script[0] == 0x00 && script[1] == 0x14 {
        OutputScriptType::P2WPKH
    } else if n == 34 && script[0] == 0x00 && script[1] == 0x20 {
        OutputScriptType::P2WSH
    } else if n == 34 && script[0] == 0x51 && script[1] == 0x20 {
        OutputScriptType::P2TR
    } else if n > 0 && script[0] == 0x6a {
        OutputScriptType::OpReturn
    } else {
        OutputScriptType::Unknown
    }
}

// ─── Push opcodes ────────────────────────────────────────────────────────────

/// What the opcode at a position of a script is: no data push, a push whose
/// length or data runs past the end, or a push of the bytes `start..end`.
#[derive(Clone, Copy)]
pub enum PushSpan {
    NotPush,
    Truncated,
    Data(usize, usize),
}

/// The span of the data push (opcodes `0x01..=0x4e`) at position `i`.
/// `OP_0` and every other opcode count as no data push here.
pub open spec fn spec_push_span(s: Seq<u8>, i: int) -> PushSpan {
    let op = s[i];
    let j = i + 1;
    if 0x01 <= op <= 0x4b {
        if j + op > s.len() {
            PushSpan::Truncated
        } else {
            PushSpan::Data(j as usize, (j + op) as usize)
        }
    } else if op == 0x4c {
        if j >= s.len() {
            PushSpan::Truncated
        } else if j + 1 + s[j] > s.len() {
            PushSpan::Truncated
        } else {
            PushSpan::Data((j + 1) as usize, (j + 1 + s[j]) as usize)
        }
    } else if op == 0x4d {
        if j + 2 > s.len() {
            PushSpan::Truncated
        } else if j + 2 + le_value(s.subrange(j, j + 2)) > s.len() {
            PushSpan::Truncated
        } else {
            PushSpan::Data((j + 2) as usize, (j + 2 + le_value(s.subrange(j, j + 2))) as usize)
        }
    } else if op == 0x4e {
        if j + 4 > s.len() {
            PushSpan::Truncated
        } else if j + 4 + le_value(s.subrange(j, j + 4)) > s.len() {
            PushSpan::Truncated
        } else {
            PushSpan::Data((j + 4) as usize, (j + 4 + le_value(s.subrange(j, j + 4))) as usize)
        }
    } else {
        PushSpan::NotPush
    }
}

/// The span of the data push at position `i` of `script`.
fn push_span(script: &[u8], i: usize) -> (p: PushSpan)
    requires
        i < script@.len(),
    ensures
        p == spec_push_span(script@, i as int),
        p matches PushSpan::Data(a, b) ==> i < a <= b <= script@.len(),
{
    let s = script;
    let len = s.len();
    let op = s[i];
    let j = i + 1;
    if 0x01 <= op && op <= 0x4b {
        let n = op as usize;
        if n > len - j {
            PushSpan::Truncated
        } else {
            PushSpan::Data(j, j + n)
        }
    } else if op == 0x4c {
        if j >= len {
            PushSpan::Truncated
        } else {
            let n = s[j] as usize;
            if n > len - (j + 1) {
                PushSpan::Truncated
            } else {
                PushSpan::Data(j + 1, j + 1 + n)
            }
        }
    } else if op == 0x4d {
        if 2 > len - j {
            PushSpan::Truncated
        } else {
            proof {
                reveal_with_fuel(le_value, 3);
            }
            let n = s[j] as usize + (s[j + 1] as usize) * 256;
            if n > len - (j + 2) {
                PushSpan::Truncated
            } else {
                PushSpan::Data(j + 2, j + 2 + n)
            }
        }
    } else if op == 0x4e {
        if 4 > len - j {
            PushSpan::Truncated
        } else {
            proof {
                reveal_with_fuel(le_value, 5);
            }
            let n: u64 = s[j] as u64 + (s[j + 1] as u64) * 0x100 + (s[j + 2] as u64) * 0x10000 + (
            s[j + 3] as u64) * 0x1000000;
            if n > (len - (j + 4)) as u64 {
                PushSpan::Truncated
            } else {
                PushSpan::Data(j + 4, j + 4 + n as usize)
            }
        }
    } else {
        PushSpan::NotPush
    }
}

/// The data of the last push in `s[i..]`, given the last one before `i`;
/// `None` when a push runs past the end or the script ends with a
/// non-push opcode. `OP_0` pushes empty data.
pub open spec fn spec_last_push_from(s: Seq<u8>, i: int, last: Option<Seq<u8>>) -> Option<Seq<u8>>
    decreases s.len() - i,
{
    if i < 0 || i >= s.len() {
        last
    } else if s[i] == 0 {
        spec_last_push_from(s, i + 1, Some(seq![]))
    } else {
        match spec_push_span(s, i) {
            PushSpan::Truncated => None,
            PushSpan::Data(a, b) => if i < a <= b {
                spec_last_push_from(s, b as int, Some(s.subrange(a as int, b as int)))
            } else {
                None
            },
            PushSpan::NotPush => spec_last_push_from(s, i + 1, None),
        }
    }
}

/// The data pushed by the last opcode of a script.
pub open spec fn spec_last_push(s: Seq<u8>) -> Option<Seq<u8>> {
    spec_last_push_from(s, 0, None)
}

/// Extract the data bytes pushed by the last opcode in `script`.
/// Returns None if the script is empty, ends with a non-data-push opcode, or
/// holds a push that runs past its end.
pub fn extract_last_push(script: &[u8]) -> (res: Option<&[u8]>)
    ensures
        res matches Some(d) ==> spec_last_push(script@) == Some(d@),
        res is None ==> spec_last_push(script@) is None,
{
    let mut i: usize = 0;
    let mut last: Option<&[u8]> = None;
    while i < script.len()
        invariant
            i <= script@.len(),
            spec_last_push_from(script@, i as int, match last { Some(d) => Some(d@), None => None })
                == spec_last_push(script@),
        decreases script@.len() - i,
    {
        if script[i] == 0 {
            let empty = vstd::slice::slice_subrange(script, 0, 0);
            proof {
                assert(empty@ =~= Seq::<u8>::empty());
            }
            last = Some(empty);
            i = i + 1;
        } else {
            match push_span(script, i) {
                PushSpan::Truncated => {
                    return None;
                },
                PushSpan::Data(a, b) => {
                    last = Some(vstd::slice::slice_subrange(script, a, b));
                    i = b;
                },
                PushSpan::NotPush => {
                    last = None;
                    i = i + 1;
                },
            }
        }
    }
    match last {
        Some(d) => Some(d),
        None => None,
    }
}

/// The bytes of every data push after the leading OP_RETURN of `s`, from
/// position `i` on, appended to `acc`; a push that runs past the end stops
/// the scan, and non-push opcodes are skipped.
pub open spec fn spec_op_return_from(s: Seq<u8>, i: int, acc: Seq<u8>) -> Seq<u8>
    decreases s.len() - i,
{
    if i < 0 || i >= s.len() {
        acc
    } else if s[i] == 0 {
        spec_op_return_from(s, i + 1, acc)
    } else {
        match spec_push_span(s, i) {
            PushSpan::Truncated => acc,
            PushSpan::Data(a, b) => if i < a <= b {
                spec_op_return_from(s, b as int, acc + s.subrange(a as int, b as int))
            } else {
                acc
            },
            PushSpan::NotPush => spec_op_return_from(s, i + 1, acc),
        }
    }
}

/// The payload of an OP_RETURN script: empty unless the script starts with
/// `0x6a`; otherwise every data push after it, concatenated.
pub open spec fn spec_op_return_payload(s: Seq<u8>) -> Seq<u8> {
    if s.len() == 0 || s[0] != 0x6a {
        seq![]
    } else {
        spec_op_return_from(s, 1, seq![])
    }
}

/// Decode the payload of an OP_RETURN script.
/// Concatenates all data-push bytes after the OP_RETURN opcode.
pub fn decode_op_return_payload(script: &[u8]) -> (out: Vec<u8>)
    ensures
        out@ == spec_op_return_payload(script@),
{
    let mut out: Vec<u8> = Vec::new();
    if script.len() == 0 || script[0] != 0x6a {
        proof {
            assert(out@ =~= spec_op_return_payload(script@));
        }
        return out;
    }
    let mut i: usize = 1;
    while i < script.len()
        invariant
            1 <= i <= script@.len(),
            script@.len() > 0 && script@[0] == 0x6a,
            spec_op_return_from(script@, i as int, out@) == spec_op_return_payload(script@),
        ensures
            spec_op_return_from(script@, i as int, out@) == out@,
            spec_op_return_from(script@, i as int, out@) == spec_op_return_payload(script@),
        decreases script@.len() - i,
    {
        if script[i] == 0 {
            i = i + 1;
        } else {
            match push_span(script, i) {
                PushSpan::Truncated => {
                    break;
                },
                PushSpan::Data(a, b) => {
                    let data = vstd::slice::slice_subrange(script, a, b);
                    crate::parser::transaction::push_bytes(&mut out, data);
                    i = b;
                },
                PushSpan::NotPush => {
                    i = i + 1;
                },
            }
        }
    }
    out
}

/// The protocol an OP_RETURN payload announces by its prefix: Omni Layer
/// (`6f6d6e69`, "omni"), OpenTimestamps (`4f545300`, "OTS\0", or
/// `0109f91102`), the RSK bridge (`52534b42`, "RSKB"); "unknown" otherwise.
pub open spec fn spec_op_return_protocol(d: Seq<u8>) -> Seq<char> {
    if d.len() >= 4 && d[0] == 0x6f && d[1] == 0x6d && d[2] == 0x6e && d[3] == 0x69 {
        "omni"@
    } else if d.len() >= 4 && d[0] == 0x4f && d[1] == 0x54 && d[2] == 0x53 && d[3] == 0x00 {
        "opentimestamps"@
    } else if d.len() >= 5 && d[0] == 0x01 && d[1] == 0x09 && d[2] == 0xf9 && d[3] == 0x11 && d[4]
        == 0x02 {
        "opentimestamps"@
    } else if d.len() >= 4 && d[0] == 0x52 && d[1] == 0x53 && d[2] == 0x4b && d[3] == 0x42 {
        "rsk"@
    } else {
        "unknown"@
    }
}

/// Detect the OP_RETURN protocol from the decoded payload bytes.
pub fn op_return_protocol(data: &[u8]) -> (p: &'static str)
    ensures
        p@ == spec_op_return_protocol(data@),
{
    let n = data.len();
    if n >= 4 && data[0] == 0x6f && data[1] == 0x6d && data[2] == 0x6e && data[3] == 0x69 {
        "omni"
    } else if n >= 4 && data[0] == 0x4f && data[1] == 0x54 && data[2] == 0x53 && data[3] == 0x00 {
        "opentimestamps"
    } else if n >= 5 && data[0] == 0x01 && data[1] == 0x09 && data[2] == 0xf9 && data[3] == 0x11
        && data[4] == 0x02 {
        "opentimestamps"
    } else if n >= 4 && data[0] == 0x52 && data[1] == 0x53 && data[2] == 0x4b && data[3] == 0x42 {
        "rsk"
    } else {
        "unknown"
    }
}

// ─── Input classification ────────────────────────────────────────────────────

/// The witness without its annex: the last item is dropped when there are at
/// least two items and it starts with `0x50` (BIP341).
pub open spec fn spec_strip_annex(w: Seq<Seq<u8>>) -> Seq<Seq<u8>> {
    if w.len() >= 2 && w.last().len() > 0 && w.last()[0] == 0x50 {
        w.drop_last()
    } else {
        w
    }
}

/// The spend type of a Taproot input from its witness.
pub open spec fn spec_classify_p2tr(w: Seq<Seq<u8>>) -> InputScriptType {
    let eff = spec_strip_annex(w);
    if eff.len() == 1 && (eff[0].len() == 64 || eff[0].len() == 65) {
        InputScriptType::P2TRKeypath
    } else if eff.len() >= 2 {
        let control = eff.last();
        if control.len() > 0 && (control[0] & 0xfe) == 0xc0 {
            InputScriptType::P2TRScriptpath
        } else {
            InputScriptType::P2TRKeypath
        }
    } else {
        InputScriptType::Unknown
    }
}

fn classify_p2tr_input(witness: &[&[u8]]) -> (t: InputScriptType)
    ensures
        t == spec_classify_p2tr(crate::types::witness_view(witness@)),
{
    let ghost w = crate::types::witness_view(witness@);
    let n = witness.len();
    let strip = n >= 2 && witness[n - 1].len() > 0 && witness[n - 1][0] == 0x50;
    let eff_len = if strip { n - 1 } else { n };
    proof {
        assert(spec_strip_annex(w).len() == eff_len);
        assert(forall|k: int| 0 <= k < eff_len ==> spec_strip_annex(w)[k] == witness@[k]@);
    }
    if eff_len == 1 && (witness[0].len() == 64 || witness[0].len() == 65) {
        InputScriptType::P2TRKeypath
    } else if eff_len >= 2 {
        let control = witness[eff_len - 1];
        if control.len() > 0 && (control[0] & 0xfe) == 0xc0 {
            InputScriptType::P2TRScriptpath
        } else {
            InputScriptType::P2TRKeypath
        }
    } else {
        InputScriptType::Unknown
    }
}

/// The spend type of a P2SH input: its redeemScript (the last push of the
/// scriptSig) decides between the wrapped SegWit templates.
pub open spec fn spec_classify_p2sh(script_sig: Seq<u8>) -> InputScriptType {
    match spec_last_push(script_sig) {
        None => InputScriptType::Unknown,
        Some(r) => if r.len() == 22 && r[0] == 0x00 && r[1] == 0x14 {
            InputScriptType::P2SHP2WPKH
        } else if r.len() == 34 && r[0] == 0x00 && r[1] == 0x20 {
            InputScriptType::P2SHP2WSH
        } else {
            InputScriptType::Unknown
        },
    }
}

fn classify_p2sh_input(script_sig: &[u8], witness: &[&[u8]]) -> (t: InputScriptType)
    ensures
        t == spec_classify_p2sh(script_sig@),
{
    let redeem = match extract_last_push(script_sig) {
        Some(r) => r,
        None => return InputScriptType::Unknown,
    };
    let n = redeem.len();
    if n == 22 && redeem[0] == 0x00 && redeem[1] == 0x14 {
        InputScriptType::P2SHP2WPKH
    } else if n == 34 && redeem[0] == 0x00 && redeem[1] == 0x20 {
        InputScriptType::P2SHP2WSH
    } else {
        InputScriptType::Unknown
    }
}

/// The spend type of an input from its prevout script, scriptSig and witness.
pub open spec fn spec_classify_input(
    prevout_script: Seq<u8>,
    script_sig: Seq<u8>,
    witness: Seq<Seq<u8>>,
) -> InputScriptType {
    match spec_classify_output(prevout_script) {
        OutputScriptType::P2PKH => InputScriptType::P2PKH,
        OutputScriptType::P2WPKH => InputScriptType::P2WPKH,
        OutputScriptType::P2WSH => InputScriptType::P2WSH,
        OutputScriptType::P2TR => spec_classify_p2tr(witness),
        OutputScriptType::P2SH => spec_classify_p2sh(script_sig),
        _ => InputScriptType::Unknown,
    }
}

/// Classify an input's spend type from prevout script + script_sig + witness.
pub fn classify_input(prevout_script: &[u8], script_sig: &[u8], witness: &[&[u8]]) -> (t:
    InputScriptType)
    ensures
        t == spec_classify_input(
            prevout_script@,
            script_sig@,
            crate::types::witness_view(witness@),
        ),
{
    match classify_output(prevout_script) {
        OutputScriptType::P2PKH => InputScriptType::P2PKH,
        OutputScriptType::P2WPKH => InputScriptType::P2WPKH,
        OutputScriptType::P2WSH => InputScriptType::P2WSH,
        OutputScriptType::P2TR => classify_p2tr_input(witness),
        OutputScriptType::P2SH => classify_p2sh_input(script_sig, witness),
        _ => InputScriptType::Unknown,
    }
}

// ─── Disassembly ─────────────────────────────────────────────────────────────

/// The name of a non-push opcode (`OP_UNKNOWN` outside `0x4f..=0xba`).
pub open spec fn spec_opcode_name(op: u8) -> Seq<char> {
    match op {
        0x4f => "OP_1NEGATE"@,
        0x50 => "OP_RESERVED"@,
        0x51 => "OP_1"@,
        0x52 => "OP_2"@,
        0x53 => "OP_3"@,
        0x54 => "OP_4"@,
        0x55 => "OP_5"@,
        0x56 => "OP_6"@,
        0x57 => "OP_7"@,
        0x58 => "OP_8"@,
        0x59 => "OP_9"@,
        0x5a => "OP_10"@,
        0x5b => "OP_11"@,
        0x5c => "OP_12"@,
        0x5d => "OP_13"@,
        0x5e => "OP_14"@,
        0x5f => "OP_15"@,
        0x60 => "OP_16"@,
        0x61 => "OP_NOP"@,
        0x62 => "OP_VER"@,
        0x63 => "OP_IF"@,
        0x64 => "OP_NOTIF"@,
        0x65 => "OP_VERIF"@,
        0x66 => "OP_VERNOTIF"@,
        0x67 => "OP_ELSE"@,
        0x68 => "OP_ENDIF"@,
        0x69 => "OP_VERIFY"@,
        0x6a => "OP_RETURN"@,
        0x6b => "OP_TOALTSTACK"@,
        0x6c => "OP_FROMALTSTACK"@,
        0x6d => "OP_2DROP"@,
        0x6e => "OP_2DUP"@,
        0x6f => "OP_3DUP"@,
        0x70 => "OP_2OVER"@,
        0x71 => "OP_2ROT"@,
        0x72 => "OP_2SWAP"@,
        0x73 => "OP_IFDUP"@,
        0x74 => "OP_DEPTH"@,
        0x75 => "OP_DROP"@,
        0x76 => "OP_DUP"@,
        0x77 => "OP_NIP"@,
        0x78 => "OP_OVER"@,
        0x79 => "OP_PICK"@,
        0x7a => "OP_ROLL"@,
        0x7b => "OP_ROT"@,
        0x7c => "OP_SWAP"@,
        0x7d => "OP_TUCK"@,
        0x7e => "OP_CAT"@,
        0x7f => "OP_SUBSTR"@,
        0x80 => "OP_LEFT"@,
        0x81 => "OP_RIGHT"@,
        0x82 => "OP_SIZE"@,
        0x83 => "OP_INVERT"@,
        0x84 => "OP_AND"@,
        0x85 => "OP_OR"@,
        0x86 => "OP_XOR"@,
        0x87 => "OP_EQUAL"@,
        0x88 => "OP_EQUALVERIFY"@,
        0x89 => "OP_RESERVED1"@,
        0x8a => "OP_RESERVED2"@,
        0x8b => "OP_1ADD"@,
        0x8c => "OP_1SUB"@,
        0x8d => "OP_2MUL"@,
        0x8e => "OP_2DIV"@,
        0x8f => "OP_NEGATE"@,
        0x90 => "OP_ABS"@,
        0x91 => "OP_NOT"@,
        0x92 => "OP_0NOTEQUAL"@,
        0x93 => "OP_ADD"@,
        0x94 => "OP_SUB"@,
        0x95 => "OP_MUL"@,
        0x96 => "OP_DIV"@,
        0x97 => "OP_MOD"@,
        0x98 => "OP_LSHIFT"@,
        0x99 => "OP_RSHIFT"@,
        0x9a => "OP_BOOLAND"@,
        0x9b => "OP_BOOLOR"@,
        0x9c => "OP_NUMEQUAL"@,
        0x9d => "OP_NUMEQUALVERIFY"@,
        0x9e => "OP_NUMNOTEQUAL"@,
        0x9f => "OP_LESSTHAN"@,
        0xa0 => "OP_GREATERTHAN"@,
        0xa1 => "OP_LESSTHANOREQUAL"@,
        0xa2 => "OP_GREATERTHANOREQUAL"@,
        0xa3 => "OP_MIN"@,
        0xa4 => "OP_MAX"@,
        0xa5 => "OP_WITHIN"@,
        0xa6 => "OP_RIPEMD160"@,
        0xa7 => "OP_SHA1"@,
        0xa8 => "OP_SHA256"@,
        0xa9 => "OP_HASH160"@,
        0xaa => "OP_HASH256"@,
        0xab => "OP_CODESEPARATOR"@,
        0xac => "OP_CHECKSIG"@,
        0xad => "OP_CHECKSIGVERIFY"@,
        0xae => "OP_CHECKMULTISIG"@,
        0xaf => "OP_CHECKMULTISIGVERIFY"@,
        0xb0 => "OP_NOP1"@,
        0xb1 => "OP_CHECKLOCKTIMEVERIFY"@,
        0xb2 => "OP_CHECKSEQUENCEVERIFY"@,
        0xb3 => "OP_NOP4"@,
        0xb4 => "OP_NOP5"@,
        0xb5 => "OP_NOP6"@,
        0xb6 => "OP_NOP7"@,
        0xb7 => "OP_NOP8"@,
        0xb8 => "OP_NOP9"@,
        0xb9 => "OP_NOP10"@,
        0xba => "OP_CHECKSIGADD"@,
        _ => "OP_UNKNOWN"@,
    }
}

fn opcode_name(op: u8) -> (s: &'static str)
    ensures
        s@ == spec_opcode_name(op),
{
    match op {
        0x4f => "OP_1NEGATE",
        0x50 => "OP_RESERVED",
        0x51 => "OP_1",
        0x52 => "OP_2",
        0x53 => "OP_3",
        0x54 => "OP_4",
        0x55 => "OP_5",
        0x56 => "OP_6",
        0x57 => "OP_7",
        0x58 => "OP_8",
        0x59 => "OP_9",
        0x5a => "OP_10",
        0x5b => "OP_11",
        0x5c => "OP_12",
        0x5d => "OP_13",
        0x5e => "OP_14",
        0x5f => "OP_15",
        0x60 => "OP_16",
        0x61 => "OP_NOP",
        0x62 => "OP_VER",
        0x63 => "OP_IF",
        0x64 => "OP_NOTIF",
        0x65 => "OP_VERIF",
        0x66 => "OP_VERNOTIF",
        0x67 => "OP_ELSE",
        0x68 => "OP_ENDIF",
        0x69 => "OP_VERIFY",
        0x6a => "OP_RETURN",
        0x6b => "OP_TOALTSTACK",
        0x6c => "OP_FROMALTSTACK",
        0x6d => "OP_2DROP",
        0x6e => "OP_2DUP",
        0x6f => "OP_3DUP",
        0x70 => "OP_2OVER",
        0x71 => "OP_2ROT",
        0x72 => "OP_2SWAP",
        0x73 => "OP_IFDUP",
        0x74 => "OP_DEPTH",
        0x75 => "OP_DROP",
        0x76 => "OP_DUP",
        0x77 => "OP_NIP",
        0x78 => "OP_OVER",
        0x79 => "OP_PICK",
        0x7a => "OP_ROLL",
        0x7b => "OP_ROT",
        0x7c => "OP_SWAP",
        0x7d => "OP_TUCK",
        0x7e => "OP_CAT",
        0x7f => "OP_SUBSTR",
        0x80 => "OP_LEFT",
        0x81 => "OP_RIGHT",
        0x82 => "OP_SIZE",
        0x83 => "OP_INVERT",
        0x84 => "OP_AND",
        0x85 => "OP_OR",
        0x86 => "OP_XOR",
        0x87 => "OP_EQUAL",
        0x88 => "OP_EQUALVERIFY",
        0x89 => "OP_RESERVED1",
        0x8a => "OP_RESERVED2",
        0x8b => "OP_1ADD",
        0x8c => "OP_1SUB",
        0x8d => "OP_2MUL",
        0x8e => "OP_2DIV",
        0x8f => "OP_NEGATE",
        0x90 => "OP_ABS",
        0x91 => "OP_NOT",
        0x92 => "OP_0NOTEQUAL",
        0x93 => "OP_ADD",
        0x94 => "OP_SUB",
        0x95 => "OP_MUL",
        0x96 => "OP_DIV",
        0x97 => "OP_MOD",
        0x98 => "OP_LSHIFT",
        0x99 => "OP_RSHIFT",
        0x9a => "OP_BOOLAND",
        0x9b => "OP_BOOLOR",
        0x9c => "OP_NUMEQUAL",
        0x9d => "OP_NUMEQUALVERIFY",
        0x9e => "OP_NUMNOTEQUAL",
        0x9f => "OP_LESSTHAN",
        0xa0 => "OP_GREATERTHAN",
        0xa1 => "OP_LESSTHANOREQUAL",
        0xa2 => "OP_GREATERTHANOREQUAL",
        0xa3 => "OP_MIN",
        0xa4 => "OP_MAX",
        0xa5 => "OP_WITHIN",
        0xa6 => "OP_RIPEMD160",
        0xa7 => "OP_SHA1",
        0xa8 => "OP_SHA256",
        0xa9 => "OP_HASH160",
        0xaa => "OP_HASH256",
        0xab => "OP_CODESEPARATOR",
        0xac => "OP_CHECKSIG",
        0xad => "OP_CHECKSIGVERIFY",
        0xae => "OP_CHECKMULTISIG",
        0xaf => "OP_CHECKMULTISIGVERIFY",
        0xb0 => "OP_NOP1",
        0xb1 => "OP_CHECKLOCKTIMEVERIFY",
        0xb2 => "OP_CHECKSEQUENCEVERIFY",
        0xb3 => "OP_NOP4",
        0xb4 => "OP_NOP5",
        0xb5 => "OP_NOP6",
        0xb6 => "OP_NOP7",
        0xb7 => "OP_NOP8",
        0xb8 => "OP_NOP9",
        0xb9 => "OP_NOP10",
        0xba => "OP_CHECKSIGADD",
        _ => "OP_UNKNOWN",
    }
}

/// The display text of a non-push opcode: its name, or `OP_UNKNOWN_0xNN`
/// (two lowercase hex digits) for an opcode without one.
pub open spec fn spec_opcode_text(op: u8) -> Seq<char> {
    if 0x4f <= op <= 0xba {
        spec_opcode_name(op)
    } else {
        "OP_UNKNOWN_0x"@ + spec_hex(seq![op])
    }
}

/// Returns the opcode's name, or "OP_UNKNOWN_0xNN" for an opcode without one.
pub fn opcode_name_owned(op: u8) -> (s: String)
    ensures
        s@ == spec_opcode_text(op),
{
    if 0x4f <= op && op <= 0xba {
        opcode_name(op).to_owned()
    } else {
        let mut b: Vec<u8> = Vec::new();
        b.push(op);
        let hex = hex_encode(b.as_slice());
        proof {
            assert(b@ =~= seq![op]);
        }
        let mut s = "OP_UNKNOWN_0x".to_owned();
        s.append(hex.as_str());
        s
    }
}

/// The tokens of the disassembly of `s[i..]`.
///
/// Data pushes give `OP_PUSHBYTES_<n> <hex>` (direct `0x01..=0x4b`) or
/// `OP_PUSHDATA1/2/4 <hex>`; a push whose data runs past the end gives only
/// its opcode token and the scan goes on after its length field; a PUSHDATA
/// whose length field itself is cut short ends the scan.
pub open spec fn spec_disasm_from(s: Seq<u8>, i: int) -> Seq<Seq<char>>
    decreases s.len() - i,
{
    if i < 0 || i >= s.len() {
        seq![]
    } else {
        let op = s[i];
        let j = i + 1;
        if op == 0 {
            seq!["OP_0"@] + spec_disasm_from(s, j)
        } else if op <= 0x4b {
            let name = "OP_PUSHBYTES_"@ + spec_decimal(op as nat);
            if j + op <= s.len() {
                seq![name, spec_hex(s.subrange(j, j + op))] + spec_disasm_from(s, j + op)
            } else {
                seq![name] + spec_disasm_from(s, j)
            }
        } else if op == 0x4c || op == 0x4d || op == 0x4e {
            let w: int = if op == 0x4c { 1 } else if op == 0x4d { 2 } else { 4 };
            let name = if op == 0x4c { "OP_PUSHDATA1"@ } else if op == 0x4d { "OP_PUSHDATA2"@ } else { "OP_PUSHDATA4"@ };
            if j + w <= s.len() {
                let k = j + w;
                let n = le_value(s.subrange(j, k));
                if k + n <= s.len() {
                    seq![name, spec_hex(s.subrange(k, k + n))] + spec_disasm_from(s, k + n)
                } else {
                    seq![name] + spec_disasm_from(s, k)
                }
            } else {
                spec_disasm_from(s, j)
            }
        } else {
            seq![spec_opcode_text(op)] + spec_disasm_from(s, j)
        }
    }
}

/// Words joined by single spaces.
pub open spec fn spec_join_words(ws: Seq<Seq<char>>) -> Seq<char>
    decreases ws.len(),
{
    if ws.len() == 0 {
        seq![]
    } else if ws.len() == 1 {
        ws[0]
    } else {
        spec_join_words(ws.drop_last()) + " "@ + ws.last()
    }
}

/// The disassembly of a script as space-separated tokens.
pub open spec fn spec_disassemble(s: Seq<u8>) -> Seq<char> {
    spec_join_words(spec_disasm_from(s, 0))
}

/// Join strings with single spaces.
fn join_words(words: &Vec<String>) -> (s: String)
    ensures
        s@ == spec_join_words(words@.map_values(|w: String| w@)),
{
    let ghost ws = words@.map_values(|w: String| w@);
    let mut s = String::new();
    let mut i: usize = 0;
    while i < words.len()
        invariant
            i <= words@.len(),
            ws == words@.map_values(|w: String| w@),
            s@ == spec_join_words(ws.take(i as int)),
        decreases words@.len() - i,
    {
        proof {
            reveal_strlit(" ");
            assert(ws.take(i + 1).drop_last() =~= ws.take(i as int));
        }
        if i > 0 {
            s.append(" ");
        }
        s.append(words[i].as_str());
        proof {
            if i == 0 {
                assert(s@ =~= ws.take(1)[0]);
            }
        }
        i = i + 1;
    }
    proof {
        assert(ws.take(i as int) =~= ws);
    }
    s
}

/// The name of an extended push opcode.
fn pushdata_name(op: u8) -> (s: &'static str)
    requires
        0x4c <= op <= 0x4e,
    ensures
        s@ == (if op == 0x4c { "OP_PUSHDATA1"@ } else if op == 0x4d { "OP_PUSHDATA2"@ } else { "OP_PUSHDATA4"@ }),
{
    if op == 0x4c {
        "OP_PUSHDATA1"
    } else if op == 0x4d {
        "OP_PUSHDATA2"
    } else {
        "OP_PUSHDATA4"
    }
}

/// Disassemble a Bitcoin script into space-separated tokens.
/// Data pushes: `OP_PUSHBYTES_<n> <hex>` (direct 0x01-0x4b),
///              `OP_PUSHDATA1/2/4 <hex>` (extended push).
pub fn disassemble(script: &[u8]) -> (out: String)
    ensures
        out@ == spec_disassemble(script@),
{
    let ghost s = script@;
    let mut tokens: Vec<String> = Vec::new();
    let mut i: usize = 0;
    while i < script.len()
        invariant
            i <= s.len(),
            s == script@,
            tokens@.map_values(|w: String| w@) + spec_disasm_from(s, i as int) == spec_disasm_from(s, 0),
        decreases s.len() - i,
    {
        let ghost before = tokens@.map_values(|w: String| w@);
        let op = script[i];
        let j = i + 1;
        if op == 0 {
            proof { reveal_strlit("OP_0"); }
            tokens.push("OP_0".to_owned());
            i = j;
        } else if op <= 0x4b {
            let n = op as usize;
            let mut name = "OP_PUSHBYTES_".to_owned();
            let dec = decimal(op as u64);
            name.append(dec.as_str());
            if n <= script.len() - j {
                let hex = hex_encode(vstd::slice::slice_subrange(script, j, j + n));
                tokens.push(name);
                tokens.push(hex);
                i = j + n;
            } else {
                tokens.push(name);
                i = j;
            }
        } else if op == 0x4c || op == 0x4d || op == 0x4e {
            let w: usize = if op == 0x4c { 1 } else if op == 0x4d { 2 } else { 4 };
            if w <= script.len() - j {
                let k = j + w;
                proof {
                    reveal_with_fuel(le_value, 5);
                }
                let n: u64 = if op == 0x4c {
                    script[j] as u64
                } else if op == 0x4d {
                    script[j] as u64 + (script[j + 1] as u64) * 0x100
                } else {
                    script[j] as u64 + (script[j + 1] as u64) * 0x100 + (script[j + 2] as u64)
                        * 0x10000 + (script[j + 3] as u64) * 0x1000000
                };
                proof {
                    assert(n == le_value(s.subrange(j as int, k as int)));
                }
                let name = pushdata_name(op).to_owned();
                if n <= (script.len() - k) as u64 {
                    let hex = hex_encode(vstd::slice::slice_subrange(script, k, k + n as usize));
                    tokens.push(name);
                    tokens.push(hex);
                    i = k + n as usize;
                } else {
                    tokens.push(name);
                    i = k;
                }
            } else {
                i = j;
            }
        } else {
            tokens.push(opcode_name_owned(op));
            i = j;
        }
        proof {
            let after = tokens@.map_values(|w: String| w@);
            assert(after + spec_disasm_from(s, i as int) =~= spec_disasm_from(s, 0));
        }
    }
    proof {
        assert(tokens@.map_values(|w: String| w@) =~= spec_disasm_from(s, 0));
    }
    join_words(&tokens)
}

/// Lowercase hexadecimal encoding of `b`.
fn hex_enc(b: &[u8]) -> (s: String)
    ensures
        s@ == spec_hex(b@),
{
    hex_encode(b)
}

} // verus!
