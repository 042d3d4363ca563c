//! Transaction parsing and legacy re-serialization.

use vstd::prelude::*;

use crate::errors::{ChainError, ErrorKind};
use crate::text::{push_hex_fixed, spec_hex_fixed};
use crate::io::buffer_reader::{
    le_value, spec_compact_size, spec_compact_size_after, spec_i32_from_le, BufferReader,
};
use crate::types::{
    inputs_view, outputs_view, witness_view, InputModel, OutputModel, RawInput, RawOutput,
    RawTransaction, TxModel,
};

verus! {

// ─── The transaction grammar ─────────────────────────────────────────────────
//
// Each spec parser reads from the start of `s` and gives back what it read
// with the number of bytes consumed, or the error the reader reports first.

/// `n` raw bytes; a short buffer reports `UnexpectedEof { context }`.
pub open spec fn sp_take(s: Seq<u8>, n: nat, context: Seq<char>) -> Result<(Seq<u8>, nat), ErrorKind> {
    if s.len() >= n {
        Ok((s.take(n as int), n))
    } else {
        Err(ErrorKind::UnexpectedEof(context))
    }
}

/// A CompactSize integer, with the errors `read_compact_size` reports.
pub open spec fn sp_compact(s: Seq<u8>) -> Result<(u64, nat), ErrorKind> {
    if s.len() == 0 {
        Err(ErrorKind::UnexpectedEof("u8"@))
    } else {
        match spec_compact_size(s) {
            Some(p) => Ok(p),
            None => Err(ErrorKind::InvalidVarInt(s[0])),
        }
    }
}

/// `n` items in a row, each read by `item` where the previous one ended.
pub open spec fn sp_many<T>(
    s: Seq<u8>,
    n: nat,
    item: spec_fn(Seq<u8>) -> Result<(T, nat), ErrorKind>,
) -> Result<(Seq<T>, nat), ErrorKind>
    decreases n,
{
    if n == 0 {
        Ok((seq![], 0))
    } else {
        match sp_many(s, (n - 1) as nat, item) {
            Err(e) => Err(e),
            Ok((xs, c)) => match item(s.skip(c as int)) {
                Err(e) => Err(e),
                Ok((x, c2)) => Ok((xs.push(x), c + c2)),
            },
        }
    }
}

/// A CompactSize length followed by that many bytes.
pub open spec fn sp_var_bytes(s: Seq<u8>) -> Result<(Seq<u8>, nat), ErrorKind> {
    match sp_compact(s) {
        Err(e) => Err(e),
        Ok((len, c)) => match sp_take(s.skip(c as int), len as nat, "read_bytes"@) {
            Err(e) => Err(e),
            Ok((b, c2)) => Ok((b, c + c2)),
        },
    }
}

/// One transaction input without its witness: txid, vout, scriptSig, sequence.
pub open spec fn sp_input(s: Seq<u8>) -> Result<(InputModel, nat), ErrorKind> {
    if s.len() < 32 {
        Err(ErrorKind::UnexpectedEof("read_bytes"@))
    } else if s.len() < 36 {
        Err(ErrorKind::UnexpectedEof("u32_le"@))
    } else {
        match sp_var_bytes(s.skip(36)) {
            Err(e) => Err(e),
            Ok((script, c)) => {
                let p = 36 + c;
                if s.len() < p + 4 {
                    Err(ErrorKind::UnexpectedEof("u32_le"@))
                } else {
                    Ok(
                        (
                            InputModel {
                                txid: s.take(32),
                                vout: le_value(s.subrange(32, 36)) as u32,
                                script_sig: script,
                                sequence: le_value(s.subrange(p as int, (p + 4) as int)) as u32,
                                witness: seq![],
                            },
                            p + 4,
                        ),
                    )
                }
            },
        }
    }
}

/// One transaction output: value and scriptPubKey.
pub open spec fn sp_output(s: Seq<u8>) -> Result<(OutputModel, nat), ErrorKind> {
    if s.len() < 8 {
        Err(ErrorKind::UnexpectedEof("u64_le"@))
    } else {
        match sp_var_bytes(s.skip(8)) {
            Err(e) => Err(e),
            Ok((script, c)) => Ok(
                (OutputModel { value: le_value(s.take(8)) as u64, script_pubkey: script }, 8 + c),
            ),
        }
    }
}

/// The item parsers that `sp_many` repeats.
pub open spec fn var_bytes_item() -> spec_fn(Seq<u8>) -> Result<(Seq<u8>, nat), ErrorKind> {
    |t: Seq<u8>| sp_var_bytes(t)
}

pub open spec fn input_item() -> spec_fn(Seq<u8>) -> Result<(InputModel, nat), ErrorKind> {
    |t: Seq<u8>| sp_input(t)
}

pub open spec fn output_item() -> spec_fn(Seq<u8>) -> Result<(OutputModel, nat), ErrorKind> {
    |t: Seq<u8>| sp_output(t)
}

pub open spec fn witness_item() -> spec_fn(Seq<u8>) -> Result<(Seq<Seq<u8>>, nat), ErrorKind> {
    |t: Seq<u8>| sp_witness(t)
}

/// One witness stack: a CompactSize item count, then each item as var-bytes.
pub open spec fn sp_witness(s: Seq<u8>) -> Result<(Seq<Seq<u8>>, nat), ErrorKind> {
    match sp_compact(s) {
        Err(e) => Err(e),
        Ok((n, c)) => match sp_many(s.skip(c as int), n as nat, var_bytes_item()) {
            Err(e) => Err(e),
            Ok((items, c2)) => Ok((items, c + c2)),
        },
    }
}

/// The detail of a SegWit flag other than 1.
pub open spec fn segwit_flag_text(flag: u8) -> Seq<char> {
    "expected 0x01, got 0x"@ + spec_hex_fixed(flag as nat, 2)
}

/// The marker/flag or the legacy input count: whether the transaction is
/// SegWit, its input count, and where the inputs start.
pub open spec fn sp_tx_header(s: Seq<u8>) -> Result<(bool, u64, nat), ErrorKind> {
    if s.len() < 4 {
        Err(ErrorKind::UnexpectedEof("i32_le"@))
    } else if s.len() < 5 {
        Err(ErrorKind::UnexpectedEof("u8"@))
    } else if s[4] == 0 {
        if s.len() < 6 {
            Err(ErrorKind::UnexpectedEof("u8"@))
        } else if s[5] != 1 {
            Err(ErrorKind::InvalidField("segwit_flag"@, segwit_flag_text(s[5])))
        } else {
            match sp_compact(s.skip(6)) {
                Err(e) => Err(e),
                Ok((n, c)) => Ok((true, n, 6 + c)),
            }
        }
    } else {
        match spec_compact_size_after(s[4], s.skip(5)) {
            None => Err(ErrorKind::InvalidVarInt(s[4])),
            Some((n, c)) => Ok((false, n, 4 + c)),
        }
    }
}

/// The inputs with the witness stacks attached in order.
pub open spec fn attach_witnesses(inputs: Seq<InputModel>, ws: Seq<Seq<Seq<u8>>>) -> Seq<InputModel> {
    Seq::new(inputs.len(), |i: int| InputModel { witness: ws[i], ..inputs[i] })
}

/// Everything after the inputs: outputs, witnesses, locktime.
pub open spec fn sp_tx_tail(
    s: Seq<u8>,
    segwit: bool,
    inputs: Seq<InputModel>,
) -> Result<(Seq<InputModel>, Seq<OutputModel>, u32, nat), ErrorKind> {
    match sp_compact(s) {
        Err(e) => Err(e),
        Ok((n_out, c1)) => match sp_many(s.skip(c1 as int), n_out as nat, output_item()) {
            Err(e) => Err(e),
            Ok((outs, c2)) => {
                let p = c1 + c2;
                let wit = if segwit {
                    sp_many(s.skip(p as int), inputs.len(), witness_item())
                } else {
                    Ok((Seq::new(inputs.len(), |i: int| Seq::<Seq<u8>>::empty()), 0nat))
                };
                match wit {
                    Err(e) => Err(e),
                    Ok((ws, c3)) => {
                        let q = p + c3;
                        if s.len() < q + 4 {
                            Err(ErrorKind::UnexpectedEof("u32_le"@))
                        } else {
                            Ok(
                                (
                                    attach_witnesses(inputs, ws),
                                    outs,
                                    le_value(s.subrange(q as int, (q + 4) as int)) as u32,
                                    q + 4,
                                ),
                            )
                        }
                    },
                }
            },
        },
    }
}

/// A whole transaction at the start of `s`, with the number of bytes it
/// occupies, or the first error the parser reports.
pub open spec fn spec_parse_tx(s: Seq<u8>) -> Result<(TxModel, nat), ErrorKind> {
    match sp_tx_header(s) {
        Err(e) => Err(e),
        Ok((segwit, n_in, p)) => if n_in == 0 {
            Err(ErrorKind::InvalidField("input_count"@, "transaction must have at least one input"@))
        } else {
            match sp_many(s.skip(p as int), n_in as nat, input_item()) {
                Err(e) => Err(e),
                Ok((ins, c)) => match sp_tx_tail(s.skip((p + c) as int), segwit, ins) {
                    Err(e) => Err(e),
                    Ok((inputs, outs, locktime, c2)) => Ok(
                        (
                            TxModel {
                                version: spec_i32_from_le(s.take(4)) as i32,
                                inputs,
                                outputs: outs,
                                locktime,
                                is_segwit: segwit,
                            },
                            p + c + c2,
                        ),
                    ),
                },
            }
        },
    }
}

// ─── Serialization ───────────────────────────────────────────────────────────

/// The `n` little-endian bytes of `v` (taken modulo `256^n`).
pub open spec fn spec_le_bytes(v: nat, n: nat) -> Seq<u8>
    decreases n,
{
    if n == 0 {
        seq![]
    } else {
        seq![(v % 256) as u8] + spec_le_bytes(v / 256, (n - 1) as nat)
    }
}

/// The canonical CompactSize encoding of `v`.
pub open spec fn spec_compact_bytes(v: nat) -> Seq<u8> {
    if v <= 0xfc {
        seq![v as u8]
    } else if v <= 0xffff {
        seq![0xfdu8] + spec_le_bytes(v, 2)
    } else if v <= 0xffff_ffff {
        seq![0xfeu8] + spec_le_bytes(v, 4)
    } else {
        seq![0xffu8] + spec_le_bytes(v, 8)
    }
}

/// The legacy encoding of one input.
pub open spec fn spec_input_bytes(i: InputModel) -> Seq<u8> {
    i.txid + spec_le_bytes(i.vout as nat, 4) + spec_compact_bytes(i.script_sig.len()) + i.script_sig
        + spec_le_bytes(i.sequence as nat, 4)
}

/// The encoding of one output.
pub open spec fn spec_output_bytes(o: OutputModel) -> Seq<u8> {
    spec_le_bytes(o.value as nat, 8) + spec_compact_bytes(o.script_pubkey.len()) + o.script_pubkey
}

/// The concatenated legacy encodings of a sequence of inputs.
pub open spec fn spec_inputs_bytes(ins: Seq<InputModel>) -> Seq<u8>
    decreases ins.len(),
{
    if ins.len() == 0 {
        seq![]
    } else {
        spec_inputs_bytes(ins.drop_last()) + spec_input_bytes(ins.last())
    }
}

/// The concatenated encodings of a sequence of outputs.
pub open spec fn spec_outputs_bytes(outs: Seq<OutputModel>) -> Seq<u8>
    decreases outs.len(),
{
    if outs.len() == 0 {
        seq![]
    } else {
        spec_outputs_bytes(outs.drop_last()) + spec_output_bytes(outs.last())
    }
}

/// The two's-complement bits of a version number as an unsigned value.
pub open spec fn i32_bits(v: i32) -> nat {
    if v >= 0 {
        v as nat
    } else {
        (v + 0x1_0000_0000) as nat
    }
}

/// The legacy serialization of the given parts: version, inputs, outputs,
/// locktime.
pub open spec fn spec_legacy_parts(
    version: i32,
    inputs: Seq<InputModel>,
    outputs: Seq<OutputModel>,
    locktime: u32,
) -> Seq<u8> {
    spec_le_bytes(i32_bits(version), 4) + spec_compact_bytes(inputs.len()) + spec_inputs_bytes(inputs)
        + spec_compact_bytes(outputs.len()) + spec_outputs_bytes(outputs) + spec_le_bytes(
        locktime as nat,
        4,
    )
}

/// The legacy (non-witness) serialization of a transaction: version, inputs,
/// outputs, locktime; no marker, flag or witness data.
pub open spec fn spec_legacy_bytes(tx: TxModel) -> Seq<u8> {
    spec_legacy_parts(tx.version, tx.inputs, tx.outputs, tx.locktime)
}

// ─── Proof helpers ───────────────────────────────────────────────────────────

/// Once the `k`-th item fails, every longer run fails with the same error.
pub proof fn lemma_many_err<T>(
    s: Seq<u8>,
    k: nat,
    m: nat,
    item: spec_fn(Seq<u8>) -> Result<(T, nat), ErrorKind>,
)
    requires
        k < m,
        sp_many(s, k, item) is Ok,
        item(s.skip(sp_many(s, k, item)->Ok_0.1 as int)) is Err,
    ensures
        sp_many(s, m, item) == Err::<(Seq<T>, nat), ErrorKind>(
            item(s.skip(sp_many(s, k, item)->Ok_0.1 as int))->Err_0,
        ),
    decreases m,
{
    if m > k + 1 {
        lemma_many_err(s, k, (m - 1) as nat, item);
    }
}

/// A successful run of `n` items holds `n` items.
pub proof fn lemma_many_len<T>(s: Seq<u8>, n: nat, item: spec_fn(Seq<u8>) -> Result<(T, nat), ErrorKind>)
    ensures
        sp_many(s, n, item) matches Ok((xs, c)) ==> xs.len() == n,
    decreases n,
{
    if n > 0 {
        lemma_many_len(s, (n - 1) as nat, item);
    }
}

/// Skipping twice is skipping the sum.
pub proof fn lemma_skip_skip<T>(s: Seq<T>, a: int, b: int)
    requires
        0 <= a,
        0 <= b,
        a + b <= s.len(),
    ensures
        s.skip(a).skip(b) =~= s.skip(a + b),
{
}

/// Where a reader stands after consuming `c` more bytes of the same buffer.
pub proof fn lemma_rest_advance(r0: BufferReader, r1: BufferReader, c: nat)
    requires
        r0.wf(),
        r1.wf(),
        r1.data() == r0.data(),
        r1.pos() == r0.pos() + c,
    ensures
        r1.rest() =~= r0.rest().skip(c as int),
{
}

// ─── Sizes of the legacy serialization ──────────────────────────────────────

/// `256^n`.
pub open spec fn pow256(n: nat) -> nat
    decreases n,
{
    if n == 0 {
        1
    } else {
        256 * pow256((n - 1) as nat)
    }
}

/// Appending a byte adds it at the next power of 256.
pub proof fn lemma_le_value_push(s: Seq<u8>, x: u8)
    ensures
        le_value(s.push(x)) == le_value(s) + x * pow256(s.len()),
    decreases s.len(),
{
    if s.len() > 0 {
        lemma_le_value_push(s.drop_first(), x);
        assert(s.push(x).drop_first() =~= s.drop_first().push(x));
        let r = le_value(s.drop_first());
        let p = pow256((s.len() - 1) as nat);
        assert(s.push(x)[0] == s[0]);
        assert(le_value(s.push(x)) == s[0] + 256 * le_value(s.drop_first().push(x)));
        assert(le_value(s) == s[0] + 256 * r);
        assert(pow256(s.len()) == 256 * p);
        assert(256 * (r + x * p) == 256 * r + x * (256 * p)) by (nonlinear_arith);
    } else {
        assert(s.push(x).drop_first() =~= Seq::<u8>::empty());
        assert(le_value(Seq::<u8>::empty()) == 0);
        assert(le_value(s.push(x).drop_first()) == 0);
        assert(s.push(x)[0] == x);
        assert(le_value(s.push(x)) == x);
        assert(pow256(0) == 1);
        assert(x * pow256(s.len()) == x);
    }
}

/// A little-endian value of `n` bytes is below `256^n`.
proof fn lemma_le_value_bound(s: Seq<u8>)
    ensures
        le_value(s) < pow256(s.len()),
    decreases s.len(),
{
    if s.len() > 0 {
        lemma_le_value_bound(s.drop_first());
        let r = le_value(s.drop_first());
        let p = pow256((s.len() - 1) as nat);
        assert(s[0] + 256 * r < 256 * p) by (nonlinear_arith)
            requires
                r < p,
                s[0] < 256,
        ;
    }
}

/// The little-endian encoding in `n` bytes has `n` bytes.
pub proof fn lemma_le_bytes_len(v: nat, n: nat)
    ensures
        spec_le_bytes(v, n).len() == n,
    decreases n,
{
    if n > 0 {
        lemma_le_bytes_len(v / 256, (n - 1) as nat);
    }
}

/// The length of the canonical CompactSize encoding of `v`.
pub open spec fn compact_len(v: nat) -> nat {
    if v <= 0xfc {
        1
    } else if v <= 0xffff {
        3
    } else if v <= 0xffff_ffff {
        5
    } else {
        9
    }
}

/// The canonical encoding has `compact_len` bytes.
proof fn lemma_compact_bytes_len(v: nat)
    ensures
        spec_compact_bytes(v).len() == compact_len(v),
{
    lemma_le_bytes_len(v, 2);
    lemma_le_bytes_len(v, 4);
    lemma_le_bytes_len(v, 8);
}

/// Little-endian bytes read back: the `n`-byte encoding of a value below
/// `256^n` has that value.
pub proof fn lemma_le_roundtrip(v: nat, n: nat)
    requires
        v < pow256(n),
    ensures
        le_value(spec_le_bytes(v, n)) == v,
    decreases n,
{
    if n > 0 {
        let p = pow256((n - 1) as nat);
        assert(v / 256 < p) by (nonlinear_arith)
            requires
                v < 256 * p,
        ;
        lemma_le_roundtrip(v / 256, (n - 1) as nat);
        let s = spec_le_bytes(v, n);
        assert(s.drop_first() =~= spec_le_bytes(v / 256, (n - 1) as nat));
        assert(s[0] == v % 256);
        assert(v == v % 256 + 256 * (v / 256)) by (nonlinear_arith);
    }
}

/// CompactSize round trip: reading the canonical encoding of any `v`,
/// whatever follows it, gives `v` back and consumes exactly the encoding.
pub proof fn lemma_compact_roundtrip(v: u64, rest: Seq<u8>)
    ensures
        spec_compact_size(spec_compact_bytes(v as nat) + rest) == Some((v, compact_len(v as nat))),
        sp_compact(spec_compact_bytes(v as nat) + rest) == Ok::<(u64, nat), ErrorKind>(
            (v, compact_len(v as nat)),
        ),
{
    let e = spec_compact_bytes(v as nat);
    let s = e + rest;
    assert(pow256(2) == 0x1_0000 && pow256(4) == 0x1_0000_0000 && pow256(8)
        == 0x1_0000_0000_0000_0000) by {
        reveal_with_fuel(pow256, 9);
    }
    lemma_compact_bytes_len(v as nat);
    if v > 0xfc {
        let w: nat = if v <= 0xffff { 2 } else if v <= 0xffff_ffff { 4 } else { 8 };
        lemma_le_bytes_len(v as nat, w);
        assert(e == seq![e[0]] + spec_le_bytes(v as nat, w));
        assert(s.drop_first().take(w as int) =~= spec_le_bytes(v as nat, w));
        lemma_le_roundtrip(v as nat, w);
    }
}

/// Four little-endian bytes of a u32 read back as that u32.
proof fn lemma_u32_roundtrip(v: u32)
    ensures
        spec_le_bytes(v as nat, 4).len() == 4,
        le_value(spec_le_bytes(v as nat, 4)) == v,
{
    assert(pow256(4) == 0x1_0000_0000) by {
        reveal_with_fuel(pow256, 5);
    }
    lemma_le_bytes_len(v as nat, 4);
    lemma_le_roundtrip(v as nat, 4);
}

/// A length-prefixed byte string read back.
proof fn lemma_var_bytes_roundtrip(b: Seq<u8>, rest: Seq<u8>)
    requires
        b.len() <= u64::MAX,
    ensures
        sp_var_bytes(spec_compact_bytes(b.len()) + b + rest) == Ok::<(Seq<u8>, nat), ErrorKind>(
            (b, compact_len(b.len()) + b.len()),
        ),
{
    let cb = spec_compact_bytes(b.len());
    let s = cb + b + rest;
    lemma_compact_bytes_len(b.len());
    assert(s =~= cb + (b + rest));
    lemma_compact_roundtrip(b.len() as u64, b + rest);
    assert(s.skip(compact_len(b.len()) as int) =~= b + rest);
    assert((b + rest).take(b.len() as int) =~= b);
}

/// The inputs that the legacy encoding can carry: a 32-byte txid and no
/// witness.
pub open spec fn legacy_input_ok(i: InputModel) -> bool {
    &&& i.txid.len() == 32
    &&& i.script_sig.len() <= u64::MAX
    &&& i.witness.len() == 0
}

/// One input read back from its legacy encoding.
proof fn lemma_input_roundtrip(i: InputModel, rest: Seq<u8>)
    requires
        legacy_input_ok(i),
    ensures
        sp_input(spec_input_bytes(i) + rest) == Ok::<(InputModel, nat), ErrorKind>(
            (i, spec_input_bytes(i).len()),
        ),
{
    let vb = spec_le_bytes(i.vout as nat, 4);
    let cb = spec_compact_bytes(i.script_sig.len());
    let qb = spec_le_bytes(i.sequence as nat, 4);
    let s = spec_input_bytes(i) + rest;
    lemma_u32_roundtrip(i.vout);
    lemma_u32_roundtrip(i.sequence);
    lemma_compact_bytes_len(i.script_sig.len());
    assert(s =~= i.txid + vb + cb + i.script_sig + qb + rest);
    assert(s.take(32) =~= i.txid);
    assert(s.subrange(32, 36) =~= vb);
    assert(s.skip(36) =~= cb + i.script_sig + (qb + rest));
    lemma_var_bytes_roundtrip(i.script_sig, qb + rest);
    let p = 36 + compact_len(i.script_sig.len()) + i.script_sig.len();
    assert(s.subrange(p as int, (p + 4) as int) =~= qb);
    assert(i.witness =~= seq![]);
}

/// One output read back from its encoding.
proof fn lemma_output_roundtrip(o: OutputModel, rest: Seq<u8>)
    requires
        o.script_pubkey.len() <= u64::MAX,
    ensures
        sp_output(spec_output_bytes(o) + rest) == Ok::<(OutputModel, nat), ErrorKind>(
            (o, spec_output_bytes(o).len()),
        ),
{
    let vb = spec_le_bytes(o.value as nat, 8);
    let cb = spec_compact_bytes(o.script_pubkey.len());
    let s = spec_output_bytes(o) + rest;
    assert(pow256(8) == 0x1_0000_0000_0000_0000) by {
        reveal_with_fuel(pow256, 9);
    }
    lemma_le_bytes_len(o.value as nat, 8);
    lemma_le_roundtrip(o.value as nat, 8);
    lemma_compact_bytes_len(o.script_pubkey.len());
    assert(s =~= vb + (cb + o.script_pubkey + rest));
    assert(s.take(8) =~= vb);
    assert(s.skip(8) =~= cb + o.script_pubkey + rest);
    lemma_var_bytes_roundtrip(o.script_pubkey, rest);
}

/// A run of inputs read back from their legacy encodings.
proof fn lemma_inputs_roundtrip(ins: Seq<InputModel>, rest: Seq<u8>)
    requires
        forall|k: int| 0 <= k < ins.len() ==> legacy_input_ok(#[trigger] ins[k]),
    ensures
        sp_many(spec_inputs_bytes(ins) + rest, ins.len(), input_item()) == Ok::<
            (Seq<InputModel>, nat),
            ErrorKind,
        >((ins, spec_inputs_bytes(ins).len())),
    decreases ins.len(),
{
    if ins.len() > 0 {
        let init = ins.drop_last();
        let last_bytes = spec_input_bytes(ins.last());
        let s = spec_inputs_bytes(ins) + rest;
        assert(s =~= spec_inputs_bytes(init) + (last_bytes + rest));
        lemma_inputs_roundtrip(init, last_bytes + rest);
        assert(s.skip(spec_inputs_bytes(init).len() as int) =~= last_bytes + rest);
        lemma_input_roundtrip(ins.last(), rest);
        assert(input_item()(last_bytes + rest) == sp_input(last_bytes + rest));
        assert(init.push(ins.last()) =~= ins);
        assert(spec_inputs_bytes(ins) == spec_inputs_bytes(init) + last_bytes);
    } else {
        assert(ins =~= seq![]);
    }
}

/// A run of outputs read back from their encodings.
proof fn lemma_outputs_roundtrip(outs: Seq<OutputModel>, rest: Seq<u8>)
    requires
        forall|k: int| 0 <= k < outs.len() ==> (#[trigger] outs[k]).script_pubkey.len() <= u64::MAX,
    ensures
        sp_many(spec_outputs_bytes(outs) + rest, outs.len(), output_item()) == Ok::<
            (Seq<OutputModel>, nat),
            ErrorKind,
        >((outs, spec_outputs_bytes(outs).len())),
    decreases outs.len(),
{
    if outs.len() > 0 {
        let init = outs.drop_last();
        let last_bytes = spec_output_bytes(outs.last());
        let s = spec_outputs_bytes(outs) + rest;
        assert(s =~= spec_outputs_bytes(init) + (last_bytes + rest));
        lemma_outputs_roundtrip(init, last_bytes + rest);
        assert(s.skip(spec_outputs_bytes(init).len() as int) =~= last_bytes + rest);
        lemma_output_roundtrip(outs.last(), rest);
        assert(output_item()(last_bytes + rest) == sp_output(last_bytes + rest));
        assert(init.push(outs.last()) =~= outs);
        assert(spec_outputs_bytes(outs) == spec_outputs_bytes(init) + last_bytes);
    } else {
        assert(outs =~= seq![]);
    }
}

/// The transactions that the legacy encoding carries whole: not SegWit, at
/// least one input (none would read as a SegWit marker), every input
/// `legacy_input_ok`, and every count and length within a u64.
pub open spec fn legacy_encodable(tx: TxModel) -> bool {
    &&& !tx.is_segwit
    &&& 1 <= tx.inputs.len() <= u64::MAX
    &&& tx.outputs.len() <= u64::MAX
    &&& forall|k: int| 0 <= k < tx.inputs.len() ==> legacy_input_ok(#[trigger] tx.inputs[k])
    &&& forall|k: int|
        0 <= k < tx.outputs.len() ==> (#[trigger] tx.outputs[k]).script_pubkey.len() <= u64::MAX
}

/// The version field read back.
proof fn lemma_version_roundtrip(v: i32, rest: Seq<u8>)
    ensures
        spec_le_bytes(i32_bits(v), 4).len() == 4,
        spec_i32_from_le((spec_le_bytes(i32_bits(v), 4) + rest).take(4)) as i32 == v,
{
    assert(pow256(4) == 0x1_0000_0000) by {
        reveal_with_fuel(pow256, 5);
    }
    lemma_le_bytes_len(i32_bits(v), 4);
    lemma_le_roundtrip(i32_bits(v), 4);
    assert((spec_le_bytes(i32_bits(v), 4) + rest).take(4) =~= spec_le_bytes(i32_bits(v), 4));
}

/// The start of a legacy transaction: four version bytes, then an input
/// count that is not zero, so no SegWit marker.
proof fn lemma_legacy_header(vb: Seq<u8>, n: u64, after: Seq<u8>)
    requires
        vb.len() == 4,
        n >= 1,
    ensures
        sp_tx_header(vb + spec_compact_bytes(n as nat) + after) == Ok::<(bool, u64, nat), ErrorKind>(
            (false, n, 4 + compact_len(n as nat)),
        ),
{
    let cb = spec_compact_bytes(n as nat);
    let s = vb + cb + after;
    lemma_compact_bytes_len(n as nat);
    lemma_compact_roundtrip(n, after);
    assert(s[4] == cb[0]);
    assert(s.skip(5) =~= (cb + after).drop_first());
}

/// The end of a legacy transaction: outputs and locktime, with no witness
/// attached to inputs that carry none.
proof fn lemma_legacy_tail(ins: Seq<InputModel>, outs: Seq<OutputModel>, locktime: u32, rest: Seq<u8>)
    requires
        forall|k: int| 0 <= k < ins.len() ==> legacy_input_ok(#[trigger] ins[k]),
        outs.len() <= u64::MAX,
        forall|k: int| 0 <= k < outs.len() ==> (#[trigger] outs[k]).script_pubkey.len() <= u64::MAX,
    ensures
        sp_tx_tail(
            spec_compact_bytes(outs.len()) + spec_outputs_bytes(outs) + spec_le_bytes(locktime as nat, 4)
                + rest,
            false,
            ins,
        ) == Ok::<(Seq<InputModel>, Seq<OutputModel>, u32, nat), ErrorKind>(
            (
                ins,
                outs,
                locktime,
                compact_len(outs.len()) + spec_outputs_bytes(outs).len() + 4,
            ),
        ),
{
    let cbo = spec_compact_bytes(outs.len());
    let outsb = spec_outputs_bytes(outs);
    let lb = spec_le_bytes(locktime as nat, 4);
    let t = cbo + outsb + lb + rest;
    lemma_u32_roundtrip(locktime);
    lemma_compact_bytes_len(outs.len());
    let co = compact_len(outs.len());
    assert(t =~= cbo + (outsb + lb + rest));
    lemma_compact_roundtrip(outs.len() as u64, outsb + lb + rest);
    assert(t.skip(co as int) =~= outsb + (lb + rest));
    lemma_outputs_roundtrip(outs, lb + rest);
    let q = co + outsb.len();
    assert(t.subrange(q as int, (q + 4) as int) =~= lb);
    let empties = Seq::new(ins.len(), |i: int| Seq::<Seq<u8>>::empty());
    assert(attach_witnesses(ins, empties) =~= ins) by {
        assert forall|k: int| 0 <= k < ins.len() implies attach_witnesses(ins, empties)[k]
            == ins[k] by {
            assert(legacy_input_ok(ins[k]));
            assert(ins[k].witness =~= Seq::<Seq<u8>>::empty());
        }
    }
}

/// A transaction parse put together from its three stages.
proof fn lemma_parse_tx_compose(
    s: Seq<u8>,
    n: u64,
    p: nat,
    ins: Seq<InputModel>,
    c: nat,
    outs: Seq<OutputModel>,
    locktime: u32,
    c2: nat,
)
    requires
        sp_tx_header(s) == Ok::<(bool, u64, nat), ErrorKind>((false, n, p)),
        n >= 1,
        sp_many(s.skip(p as int), n as nat, input_item()) == Ok::<(Seq<InputModel>, nat), ErrorKind>(
            (ins, c),
        ),
        sp_tx_tail(s.skip((p + c) as int), false, ins) == Ok::<
            (Seq<InputModel>, Seq<OutputModel>, u32, nat),
            ErrorKind,
        >((ins, outs, locktime, c2)),
    ensures
        spec_parse_tx(s) == Ok::<(TxModel, nat), ErrorKind>(
            (
                TxModel {
                    version: spec_i32_from_le(s.take(4)) as i32,
                    inputs: ins,
                    outputs: outs,
                    locktime,
                    is_segwit: false,
                },
                p + c + c2,
            ),
        ),
{
}

/// Legacy round trip: the parser reads the legacy serialization of a
/// non-SegWit transaction (the bytes its txid is computed over), whatever
/// follows it, back into that transaction and consumes exactly those bytes.
#[verifier::spinoff_prover]
#[verifier::rlimit(40)]
pub proof fn lemma_legacy_roundtrip(tx: TxModel, rest: Seq<u8>)
    requires
        legacy_encodable(tx),
    ensures
        spec_parse_tx(spec_legacy_bytes(tx) + rest) == Ok::<(TxModel, nat), ErrorKind>(
            (tx, spec_legacy_bytes(tx).len()),
        ),
{
    let ins = tx.inputs;
    let outs = tx.outputs;
    let vb = spec_le_bytes(i32_bits(tx.version), 4);
    let cbi = spec_compact_bytes(ins.len());
    let insb = spec_inputs_bytes(ins);
    let tail = spec_compact_bytes(outs.len()) + spec_outputs_bytes(outs) + spec_le_bytes(
        tx.locktime as nat,
        4,
    );
    let s = spec_legacy_bytes(tx) + rest;
    let after = insb + tail + rest;
    lemma_version_roundtrip(tx.version, cbi + after);
    lemma_compact_bytes_len(ins.len());
    let p = 4 + compact_len(ins.len());
    assert(spec_legacy_bytes(tx) == vb + cbi + insb + tail);
    assert(s =~= vb + cbi + after);
    lemma_legacy_header(vb, ins.len() as u64, after);
    assert(s.skip(p as int) =~= insb + (tail + rest));
    lemma_inputs_roundtrip(ins, tail + rest);
    assert(s.skip((p + insb.len()) as int) =~= tail + rest);
    lemma_legacy_tail(ins, outs, tx.locktime, rest);
    lemma_parse_tx_compose(
        s,
        ins.len() as u64,
        p,
        ins,
        insb.len(),
        outs,
        tx.locktime,
        compact_len(outs.len()) + spec_outputs_bytes(outs).len() + 4,
    );
    assert(s.take(4) =~= (vb + (cbi + after)).take(4));
    lemma_compact_bytes_len(outs.len());
    lemma_le_bytes_len(tx.locktime as nat, 4);
    assert(spec_legacy_bytes(tx).len() == p + insb.len() + compact_len(outs.len())
        + spec_outputs_bytes(outs).len() + 4);
    assert(TxModel {
        version: spec_i32_from_le(s.take(4)) as i32,
        inputs: ins,
        outputs: outs,
        locktime: tx.locktime,
        is_segwit: false,
    } == tx);
}

/// A CompactSize read consumes at least as many bytes as the canonical
/// encoding of its value takes.
proof fn lemma_compact_consumed(s: Seq<u8>)
    ensures
        sp_compact(s) matches Ok((v, c)) ==> compact_len(v as nat) <= c && c <= s.len(),
{
    if s.len() > 0 && s[0] >= 0xfd {
        let rest = s.drop_first();
        if s[0] == 0xfd && rest.len() >= 2 {
            lemma_le_value_bound(rest.take(2));
            reveal_with_fuel(pow256, 3);
        } else if s[0] == 0xfe && rest.len() >= 4 {
            lemma_le_value_bound(rest.take(4));
            reveal_with_fuel(pow256, 5);
        }
    }
}

/// A length-prefixed byte string consumes its canonical prefix and bytes.
proof fn lemma_var_bytes_consumed(s: Seq<u8>)
    ensures
        sp_var_bytes(s) matches Ok((b, c)) ==> compact_len(b.len()) + b.len() <= c && c <= s.len(),
{
    lemma_compact_consumed(s);
}

/// One input takes no more bytes in its legacy encoding than it consumed.
proof fn lemma_input_consumed(s: Seq<u8>)
    ensures
        sp_input(s) matches Ok((i, c)) ==> spec_input_bytes(i).len() <= c && 1 <= c <= s.len(),
{
    if s.len() >= 36 {
        lemma_var_bytes_consumed(s.skip(36));
        if let Ok((i, c)) = sp_input(s) {
            lemma_compact_bytes_len(i.script_sig.len());
            lemma_le_bytes_len(i.vout as nat, 4);
            lemma_le_bytes_len(i.sequence as nat, 4);
        }
    }
}

/// One output takes no more bytes in its encoding than it consumed.
proof fn lemma_output_consumed(s: Seq<u8>)
    ensures
        sp_output(s) matches Ok((o, c)) ==> spec_output_bytes(o).len() <= c && 1 <= c <= s.len(),
{
    if s.len() >= 8 {
        lemma_var_bytes_consumed(s.skip(8));
        if let Ok((o, c)) = sp_output(s) {
            lemma_compact_bytes_len(o.script_pubkey.len());
            lemma_le_bytes_len(o.value as nat, 8);
        }
    }
}

/// A run of inputs takes no more bytes re-encoded than it consumed, and at
/// least one byte per input.
proof fn lemma_inputs_consumed(s: Seq<u8>, n: nat)
    ensures
        sp_many(s, n, input_item()) matches Ok((ins, c)) ==> spec_inputs_bytes(ins).len() <= c
            && ins.len() <= c && c <= s.len(),
    decreases n,
{
    if n > 0 {
        lemma_inputs_consumed(s, (n - 1) as nat);
        if let Ok((xs, c)) = sp_many(s, (n - 1) as nat, input_item()) {
            lemma_input_consumed(s.skip(c as int));
            if let Ok((x, c2)) = sp_input(s.skip(c as int)) {
                assert(xs.push(x).drop_last() =~= xs);
            }
        }
    }
}

/// A run of outputs takes no more bytes re-encoded than it consumed, and at
/// least one byte per output.
proof fn lemma_outputs_consumed(s: Seq<u8>, n: nat)
    ensures
        sp_many(s, n, output_item()) matches Ok((outs, c)) ==> spec_outputs_bytes(outs).len() <= c
            && outs.len() <= c && c <= s.len(),
    decreases n,
{
    if n > 0 {
        lemma_outputs_consumed(s, (n - 1) as nat);
        if let Ok((xs, c)) = sp_many(s, (n - 1) as nat, output_item()) {
            lemma_output_consumed(s.skip(c as int));
            if let Ok((x, c2)) = sp_output(s.skip(c as int)) {
                assert(xs.push(x).drop_last() =~= xs);
            }
        }
    }
}

/// Witnesses do not change the legacy encoding of the inputs.
proof fn lemma_inputs_bytes_attach(ins: Seq<InputModel>, ws: Seq<Seq<Seq<u8>>>)
    ensures
        spec_inputs_bytes(attach_witnesses(ins, ws)) == spec_inputs_bytes(ins),
    decreases ins.len(),
{
    if ins.len() > 0 {
        lemma_inputs_bytes_attach(ins.drop_last(), ws);
        assert(attach_witnesses(ins, ws).drop_last() =~= attach_witnesses(ins.drop_last(), ws));
    }
}

/// The legacy serialization of a parsed transaction is no longer than the
/// bytes it was parsed from, and for a SegWit transaction shorter by at
/// least the marker and flag; those bytes hold at least eight besides one
/// per input and output.
pub proof fn lemma_legacy_len(s: Seq<u8>)
    ensures
        spec_parse_tx(s) matches Ok((m, n)) ==> spec_legacy_bytes(m).len() <= n && m.inputs.len()
            + m.outputs.len() + 8 <= n && m.inputs.len() >= 1 && n <= s.len(),
        spec_parse_tx(s) matches Ok((m, n)) ==> (m.is_segwit ==> spec_legacy_bytes(m).len() + 2
            <= n),
{
    if let Ok((segwit, n_in, p)) = sp_tx_header(s) {
        if s[4] == 0 {
            lemma_compact_consumed(s.skip(6));
        } else {
            lemma_compact_consumed(s.skip(4));
            assert(s.skip(4).drop_first() =~= s.skip(5));
        }
        lemma_inputs_consumed(s.skip(p as int), n_in as nat);
        lemma_many_len(s.skip(p as int), n_in as nat, input_item());
        if let Ok((ins, c)) = sp_many(s.skip(p as int), n_in as nat, input_item()) {
            let t = s.skip((p + c) as int);
            lemma_compact_consumed(t);
            if let Ok((n_out, c1)) = sp_compact(t) {
                lemma_outputs_consumed(t.skip(c1 as int), n_out as nat);
                lemma_many_len(t.skip(c1 as int), n_out as nat, output_item());
            }
            if let Ok((inputs, outs, lt, c2)) = sp_tx_tail(t, segwit, ins) {
                let (n_out, c1) = sp_compact(t)->Ok_0;
                let (os, co) = sp_many(t.skip(c1 as int), n_out as nat, output_item())->Ok_0;
                let wit = if segwit {
                    sp_many(t.skip((c1 + co) as int), ins.len(), witness_item())
                } else {
                    Ok((Seq::new(ins.len(), |i: int| Seq::<Seq<u8>>::empty()), 0nat))
                };
                lemma_inputs_bytes_attach(ins, wit->Ok_0.0);
                lemma_compact_bytes_len(ins.len());
                lemma_compact_bytes_len(outs.len());
                lemma_le_bytes_len(i32_bits(spec_i32_from_le(s.take(4)) as i32), 4);
                lemma_le_bytes_len(lt as nat, 4);
            }
        }
    }
}

// ─── Only the bytes read matter ──────────────────────────────────────────────

/// `s` and `u` both hold at least `c` bytes and agree on the first `c`.
pub open spec fn agree(s: Seq<u8>, u: Seq<u8>, c: nat) -> bool {
    &&& c <= s.len()
    &&& c <= u.len()
    &&& forall|i: int| 0 <= i < c ==> s[i] == u[i]
}

/// Agreement on a prefix gives equal subranges within it, and agreement
/// on the rest after skipping part of it.
proof fn lemma_agree_parts(s: Seq<u8>, u: Seq<u8>, c: nat, a: nat, b: nat)
    requires
        agree(s, u, c),
        a <= b <= c,
    ensures
        s.subrange(a as int, b as int) == u.subrange(a as int, b as int),
        s.take(b as int) == u.take(b as int),
        agree(s.skip(a as int), u.skip(a as int), (c - a) as nat),
        agree(s, u, b),
{
    assert(s.subrange(a as int, b as int) =~= u.subrange(a as int, b as int));
    assert(s.take(b as int) =~= u.take(b as int));
    assert forall|i: int| 0 <= i < c - a implies s.skip(a as int)[i] == u.skip(a as int)[i] by {
        assert(s[a + i] == u[a + i]);
    }
}

/// A CompactSize reads only the bytes it consumes.
proof fn lemma_compact_agree(s: Seq<u8>, u: Seq<u8>)
    ensures
        sp_compact(s) matches Ok((v, c)) && agree(s, u, c) ==> sp_compact(u) == sp_compact(s),
{
    if let Ok((v, c)) = sp_compact(s) {
        if agree(s, u, c) {
            assert(s[0] == u[0]);
            if s[0] >= 0xfd {
                let w: nat = (c - 1) as nat;
                lemma_agree_parts(s, u, c, 1, c);
                assert(s.drop_first().take(w as int) =~= s.subrange(1, c as int));
                assert(u.drop_first().take(w as int) =~= u.subrange(1, c as int));
            }
        }
    }
}

/// Raw bytes read only what they consume.
proof fn lemma_take_agree(s: Seq<u8>, u: Seq<u8>, n: nat, ctx: Seq<char>)
    ensures
        sp_take(s, n, ctx) matches Ok((b, c)) && agree(s, u, c) ==> sp_take(u, n, ctx) == sp_take(s, n, ctx),
{
    if let Ok((b, c)) = sp_take(s, n, ctx) {
        if agree(s, u, c) {
            lemma_agree_parts(s, u, c, 0, c);
        }
    }
}

/// A length-prefixed byte string reads only what it consumes.
proof fn lemma_var_bytes_agree(s: Seq<u8>, u: Seq<u8>)
    ensures
        sp_var_bytes(s) matches Ok((b, c)) && agree(s, u, c) ==> sp_var_bytes(u) == sp_var_bytes(s),
{
    if let Ok((b, c)) = sp_var_bytes(s) {
        if agree(s, u, c) {
            let (len, c1) = sp_compact(s)->Ok_0;
            lemma_agree_parts(s, u, c, 0, c1);
            lemma_compact_agree(s, u);
            lemma_agree_parts(s, u, c, c1, c);
            lemma_take_agree(s.skip(c1 as int), u.skip(c1 as int), len as nat, "read_bytes"@);
        }
    }
}

/// An input reads only what it consumes.
proof fn lemma_input_agree(s: Seq<u8>, u: Seq<u8>)
    ensures
        sp_input(s) matches Ok((i, c)) && agree(s, u, c) ==> sp_input(u) == sp_input(s),
{
    if let Ok((i, c)) = sp_input(s) {
        if agree(s, u, c) {
            let (script, cs) = sp_var_bytes(s.skip(36))->Ok_0;
            let p = 36 + cs;
            lemma_agree_parts(s, u, c, 0, 32);
            lemma_agree_parts(s, u, c, 32, 36);
            lemma_agree_parts(s, u, c, 36, c);
            lemma_agree_parts(s.skip(36), u.skip(36), (c - 36) as nat, 0, cs);
            lemma_var_bytes_agree(s.skip(36), u.skip(36));
            lemma_agree_parts(s, u, c, p, p + 4);
        }
    }
}

/// An output reads only what it consumes.
proof fn lemma_output_agree(s: Seq<u8>, u: Seq<u8>)
    ensures
        sp_output(s) matches Ok((o, c)) && agree(s, u, c) ==> sp_output(u) == sp_output(s),
{
    if let Ok((o, c)) = sp_output(s) {
        if agree(s, u, c) {
            lemma_agree_parts(s, u, c, 0, 8);
            lemma_agree_parts(s, u, c, 8, c);
            lemma_var_bytes_agree(s.skip(8), u.skip(8));
        }
    }
}

/// Whether `item` reads only the bytes it consumes.
pub open spec fn prefix_stable<T>(item: spec_fn(Seq<u8>) -> Result<(T, nat), ErrorKind>) -> bool {
    forall|a: Seq<u8>, b: Seq<u8>|
        #![trigger item(a), item(b)]
        (item(a) matches Ok((x, k)) && agree(a, b, k)) ==> item(b) == item(a)
}

/// A run of items that each read only what they consume reads only what
/// it consumes.
proof fn lemma_many_agree<T>(s: Seq<u8>, u: Seq<u8>, n: nat, item: spec_fn(Seq<u8>) -> Result<(T, nat), ErrorKind>)
    requires
        prefix_stable(item),
    ensures
        sp_many(s, n, item) matches Ok((xs, c)) && agree(s, u, c) ==> sp_many(u, n, item) == sp_many(s, n, item),
    decreases n,
{
    if n > 0 {
        if let Ok((xs, c)) = sp_many(s, n, item) {
            if agree(s, u, c) {
                let (ys, c1) = sp_many(s, (n - 1) as nat, item)->Ok_0;
                let (x, c2) = item(s.skip(c1 as int))->Ok_0;
                lemma_agree_parts(s, u, c, 0, c1);
                lemma_many_agree(s, u, (n - 1) as nat, item);
                lemma_agree_parts(s, u, c, c1, c);
                assert(item(u.skip(c1 as int)) == item(s.skip(c1 as int)));
            }
        }
    }
}

/// The item parsers read only what they consume.
proof fn lemma_items_stable()
    ensures
        prefix_stable(var_bytes_item()),
        prefix_stable(input_item()),
        prefix_stable(output_item()),
        prefix_stable(witness_item()),
{
    assert forall|a: Seq<u8>, b: Seq<u8>|
        #![trigger var_bytes_item()(a), var_bytes_item()(b)]
        (var_bytes_item()(a) matches Ok((x, k)) && agree(a, b, k)) implies var_bytes_item()(b)
        == var_bytes_item()(a) by {
        lemma_var_bytes_agree(a, b);
    }
    assert forall|a: Seq<u8>, b: Seq<u8>|
        #![trigger input_item()(a), input_item()(b)]
        (input_item()(a) matches Ok((x, k)) && agree(a, b, k)) implies input_item()(b)
        == input_item()(a) by {
        lemma_input_agree(a, b);
    }
    assert forall|a: Seq<u8>, b: Seq<u8>|
        #![trigger output_item()(a), output_item()(b)]
        (output_item()(a) matches Ok((x, k)) && agree(a, b, k)) implies output_item()(b)
        == output_item()(a) by {
        lemma_output_agree(a, b);
    }
    assert forall|a: Seq<u8>, b: Seq<u8>|
        #![trigger witness_item()(a), witness_item()(b)]
        (witness_item()(a) matches Ok((x, k)) && agree(a, b, k)) implies witness_item()(b)
        == witness_item()(a) by {
        if let Ok((x, k)) = sp_witness(a) {
            if agree(a, b, k) {
                let (n, c) = sp_compact(a)->Ok_0;
                lemma_agree_parts(a, b, k, 0, c);
                lemma_compact_agree(a, b);
                lemma_agree_parts(a, b, k, c, k);
                lemma_many_agree(a.skip(c as int), b.skip(c as int), n as nat, var_bytes_item());
            }
        }
    }
}

/// The header reads only what it consumes.
proof fn lemma_header_agree(s: Seq<u8>, u: Seq<u8>)
    ensures
        sp_tx_header(s) matches Ok((w, n, p)) && agree(s, u, p) ==> sp_tx_header(u) == sp_tx_header(s),
{
    if let Ok((w, n, p)) = sp_tx_header(s) {
        if agree(s, u, p) {
            assert(s[4] == u[4]);
            if s[4] == 0 {
                assert(s[5] == u[5]);
                lemma_agree_parts(s, u, p, 6, p);
                lemma_compact_agree(s.skip(6), u.skip(6));
            } else {
                lemma_agree_parts(s, u, p, 4, p);
                lemma_compact_agree(s.skip(4), u.skip(4));
                assert(s.skip(4).drop_first() =~= s.skip(5));
                assert(u.skip(4).drop_first() =~= u.skip(5));
                assert(spec_compact_size_after(s[4], s.skip(5)) == spec_compact_size(s.skip(4)));
                assert(spec_compact_size_after(u[4], u.skip(5)) == spec_compact_size(u.skip(4)));
            }
        }
    }
}

/// The tail reads only what it consumes.
proof fn lemma_tail_agree(s: Seq<u8>, u: Seq<u8>, segwit: bool, ins: Seq<InputModel>)
    ensures
        sp_tx_tail(s, segwit, ins) matches Ok((a, b, l, c)) && agree(s, u, c) ==> sp_tx_tail(u, segwit, ins)
            == sp_tx_tail(s, segwit, ins),
{
    if let Ok((a, b, l, c)) = sp_tx_tail(s, segwit, ins) {
        if agree(s, u, c) {
            lemma_items_stable();
            let (n_out, c1) = sp_compact(s)->Ok_0;
            lemma_agree_parts(s, u, c, 0, c1);
            lemma_compact_agree(s, u);
            let (outs, c2) = sp_many(s.skip(c1 as int), n_out as nat, output_item())->Ok_0;
            lemma_agree_parts(s, u, c, c1, c);
            lemma_agree_parts(s.skip(c1 as int), u.skip(c1 as int), (c - c1) as nat, 0, c2);
            lemma_many_agree(s.skip(c1 as int), u.skip(c1 as int), n_out as nat, output_item());
            let p = c1 + c2;
            lemma_agree_parts(s, u, c, p, c);
            if segwit {
                let (ws, c3) = sp_many(s.skip(p as int), ins.len(), witness_item())->Ok_0;
                lemma_agree_parts(s.skip(p as int), u.skip(p as int), (c - p) as nat, 0, c3);
                lemma_many_agree(s.skip(p as int), u.skip(p as int), ins.len(), witness_item());
                lemma_agree_parts(s, u, c, p + c3, c);
            } else {
                lemma_agree_parts(s, u, c, p, c);
            }
        }
    }
}

/// Trailing bytes: a transaction parses the same whatever follows the
/// bytes it occupies, since the parser reads none of them.
pub proof fn lemma_parse_tx_prefix(s: Seq<u8>, t: Seq<u8>)
    ensures
        spec_parse_tx(s) matches Ok((m, n)) ==> spec_parse_tx(s.take(n as int) + t) == spec_parse_tx(s),
{
    if let Ok((m, n)) = spec_parse_tx(s) {
        lemma_legacy_len(s);
        let u = s.take(n as int) + t;
        assert(agree(s, u, n));
        lemma_items_stable();
        let (segwit, n_in, p) = sp_tx_header(s)->Ok_0;
        lemma_agree_parts(s, u, n, 0, p);
        lemma_header_agree(s, u);
        let (ins, c) = sp_many(s.skip(p as int), n_in as nat, input_item())->Ok_0;
        lemma_agree_parts(s, u, n, p, n);
        lemma_agree_parts(s.skip(p as int), u.skip(p as int), (n - p) as nat, 0, c);
        lemma_many_agree(s.skip(p as int), u.skip(p as int), n_in as nat, input_item());
        lemma_agree_parts(s, u, n, p + c, n);
        lemma_tail_agree(s.skip((p + c) as int), u.skip((p + c) as int), segwit, ins);
        lemma_agree_parts(s, u, n, 0, 4);
    }
}

// ─── Executable parser ───────────────────────────────────────────────────────

/// Copy a 32-byte slice into an array.
pub fn to_array32(b: &[u8]) -> (a: [u8; 32])
    requires
        b@.len() == 32,
    ensures
        a@ == b@,
{
    let mut a = [0u8; 32];
    let mut i: usize = 0;
    while i < 32
        invariant
            i <= 32,
            b@.len() == 32,
            forall|j: int| 0 <= j < i ==> a@[j] == b@[j],
        decreases 32 - i,
    {
        a[i] = b[i];
        i = i + 1;
    }
    assert(a@ =~= b@);
    a
}

/// Read a CompactSize length and that many bytes.
fn parse_var_bytes<'a>(r: &mut BufferReader<'a>) -> (res: Result<&'a [u8], ChainError>)
    requires
        old(r).wf(),
    ensures
        final(r).data() == old(r).data(),
        final(r).wf(),
        match res {
            Ok(b) => sp_var_bytes(old(r).rest()) matches Ok((v, c)) && b@ == v && final(r).pos()
                == old(r).pos() + c,
            Err(e) => sp_var_bytes(old(r).rest()) matches Err(k) && e.kind() == k,
        },
{
    let ghost r0 = *r;
    let len = r.read_compact_size()?;
    proof {
        lemma_rest_advance(r0, *r, (r.pos() - r0.pos()) as nat);
    }
    if len > r.remaining() as u64 {
        return Err(ChainError::UnexpectedEof { context: "read_bytes" });
    }
    r.read_bytes(len as usize)
}

/// Read one input (txid, vout, scriptSig, sequence) with an empty witness.
fn parse_input<'a>(r: &mut BufferReader<'a>) -> (res: Result<RawInput<'a>, ChainError>)
    requires
        old(r).wf(),
    ensures
        final(r).data() == old(r).data(),
        final(r).wf(),
        match res {
            Ok(i) => sp_input(old(r).rest()) matches Ok((v, c)) && i@ == v && final(r).pos()
                == old(r).pos() + c,
            Err(e) => sp_input(old(r).rest()) matches Err(k) && e.kind() == k,
        },
{
    let ghost r0 = *r;
    let txid_bytes = r.read_bytes(32)?;
    let ghost ra = *r;
    proof {
        lemma_rest_advance(r0, ra, 32);
    }
    let txid = to_array32(txid_bytes);
    let vout = r.read_u32_le()?;
    let ghost r1 = *r;
    proof {
        lemma_rest_advance(r0, r1, 36);
    }
    let script_sig = parse_var_bytes(r)?;
    let ghost r2 = *r;
    proof {
        lemma_rest_advance(r0, r2, (r2.pos() - r0.pos()) as nat);
    }
    let sequence = r.read_u32_le()?;
    proof {
        assert(r0.rest().skip(32).take(4) =~= r0.rest().subrange(32, 36));
        let p = (r2.pos() - r0.pos()) as int;
        assert(r0.rest().skip(p).take(4) =~= r0.rest().subrange(p, p + 4));
        assert(r0.rest().take(32) =~= txid_bytes@);
    }
    let input = RawInput { txid, vout, script_sig, sequence, witness: Vec::new() };
    proof {
        assert(witness_view(input.witness@) =~= Seq::<Seq<u8>>::empty());
    }
    Ok(input)
}

/// Read one output (value, scriptPubKey).
fn parse_output<'a>(r: &mut BufferReader<'a>) -> (res: Result<RawOutput<'a>, ChainError>)
    requires
        old(r).wf(),
    ensures
        final(r).data() == old(r).data(),
        final(r).wf(),
        match res {
            Ok(o) => sp_output(old(r).rest()) matches Ok((v, c)) && o@ == v && final(r).pos()
                == old(r).pos() + c,
            Err(e) => sp_output(old(r).rest()) matches Err(k) && e.kind() == k,
        },
{
    let ghost r0 = *r;
    let value = r.read_u64_le()?;
    proof {
        lemma_rest_advance(r0, *r, 8);
    }
    let script_pubkey = parse_var_bytes(r)?;
    Ok(RawOutput { value, script_pubkey })
}

/// Read one witness stack.
fn parse_witness<'a>(r: &mut BufferReader<'a>) -> (res: Result<Vec<&'a [u8]>, ChainError>)
    requires
        old(r).wf(),
    ensures
        final(r).data() == old(r).data(),
        final(r).wf(),
        match res {
            Ok(w) => sp_witness(old(r).rest()) matches Ok((v, c)) && witness_view(w@) == v
                && final(r).pos() == old(r).pos() + c,
            Err(e) => sp_witness(old(r).rest()) matches Err(k) && e.kind() == k,
        },
{
    let ghost r0 = *r;
    let item_count = r.read_compact_size()?;
    let ghost start = r.pos();
    let ghost c = (start - r0.pos()) as nat;
    let ghost s = r0.rest().skip(c as int);
    proof {
        lemma_rest_advance(r0, *r, c);
        assert(sp_compact(r0.rest()) == Ok::<(u64, nat), ErrorKind>((item_count, c)));
        assert(s.skip(0) =~= s);
    }
    let mut stack: Vec<&'a [u8]> = Vec::new();
    proof {
        assert(witness_view(stack@) =~= Seq::<Seq<u8>>::empty());
    }
    let mut k: u64 = 0;
    while k < item_count
        invariant
            r.wf(),
            r0 == *old(r),
            r.data() == r0.data(),
            r0.wf(),
            start <= r.pos(),
            s == r0.rest().skip((start - r0.pos()) as int),
            c == start - r0.pos(),
            sp_compact(r0.rest()) == Ok::<(u64, nat), ErrorKind>((item_count, c)),
            r.rest() == s.skip((r.pos() - start) as int),
            k <= item_count,
            sp_many(s, k as nat, var_bytes_item()) == Ok::<(Seq<Seq<u8>>, nat), ErrorKind>(
                (witness_view(stack@), (r.pos() - start) as nat),
            ),
        decreases item_count - k,
    {
        let ghost rk = *r;
        let item = match parse_var_bytes(r) {
            Ok(b) => b,
            Err(e) => {
                proof {
                    lemma_many_err(s, k as nat, item_count as nat, var_bytes_item());
                    assert(sp_many(s, item_count as nat, var_bytes_item()) == Err::<
                        (Seq<Seq<u8>>, nat),
                        ErrorKind,
                    >(e.kind()));
                }
                return Err(e);
            },
        };
        let ghost prev = stack@;
        stack.push(item);
        proof {
            assert(witness_view(stack@) =~= witness_view(prev).push(item@));
            lemma_rest_advance(rk, *r, (r.pos() - rk.pos()) as nat);
            lemma_skip_skip(s, rk.pos() - start, r.pos() - rk.pos());
        }
        k = k + 1;
    }
    proof {
        assert(sp_many(s, item_count as nat, var_bytes_item()) == Ok::<
            (Seq<Seq<u8>>, nat),
            ErrorKind,
        >((witness_view(stack@), (r.pos() - start) as nat)));
    }
    Ok(stack)
}

/// Read everything after the inputs: outputs, witness stacks (SegWit only),
/// locktime. The inputs come back with their witness stacks attached.
#[verifier::spinoff_prover]
#[verifier::rlimit(40)]
fn parse_tx_tail<'a>(r: &mut BufferReader<'a>, is_segwit: bool, inputs: Vec<RawInput<'a>>) -> (res:
    Result<(Vec<RawInput<'a>>, Vec<RawOutput<'a>>, u32), ChainError>)
    requires
        old(r).wf(),
        forall|j: int| 0 <= j < inputs@.len() ==> inputs@[j].witness@.len() == 0,
    ensures
        final(r).data() == old(r).data(),
        final(r).wf(),
        match res {
            Ok((ins, outs, lt)) => sp_tx_tail(old(r).rest(), is_segwit, inputs_view(inputs@)) matches Ok(
                (vi, vo, vl, c),
            ) && inputs_view(ins@) == vi && outputs_view(outs@) == vo && lt == vl && final(r).pos()
                == old(r).pos() + c,
            Err(e) => sp_tx_tail(old(r).rest(), is_segwit, inputs_view(inputs@)) matches Err(k)
                && e.kind() == k,
        },
{
    let ghost r0 = *r;
    let ghost ins0 = inputs_view(inputs@);
    let output_count = r.read_compact_size()?;
    let ghost start = r.pos();
    let ghost c1 = (start - r0.pos()) as nat;
    let ghost s = r0.rest().skip(c1 as int);
    proof {
        lemma_rest_advance(r0, *r, c1);
        assert(sp_compact(r0.rest()) == Ok::<(u64, nat), ErrorKind>((output_count, c1)));
        assert(s.skip(0) =~= s);
    }
    let mut outputs: Vec<RawOutput<'a>> = Vec::new();
    proof {
        assert(outputs_view(outputs@) =~= Seq::<OutputModel>::empty());
    }
    let mut k: u64 = 0;
    while k < output_count
        invariant
            r.wf(),
            r0 == *old(r),
            r.data() == r0.data(),
            r0.wf(),
            start <= r.pos(),
            s == r0.rest().skip(c1 as int),
            c1 == start - r0.pos(),
            sp_compact(r0.rest()) == Ok::<(u64, nat), ErrorKind>((output_count, c1)),
            r.rest() == s.skip((r.pos() - start) as int),
            k <= output_count,
            sp_many(s, k as nat, output_item()) == Ok::<(Seq<OutputModel>, nat), ErrorKind>(
                (outputs_view(outputs@), (r.pos() - start) as nat),
            ),
        decreases output_count - k,
    {
        let ghost rk = *r;
        let out = match parse_output(r) {
            Ok(o) => o,
            Err(e) => {
                proof {
                    lemma_many_err(s, k as nat, output_count as nat, output_item());
                }
                return Err(e);
            },
        };
        let ghost prev = outputs@;
        outputs.push(out);
        proof {
            assert(outputs_view(outputs@) =~= outputs_view(prev).push(out@));
            lemma_rest_advance(rk, *r, (r.pos() - rk.pos()) as nat);
            lemma_skip_skip(s, rk.pos() - start, r.pos() - rk.pos());
        }
        k = k + 1;
    }
    let ghost c2 = (r.pos() - start) as nat;
    let ghost outs_v = outputs_view(outputs@);
    let ghost p = c1 + c2;
    let ghost wstart = r.pos();
    let ghost sw = r0.rest().skip(p as int);
    proof {
        lemma_rest_advance(r0, *r, p);
        assert(sw.skip(0) =~= sw);
    }
    let mut ins = inputs;
    let n_in = ins.len();
    if is_segwit {
        let mut i: usize = 0;
        while i < n_in
            invariant
                r.wf(),
                r0 == *old(r),
                r.data() == r0.data(),
                r0.wf(),
                is_segwit,
                wstart <= r.pos(),
                sw == r0.rest().skip(p as int),
                wstart == r0.pos() + p,
                r.rest() == sw.skip((r.pos() - wstart) as int),
                n_in == ins0.len(),
                ins0 == inputs_view(inputs@),
                i <= n_in,
                ins@.len() == n_in,
                sp_many(s, output_count as nat, output_item()) == Ok::<(Seq<OutputModel>, nat), ErrorKind>((outs_v, c2)),
                s == r0.rest().skip(c1 as int),
                sp_compact(r0.rest()) == Ok::<(u64, nat), ErrorKind>((output_count, c1)),
                p == c1 + c2,
                outs_v == outputs_view(outputs@),
                sp_many(sw, i as nat, witness_item()) matches Ok((ws, cw)) && cw == r.pos() - wstart
                    && forall|j: int| 0 <= j < n_in ==> #[trigger] ins@[j]@ == (if j < i {
                        InputModel { witness: ws[j], ..ins0[j] }
                    } else {
                        ins0[j]
                    }),
            decreases n_in - i,
        {
            let ghost rk = *r;
            let ghost ws_prev = sp_many(sw, i as nat, witness_item())->Ok_0.0;
            let stack = match parse_witness(r) {
                Ok(w) => w,
                Err(e) => {
                    proof {
                        lemma_many_err(sw, i as nat, n_in as nat, witness_item());
                        assert(sp_many(sw, n_in as nat, witness_item()) == Err::<
                            (Seq<Seq<Seq<u8>>>, nat),
                            ErrorKind,
                        >(e.kind()));
                        assert(sp_tx_tail(r0.rest(), is_segwit, ins0) == Err::<
                            (Seq<InputModel>, Seq<OutputModel>, u32, nat),
                            ErrorKind,
                        >(e.kind()));
                    }
                    return Err(e);
                },
            };
            let old_input = &ins[i];
            let updated = RawInput {
                txid: old_input.txid,
                vout: old_input.vout,
                script_sig: old_input.script_sig,
                sequence: old_input.sequence,
                witness: stack,
            };
            let ghost inputs_prev = ins@;
            ins.set(i, updated);
            proof {
                lemma_rest_advance(rk, *r, (r.pos() - rk.pos()) as nat);
                lemma_skip_skip(sw, rk.pos() - wstart, r.pos() - rk.pos());
                let ws = sp_many(sw, (i + 1) as nat, witness_item())->Ok_0.0;
                lemma_many_len(sw, i as nat, witness_item());
                assert(ws == ws_prev.push(witness_view(stack@)));
                assert forall|j: int| 0 <= j < n_in implies #[trigger] ins@[j]@ == (if j < i + 1 {
                    InputModel { witness: ws[j], ..ins0[j] }
                } else {
                    ins0[j]
                }) by {
                    if j < i {
                        assert(ws[j] == ws_prev[j]);
                        assert(ins@[j] == inputs_prev[j]);
                        assert(inputs_prev[j]@ == InputModel { witness: ws_prev[j], ..ins0[j] });
                    } else if j == i {
                        assert(inputs_prev[j]@ == ins0[j]);
                        assert(ins@[j] == updated);
                    } else {
                        assert(ins@[j] == inputs_prev[j]);
                        assert(inputs_prev[j]@ == ins0[j]);
                    }
                }
            }
            i = i + 1;
        }
        proof {
            let ws = sp_many(sw, n_in as nat, witness_item())->Ok_0.0;
            assert(inputs_view(ins@) =~= attach_witnesses(ins0, ws));
        }
    } else {
        proof {
            let ws = Seq::new(ins0.len(), |j: int| Seq::<Seq<u8>>::empty());
            assert forall|j: int| 0 <= j < ins0.len() implies ins0[j].witness =~= ws[j] by {
                assert(ins0[j] == ins@[j]@);
            }
            assert(inputs_view(ins@) =~= attach_witnesses(ins0, ws));
        }
    }
    let ghost q = r.pos() - r0.pos();
    proof {
        lemma_rest_advance(r0, *r, q as nat);
    }
    let locktime = match r.read_u32_le() {
        Ok(v) => v,
        Err(e) => {
            return Err(e);
        },
    };
    proof {
        assert(r0.rest().skip(q as int).take(4) =~= r0.rest().subrange(q as int, q + 4));
    }
    Ok((ins, outputs, locktime))
}

/// Append `b` to `out`.
pub fn push_bytes(out: &mut Vec<u8>, b: &[u8])
    ensures
        final(out)@ == old(out)@ + b@,
{
    let mut i: usize = 0;
    while i < b.len()
        invariant
            i <= b@.len(),
            out@ == old(out)@ + b@.take(i as int),
        decreases b@.len() - i,
    {
        out.push(b[i]);
        proof {
            assert(b@.take(i + 1) =~= b@.take(i as int).push(b@[i as int]));
        }
        i = i + 1;
    }
    proof {
        assert(b@.take(i as int) =~= b@);
    }
}

/// Append the `n` little-endian bytes of `v`.
fn push_le(out: &mut Vec<u8>, v: u64, n: usize)
    requires
        n <= 8,
    ensures
        final(out)@ == old(out)@ + spec_le_bytes(v as nat, n as nat),
    decreases n,
{
    if n > 0 {
        out.push((v % 256) as u8);
        let ghost mid = out@;
        push_le(out, v / 256, n - 1);
        proof {
            assert(out@ =~= old(out)@ + spec_le_bytes(v as nat, n as nat));
        }
    } else {
        proof {
            assert(out@ =~= old(out)@ + spec_le_bytes(v as nat, n as nat));
        }
    }
}

/// Serialize a CompactSize integer into `out` (canonical encoding).
pub fn write_compact_size(out: &mut Vec<u8>, v: u64)
    ensures
        final(out)@ == old(out)@ + spec_compact_bytes(v as nat),
{
    if v <= 0xfc {
        out.push(v as u8);
        proof {
            assert(out@ =~= old(out)@ + spec_compact_bytes(v as nat));
        }
    } else if v <= 0xffff {
        out.push(0xfd);
        push_le(out, v, 2);
        proof {
            assert(out@ =~= old(out)@ + spec_compact_bytes(v as nat));
        }
    } else if v <= 0xffff_ffff {
        out.push(0xfe);
        push_le(out, v, 4);
        proof {
            assert(out@ =~= old(out)@ + spec_compact_bytes(v as nat));
        }
    } else {
        out.push(0xff);
        push_le(out, v, 8);
        proof {
            assert(out@ =~= old(out)@ + spec_compact_bytes(v as nat));
        }
    }
}

/// Reconstruct the legacy (non-witness) serialization.
///
/// Layout: version (4) | inputs | outputs | locktime (4); no marker, flag or
/// witness data.
pub fn build_legacy_serialization(
    version: i32,
    inputs: &[RawInput<'_>],
    outputs: &[RawOutput<'_>],
    locktime: u32,
) -> (out: Vec<u8>)
    ensures
        out@ == spec_legacy_parts(version, inputs_view(inputs@), outputs_view(outputs@), locktime),
{
    let mut out: Vec<u8> = Vec::new();
    let vbits: u64 = if version >= 0 {
        version as u64
    } else {
        (version as i64 + 0x1_0000_0000i64) as u64
    };
    push_le(&mut out, vbits, 4);
    write_compact_size(&mut out, inputs.len() as u64);
    let ghost head = out@;
    let ghost ins = inputs_view(inputs@);
    let mut i: usize = 0;
    while i < inputs.len()
        invariant
            i <= inputs@.len(),
            ins == inputs_view(inputs@),
            out@ == head + spec_inputs_bytes(ins.take(i as int)),
        decreases inputs@.len() - i,
    {
        let inp = &inputs[i];
        push_bytes(&mut out, inp.txid.as_slice());
        push_le(&mut out, inp.vout as u64, 4);
        write_compact_size(&mut out, inp.script_sig.len() as u64);
        push_bytes(&mut out, inp.script_sig);
        push_le(&mut out, inp.sequence as u64, 4);
        proof {
            assert(ins.take(i + 1).drop_last() =~= ins.take(i as int));
            assert(ins[i as int] == inp@);
            assert(out@ =~= head + spec_inputs_bytes(ins.take(i + 1)));
        }
        i = i + 1;
    }
    proof {
        assert(ins.take(i as int) =~= ins);
    }
    write_compact_size(&mut out, outputs.len() as u64);
    let ghost head2 = out@;
    let ghost outs = outputs_view(outputs@);
    let mut j: usize = 0;
    while j < outputs.len()
        invariant
            j <= outputs@.len(),
            outs == outputs_view(outputs@),
            out@ == head2 + spec_outputs_bytes(outs.take(j as int)),
        decreases outputs@.len() - j,
    {
        let o = &outputs[j];
        push_le(&mut out, o.value, 8);
        write_compact_size(&mut out, o.script_pubkey.len() as u64);
        push_bytes(&mut out, o.script_pubkey);
        proof {
            assert(outs.take(j + 1).drop_last() =~= outs.take(j as int));
            assert(outs[j as int] == o@);
            assert(out@ =~= head2 + spec_outputs_bytes(outs.take(j + 1)));
        }
        j = j + 1;
    }
    proof {
        assert(outs.take(j as int) =~= outs);
    }
    push_le(&mut out, locktime as u64, 4);
    proof {
        assert(out@ =~= spec_legacy_parts(version, ins, outs, locktime));
    }
    out
}

/// The detail message of a bad SegWit flag byte.
fn segwit_flag_detail(flag: u8) -> (d: String)
    ensures
        d@ == segwit_flag_text(flag),
{
    let mut d = "expected 0x01, got 0x".to_owned();
    push_hex_fixed(&mut d, flag as u64, 2);
    d
}

/// Read the version and the marker/flag or legacy input count.
fn parse_tx_header<'a>(r: &mut BufferReader<'a>) -> (res: Result<(i32, bool, u64), ChainError>)
    requires
        old(r).wf(),
    ensures
        final(r).data() == old(r).data(),
        final(r).wf(),
        match res {
            Ok((v, segwit, n)) => sp_tx_header(old(r).rest()) matches Ok((sw, sn, c)) && segwit == sw
                && n == sn && final(r).pos() == old(r).pos() + c && old(r).rest().len() >= 4 && v
                == spec_i32_from_le(old(r).rest().take(4)),
            Err(e) => sp_tx_header(old(r).rest()) matches Err(k) && e.kind() == k,
        },
{
    let ghost r0 = *r;
    let version = r.read_i32_le()?;
    let ghost r4 = *r;
    proof {
        lemma_rest_advance(r0, r4, 4);
    }
    let peek = r.read_u8()?;
    if peek == 0 {
        let ghost r5 = *r;
        proof {
            lemma_rest_advance(r0, r5, 5);
        }
        let flag = r.read_u8()?;
        if flag != 0x01 {
            return Err(ChainError::InvalidField { field: "segwit_flag", detail: segwit_flag_detail(flag) });
        }
        let ghost r6 = *r;
        proof {
            lemma_rest_advance(r0, r6, 6);
        }
        let n = r.read_compact_size()?;
        Ok((version, true, n))
    } else {
        let ghost r5 = *r;
        proof {
            lemma_rest_advance(r0, r5, 5);
        }
        let n = r.read_compact_continuation(peek)?;
        Ok((version, false, n))
    }
}

/// Read `count` inputs in a row.
fn parse_inputs<'a>(r: &mut BufferReader<'a>, count: u64) -> (res: Result<Vec<RawInput<'a>>, ChainError>)
    requires
        old(r).wf(),
    ensures
        final(r).data() == old(r).data(),
        final(r).wf(),
        match res {
            Ok(ins) => sp_many(old(r).rest(), count as nat, input_item()) matches Ok((v, c))
                && inputs_view(ins@) == v && final(r).pos() == old(r).pos() + c && forall|j: int|
                0 <= j < ins@.len() ==> ins@[j].witness@.len() == 0,
            Err(e) => sp_many(old(r).rest(), count as nat, input_item()) matches Err(k) && e.kind()
                == k,
        },
{
    let ghost r0 = *r;
    let ghost s = r0.rest();
    proof {
        assert(s.skip(0) =~= s);
    }
    let mut inputs: Vec<RawInput<'a>> = Vec::new();
    proof {
        assert(inputs_view(inputs@) =~= Seq::<InputModel>::empty());
    }
    let mut k: u64 = 0;
    while k < count
        invariant
            r.wf(),
            r0 == *old(r),
            r0.wf(),
            r.data() == r0.data(),
            r0.pos() <= r.pos(),
            s == r0.rest(),
            r.rest() == s.skip((r.pos() - r0.pos()) as int),
            k <= count,
            sp_many(s, k as nat, input_item()) == Ok::<(Seq<InputModel>, nat), ErrorKind>(
                (inputs_view(inputs@), (r.pos() - r0.pos()) as nat),
            ),
            forall|j: int| 0 <= j < inputs@.len() ==> inputs@[j].witness@.len() == 0,
        decreases count - k,
    {
        let ghost rk = *r;
        let inp = match parse_input(r) {
            Ok(i) => i,
            Err(e) => {
                proof {
                    lemma_many_err(s, k as nat, count as nat, input_item());
                }
                return Err(e);
            },
        };
        let ghost prev = inputs@;
        proof {
            assert(witness_view(inp.witness@).len() == 0);
        }
        inputs.push(inp);
        proof {
            assert(inputs_view(inputs@) =~= inputs_view(prev).push(inp@));
            lemma_rest_advance(rk, *r, (r.pos() - rk.pos()) as nat);
            lemma_skip_skip(s, rk.pos() - r0.pos(), r.pos() - rk.pos());
        }
        k = k + 1;
    }
    Ok(inputs)
}

/// Parse a raw Bitcoin transaction from the start of a byte slice.
///
/// Returns a `RawTransaction<'a>` whose borrowed fields point directly into
/// `data` (zero-copy). The only allocation besides the vectors of inputs,
/// outputs and witness items is `legacy_bytes`, the non-witness serialization
/// needed for txid hashing.
///
/// Wire format:
/// ```text
/// [version: i32 le]
/// [marker: 0x00, flag: 0x01]  <- SegWit only
/// [input_count: CompactSize]
/// [inputs: ...]
/// [output_count: CompactSize]
/// [outputs: ...]
/// [witness: ...]               <- SegWit only, one stack per input
/// [locktime: u32 le]
/// ```
pub fn parse_tx<'a>(data: &'a [u8]) -> (res: Result<RawTransaction<'a>, ChainError>)
    ensures
        match res {
            Ok(tx) => spec_parse_tx(data@) matches Ok((m, n)) && tx@ == m && n <= data@.len()
                && tx.full_bytes@ == data@.take(n as int) && tx.legacy_bytes@ == spec_legacy_bytes(m),
            Err(e) => spec_parse_tx(data@) matches Err(k) && e.kind() == k,
        },
{
    let mut r = BufferReader::new(data);
    let ghost r0 = r;
    proof {
        assert(r0.rest() =~= data@);
    }
    let (version, is_segwit, input_count) = parse_tx_header(&mut r)?;
    let ghost p = r.pos();
    if input_count == 0 {
        return Err(
            ChainError::InvalidField {
                field: "input_count",
                detail: "transaction must have at least one input".to_owned(),
            },
        );
    }
    proof {
        lemma_rest_advance(r0, r, p);
    }
    let inputs = parse_inputs(&mut r, input_count)?;
    let ghost c = (r.pos() - p) as nat;
    proof {
        lemma_rest_advance(r0, r, p + c);
    }
    let (inputs, outputs, locktime) = parse_tx_tail(&mut r, is_segwit, inputs)?;
    let consumed = r.position();
    let full_bytes = vstd::slice::slice_subrange(data, 0, consumed);
    let legacy_bytes = build_legacy_serialization(
        version,
        inputs.as_slice(),
        outputs.as_slice(),
        locktime,
    );
    let tx = RawTransaction {
        version,
        inputs,
        outputs,
        locktime,
        is_segwit,
        legacy_bytes,
        full_bytes,
    };
    proof {
        assert(full_bytes@ =~= data@.take(consumed as int));
    }
    Ok(tx)
}

} // verus!
