//! Parsing of Bitcoin Core undo files (`rev*.dat`).

use vstd::prelude::*;
use vstd::arithmetic::div_mod::{lemma_fundamental_div_mod, lemma_fundamental_div_mod_converse};

use crate::errors::{ChainError, ErrorKind};
use crate::io::buffer_reader::{le_value, BufferReader};
use crate::parser::bignum::{decompress_pubkey, spec_decompress_pubkey};
use crate::parser::transaction::{
    lemma_many_err, lemma_rest_advance, lemma_skip_skip, push_bytes, sp_compact, sp_many, sp_take,
    to_array32,
};
use crate::types::{prevouts_view, Prevout, PrevoutModel};

verus! {

/// The magic number that opens every record of a mainnet block or undo file.
pub const MAINNET_MAGIC: u32 = 0xD9B4BEF9;

// ─── Bitcoin Core VARINT (base-128, bijective) ───────────────────────────────

/// The largest value that can take seven more bits: `u64::MAX >> 7`.
pub open spec fn varint_limit() -> nat {
    0x01FF_FFFF_FFFF_FFFF
}

/// A Bitcoin Core VARINT from position `i` of `s`, given the value `n` read so
/// far: each byte adds seven bits; a set high bit continues the number and
/// adds one (the encoding is bijective).
pub open spec fn spec_varint_from(s: Seq<u8>, i: nat, n: nat) -> Result<(u64, nat), ErrorKind>
    decreases s.len() - i,
{
    if i >= s.len() {
        Err(ErrorKind::UnexpectedEof("u8"@))
    } else if n > varint_limit() {
        Err(ErrorKind::InvalidVarInt(0))
    } else {
        let n2 = n * 128 + (s[i as int] % 128) as nat;
        if s[i as int] >= 128 {
            if n2 == 0xFFFF_FFFF_FFFF_FFFF {
                Err(ErrorKind::InvalidVarInt(0))
            } else {
                spec_varint_from(s, i + 1, n2 + 1)
            }
        } else {
            Ok((n2 as u64, i + 1))
        }
    }
}

/// A Bitcoin Core VARINT at the start of `s`, with its encoded length.
pub open spec fn sp_varint(s: Seq<u8>) -> Result<(u64, nat), ErrorKind> {
    spec_varint_from(s, 0, 0)
}

/// WriteVarInt of Bitcoin Core (`src/serialize.h`): the base-128 digits of
/// `n`, most significant first, each but the last with its high bit set and
/// each but the last one less than the plain digit (`cont` marks an encoding
/// that more bytes follow).
pub open spec fn spec_varint_bytes(n: nat, cont: bool) -> Seq<u8>
    decreases n,
{
    let last = (n % 128 + if cont {
        128nat
    } else {
        0nat
    }) as u8;
    if n < 128 {
        seq![last]
    } else {
        spec_varint_bytes((n / 128 - 1) as nat, true).push(last)
    }
}

/// Reading the continuation bytes that encode `m` adds `m + 1` to an empty
/// value: a VARINT read through them continues from there.
proof fn lemma_varint_cont(s: Seq<u8>, i: nat, m: nat)
    requires
        m < 0x0200_0000_0000_0000,
        i + spec_varint_bytes(m, true).len() <= s.len(),
        s.subrange(i as int, (i + spec_varint_bytes(m, true).len()) as int) == spec_varint_bytes(m, true),
    ensures
        spec_varint_from(s, i, 0) == spec_varint_from(s, i + spec_varint_bytes(m, true).len(), m + 1),
    decreases m,
{
    let e = spec_varint_bytes(m, true);
    assert(s[i as int] == e[0]);
    if m < 128 {
        assert(e[0] == (m + 128) as u8);
    } else {
        let m2 = (m / 128 - 1) as nat;
        let e2 = spec_varint_bytes(m2, true);
        let l2 = e2.len();
        assert(e == e2.push(e.last()));
        assert(s.subrange(i as int, (i + l2) as int) =~= e2) by {
            assert forall|k: int| 0 <= k < l2 implies s.subrange(i as int, (i + l2) as int)[k] == e2[k] by {
                assert(s.subrange(i as int, (i + e.len()) as int)[k] == e[k]);
            }
        }
        lemma_varint_cont(s, i, m2);
        let j = i + l2;
        assert(s[j as int] == e[l2 as int]);
        assert(e[l2 as int] == (m % 128 + 128) as u8);
        assert((m / 128) * 128 + m % 128 == m) by (nonlinear_arith);
        assert(m / 128 <= varint_limit());
    }
}

/// VARINT round trip: reading the WriteVarInt encoding of any u64 `n`,
/// whatever follows it, gives `n` back and consumes exactly the encoding.
pub proof fn lemma_varint_roundtrip(n: u64, rest: Seq<u8>)
    ensures
        sp_varint(spec_varint_bytes(n as nat, false) + rest) == Ok::<(u64, nat), ErrorKind>(
            (n, spec_varint_bytes(n as nat, false).len()),
        ),
{
    let e = spec_varint_bytes(n as nat, false);
    let s = e + rest;
    if n >= 128 {
        let m = (n / 128 - 1) as nat;
        let e2 = spec_varint_bytes(m, true);
        let l2 = e2.len();
        assert(e == e2.push(e.last()));
        assert(s.subrange(0, l2 as int) =~= e2);
        lemma_varint_cont(s, 0, m);
        assert(s[l2 as int] == (n % 128) as u8);
        assert((n / 128) * 128 + n % 128 == n) by (nonlinear_arith);
    } else {
        assert(s[0] == n as u8);
    }
}

/// Read a Bitcoin Core VARINT (the per-coin fields of rev*.dat; not the
/// CompactSize used for counts).
fn read_varint(r: &mut BufferReader<'_>) -> (res: Result<u64, ChainError>)
    requires
        old(r).wf(),
    ensures
        final(r).data() == old(r).data(),
        final(r).wf(),
        match res {
            Ok(v) => sp_varint(old(r).rest()) matches Ok((w, c)) && v == w && final(r).pos()
                == old(r).pos() + c,
            Err(e) => sp_varint(old(r).rest()) matches Err(k) && e.kind() == k,
        },
{
    let ghost r0 = *r;
    let ghost s = r0.rest();
    let mut n: u64 = 0;
    loop
        invariant
            r.wf(),
            r0 == *old(r),
            r0.wf(),
            r.data() == r0.data(),
            r0.pos() <= r.pos(),
            s == r0.rest(),
            r.rest() == s.skip((r.pos() - r0.pos()) as int),
            spec_varint_from(s, (r.pos() - r0.pos()) as nat, n as nat) == sp_varint(s),
        decreases r.data().len() - r.pos(),
    {
        let ghost i = (r.pos() - r0.pos()) as nat;
        let ghost rk = *r;
        let ch = r.read_u8()?;
        proof {
            lemma_rest_advance(rk, *r, 1);
            lemma_skip_skip(s, i as int, 1);
        }
        if n > 0x01FF_FFFF_FFFF_FFFF {
            return Err(ChainError::InvalidVarInt { byte: 0 });
        }
        n = n * 128 + (ch as u64 % 128);
        if ch >= 0x80 {
            if n == 0xFFFF_FFFF_FFFF_FFFF {
                return Err(ChainError::InvalidVarInt { byte: 0 });
            }
            n = n + 1;
        } else {
            return Ok(n);
        }
    }
}

// ─── Amount decompression ────────────────────────────────────────────────────

/// `10^e`.
pub open spec fn pow10(e: nat) -> nat
    decreases e,
{
    if e == 0 {
        1
    } else {
        10 * pow10((e - 1) as nat)
    }
}

/// The mantissa of a nonzero compressed amount: `x - 1` holds a decimal
/// exponent `e` in its last digit and, below it, the mantissa (whose last
/// digit `d` is stored separately as `d - 1` when `e < 9`).
pub open spec fn amount_mantissa(x: u64) -> nat {
    let y = (x - 1) as nat;
    let e = y % 10;
    let z = y / 10;
    if e < 9 {
        (z / 9) * 10 + z % 9 + 1
    } else {
        z + 1
    }
}

/// The decimal exponent of a nonzero compressed amount.
pub open spec fn amount_exponent(x: u64) -> nat {
    ((x - 1) as nat) % 10
}

/// DecompressAmount of Bitcoin Core (`src/compressor.cpp`).
pub open spec fn spec_decompress_amount(x: u64) -> nat {
    if x == 0 {
        0
    } else {
        amount_mantissa(x) * pow10(amount_exponent(x))
    }
}

/// Trailing decimal zeros of `n` stripped while the exponent, counted up
/// from `e`, stays below 9: the stripped value and the final exponent.
pub open spec fn amount_strip(n: nat, e: nat) -> (nat, nat)
    decreases 9 - e,
{
    if e < 9 && n > 0 && n % 10 == 0 {
        amount_strip(n / 10, e + 1)
    } else {
        (n, e)
    }
}

/// CompressAmount of Bitcoin Core (`src/compressor.cpp`), the encoding
/// that undo records store amounts in.
pub open spec fn spec_compress_amount(n: nat) -> nat {
    if n == 0 {
        0
    } else {
        let (m, e) = amount_strip(n, 0);
        if e < 9 {
            (1 + ((m / 10) * 9 + m % 10 - 1) * 10 + e) as nat
        } else {
            (1 + (m - 1) * 10 + 9) as nat
        }
    }
}

/// Stripping zeros keeps the value: `m * 10^(k - e) == n`, and it stops
/// at a nonzero last digit unless the exponent reached 9.
proof fn lemma_amount_strip(n: nat, e: nat)
    requires
        n > 0,
        e <= 9,
    ensures
        ({
            let (m, k) = amount_strip(n, e);
            &&& m > 0
            &&& e <= k <= 9
            &&& m * pow10((k - e) as nat) == n
            &&& k < 9 ==> m % 10 != 0
        }),
    decreases 9 - e,
{
    if e < 9 && n % 10 == 0 {
        assert(n / 10 > 0 && n == (n / 10) * 10) by (nonlinear_arith)
            requires
                n > 0,
                n % 10 == 0,
        ;
        lemma_amount_strip(n / 10, e + 1);
        let (m, k) = amount_strip(n / 10, e + 1);
        assert(amount_strip(n, e) == (m, k));
        let p = pow10((k - (e + 1)) as nat);
        assert(pow10((k - e) as nat) == 10 * p);
        assert(m * (10 * p) == (m * p) * 10) by (nonlinear_arith);
        assert(m * pow10((k - e) as nat) == n);
    } else {
        assert(amount_strip(n, e) == (n, e));
        assert(pow10(0) == 1);
        assert(n * pow10(0) == n);
    }
}

/// Amount round trip: decompressing the CompressAmount encoding of `n`
/// gives `n` back, for every `n` whose encoding fits a u64.
pub proof fn lemma_amount_roundtrip(n: u64)
    requires
        spec_compress_amount(n as nat) <= 0xFFFF_FFFF_FFFF_FFFF,
    ensures
        spec_decompress_amount(spec_compress_amount(n as nat) as u64) == n,
{
    if n > 0 {
        lemma_amount_strip(n as nat, 0);
        let (m, k) = amount_strip(n as nat, 0);
        let x = spec_compress_amount(n as nat);
        let y = (x - 1) as nat;
        if k < 9 {
            let q = m / 10;
            let d = m % 10;
            lemma_fundamental_div_mod(m as int, 10);
            assert(m == q * 10 + d);
            let z = q * 9 + d - 1;
            assert(y == z * 10 + k);
            lemma_fundamental_div_mod_converse(y as int, 10, z as int, k as int);
            lemma_fundamental_div_mod_converse(z as int, 9, q as int, d - 1);
            assert(amount_mantissa(x as u64) == m);
            assert(amount_exponent(x as u64) == k);
        } else {
            let z = (m - 1) as nat;
            assert(y == z * 10 + 9);
            lemma_fundamental_div_mod_converse(y as int, 10, z as int, 9);
            assert(amount_mantissa(x as u64) == m);
            assert(amount_exponent(x as u64) == k);
        }
    }
}

/// Whether a compressed amount decompresses to a value that fits a u64.
pub open spec fn spec_amount_fits(x: u64) -> bool {
    spec_decompress_amount(x) <= 0xFFFF_FFFF_FFFF_FFFF
}

/// The mantissa and exponent of a nonzero compressed amount.
fn amount_parts(x: u64) -> (r: (u64, u32))
    requires
        x > 0,
    ensures
        r.0 == amount_mantissa(x),
        r.1 == amount_exponent(x),
        r.1 <= 9,
{
    let mut y = x - 1;
    let e = (y % 10) as u32;
    y = y / 10;
    let n = if e < 9 {
        let d = (y % 9) + 1;
        let q = y / 9;
        q * 10 + d
    } else {
        y + 1
    };
    (n, e)
}

/// `n * 10^e` in a u128 (exact: `n < 2^64`, `10^e <= 10^9`).
fn scale_by_pow10(n: u64, e: u32) -> (v: u128)
    requires
        e <= 9,
    ensures
        v == n * pow10(e as nat),
{
    let mut v: u128 = n as u128;
    let mut k: u32 = 0;
    proof {
        assert(pow10(0) == 1);
        lemma_pow10_mono(0, 9);
        assert(v == n * pow10(0)) by (nonlinear_arith)
            requires
                v == n,
                pow10(0) == 1,
        ;
    }
    while k < e
        invariant
            k <= e,
            e <= 9,
            v == n * pow10(k as nat),
            pow10(k as nat) <= pow10(9),
        decreases e - k,
    {
        proof {
            lemma_pow10_mono((k + 1) as nat, 9);
            let p = pow10(k as nat);
            assert(pow10((k + 1) as nat) == 10 * p);
            assert(pow10(9) == 1_000_000_000) by {
                reveal_with_fuel(pow10, 10);
            }
            assert(n * p * 10 <= 0xFFFF_FFFF_FFFF_FFFF * 1_000_000_000) by (nonlinear_arith)
                requires
                    n <= 0xFFFF_FFFF_FFFF_FFFF,
                    p * 10 <= 1_000_000_000,
            ;
            assert(n * p * 10 == n * (10 * p)) by (nonlinear_arith);
        }
        v = v * 10;
        k = k + 1;
    }
    v
}

/// `10^e` grows with `e`.
proof fn lemma_pow10_mono(a: nat, b: nat)
    requires
        a <= b,
    ensures
        pow10(a) <= pow10(b),
    decreases b,
{
    if a < b {
        lemma_pow10_mono(a, (b - 1) as nat);
    }
}

/// Whether `x` decompresses to an amount that fits a u64.
pub fn amount_fits(x: u64) -> (b: bool)
    ensures
        b == spec_amount_fits(x),
{
    if x == 0 {
        return true;
    }
    let (n, e) = amount_parts(x);
    let v = scale_by_pow10(n, e);
    v <= 0xFFFF_FFFF_FFFF_FFFF
}

/// DecompressAmount, as in Bitcoin Core `src/compressor.cpp`; `None` when
/// the amount does not fit a u64.
pub fn decompress_amount(x: u64) -> (v: Option<u64>)
    ensures
        v == (if spec_amount_fits(x) {
            Some(spec_decompress_amount(x) as u64)
        } else {
            None::<u64>
        }),
{
    if x == 0 {
        return Some(0);
    }
    let (n, e) = amount_parts(x);
    let v = scale_by_pow10(n, e);
    if v <= 0xFFFF_FFFF_FFFF_FFFF {
        Some(v as u64)
    } else {
        None
    }
}

// ─── Script decompression ────────────────────────────────────────────────────

/// The scriptPubKey that a compressed script of kind `nsize` stands for,
/// read from the start of `s` (Bitcoin Core `ScriptCompression`):
/// 0 is P2PKH and 1 is P2SH over a 20-byte hash, 2 and 3 a compressed
/// P2PK key, 4 and 5 an uncompressed P2PK key given by its x coordinate and
/// the parity of y, and `n >= 6` a raw script of `n - 6` bytes.
pub open spec fn sp_script(nsize: u64, s: Seq<u8>) -> Result<(Seq<u8>, nat), ErrorKind> {
    if nsize == 0 {
        match sp_take(s, 20, "read_bytes"@) {
            Err(e) => Err(e),
            Ok((h, c)) => Ok((seq![0x76u8, 0xa9u8, 0x14u8] + h + seq![0x88u8, 0xacu8], c)),
        }
    } else if nsize == 1 {
        match sp_take(s, 20, "read_bytes"@) {
            Err(e) => Err(e),
            Ok((h, c)) => Ok((seq![0xa9u8, 0x14u8] + h + seq![0x87u8], c)),
        }
    } else if nsize <= 3 {
        match sp_take(s, 32, "read_bytes"@) {
            Err(e) => Err(e),
            Ok((x, c)) => Ok((seq![0x21u8, nsize as u8] + x + seq![0xacu8], c)),
        }
    } else if nsize <= 5 {
        match sp_take(s, 32, "read_bytes"@) {
            Err(e) => Err(e),
            Ok((x, c)) => Ok(
                (seq![0x41u8] + spec_decompress_pubkey(x, (nsize - 4) as u8) + seq![0xacu8], c),
            ),
        }
    } else {
        sp_take(s, (nsize - 6) as nat, "read_bytes"@)
    }
}

/// Rebuild the scriptPubKey of compressed kind `nsize` from the reader.
fn decompress_script(nsize: u64, r: &mut BufferReader<'_>) -> (res: Result<Vec<u8>, ChainError>)
    requires
        old(r).wf(),
    ensures
        final(r).data() == old(r).data(),
        final(r).wf(),
        match res {
            Ok(v) => sp_script(nsize, old(r).rest()) matches Ok((w, c)) && v@ == w && final(r).pos()
                == old(r).pos() + c,
            Err(e) => sp_script(nsize, old(r).rest()) matches Err(k) && e.kind() == k,
        },
{
    let ghost r0 = *r;
    if nsize == 0 {
        let hash = r.read_bytes(20)?;
        let mut s: Vec<u8> = Vec::new();
        s.push(0x76);
        s.push(0xa9);
        s.push(0x14);
        push_bytes(&mut s, hash);
        s.push(0x88);
        s.push(0xac);
        proof {
            assert(s@ =~= seq![0x76u8, 0xa9u8, 0x14u8] + hash@ + seq![0x88u8, 0xacu8]);
        }
        Ok(s)
    } else if nsize == 1 {
        let hash = r.read_bytes(20)?;
        let mut s: Vec<u8> = Vec::new();
        s.push(0xa9);
        s.push(0x14);
        push_bytes(&mut s, hash);
        s.push(0x87);
        proof {
            assert(s@ =~= seq![0xa9u8, 0x14u8] + hash@ + seq![0x87u8]);
        }
        Ok(s)
    } else if nsize <= 3 {
        let x_bytes = r.read_bytes(32)?;
        let prefix = nsize as u8;
        let mut s: Vec<u8> = Vec::new();
        s.push(0x21);
        s.push(prefix);
        push_bytes(&mut s, x_bytes);
        s.push(0xac);
        proof {
            assert(s@ =~= seq![0x21u8, nsize as u8] + x_bytes@ + seq![0xacu8]);
        }
        Ok(s)
    } else if nsize <= 5 {
        let x_slice = r.read_bytes(32)?;
        let x_arr = to_array32(x_slice);
        let parity = (nsize - 4) as u8;
        let pubkey = decompress_pubkey(&x_arr, parity)?;
        let mut s: Vec<u8> = Vec::new();
        s.push(0x41);
        push_bytes(&mut s, pubkey.as_slice());
        s.push(0xac);
        proof {
            assert(s@ =~= seq![0x41u8] + pubkey@ + seq![0xacu8]);
        }
        Ok(s)
    } else {
        let len = nsize - 6;
        if len > r.remaining() as u64 {
            return Err(ChainError::UnexpectedEof { context: "read_bytes" });
        }
        let bytes = r.read_bytes(len as usize)?;
        let mut s: Vec<u8> = Vec::new();
        push_bytes(&mut s, bytes);
        proof {
            assert(s@ =~= bytes@);
        }
        Ok(s)
    }
}

// ─── Coins ───────────────────────────────────────────────────────────────────

/// The all-zero txid: an undo record does not say which output it spent.
pub open spec fn zero_txid() -> Seq<u8> {
    Seq::new(32, |i: int| 0u8)
}

/// One spent coin of an undo record: VARINT(height * 2), one coinbase-flag
/// byte, VARINT(compressed amount), VARINT(nSize) and the compressed script.
/// An amount that does not decompress into a u64 is invalid undo data.
pub open spec fn sp_coin(s: Seq<u8>) -> Result<(PrevoutModel, nat), ErrorKind> {
    match sp_varint(s) {
        Err(e) => Err(e),
        Ok((_height, c1)) => if s.len() < c1 + 1 {
            Err(ErrorKind::UnexpectedEof("u8"@))
        } else {
            match sp_varint(s.skip((c1 + 1) as int)) {
                Err(e) => Err(e),
                Ok((cv, c2)) => if !spec_amount_fits(cv) {
                    Err(ErrorKind::InvalidUndoData("compressed amount out of range"@))
                } else {
                    match sp_varint(s.skip((c1 + 1 + c2) as int)) {
                        Err(e) => Err(e),
                        Ok((nsize, c3)) => match sp_script(nsize, s.skip((c1 + 1 + c2 + c3) as int)) {
                            Err(e) => Err(e),
                            Ok((script, c4)) => Ok(
                                (
                                    PrevoutModel {
                                        txid: zero_txid(),
                                        vout: 0,
                                        value_sats: spec_decompress_amount(cv) as u64,
                                        script_pubkey: script,
                                    },
                                    c1 + 1 + c2 + c3 + c4,
                                ),
                            ),
                        },
                    }
                },
            }
        },
    }
}

/// `sp_coin` as a value.
pub open spec fn coin_item() -> spec_fn(Seq<u8>) -> Result<(PrevoutModel, nat), ErrorKind> {
    |s: Seq<u8>| sp_coin(s)
}

/// The undo record of one transaction: a CompactSize count and that many coins.
pub open spec fn sp_tx_undo(s: Seq<u8>) -> Result<(Seq<PrevoutModel>, nat), ErrorKind> {
    match sp_compact(s) {
        Err(e) => Err(e),
        Ok((n, c)) => match sp_many(s.skip(c as int), n as nat, coin_item()) {
            Err(e) => Err(e),
            Ok((coins, c2)) => Ok((coins, c + c2)),
        },
    }
}

/// `sp_tx_undo` as a value.
pub open spec fn tx_undo_item() -> spec_fn(Seq<u8>) -> Result<(Seq<PrevoutModel>, nat), ErrorKind> {
    |s: Seq<u8>| sp_tx_undo(s)
}

/// The undo data of one block: a CompactSize count of transactions (the
/// coinbase has none) and the spent coins of each. Bytes after the last
/// record are not read.
pub open spec fn spec_block_undo(s: Seq<u8>) -> Result<Seq<Seq<PrevoutModel>>, ErrorKind> {
    match sp_compact(s) {
        Err(e) => Err(e),
        Ok((n, c)) => match sp_many(s.skip(c as int), n as nat, tx_undo_item()) {
            Err(e) => Err(e),
            Ok((txs, _c2)) => Ok(txs),
        },
    }
}

/// Read one spent coin.
fn parse_coin(r: &mut BufferReader<'_>) -> (res: Result<Prevout, ChainError>)
    requires
        old(r).wf(),
    ensures
        final(r).data() == old(r).data(),
        final(r).wf(),
        match res {
            Ok(p) => sp_coin(old(r).rest()) matches Ok((v, c)) && p@ == v && final(r).pos()
                == old(r).pos() + c,
            Err(e) => sp_coin(old(r).rest()) matches Err(k) && e.kind() == k,
        },
{
    let ghost r0 = *r;
    let ghost s = r0.rest();
    let _height_x2 = read_varint(r)?;
    let ghost c1 = (r.pos() - r0.pos()) as nat;
    proof {
        lemma_rest_advance(r0, *r, c1);
    }
    let _coinbase_flag = r.read_u8()?;
    proof {
        lemma_rest_advance(r0, *r, c1 + 1);
    }
    let compressed_value = read_varint(r)?;
    let ghost c2 = (r.pos() - r0.pos() - c1 - 1) as nat;
    proof {
        lemma_rest_advance(r0, *r, c1 + 1 + c2);
        lemma_skip_skip(s, (c1 + 1) as int, c2 as int);
    }
    let value_sats = match decompress_amount(compressed_value) {
        Some(v) => v,
        None => {
            return Err(
                ChainError::InvalidUndoData { detail: "compressed amount out of range".to_owned() },
            );
        },
    };
    let nsize = read_varint(r)?;
    let ghost c3 = (r.pos() - r0.pos() - c1 - 1 - c2) as nat;
    proof {
        lemma_rest_advance(r0, *r, c1 + 1 + c2 + c3);
        lemma_skip_skip(s, (c1 + 1 + c2) as int, c3 as int);
    }
    let script_pubkey = decompress_script(nsize, r)?;
    let ghost c4 = (r.pos() - r0.pos() - c1 - 1 - c2 - c3) as nat;
    let p = Prevout { txid: [0u8; 32], vout: 0, value_sats, script_pubkey };
    proof {
        assert(p.txid@ =~= zero_txid());
    }
    Ok(p)
}

/// Read the undo record of one transaction.
fn parse_tx_undo(r: &mut BufferReader<'_>) -> (res: Result<Vec<Prevout>, ChainError>)
    requires
        old(r).wf(),
    ensures
        final(r).data() == old(r).data(),
        final(r).wf(),
        match res {
            Ok(v) => sp_tx_undo(old(r).rest()) matches Ok((w, c)) && prevouts_view(v@) == w
                && final(r).pos() == old(r).pos() + c,
            Err(e) => sp_tx_undo(old(r).rest()) matches Err(k) && e.kind() == k,
        },
{
    let ghost r0 = *r;
    let input_count = r.read_compact_size()?;
    let ghost start = r.pos();
    let ghost c = (start - r0.pos()) as nat;
    let ghost s = r0.rest().skip(c as int);
    proof {
        lemma_rest_advance(r0, *r, c);
        assert(sp_compact(r0.rest()) == Ok::<(u64, nat), ErrorKind>((input_count, c)));
        assert(s.skip(0) =~= s);
    }
    let mut inputs: Vec<Prevout> = Vec::new();
    proof {
        assert(prevouts_view(inputs@) =~= Seq::<PrevoutModel>::empty());
    }
    let mut k: u64 = 0;
    while k < input_count
        invariant
            r.wf(),
            r0 == *old(r),
            r.data() == r0.data(),
            r0.wf(),
            start <= r.pos(),
            s == r0.rest().skip((start - r0.pos()) as int),
            c == start - r0.pos(),
            sp_compact(r0.rest()) == Ok::<(u64, nat), ErrorKind>((input_count, c)),
            r.rest() == s.skip((r.pos() - start) as int),
            k <= input_count,
            sp_many(s, k as nat, coin_item()) == Ok::<(Seq<PrevoutModel>, nat), ErrorKind>(
                (prevouts_view(inputs@), (r.pos() - start) as nat),
            ),
        decreases input_count - k,
    {
        let ghost rk = *r;
        let coin = match parse_coin(r) {
            Ok(p) => p,
            Err(e) => {
                proof {
                    lemma_many_err(s, k as nat, input_count as nat, coin_item());
                }
                return Err(e);
            },
        };
        let ghost prev = inputs@;
        inputs.push(coin);
        proof {
            assert(prevouts_view(inputs@) =~= prevouts_view(prev).push(coin@));
            lemma_rest_advance(rk, *r, (r.pos() - rk.pos()) as nat);
            lemma_skip_skip(s, rk.pos() - start, r.pos() - rk.pos());
        }
        k = k + 1;
    }
    Ok(inputs)
}

/// What the undo data of a block holds, as plain values.
pub struct BlockUndoModel {
    pub prevouts: Seq<Seq<PrevoutModel>>,
    pub raw_bytes: Seq<u8>,
    pub checksum: Seq<u8>,
}

/// The undo data of one block, as stored in rev*.dat.
pub struct BlockUndo {
    /// The coins each non-coinbase transaction spent, one list per transaction.
    pub prevouts: Vec<Vec<Prevout>>,
    /// Raw serialized bytes of this block undo, used for checksum verification:
    /// checksum = SHA256d(block.header.prev_block_hash || raw_bytes).
    pub raw_bytes: Vec<u8>,
    /// The 32-byte checksum stored right after the undo data.
    pub checksum: [u8; 32],
}

/// The views of the per-transaction lists of prevouts.
pub open spec fn prevout_lists_view(v: Seq<Vec<Prevout>>) -> Seq<Seq<PrevoutModel>> {
    v.map_values(|l: Vec<Prevout>| prevouts_view(l@))
}

impl View for BlockUndo {
    type V = BlockUndoModel;

    open spec fn view(&self) -> BlockUndoModel {
        BlockUndoModel {
            prevouts: prevout_lists_view(self.prevouts@),
            raw_bytes: self.raw_bytes@,
            checksum: self.checksum@,
        }
    }
}

/// Parse the undo data of one block into its per-transaction prevouts.
fn parse_block_undo(data: &[u8]) -> (res: Result<Vec<Vec<Prevout>>, ChainError>)
    ensures
        match res {
            Ok(v) => spec_block_undo(data@) == Ok::<Seq<Seq<PrevoutModel>>, ErrorKind>(
                prevout_lists_view(v@),
            ),
            Err(e) => spec_block_undo(data@) matches Err(k) && e.kind() == k,
        },
{
    let mut r = BufferReader::new(data);
    let ghost r0 = r;
    proof {
        assert(r0.rest() =~= data@);
    }
    let tx_count = r.read_compact_size()?;
    let ghost start = r.pos();
    let ghost s = data@.skip(start as int);
    proof {
        lemma_rest_advance(r0, r, start);
        assert(s.skip(0) =~= s);
    }
    let mut prevouts: Vec<Vec<Prevout>> = Vec::new();
    proof {
        assert(prevout_lists_view(prevouts@) =~= Seq::<Seq<PrevoutModel>>::empty());
    }
    let mut k: u64 = 0;
    while k < tx_count
        invariant
            r.wf(),
            r.data() == data@,
            start <= r.pos(),
            s == data@.skip(start as int),
            sp_compact(data@) == Ok::<(u64, nat), ErrorKind>((tx_count, start)),
            r.rest() == s.skip((r.pos() - start) as int),
            k <= tx_count,
            sp_many(s, k as nat, tx_undo_item()) == Ok::<(Seq<Seq<PrevoutModel>>, nat), ErrorKind>(
                (prevout_lists_view(prevouts@), (r.pos() - start) as nat),
            ),
        decreases tx_count - k,
    {
        let ghost rk = r;
        let inputs = match parse_tx_undo(&mut r) {
            Ok(v) => v,
            Err(e) => {
                proof {
                    lemma_many_err(s, k as nat, tx_count as nat, tx_undo_item());
                }
                return Err(e);
            },
        };
        let ghost prev = prevouts@;
        prevouts.push(inputs);
        proof {
            assert(prevout_lists_view(prevouts@) =~= prevout_lists_view(prev).push(
                prevouts_view(inputs@),
            ));
            lemma_rest_advance(rk, r, (r.pos() - rk.pos()) as nat);
            lemma_skip_skip(s, rk.pos() - start, r.pos() - rk.pos());
        }
        k = k + 1;
    }
    Ok(prevouts)
}

/// The blocks of undo data in a rev*.dat file.
///
/// Each record is the magic number, a u32-le size, that many bytes of undo
/// data and a 32-byte checksum. Reading stops at the end of the data, before
/// a tail shorter than 8 bytes, or at a zero magic (preallocated space).
pub open spec fn spec_undo_file(s: Seq<u8>) -> Result<Seq<BlockUndoModel>, ErrorKind>
    decreases s.len(),
{
    if s.len() < 8 {
        Ok(seq![])
    } else {
        let magic = le_value(s.take(4));
        let size = le_value(s.subrange(4, 8)) as int;
        if magic == 0 {
            Ok(seq![])
        } else if magic != MAINNET_MAGIC {
            Err(ErrorKind::InvalidMagic(MAINNET_MAGIC, magic as u32))
        } else if s.len() < 8 + size + 32 {
            Err(ErrorKind::UnexpectedEof("undo_size"@))
        } else {
            let undo = s.subrange(8, 8 + size);
            match spec_block_undo(undo) {
                Err(e) => Err(e),
                Ok(txs) => match spec_undo_file(s.skip(8 + size + 32)) {
                    Err(e) => Err(e),
                    Ok(more) => Ok(
                        seq![
                            BlockUndoModel {
                                prevouts: txs,
                                raw_bytes: undo,
                                checksum: s.subrange(8 + size, 8 + size + 32),
                            },
                        ] + more,
                    ),
                },
            }
        }
    }
}

/// The views of a sequence of block undos.
pub open spec fn block_undos_view(v: Seq<BlockUndo>) -> Seq<BlockUndoModel> {
    v.map_values(|b: BlockUndo| b@)
}

/// `done` followed by what `res` holds, or the error of `res`.
pub open spec fn undo_prefixed(
    done: Seq<BlockUndoModel>,
    res: Result<Seq<BlockUndoModel>, ErrorKind>,
) -> Result<Seq<BlockUndoModel>, ErrorKind> {
    match res {
        Ok(more) => Ok(done + more),
        Err(e) => Err(e),
    }
}

/// Copy a slice into a new vector.
fn to_vec(b: &[u8]) -> (v: Vec<u8>)
    ensures
        v@ == b@,
{
    let mut v: Vec<u8> = Vec::new();
    push_bytes(&mut v, b);
    proof {
        assert(v@ =~= b@);
    }
    v
}

/// Where reading stops, nothing more is added to what was read.
proof fn lemma_undo_file_stop(s: Seq<u8>, done: Seq<BlockUndoModel>)
    requires
        s.len() < 8 || le_value(s.take(4)) == 0,
    ensures
        undo_prefixed(done, spec_undo_file(s)) == Ok::<Seq<BlockUndoModel>, ErrorKind>(done),
{
    assert(done + Seq::<BlockUndoModel>::empty() =~= done);
}

/// One complete record moves from the unread part to what was read.
proof fn lemma_undo_file_record(s: Seq<u8>, done: Seq<BlockUndoModel>, b: BlockUndoModel, n: nat)
    requires
        s.len() >= 8,
        le_value(s.take(4)) == MAINNET_MAGIC,
        n == 8 + le_value(s.subrange(4, 8)) + 32,
        n <= s.len(),
        b.raw_bytes == s.subrange(8, n - 32),
        b.checksum == s.subrange(n - 32, n as int),
        spec_block_undo(b.raw_bytes) == Ok::<Seq<Seq<PrevoutModel>>, ErrorKind>(b.prevouts),
    ensures
        undo_prefixed(done, spec_undo_file(s)) == undo_prefixed(done.push(b), spec_undo_file(s.skip(n as int))),
{
    match spec_undo_file(s.skip(n as int)) {
        Ok(more) => {
            assert(done + (seq![b] + more) =~= done.push(b) + more);
        },
        Err(_) => {},
    }
}

/// Parse every block undo record of a rev*.dat file.
pub fn parse_undo_file(data: &[u8]) -> (res: Result<Vec<BlockUndo>, ChainError>)
    ensures
        match res {
            Ok(v) => spec_undo_file(data@) == Ok::<Seq<BlockUndoModel>, ErrorKind>(
                block_undos_view(v@),
            ),
            Err(e) => spec_undo_file(data@) matches Err(k) && e.kind() == k,
        },
{
    let mut r = BufferReader::new(data);
    let mut blocks: Vec<BlockUndo> = Vec::new();
    proof {
        assert(r.rest() =~= data@);
        assert(block_undos_view(blocks@) =~= Seq::<BlockUndoModel>::empty());
        assert(Seq::<BlockUndoModel>::empty() + Seq::<BlockUndoModel>::empty() =~= Seq::<BlockUndoModel>::empty());
        match spec_undo_file(data@) {
            Ok(more) => {
                assert(Seq::<BlockUndoModel>::empty() + more =~= more);
            },
            Err(_) => {},
        }
    }
    while r.remaining() > 0
        invariant_except_break
            spec_undo_file(data@) == undo_prefixed(block_undos_view(blocks@), spec_undo_file(r.rest())),
        invariant
            r.wf(),
            r.data() == data@,
        ensures
            spec_undo_file(data@) == Ok::<Seq<BlockUndoModel>, ErrorKind>(block_undos_view(blocks@)),
        decreases r.data().len() - r.pos(),
    {
        let ghost r0 = r;
        let ghost s = r0.rest();
        let ghost done = block_undos_view(blocks@);
        if r.remaining() < 8 {
            proof {
                lemma_undo_file_stop(s, done);
            }
            break;
        }
        let magic = r.read_u32_le()?;
        if magic == 0 {
            proof {
                lemma_undo_file_stop(s, done);
            }
            break;
        }
        if magic != MAINNET_MAGIC {
            return Err(ChainError::InvalidMagic { expected: MAINNET_MAGIC, got: magic });
        }
        let ghost r1 = r;
        proof {
            lemma_rest_advance(r0, r1, 4);
        }
        let size = r.read_u32_le()?;
        proof {
            assert(s.skip(4).take(4) =~= s.subrange(4, 8));
        }
        if (r.remaining() as u64) < (size as u64) + 32 {
            return Err(ChainError::UnexpectedEof { context: "undo_size" });
        }
        let undo_bytes = r.read_bytes(size as usize)?;
        let raw_bytes = to_vec(undo_bytes);
        let checksum_slice = r.read_bytes(32)?;
        let checksum = to_array32(checksum_slice);
        proof {
            lemma_rest_advance(r0, r, (8 + size + 32) as nat);
            assert(undo_bytes@ =~= s.subrange(8, 8 + size));
            assert(checksum_slice@ =~= s.subrange(8 + size, 8 + size + 32));
        }
        let prevouts = parse_block_undo(undo_bytes)?;
        let block_undo = BlockUndo { prevouts, raw_bytes, checksum };
        blocks.push(block_undo);
        proof {
            lemma_undo_file_record(s, done, block_undo@, (8 + size + 32) as nat);
            assert(block_undos_view(blocks@) =~= done.push(block_undo@));
        }
    }
    Ok(blocks)
}

} // verus!
