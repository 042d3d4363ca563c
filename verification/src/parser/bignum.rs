//! Arbitrary-precision arithmetic on big-endian byte strings, and the
//! secp256k1 point decompression built on it.

use vstd::prelude::*;

use crate::errors::ChainError;
use vstd::arithmetic::power::pow;

use num_bigint::BigUint;

verus! {

/// Big-endian value of a byte sequence (the last byte is least significant).
pub open spec fn be_value(s: Seq<u8>) -> nat
    decreases s.len(),
{
    if s.len() == 0 {
        0
    } else {
        be_value(s.drop_last()) * 256 + s.last() as nat
    }
}

/// `BigUint::modpow` on big-endian bytes: `(base ^ exponent) % modulus`,
/// returned by `BigUint::to_bytes_be` (at least one byte).
///
/// The contract claims of `modpow` what its documentation states: the result
/// is `(self ^ exponent) % modulus`; a zero modulus panics, so it is excluded.
#[verifier::external_body]
fn big_modpow(base: &[u8], exponent: &[u8], modulus: &[u8]) -> (r: Vec<u8>)
    requires
        be_value(modulus@) > 0,
    ensures
        be_value(r@) == pow(be_value(base@) as int, be_value(exponent@)) % (be_value(
            modulus@,
        ) as int),
        r@.len() >= 1,
{
    let b = BigUint::from_bytes_be(base);
    let e = BigUint::from_bytes_be(exponent);
    let m = BigUint::from_bytes_be(modulus);
    b.modpow(&e, &m).to_bytes_be()
}

/// `BigUint` addition (`&a + &b`) on big-endian bytes.
///
/// The contract claims that the sum's bytes have the sum's value.
#[verifier::external_body]
fn big_add(a: &[u8], b: &[u8]) -> (r: Vec<u8>)
    ensures
        be_value(r@) == be_value(a@) + be_value(b@),
        r@.len() >= 1,
{
    (&BigUint::from_bytes_be(a) + &BigUint::from_bytes_be(b)).to_bytes_be()
}

/// `BigUint` remainder (`&a % &m`) on big-endian bytes; a zero divisor
/// panics, so it is excluded.
#[verifier::external_body]
fn big_rem(a: &[u8], m: &[u8]) -> (r: Vec<u8>)
    requires
        be_value(m@) > 0,
    ensures
        be_value(r@) == be_value(a@) % be_value(m@),
        r@.len() >= 1,
{
    (&BigUint::from_bytes_be(a) % &BigUint::from_bytes_be(m)).to_bytes_be()
}

/// `BigUint` right shift (`&a >> bits`) on big-endian bytes: division by
/// `2^bits`, rounding down.
#[verifier::external_body]
fn big_shr(a: &[u8], bits: usize) -> (r: Vec<u8>)
    ensures
        be_value(r@) == be_value(a@) / pow(2, bits as nat) as nat,
        r@.len() >= 1,
{
    (&BigUint::from_bytes_be(a) >> bits).to_bytes_be()
}

/// `BigUint` subtraction (`&a - &b`) on big-endian bytes; a negative result
/// panics, so it is excluded.
#[verifier::external_body]
fn big_sub(a: &[u8], b: &[u8]) -> (r: Vec<u8>)
    requires
        be_value(a@) >= be_value(b@),
    ensures
        be_value(r@) == be_value(a@) - be_value(b@),
        r@.len() >= 1,
{
    (&BigUint::from_bytes_be(a) - &BigUint::from_bytes_be(b)).to_bytes_be()
}

// ─── Lemmas on big-endian values ────────────────────────────────────────────

/// The value of a concatenation.
pub proof fn lemma_be_concat(a: Seq<u8>, b: Seq<u8>)
    ensures
        be_value(a + b) == be_value(a) * pow(256, b.len()) + be_value(b),
    decreases b.len(),
{
    if b.len() == 0 {
        assert(a + b =~= a);
        vstd::arithmetic::power::lemma_pow0(256);
    } else {
        let bl = b.drop_last();
        lemma_be_concat(a, bl);
        assert((a + b).drop_last() =~= a + bl);
        assert((a + b).last() == b.last());
        vstd::arithmetic::power::lemma_pow_adds(256, bl.len(), 1);
        vstd::arithmetic::power::lemma_pow1(256);
        let p = pow(256, bl.len());
        assert((be_value(a) * p + be_value(bl)) * 256 == be_value(a) * (p * 256) + be_value(bl)
            * 256) by (nonlinear_arith);
    }
}

/// A value fits in its number of bytes.
pub proof fn lemma_be_bound(s: Seq<u8>)
    ensures
        be_value(s) < pow(256, s.len()),
    decreases s.len(),
{
    if s.len() == 0 {
        vstd::arithmetic::power::lemma_pow0(256);
    } else {
        lemma_be_bound(s.drop_last());
        vstd::arithmetic::power::lemma_pow_adds(256, (s.len() - 1) as nat, 1);
        vstd::arithmetic::power::lemma_pow1(256);
        let p = pow(256, (s.len() - 1) as nat);
        let v = be_value(s.drop_last());
        assert(v * 256 + s.last() < p * 256) by (nonlinear_arith)
            requires
                v < p,
                s.last() < 256,
        ;
    }
}

/// Zero bytes have value zero.
pub proof fn lemma_be_zeros(n: nat)
    ensures
        be_value(Seq::new(n, |i: int| 0u8)) == 0,
    decreases n,
{
    if n > 0 {
        lemma_be_zeros((n - 1) as nat);
        assert(Seq::new(n, |i: int| 0u8).drop_last() =~= Seq::new((n - 1) as nat, |i: int| 0u8));
    }
}

/// The parity of a value is the parity of its last byte.
pub proof fn lemma_be_parity(s: Seq<u8>)
    requires
        s.len() >= 1,
    ensures
        be_value(s) % 2 == s.last() % 2,
{
    let v = be_value(s.drop_last());
    assert((v * 256 + s.last()) % 2 == s.last() % 2) by (nonlinear_arith);
}

/// The `n` big-endian bytes of `v` (taken modulo `256^n`).
pub open spec fn spec_be_fixed(v: nat, n: nat) -> Seq<u8>
    decreases n,
{
    if n == 0 {
        seq![]
    } else {
        spec_be_fixed(v / 256, (n - 1) as nat).push((v % 256) as u8)
    }
}

/// A byte sequence is the fixed-width encoding of its own value.
pub proof fn lemma_be_fixed_unique(s: Seq<u8>)
    ensures
        s == spec_be_fixed(be_value(s), s.len()),
    decreases s.len(),
{
    if s.len() > 0 {
        let dl = s.drop_last();
        lemma_be_fixed_unique(dl);
        let v = be_value(s);
        let l = s.last() as nat;
        assert(v == be_value(dl) * 256 + l);
        assert(v / 256 == be_value(dl) && v % 256 == l) by (nonlinear_arith)
            requires
                v == be_value(dl) * 256 + l,
                l < 256,
        ;
        assert(s =~= dl.push(s.last()));
    }
}

// ─── secp256k1 point decompression ──────────────────────────────────────────

/// The secp256k1 field prime, `2^256 - 2^32 - 977`.
pub open spec fn spec_secp256k1_p() -> nat {
    0xFFFF_FFFF_FFFF_FFFF_FFFF_FFFF_FFFF_FFFF_FFFF_FFFF_FFFF_FFFF_FFFF_FFFE_FFFF_FC2Fnat
}

/// The y coordinate recovered from x and the parity of y:
/// `y = (x^3 + 7)^((p+1)/4) mod p`, negated when its parity differs.
pub open spec fn spec_decompressed_y(x: nat, parity: u8) -> nat {
    let p = spec_secp256k1_p();
    let y2 = (pow(x as int, 3) % (p as int) + 7) % (p as int);
    let y = pow(y2, ((p + 1) / 4) as nat) % (p as int);
    if y % 2 == parity as int {
        y as nat
    } else {
        (p - y) as nat
    }
}

/// Append a least significant byte.
fn push_be(v: &mut Vec<u8>, b: u8)
    ensures
        final(v)@ == old(v)@.push(b),
        be_value(final(v)@) == be_value(old(v)@) * 256 + b as nat,
{
    v.push(b);
    proof {
        assert(v@.drop_last() =~= old(v)@);
    }
}

/// The big-endian bytes of the field prime.
fn secp256k1_p() -> (p: Vec<u8>)
    ensures
        be_value(p@) == spec_secp256k1_p(),
        p@.len() == 32,
{
    let mut p: Vec<u8> = Vec::new();
    push_be(&mut p, 0xFF);
    push_be(&mut p, 0xFF);
    push_be(&mut p, 0xFF);
    push_be(&mut p, 0xFF);
    push_be(&mut p, 0xFF);
    push_be(&mut p, 0xFF);
    push_be(&mut p, 0xFF);
    push_be(&mut p, 0xFF);
    push_be(&mut p, 0xFF);
    push_be(&mut p, 0xFF);
    push_be(&mut p, 0xFF);
    push_be(&mut p, 0xFF);
    push_be(&mut p, 0xFF);
    push_be(&mut p, 0xFF);
    push_be(&mut p, 0xFF);
    push_be(&mut p, 0xFF);
    push_be(&mut p, 0xFF);
    push_be(&mut p, 0xFF);
    push_be(&mut p, 0xFF);
    push_be(&mut p, 0xFF);
    push_be(&mut p, 0xFF);
    push_be(&mut p, 0xFF);
    push_be(&mut p, 0xFF);
    push_be(&mut p, 0xFF);
    push_be(&mut p, 0xFF);
    push_be(&mut p, 0xFF);
    push_be(&mut p, 0xFF);
    push_be(&mut p, 0xFE);
    push_be(&mut p, 0xFF);
    push_be(&mut p, 0xFF);
    push_be(&mut p, 0xFC);
    push_be(&mut p, 0x2F);
    p
}

/// A byte sequence holding the single byte `b`.
fn one_byte(b: u8) -> (v: Vec<u8>)
    ensures
        v@ == seq![b],
        be_value(v@) == b as nat,
{
    let mut v: Vec<u8> = Vec::new();
    v.push(b);
    proof {
        assert(v@ =~= seq![b]);
        assert(v@.drop_last() =~= Seq::<u8>::empty());
        reveal_with_fuel(be_value, 2);
    }
    v
}

/// The uncompressed public key `04 || x || y` for a 32-byte x coordinate and
/// the parity of y.
pub open spec fn spec_decompress_pubkey(x: Seq<u8>, parity: u8) -> Seq<u8> {
    seq![0x04u8] + x + spec_be_fixed(spec_decompressed_y(be_value(x), parity), 32)
}

/// Decompress a secp256k1 public key from its x coordinate and the parity of
/// its y coordinate into the 65-byte uncompressed form `04 || x || y`.
/// Always succeeds: every x yields a y (a root of x^3 + 7 when there is one).
pub fn decompress_pubkey(x_bytes: &[u8; 32], parity: u8) -> (res: Result<[u8; 65], ChainError>)
    ensures
        res matches Ok(out) && out@ == spec_decompress_pubkey(x_bytes@, parity),
{
    let p = secp256k1_p();
    let three = one_byte(3);
    let seven = one_byte(7);
    let one = one_byte(1);
    let x3 = big_modpow(x_bytes.as_slice(), three.as_slice(), p.as_slice());
    let y2 = big_rem(big_add(x3.as_slice(), seven.as_slice()).as_slice(), p.as_slice());
    let exp = big_shr(big_add(p.as_slice(), one.as_slice()).as_slice(), 2);
    let y = big_modpow(y2.as_slice(), exp.as_slice(), p.as_slice());
    let y_parity = y[y.len() - 1] & 1;
    let ghost pv = spec_secp256k1_p();
    proof {
        lemma_be_parity(y@);
        let last = y@.last();
        assert(last & 1 == last % 2) by (bit_vector);
        vstd::arithmetic::power::lemma_pow1(2);
        vstd::arithmetic::power::lemma_pow_adds(2, 1, 1);
        assert(pow(2, 2) == 4);
        assert(be_value(exp@) == (pv + 1) / 4);
    }
    let y_final = if y_parity == parity {
        y
    } else {
        big_sub(p.as_slice(), y.as_slice())
    };
    proof {
        assert(be_value(y_final@) == spec_decompressed_y(be_value(x_bytes@), parity));
    }
    let mut out = [0u8; 65];
    out[0] = 0x04;
    let mut i: usize = 0;
    while i < 32
        invariant
            i <= 32,
            out@.len() == 65,
            out@[0] == 0x04,
            forall|k: int| 1 <= k < 1 + i ==> out@[k] == x_bytes@[k - 1],
            forall|k: int| 33 <= k < 65 ==> out@[k] == 0,
        decreases 32 - i,
    {
        out[1 + i] = x_bytes[i];
        i = i + 1;
    }
    let n = y_final.len();
    let take = if n > 32 { 32 } else { n };
    let src = n - take;
    let dst = 65 - take;
    let mut j: usize = 0;
    while j < take
        invariant
            j <= take,
            take <= 32,
            take <= n,
            n == y_final@.len(),
            src == n - take,
            dst == 65 - take,
            out@.len() == 65,
            out@[0] == 0x04,
            forall|k: int| 1 <= k < 33 ==> out@[k] == x_bytes@[k - 1],
            forall|k: int| 33 <= k < dst ==> out@[k] == 0,
            forall|k: int| dst <= k < dst + j ==> out@[k] == y_final@[k - dst + src],
        decreases take - j,
    {
        out[dst + j] = y_final[src + j];
        j = j + 1;
    }
    proof {
        assert(out@.subrange(1, 33) =~= x_bytes@);
        let tail = y_final@.skip(src as int);
        let zeros = Seq::new((32 - take) as nat, |k: int| 0u8);
        assert(out@.subrange(33, 65) =~= zeros + tail);
        lemma_be_concat(zeros, tail);
        lemma_be_zeros((32 - take) as nat);
        let head = y_final@.take(src as int);
        assert(y_final@ =~= head + tail);
        lemma_be_concat(head, tail);
        lemma_be_bound(tail);
        // The value fits in 32 bytes, so only the last `take` bytes matter.
        let v = be_value(y_final@);
        assert(v <= pv);
        assert(pv < pow(256, 32)) by {
            lemma_be_bound(p@);
        }
        if src > 0 {
            // take == 32: head * 256^32 + tail == v < 256^32 forces head == 0.
            let hp = pow(256, tail.len());
            vstd::arithmetic::power::lemma_pow_positive(256, tail.len());
            let hv = be_value(head);
            let tv = be_value(tail);
            assert(hv == 0) by (nonlinear_arith)
                requires
                    hv * hp + tv < hp,
                    hp > 0,
                    tv >= 0,
                    hv >= 0,
            ;
        }
        let ys = out@.subrange(33, 65);
        assert(be_value(ys) == spec_decompressed_y(be_value(x_bytes@), parity));
        lemma_be_fixed_unique(ys);
        assert(out@ =~= seq![0x04u8] + x_bytes@ + ys);
    }
    Ok(out)
}

} // verus!
