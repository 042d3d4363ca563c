//! The XOR obfuscation Bitcoin Core applies to its block and undo files.

use vstd::prelude::*;

verus! {

/// The decoded bytes: each byte XORed with the key byte at the same position
/// modulo the key length; an empty key leaves the data unchanged.
pub open spec fn spec_xor_decode(data: Seq<u8>, key: Seq<u8>) -> Seq<u8> {
    if key.len() == 0 {
        data
    } else {
        Seq::new(data.len(), |i: int| data[i] ^ key[i % (key.len() as int)])
    }
}

/// Apply the Bitcoin Core XOR obfuscation to `data`.
///
/// The key repeats cyclically over the entire buffer.
/// If the key is all-zero (or empty), the data is returned unchanged.
pub fn xor_decode(data: &[u8], key: &[u8]) -> (out: Vec<u8>)
    ensures
        out@ == spec_xor_decode(data@, key@),
{
    let mut all_zero = true;
    let mut j: usize = 0;
    while j < key.len()
        invariant
            j <= key@.len(),
            all_zero <==> forall|k: int| 0 <= k < j ==> key@[k] == 0,
        decreases key@.len() - j,
    {
        if key[j] != 0 {
            all_zero = false;
        }
        j = j + 1;
    }
    let mut out: Vec<u8> = Vec::new();
    let mut i: usize = 0;
    while i < data.len()
        invariant
            i <= data@.len(),
            out@.len() == i,
            key@.len() == 0 ==> forall|k: int| 0 <= k < i ==> out@[k] == data@[k],
            key@.len() > 0 ==> forall|k: int|
                0 <= k < i ==> out@[k] == data@[k] ^ key@[k % (key@.len() as int)],
            all_zero <==> forall|k: int| 0 <= k < key@.len() ==> key@[k] == 0,
        decreases data@.len() - i,
    {
        if key.len() == 0 || all_zero {
            let b = data[i];
            if key.len() > 0 {
                let kb = key[i % key.len()];
                assert(kb == 0);
                assert(b ^ 0u8 == b) by (bit_vector);
            }
            out.push(b);
        } else {
            out.push(data[i] ^ key[i % key.len()]);
        }
        i = i + 1;
    }
    assert(out@ =~= spec_xor_decode(data@, key@));
    out
}

/// Decoding is its own inverse: applying the obfuscation twice with the
/// same key gives the original bytes back.
pub proof fn lemma_xor_decode_involution(data: Seq<u8>, key: Seq<u8>)
    ensures
        spec_xor_decode(spec_xor_decode(data, key), key) == data,
{
    if key.len() > 0 {
        let once = spec_xor_decode(data, key);
        let twice = spec_xor_decode(once, key);
        assert forall|i: int| 0 <= i < data.len() implies twice[i] == data[i] by {
            let a = data[i];
            let b = key[i % (key.len() as int)];
            assert((a ^ b) ^ b == a) by (bit_vector);
        }
        assert(twice =~= data);
    }
}

/// A key of zero bytes leaves the data unchanged.
pub proof fn lemma_xor_decode_zero_key(data: Seq<u8>, key: Seq<u8>)
    requires
        forall|k: int| 0 <= k < key.len() ==> key[k] == 0,
    ensures
        spec_xor_decode(data, key) == data,
{
    if key.len() > 0 {
        let out = spec_xor_decode(data, key);
        assert forall|i: int| 0 <= i < data.len() implies out[i] == data[i] by {
            let a = data[i];
            let b = key[i % (key.len() as int)];
            assert(b == 0);
            assert(a ^ 0u8 == a) by (bit_vector);
        }
        assert(out =~= data);
    }
}

} // verus!
