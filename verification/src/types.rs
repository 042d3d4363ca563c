//! Transaction, prevout and analysis types shared across the library.

use vstd::prelude::*;

use crate::errors::{ChainError, ErrorKind};
use crate::text::{concat3, decimal, spec_decimal, str_eq};

verus! {

// ─── Hex encoding ────────────────────────────────────────────────────────────

/// Lowercase hexadecimal digit of `n` (`n < 16`).
pub open spec fn spec_hex_digit(n: u8) -> char {
    if n < 10 {
        ('0' as u8 + n) as char
    } else {
        ('a' as u8 + (n - 10)) as char
    }
}

/// Lowercase hexadecimal text of a byte sequence: two digits per byte,
/// most significant nibble first.
pub open spec fn spec_hex(bytes: Seq<u8>) -> Seq<char>
    decreases bytes.len(),
{
    if bytes.len() == 0 {
        seq![]
    } else {
        spec_hex(bytes.drop_last()) + seq![
            spec_hex_digit(bytes.last() / 16),
            spec_hex_digit(bytes.last() % 16),
        ]
    }
}

/// The one-character text of the hexadecimal digit `n`.
fn hex_digit_str(n: u8) -> (s: &'static str)
    requires
        n < 16,
    ensures
        s@ == seq![spec_hex_digit(n)],
{
    match n {
        0 => { proof { reveal_strlit("0"); } "0" },
        1 => { proof { reveal_strlit("1"); } "1" },
        2 => { proof { reveal_strlit("2"); } "2" },
        3 => { proof { reveal_strlit("3"); } "3" },
        4 => { proof { reveal_strlit("4"); } "4" },
        5 => { proof { reveal_strlit("5"); } "5" },
        6 => { proof { reveal_strlit("6"); } "6" },
        7 => { proof { reveal_strlit("7"); } "7" },
        8 => { proof { reveal_strlit("8"); } "8" },
        9 => { proof { reveal_strlit("9"); } "9" },
        10 => { proof { reveal_strlit("a"); } "a" },
        11 => { proof { reveal_strlit("b"); } "b" },
        12 => { proof { reveal_strlit("c"); } "c" },
        13 => { proof { reveal_strlit("d"); } "d" },
        14 => { proof { reveal_strlit("e"); } "e" },
        _ => { proof { reveal_strlit("f"); } "f" },
    }
}

/// Lowercase hexadecimal encoding of `bytes`.
pub fn hex_encode(bytes: &[u8]) -> (s: String)
    ensures
        s@ == spec_hex(bytes@),
{
    let mut s = String::new();
    let mut i: usize = 0;
    while i < bytes.len()
        invariant
            i <= bytes@.len(),
            s@ == spec_hex(bytes@.take(i as int)),
        decreases bytes@.len() - i,
    {
        let b = bytes[i];
        s.append(hex_digit_str(b / 16));
        s.append(hex_digit_str(b % 16));
        proof {
            assert(bytes@.take(i + 1).drop_last() =~= bytes@.take(i as int));
        }
        i = i + 1;
    }
    proof {
        assert(bytes@.take(i as int) =~= bytes@);
    }
    s
}

// ─── Transactions ────────────────────────────────────────────────────────────

/// What a transaction input holds, as plain values.
pub struct InputModel {
    pub txid: Seq<u8>,
    pub vout: u32,
    pub script_sig: Seq<u8>,
    pub sequence: u32,
    pub witness: Seq<Seq<u8>>,
}

/// What a transaction output holds, as plain values.
pub struct OutputModel {
    pub value: u64,
    pub script_pubkey: Seq<u8>,
}

/// What a parsed transaction holds, as plain values.
pub struct TxModel {
    pub version: i32,
    pub inputs: Seq<InputModel>,
    pub outputs: Seq<OutputModel>,
    pub locktime: u32,
    pub is_segwit: bool,
}

pub struct RawInput<'a> {
    /// Internal byte order (as parsed from the wire, not reversed for display).
    pub txid: [u8; 32],
    pub vout: u32,
    pub script_sig: &'a [u8],
    pub sequence: u32,
    /// Empty for legacy transactions.
    pub witness: Vec<&'a [u8]>,
}

pub struct RawOutput<'a> {
    /// Value in satoshis.
    pub value: u64,
    pub script_pubkey: &'a [u8],
}

/// A fully parsed transaction.
///
/// `'a` is tied to the byte slice passed to `parse_tx`; every borrow points
/// into that buffer.
///
/// - txid  = SHA256d of the *legacy* serialization (no marker/flag/witness),
///   held in `legacy_bytes`.
/// - wtxid = SHA256d of the *full* serialization, `full_bytes`.
pub struct RawTransaction<'a> {
    pub version: i32,
    pub inputs: Vec<RawInput<'a>>,
    pub outputs: Vec<RawOutput<'a>>,
    pub locktime: u32,
    pub is_segwit: bool,
    pub legacy_bytes: Vec<u8>,
    pub full_bytes: &'a [u8],
}

/// The views of a witness stack's items.
pub open spec fn witness_view<'a>(w: Seq<&'a [u8]>) -> Seq<Seq<u8>> {
    w.map_values(|item: &'a [u8]| item@)
}

impl<'a> View for RawInput<'a> {
    type V = InputModel;

    open spec fn view(&self) -> InputModel {
        InputModel {
            txid: self.txid@,
            vout: self.vout,
            script_sig: self.script_sig@,
            sequence: self.sequence,
            witness: witness_view(self.witness@),
        }
    }
}

impl<'a> View for RawOutput<'a> {
    type V = OutputModel;

    open spec fn view(&self) -> OutputModel {
        OutputModel { value: self.value, script_pubkey: self.script_pubkey@ }
    }
}

/// The views of a sequence of inputs.
pub open spec fn inputs_view<'a>(v: Seq<RawInput<'a>>) -> Seq<InputModel> {
    v.map_values(|i: RawInput<'a>| i@)
}

/// The views of a sequence of outputs.
pub open spec fn outputs_view<'a>(v: Seq<RawOutput<'a>>) -> Seq<OutputModel> {
    v.map_values(|o: RawOutput<'a>| o@)
}

impl<'a> View for RawTransaction<'a> {
    type V = TxModel;

    open spec fn view(&self) -> TxModel {
        TxModel {
            version: self.version,
            inputs: inputs_view(self.inputs@),
            outputs: outputs_view(self.outputs@),
            locktime: self.locktime,
            is_segwit: self.is_segwit,
        }
    }
}

// ─── Prevouts ────────────────────────────────────────────────────────────────

/// What a spent output holds, as plain values.
pub struct PrevoutModel {
    pub txid: Seq<u8>,
    pub vout: u32,
    pub value_sats: u64,
    pub script_pubkey: Seq<u8>,
}

/// A spent output (prevout) as read from rev*.dat undo data.
#[derive(Debug)]
pub struct Prevout {
    /// Internal byte order (as parsed, not reversed for display).
    pub txid: [u8; 32],
    pub vout: u32,
    pub value_sats: u64,
    /// Always the full uncompressed scriptPubKey bytes.
    pub script_pubkey: Vec<u8>,
}

impl View for Prevout {
    type V = PrevoutModel;

    open spec fn view(&self) -> PrevoutModel {
        PrevoutModel {
            txid: self.txid@,
            vout: self.vout,
            value_sats: self.value_sats,
            script_pubkey: self.script_pubkey@,
        }
    }
}

/// The views of a sequence of prevouts.
pub open spec fn prevouts_view(v: Seq<Prevout>) -> Seq<PrevoutModel> {
    v.map_values(|p: Prevout| p@)
}

/// A copy of a byte vector.
pub fn copy_bytes(b: &Vec<u8>) -> (c: Vec<u8>)
    ensures
        c@ == b@,
{
    let mut c: Vec<u8> = Vec::new();
    crate::parser::transaction::push_bytes(&mut c, b.as_slice());
    proof {
        assert(c@ =~= b@);
    }
    c
}

impl Prevout {
    /// A copy of this prevout.
    pub fn copy(&self) -> (c: Prevout)
        ensures
            c@ == self@,
    {
        Prevout {
            txid: self.txid,
            vout: self.vout,
            value_sats: self.value_sats,
            script_pubkey: copy_bytes(&self.script_pubkey),
        }
    }
}

// ─── Prevout lookup ──────────────────────────────────────────────────────────

/// Whether `p` is the output `(txid, vout)`.
pub open spec fn prevout_has_key(p: PrevoutModel, txid: Seq<u8>, vout: u32) -> bool {
    p.txid == txid && p.vout == vout
}

/// The first prevout in `s` that is the output `(txid, vout)`.
pub open spec fn spec_lookup(s: Seq<PrevoutModel>, txid: Seq<u8>, vout: u32) -> Option<PrevoutModel>
    decreases s.len(),
{
    if s.len() == 0 {
        None
    } else if prevout_has_key(s[0], txid, vout) {
        Some(s[0])
    } else {
        spec_lookup(s.drop_first(), txid, vout)
    }
}

/// No two prevouts of `s` are the same output.
pub open spec fn keys_distinct(s: Seq<PrevoutModel>) -> bool {
    forall|i: int, j: int|
        0 <= i < j < s.len() ==> !prevout_has_key(#[trigger] s[j], #[trigger] s[i].txid, s[i].vout)
}

/// A lookup that fails on the first element continues with the rest.
proof fn lemma_lookup_skip(s: Seq<PrevoutModel>, i: int, txid: Seq<u8>, vout: u32)
    requires
        0 <= i < s.len(),
    ensures
        spec_lookup(s.skip(i), txid, vout) == if prevout_has_key(s[i], txid, vout) {
            Some(s[i])
        } else {
            spec_lookup(s.skip(i + 1), txid, vout)
        },
{
    assert(s.skip(i).drop_first() =~= s.skip(i + 1));
}

/// Whether the output at position `i` of `s` also stands at an earlier
/// position.
pub open spec fn repeats_earlier(s: Seq<PrevoutModel>, i: int) -> bool {
    exists|j: int| 0 <= j < i && prevout_has_key(s[j], s[i].txid, s[i].vout)
}

/// The first position from `i` on whose output stands at an earlier
/// position; `s.len()` when there is none.
pub open spec fn first_repeat(s: Seq<PrevoutModel>, i: nat) -> nat
    decreases s.len() - i,
{
    if i >= s.len() {
        s.len()
    } else if repeats_earlier(s, i as int) {
        i
    } else {
        first_repeat(s, i + 1)
    }
}

/// The detail message that names the first repeated output of `s`.
pub open spec fn duplicate_detail(s: Seq<PrevoutModel>) -> Seq<char> {
    let p = s[first_repeat(s, 0) as int];
    "duplicate prevout ("@ + spec_hex(p.txid) + ", "@ + spec_decimal(p.vout as nat) + ")"@
}

/// A prevout map built from outputs that are each listed once finds every
/// one of them under its own `(txid, vout)`, and finds nothing under an
/// outpoint that none of them is.
pub proof fn lemma_lookup_finds(s: Seq<PrevoutModel>, txid: Seq<u8>, vout: u32)
    requires
        keys_distinct(s),
    ensures
        forall|i: int|
            0 <= i < s.len() ==> spec_lookup(s, #[trigger] s[i].txid, s[i].vout) == Some(s[i]),
        (forall|i: int| 0 <= i < s.len() ==> !prevout_has_key(#[trigger] s[i], txid, vout))
            ==> spec_lookup(s, txid, vout) is None,
    decreases s.len(),
{
    if s.len() > 0 {
        let t = s.drop_first();
        assert(keys_distinct(t)) by {
            assert forall|i: int, j: int| 0 <= i < j < t.len() implies !prevout_has_key(
                #[trigger] t[j],
                #[trigger] t[i].txid,
                t[i].vout,
            ) by {
                assert(t[i] == s[i + 1] && t[j] == s[j + 1]);
            }
        }
        lemma_lookup_finds(t, txid, vout);
        assert forall|i: int| 0 <= i < s.len() implies spec_lookup(
            s,
            #[trigger] s[i].txid,
            s[i].vout,
        ) == Some(s[i]) by {
            if i > 0 {
                assert(!prevout_has_key(s[i], s[0].txid, s[0].vout));
                assert(t[i - 1] == s[i]);
                lemma_lookup_finds(t, s[i].txid, s[i].vout);
            }
        }
        if forall|i: int| 0 <= i < s.len() ==> !prevout_has_key(#[trigger] s[i], txid, vout) {
            assert forall|i: int| 0 <= i < t.len() implies !prevout_has_key(#[trigger] t[i], txid, vout) by {
                assert(t[i] == s[i + 1]);
            }
            assert(!prevout_has_key(s[0], txid, vout));
        }
    }
}

/// Whether two outpoints are the same.
fn same_outpoint(a: &[u8; 32], av: u32, b: &[u8; 32], bv: u32) -> (r: bool)
    ensures
        r == (a@ == b@ && av == bv),
{
    if av != bv {
        return false;
    }
    let mut i: usize = 0;
    while i < 32
        invariant
            i <= 32,
            a@.len() == 32,
            b@.len() == 32,
            forall|c: int| 0 <= c < i ==> a@[c] == b@[c],
        decreases 32 - i,
    {
        if a[i] != b[i] {
            return false;
        }
        i = i + 1;
    }
    proof {
        assert(a@ =~= b@);
    }
    true
}

/// A keyed map from `(txid_internal, vout)` to `Prevout`, holding each
/// output at most once.
pub struct PrevoutMap {
    entries: Vec<Prevout>,
}

impl View for PrevoutMap {
    type V = Seq<PrevoutModel>;

    closed spec fn view(&self) -> Seq<PrevoutModel> {
        prevouts_view(self.entries@)
    }
}

impl PrevoutMap {
    #[verifier::type_invariant]
    spec fn inv(self) -> bool {
        keys_distinct(prevouts_view(self.entries@))
    }

    /// An empty map, for blocks without undo data.
    pub fn empty() -> (m: Self)
        ensures
            m@ == Seq::<PrevoutModel>::empty(),
    {
        let m = PrevoutMap { entries: Vec::new() };
        proof {
            assert(prevouts_view(m.entries@) =~= Seq::<PrevoutModel>::empty());
        }
        m
    }

    /// Build from a vec of prevouts.
    ///
    /// Returns `ChainError::InvalidField` if any `(txid, vout)` pair appears
    /// more than once: duplicates are a data error, not a protocol error.
    pub fn from_vec(prevouts: Vec<Prevout>) -> (res: Result<Self, ChainError>)
        ensures
            match res {
                Ok(m) => keys_distinct(prevouts_view(prevouts@)) && m@ == prevouts_view(prevouts@),
                Err(e) => !keys_distinct(prevouts_view(prevouts@)) && e.kind()
                    == ErrorKind::InvalidField("prevouts"@, duplicate_detail(prevouts_view(prevouts@))),
            },
    {
        let ghost pv = prevouts_view(prevouts@);
        let mut entries: Vec<Prevout> = Vec::new();
        let mut i: usize = 0;
        while i < prevouts.len()
            invariant
                pv == prevouts_view(prevouts@),
                i <= prevouts@.len(),
                prevouts_view(entries@) == pv.take(i as int),
                keys_distinct(pv.take(i as int)),
                first_repeat(pv, 0) == first_repeat(pv, i as nat),
            decreases prevouts@.len() - i,
        {
            let p = &prevouts[i];
            let mut j: usize = 0;
            while j < entries.len()
                invariant
                    pv == prevouts_view(prevouts@),
                    i < prevouts@.len(),
                    p@ == pv[i as int],
                    prevouts_view(entries@) == pv.take(i as int),
                    j <= entries@.len(),
                    forall|k: int| 0 <= k < j ==> !prevout_has_key(pv[k], p.txid@, p.vout),
                    first_repeat(pv, 0) == first_repeat(pv, i as nat),
                decreases entries@.len() - j,
            {
                let e = &entries[j];
                let same = same_outpoint(&e.txid, e.vout, &p.txid, p.vout);
                proof {
                    assert(prevouts_view(entries@).len() == entries@.len());
                    assert(pv.len() == prevouts@.len());
                    assert(j < i);
                    assert(prevouts_view(entries@)[j as int] == e@);
                    assert(pv.take(i as int)[j as int] == pv[j as int]);
                    assert(e@ == pv[j as int]);
                }
                if same {
                    proof {
                        assert(prevout_has_key(pv[i as int], pv[j as int].txid, pv[j as int].vout));
                        assert(prevout_has_key(pv[j as int], pv[i as int].txid, pv[i as int].vout));
                        assert(repeats_earlier(pv, i as int));
                        assert(first_repeat(pv, i as nat) == i);
                    }
                    let detail = concat3(
                        "duplicate prevout (",
                        &hex_encode(p.txid.as_slice()),
                        &concat3(", ", &decimal(p.vout as u64), ")"),
                    );
                    proof {
                        assert(first_repeat(pv, 0) == i);
                        assert(p@ == pv[i as int]);
                        assert(p.txid@ == pv[i as int].txid);
                        assert(detail@ =~= duplicate_detail(pv));
                    }
                    return Err(ChainError::InvalidField { field: "prevouts", detail });
                }
                j = j + 1;
            }
            proof {
                assert(entries@.len() == i) by {
                    assert(prevouts_view(entries@).len() == entries@.len());
                }
                assert(p.txid@ == pv[i as int].txid);
                assert forall|k: int| 0 <= k < i implies !prevout_has_key(
                    #[trigger] pv[k],
                    pv[i as int].txid,
                    pv[i as int].vout,
                ) by {}
                assert(!repeats_earlier(pv, i as int));
                assert(first_repeat(pv, i as nat) == first_repeat(pv, (i + 1) as nat));
            }
            let ghost prev = entries@;
            entries.push(p.copy());
            proof {
                assert(prevouts_view(entries@) =~= prevouts_view(prev).push(pv[i as int]));
                assert(pv.take(i + 1) =~= pv.take(i as int).push(pv[i as int]));
            }
            i = i + 1;
        }
        proof {
            assert(pv.take(i as int) =~= pv);
        }
        Ok(PrevoutMap { entries })
    }

    /// Resolve a prevout by internal-order txid and output index.
    pub fn get(&self, txid: &[u8; 32], vout: u32) -> (res: Option<&Prevout>)
        ensures
            match res {
                Some(p) => spec_lookup(self@, txid@, vout) == Some(p@),
                None => spec_lookup(self@, txid@, vout) is None,
            },
    {
        let ghost s = self@;
        let mut i: usize = 0;
        proof {
            assert(s.skip(0) =~= s);
        }
        while i < self.entries.len()
            invariant
                s == prevouts_view(self.entries@),
                i <= self.entries@.len(),
                spec_lookup(s, txid@, vout) == spec_lookup(s.skip(i as int), txid@, vout),
            decreases self.entries@.len() - i,
        {
            let e = &self.entries[i];
            proof {
                lemma_lookup_skip(s, i as int, txid@, vout);
                assert(s[i as int] == e@);
            }
            let same = same_outpoint(&e.txid, e.vout, txid, vout);
            if same {
                return Some(e);
            }
            i = i + 1;
        }
        proof {
            assert(s.skip(i as int) =~= Seq::<PrevoutModel>::empty());
        }
        None
    }
}

// ─── Chain analysis types ────────────────────────────────────────────────────

/// Transaction classification: exactly six values.
#[derive(Debug, Clone, Copy, PartialEq, Eq, Structural)]
pub enum TxClassification {
    SimplePayment,
    Consolidation,
    Coinjoin,
    SelfTransfer,
    BatchPayment,
    Unknown,
}

/// A value of an extra heuristic field.
#[derive(Debug)]
pub enum ExtraValue {
    U64(u64),
    Bool(bool),
    Text(String),
    U64List(Vec<u64>),
}

/// What an extra heuristic field holds, as a plain value.
pub enum ExtraModel {
    U64(u64),
    Bool(bool),
    Text(Seq<char>),
    U64List(Seq<u64>),
}

impl View for ExtraValue {
    type V = ExtraModel;

    open spec fn view(&self) -> ExtraModel {
        match self {
            ExtraValue::U64(v) => ExtraModel::U64(*v),
            ExtraValue::Bool(b) => ExtraModel::Bool(*b),
            ExtraValue::Text(t) => ExtraModel::Text(t@),
            ExtraValue::U64List(l) => ExtraModel::U64List(l@),
        }
    }
}

/// The entries of a keyed list, by their views.
pub open spec fn entries_view<V: View>(s: Seq<(String, V)>) -> Seq<(Seq<char>, V::V)> {
    s.map_values(|e: (String, V)| (e.0@, e.1@))
}

/// The index of the first entry whose key is `k`.
pub open spec fn entry_index<K, V>(s: Seq<(K, V)>, k: K) -> Option<int>
    decreases s.len(),
{
    if s.len() == 0 {
        None
    } else {
        match entry_index(s.drop_last(), k) {
            Some(i) => Some(i),
            None => if s.last().0 == k {
                Some(s.len() - 1)
            } else {
                None
            },
        }
    }
}

/// The value of the first entry whose key is `k`.
pub open spec fn entry_get<K, V>(s: Seq<(K, V)>, k: K) -> Option<V> {
    match entry_index(s, k) {
        Some(i) => Some(s[i].1),
        None => None,
    }
}

/// `s` with the value for `k` set to `v`: the entry replaced in place when
/// the key is there, appended otherwise.
pub open spec fn entry_set<K, V>(s: Seq<(K, V)>, k: K, v: V) -> Seq<(K, V)> {
    match entry_index(s, k) {
        Some(i) => s.update(i, (k, v)),
        None => s.push((k, v)),
    }
}

/// What `entry_index` finds lies in range and has the key, and no earlier
/// entry has it; when nothing is found, no entry has the key.
pub proof fn lemma_entry_index<K, V>(s: Seq<(K, V)>, k: K)
    ensures
        match entry_index(s, k) {
            Some(i) => 0 <= i < s.len() && s[i].0 == k && forall|j: int| 0 <= j < i ==> s[j].0 != k,
            None => forall|j: int| 0 <= j < s.len() ==> s[j].0 != k,
        },
    decreases s.len(),
{
    if s.len() > 0 {
        let t = s.drop_last();
        lemma_entry_index(t, k);
        assert(forall|j: int| 0 <= j < t.len() ==> t[j] == s[j]);
    }
}

/// Find the first entry whose key is `k`.
pub fn find_entry<V: View>(v: &Vec<(String, V)>, k: &str) -> (r: Option<usize>)
    ensures
        match r {
            Some(i) => i < v@.len() && entry_index(entries_view(v@), k@) == Some(i as int),
            None => entry_index(entries_view(v@), k@) is None,
        },
{
    let ghost ev = entries_view(v@);
    let key = k.to_owned();
    let mut i: usize = 0;
    while i < v.len()
        invariant
            ev == entries_view(v@),
            key@ == k@,
            i <= v@.len(),
            forall|j: int| 0 <= j < i ==> (#[trigger] ev[j]).0 != k@,
        decreases v@.len() - i,
    {
        if v[i].0 == key {
            proof {
                assert(ev[i as int].0 == k@);
                lemma_entry_index(ev, k@);
            }
            return Some(i);
        }
        proof {
            assert(ev[i as int].0 != k@);
        }
        i = i + 1;
    }
    proof {
        lemma_entry_index(ev, k@);
        if entry_index(ev, k@) is Some {
            let j = entry_index(ev, k@)->Some_0;
            assert(ev[j].0 == k@);
        }
    }
    None
}

/// Two lists whose entries carry key `k` at the same positions find `k` at
/// the same position.
proof fn lemma_entry_index_same_keys<K, V>(s: Seq<(K, V)>, t: Seq<(K, V)>, k: K)
    requires
        s.len() == t.len(),
        forall|j: int| 0 <= j < s.len() ==> ((#[trigger] s[j]).0 == k <==> t[j].0 == k),
    ensures
        entry_index(s, k) == entry_index(t, k),
    decreases s.len(),
{
    if s.len() > 0 {
        let s0 = s.drop_last();
        let t0 = t.drop_last();
        assert forall|j: int| 0 <= j < s0.len() implies ((#[trigger] s0[j]).0 == k <==> t0[j].0
            == k) by {
            assert(s0[j] == s[j] && t0[j] == t[j]);
        }
        lemma_entry_index_same_keys(s0, t0, k);
        assert(s.last() == s[s.len() - 1] && t.last() == t[t.len() - 1]);
    }
}

/// Reading a key back after setting it gives the value set; setting a key
/// leaves what every other key reads unchanged.
pub proof fn lemma_entry_set_get<K, V>(s: Seq<(K, V)>, k: K, v: V, k2: K)
    ensures
        entry_get(entry_set(s, k, v), k2) == if k2 == k {
            Some(v)
        } else {
            entry_get(s, k2)
        },
{
    let t = entry_set(s, k, v);
    lemma_entry_index(s, k);
    match entry_index(s, k) {
        Some(i) => {
            assert forall|j: int| 0 <= j < s.len() implies ((#[trigger] s[j]).0 == k2 <==> t[j].0
                == k2) by {
                if j == i {
                    assert(t[j] == (k, v));
                } else {
                    assert(t[j] == s[j]);
                }
            }
            lemma_entry_index_same_keys(s, t, k2);
            lemma_entry_index(s, k2);
            if let Some(j) = entry_index(s, k2) {
                if j != i {
                    assert(t[j] == s[j]);
                }
            }
        },
        None => {
            assert(t == s.push((k, v)));
            let t0 = t.drop_last();
            assert(t0 =~= s);
            assert(t.last() == (k, v));
            assert(entry_index(t, k2) == if k2 == k {
                Some(s.len() as int)
            } else {
                entry_index(s, k2)
            });
            lemma_entry_index(s, k2);
            if let Some(j) = entry_index(s, k2) {
                assert(t[j] == s[j]);
            }
        },
    }
}

/// Reading an extra field of `h` with field `k` set to `v`: `v` for `k`,
/// what `h` holds for every other key.
pub proof fn lemma_with_get(h: HeuristicModel, k: Seq<char>, v: ExtraModel, k2: Seq<char>)
    ensures
        entry_get(spec_with(h, k, v).extra, k2) == if k2 == k {
            Some(v)
        } else {
            entry_get(h.extra, k2)
        },
{
    lemma_entry_set_get(h.extra, k, v, k2);
}

/// What a heuristic result holds, as plain values.
pub struct HeuristicModel {
    pub detected: bool,
    pub extra: Seq<(Seq<char>, ExtraModel)>,
}

/// Result of a single heuristic applied to one transaction.
///
/// `detected` is mandatory. Extra fields (e.g. `likely_change_index`,
/// `confidence`, `method`) are kept in `extra`, one value per key.
#[derive(Debug)]
pub struct HeuristicResult {
    pub detected: bool,
    pub extra: Vec<(String, ExtraValue)>,
}

impl View for HeuristicResult {
    type V = HeuristicModel;

    open spec fn view(&self) -> HeuristicModel {
        HeuristicModel { detected: self.detected, extra: entries_view(self.extra@) }
    }
}

/// A heuristic result with no extra fields.
pub open spec fn plain_result(detected: bool) -> HeuristicModel {
    HeuristicModel { detected, extra: seq![] }
}

/// `h` with the extra field `k` set to `v`.
pub open spec fn spec_with(h: HeuristicModel, k: Seq<char>, v: ExtraModel) -> HeuristicModel {
    HeuristicModel { detected: h.detected, extra: entry_set(h.extra, k, v) }
}

impl HeuristicResult {
    /// A not-detected result with no extra fields.
    pub fn not_detected() -> (h: Self)
        ensures
            h@ == plain_result(false),
    {
        let h = HeuristicResult { detected: false, extra: Vec::new() };
        proof {
            assert(h@.extra =~= Seq::<(Seq<char>, ExtraModel)>::empty());
        }
        h
    }

    /// A detected result with no extra fields.
    pub fn detected() -> (h: Self)
        ensures
            h@ == plain_result(true),
    {
        let h = HeuristicResult { detected: true, extra: Vec::new() };
        proof {
            assert(h@.extra =~= Seq::<(Seq<char>, ExtraModel)>::empty());
        }
        h
    }

    /// Add an extra field (builder pattern); a key already present gets the
    /// new value.
    pub fn with(self, key: &str, val: ExtraValue) -> (h: Self)
        ensures
            h@ == spec_with(self@, key@, val@),
    {
        let mut h = self;
        let ghost ev = entries_view(h.extra@);
        let ghost entry = (key@, val@);
        match find_entry(&h.extra, key) {
            Some(i) => {
                h.extra.set(i, (key.to_owned(), val));
                proof {
                    assert(entries_view(h.extra@) =~= ev.update(i as int, entry));
                }
            },
            None => {
                h.extra.push((key.to_owned(), val));
                proof {
                    assert(entries_view(h.extra@) =~= ev.push(entry));
                }
            },
        }
        h
    }
}

/// What a per-transaction analysis holds, as plain values.
pub struct TxAnalysisModel {
    pub txid: Seq<char>,
    pub heuristics: Seq<(Seq<char>, HeuristicModel)>,
    pub classification: TxClassification,
}

/// Per-transaction analysis result: the txid, each heuristic's result by
/// its id, and the classification.
#[derive(Debug)]
pub struct TxAnalysis {
    pub txid: String,
    pub heuristics: Vec<(String, HeuristicResult)>,
    pub classification: TxClassification,
}

impl View for TxAnalysis {
    type V = TxAnalysisModel;

    open spec fn view(&self) -> TxAnalysisModel {
        TxAnalysisModel {
            txid: self.txid@,
            heuristics: entries_view(self.heuristics@),
            classification: self.classification,
        }
    }
}

/// Whether any heuristic of `hs` fired.
pub open spec fn spec_any_detected(hs: Seq<(Seq<char>, HeuristicModel)>) -> bool {
    exists|i: int| 0 <= i < hs.len() && (#[trigger] hs[i]).1.detected
}

impl TxAnalysis {
    /// A fresh analysis of `txid`: no heuristics yet, classified `Unknown`.
    pub fn new(txid: String) -> (a: Self)
        ensures
            a@ == (TxAnalysisModel {
                txid: txid@,
                heuristics: seq![],
                classification: TxClassification::Unknown,
            }),
    {
        let a = TxAnalysis { txid, heuristics: Vec::new(), classification: TxClassification::Unknown };
        proof {
            assert(a@.heuristics =~= Seq::<(Seq<char>, HeuristicModel)>::empty());
        }
        a
    }

    /// True if any heuristic fired; drives `flagged_transactions` counting.
    pub fn is_flagged(&self) -> (b: bool)
        ensures
            b == spec_any_detected(self@.heuristics),
    {
        let ghost hs = self@.heuristics;
        let mut i: usize = 0;
        while i < self.heuristics.len()
            invariant
                hs == entries_view(self.heuristics@),
                i <= self.heuristics@.len(),
                forall|j: int| 0 <= j < i ==> !(#[trigger] hs[j]).1.detected,
            decreases self.heuristics@.len() - i,
        {
            if self.heuristics[i].1.detected {
                proof {
                    assert(hs[i as int].1.detected);
                }
                return true;
            }
            i = i + 1;
        }
        false
    }

    /// Record the result of heuristic `id`, replacing an earlier one.
    pub fn set_heuristic(&mut self, id: &str, result: HeuristicResult)
        ensures
            final(self)@ == (TxAnalysisModel {
                heuristics: entry_set(old(self)@.heuristics, id@, result@),
                ..old(self)@
            }),
    {
        let ghost ev = entries_view(self.heuristics@);
        let ghost entry = (id@, result@);
        match find_entry(&self.heuristics, id) {
            Some(i) => {
                self.heuristics.set(i, (id.to_owned(), result));
                proof {
                    assert(entries_view(self.heuristics@) =~= ev.update(i as int, entry));
                }
            },
            None => {
                self.heuristics.push((id.to_owned(), result));
                proof {
                    assert(entries_view(self.heuristics@) =~= ev.push(entry));
                }
            },
        }
    }
}

/// Script type output counters for the schema's `script_type_distribution`.
#[derive(Debug, Clone, Copy, PartialEq, Eq, Structural)]
pub struct ScriptTypeDistribution {
    pub p2pkh: u64,
    pub p2sh: u64,
    pub p2wpkh: u64,
    pub p2wsh: u64,
    pub p2tr: u64,
    pub op_return: u64,
    pub unknown: u64,
}

/// The counter that a type name counts in; names other than the six known
/// ones count as unknown.
pub open spec fn spec_counter(d: ScriptTypeDistribution, t: Seq<char>) -> u64 {
    if t == "p2pkh"@ {
        d.p2pkh
    } else if t == "p2sh"@ {
        d.p2sh
    } else if t == "p2wpkh"@ {
        d.p2wpkh
    } else if t == "p2wsh"@ {
        d.p2wsh
    } else if t == "p2tr"@ {
        d.p2tr
    } else if t == "op_return"@ {
        d.op_return
    } else {
        d.unknown
    }
}

/// `d` with one more output of type name `t`.
pub open spec fn spec_dist_add(d: ScriptTypeDistribution, t: Seq<char>) -> ScriptTypeDistribution {
    if t == "p2pkh"@ {
        ScriptTypeDistribution { p2pkh: (d.p2pkh + 1) as u64, ..d }
    } else if t == "p2sh"@ {
        ScriptTypeDistribution { p2sh: (d.p2sh + 1) as u64, ..d }
    } else if t == "p2wpkh"@ {
        ScriptTypeDistribution { p2wpkh: (d.p2wpkh + 1) as u64, ..d }
    } else if t == "p2wsh"@ {
        ScriptTypeDistribution { p2wsh: (d.p2wsh + 1) as u64, ..d }
    } else if t == "p2tr"@ {
        ScriptTypeDistribution { p2tr: (d.p2tr + 1) as u64, ..d }
    } else if t == "op_return"@ {
        ScriptTypeDistribution { op_return: (d.op_return + 1) as u64, ..d }
    } else {
        ScriptTypeDistribution { unknown: (d.unknown + 1) as u64, ..d }
    }
}

/// The sum of all counters.
pub open spec fn spec_dist_total(d: ScriptTypeDistribution) -> int {
    d.p2pkh + d.p2sh + d.p2wpkh + d.p2wsh + d.p2tr + d.op_return + d.unknown
}

/// Counter-wise sum of two distributions.
pub open spec fn spec_dist_merge(a: ScriptTypeDistribution, b: ScriptTypeDistribution) -> ScriptTypeDistribution {
    ScriptTypeDistribution {
        p2pkh: (a.p2pkh + b.p2pkh) as u64,
        p2sh: (a.p2sh + b.p2sh) as u64,
        p2wpkh: (a.p2wpkh + b.p2wpkh) as u64,
        p2wsh: (a.p2wsh + b.p2wsh) as u64,
        p2tr: (a.p2tr + b.p2tr) as u64,
        op_return: (a.op_return + b.op_return) as u64,
        unknown: (a.unknown + b.unknown) as u64,
    }
}

/// Whether the counter-wise sum of two distributions fits in u64 counters.
pub open spec fn dist_merge_fits(a: ScriptTypeDistribution, b: ScriptTypeDistribution) -> bool {
    &&& a.p2pkh + b.p2pkh <= u64::MAX
    &&& a.p2sh + b.p2sh <= u64::MAX
    &&& a.p2wpkh + b.p2wpkh <= u64::MAX
    &&& a.p2wsh + b.p2wsh <= u64::MAX
    &&& a.p2tr + b.p2tr <= u64::MAX
    &&& a.op_return + b.op_return <= u64::MAX
    &&& a.unknown + b.unknown <= u64::MAX
}

/// The all-zero distribution.
pub open spec fn dist_zero() -> ScriptTypeDistribution {
    ScriptTypeDistribution {
        p2pkh: 0,
        p2sh: 0,
        p2wpkh: 0,
        p2wsh: 0,
        p2tr: 0,
        op_return: 0,
        unknown: 0,
    }
}

impl Default for ScriptTypeDistribution {
    fn default() -> (d: Self)
        ensures
            d == dist_zero(),
    {
        ScriptTypeDistribution {
            p2pkh: 0,
            p2sh: 0,
            p2wpkh: 0,
            p2wsh: 0,
            p2tr: 0,
            op_return: 0,
            unknown: 0,
        }
    }
}

impl ScriptTypeDistribution {
    /// Increment the counter for the given script type name.
    pub fn add(&mut self, type_str: &str)
        requires
            spec_counter(*old(self), type_str@) < u64::MAX,
        ensures
            *final(self) == spec_dist_add(*old(self), type_str@),
    {
        proof {
            reveal_strlit("p2pkh");
            reveal_strlit("p2sh");
            reveal_strlit("p2wpkh");
            reveal_strlit("p2wsh");
            reveal_strlit("p2tr");
            reveal_strlit("op_return");
        }
        if str_eq(type_str, "p2pkh") {
            self.p2pkh = self.p2pkh + 1;
        } else if str_eq(type_str, "p2sh") {
            self.p2sh = self.p2sh + 1;
        } else if str_eq(type_str, "p2wpkh") {
            self.p2wpkh = self.p2wpkh + 1;
        } else if str_eq(type_str, "p2wsh") {
            self.p2wsh = self.p2wsh + 1;
        } else if str_eq(type_str, "p2tr") {
            self.p2tr = self.p2tr + 1;
        } else if str_eq(type_str, "op_return") {
            self.op_return = self.op_return + 1;
        } else {
            self.unknown = self.unknown + 1;
        }
    }

    /// Accumulate another distribution into self (file-level aggregation).
    pub fn merge(&mut self, other: &ScriptTypeDistribution)
        requires
            dist_merge_fits(*old(self), *other),
        ensures
            *final(self) == spec_dist_merge(*old(self), *other),
    {
        self.p2pkh = self.p2pkh + other.p2pkh;
        self.p2sh = self.p2sh + other.p2sh;
        self.p2wpkh = self.p2wpkh + other.p2wpkh;
        self.p2wsh = self.p2wsh + other.p2wsh;
        self.p2tr = self.p2tr + other.p2tr;
        self.op_return = self.op_return + other.op_return;
        self.unknown = self.unknown + other.unknown;
    }

    /// Sum of all counters.
    pub fn total(&self) -> (t: u64)
        requires
            spec_dist_total(*self) <= u64::MAX,
        ensures
            t == spec_dist_total(*self),
    {
        self.p2pkh + self.p2sh + self.p2wpkh + self.p2wsh + self.p2tr + self.op_return
            + self.unknown
    }
}

} // verus!
