//! Parsing of Bitcoin Core block files (`blk*.dat`) and Merkle roots.

use vstd::prelude::*;

use sha2::{Digest, Sha256};

use crate::errors::{ChainError, ErrorKind};
use crate::io::buffer_reader::{le_value, spec_i32_from_le, BufferReader};
use crate::parser::transaction::{
    lemma_many_err, lemma_rest_advance, lemma_skip_skip, parse_tx, push_bytes, sp_compact, sp_many,
    spec_legacy_bytes, spec_parse_tx, to_array32,
};
use crate::parser::undo_parser::MAINNET_MAGIC;
use crate::types::{hex_encode, spec_hex, RawTransaction, TxModel};

verus! {

// ─── Hashing ─────────────────────────────────────────────────────────────────

/// The SHA-256 digest of `data`.
pub uninterp spec fn spec_sha256(data: Seq<u8>) -> Seq<u8>;

/// SHA-256 by the `sha2` crate (`Sha256::digest`). The contract names the
/// digest `spec_sha256(data)`: a function of the bytes alone, and 32 bytes
/// long since it is an array; which 32 bytes is not stated.
#[verifier::external_body]
fn sha256(data: &[u8]) -> (h: [u8; 32])
    ensures
        h@ == spec_sha256(data@),
{
    Sha256::digest(data).into()
}

/// Double SHA-256, Bitcoin's hash for txids, block hashes and Merkle nodes.
pub open spec fn spec_sha256d(data: Seq<u8>) -> Seq<u8> {
    spec_sha256(spec_sha256(data))
}

/// SHA256(SHA256(data)).
pub fn sha256d(data: &[u8]) -> (h: [u8; 32])
    ensures
        h@ == spec_sha256d(data@),
{
    let first = sha256(data);
    sha256(first.as_slice())
}

/// Lowercase hexadecimal encoding of `b`.
pub fn hex_enc(b: &[u8]) -> (s: String)
    ensures
        s@ == spec_hex(b@),
{
    hex_encode(b)
}

/// The display form of a hash: its bytes reversed, in lowercase hex.
pub open spec fn spec_hash_display(h: Seq<u8>) -> Seq<char> {
    spec_hex(h.reverse())
}

/// A hash in the byte order that explorers and RPC display (reversed).
pub fn hash_display(h: &[u8; 32]) -> (s: String)
    ensures
        s@ == spec_hash_display(h@),
{
    let mut rev = [0u8; 32];
    let mut i: usize = 0;
    while i < 32
        invariant
            i <= 32,
            h@.len() == 32,
            forall|j: int| 0 <= j < i ==> rev@[j] == h@[31 - j],
        decreases 32 - i,
    {
        rev[i] = h[31 - i];
        i = i + 1;
    }
    proof {
        assert(rev@ =~= h@.reverse());
    }
    hex_enc(rev.as_slice())
}

// ─── Merkle ──────────────────────────────────────────────────────────────────

/// The `i`-th node of the level above `level`: the hash of a pair, the last
/// node of an odd level paired with itself.
pub open spec fn merkle_pair(level: Seq<Seq<u8>>, i: int) -> Seq<u8> {
    let left = level[2 * i];
    let right = if 2 * i + 1 < level.len() {
        level[2 * i + 1]
    } else {
        left
    };
    spec_sha256d(left + right)
}

/// The level above `level` in a Merkle tree.
pub open spec fn merkle_next(level: Seq<Seq<u8>>) -> Seq<Seq<u8>> {
    Seq::new(((level.len() + 1) / 2) as nat, |i: int| merkle_pair(level, i))
}

/// The Merkle root over a non-empty level of hashes.
pub open spec fn merkle_root_of(level: Seq<Seq<u8>>) -> Seq<u8>
    decreases level.len(),
{
    if level.len() <= 1 {
        level[0]
    } else {
        merkle_root_of(merkle_next(level))
    }
}

/// The byte views of a sequence of 32-byte hashes.
pub open spec fn hashes_view(v: Seq<[u8; 32]>) -> Seq<Seq<u8>> {
    v.map_values(|a: [u8; 32]| a@)
}

/// The concatenation of two hashes, as one buffer.
fn concat_hashes(left: &[u8; 32], right: &[u8; 32]) -> (v: Vec<u8>)
    ensures
        v@ == left@ + right@,
{
    let mut v: Vec<u8> = Vec::new();
    push_bytes(&mut v, left.as_slice());
    push_bytes(&mut v, right.as_slice());
    proof {
        assert(v@ =~= left@ + right@);
    }
    v
}

/// The level above `level`.
fn merkle_level_up(level: &Vec<[u8; 32]>) -> (next: Vec<[u8; 32]>)
    requires
        level@.len() > 0,
    ensures
        hashes_view(next@) == merkle_next(hashes_view(level@)),
{
    let ghost lv = hashes_view(level@);
    let mut next: Vec<[u8; 32]> = Vec::new();
    let mut i: usize = 0;
    while i < level.len()
        invariant
            lv == hashes_view(level@),
            i % 2 == 0 || i == level@.len(),
            i <= level@.len(),
            next@.len() == (i + 1) / 2,
            forall|j: int| 0 <= j < next@.len() ==> #[trigger] next@[j]@ == merkle_pair(lv, j),
        decreases level@.len() - i,
    {
        let left = level[i];
        let paired = i + 1 < level.len();
        let right = if paired {
            level[i + 1]
        } else {
            left
        };
        let combined = concat_hashes(&left, &right);
        let h = sha256d(combined.as_slice());
        proof {
            assert(lv[i as int] == left@);
            if i + 1 < level@.len() {
                assert(lv[i + 1] == right@);
            }
        }
        next.push(h);
        if paired {
            i = i + 2;
        } else {
            i = i + 1;
        }
    }
    proof {
        assert(next@.len() == (lv.len() + 1) / 2);
        assert(hashes_view(next@) =~= merkle_next(lv));
    }
    next
}

/// The Merkle root of a list of txids (internal byte order); `None` for an
/// empty list. An odd level pairs its last node with itself.
/// The root of one hash is that hash, and the root of two is the double
/// SHA-256 of their concatenation.
pub proof fn lemma_merkle_small(a: Seq<u8>, b: Seq<u8>)
    ensures
        merkle_root_of(seq![a]) == a,
        merkle_root_of(seq![a, b]) == spec_sha256d(a + b),
{
    let l = seq![a, b];
    let n = merkle_next(l);
    assert(n.len() == 1);
    assert(n[0] == merkle_pair(l, 0));
    assert(merkle_root_of(n) == n[0]);
}

/// Repeating the last hash of a list of odd length, three or more, leaves
/// the Merkle root unchanged: an odd level already pairs its last node with
/// itself.
pub proof fn lemma_merkle_odd_duplicate(level: Seq<Seq<u8>>)
    requires
        level.len() >= 3,
        level.len() % 2 == 1,
    ensures
        merkle_root_of(level.push(level.last())) == merkle_root_of(level),
{
    let dup = level.push(level.last());
    assert(merkle_next(dup) =~= merkle_next(level)) by {
        assert forall|i: int| 0 <= i < merkle_next(level).len() implies merkle_next(dup)[i]
            == merkle_next(level)[i] by {
            assert(dup[2 * i] == level[2 * i]);
            if 2 * i + 1 < level.len() {
                assert(dup[2 * i + 1] == level[2 * i + 1]);
            } else {
                assert(dup[2 * i + 1] == level.last());
            }
        }
    }
}

/// The Merkle root of a block's transaction ids: hash pairs level by level,
/// the last node of an odd level paired with itself; `None` when there are
/// no transactions.
pub fn compute_merkle_root(txids: &[[u8; 32]]) -> (res: Option<[u8; 32]>)
    ensures
        res is None <==> txids@.len() == 0,
        res matches Some(r) ==> r@ == merkle_root_of(hashes_view(txids@)),
{
    if txids.len() == 0 {
        return None;
    }
    let mut level: Vec<[u8; 32]> = Vec::new();
    let mut k: usize = 0;
    while k < txids.len()
        invariant
            k <= txids@.len(),
            level@ == txids@.take(k as int),
        decreases txids@.len() - k,
    {
        level.push(txids[k]);
        proof {
            assert(txids@.take(k + 1) =~= txids@.take(k as int).push(txids@[k as int]));
        }
        k = k + 1;
    }
    proof {
        assert(txids@.take(k as int) =~= txids@);
    }
    while level.len() > 1
        invariant
            level@.len() > 0,
            merkle_root_of(hashes_view(level@)) == merkle_root_of(hashes_view(txids@)),
        decreases level@.len(),
    {
        let next = merkle_level_up(&level);
        proof {
            assert(hashes_view(next@).len() == next@.len());
        }
        level = next;
    }
    Some(level[0])
}

// ─── Blocks ──────────────────────────────────────────────────────────────────

/// What a block header holds, as plain values.
pub struct BlockHeaderModel {
    pub version: i32,
    pub prev_block_hash: Seq<u8>,
    pub merkle_root: Seq<u8>,
    pub timestamp: u32,
    pub bits: u32,
    pub nonce: u32,
}

/// What a parsed block holds, as plain values.
pub struct ParsedBlockModel {
    pub header: BlockHeaderModel,
    pub block_hash: Seq<u8>,
    pub transactions: Seq<Seq<u8>>,
}

pub struct BlockHeader {
    pub version: i32,
    pub prev_block_hash: [u8; 32],
    pub merkle_root: [u8; 32],
    pub timestamp: u32,
    pub bits: u32,
    pub nonce: u32,
}

pub struct ParsedBlock {
    pub header: BlockHeader,
    pub block_hash: [u8; 32],
    /// Raw bytes of each transaction, owned, for re-parsing by the analyzer.
    pub transactions: Vec<Vec<u8>>,
}

impl View for BlockHeader {
    type V = BlockHeaderModel;

    open spec fn view(&self) -> BlockHeaderModel {
        BlockHeaderModel {
            version: self.version,
            prev_block_hash: self.prev_block_hash@,
            merkle_root: self.merkle_root@,
            timestamp: self.timestamp,
            bits: self.bits,
            nonce: self.nonce,
        }
    }
}

/// The byte views of a list of owned buffers.
pub open spec fn buffers_view(v: Seq<Vec<u8>>) -> Seq<Seq<u8>> {
    v.map_values(|b: Vec<u8>| b@)
}

impl View for ParsedBlock {
    type V = ParsedBlockModel;

    open spec fn view(&self) -> ParsedBlockModel {
        ParsedBlockModel {
            header: self.header@,
            block_hash: self.block_hash@,
            transactions: buffers_view(self.transactions@),
        }
    }
}

/// The fields of an 80-byte block header: version, previous block hash,
/// Merkle root, time, bits and nonce, integers little-endian.
pub open spec fn spec_block_header(h: Seq<u8>) -> BlockHeaderModel {
    BlockHeaderModel {
        version: spec_i32_from_le(h.take(4)) as i32,
        prev_block_hash: h.subrange(4, 36),
        merkle_root: h.subrange(36, 68),
        timestamp: le_value(h.subrange(68, 72)) as u32,
        bits: le_value(h.subrange(72, 76)) as u32,
        nonce: le_value(h.subrange(76, 80)) as u32,
    }
}

/// A coinbase transaction spends the null outpoint: its first input has an
/// all-zero txid and vout 0xFFFFFFFF.
pub open spec fn spec_valid_coinbase(tx: TxModel) -> bool {
    &&& tx.inputs.len() > 0
    &&& tx.inputs[0].txid == Seq::new(32, |i: int| 0u8)
    &&& tx.inputs[0].vout == 0xFFFF_FFFF
}

/// The first coinbase check that `tx` fails, in the order they are made.
pub open spec fn spec_coinbase_error(tx: TxModel) -> ErrorKind {
    if tx.inputs.len() == 0 {
        ErrorKind::InvalidCoinbase("no inputs"@)
    } else if tx.inputs[0].txid != Seq::new(32, |i: int| 0u8) {
        ErrorKind::InvalidCoinbase("coinbase txid is not all zeros"@)
    } else {
        ErrorKind::InvalidCoinbase("coinbase vout is not 0xFFFFFFFF"@)
    }
}

/// Check that `tx` has the shape of a coinbase transaction.
pub fn validate_coinbase(tx: &RawTransaction<'_>) -> (res: Result<(), ChainError>)
    ensures
        res is Ok <==> spec_valid_coinbase(tx@),
        res matches Err(e) ==> e.kind() == spec_coinbase_error(tx@),
{
    if tx.inputs.len() == 0 {
        return Err(ChainError::InvalidCoinbase { detail: "no inputs".to_owned() });
    }
    let inp = &tx.inputs[0];
    proof {
        assert(tx@.inputs[0] == inp@);
    }
    let mut i: usize = 0;
    while i < 32
        invariant
            i <= 32,
            inp.txid@.len() == 32,
            tx@.inputs.len() > 0,
            tx@.inputs[0] == inp@,
            forall|j: int| 0 <= j < i ==> inp.txid@[j] == 0,
        decreases 32 - i,
    {
        if inp.txid[i] != 0 {
            proof {
                assert(tx@.inputs[0] == inp@);
                assert(inp.txid@[i as int] != Seq::new(32, |i: int| 0u8)[i as int]);
            }
            return Err(
                ChainError::InvalidCoinbase { detail: "coinbase txid is not all zeros".to_owned() },
            );
        }
        i = i + 1;
    }
    proof {
        assert(inp.txid@ =~= Seq::new(32, |i: int| 0u8));
        assert(tx@.inputs[0] == inp@);
    }
    if inp.vout != 0xFFFF_FFFF {
        return Err(
            ChainError::InvalidCoinbase { detail: "coinbase vout is not 0xFFFFFFFF".to_owned() },
        );
    }
    Ok(())
}

/// A transaction inside a block, with its raw bytes.
#[verifier::opaque]
pub open spec fn sp_block_tx(s: Seq<u8>) -> Result<((TxModel, Seq<u8>), nat), ErrorKind> {
    match spec_parse_tx(s) {
        Err(e) => Err(e),
        Ok((tx, n)) => Ok(((tx, s.take(n as int)), n)),
    }
}

/// `sp_block_tx` as a value.
pub open spec fn block_tx_item() -> spec_fn(Seq<u8>) -> Result<((TxModel, Seq<u8>), nat), ErrorKind> {
    |s: Seq<u8>| sp_block_tx(s)
}

/// The txid of a transaction: the double SHA-256 of its legacy serialization.
pub open spec fn spec_txid(tx: TxModel) -> Seq<u8> {
    spec_sha256d(spec_legacy_bytes(tx))
}

/// The txids of the transactions of a block, in order.
pub open spec fn block_txids(txs: Seq<(TxModel, Seq<u8>)>) -> Seq<Seq<u8>> {
    txs.map_values(|t: (TxModel, Seq<u8>)| spec_txid(t.0))
}

/// The outcome of comparing the Merkle root computed over a block's txids
/// with the one its header holds.
pub open spec fn spec_merkle_check(computed: Seq<u8>, header: Seq<u8>) -> Result<(), ErrorKind> {
    if computed == header {
        Ok(())
    } else {
        Err(ErrorKind::MerkleRootMismatch(spec_hash_display(computed), spec_hash_display(header)))
    }
}

/// Compare a computed Merkle root with the header's; a mismatch reports both
/// in display order.
pub fn check_merkle_root(computed: &[u8; 32], header: &[u8; 32]) -> (res: Result<(), ChainError>)
    ensures
        match res {
            Ok(()) => spec_merkle_check(computed@, header@) is Ok,
            Err(e) => spec_merkle_check(computed@, header@) == Err::<(), ErrorKind>(e.kind()),
        },
{
    let mut i: usize = 0;
    while i < 32
        invariant
            i <= 32,
            computed@.len() == 32,
            header@.len() == 32,
            forall|j: int| 0 <= j < i ==> computed@[j] == header@[j],
        decreases 32 - i,
    {
        if computed[i] != header[i] {
            return Err(
                ChainError::MerkleRootMismatch {
                    computed: hash_display(computed),
                    header: hash_display(header),
                },
            );
        }
        i = i + 1;
    }
    proof {
        assert(computed@ =~= header@);
    }
    Ok(())
}

/// One block: an 80-byte header, a CompactSize transaction count (at least
/// one), the coinbase (checked right after it is read), the other
/// transactions, and a Merkle root over the txids that must match the
/// header's. Bytes after the last transaction are not read.
pub open spec fn spec_parse_block(s: Seq<u8>) -> Result<ParsedBlockModel, ErrorKind> {
    if s.len() < 80 {
        Err(ErrorKind::UnexpectedEof("block_data"@))
    } else {
        let header = spec_block_header(s.take(80));
        match sp_compact(s.skip(80)) {
            Err(e) => Err(e),
            Ok((n, c)) => if n == 0 {
                Err(ErrorKind::InvalidField("tx_count"@, "block has no transactions"@))
            } else {
                let p = 80 + c;
                match sp_block_tx(s.skip(p as int)) {
                    Err(e) => Err(e),
                    Ok((cb, c0)) => if !spec_valid_coinbase(cb.0) {
                        Err(spec_coinbase_error(cb.0))
                    } else {
                        match sp_many(s.skip((p + c0) as int), (n - 1) as nat, block_tx_item()) {
                            Err(e) => Err(e),
                            Ok((others, _c)) => {
                                let txs = seq![cb] + others;
                                match spec_merkle_check(
                                    merkle_root_of(block_txids(txs)),
                                    header.merkle_root,
                                ) {
                                    Err(e) => Err(e),
                                    Ok(()) => Ok(
                                        ParsedBlockModel {
                                            header,
                                            block_hash: spec_sha256d(s.take(80)),
                                            transactions: txs.map_values(
                                                |t: (TxModel, Seq<u8>)| t.1,
                                            ),
                                        },
                                    ),
                                }
                            },
                        }
                    },
                }
            },
        }
    }
}

/// Copy a slice into a new vector.
fn to_owned_bytes(b: &[u8]) -> (v: Vec<u8>)
    ensures
        v@ == b@,
{
    let mut v: Vec<u8> = Vec::new();
    push_bytes(&mut v, b);
    proof {
        assert(v@ =~= b@);
    }
    v
}

/// Read the 80-byte header at the start of `data`.
fn parse_header(raw: &[u8]) -> (h: BlockHeader)
    requires
        raw@.len() == 80,
    ensures
        h@ == spec_block_header(raw@),
{
    let mut hr = BufferReader::new(raw);
    let ghost r0 = hr;
    proof {
        assert(r0.rest() =~= raw@);
    }
    let version = match hr.read_i32_le() {
        Ok(v) => v,
        Err(_) => {
            proof {
                assert(false);
            }
            0
        },
    };
    let ghost r1 = hr;
    let prev = match hr.read_bytes(32) {
        Ok(b) => b,
        Err(_) => {
            proof {
                lemma_rest_advance(r0, r1, 4);
                assert(false);
            }
            raw
        },
    };
    let ghost r2 = hr;
    let merkle = match hr.read_bytes(32) {
        Ok(b) => b,
        Err(_) => {
            proof {
                lemma_rest_advance(r0, r2, 36);
                assert(false);
            }
            raw
        },
    };
    let ghost r3 = hr;
    let timestamp = match hr.read_u32_le() {
        Ok(v) => v,
        Err(_) => {
            proof {
                lemma_rest_advance(r0, r3, 68);
                assert(false);
            }
            0
        },
    };
    let ghost r4 = hr;
    let bits = match hr.read_u32_le() {
        Ok(v) => v,
        Err(_) => {
            proof {
                lemma_rest_advance(r0, r4, 72);
                assert(false);
            }
            0
        },
    };
    let ghost r5 = hr;
    let nonce = match hr.read_u32_le() {
        Ok(v) => v,
        Err(_) => {
            proof {
                lemma_rest_advance(r0, r5, 76);
                assert(false);
            }
            0
        },
    };
    proof {
        lemma_rest_advance(r0, r1, 4);
        lemma_rest_advance(r0, r2, 36);
        lemma_rest_advance(r0, r3, 68);
        lemma_rest_advance(r0, r4, 72);
        lemma_rest_advance(r0, r5, 76);
        assert(raw@.skip(4).take(32) =~= raw@.subrange(4, 36));
        assert(raw@.skip(36).take(32) =~= raw@.subrange(36, 68));
        assert(raw@.skip(68).take(4) =~= raw@.subrange(68, 72));
        assert(raw@.skip(72).take(4) =~= raw@.subrange(72, 76));
        assert(raw@.skip(76).take(4) =~= raw@.subrange(76, 80));
    }
    let prev_block_hash = to_array32(prev);
    let merkle_root = to_array32(merkle);
    BlockHeader { version, prev_block_hash, merkle_root, timestamp, bits, nonce }
}

/// Read one transaction of a block where the reader stands, with a copy of
/// its raw bytes and its txid.
fn parse_block_tx<'a>(data: &'a [u8], r: &mut BufferReader<'a>) -> (res: Result<
    (RawTransaction<'a>, Vec<u8>, [u8; 32]),
    ChainError,
>)
    requires
        old(r).wf(),
        old(r).data() == data@,
    ensures
        final(r).data() == old(r).data(),
        final(r).wf(),
        match res {
            Ok((tx, raw, txid)) => sp_block_tx(old(r).rest()) matches Ok((v, c)) && v.0 == tx@
                && v.1 == raw@ && txid@ == spec_txid(tx@) && final(r).pos() == old(r).pos() + c,
            Err(e) => sp_block_tx(old(r).rest()) matches Err(k) && e.kind() == k,
        },
{
    let ghost r0 = *r;
    proof {
        reveal(sp_block_tx);
    }
    let start = r.position();
    let rem = vstd::slice::slice_subrange(data, start, data.len());
    proof {
        assert(rem@ =~= r0.rest());
    }
    let tx = parse_tx(rem)?;
    let len = tx.full_bytes.len();
    let raw = to_owned_bytes(tx.full_bytes);
    let txid = sha256d(tx.legacy_bytes.as_slice());
    match r.read_bytes(len) {
        Ok(_) => {},
        Err(_) => {
            proof {
                assert(false);
            }
        },
    }
    Ok((tx, raw, txid))
}

/// The raw bytes of each transaction.
pub open spec fn tx_raws(txs: Seq<(TxModel, Seq<u8>)>) -> Seq<Seq<u8>> {
    txs.map_values(|t: (TxModel, Seq<u8>)| t.1)
}

/// Appending one transaction to a block keeps the raw bytes and txids in step.
proof fn lemma_block_views_push(
    cb: (TxModel, Seq<u8>),
    items: Seq<(TxModel, Seq<u8>)>,
    item: (TxModel, Seq<u8>),
    raws: Seq<Vec<u8>>,
    raw: Vec<u8>,
    ids: Seq<[u8; 32]>,
    id: [u8; 32],
)
    requires
        buffers_view(raws) == tx_raws(seq![cb] + items),
        hashes_view(ids) == block_txids(seq![cb] + items),
        item.1 == raw@,
        id@ == spec_txid(item.0),
    ensures
        buffers_view(raws.push(raw)) == tx_raws(seq![cb] + items.push(item)),
        hashes_view(ids.push(id)) == block_txids(seq![cb] + items.push(item)),
{
    assert(seq![cb] + items.push(item) =~= (seq![cb] + items).push(item));
    assert(buffers_view(raws.push(raw)) =~= buffers_view(raws).push(raw@));
    assert(tx_raws((seq![cb] + items).push(item)) =~= tx_raws(seq![cb] + items).push(item.1));
    assert(hashes_view(ids.push(id)) =~= hashes_view(ids).push(id@));
    assert(block_txids((seq![cb] + items).push(item)) =~= block_txids(seq![cb] + items).push(
        spec_txid(item.0),
    ));
}

/// Parse one block: header, transactions, coinbase shape and Merkle root.
fn parse_single_block(data: &[u8]) -> (res: Result<ParsedBlock, ChainError>)
    ensures
        match res {
            Ok(b) => spec_parse_block(data@) == Ok::<ParsedBlockModel, ErrorKind>(b@),
            Err(e) => spec_parse_block(data@) matches Err(k) && e.kind() == k,
        },
{
    let mut r = BufferReader::new(data);
    let ghost r0 = r;
    proof {
        assert(r0.rest() =~= data@);
    }
    if r.remaining() < 80 {
        return Err(ChainError::UnexpectedEof { context: "block_data" });
    }
    let raw_header = match r.read_bytes(80) {
        Ok(b) => b,
        Err(_) => {
            proof {
                assert(false);
            }
            data
        },
    };
    let header = parse_header(raw_header);
    let block_hash = sha256d(raw_header);
    proof {
        lemma_rest_advance(r0, r, 80);
    }
    let tx_count = r.read_compact_size()?;
    let ghost c = (r.pos() - 80) as nat;
    proof {
        lemma_rest_advance(r0, r, 80 + c);
        lemma_skip_skip(data@, 80, c as int);
    }
    if tx_count == 0 {
        return Err(
            ChainError::InvalidField {
                field: "tx_count",
                detail: "block has no transactions".to_owned(),
            },
        );
    }
    let ghost rc = r;
    let (cb, cb_raw, cb_txid) = parse_block_tx(data, &mut r)?;
    let ghost cb_item = (cb@, cb_raw@);
    validate_coinbase(&cb)?;
    let ghost start = r.pos();
    let ghost s = data@.skip(start as int);
    proof {
        assert(sp_compact(data@.skip(80)) == Ok::<(u64, nat), ErrorKind>((tx_count, c)));
        lemma_rest_advance(r0, r, start);
        lemma_skip_skip(data@, (80 + c) as int, start - 80 - c);
        assert(s.skip(0) =~= s);
    }
    let mut transactions: Vec<Vec<u8>> = Vec::new();
    transactions.push(cb_raw);
    let mut txids: Vec<[u8; 32]> = Vec::new();
    txids.push(cb_txid);
    let ghost mut items: Seq<(TxModel, Seq<u8>)> = seq![];
    proof {
        assert(buffers_view(transactions@) =~= tx_raws(seq![cb_item] + items));
        assert(hashes_view(txids@) =~= block_txids(seq![cb_item] + items));
    }
    let mut k: u64 = 1;
    while k < tx_count
        invariant
            r.wf(),
            r.data() == data@,
            start <= r.pos(),
            s == data@.skip(start as int),
            r.rest() == s.skip((r.pos() - start) as int),
            1 <= k <= tx_count,
            data@.len() >= 80,
            sp_compact(data@.skip(80)) == Ok::<(u64, nat), ErrorKind>((tx_count, c)),
            sp_block_tx(data@.skip((80 + c) as int)) == Ok::<((TxModel, Seq<u8>), nat), ErrorKind>(
                (cb_item, (start - 80 - c) as nat),
            ),
            spec_valid_coinbase(cb_item.0),
            80 + c <= start,
            sp_many(s, (k - 1) as nat, block_tx_item()) == Ok::<
                (Seq<(TxModel, Seq<u8>)>, nat),
                ErrorKind,
            >((items, (r.pos() - start) as nat)),
            buffers_view(transactions@) == tx_raws(seq![cb_item] + items),
            hashes_view(txids@) == block_txids(seq![cb_item] + items),
        decreases tx_count - k,
    {
        let ghost rk = r;
        let (tx, raw, txid) = match parse_block_tx(data, &mut r) {
            Ok(t) => t,
            Err(e) => {
                proof {
                    lemma_many_err(s, (k - 1) as nat, (tx_count - 1) as nat, block_tx_item());
                }
                return Err(e);
            },
        };
        let ghost item = (tx@, raw@);
        let ghost prev_t = transactions@;
        let ghost prev_h = txids@;
        transactions.push(raw);
        txids.push(txid);
        proof {
            lemma_rest_advance(rk, r, (r.pos() - rk.pos()) as nat);
            lemma_skip_skip(s, rk.pos() - start, r.pos() - rk.pos());
            let old_items = items;
            items = items.push(item);
            lemma_block_views_push(cb_item, old_items, item, prev_t, raw, prev_h, txid);
            assert(buffers_view(transactions@) == buffers_view(prev_t.push(raw)));
            assert(hashes_view(txids@) == hashes_view(prev_h.push(txid)));
        }
        k = k + 1;
    }
    let root = match compute_merkle_root(txids.as_slice()) {
        Some(h) => h,
        None => {
            return Err(
                ChainError::InvalidField { field: "merkle", detail: "no transactions".to_owned() },
            );
        },
    };
    check_merkle_root(&root, &header.merkle_root)?;
    let block = ParsedBlock { header, block_hash, transactions };
    proof {
        assert(raw_header@ =~= data@.take(80));
        assert(tx_raws(seq![cb_item] + items) =~= (seq![cb_item] + items).map_values(
            |t: (TxModel, Seq<u8>)| t.1,
        ));
    }
    Ok(block)
}

/// The blocks of a blk*.dat file.
///
/// Each record is the magic number, a u32-le size and a block of that many
/// bytes. Reading stops at the end of the data, before a tail shorter than
/// 8 bytes, or at a zero magic (preallocated space).
pub open spec fn spec_block_file(s: Seq<u8>) -> Result<Seq<ParsedBlockModel>, ErrorKind>
    decreases s.len(),
{
    if s.len() < 8 {
        Ok(seq![])
    } else {
        let magic = le_value(s.take(4));
        let size = le_value(s.subrange(4, 8)) as int;
        if magic == 0 {
            Ok(seq![])
        } else if magic != MAINNET_MAGIC {
            Err(ErrorKind::InvalidMagic(MAINNET_MAGIC, magic as u32))
        } else if s.len() < 8 + size {
            Err(ErrorKind::UnexpectedEof("block_size"@))
        } else {
            match spec_parse_block(s.subrange(8, 8 + size)) {
                Err(e) => Err(e),
                Ok(b) => match spec_block_file(s.skip(8 + size)) {
                    Err(e) => Err(e),
                    Ok(more) => Ok(seq![b] + more),
                },
            }
        }
    }
}

/// Whether `s` consists of whole block records, each with the mainnet
/// magic, a size that fits, and a block that parses.
pub open spec fn whole_records(s: Seq<u8>) -> bool
    decreases s.len(),
{
    if s.len() == 0 {
        true
    } else if s.len() < 8 {
        false
    } else {
        let size = le_value(s.subrange(4, 8)) as int;
        &&& le_value(s.take(4)) == MAINNET_MAGIC
        &&& s.len() >= 8 + size
        &&& spec_parse_block(s.subrange(8, 8 + size)) is Ok
        &&& whole_records(s.skip(8 + size))
    }
}

/// Padding: after whole records, a tail of zero bytes (preallocated space)
/// or of fewer than eight bytes leaves the blocks read unchanged.
pub proof fn lemma_block_file_padding(d: Seq<u8>, pad: Seq<u8>)
    requires
        whole_records(d),
        pad.len() < 8 || forall|i: int| 0 <= i < pad.len() ==> pad[i] == 0,
    ensures
        spec_block_file(d + pad) == spec_block_file(d),
        spec_block_file(d) is Ok,
    decreases d.len(),
{
    let s = d + pad;
    if d.len() == 0 {
        assert(s =~= pad);
        if pad.len() >= 8 {
            assert(pad.take(4) =~= seq![0u8, 0u8, 0u8, 0u8]);
            assert(le_value(seq![0u8, 0u8, 0u8, 0u8]) == 0) by {
                reveal_with_fuel(le_value, 5);
            }
        }
    } else {
        let size = le_value(d.subrange(4, 8)) as int;
        assert(s.take(4) =~= d.take(4));
        assert(s.subrange(4, 8) =~= d.subrange(4, 8));
        assert(s.subrange(8, 8 + size) =~= d.subrange(8, 8 + size));
        assert(s.skip(8 + size) =~= d.skip(8 + size) + pad);
        lemma_block_file_padding(d.skip(8 + size), pad);
    }
}

/// The views of a sequence of parsed blocks.
pub open spec fn blocks_view(v: Seq<ParsedBlock>) -> Seq<ParsedBlockModel> {
    v.map_values(|b: ParsedBlock| b@)
}

/// `done` followed by what `res` holds, or the error of `res`.
pub open spec fn blocks_prefixed(
    done: Seq<ParsedBlockModel>,
    res: Result<Seq<ParsedBlockModel>, ErrorKind>,
) -> Result<Seq<ParsedBlockModel>, ErrorKind> {
    match res {
        Ok(more) => Ok(done + more),
        Err(e) => Err(e),
    }
}

/// Where reading stops, nothing more is added to what was read.
proof fn lemma_block_file_stop(s: Seq<u8>, done: Seq<ParsedBlockModel>)
    requires
        s.len() < 8 || le_value(s.take(4)) == 0,
    ensures
        blocks_prefixed(done, spec_block_file(s)) == Ok::<Seq<ParsedBlockModel>, ErrorKind>(done),
{
    assert(done + Seq::<ParsedBlockModel>::empty() =~= done);
}

/// One complete record moves from the unread part to what was read.
proof fn lemma_block_file_record(s: Seq<u8>, done: Seq<ParsedBlockModel>, b: ParsedBlockModel, n: nat)
    requires
        s.len() >= 8,
        le_value(s.take(4)) == MAINNET_MAGIC,
        n == 8 + le_value(s.subrange(4, 8)),
        n <= s.len(),
        spec_parse_block(s.subrange(8, n as int)) == Ok::<ParsedBlockModel, ErrorKind>(b),
    ensures
        blocks_prefixed(done, spec_block_file(s)) == blocks_prefixed(
            done.push(b),
            spec_block_file(s.skip(n as int)),
        ),
{
    match spec_block_file(s.skip(n as int)) {
        Ok(more) => {
            assert(done + (seq![b] + more) =~= done.push(b) + more);
        },
        Err(_) => {},
    }
}

/// Parse every block of a blk*.dat file (already XOR-decoded).
pub fn parse_block_file(data: &[u8]) -> (res: Result<Vec<ParsedBlock>, ChainError>)
    ensures
        match res {
            Ok(v) => spec_block_file(data@) == Ok::<Seq<ParsedBlockModel>, ErrorKind>(
                blocks_view(v@),
            ),
            Err(e) => spec_block_file(data@) matches Err(k) && e.kind() == k,
        },
{
    let mut r = BufferReader::new(data);
    let mut blocks: Vec<ParsedBlock> = Vec::new();
    proof {
        assert(r.rest() =~= data@);
        assert(blocks_view(blocks@) =~= Seq::<ParsedBlockModel>::empty());
        match spec_block_file(data@) {
            Ok(more) => {
                assert(Seq::<ParsedBlockModel>::empty() + more =~= more);
            },
            Err(_) => {},
        }
    }
    while r.remaining() > 0
        invariant_except_break
            spec_block_file(data@) == blocks_prefixed(blocks_view(blocks@), spec_block_file(r.rest())),
        invariant
            r.wf(),
            r.data() == data@,
        ensures
            spec_block_file(data@) == Ok::<Seq<ParsedBlockModel>, ErrorKind>(blocks_view(blocks@)),
        decreases r.data().len() - r.pos(),
    {
        let ghost r0 = r;
        let ghost s = r0.rest();
        let ghost done = blocks_view(blocks@);
        if r.remaining() < 8 {
            proof {
                lemma_block_file_stop(s, done);
            }
            break;
        }
        let magic = r.read_u32_le()?;
        if magic == 0 {
            proof {
                lemma_block_file_stop(s, done);
            }
            break;
        }
        if magic != MAINNET_MAGIC {
            return Err(ChainError::InvalidMagic { expected: MAINNET_MAGIC, got: magic });
        }
        let ghost r1 = r;
        proof {
            lemma_rest_advance(r0, r1, 4);
        }
        let block_size = r.read_u32_le()?;
        proof {
            assert(s.skip(4).take(4) =~= s.subrange(4, 8));
        }
        if r.remaining() < block_size as usize {
            return Err(ChainError::UnexpectedEof { context: "block_size" });
        }
        let block_slice = match r.read_bytes(block_size as usize) {
            Ok(b) => b,
            Err(_) => {
                proof {
                    assert(false);
                }
                data
            },
        };
        proof {
            lemma_rest_advance(r0, r, (8 + block_size) as nat);
            assert(block_slice@ =~= s.subrange(8, 8 + block_size));
        }
        let block = parse_single_block(block_slice)?;
        blocks.push(block);
        proof {
            lemma_block_file_record(s, done, block@, (8 + block_size) as nat);
            assert(blocks_view(blocks@) =~= done.push(block@));
        }
    }
    Ok(blocks)
}

} // verus!
