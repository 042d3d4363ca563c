//! Block-level context shared by the per-transaction heuristics.

use vstd::prelude::*;

use crate::types::{entry_get, entry_index, lemma_entry_index};

verus! {

/// Whether two byte strings are equal.
pub fn bytes_eq(a: &[u8], b: &[u8]) -> (r: bool)
    ensures
        r == (a@ == b@),
{
    if a.len() != b.len() {
        return false;
    }
    let mut i: usize = 0;
    while i < a.len()
        invariant
            a@.len() == b@.len(),
            i <= a@.len(),
            forall|j: int| 0 <= j < i ==> a@[j] == b@[j],
        decreases a@.len() - i,
    {
        if a[i] != b[i] {
            return false;
        }
        i = i + 1;
    }
    proof {
        assert(a@ =~= b@);
    }
    true
}

/// What a block context holds, as plain values.
pub struct BlockContextModel {
    pub script_index: Seq<(Seq<u8>, Seq<Seq<char>>)>,
    pub spend_index: Seq<((Seq<char>, u32), Seq<char>)>,
    pub block_txids: Seq<Seq<char>>,
}

/// Block-level context passed to per-transaction heuristics that require
/// cross-transaction state. Built once per block from the parsed
/// transactions.
pub struct BlockContext {
    /// scriptPubKey bytes → the distinct txids with an output to it, for all
    /// non-empty, non-OP_RETURN outputs in this block.
    pub script_index: Vec<(Vec<u8>, Vec<String>)>,
    /// (display txid, vout) → display txid of the spending transaction, for
    /// all inputs in this block except the coinbase's.
    pub spend_index: Vec<((String, u32), String)>,
    /// The display txids of the non-coinbase transactions of this block.
    pub block_txids: Vec<String>,
}

/// The views of the script index entries.
pub open spec fn script_index_view(v: Seq<(Vec<u8>, Vec<String>)>) -> Seq<(Seq<u8>, Seq<Seq<char>>)> {
    v.map_values(|e: (Vec<u8>, Vec<String>)| (e.0@, strings_view(e.1@)))
}

/// The views of a list of strings.
pub open spec fn strings_view(v: Seq<String>) -> Seq<Seq<char>> {
    v.map_values(|s: String| s@)
}

/// The views of the spend index entries.
pub open spec fn spend_index_view(v: Seq<((String, u32), String)>) -> Seq<((Seq<char>, u32), Seq<char>)> {
    v.map_values(|e: ((String, u32), String)| ((e.0.0@, e.0.1), e.1@))
}

impl View for BlockContext {
    type V = BlockContextModel;

    open spec fn view(&self) -> BlockContextModel {
        BlockContextModel {
            script_index: script_index_view(self.script_index@),
            spend_index: spend_index_view(self.spend_index@),
            block_txids: strings_view(self.block_txids@),
        }
    }
}

/// How many txids the index lists for `script`, if it lists the script.
pub open spec fn spec_script_count(m: BlockContextModel, script: Seq<u8>) -> Option<nat> {
    match entry_get(m.script_index, script) {
        Some(l) => Some(l.len()),
        None => None,
    }
}

/// The position of the first script-index entry for `script`.
pub fn find_script(index: &Vec<(Vec<u8>, Vec<String>)>, script: &[u8]) -> (r: Option<usize>)
    ensures
        match r {
            Some(i) => i < index@.len() && entry_index(script_index_view(index@), script@) == Some(
                i as int,
            ),
            None => entry_index(script_index_view(index@), script@) is None,
        },
{
    let ghost ev = script_index_view(index@);
    let mut i: usize = 0;
    while i < index.len()
        invariant
            ev == script_index_view(index@),
            i <= index@.len(),
            forall|j: int| 0 <= j < i ==> (#[trigger] ev[j]).0 != script@,
        decreases index@.len() - i,
    {
        if bytes_eq(index[i].0.as_slice(), script) {
            proof {
                assert(ev[i as int].0 == script@);
                lemma_entry_index(ev, script@);
            }
            return Some(i);
        }
        proof {
            assert(ev[i as int].0 != script@);
        }
        i = i + 1;
    }
    proof {
        lemma_entry_index(ev, script@);
        if entry_index(ev, script@) is Some {
            let j = entry_index(ev, script@)->Some_0;
            assert(ev[j].0 == script@);
        }
    }
    None
}

/// The position of the first spend-index entry for `(txid, vout)`.
pub fn find_spend(index: &Vec<((String, u32), String)>, txid: &str, vout: u32) -> (r: Option<usize>)
    ensures
        match r {
            Some(i) => i < index@.len() && entry_index(spend_index_view(index@), (txid@, vout))
                == Some(i as int),
            None => entry_index(spend_index_view(index@), (txid@, vout)) is None,
        },
{
    let ghost ev = spend_index_view(index@);
    let key = txid.to_owned();
    let mut i: usize = 0;
    while i < index.len()
        invariant
            ev == spend_index_view(index@),
            key@ == txid@,
            i <= index@.len(),
            forall|j: int| 0 <= j < i ==> (#[trigger] ev[j]).0 != (txid@, vout),
        decreases index@.len() - i,
    {
        if index[i].0.1 == vout && index[i].0.0 == key {
            proof {
                assert(ev[i as int].0 == (txid@, vout));
                lemma_entry_index(ev, (txid@, vout));
            }
            return Some(i);
        }
        proof {
            assert(ev[i as int].0 != (txid@, vout));
        }
        i = i + 1;
    }
    proof {
        lemma_entry_index(ev, (txid@, vout));
        if entry_index(ev, (txid@, vout)) is Some {
            let j = entry_index(ev, (txid@, vout))->Some_0;
            assert(ev[j].0 == (txid@, vout));
        }
    }
    None
}

/// Whether `t` is one of `v`.
pub fn contains_string(v: &Vec<String>, t: &str) -> (r: bool)
    ensures
        r == strings_view(v@).contains(t@),
{
    let ghost sv = strings_view(v@);
    let key = t.to_owned();
    let mut i: usize = 0;
    while i < v.len()
        invariant
            sv == strings_view(v@),
            key@ == t@,
            i <= v@.len(),
            forall|j: int| 0 <= j < i ==> (#[trigger] sv[j]) != t@,
        decreases v@.len() - i,
    {
        if v[i] == key {
            proof {
                assert(sv[i as int] == t@);
            }
            return true;
        }
        proof {
            assert(sv[i as int] != t@);
        }
        i = i + 1;
    }
    false
}

impl BlockContext {
    /// How many distinct txids of the block pay to `script`, if any does.
    pub fn script_count(&self, script: &[u8]) -> (r: Option<usize>)
        ensures
            match r {
                Some(n) => spec_script_count(self@, script@) == Some(n as nat),
                None => spec_script_count(self@, script@) is None,
            },
    {
        match find_script(&self.script_index, script) {
            Some(i) => {
                proof {
                    assert(script_index_view(self.script_index@)[i as int].1.len()
                        == self.script_index@[i as int].1@.len());
                }
                Some(self.script_index[i].1.len())
            },
            None => None,
        }
    }

    /// The display txid of the transaction of this block that spends output
    /// `vout` of `txid`, if one does.
    pub fn spender(&self, txid: &str, vout: u32) -> (r: Option<&String>)
        ensures
            match r {
                Some(s) => entry_get(self@.spend_index, (txid@, vout)) == Some(s@),
                None => entry_get(self@.spend_index, (txid@, vout)) is None,
            },
    {
        match find_spend(&self.spend_index, txid, vout) {
            Some(i) => Some(&self.spend_index[i].1),
            None => None,
        }
    }

    /// Whether `txid` is a non-coinbase transaction of this block.
    pub fn has_txid(&self, txid: &str) -> (r: bool)
        ensures
            r == self@.block_txids.contains(txid@),
    {
        contains_string(&self.block_txids, txid)
    }
}

} // verus!
