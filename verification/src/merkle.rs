//! Merkle witness extraction.
//!
//! A batched multi-column inclusion proof stores the extra sibling
//! leaves and the internal sibling nodes a verifier needs to recompute
//! the root from the queried leaves.  The witness is those two runs,
//! in the proof's stored order — sibling leaves first, then internal
//! nodes — each digest read as its big-endian 256-bit integer.  That
//! order is load-bearing for the external verifier and is never
//! reordered or deduplicated further.
use vstd::prelude::*;

verus! {

use crate::digest::Digest;
use crate::digest::MixedDigest;
use crate::digest::be_val;
use crate::digest::digest_to_word;
use crate::digest::digest_wf;
use crate::scalar::Word256;
use crate::scalar::word_val;

/// A batched multi-column inclusion proof: the sibling leaves adjacent
/// to (but not equal to) the queried leaves, the internal sibling-node
/// hashes up the tree, and the tree height.  The height supports an
/// absolute-index adjustment the wire schema does not consume.
pub struct MultiColProof {
    pub sibling_leaves: Vec<Digest>,
    pub nodes: Vec<Digest>,
    pub height: u64,
}

/// A single-column inclusion proof: only its node path is modelled, as
/// the encoder defines no behaviour for this variant.
pub struct SingleColProof {
    pub nodes: Vec<Digest>,
}

/// The two commitment flavours a proof may carry; only the batched
/// multi-column variant can be encoded.
pub enum MerkleProof {
    MultiCol(MultiColProof),
    SingleCol(SingleColProof),
}

/// Every stored digest holds its full thirty-two bytes.
pub open spec fn multi_col_wf(p: MultiColProof) -> bool {
    &&& forall|i: int| 0 <= i < p.sibling_leaves@.len() ==> digest_wf(#[trigger] p.sibling_leaves@[i])
    &&& forall|i: int| 0 <= i < p.nodes@.len() ==> digest_wf(#[trigger] p.nodes@[i])
    &&& p.sibling_leaves@.len() + p.nodes@.len() <= u64::MAX
}

pub open spec fn merkle_proof_wf(p: MerkleProof) -> bool {
    match p {
        MerkleProof::MultiCol(m) => multi_col_wf(m),
        MerkleProof::SingleCol(s) => true,
    }
}

/// The big-endian integers of a run of digests, in order.
pub open spec fn digest_words(s: Seq<Digest>) -> Seq<nat> {
    s.map_values(|d: Digest| be_val(d.bytes@))
}

/// The witness a multi-column proof yields: sibling leaves then nodes,
/// in stored order.
pub open spec fn spec_merkle_witness(p: MultiColProof) -> Seq<nat> {
    digest_words(p.sibling_leaves@) + digest_words(p.nodes@)
}

/// The integer values of a word run.
pub open spec fn word_vals(s: Seq<Word256>) -> Seq<nat> {
    s.map_values(|w: Word256| word_val(w))
}

/// Convert a run of digests to their words, keeping the order.
fn digests_to_words(out: &mut Vec<Word256>, ds: &Vec<Digest>)
    requires
        forall|i: int| 0 <= i < ds@.len() ==> digest_wf(#[trigger] ds@[i]),
    ensures
        word_vals(final(out)@) == word_vals(old(out)@) + digest_words(ds@),
{
    let mut i: usize = 0;
    while i < ds.len()
        invariant
            i <= ds@.len(),
            forall|k: int| 0 <= k < ds@.len() ==> digest_wf(#[trigger] ds@[k]),
            word_vals(out@) == word_vals(old(out)@) + digest_words(ds@.subrange(0, i as int)),
        decreases ds@.len() - i,
    {
        let ghost pre = out@;
        let w = digest_to_word(&ds[i]);
        out.push(w);
        proof {
            assert(word_vals(out@) =~= word_vals(pre).push(word_val(w)));
            assert(digest_words(ds@.subrange(0, i + 1)) =~= digest_words(
                ds@.subrange(0, i as int),
            ).push(be_val(ds@[i as int].bytes@)));
            assert(word_vals(out@) =~= word_vals(old(out)@) + digest_words(
                ds@.subrange(0, i + 1),
            ));
        }
        i = i + 1;
    }
    proof {
        assert(ds@.subrange(0, ds@.len() as int) =~= ds@);
    }
}

/// Extract the ordered witness values of a batched inclusion proof: the
/// proof's sibling leaves, then its internal nodes, each read as a raw
/// big-endian integer.  The root is taken for symmetry with the
/// commitment it authenticates and the queried indices for the layer;
/// neither changes the stored order.  A single-column proof has no
/// defined encoding and is reported as unsupported.
pub fn get_merkle_witness_values(
    root: &MixedDigest,
    inclusion: &MerkleProof,
    indices: &Vec<u64>,
) -> (r: Option<Vec<Word256>>)
    requires
        merkle_proof_wf(*inclusion),
    ensures
        r is Some <==> inclusion is MultiCol,
        inclusion matches MerkleProof::MultiCol(m) ==> word_vals(r->Some_0@)
            == spec_merkle_witness(*m),
{
    match inclusion {
        MerkleProof::MultiCol(m) => {
            let mut out: Vec<Word256> = Vec::new();
            proof {
                assert(word_vals(out@) =~= Seq::<nat>::empty());
            }
            digests_to_words(&mut out, &m.sibling_leaves);
            digests_to_words(&mut out, &m.nodes);
            proof {
                assert(Seq::<nat>::empty() + digest_words(m.sibling_leaves@) + digest_words(
                    m.nodes@,
                ) =~= spec_merkle_witness(*m));
            }
            Some(out)
        },
        MerkleProof::SingleCol(_) => None,
    }
}

} // verus!
